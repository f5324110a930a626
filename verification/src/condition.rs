//! The condition of an alert: how a value is compared, and with what.

use vstd::prelude::*;
use vstd::string::*;

use crate::solark::RegData;
use crate::text::{decimal, tenths_decimal};

verus! {

/// How a value is compared with a limit.
#[derive(Debug, Clone, Copy, PartialEq, Eq, Structural)]
pub enum Comparison {
    AtLeast,
    AtMost,
    Equal,
    NotEqual,
    Above,
    Below,
}

/// `a` stands to `b` as `comparison` says.
pub open spec fn stands(comparison: Comparison, a: int, b: int) -> bool {
    match comparison {
        Comparison::AtLeast => a >= b,
        Comparison::AtMost => a <= b,
        Comparison::Equal => a == b,
        Comparison::NotEqual => a != b,
        Comparison::Above => a > b,
        Comparison::Below => a < b,
    }
}

/// A limit, placed among the tenths of a unit. Every value is a whole number
/// of tenths, so no more is needed to compare one with it.
#[derive(Debug, Clone, Copy, PartialEq, Eq, Structural)]
pub enum Limit {
    /// So many tenths.
    At(i128),
    /// More than so many tenths, and less than one tenth more.
    Between(i128),
    /// More than any value.
    High,
    /// Less than any value.
    Low,
    /// No number: it equals nothing and is in no order to anything.
    NotANumber,
}

impl Limit {
    /// A value of `tenths` stands to the limit as `comparison` says.
    pub open spec fn admits(self, comparison: Comparison, tenths: int) -> bool {
        match self {
            Limit::At(n) => stands(comparison, tenths, n as int),
            Limit::Between(n) => match comparison {
                Comparison::AtLeast | Comparison::Above => tenths > n,
                Comparison::AtMost | Comparison::Below => tenths <= n,
                Comparison::Equal => false,
                Comparison::NotEqual => true,
            },
            Limit::High => match comparison {
                Comparison::AtMost | Comparison::Below | Comparison::NotEqual => true,
                Comparison::AtLeast | Comparison::Above | Comparison::Equal => false,
            },
            Limit::Low => match comparison {
                Comparison::AtLeast | Comparison::Above | Comparison::NotEqual => true,
                Comparison::AtMost | Comparison::Below | Comparison::Equal => false,
            },
            Limit::NotANumber => comparison == Comparison::NotEqual,
        }
    }

    /// Computes `admits`.
    pub fn is_met(&self, comparison: Comparison, tenths: i32) -> (r: bool)
        ensures
            r == self.admits(comparison, tenths as int),
    {
        let t: i128 = tenths as i128;
        match *self {
            Limit::At(n) => match comparison {
                Comparison::AtLeast => t >= n,
                Comparison::AtMost => t <= n,
                Comparison::Equal => t == n,
                Comparison::NotEqual => t != n,
                Comparison::Above => t > n,
                Comparison::Below => t < n,
            },
            Limit::Between(n) => match comparison {
                Comparison::AtLeast | Comparison::Above => t > n,
                Comparison::AtMost | Comparison::Below => t <= n,
                Comparison::Equal => false,
                Comparison::NotEqual => true,
            },
            Limit::High => match comparison {
                Comparison::AtMost | Comparison::Below | Comparison::NotEqual => true,
                Comparison::AtLeast | Comparison::Above | Comparison::Equal => false,
            },
            Limit::Low => match comparison {
                Comparison::AtLeast | Comparison::Above | Comparison::NotEqual => true,
                Comparison::AtMost | Comparison::Below | Comparison::Equal => false,
            },
            Limit::NotANumber => match comparison {
                Comparison::NotEqual => true,
                _ => false,
            },
        }
    }
}

/// `c` is a decimal digit.
pub open spec fn is_digit(c: char) -> bool {
    '0' <= c <= '9'
}

/// `s` is made of decimal digits, at least one.
pub open spec fn is_number(s: Seq<char>) -> bool {
    &&& s.len() > 0
    &&& forall|i: int| 0 <= i < s.len() ==> is_digit(s[i])
}

/// The number that the decimal digits `s` write.
pub open spec fn number(s: Seq<char>) -> nat
    decreases s.len(),
{
    if s.len() == 0 {
        0
    } else {
        (10 * number(s.drop_last()) + (s.last() as int - '0' as int)) as nat
    }
}

/// `s` without the spaces at its front.
pub open spec fn without_spaces(s: Seq<char>) -> Seq<char>
    decreases s.len(),
{
    if s.len() > 0 && s[0] == ' ' {
        without_spaces(s.drop_first())
    } else {
        s
    }
}

/// The integer that `s` writes: after any spaces a sign or none, then decimal
/// digits to the end. Nothing where it is not that.
pub open spec fn integer(s: Seq<char>) -> Option<int> {
    let t = without_spaces(s);
    if is_number(t) {
        Some(number(t) as int)
    } else if t.len() > 0 && t[0] == '+' && is_number(t.drop_first()) {
        Some(number(t.drop_first()) as int)
    } else if t.len() > 0 && t[0] == '-' && is_number(t.drop_first()) {
        Some(-(number(t.drop_first()) as int))
    } else {
        None
    }
}

/// The limit of `n` units. No value comes near an integer beyond 64 bits.
pub open spec fn limit_of(n: int) -> Limit {
    if n > i64::MAX {
        Limit::High
    } else if n < i64::MIN {
        Limit::Low
    } else {
        Limit::At((10 * n) as i128)
    }
}

/// The comparison that `check` starts with, and how many characters it takes.
pub open spec fn comparison_of(check: Seq<char>) -> Option<(Comparison, int)> {
    if check.len() >= 2 && check[0] == '>' && check[1] == '=' {
        Some((Comparison::AtLeast, 2))
    } else if check.len() >= 2 && check[0] == '<' && check[1] == '=' {
        Some((Comparison::AtMost, 2))
    } else if check.len() >= 1 && check[0] == '=' {
        Some((Comparison::Equal, 1))
    } else if check.len() >= 2 && check[0] == '!' && check[1] == '=' {
        Some((Comparison::NotEqual, 2))
    } else if check.len() >= 1 && check[0] == '>' {
        Some((Comparison::Above, 1))
    } else if check.len() >= 1 && check[0] == '<' {
        Some((Comparison::Below, 1))
    } else {
        None
    }
}

/// The condition that `check` writes: a comparison, and behind it the integer
/// to compare with. Where no integer stands there, `limit` is the limit.
pub open spec fn condition_of(
    check: Seq<char>,
    limit: Option<Limit>,
) -> Option<(Comparison, Limit)> {
    match comparison_of(check) {
        Some((comparison, taken)) => match integer(check.skip(taken)) {
            Some(n) => Some((comparison, limit_of(n))),
            None => match limit {
                Some(l) => Some((comparison, l)),
                None => None,
            },
        },
        None => None,
    }
}

/// The characters of a text.
fn chars_of(s: &str) -> (r: Vec<char>)
    ensures
        r@ == s@,
{
    let mut r: Vec<char> = Vec::new();
    let n: usize = s.unicode_len();
    let mut i: usize = 0;
    while i < n
        invariant
            i <= n,
            n == s@.len(),
            r@ == s@.take(i as int),
        decreases n - i,
    {
        r.push(s.get_char(i));
        i += 1;
        assert(r@ =~= s@.take(i as int));
    }
    assert(s@.take(n as int) =~= s@);
    r
}

/// The digits from `from` on as a number; any that is greater than 2^63 comes
/// back as 2^63 + 1.
fn read_number(s: &Vec<char>, from: usize) -> (r: Option<u64>)
    requires
        from <= s@.len(),
    ensures
        r is Some <==> is_number(s@.skip(from as int)),
        r matches Some(n) ==> if number(s@.skip(from as int)) <= 0x8000_0000_0000_0000 {
            n as nat == number(s@.skip(from as int))
        } else {
            n == 0x8000_0000_0000_0001
        },
{
    let ghost t = s@.skip(from as int);
    if from >= s.len() {
        return None;
    }
    let mut n: u64 = 0;
    let mut i: usize = from;
    while i < s.len()
        invariant
            from <= i <= s@.len(),
            t == s@.skip(from as int),
            if number(t.take(i - from)) <= 0x8000_0000_0000_0000 {
                n as nat == number(t.take(i - from))
            } else {
                n == 0x8000_0000_0000_0001
            },
            forall|k: int| 0 <= k < i - from ==> is_digit(t[k]),
        decreases s@.len() - i,
    {
        let c: char = s[i];
        assert(t[i - from] == c);
        if !('0' <= c && c <= '9') {
            assert(!is_digit(t[i - from]));
            return None;
        }
        let d: u64 = (c as u32 - 48) as u64;
        assert(t.take(i + 1 - from).drop_last() =~= t.take(i - from));
        n = if n > (0x8000_0000_0000_0000 - d) / 10 {
            0x8000_0000_0000_0001
        } else {
            10 * n + d
        };
        i += 1;
    }
    assert(t.take(i - from) =~= t);
    Some(n)
}

/// The limit that the characters from `from` on write as an integer.
fn read_integer(s: &Vec<char>, from: usize) -> (r: Option<Limit>)
    requires
        from <= s@.len(),
    ensures
        r == match integer(s@.skip(from as int)) {
            Some(n) => Some(limit_of(n)),
            None => None,
        },
{
    let ghost t = s@.skip(from as int);
    let mut i: usize = from;
    while i < s.len() && s[i] == ' '
        invariant
            from <= i <= s@.len(),
            without_spaces(s@.skip(from as int)) == without_spaces(s@.skip(i as int)),
        decreases s@.len() - i,
    {
        assert(s@.skip(i as int).drop_first() =~= s@.skip(i + 1));
        i += 1;
    }
    let ghost u = s@.skip(i as int);
    assert(without_spaces(t) == u);
    if i >= s.len() {
        return None;
    }
    assert(u.drop_first() =~= s@.skip(i + 1));
    assert(u[0] == s@[i as int]);
    let minus: bool = s[i] == '-';
    let digits: usize = if minus || s[i] == '+' {
        assert(!is_digit(u[0]));
        i + 1
    } else {
        i
    };
    match read_number(s, digits) {
        None => None,
        Some(n) => if minus {
            if n <= 0x8000_0000_0000_0000 {
                Some(Limit::At(-(10 * (n as i128))))
            } else {
                Some(Limit::Low)
            }
        } else {
            if n <= 0x7fff_ffff_ffff_ffff {
                Some(Limit::At(10 * (n as i128)))
            } else {
                Some(Limit::High)
            }
        },
    }
}

/// Computes `condition_of`.
pub fn parse_check(check: &str, limit: Option<Limit>) -> (r: Option<(Comparison, Limit)>)
    ensures
        r == condition_of(check@, limit),
{
    let s = chars_of(check);
    if s.len() == 0 {
        return None;
    }
    let first: char = s[0];
    let then_equal: bool = s.len() >= 2 && s[1] == '=';
    let comparison;
    let taken: usize;
    if first == '>' && then_equal {
        comparison = Comparison::AtLeast;
        taken = 2;
    } else if first == '<' && then_equal {
        comparison = Comparison::AtMost;
        taken = 2;
    } else if first == '=' {
        comparison = Comparison::Equal;
        taken = 1;
    } else if first == '!' && then_equal {
        comparison = Comparison::NotEqual;
        taken = 2;
    } else if first == '>' {
        comparison = Comparison::Above;
        taken = 1;
    } else if first == '<' {
        comparison = Comparison::Below;
        taken = 1;
    } else {
        return None;
    }
    match read_integer(&s, taken) {
        Some(l) => Some((comparison, l)),
        None => match limit {
            Some(l) => Some((comparison, l)),
            None => None,
        },
    }
}

/// A value differs from a limit exactly where it does not equal it; it is at
/// least the limit exactly where it lies above it or equals it, and at most
/// the limit exactly where it lies below it or equals it.
pub proof fn comparisons_fit_together(limit: Limit, tenths: int)
    ensures
        limit.admits(Comparison::NotEqual, tenths) == !limit.admits(Comparison::Equal, tenths),
        limit.admits(Comparison::AtLeast, tenths) == (limit.admits(Comparison::Above, tenths)
            || limit.admits(Comparison::Equal, tenths)),
        limit.admits(Comparison::AtMost, tenths) == (limit.admits(Comparison::Below, tenths)
            || limit.admits(Comparison::Equal, tenths)),
        !(limit.admits(Comparison::Above, tenths) && limit.admits(Comparison::AtMost, tenths)),
        !(limit.admits(Comparison::Below, tenths) && limit.admits(Comparison::AtLeast, tenths)),
{
}

/// How a comparison is written.
pub open spec fn sign_of(comparison: Comparison) -> Seq<char> {
    match comparison {
        Comparison::AtLeast => seq!['>', '='],
        Comparison::AtMost => seq!['<', '='],
        Comparison::Equal => seq!['='],
        Comparison::NotEqual => seq!['!', '='],
        Comparison::Above => seq!['>'],
        Comparison::Below => seq!['<'],
    }
}

/// How an integer is written.
pub open spec fn integer_text(n: int) -> Seq<char> {
    if n < 0 {
        seq!['-'] + decimal((-n) as nat)
    } else {
        decimal(n as nat)
    }
}

proof fn lemma_decimal(n: nat)
    ensures
        is_number(decimal(n)),
        number(decimal(n)) == n,
    decreases n,
{
    let text = decimal(n);
    if n < 10 {
        assert(text.drop_last() =~= Seq::empty());
        assert(number(text.drop_last()) == 0);
    } else {
        lemma_decimal(n / 10);
        assert(text.drop_last() =~= decimal(n / 10));
        assert forall|i: int| 0 <= i < text.len() implies is_digit(text[i]) by {
            if i < text.len() - 1 {
                assert(is_digit(decimal(n / 10)[i]));
            }
        }
    }
}

/// A comparison written with an integer behind it is read back as that
/// comparison and the limit of that integer, whatever other limit there is.
pub proof fn a_written_condition_is_read_back(
    comparison: Comparison,
    n: int,
    limit: Option<Limit>,
)
    ensures
        condition_of(sign_of(comparison) + integer_text(n), limit) == Some(
            (comparison, limit_of(n)),
        ),
{
    let sign = sign_of(comparison);
    let text = integer_text(n);
    let check = sign + text;
    let size: nat = if n < 0 {
        (-n) as nat
    } else {
        n as nat
    };
    lemma_decimal(size);
    assert(is_digit(decimal(size)[0]));
    assert(check.skip(sign.len() as int) =~= text);
    assert(check[sign.len() as int] == text[0]);
    if n < 0 {
        assert(text.drop_first() =~= decimal(size));
        assert(!is_digit(text[0]));
    }
    assert(without_spaces(text) == text);
    assert(comparison_of(check) == Some((comparison, sign.len() as int)));
}

/// The limit of an integer, however large, stands to every value as the
/// integer itself does.
pub proof fn a_limit_compares_as_its_integer(n: int, comparison: Comparison, value: RegData)
    ensures
        limit_of(n).admits(comparison, value.tenths()) == stands(
            comparison,
            value.tenths(),
            10 * n,
        ),
{
}

/// A value is compared with an integer as the two numbers compare: the
/// condition holds exactly where ten times the value stands so to ten times
/// the integer, for every value and every integer.
pub proof fn values_compare_as_numbers(n: int, value: RegData)
    ensures
        limit_of(n).admits(Comparison::Above, value.tenths()) <==> value.tenths() > 10 * n,
        limit_of(n).admits(Comparison::AtLeast, value.tenths()) <==> value.tenths() >= 10 * n,
        limit_of(n).admits(Comparison::Below, value.tenths()) <==> value.tenths() < 10 * n,
        limit_of(n).admits(Comparison::AtMost, value.tenths()) <==> value.tenths() <= 10 * n,
        limit_of(n).admits(Comparison::Equal, value.tenths()) <==> value.tenths() == 10 * n,
        limit_of(n).admits(Comparison::NotEqual, value.tenths()) <==> value.tenths() != 10 * n,
{
}

/// In the value's own unit: whole units compare with the integer, and a
/// voltage, held in tenths, with ten times the integer.
pub proof fn readings_compare_in_their_units(n: int, w: i16, p: u16)
    ensures
        limit_of(n).admits(Comparison::Above, RegData::Watts(w).tenths()) <==> w > n,
        limit_of(n).admits(Comparison::Below, RegData::Watts(w).tenths()) <==> w < n,
        limit_of(n).admits(Comparison::Above, RegData::Percent(p).tenths()) <==> p > n,
        limit_of(n).admits(Comparison::Below, RegData::Percent(p).tenths()) <==> p < n,
        limit_of(n).admits(Comparison::Above, RegData::Hz(p).tenths()) <==> p > n,
        limit_of(n).admits(Comparison::Below, RegData::Hz(p).tenths()) <==> p < n,
        limit_of(n).admits(Comparison::Above, RegData::Volts(w).tenths()) <==> w > 10 * n,
        limit_of(n).admits(Comparison::Below, RegData::Volts(w).tenths()) <==> w < 10 * n,
        limit_of(n).admits(Comparison::Above, RegData::Bool(true).tenths()) <==> 1 > n,
        limit_of(n).admits(Comparison::Below, RegData::Bool(true).tenths()) <==> 1 < n,
        limit_of(n).admits(Comparison::Above, RegData::Bool(false).tenths()) <==> 0 > n,
        limit_of(n).admits(Comparison::Below, RegData::Bool(false).tenths()) <==> 0 < n,
{
}

/// A limit at so many tenths is compared with as that number, and one between
/// two tenths as the number half-way between them.
pub proof fn limits_compare_as_numbers(n: i128, tenths: int)
    ensures
        Limit::At(n).admits(Comparison::Above, tenths) <==> tenths > n,
        Limit::At(n).admits(Comparison::AtLeast, tenths) <==> tenths >= n,
        Limit::At(n).admits(Comparison::Below, tenths) <==> tenths < n,
        Limit::At(n).admits(Comparison::AtMost, tenths) <==> tenths <= n,
        Limit::At(n).admits(Comparison::Equal, tenths) <==> tenths == n,
        Limit::At(n).admits(Comparison::NotEqual, tenths) <==> tenths != n,
        Limit::Between(n).admits(Comparison::Above, tenths) <==> 2 * tenths > 2 * n + 1,
        Limit::Between(n).admits(Comparison::AtLeast, tenths) <==> 2 * tenths >= 2 * n + 1,
        Limit::Between(n).admits(Comparison::Below, tenths) <==> 2 * tenths < 2 * n + 1,
        Limit::Between(n).admits(Comparison::AtMost, tenths) <==> 2 * tenths <= 2 * n + 1,
        Limit::Between(n).admits(Comparison::Equal, tenths) <==> 2 * tenths == 2 * n + 1,
        Limit::Between(n).admits(Comparison::NotEqual, tenths) <==> 2 * tenths != 2 * n + 1,
{
}

/// Exactly one of above, equal and below holds of a limit that is a number;
/// every value lies below the high limit and above the low one; and of a limit
/// that is no number a value is only ever different.
pub proof fn a_value_lies_on_one_side(limit: Limit, tenths: int)
    ensures
        !(limit is NotANumber) ==> {
            let above = limit.admits(Comparison::Above, tenths);
            let equal = limit.admits(Comparison::Equal, tenths);
            let below = limit.admits(Comparison::Below, tenths);
            &&& above || equal || below
            &&& !(above && equal) && !(above && below) && !(equal && below)
            &&& limit.admits(Comparison::AtLeast, tenths) == !below
            &&& limit.admits(Comparison::AtMost, tenths) == !above
            &&& limit.admits(Comparison::NotEqual, tenths) == !equal
        },
        Limit::High.admits(Comparison::Below, tenths),
        Limit::Low.admits(Comparison::Above, tenths),
        forall|c: Comparison| #[trigger]
            Limit::NotANumber.admits(c, tenths) <==> c is NotEqual,
{
}

/// The digits of a number are read from the left: each one behind the others
/// counts once, and they ten times as much as before.
pub proof fn digits_are_read_from_the_left(s: Seq<char>, c: char)
    requires
        '0' <= c <= '9',
    ensures
        number(Seq::empty()) == 0,
        number(s.push(c)) == 10 * number(s) + (c as int - '0' as int),
{
    assert(s.push(c).drop_last() =~= s);
}

/// A number is written with its digits alone, without zeros in front, and
/// reads back as itself.
pub proof fn a_number_reads_as_it_is_written(n: nat)
    ensures
        decimal(n).len() > 0,
        forall|i: int| 0 <= i < decimal(n).len() ==> '0' <= #[trigger] decimal(n)[i] <= '9',
        decimal(n).len() == 1 || decimal(n)[0] != '0',
        number(decimal(n)) == n,
    decreases n,
{
    lemma_decimal(n);
    assert forall|i: int| 0 <= i < decimal(n).len() implies '0' <= #[trigger] decimal(n)[i]
        <= '9' by {
        assert(is_digit(decimal(n)[i]));
    }
    if n >= 10 {
        a_number_reads_as_it_is_written(n / 10);
        assert(decimal(n)[0] == decimal(n / 10)[0]);
        if n / 10 < 10 {
            assert(decimal(n / 10)[0] as int == '0' as int + n / 10);
        } else {
            lemma_decimal(n / 10 / 10);
            assert(decimal(n / 10).len() > 1);
        }
    }
}

/// A number of tenths is written as its sign, its whole units without zeros in
/// front, a point and one digit, and reads back as itself.
pub proof fn tenths_read_as_they_are_written(n: int)
    ensures
        ({
            let text = tenths_decimal(n);
            let front: int = if n < 0 {
                1
            } else {
                0
            };
            let whole = text.subrange(front, text.len() - 2);
            let size = 10 * number(whole) + (text.last() as int - '0' as int);
            &&& text.len() >= front + 3
            &&& n < 0 <==> text[0] == '-'
            &&& text[text.len() - 2] == '.'
            &&& '0' <= text.last() <= '9'
            &&& forall|i: int| 0 <= i < whole.len() ==> '0' <= #[trigger] whole[i] <= '9'
            &&& whole.len() == 1 || whole[0] != '0'
            &&& n == if n < 0 {
                -size
            } else {
                size
            }
        }),
{
    let text = tenths_decimal(n);
    let front: int = if n < 0 {
        1
    } else {
        0
    };
    let size: nat = if n < 0 {
        (-n) as nat
    } else {
        n as nat
    };
    a_number_reads_as_it_is_written(size / 10);
    let whole = text.subrange(front, text.len() - 2);
    assert(whole =~= decimal(size / 10));
    assert('0' <= decimal(size / 10)[0] <= '9');
    assert(n >= 0 ==> text[0] == decimal(size / 10)[0]);
}

proof fn lemma_skips_spaces(s: Seq<char>, k: int)
    requires
        0 <= k <= s.len(),
        forall|i: int| 0 <= i < k ==> s[i] == ' ',
        k == s.len() || s[k] != ' ',
    ensures
        without_spaces(s) == s.skip(k),
    decreases k,
{
    if k > 0 {
        let rest = s.drop_first();
        assert forall|i: int| 0 <= i < k - 1 implies rest[i] == ' ' by {
            assert(s[i + 1] == ' ');
        }
        assert(s[0] == ' ');
        lemma_skips_spaces(rest, k - 1);
        assert(rest.skip(k - 1) =~= s.skip(k));
    } else {
        assert(s.skip(0) =~= s);
    }
}

proof fn lemma_finds_spaces(s: Seq<char>) -> (k: int)
    ensures
        0 <= k <= s.len(),
        forall|i: int| 0 <= i < k ==> s[i] == ' ',
        k == s.len() || s[k] != ' ',
        without_spaces(s) == s.skip(k),
    decreases s.len(),
{
    if s.len() > 0 && s[0] == ' ' {
        let rest = s.drop_first();
        let k = lemma_finds_spaces(rest) + 1;
        assert forall|i: int| 0 <= i < k implies s[i] == ' ' by {
            if i > 0 {
                assert(rest[i - 1] == ' ');
            }
        }
        if k < s.len() {
            assert(s[k] == rest[k - 1]);
        }
        lemma_skips_spaces(s, k);
        k
    } else {
        lemma_skips_spaces(s, 0);
        0
    }
}

/// Spaces, then a sign or none, then digits to the end are an integer: the
/// number of the digits, negative behind a minus.
pub proof fn digits_to_the_end_are_an_integer(s: Seq<char>, k: int, from: int)
    requires
        0 <= k <= from < s.len(),
        forall|i: int| 0 <= i < k ==> s[i] == ' ',
        from == k || (from == k + 1 && (s[k] == '+' || s[k] == '-')),
        forall|i: int| from <= i < s.len() ==> '0' <= #[trigger] s[i] <= '9',
    ensures
        integer(s) == Some(
            if from > k && s[k] == '-' {
                -(number(s.skip(from)) as int)
            } else {
                number(s.skip(from)) as int
            },
        ),
{
    assert('0' <= s[from] <= '9');
    lemma_skips_spaces(s, k);
    let t = s.skip(k);
    let digits = s.skip(from);
    assert forall|i: int| 0 <= i < digits.len() implies is_digit(digits[i]) by {
        assert('0' <= s[from + i] <= '9');
    }
    if from > k {
        assert(t.drop_first() =~= digits);
        assert(t[0] == s[k]);
        assert(!is_digit(t[0]));
    }
}

/// Nothing else is an integer.
pub proof fn nothing_else_is_an_integer(s: Seq<char>)
    ensures
        integer(s) is Some ==> exists|k: int, from: int|
            #![trigger s[k], s[from]]
            {
                &&& 0 <= k <= from < s.len()
                &&& forall|i: int| 0 <= i < k ==> s[i] == ' '
                &&& from == k || (from == k + 1 && (s[k] == '+' || s[k] == '-'))
                &&& forall|i: int| from <= i < s.len() ==> '0' <= #[trigger] s[i] <= '9'
            },
{
    let k = lemma_finds_spaces(s);
    let t = s.skip(k);
    if integer(s) is Some {
        let from = if is_number(t) {
            k
        } else {
            k + 1
        };
        let digits = if is_number(t) {
            t
        } else {
            t.drop_first()
        };
        assert forall|i: int| from <= i < s.len() implies '0' <= #[trigger] s[i] <= '9' by {
            assert(is_digit(digits[i - from]));
        }
        assert(s[k] == t[0]);
        assert(s[from] == digits[0]);
    }
}

/// A check is a comparison and what follows it: where an integer follows, that
/// is the limit, and otherwise the configured limit is, unchanged.
pub proof fn a_check_is_a_comparison_and_a_limit(
    sign: Seq<char>,
    comparison: Comparison,
    rest: Seq<char>,
    limit: Option<Limit>,
)
    requires
        ({
            ||| sign == seq!['>', '='] && comparison == Comparison::AtLeast
            ||| sign == seq!['<', '='] && comparison == Comparison::AtMost
            ||| sign == seq!['!', '='] && comparison == Comparison::NotEqual
            ||| sign == seq!['='] && comparison == Comparison::Equal
            ||| sign == seq!['>'] && comparison == Comparison::Above
            ||| sign == seq!['<'] && comparison == Comparison::Below
        }),
        comparison == Comparison::Above || comparison == Comparison::Below ==> rest.len() == 0
            || rest[0] != '=',
    ensures
        integer(rest) matches Some(n) ==> condition_of(sign + rest, limit) == Some(
            (comparison, limit_of(n)),
        ),
        integer(rest) is None && limit is Some ==> condition_of(sign + rest, limit) == Some(
            (comparison, limit->0),
        ),
        integer(rest) is None && limit is None ==> condition_of(sign + rest, limit) is None,
{
    let check = sign + rest;
    assert(check.skip(sign.len() as int) =~= rest);
    if rest.len() > 0 {
        assert(check[sign.len() as int] == rest[0]);
    }
    assert(check[0] == sign[0]);
    if sign.len() == 2 {
        assert(check[1] == sign[1]);
    }
    assert(comparison_of(check) == Some((comparison, sign.len() as int)));
}

/// A check that is nothing but a comparison is read as that comparison with
/// the configured limit, unchanged; without one it is no condition.
pub proof fn a_bare_comparison_takes_the_configured_limit(comparison: Comparison, limit: Limit)
    ensures
        condition_of(seq!['>', '='], Some(limit)) == Some((Comparison::AtLeast, limit)),
        condition_of(seq!['<', '='], Some(limit)) == Some((Comparison::AtMost, limit)),
        condition_of(seq!['!', '='], Some(limit)) == Some((Comparison::NotEqual, limit)),
        condition_of(seq!['='], Some(limit)) == Some((Comparison::Equal, limit)),
        condition_of(seq!['>'], Some(limit)) == Some((Comparison::Above, limit)),
        condition_of(seq!['<'], Some(limit)) == Some((Comparison::Below, limit)),
        condition_of(sign_of(comparison), Some(limit)) == Some((comparison, limit)),
        condition_of(sign_of(comparison), None) is None,
{
    let none = Seq::<char>::empty();
    nothing_else_is_an_integer(none);
    let l = Some(limit);
    assert(seq!['>', '='] + none =~= seq!['>', '=']);
    assert(seq!['<', '='] + none =~= seq!['<', '=']);
    assert(seq!['!', '='] + none =~= seq!['!', '=']);
    assert(seq!['='] + none =~= seq!['=']);
    assert(seq!['>'] + none =~= seq!['>']);
    assert(seq!['<'] + none =~= seq!['<']);
    a_check_is_a_comparison_and_a_limit(seq!['>', '='], Comparison::AtLeast, none, l);
    a_check_is_a_comparison_and_a_limit(seq!['<', '='], Comparison::AtMost, none, l);
    a_check_is_a_comparison_and_a_limit(seq!['!', '='], Comparison::NotEqual, none, l);
    a_check_is_a_comparison_and_a_limit(seq!['='], Comparison::Equal, none, l);
    a_check_is_a_comparison_and_a_limit(seq!['>'], Comparison::Above, none, l);
    a_check_is_a_comparison_and_a_limit(seq!['<'], Comparison::Below, none, l);
    assert(sign_of(comparison) + none =~= sign_of(comparison));
    a_check_is_a_comparison_and_a_limit(sign_of(comparison), comparison, none, None);
}

/// A check that starts with no comparison is no condition.
pub proof fn a_check_starts_with_a_comparison(check: Seq<char>, limit: Option<Limit>)
    ensures
        condition_of(check, limit) is Some ==> check.len() > 0 && (check[0] == '<' || check[0]
            == '>' || check[0] == '=' || (check[0] == '!' && check.len() > 1 && check[1] == '=')),
{
}

} // verus!
