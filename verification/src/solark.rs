//! The inverter's registers: what to ask for over Modbus, and what the words
//! that come back mean.

use vstd::prelude::*;

use crate::text_map::TextMap;

verus! {

/// The speed of the serial line.
pub const BAUD_RATE: u32 = 9600;

/// Where the inverter's serial number starts.
pub const SERIAL_ADDR: u16 = 3;

/// How many registers the serial number takes.
pub const SERIAL_COUNT: u16 = 5;

/// A value read from the inverter.
#[derive(Debug, Clone, Copy, PartialEq, Eq, Structural)]
pub enum RegData {
    Bool(bool),
    Watts(i16),
    Percent(u16),
    Hz(u16),
    /// In tenths of a volt.
    Volts(i16),
}

impl RegData {
    /// The value in tenths of its unit; a flag counts as 1 or 0.
    pub open spec fn tenths(self) -> int {
        match self {
            RegData::Bool(v) => if v {
                10
            } else {
                0
            },
            RegData::Watts(v) => 10 * v,
            RegData::Percent(v) => 10 * v,
            RegData::Hz(v) => 10 * v,
            RegData::Volts(v) => v as int,
        }
    }

    /// Computes `tenths`.
    pub fn in_tenths(&self) -> (r: i32)
        ensures
            r as int == self.tenths(),
    {
        match *self {
            RegData::Bool(v) => if v {
                10
            } else {
                0
            },
            RegData::Watts(v) => 10 * (v as i32),
            RegData::Percent(v) => 10 * (v as i32),
            RegData::Hz(v) => 10 * (v as i32),
            RegData::Volts(v) => v as i32,
        }
    }
}

/// How the content of a register is read.
#[derive(Debug, Clone, Copy, PartialEq, Eq, Structural)]
pub enum RegDataType {
    Bool,
    /// Four registers that are together zero or not, such as the fault code.
    Bool64Bit,
    Watts,
    Percent,
    Hz,
    Volts,
}

impl RegDataType {
    /// How many words the register takes.
    pub open spec fn words(self) -> nat {
        if self == RegDataType::Bool64Bit {
            4
        } else {
            1
        }
    }

    /// Computes `words`.
    pub fn word_count(&self) -> (r: u16)
        ensures
            r as nat == self.words(),
    {
        match *self {
            RegDataType::Bool64Bit => 4,
            _ => 1,
        }
    }

    /// What the words `v` of a register of this type mean.
    pub open spec fn reading(self, v: Seq<u16>) -> RegData {
        match self {
            RegDataType::Bool64Bit => RegData::Bool(
                !(v[0] == 0 && v[1] == 0 && v[2] == 0 && v[3] == 0),
            ),
            RegDataType::Bool => RegData::Bool(v[0] != 0),
            RegDataType::Watts => RegData::Watts(signed(v[0]) as i16),
            RegDataType::Percent => RegData::Percent(v[0]),
            RegDataType::Hz => RegData::Hz(v[0]),
            RegDataType::Volts => RegData::Volts(signed(v[0]) as i16),
        }
    }
}

/// The number whose two's complement in sixteen bits is `v`.
pub open spec fn signed(v: u16) -> int {
    if v < 0x8000 {
        v as int
    } else {
        v - 0x1_0000
    }
}

/// A register to read.
#[derive(Debug)]
pub struct SolarkReg {
    /// What the value is called.
    pub metric: String,
    pub addr: u16,
    pub datatype: RegDataType,
}

impl Clone for SolarkReg {
    fn clone(&self) -> (r: Self)
        ensures
            r == *self,
    {
        SolarkReg { metric: self.metric.clone(), addr: self.addr, datatype: self.datatype }
    }
}

/// How the inverter is reached and what is read from it.
#[derive(Debug)]
pub struct SolarkSettings {
    pub poll_secs: u32,
    pub port: String,
    pub slave_id: u8,
    pub registers: Vec<SolarkReg>,
}

impl SolarkSettings {
    /// Both hold the same settings.
    pub open spec fn same(self, other: Self) -> bool {
        &&& self.poll_secs == other.poll_secs
        &&& self.port@ == other.port@
        &&& self.slave_id == other.slave_id
        &&& self.registers@ == other.registers@
    }
}

impl Clone for SolarkSettings {
    fn clone(&self) -> (r: Self)
        ensures
            r.same(*self),
    {
        let registers = self.registers.clone();
        assert(registers@ =~= self.registers@);
        SolarkSettings {
            poll_secs: self.poll_secs,
            port: self.port.clone(),
            slave_id: self.slave_id,
            registers,
        }
    }
}

/// The names of the values, in the order of the registers.
pub open spec fn metrics(registers: Seq<SolarkReg>) -> Seq<Seq<char>> {
    registers.map_values(|r: SolarkReg| r.metric@)
}

/// `i` is the last place at which `name` stands.
pub open spec fn is_last_place(names: Seq<Seq<char>>, name: Seq<char>, i: int) -> bool {
    &&& 0 <= i < names.len()
    &&& names[i] == name
    &&& forall|j: int| i < j < names.len() ==> names[j] != name
}

/// `lookup` gives each name the last place at which it stands, and holds no
/// other name.
pub open spec fn is_lookup(names: Seq<Seq<char>>, lookup: Map<Seq<char>, usize>) -> bool {
    &&& forall|n: Seq<char>| #[trigger] lookup.contains_key(n) <==> names.contains(n)
    &&& forall|n: Seq<char>| #[trigger]
        lookup.contains_key(n) ==> is_last_place(names, n, lookup[n] as int)
}

/// The values that `registers` have when the i-th is answered by `answers[i]`.
pub open spec fn readings(registers: Seq<SolarkReg>, answers: Seq<Seq<u16>>) -> Seq<RegData> {
    Seq::new(registers.len(), |i: int| registers[i].datatype.reading(answers[i]))
}

/// The text of a serial number: each word holds two characters, the first in
/// its high byte.
pub open spec fn serial_text(words: Seq<u16>) -> Seq<char> {
    Seq::new(
        2 * words.len(),
        |i: int|
            if i % 2 == 0 {
                (words[i / 2] / 256) as char
            } else {
                (words[i / 2] % 256) as char
            },
    )
}

/// Computes `serial_text`.
pub fn decode_serial(words: &Vec<u16>) -> (r: String)
    ensures
        r@ == serial_text(words@),
{
    let mut serial = String::new();
    let mut i: usize = 0;
    while i < words.len()
        invariant
            i <= words@.len(),
            serial@ == serial_text(words@.take(i as int)),
        decreases words@.len() - i,
    {
        serial.push((words[i] / 256) as u8 as char);
        serial.push((words[i] % 256) as u8 as char);
        i += 1;
        assert(serial@ =~= serial_text(words@.take(i as int)));
    }
    assert(words@.take(i as int) =~= words@);
    serial
}

/// How to open the line to the inverter, and the read that proves it answers.
#[derive(Debug)]
pub struct SerialLink {
    pub port: String,
    pub baud_rate: u32,
    pub slave_id: u8,
    pub serial_number: RegisterRead,
}

impl SerialLink {
    /// It is what `cfg` says.
    pub open spec fn is_for(self, cfg: SolarkSettings) -> bool {
        &&& self.port@ == cfg.port@
        &&& self.baud_rate == BAUD_RATE
        &&& self.slave_id == cfg.slave_id
        &&& self.serial_number == RegisterRead { addr: SERIAL_ADDR, count: SERIAL_COUNT }
    }
}

/// A read of `count` holding registers from `addr` on.
#[derive(Debug, Clone, Copy, PartialEq, Eq, Structural)]
pub struct RegisterRead {
    pub addr: u16,
    pub count: u16,
}

/// What a round of reading does next.
#[derive(Debug)]
pub enum ReadStep {
    /// Open the line.
    Open(SerialLink),
    /// Read a register.
    Read(RegisterRead),
}

/// The inverter, as far as this side of the line knows it.
#[derive(Debug)]
pub struct Solark {
    pub cfg: SolarkSettings,
    pub serial: Option<String>,
    /// Whether the line has been opened. Closing it leaves this as it is.
    pub connected: bool,
}

impl Solark {
    /// The serial number is known exactly where the line has been opened.
    pub open spec fn wf(self) -> bool {
        self.serial is Some <==> self.connected
    }

    /// An inverter that has not been spoken to.
    pub fn new(cfg: &SolarkSettings) -> (r: Self)
        ensures
            r.wf(),
            r.cfg.same(*cfg),
            r.serial is None,
            !r.connected,
    {
        Solark { cfg: cfg.clone(), serial: None, connected: false }
    }

    /// What has to be opened before the first read; nothing once it is open.
    pub fn connect(&self) -> (r: Option<SerialLink>)
        ensures
            r is None <==> self.connected,
            r matches Some(link) ==> link.is_for(self.cfg),
    {
        if self.connected {
            return None;
        }
        Some(
            SerialLink {
                port: self.cfg.port.clone(),
                baud_rate: BAUD_RATE,
                slave_id: self.cfg.slave_id,
                serial_number: RegisterRead { addr: SERIAL_ADDR, count: SERIAL_COUNT },
            },
        )
    }

    /// Takes note that the line is open and has answered with the words of the
    /// serial number.
    pub fn opened(&mut self, words: &Vec<u16>)
        ensures
            final(self).wf(),
            final(self).cfg == old(self).cfg,
            final(self).connected,
            final(self).serial matches Some(s) && s@ == serial_text(words@),
    {
        self.serial = Some(decode_serial(words));
        self.connected = true;
    }

    /// Reads sixteen bits as a number in two's complement.
    pub fn make_signed(v: u16) -> (r: i16)
        ensures
            r as int == signed(v),
    {
        if v > 0x7fff {
            (v as i32 - 0x1_0000) as i16
        } else {
            v as i16
        }
    }

    /// What the words `v` that came back for `reg` mean.
    pub fn read_register(reg: &SolarkReg, v: &Vec<u16>) -> (r: RegData)
        requires
            v@.len() >= reg.datatype.words(),
        ensures
            r == reg.datatype.reading(v@),
    {
        match reg.datatype {
            RegDataType::Bool64Bit => {
                let a: u16 = v[0];
                let b: u16 = v[1];
                let c: u16 = v[2];
                let d: u16 = v[3];
                assert((a | b | c | d) == 0 <==> (a == 0 && b == 0 && c == 0 && d == 0))
                    by (bit_vector);
                RegData::Bool(a | b | c | d != 0)
            },
            RegDataType::Bool => RegData::Bool(v[0] != 0),
            RegDataType::Watts => RegData::Watts(Self::make_signed(v[0])),
            RegDataType::Percent => RegData::Percent(v[0]),
            RegDataType::Hz => RegData::Hz(v[0]),
            RegDataType::Volts => RegData::Volts(Self::make_signed(v[0])),
        }
    }

    /// What a round does once `results` have been collected: it opens the line
    /// where that has not been done, then reads one register after the other.
    /// Nothing is left when every register has been read.
    pub fn read_all(&self, results: &Vec<RegData>) -> (r: Option<ReadStep>)
        ensures
            r is None <==> self.connected && results@.len() >= self.cfg.registers@.len(),
            r is Some && !self.connected ==> r->0 is Open,
            r is Some && self.connected ==> r->0 is Read,
            r matches Some(ReadStep::Open(link)) ==> link.is_for(self.cfg),
            r matches Some(ReadStep::Read(read)) ==> {
                let reg = self.cfg.registers@[results@.len() as int];
                &&& read.addr == reg.addr
                &&& read.count as nat == reg.datatype.words()
                &&& read.count == if reg.datatype == RegDataType::Bool64Bit {
                    4int
                } else {
                    1
                }
            },
    {
        if let Some(link) = self.connect() {
            return Some(ReadStep::Open(link));
        }
        if results.len() >= self.cfg.registers.len() {
            return None;
        }
        let reg = &self.cfg.registers[results.len()];
        Some(ReadStep::Read(RegisterRead { addr: reg.addr, count: reg.datatype.word_count() }))
    }

    /// Adds the value of the register that was due, given its words `v`.
    pub fn record(&self, results: &mut Vec<RegData>, v: &Vec<u16>)
        requires
            old(results)@.len() < self.cfg.registers@.len(),
            v@.len() >= self.cfg.registers@[old(results)@.len() as int].datatype.words(),
        ensures
            final(results)@ == old(results)@.push(
                self.cfg.registers@[old(results)@.len() as int].datatype.reading(v@),
            ),
    {
        let i: usize = results.len();
        results.push(Self::read_register(&self.cfg.registers[i], v));
    }

    /// Whether there is a line to close. Nothing here changes when it is.
    pub fn disconnect(&self) -> (r: bool)
        ensures
            r == self.connected,
    {
        self.connected
    }

    /// The names of the values, in the order in which `read_all` asks for them.
    pub fn make_names_list(&self) -> (r: Vec<String>)
        ensures
            r@.map_values(|s: String| s@) == metrics(self.cfg.registers@),
            r@.len() == self.cfg.registers@.len(),
            forall|i: int|
                0 <= i < r@.len() ==> (#[trigger] r@[i])@ == self.cfg.registers@[i].metric@,
    {
        let mut names: Vec<String> = Vec::with_capacity(self.cfg.registers.len());
        let mut i: usize = 0;
        while i < self.cfg.registers.len()
            invariant
                i <= self.cfg.registers@.len(),
                names@.len() == i,
                forall|j: int| 0 <= j < i ==> names@[j]@ == self.cfg.registers@[j].metric@,
            decreases self.cfg.registers@.len() - i,
        {
            names.push(self.cfg.registers[i].metric.clone());
            i += 1;
        }
        assert(names@.map_values(|s: String| s@) =~= metrics(self.cfg.registers@));
        names
    }

    /// The place of each named value among those that `read_all` collects. Of
    /// two registers with one name the later counts.
    pub fn make_metric_lookup(&self) -> (r: TextMap<usize>)
        ensures
            r.wf(),
            is_lookup(metrics(self.cfg.registers@), r@),
            forall|i: int|
                0 <= i < self.cfg.registers@.len() ==> r@.contains_key(
                    (#[trigger] self.cfg.registers@[i]).metric@,
                ) && i <= r@[self.cfg.registers@[i].metric@] < self.cfg.registers@.len(),
            forall|n: Seq<char>| #[trigger]
                r@.contains_key(n) ==> r@[n] < self.cfg.registers@.len()
                    && self.cfg.registers@[r@[n] as int].metric@ == n,
    {
        let mut lookup: TextMap<usize> = TextMap::new();
        let ghost names = metrics(self.cfg.registers@);
        let mut i: usize = 0;
        while i < self.cfg.registers.len()
            invariant
                i <= self.cfg.registers@.len(),
                names == metrics(self.cfg.registers@),
                lookup.wf(),
                is_lookup(names.take(i as int), lookup@),
            decreases self.cfg.registers@.len() - i,
        {
            let ghost before = lookup@;
            lookup.insert(self.cfg.registers[i].metric.clone(), i);
            proof {
                let old_names = names.take(i as int);
                let new_names = names.take(i + 1);
                assert(new_names =~= old_names.push(names[i as int]));
                assert forall|n: Seq<char>| #[trigger] lookup@.contains_key(n) <==> new_names.contains(n) by {
                    if new_names.contains(n) {
                        let j = new_names.index_of(n);
                        if j < i {
                            assert(old_names[j] == n);
                        }
                    }
                    if before.contains_key(n) {
                        let j = old_names.index_of(n);
                        assert(new_names[j] == n);
                    }
                    assert(new_names[i as int] == names[i as int]);
                }
            }
            i += 1;
        }
        assert(names.take(i as int) =~= names);
        proof {
            assert forall|k: int| 0 <= k < self.cfg.registers@.len() implies lookup@.contains_key(
                (#[trigger] self.cfg.registers@[k]).metric@,
            ) && k <= lookup@[self.cfg.registers@[k].metric@] < self.cfg.registers@.len() by {
                a_lookup_gives_the_last_place(self.cfg.registers@, lookup@, k);
            }
        }
        lookup
    }

    /// The seconds between two rounds of reading.
    pub fn get_poll_duration(&self) -> (r: u64)
        ensures
            r == self.cfg.poll_secs,
    {
        self.cfg.poll_secs as u64
    }
}

/// Reading sixteen bits as a signed number loses nothing: the number, taken
/// modulo 2^16, is the word again, and it lies in the signed range.
pub proof fn signed_keeps_the_word(v: u16)
    ensures
        -0x8000 <= signed(v) < 0x8000,
        signed(v) % 0x1_0000 == v,
{
}

/// The values collected when `record` has been called, from nothing on, with
/// the first `n` answers in turn.
pub open spec fn recorded(
    registers: Seq<SolarkReg>,
    answers: Seq<Seq<u16>>,
    n: nat,
) -> Seq<RegData>
    decreases n,
{
    if n == 0 {
        Seq::empty()
    } else {
        let before = recorded(registers, answers, (n - 1) as nat);
        before.push(registers[before.len() as int].datatype.reading(answers[n - 1]))
    }
}

/// After `n` answers the values are those of the first `n` registers, in
/// order; so when `read_all` finds no read due, the round holds the value of
/// every register.
pub proof fn a_round_reads_every_register(
    registers: Seq<SolarkReg>,
    answers: Seq<Seq<u16>>,
    n: nat,
)
    requires
        n <= registers.len(),
    ensures
        recorded(registers, answers, n) == readings(registers, answers).take(n as int),
        n == registers.len() ==> recorded(registers, answers, n) == readings(registers, answers),
    decreases n,
{
    if n > 0 {
        a_round_reads_every_register(registers, answers, (n - 1) as nat);
    }
    assert(recorded(registers, answers, n) =~= readings(registers, answers).take(n as int));
    if n == registers.len() {
        assert(readings(registers, answers).take(n as int) =~= readings(registers, answers));
    }
}

/// The names list, the values of a round and the lookup agree: the place that
/// the lookup gives a name is a place in a full round, and the names list has
/// that name there.
pub proof fn lookup_names_and_round_agree(
    registers: Seq<SolarkReg>,
    answers: Seq<Seq<u16>>,
    lookup: Map<Seq<char>, usize>,
    name: Seq<char>,
)
    requires
        is_lookup(metrics(registers), lookup),
        lookup.contains_key(name),
    ensures
        metrics(registers).len() == readings(registers, answers).len(),
        lookup[name] < readings(registers, answers).len(),
        metrics(registers)[lookup[name] as int] == name,
        registers[lookup[name] as int].metric@ == name,
{
}

/// A value counts ten tenths for each of its units, and a voltage, which is
/// held in tenths, one; a flag that is set counts as one unit.
pub proof fn values_count_in_tenths(signed_value: i16, value: u16)
    ensures
        RegData::Watts(signed_value).tenths() == 10 * signed_value,
        RegData::Volts(signed_value).tenths() == signed_value,
        RegData::Percent(value).tenths() == 10 * value,
        RegData::Hz(value).tenths() == 10 * value,
        RegData::Bool(true).tenths() == 10,
        RegData::Bool(false).tenths() == 0,
{
}

/// Decoding a register loses nothing of its words: the value is of the
/// register's own kind; its number, taken modulo 2^16, is the word that came
/// back; and a flag is set exactly where one of its words is not zero.
pub proof fn a_reading_keeps_its_words(v: Seq<u16>)
    ensures
        RegDataType::Watts.reading(v) matches RegData::Watts(w) && (w as int) % 0x1_0000 == v[0],
        RegDataType::Volts.reading(v) matches RegData::Volts(w) && (w as int) % 0x1_0000 == v[0],
        RegDataType::Percent.reading(v) matches RegData::Percent(p) && p == v[0],
        RegDataType::Hz.reading(v) matches RegData::Hz(f) && f == v[0],
        RegDataType::Bool.reading(v) matches RegData::Bool(b) && (b <==> v[0] != 0),
        RegDataType::Bool64Bit.reading(v) matches RegData::Bool(b) && (b <==> exists|i: int|
            0 <= i < 4 && v[i] != 0),
{
    assert(v[0] == 0 && v[1] == 0 && v[2] == 0 && v[3] == 0 <==> forall|i: int|
        0 <= i < 4 ==> v[i] == 0);
}

/// Only the fault code takes more than one word; it takes four.
pub proof fn a_flag_of_64_bits_takes_four_words(t: RegDataType)
    ensures
        t is Bool64Bit ==> 16 * t.words() == 64,
        !(t is Bool64Bit) ==> 16 * t.words() == 16,
{
}

/// A serial number keeps every word: it has two characters for each, and the
/// two, as the high and the low byte, are the word again.
pub proof fn a_serial_number_keeps_its_words(words: Seq<u16>, i: int)
    requires
        0 <= i < words.len(),
    ensures
        serial_text(words).len() == 2 * words.len(),
        (serial_text(words)[2 * i] as int) < 256,
        (serial_text(words)[2 * i + 1] as int) < 256,
        256 * (serial_text(words)[2 * i] as int) + serial_text(words)[2 * i + 1] as int
            == words[i],
{
    assert((2 * i) / 2 == i && (2 * i + 1) / 2 == i);
}

/// A lookup gives each register's name a place, and no register behind that
/// place has the name.
pub proof fn a_lookup_gives_the_last_place(
    registers: Seq<SolarkReg>,
    lookup: Map<Seq<char>, usize>,
    i: int,
)
    requires
        is_lookup(metrics(registers), lookup),
        0 <= i < registers.len(),
    ensures
        metrics(registers).len() == registers.len(),
        metrics(registers)[i] == registers[i].metric@,
        lookup.contains_key(registers[i].metric@),
        i <= lookup[registers[i].metric@] < registers.len(),
        registers[lookup[registers[i].metric@] as int].metric@ == registers[i].metric@,
{
    assert(metrics(registers)[i] == registers[i].metric@);
    assert(metrics(registers).contains(registers[i].metric@));
    assert(lookup.contains_key(registers[i].metric@));
    let place = lookup[registers[i].metric@] as int;
    assert(is_last_place(metrics(registers), registers[i].metric@, place));
    assert(metrics(registers)[place] == registers[place].metric@);
}

/// The line that is opened is the one that the settings name.
pub proof fn a_link_is_what_the_settings_say(link: SerialLink, cfg: SolarkSettings)
    requires
        link.is_for(cfg),
    ensures
        link.port@ == cfg.port@,
        link.baud_rate == 9600,
        link.slave_id == cfg.slave_id,
        link.serial_number.addr == 3,
        link.serial_number.count == 5,
{
}

/// Copied settings agree in every field.
pub proof fn the_same_settings_agree(a: SolarkSettings, b: SolarkSettings)
    requires
        a.same(b),
    ensures
        a.poll_secs == b.poll_secs,
        a.port@ == b.port@,
        a.slave_id == b.slave_id,
        a.registers@ == b.registers@,
{
}

} // verus!
