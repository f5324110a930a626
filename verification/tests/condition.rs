use solark_monitor::condition::{parse_check, Comparison, Limit};

#[test]
fn each_comparison_is_read() {
    let of = |s: &str| parse_check(s, Some(Limit::At(7)));
    assert_eq!(of(">="), Some((Comparison::AtLeast, Limit::At(7))));
    assert_eq!(of("<="), Some((Comparison::AtMost, Limit::At(7))));
    assert_eq!(of("="), Some((Comparison::Equal, Limit::At(7))));
    assert_eq!(of("!="), Some((Comparison::NotEqual, Limit::At(7))));
    assert_eq!(of(">"), Some((Comparison::Above, Limit::At(7))));
    assert_eq!(of("<"), Some((Comparison::Below, Limit::At(7))));
    assert_eq!(of("=="), Some((Comparison::Equal, Limit::At(7))));
}

#[test]
fn other_texts_are_no_condition() {
    for s in ["", "!", "50", " >50", "=<"] {
        let expected = if s == "=<" { Some((Comparison::Equal, Limit::At(7))) } else { None };
        assert_eq!(parse_check(s, Some(Limit::At(7))), expected);
    }
}

#[test]
fn the_integer_behind_the_comparison_is_the_limit() {
    assert_eq!(parse_check(">=50", None), Some((Comparison::AtLeast, Limit::At(500))));
    assert_eq!(parse_check("<-3", None), Some((Comparison::Below, Limit::At(-30))));
    assert_eq!(parse_check("!= +12", None), Some((Comparison::NotEqual, Limit::At(120))));
    assert_eq!(parse_check("=007", None), Some((Comparison::Equal, Limit::At(70))));
    assert_eq!(
        parse_check(">60", Some(Limit::At(1))),
        Some((Comparison::Above, Limit::At(600)))
    );
}

#[test]
fn integers_of_any_size_are_limits() {
    let of = |s: &str| parse_check(s, Some(Limit::At(7))).unwrap();
    assert_eq!(of("<9223372036854775807"), (Comparison::Below, Limit::At(92233720368547758070)));
    assert_eq!(of("<9223372036854775808"), (Comparison::Below, Limit::High));
    assert_eq!(of("<-9223372036854775808"), (Comparison::Below, Limit::At(-92233720368547758080)));
    assert_eq!(of("<-9223372036854775809"), (Comparison::Below, Limit::Low));
    assert_eq!(of(">=10000000000000000000"), (Comparison::AtLeast, Limit::High));
    assert_eq!(of("=+18446744073709551616"), (Comparison::Equal, Limit::High));
    assert_eq!(of(">-99999999999999999999999999999999999999999999"), (Comparison::Above, Limit::Low));
    assert_eq!(
        of("<00000000000000000000000000000000000000000000042"),
        (Comparison::Below, Limit::At(420))
    );
    assert_eq!(parse_check(">10000000000000000000", None), Some((Comparison::Above, Limit::High)));
}

#[test]
fn a_large_integer_with_something_behind_it_is_none() {
    assert_eq!(parse_check("<10000000000000000000x", None), None);
    assert_eq!(
        parse_check("<10000000000000000000x", Some(Limit::At(7))),
        Some((Comparison::Below, Limit::At(7)))
    );
}

#[test]
fn without_an_integer_the_limit_is_needed() {
    for s in [">", "> ", ">-", ">1x", ">1 ", ">1.5", ">--1"] {
        assert_eq!(parse_check(s, None), None);
        assert_eq!(
            parse_check(s, Some(Limit::Between(4))),
            Some((Comparison::Above, Limit::Between(4)))
        );
    }
}

#[test]
fn limits_compare_as_numbers_do() {
    let all = [
        Comparison::AtLeast,
        Comparison::AtMost,
        Comparison::Equal,
        Comparison::NotEqual,
        Comparison::Above,
        Comparison::Below,
    ];
    let met = |l: Limit, t: i32| all.map(|c| l.is_met(c, t));
    assert_eq!(met(Limit::At(5), 4), [false, true, false, true, false, true]);
    assert_eq!(met(Limit::At(5), 5), [true, true, true, false, false, false]);
    assert_eq!(met(Limit::At(5), 6), [true, false, false, true, true, false]);
    assert_eq!(met(Limit::Between(5), 5), [false, true, false, true, false, true]);
    assert_eq!(met(Limit::Between(5), 6), [true, false, false, true, true, false]);
    for t in [i32::MIN, -327680, 0, 655350, i32::MAX] {
        assert_eq!(met(Limit::High, t), [false, true, false, true, false, true]);
        assert_eq!(met(Limit::Low, t), [true, false, false, true, true, false]);
    }
    assert_eq!(met(Limit::NotANumber, 5), [false, false, false, true, false, false]);
}

#[test]
fn placed_limits_agree_with_floating_point() {
    for &(limit, place) in &[
        (52.5, Limit::At(525)),
        (52.55, Limit::Between(525)),
        (-0.1, Limit::At(-1)),
        (-0.05, Limit::Between(-1)),
        (0.3, Limit::At(3)),
        (f64::NAN, Limit::NotANumber),
    ] {
        for t in -600..600 {
            let x = t as f64 / 10.0;
            assert_eq!(place.is_met(Comparison::AtLeast, t), x >= limit);
            assert_eq!(place.is_met(Comparison::AtMost, t), x <= limit);
            assert_eq!(place.is_met(Comparison::Equal, t), x == limit);
            assert_eq!(place.is_met(Comparison::NotEqual, t), x != limit);
            assert_eq!(place.is_met(Comparison::Above, t), x > limit);
            assert_eq!(place.is_met(Comparison::Below, t), x < limit);
        }
    }
}
