use coinlive::{dec_nice_range, fmt_dec, parse_dec, Dec64Nice, Decimal, Nice};

fn dec(s: &str) -> Decimal {
    parse_dec(s).expect("a number")
}

fn text(d: Decimal) -> String {
    fmt_dec(Some(d))
}

#[test]
fn rounding() {
    for (f_str, compact_str) in [("0.0657", "1\\657"), ("0.0648", "1\\648")].iter() {
        let f = dec(f_str);
        assert_eq!(f.compact_str(), *compact_str);
    }
}

#[test]
fn compact_str_of_zero_large_and_negative_numbers() {
    assert_eq!(Decimal::new(0, 0).compact_str(), "0");
    assert_eq!(dec("123.456").compact_str(), "123.456");
    assert_eq!(dec("-0.0657").compact_str(), "-1\\657");
    assert_eq!(dec("0.001234").compact_str(), "2\\1234");
    // an exact power of ten falls back to the plain form
    assert_eq!(dec("0.01").compact_str(), "0.01");
    // eight digits after the point at most
    assert_eq!(dec("1.123456789").compact_str(), "1.12345679");
    // what rounds to zero keeps its sign
    assert_eq!(Decimal::new(1, -9).compact_str(), "0");
    assert_eq!(Decimal::new(-1, -9).compact_str(), "-0");
    assert_eq!(dec("-123.456").compact_str(), "-123.456");
}

#[test]
fn round_to_rounds_halves_away_from_zero() {
    assert_eq!(text(dec("1.25").round_to(1)), "1.3");
    assert_eq!(text(dec("-1.25").round_to(1)), "-1.3");
    assert_eq!(text(dec("1.24").round_to(1)), "1.2");
    assert_eq!(text(dec("7").round_to(3)), "7");
}

#[test]
fn fmt_dec_placeholder_plain_and_compact() {
    assert_eq!(fmt_dec(None), "-");
    assert_eq!(text(dec("123.45")), "123.45");
    assert_eq!(text(dec("0.0657")), "1\\657");
    assert_eq!(text(dec("0.0648")), "1\\648");
    assert_eq!(text(dec("-0.0657")), "-1\\657");
    assert_eq!(text(dec("0.000012")), "4\\12");
    assert_eq!(text(Decimal::new(0, 3)), "0");
    assert_eq!(text(Decimal::new(1, 3)), "1000");
    assert_eq!(text(Decimal::new(-5, -1)), "-0.5");
    assert_eq!(text(dec("0.1")), "0.1");
}

#[test]
fn fmt_dec_output_holds_only_number_characters() {
    for s in ["0", "1", "-12.5", "0.000001", "98765.4321", "-0.0000042", "1E+5", "5E-3"].iter() {
        let out = text(dec(s));
        let plain = out
            .chars()
            .enumerate()
            .all(|(i, c)| c.is_ascii_digit() || c == '.' || (c == '-' && i == 0));
        let points = out.chars().filter(|c| *c == '.').count();
        let compact = match out.split_once('\\') {
            Some((n, m)) => {
                let n = n.strip_prefix('-').unwrap_or(n);
                !n.is_empty()
                    && n.chars().all(|c| c.is_ascii_digit())
                    && !m.is_empty()
                    && m.chars().all(|c| c.is_ascii_digit())
            },
            None => false,
        };
        assert!((plain && points <= 1) || compact, "{}", out);
    }
}

#[test]
fn fmt_dec_is_stable_under_reparsing() {
    for s in ["123.4500", "42", "-7.25", "0.5", "1000.000"].iter() {
        let once = text(dec(s));
        let twice = text(dec(&once));
        assert_eq!(once, twice);
    }
    let once = text(Decimal::new(0, 3));
    assert_eq!(text(dec(&once)), once);
    let once = text(Decimal::new(15, 2));
    assert_eq!(once, "1500");
    assert_eq!(text(dec(&once)), once);
    // a trailing zero after the point does not survive reading back
    let once = text(Decimal::new(150, -2));
    assert_eq!(once, "1.50");
    assert_eq!(text(dec(&once)), "1.5");
}

#[test]
fn parse_dec_drops_trailing_zeros_after_a_point() {
    let d = dec("1000.00");
    assert_eq!((d.coef, d.exp), (1000, 0));
    let d = dec("1.500");
    assert_eq!((d.coef, d.exp), (15, -1));
    let d = dec("0.0650");
    assert_eq!((d.coef, d.exp), (65, -3));
    let d = dec("1200");
    assert_eq!((d.coef, d.exp), (1200, 0));
    assert!(parse_dec("abc").is_none());
    assert!(parse_dec("NaN").is_none());
}

#[test]
fn nice_range_widens_equal_ends() {
    let (lo, hi) = dec_nice_range(Decimal::new(5, 0), Decimal::new(5, 0)).expect("a range");
    assert!(lo.value_eq(&Decimal::new(5, 0)));
    assert!(hi.value_eq(&Decimal::new(6, 0)));
    assert_eq!(text(lo), "5");
    assert_eq!(text(hi), "6");
}

#[test]
fn nice_range_contains_its_ends() {
    let cases = [("0.0657", "0.0703"), ("100", "105"), ("-3.5", "12.25"), ("9", "1"), ("0.00001234", "0.00001299")];
    for (a, b) in cases.iter() {
        let (min, max) = (dec(a), dec(b));
        let (lo, hi) = dec_nice_range(min, max).expect("a range");
        for x in [min, max].iter() {
            assert!(lo.compare(x) <= 0, "{} > {}", text(lo), a);
            assert!(hi.compare(x) >= 0, "{} < {}", text(hi), b);
        }
    }
}

#[test]
fn nice_range_exact_bounds() {
    // span 5 rounds up to 10, tick 10 / 20 = 0.5
    let (lo, hi) = dec_nice_range(dec("100.1"), dec("105.1")).expect("a range");
    assert!(lo.value_eq(&dec("100")));
    assert!(hi.value_eq(&dec("105.5")));
    // span 0.3 rounds up to 0.5, then to 0.5; tick 0.025
    let (lo, hi) = dec_nice_range(dec("1.01"), dec("1.31")).expect("a range");
    assert!(lo.value_eq(&dec("1")));
    assert!(hi.value_eq(&dec("1.325")));
}

#[test]
fn nice_rounds_to_one_two_five_or_ten() {
    let n = |s: &str, round: bool| text(Dec64Nice::nice(dec(s), round));
    assert_eq!(n("1", false), "1");
    assert_eq!(n("1.2", false), "2");
    assert_eq!(n("3", false), "5");
    assert_eq!(n("6", false), "10");
    assert_eq!(n("1.4", true), "1");
    assert_eq!(n("2.9", true), "2");
    assert_eq!(n("6.9", true), "5");
    assert_eq!(n("7", true), "10");
    assert_eq!(n("420", false), "500");
    assert_eq!(n("0.029", true), "1\\2");
    assert_eq!(n("-42", false), "-50");
    assert_eq!(n("0", true), "0");
}

#[test]
fn floor_ceil_abs_decomp() {
    assert_eq!(text(dec("2.5").floor()), "2");
    assert_eq!(text(dec("-2.5").floor()), "-3");
    assert_eq!(text(dec("-2.0").floor()), "-2");
    assert_eq!(text(dec("2.5").ceil()), "3");
    assert_eq!(text(dec("-2.5").ceil()), "-2");
    assert_eq!(text(dec("-2.5").abs()), "2.5");
    let (e, m) = dec("123.45").decomp();
    assert_eq!(e, 2);
    assert_eq!(text(m), "1.2345");
}

#[test]
fn decimal_arithmetic_goes_through_dec() {
    assert_eq!(text(dec("10").mul(&dec("50000")).unwrap()), "500000");
    assert_eq!(text(dec("1.5").add(&dec("2.25")).unwrap()), "3.75");
    assert_eq!(text(dec("1.5").sub(&dec("2.25")).unwrap()), "-0.75");
    assert_eq!(text(dec("1").div(&dec("4")).unwrap()), "0.25");
    assert!(dec("1").div(&Decimal::new(0, 0)).is_none());
}

#[test]
fn compare_by_value() {
    assert_eq!(dec("1.0").compare(&dec("1")), 0);
    assert_eq!(dec("0.99").compare(&dec("1")), -1);
    assert_eq!(Decimal::new(1, 30).compare(&Decimal::new(9, 0)), 1);
    assert_eq!(Decimal::new(-1, 30).compare(&Decimal::new(9, 0)), -1);
    assert!(dec("2").less_than(&dec("10")));
}
