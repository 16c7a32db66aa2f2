use cses_rs::{Time, TimeError};

#[test]
fn test_time() {
    let t = Time::new(1, 2, 3);
    assert_eq!(t.h(), 1);
    assert_eq!(t.m(), 2);
    assert_eq!(t.s(), 3);
    assert_eq!(t.to_string(), "01:02:03");
}

#[test]
fn test_neg_time() {
    let t = Time::new(0, -1, -2);
    assert_eq!(t.h(), 0);
    assert_eq!(t.m(), -1);
    assert_eq!(t.s(), -2);
    assert_eq!(t.to_string(), "-00:01:02")
}

#[test]
fn test_time_add() {
    let t1 = Time::new(1, 2, 3);
    let t2 = Time::new(4, 5, 6);
    let t3 = t1 + t2;
    assert_eq!(t3.h(), 5);
    assert_eq!(t3.m(), 7);
    assert_eq!(t3.s(), 9);
}

#[test]
fn test_time_sub() {
    let t1 = Time::new(1, 2, 3);
    let t2 = Time::new(4, 5, 6);
    let t3 = t1 - t2;
    assert_eq!(t3.h(), -3);
    assert_eq!(t3.m(), -3);
    assert_eq!(t3.s(), -3);
}

#[test]
fn difference_formats_with_one_sign() {
    let t = Time::new(1, 2, 3) - Time::new(4, 5, 6);
    assert_eq!(t.seconds(), -10983);
    assert_eq!(t.to_string(), "-03:03:03");
}

#[test]
fn parse_positive_and_negative() {
    assert_eq!(Time::parse("00:02:03").unwrap(), Time::new(0, 2, 3));
    assert_eq!(Time::parse("-01:02:03").unwrap(), Time::new(-1, -2, -3));
    assert_eq!(Time::parse("-01:02:03").unwrap().seconds(), -3723);
}

#[test]
fn parse_accepts_unpadded_and_carrying_fields() {
    assert_eq!(Time::parse("1:2:3").unwrap().seconds(), 3723);
    assert_eq!(Time::parse("0:90:75").unwrap().seconds(), 90 * 60 + 75);
    assert_eq!(Time::parse("0:90:75").unwrap().to_string(), "01:31:15");
}

#[test]
fn round_trip_of_many_times() {
    let mut h: i64 = -30;
    while h <= 30 {
        let mut m: i64 = -61;
        while m <= 61 {
            let mut s: i64 = -61;
            while s <= 61 {
                let t = Time::new(h, m, s);
                assert_eq!(Time::parse(&t.to_string()).unwrap(), t);
                s += 7;
            }
            m += 11;
        }
        h += 1;
    }
}

#[test]
fn round_trip_at_the_extremes() {
    let big = Time::new(0, 0, i64::MAX);
    assert_eq!(Time::parse(&big.to_string()).unwrap(), big);
    let small = Time::new(0, 0, i64::MIN);
    assert_eq!(Time::parse(&small.to_string()).unwrap(), small);
    assert_eq!(Time::new(0, 0, 0).to_string(), "00:00:00");
}

#[test]
fn format_has_at_most_one_minus() {
    let cases = [
        Time::new(0, -1, -2),
        Time::new(-1, 30, 0),
        Time::new(-100, -59, -59),
        Time::new(0, 0, -1),
        Time::new(25, 0, 0),
    ];
    for t in cases.iter() {
        let text = t.to_string();
        let minus = text.chars().filter(|c| *c == '-').count();
        assert_eq!(minus, if t.seconds() < 0 { 1 } else { 0 });
        assert!(!text[1..].contains('-'));
    }
    assert_eq!(Time::new(-1, 30, 0).to_string(), "-00:30:00");
}

#[test]
fn hours_beyond_two_digits() {
    assert_eq!(Time::new(100, 0, 0).to_string(), "100:00:00");
    assert_eq!(Time::new(24, 0, 1).to_string(), "24:00:01");
    assert_eq!(Time::parse("100:00:00").unwrap().seconds(), 360000);
}

#[test]
fn rejects_wrong_field_count() {
    assert!(matches!(Time::parse("25:99"), Err(TimeError::Length(2))));
    assert!(matches!(Time::parse(""), Err(TimeError::Length(1))));
    assert!(matches!(Time::parse("1:2:3:4"), Err(TimeError::Length(4))));
}

#[test]
fn rejects_non_numeric_field() {
    match Time::parse("aa:00:00") {
        Err(TimeError::Field(tok)) => assert_eq!(tok, "aa"),
        other => panic!("unexpected {:?}", other),
    }
    match Time::parse("01::03") {
        Err(TimeError::Field(tok)) => assert_eq!(tok, ""),
        other => panic!("unexpected {:?}", other),
    }
    match Time::parse("01:02:+3") {
        Err(TimeError::Field(tok)) => assert_eq!(tok, "+3"),
        other => panic!("unexpected {:?}", other),
    }
    match Time::parse("-01:-02:03") {
        Err(TimeError::Field(tok)) => assert_eq!(tok, "-02"),
        other => panic!("unexpected {:?}", other),
    }
    match Time::parse("01:02:99999999999999999999") {
        Err(TimeError::Field(tok)) => assert_eq!(tok, "99999999999999999999"),
        other => panic!("unexpected {:?}", other),
    }
}

#[test]
fn rejects_total_out_of_range() {
    assert!(matches!(
        Time::parse("9223372036854775807:00:00"),
        Err(TimeError::OutOfRange)
    ));
    assert_eq!(
        Time::parse("0:0:9223372036854775807").unwrap().seconds(),
        i64::MAX
    );
}
