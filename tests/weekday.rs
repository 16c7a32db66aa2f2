use cses_rs::{EnableDay, NumbericWeekday, ShortWeekday, Weekday};

const NUMERIC: [NumbericWeekday; 7] = [
    NumbericWeekday::Monday,
    NumbericWeekday::Tuesday,
    NumbericWeekday::Wednesday,
    NumbericWeekday::Thursday,
    NumbericWeekday::Friday,
    NumbericWeekday::Saturday,
    NumbericWeekday::Sunday,
];

const SHORT: [ShortWeekday; 7] = [
    ShortWeekday::Monday,
    ShortWeekday::Tuesday,
    ShortWeekday::Wednesday,
    ShortWeekday::Thursday,
    ShortWeekday::Friday,
    ShortWeekday::Saturday,
    ShortWeekday::Sunday,
];

#[test]
fn conversions_are_inverse() {
    for i in 0..7 {
        let d = NUMERIC[i];
        let w = SHORT[i];
        assert_eq!(d.to_short_weekday(), w);
        assert_eq!(NumbericWeekday::from_short_weekday(w), d);
        assert_eq!(NumbericWeekday::from_short_weekday(d.to_short_weekday()), d);
        assert_eq!(NumbericWeekday::from_short_weekday(w).to_short_weekday(), w);
        assert_eq!(d.number() as usize, i + 1);
    }
}

#[test]
fn names_and_numbers() {
    let names = ["mon", "tue", "wed", "thu", "fri", "sat", "sun"];
    for i in 0..7 {
        assert_eq!(SHORT[i].name(), names[i]);
        assert_eq!(ShortWeekday::from_name(names[i]), Some(SHORT[i]));
        assert_eq!(NumbericWeekday::from_number(i as u64 + 1), Some(NUMERIC[i]));
    }
    assert_eq!(Weekday::from_number(1), Some(Weekday::Monday));
    assert_eq!(Weekday::Sunday.number(), 7);
}

#[test]
fn out_of_range_numbers_and_unknown_names() {
    assert_eq!(NumbericWeekday::from_number(0), None);
    assert_eq!(NumbericWeekday::from_number(8), None);
    assert_eq!(Weekday::from_number(8), None);
    assert_eq!(EnableDay::from_number(8), None);
    assert_eq!(ShortWeekday::from_name("Mon"), None);
    assert_eq!(ShortWeekday::from_name("monday"), None);
    assert_eq!(ShortWeekday::from_name(""), None);
}

#[test]
fn spelling_is_kept() {
    let tue = EnableDay::from_name("tue").unwrap();
    assert_eq!(tue, EnableDay::Short(ShortWeekday::Tuesday));
    assert_eq!(tue.name(), Some("tue"));
    assert_eq!(tue.number(), None);

    let fri = EnableDay::from_number(5).unwrap();
    assert_eq!(fri, EnableDay::Numeric(NumbericWeekday::Friday));
    assert_eq!(fri.number(), Some(5));
    assert_eq!(fri.name(), None);

    assert_eq!(tue.to_numeric(), NumbericWeekday::Tuesday);
    assert_eq!(fri.to_numeric(), NumbericWeekday::Friday);
}
