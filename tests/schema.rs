use cses_rs::{Class, CsesConfig, Schedule, Subject, Time, WeekType, Weekday};

fn one_class_config() -> CsesConfig {
    CsesConfig {
        version: 1,
        subjects: vec![Subject {
            name: "Math".to_string(),
            simplified_name: None,
            teacher: None,
            room: None,
        }],
        schedules: vec![Schedule {
            name: "Monday".to_string(),
            enable_day: Weekday::Monday,
            weeks: WeekType::All,
            classes: vec![Class {
                subject: "Math".to_string(),
                start_time: Time::new(8, 0, 0),
                end_time: Time::new(9, 0, 0),
            }],
        }],
    }
}

#[test]
fn one_class_schedule_fields() {
    let c = one_class_config();
    let s = &c.schedules[0];
    assert_eq!(s.enable_day.number(), 1);
    assert_eq!(s.weeks, WeekType::All);
    let class = &s.classes[0];
    assert_eq!(class.start_time.to_string(), "08:00:00");
    assert_eq!(class.end_time.to_string(), "09:00:00");
    assert_eq!(Time::parse("08:00:00").unwrap(), class.start_time);
    assert_eq!(Time::parse("09:00:00").unwrap(), class.end_time);
    assert_eq!(c.clone(), c);
}
