use weather_station::date::{parse_custom_time, CalendarDate, DateError};
use weather_station::model::{CreateWeatherData, WeatherData};

fn submission(humidity: f32, temperature: f32, date: &str) -> CreateWeatherData {
    CreateWeatherData {
        humidity: humidity.to_bits(),
        temperature: temperature.to_bits(),
        date: date.to_string(),
    }
}

#[test]
fn parse_date() {
    let input = "2023-01-02";
    let parsed = parse_custom_time(input.to_string()).unwrap();
    assert_eq!(parsed.day, 2);
    assert_eq!(parsed.month, 1);
    assert_eq!(parsed.year, 2023);
}

#[test]
fn humidity_bounds_are_inclusive() {
    assert!(submission(0.0, 20.0, "2023-01-01").is_valid());
    assert!(submission(100.0, 20.0, "2023-01-01").is_valid());
    assert!(submission(-0.0, 20.0, "2023-01-01").is_valid());
    assert!(submission(55.5, -40.0, "2023-01-01").is_valid());
    assert!(!submission(-0.001, 20.0, "2023-01-01").is_valid());
    assert!(!submission(100.001, 20.0, "2023-01-01").is_valid());
    assert!(!submission(f32::INFINITY, 20.0, "2023-01-01").is_valid());
    assert!(!submission(f32::NEG_INFINITY, 20.0, "2023-01-01").is_valid());
}

#[test]
fn humidity_check_is_range_membership() {
    let samples: Vec<f32> = vec![
        0.0, -0.0, 1e-45, -1e-45, 0.5, 99.99999, 100.0, 100.00001, 1e30, -1e30, -100.0,
        f32::MAX, f32::MIN, f32::MIN_POSITIVE, f32::INFINITY, f32::NEG_INFINITY, 42.0, 101.0, -0.5,
    ];
    for h in samples {
        let expected = (0.0..=100.0).contains(&h);
        assert_eq!(submission(h, 0.0, "2023-01-01").is_valid(), expected, "humidity {}", h);
    }
}

#[test]
fn nan_humidity_is_refused() {
    assert!(!submission(f32::NAN, 20.0, "2023-01-01").is_valid());
    assert!(!submission(-f32::NAN, 20.0, "2023-01-01").is_valid());
    assert!(!submission(f32::from_bits(0x7F80_0001), 20.0, "2023-01-01").is_valid());
    assert!(!submission(f32::from_bits(0xFFFF_FFFF), 20.0, "2023-01-01").is_valid());
}

#[test]
fn strict_date_shape_is_required() {
    let refused = [
        "2023-1-02",
        "2023-01-2",
        "23-01-02",
        "02023-01-02",
        "2023-01-02T00:00:00",
        "2023-01-02 00:00",
        " 2023-01-02",
        "2023-01-02 ",
        "2023/01/02",
        "+023-01-02",
        "",
        "abcd-ef-gh",
    ];
    for text in refused {
        assert_eq!(parse_custom_time(text.to_string()), Err(DateError::Malformed), "{}", text);
    }
}

#[test]
fn nonexistent_days_are_refused() {
    for text in ["2023-13-01", "2023-00-10", "2023-01-00", "2023-02-29", "2023-04-31", "1900-02-29"] {
        assert_eq!(parse_custom_time(text.to_string()), Err(DateError::NoSuchDay), "{}", text);
    }
}

#[test]
fn leap_days_and_extremes_are_accepted() {
    assert_eq!(
        parse_custom_time("2024-02-29".to_string()),
        Ok(CalendarDate { year: 2024, month: 2, day: 29 })
    );
    assert_eq!(
        parse_custom_time("2000-02-29".to_string()),
        Ok(CalendarDate { year: 2000, month: 2, day: 29 })
    );
    assert_eq!(
        parse_custom_time("0000-01-01".to_string()),
        Ok(CalendarDate { year: 0, month: 1, day: 1 })
    );
    assert_eq!(
        parse_custom_time("9999-12-31".to_string()),
        Ok(CalendarDate { year: 9999, month: 12, day: 31 })
    );
}

#[test]
fn date_error_messages_differ() {
    assert_ne!(DateError::Malformed.message(), DateError::NoSuchDay.message());
}

#[test]
fn submission_becomes_measurement() {
    let m = WeatherData::try_from(submission(40.0, 21.5, "2023-03-04")).unwrap();
    assert_eq!(f32::from_bits(m.humidity), 40.0);
    assert_eq!(f32::from_bits(m.temperature), 21.5);
    assert_eq!(m.time, CalendarDate { year: 2023, month: 3, day: 4 });
    assert_eq!(
        WeatherData::try_from(submission(40.0, 21.5, "2023-3-4")),
        Err(DateError::Malformed)
    );
}
