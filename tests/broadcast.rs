use weather_station::broadcast::Broadcaster;
use weather_station::date::CalendarDate;
use weather_station::handlers::submit_data;
use weather_station::model::{CreateWeatherData, WeatherData};
use weather_station::service::WeatherService;

fn measurement(n: u32) -> WeatherData {
    WeatherData {
        humidity: (n as f32).to_bits(),
        temperature: 0f32.to_bits(),
        time: CalendarDate { year: 2023, month: 1, day: n },
    }
}

#[test]
fn early_listener_receives_late_listener_does_not() {
    let mut store = WeatherService::new();
    let mut hub = Broadcaster::new(50);
    let early = hub.subscribe();
    let data = CreateWeatherData {
        humidity: 30f32.to_bits(),
        temperature: 18f32.to_bits(),
        date: "2023-04-05".to_string(),
    };
    submit_data(&mut store, &mut hub, data).unwrap();
    let late = hub.subscribe();
    let got = hub.next(early).unwrap();
    assert_eq!(f32::from_bits(got.humidity), 30.0);
    assert_eq!(f32::from_bits(got.temperature), 18.0);
    assert_eq!(got.time, CalendarDate { year: 2023, month: 4, day: 5 });
    assert_eq!(hub.next(early), None);
    assert_eq!(hub.next(late), None);
}

#[test]
fn publish_order_is_kept_per_listener() {
    let mut hub = Broadcaster::new(10);
    let a = hub.subscribe();
    let b = hub.subscribe();
    for n in 1..=3 {
        assert_eq!(hub.publish(measurement(n)), 2);
    }
    for n in 1..=3 {
        assert_eq!(hub.next(a), Some(measurement(n)));
    }
    assert_eq!(hub.next(b), Some(measurement(1)));
}

#[test]
fn publish_without_listeners_is_a_no_op() {
    let mut hub = Broadcaster::new(4);
    assert_eq!(hub.publish(measurement(1)), 0);
    let a = hub.subscribe();
    assert_eq!(hub.next(a), None);
}

#[test]
fn overflow_drops_oldest_for_slow_listener_only() {
    let mut hub = Broadcaster::new(2);
    let slow = hub.subscribe();
    let fast = hub.subscribe();
    hub.publish(measurement(1));
    assert_eq!(hub.next(fast), Some(measurement(1)));
    hub.publish(measurement(2));
    assert_eq!(hub.next(fast), Some(measurement(2)));
    hub.publish(measurement(3));
    assert_eq!(hub.next(fast), Some(measurement(3)));
    assert_eq!(hub.next(slow), Some(measurement(2)));
    assert_eq!(hub.next(slow), Some(measurement(3)));
    assert_eq!(hub.next(slow), None);
}

#[test]
fn unsubscribed_listener_gets_nothing_and_others_continue() {
    let mut hub = Broadcaster::new(5);
    let a = hub.subscribe();
    let b = hub.subscribe();
    hub.publish(measurement(1));
    hub.unsubscribe(a);
    assert_eq!(hub.publish(measurement(2)), 1);
    assert_eq!(hub.next(a), None);
    assert_eq!(hub.next(b), Some(measurement(1)));
    assert_eq!(hub.next(b), Some(measurement(2)));
    assert_eq!(hub.next(99), None);
    hub.unsubscribe(99);
}
