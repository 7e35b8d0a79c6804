use iot_pipeline::window::{MovingAverage, SensorWindows, WINDOW_SIZE};

#[test]
fn moving_window_keeps_last_values() {
    let mut m: MovingAverage<f64> = MovingAverage::new(3);
    assert_eq!(m.filter(1, 1.0).clone(), vec![1.0]);
    assert_eq!(m.filter(1, 2.0).clone(), vec![1.0, 2.0]);
    assert_eq!(m.filter(1, 3.0).clone(), vec![1.0, 2.0, 3.0]);
    assert_eq!(m.filter(1, 4.0).clone(), vec![2.0, 3.0, 4.0]);
    assert_eq!(m.filter(1, 5.0).clone(), vec![3.0, 4.0, 5.0]);
    let w = m.window_of(1).unwrap();
    let avg = w.iter().sum::<f64>() / w.len() as f64;
    assert_eq!(avg, 4.0);
}

#[test]
fn moving_windows_are_per_sensor() {
    let mut m: MovingAverage<u32> = MovingAverage::new(2);
    m.filter(1, 10);
    m.filter(2, 20);
    m.filter(1, 11);
    assert_eq!(m.window_of(1).unwrap().clone(), vec![10, 11]);
    assert_eq!(m.window_of(2).unwrap().clone(), vec![20]);
    assert!(m.window_of(3).is_none());
}

#[test]
fn zero_sized_window_stays_empty() {
    let mut m: MovingAverage<u32> = MovingAverage::new(0);
    assert!(m.filter(1, 10).is_empty());
}

#[test]
fn sensor_windows_hold_ten_readings() {
    let mut w: SensorWindows<f64> = SensorWindows::new();
    let id = "sensor-1".to_string();
    for i in 1..=12 {
        let r = w.ingest(&id, i as f64, 100, 150);
        assert_eq!(r.sample_count, i);
        assert_eq!(r.latency_ms, 50);
    }
    let win = w.window_of(&id).unwrap();
    assert_eq!(win.len(), WINDOW_SIZE);
    assert_eq!(win[0], 3.0);
    assert_eq!(win[9], 12.0);
}

#[test]
fn sensor_windows_latency_saturates() {
    let mut w: SensorWindows<f64> = SensorWindows::new();
    let r = w.ingest(&"s".to_string(), 1.0, 200, 100);
    assert_eq!(r.latency_ms, 0);
    assert!(w.accepts(&"s".to_string()));
    assert!(w.window_of(&"t".to_string()).is_none());
}

#[test]
fn sensor_windows_are_per_sensor() {
    let mut w: SensorWindows<u32> = SensorWindows::new();
    w.ingest(&"a".to_string(), 1, 0, 0);
    w.ingest(&"b".to_string(), 2, 0, 0);
    let r = w.ingest(&"a".to_string(), 3, 0, 0);
    assert_eq!(r.sample_count, 2);
    assert_eq!(w.window_of(&"a".to_string()).unwrap().clone(), vec![1, 3]);
    assert_eq!(w.window_of(&"b".to_string()).unwrap().clone(), vec![2]);
}

#[test]
fn new_windows_are_empty() {
    let w: SensorWindows<f64> = SensorWindows::new();
    assert!(w.window_of(&"s1".to_string()).is_none());
    assert!(w.accepts(&"s1".to_string()));
}

#[test]
fn first_reading_starts_a_window() {
    let mut w: SensorWindows<f64> = SensorWindows::new();
    let r = w.ingest(&"s1".to_string(), 38.0, 0, 0);
    assert_eq!(r.sample_count, 1);
    assert_eq!(w.window_of(&"s1".to_string()).unwrap().clone(), vec![38.0]);
}

#[test]
fn full_window_drops_oldest() {
    let mut w: SensorWindows<f64> = SensorWindows::new();
    let id = "s1".to_string();
    for i in 1..=10 {
        w.ingest(&id, i as f64, 0, 0);
    }
    let r = w.ingest(&id, 40.0, 0, 0);
    assert_eq!(r.sample_count, 11);
    let win = w.window_of(&id).unwrap().clone();
    assert_eq!(win, vec![2.0, 3.0, 4.0, 5.0, 6.0, 7.0, 8.0, 9.0, 10.0, 40.0]);
    assert_eq!(win.iter().sum::<f64>() / win.len() as f64, 9.4);
}

#[test]
fn readings_of_different_sensors_commute() {
    let mut x: SensorWindows<u32> = SensorWindows::new();
    let mut y: SensorWindows<u32> = SensorWindows::new();
    let (a, b) = ("a".to_string(), "b".to_string());
    x.ingest(&a, 1, 0, 0);
    y.ingest(&a, 1, 0, 0);
    let xa = x.ingest(&a, 2, 0, 0);
    let xb = x.ingest(&b, 3, 0, 0);
    let yb = y.ingest(&b, 3, 0, 0);
    let ya = y.ingest(&a, 2, 0, 0);
    assert_eq!((xa.sample_count, xb.sample_count), (ya.sample_count, yb.sample_count));
    assert_eq!(x.window_of(&a).unwrap(), y.window_of(&a).unwrap());
    assert_eq!(x.window_of(&b).unwrap(), y.window_of(&b).unwrap());
}
