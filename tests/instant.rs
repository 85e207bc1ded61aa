use satctrl::leap::leap_second_table;
use satctrl::Duration;
use satctrl::Instant;

fn seconds(usec: i64) -> f64 {
    usec as f64 / 1.0e6
}

#[test]
fn test_j2000() {
    let g = Instant::j2000().gregorian();
    assert!(g.0 == 2000);
    assert!(g.1 == 1);
    assert!(g.2 == 1);
    assert!(g.3 == 12);
    assert!(g.4 == 0);
    // J2000 is TT time, which is 32.184 seconds
    assert!((seconds(g.5) - 32.184).abs() < 1.0e-7);
}

#[test]
fn test_leapsecond() {
    let mut t = Instant::new(leap_second_table()[0].0);
    let g = t.gregorian();
    assert!(g.0 == 2016);
    assert!(g.1 == 12);
    assert!(g.2 == 31);
    assert!(g.3 == 23);
    assert!(g.4 == 59);
    assert!(seconds(g.5) == 60.0);
    t = t - Duration::from_seconds(1);
    let g = t.gregorian();
    assert!(g.0 == 2016);
    assert!(g.1 == 12);
    assert!(g.2 == 31);
    assert!(g.3 == 23);
    assert!(g.4 == 59);
    assert!(seconds(g.5) == 59.0);

    t = t + Duration::from_seconds(2);
    let g = t.gregorian();
    assert!(g.0 == 2017);
    assert!(g.1 == 1);
    assert!(g.2 == 1);
    assert!(g.3 == 0);
    assert!(g.4 == 0);
    assert!(seconds(g.5) == 0.0);
}

#[test]
fn test_ops() {
    let t1 = Instant::from_gregorian(2024, 11, 13, 8, 0, 3_000_000).unwrap();
    let t2 = Instant::from_gregorian(2024, 11, 13, 8, 0, 4_000_000).unwrap();
    let dt = t2 - t1;
    assert!(dt.as_microseconds() == 1_000_000);
    let t2 = Instant::from_gregorian(2024, 11, 13, 8, 0, 2_000_000).unwrap();
    let dt = t2 - t1;
    assert!(dt.as_microseconds() == -1_000_000);
    let t2 = Instant::from_gregorian(2024, 11, 13, 8, 1, 3_000_000).unwrap();
    let dt = t2 - t1;
    assert!(dt.as_microseconds() == 60_000_000);

    let t3 = t2 + Duration::from_days(1);
    let g = t3.gregorian();
    assert!(g.0 == 2024);
    assert!(g.1 == 11);
    assert!(g.2 == 14);
    assert!(g.3 == 8);
    assert!(g.4 == 1);
    assert!(seconds(g.5) == 3.0);
}

#[test]
fn test_gps() {
    let g = Instant::gps_epoch().gregorian();
    assert!(g.0 == 1980);
    assert!(g.1 == 1);
    assert!(g.2 == 6);
    assert!(g.3 == 0);
    assert!(g.4 == 0);
    assert!(seconds(g.5) == 0.0);
}

#[test]
fn test_jd() {
    let time = Instant::from_gregorian(2024, 11, 24, 12, 0, 0).unwrap();
    assert!(time.as_jd() as f64 / 86_400_000_000.0 == 2_460_639.0);
    assert!(time.as_mjd() as f64 / 86_400_000_000.0 == 60_638.5);
}
