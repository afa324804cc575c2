use quorum_mutex::clock::LamportClock;

#[test]
fn tick_increases() {
    let mut c = LamportClock::new();
    assert_eq!(c.now(), 0);
    let a = c.tick();
    let b = c.tick();
    assert_eq!(a, 1);
    assert_eq!(b, 2);
    assert!(b > a);
}

#[test]
fn observe_moves_past_remote() {
    let mut c = LamportClock::new();
    c.observe(10);
    assert_eq!(c.now(), 11);
    c.observe(11);
    assert_eq!(c.now(), 12);
    c.observe(3);
    assert_eq!(c.now(), 12);
    assert!(c.now() >= 3 + 1);
}

#[test]
fn observe_equal_value() {
    let mut c = LamportClock { value: 5 };
    c.observe(5);
    assert_eq!(c.now(), 6);
}
