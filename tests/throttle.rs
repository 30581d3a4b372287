use ficcache::throttle::Throttle;
use ficcache::throttle::ThrottleEvent;
use ficcache::throttle::ThrottleRegistry;

#[test]
fn gate_grants_budget_then_refuses() {
    let mut g = Throttle::new(2, 1000);
    assert!(g.step(ThrottleEvent::Tick));
    assert!(g.step(ThrottleEvent::Tick));
    assert!(!g.step(ThrottleEvent::Tick));
    assert!(!g.step(ThrottleEvent::Elapsed));
    assert!(g.step(ThrottleEvent::Tick));
    assert_eq!(g.permits(), 2);
    assert_eq!(g.interval_ms(), 1000);
}

#[test]
fn many_callers_need_enough_intervals() {
    // five callers, two permits per interval: ceil(5 / 2) - 1 = 2 intervals
    let mut g = Throttle::new(2, 1000);
    let mut waiting: u32 = 5;
    let mut intervals: u32 = 0;
    while waiting > 0 {
        while waiting > 0 && g.step(ThrottleEvent::Tick) {
            waiting -= 1;
        }
        if waiting > 0 {
            g.step(ThrottleEvent::Elapsed);
            intervals += 1;
        }
    }
    assert_eq!(intervals, 2);
}

#[test]
fn registry_shares_gate_by_name() {
    let mut r = ThrottleRegistry::new();
    let web = r.gate("web", 256, 1000);
    let site = r.gate("RYL", 8192, 1000);
    assert_ne!(web, site);
    let again = r.gate("web", 5, 10);
    assert_eq!(web, again);
    for _ in 0..256 {
        assert!(r.step(web, ThrottleEvent::Tick));
    }
    assert!(!r.step(web, ThrottleEvent::Tick));
    assert!(r.step(site, ThrottleEvent::Tick));
}

#[test]
fn run_counts_granted_ticks() {
    let mut g = Throttle::new(2, 1000);
    let (t, e) = (ThrottleEvent::Tick, ThrottleEvent::Elapsed);
    let events = vec![t, t, t, e, t, t, t, e, t];
    assert_eq!(g.run(&events), 5);
    let mut h = Throttle::new(3, 1000);
    assert_eq!(h.run(&vec![ThrottleEvent::Tick; 10]), 3);
}
