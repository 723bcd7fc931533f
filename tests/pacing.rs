use graphiclity::scheduler::{FALLBACK_INTERVAL_NS, MAX_DT_NS};
use graphiclity::{FrameScheduler, TickAction};

const MS: u64 = 1_000_000;

#[test]
fn capped_rate_spaces_ticks_by_the_interval() {
    let mut s = FrameScheduler::new(Some(60));
    assert_eq!(s.interval_ns, 16_666_666);
    let mut now: u64 = 0;
    let mut starts: Vec<u64> = Vec::new();
    let mut dts: Vec<u64> = Vec::new();
    while starts.len() < 50 {
        match s.poll(now) {
            TickAction::Tick { dt_ns } => {
                starts.push(now);
                dts.push(dt_ns);
                // Each tick takes 5 ms.
                now += 5 * MS;
            }
            TickAction::WaitUntil { deadline_ns } => {
                assert!(deadline_ns > now);
                now = deadline_ns;
            }
            TickAction::Exit => panic!("not closed"),
        }
    }
    for pair in starts.windows(2) {
        let gap = pair[1] - pair[0];
        assert!(gap >= 16_666_666, "gap {}", gap);
        assert!(gap <= 16_666_666 + 5 * MS, "gap {}", gap);
    }
    assert_eq!(dts[0], 0);
    assert!(dts[1..].iter().all(|d| *d == 16_666_666));
}

#[test]
fn stall_is_clamped_to_the_interval() {
    let mut s = FrameScheduler::new(Some(60));
    assert!(matches!(s.poll(0), TickAction::Tick { dt_ns: 0 }));
    match s.poll(2_000_000_000) {
        TickAction::Tick { dt_ns } => assert_eq!(dt_ns, 16_666_666),
        _ => panic!("expected a tick"),
    }
    match s.poll(2_000_000_000 + 100 * MS) {
        TickAction::Tick { dt_ns } => assert_eq!(dt_ns, 100 * MS),
        _ => panic!("expected a tick"),
    }
    match s.poll(2_100_000_000 + MAX_DT_NS + 1) {
        TickAction::Tick { dt_ns } => assert_eq!(dt_ns, 16_666_666),
        _ => panic!("expected a tick"),
    }
}

#[test]
fn uncapped_never_waits() {
    for rate in [None, Some(0)] {
        let mut s = FrameScheduler::new(rate);
        assert!(!s.capped);
        assert_eq!(s.interval_ns, FALLBACK_INTERVAL_NS);
        assert!(matches!(s.poll(10), TickAction::Tick { dt_ns: 0 }));
        assert!(matches!(s.poll(11), TickAction::Tick { dt_ns: 1 }));
        match s.poll(11 + 3 * MAX_DT_NS) {
            TickAction::Tick { dt_ns } => assert_eq!(dt_ns, FALLBACK_INTERVAL_NS),
            _ => panic!("expected a tick"),
        }
    }
}

#[test]
fn early_poll_waits_for_the_deadline() {
    let mut s = FrameScheduler::new(Some(10));
    assert!(matches!(s.poll(1_000), TickAction::Tick { .. }));
    assert!(matches!(
        s.poll(50 * MS),
        TickAction::WaitUntil { deadline_ns } if deadline_ns == 1_000 + 100 * MS
    ));
    assert!(matches!(s.poll(100 * MS + 1_000), TickAction::Tick { dt_ns } if dt_ns == 100 * MS));
}

#[test]
fn close_stops_ticking() {
    let mut s = FrameScheduler::new(Some(60));
    assert!(matches!(s.poll(0), TickAction::Tick { .. }));
    s.request_close();
    assert!(matches!(s.poll(1_000_000_000), TickAction::Exit));
}
