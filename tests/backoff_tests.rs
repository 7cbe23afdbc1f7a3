use lanpeer::back_off::{BackoffIntervals, BackoffState};

#[test]
fn each_state_moves_the_intervals() {
    let start = BackoffIntervals::initial();
    assert_eq!((start.advertise_s, start.query_s), (5, 5));
    let up = start.adjust(BackoffState::Backoff);
    assert_eq!((up.advertise_s, up.query_s), (8, 8));
    let top = BackoffIntervals { advertise_s: 60, query_s: 60 }.adjust(BackoffState::Backoff);
    assert_eq!((top.advertise_s, top.query_s), (60, 60));
    let down = BackoffIntervals { advertise_s: 60, query_s: 31 }.adjust(BackoffState::Recovery);
    assert_eq!((down.advertise_s, down.query_s), (40, 20));
    let floor = BackoffIntervals { advertise_s: 6, query_s: 7 }.adjust(BackoffState::Recovery);
    assert_eq!((floor.advertise_s, floor.query_s), (5, 5));
    let stable = up.adjust(BackoffState::Stable);
    assert_eq!((stable.advertise_s, stable.query_s), (10, 10));
    let normal = stable.adjust(BackoffState::Normal);
    assert_eq!((normal.advertise_s, normal.query_s), (5, 5));
}

#[test]
fn query_interval_is_cut_to_twice_advertise() {
    let cut = BackoffIntervals { advertise_s: 10, query_s: 20 }.adjust(BackoffState::Backoff);
    assert_eq!((cut.advertise_s, cut.query_s), (15, 30));
    let r = BackoffIntervals { advertise_s: 5, query_s: 10 }.adjust(BackoffState::Backoff);
    assert_eq!((r.advertise_s, r.query_s), (8, 15));
}

#[test]
fn bounds_hold_over_a_sequence() {
    let mut i = BackoffIntervals::initial();
    let states = [
        BackoffState::Backoff,
        BackoffState::Backoff,
        BackoffState::Backoff,
        BackoffState::Backoff,
        BackoffState::Backoff,
        BackoffState::Backoff,
        BackoffState::Recovery,
        BackoffState::Stable,
        BackoffState::Recovery,
        BackoffState::Backoff,
        BackoffState::Normal,
    ];
    for s in states {
        i = i.adjust(s);
        assert!(5 <= i.advertise_s && i.advertise_s <= 60);
        assert!(5 <= i.query_s && i.query_s <= 60);
        assert!(i.query_s <= 2 * i.advertise_s);
    }
}

#[test]
fn query_clamp_from_a_wide_gap() {
    let r = BackoffIntervals { advertise_s: 5, query_s: 60 }.adjust(BackoffState::Backoff);
    assert_eq!((r.advertise_s, r.query_s), (8, 16));
    let s = BackoffIntervals { advertise_s: 60, query_s: 5 }.adjust(BackoffState::Recovery);
    assert_eq!((s.advertise_s, s.query_s), (40, 5));
}
