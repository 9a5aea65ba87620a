use thermostat::debounce::{DebounceDecision, Debouncer, UPDATE_MARGIN_MS};

#[test]
fn margin_is_250_ms() {
    assert_eq!(UPDATE_MARGIN_MS, 250);
}

#[test]
fn burst_coalesces_into_one_timer() {
    // edits at t = 0, 50, 100, 150 ms: every one inside the quiet window
    let mut d = Debouncer::new(0);
    let mut scheduled: Vec<(u64, u64, Option<u64>)> = Vec::new();
    let mut immediate: u32 = 0;
    for t in [0u64, 50, 100, 150] {
        let (dec, cancelled) = d.on_change_intent(t);
        match dec {
            DebounceDecision::FireNow => immediate += 1,
            DebounceDecision::Schedule { timer_id, deadline } => {
                scheduled.push((timer_id, deadline, cancelled))
            }
        }
    }
    // no edit fired immediately; each edit replaced the previous timer
    assert_eq!(immediate, 0);
    assert_eq!(
        scheduled,
        vec![
            (0, 250, None),
            (1, 300, Some(0)),
            (2, 350, Some(1)),
            (3, 400, Some(2)),
        ]
    );
    // only the last timer is live; its deadline is 150 + 250 = 400
    assert_eq!(d.pending, Some(3));
    // the superseded timers' fire events do nothing
    assert!(!d.on_timer_fire(0));
    assert!(!d.on_timer_fire(1));
    assert!(!d.on_timer_fire(2));
    assert_eq!(d.pending, Some(3));
    // the live timer fires exactly once
    assert!(d.on_timer_fire(3));
    assert_eq!(d.pending, None);
    assert!(!d.on_timer_fire(3));
}

#[test]
fn isolated_edits_fire_immediately() {
    // a quiet coordinator: the last intent lies a full window in the past
    let mut d = Debouncer::new(0);
    let (dec1, cancelled1) = d.on_change_intent(250);
    assert_eq!(dec1, DebounceDecision::FireNow);
    assert_eq!(cancelled1, None);
    assert_eq!(d.pending, None);
    // more than a window later the next edit fires immediately again
    let (dec2, cancelled2) = d.on_change_intent(550);
    assert_eq!(dec2, DebounceDecision::FireNow);
    assert_eq!(cancelled2, None);
    assert_eq!(d.pending, None);
}

#[test]
fn second_edit_cancels_pending_timer() {
    let mut d = Debouncer::new(0);
    let (dec1, _) = d.on_change_intent(10);
    let first_id = match dec1 {
        DebounceDecision::Schedule { timer_id, .. } => timer_id,
        DebounceDecision::FireNow => panic!("an edit inside the quiet window must not fire"),
    };
    let (_, cancelled) = d.on_change_intent(60);
    // the first timer is reported as cancelled and its fire event is ignored
    assert_eq!(cancelled, Some(first_id));
    assert!(!d.on_timer_fire(first_id));
}

#[test]
fn immediate_fire_after_delayed_fire_respects_margin() {
    let mut d = Debouncer::new(0);
    let (dec, _) = d.on_change_intent(100);
    let id = match dec {
        DebounceDecision::Schedule { timer_id, deadline } => {
            assert_eq!(deadline, 350);
            timer_id
        }
        DebounceDecision::FireNow => panic!("an edit inside the quiet window must not fire"),
    };
    assert!(d.on_timer_fire(id));
    // the next edit a full window after the last intent fires immediately
    let (dec2, _) = d.on_change_intent(360);
    assert_eq!(dec2, DebounceDecision::FireNow);
}
