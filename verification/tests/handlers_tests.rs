use thermostat::config::{Config, ThermostatConfig};
use thermostat::handlers::{
    dispatch, register_focus_handler, register_key_handler, register_quit_handler,
    register_target_temp_handler, register_window_move_handler, Action, App, Event, Key, Opacity,
};

fn app_with_all_handlers(now: u64) -> App {
    let mut app = App::new(now);
    register_target_temp_handler(&mut app);
    register_window_move_handler(&mut app);
    register_quit_handler(&mut app);
    register_key_handler(&mut app);
    register_focus_handler(&mut app);
    app
}

fn config_at(temp: i32) -> Config {
    Config {
        master_switch: true,
        force: false,
        target_temp: temp,
        require_co2: false,
        co2_target: 500,
    }
}

#[test]
fn burst_of_edits_sends_one_update_with_last_config() {
    let mut app = app_with_all_handlers(0);
    let mut sent = Vec::new();
    let mut live_timer = None;
    for (t, temp) in [(0u64, 200), (50, 205), (100, 210), (150, 215)] {
        // the widget writes the new value into the store, then reports the edit
        app.store.config = config_at(temp);
        for action in dispatch(&mut app, Event::ConfigChangeRequested, t) {
            match action {
                Action::SendUpdate(cfg) => sent.push(cfg),
                Action::ScheduleTimer { timer_id, deadline } => {
                    live_timer = Some((timer_id, deadline))
                }
                Action::CancelTimer { timer_id } => {
                    // only the immediately preceding timer is ever cancelled
                    assert_eq!(timer_id, live_timer.unwrap().0);
                }
                other => panic!("unexpected action {:?}", other),
            }
        }
    }
    // no update went out during the burst
    assert_eq!(sent, vec![]);
    // one timer is live, due a full quiet window after the last edit
    let (timer_id, deadline) = live_timer.unwrap();
    assert_eq!(deadline, 400);
    // when it fires, exactly one update goes out, with the config of the last
    // edit, not an earlier snapshot
    let actions = dispatch(&mut app, Event::DebounceTimerFired { timer_id }, deadline);
    assert_eq!(
        actions,
        vec![Action::SendUpdate(ThermostatConfig::from(config_at(215)))]
    );
    assert_eq!(ThermostatConfig::from(config_at(215)).target_temp, 215);
}

#[test]
fn isolated_edits_fire_immediately_through_dispatch() {
    let mut app = app_with_all_handlers(0);
    app.store.config = config_at(220);
    let first = dispatch(&mut app, Event::ConfigChangeRequested, 250);
    assert_eq!(
        first,
        vec![Action::SendUpdate(ThermostatConfig::from(config_at(220)))]
    );
    app.store.config = config_at(225);
    let second = dispatch(&mut app, Event::ConfigChangeRequested, 550);
    assert_eq!(
        second,
        vec![Action::SendUpdate(ThermostatConfig::from(config_at(225)))]
    );
}

#[test]
fn superseded_timer_fire_does_nothing() {
    let mut app = app_with_all_handlers(0);
    app.store.config = config_at(210);
    let first = dispatch(&mut app, Event::ConfigChangeRequested, 0);
    let first_timer = match first.as_slice() {
        [Action::ScheduleTimer { timer_id, deadline: 250 }] => *timer_id,
        other => panic!("unexpected actions {:?}", other),
    };
    let second = dispatch(&mut app, Event::ConfigChangeRequested, 100);
    assert!(second.contains(&Action::CancelTimer { timer_id: first_timer }));
    // even if the cancellation raced and the first timer's fire event is
    // still delivered, it produces no update
    let stale = dispatch(&mut app, Event::DebounceTimerFired { timer_id: first_timer }, 250);
    assert_eq!(stale, vec![]);
}

#[test]
fn unregistered_config_handler_ignores_edits() {
    let mut app = App::new(0);
    app.store.config = config_at(210);
    let actions = dispatch(&mut app, Event::ConfigChangeRequested, 0);
    assert_eq!(actions, vec![]);
    assert_eq!(app.debounce.pending, None);
}

#[test]
fn quit_hides_window() {
    let mut app = app_with_all_handlers(0);
    assert_eq!(dispatch(&mut app, Event::QuitRequested, 0), vec![Action::HideWindow]);
    let mut bare = App::new(0);
    assert_eq!(dispatch(&mut bare, Event::QuitRequested, 0), vec![]);
}

#[test]
fn escape_hides_window() {
    let mut app = app_with_all_handlers(0);
    let actions = dispatch(&mut app, Event::KeyPressed { key: Key::Escape }, 0);
    assert_eq!(actions, vec![Action::HideWindow]);
}

#[test]
fn key_f_toggles_force_and_sends_update() {
    let mut app = app_with_all_handlers(0);
    app.store.config = config_at(210);
    // a full quiet window has passed, so the edit fires immediately
    let actions = dispatch(&mut app, Event::KeyPressed { key: Key::KeyF }, 300);
    let expected = ThermostatConfig {
        master_switch: true,
        force: true,
        target_temp: 210,
        co2_target: None,
    };
    assert_eq!(actions, vec![Action::SendUpdate(expected)]);
    assert!(app.store.config.force);
}

#[test]
fn arrows_step_the_target_temperature() {
    let mut app = app_with_all_handlers(0);
    app.store.config = config_at(210);
    // isolated presses, each a full quiet window after the last edit
    let up = dispatch(&mut app, Event::KeyPressed { key: Key::Up }, 300);
    assert_eq!(app.store.config.target_temp, 215);
    match up.as_slice() {
        [Action::SendUpdate(cfg)] => assert_eq!(cfg.target_temp, 215),
        other => panic!("unexpected actions {:?}", other),
    }
    let down = dispatch(&mut app, Event::KeyPressed { key: Key::Down }, 600);
    assert_eq!(app.store.config.target_temp, 210);
    match down.as_slice() {
        [Action::SendUpdate(cfg)] => assert_eq!(cfg.target_temp, 210),
        other => panic!("unexpected actions {:?}", other),
    }
}

#[test]
fn held_arrow_key_coalesces_into_one_update() {
    // a user holding the up arrow: edits at t = 0, 50, 100, 150 ms
    let mut app = app_with_all_handlers(0);
    app.store.config = config_at(210);
    let mut sent: Vec<ThermostatConfig> = Vec::new();
    let mut live_timer = None;
    for t in [0u64, 50, 100, 150] {
        for action in dispatch(&mut app, Event::KeyPressed { key: Key::Up }, t) {
            match action {
                Action::SendUpdate(cfg) => sent.push(cfg),
                Action::ScheduleTimer { timer_id, deadline } => {
                    live_timer = Some((timer_id, deadline))
                }
                Action::CancelTimer { timer_id } => {
                    assert_eq!(timer_id, live_timer.unwrap().0);
                }
                other => panic!("unexpected action {:?}", other),
            }
        }
    }
    // every press landed in the store at once, but nothing was sent yet
    assert_eq!(app.store.config.target_temp, 230);
    assert_eq!(sent, vec![]);
    let (timer_id, deadline) = live_timer.unwrap();
    assert_eq!(deadline, 400);
    // the one timer fires with the configuration of the last press
    let actions = dispatch(&mut app, Event::DebounceTimerFired { timer_id }, deadline);
    assert_eq!(
        actions,
        vec![Action::SendUpdate(ThermostatConfig::from(config_at(230)))]
    );
}

#[test]
fn key_edit_supersedes_a_widget_edit_timer() {
    let mut app = app_with_all_handlers(0);
    app.store.config = config_at(210);
    let first = dispatch(&mut app, Event::ConfigChangeRequested, 0);
    let first_timer = match first.as_slice() {
        [Action::ScheduleTimer { timer_id, deadline: 250 }] => *timer_id,
        other => panic!("unexpected actions {:?}", other),
    };
    // a key edit inside the quiet window cancels the widget edit's timer
    // instead of sending a second update
    let second = dispatch(&mut app, Event::KeyPressed { key: Key::Up }, 100);
    assert!(second.contains(&Action::CancelTimer { timer_id: first_timer }));
    assert!(!second.iter().any(|a| matches!(a, Action::SendUpdate(_))));
    let stale = dispatch(&mut app, Event::DebounceTimerFired { timer_id: first_timer }, 250);
    assert_eq!(stale, vec![]);
}

#[test]
fn unknown_key_is_ignored() {
    let mut app = app_with_all_handlers(0);
    let before = app;
    let actions = dispatch(&mut app, Event::KeyPressed { key: Key::Other }, 0);
    assert_eq!(actions, vec![]);
    assert_eq!(app, before);
}

#[test]
fn focus_changes_opacity() {
    let mut app = app_with_all_handlers(0);
    let focused = dispatch(
        &mut app,
        Event::FocusChanged { has_focus: true, co2_focused: false },
        0,
    );
    assert_eq!(focused, vec![Action::SetOpacity(Opacity::Focused)]);
    // an unfocused window whose CO2 field holds focus stays opaque
    let co2 = dispatch(
        &mut app,
        Event::FocusChanged { has_focus: false, co2_focused: true },
        0,
    );
    assert_eq!(co2, vec![Action::SetOpacity(Opacity::Focused)]);
    let away = dispatch(
        &mut app,
        Event::FocusChanged { has_focus: false, co2_focused: false },
        0,
    );
    assert_eq!(away, vec![Action::SetOpacity(Opacity::Unfocused)]);
}

#[test]
fn window_move_follows_the_cursor() {
    let mut app = app_with_all_handlers(0);
    let actions = dispatch(
        &mut app,
        Event::WindowMoveRequested { x: 190, y: 190, dx: -12, dy: 30 },
        0,
    );
    assert_eq!(actions, vec![Action::MoveWindowTo { x: 178, y: 220 }]);
}

#[test]
fn poll_tick_fetches_state_without_config() {
    let mut app = app_with_all_handlers(0);
    let actions = dispatch(&mut app, Event::PollTick, 15_000);
    assert_eq!(actions, vec![Action::Poll { include_config: false }]);
}
