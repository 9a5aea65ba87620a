//! Event handling: the registry of UI callbacks and the dispatcher that turns
//! each UI event into a store change plus actions for the surrounding event
//! loop.
//!
//! The dispatcher owns no I/O. It receives plain events (a key, a focus flag,
//! a tick, a fired timer) together with the current time in milliseconds, and
//! returns the actions the event loop must perform: send an update, start or
//! cancel a timer, move or hide the window, set the opacity, poll the API.
//! Every local edit -- from a widget or from a key -- runs through the
//! debounce coordinator, so a burst of edits of either kind causes at most
//! one outbound update per quiet window. Events whose handler has not been
//! registered do nothing, matching a UI whose callback was never wired up.

use vstd::prelude::*;
use crate::config::{Config, ThermostatConfig, TEMPERATURE_STEP, of_ui, to_ui};
use crate::debounce::{DebounceDecision, Debouncer, UPDATE_MARGIN_MS};
use crate::store::UiStore;

verus! {

/// The keys the client reacts to.
#[derive(Clone, Copy, Debug, PartialEq, Eq, Structural)]
pub enum Key {
    /// Escape: hide the window.
    Escape,
    /// The letter `f`: toggle forced heating.
    KeyF,
    /// Arrow up: raise the target temperature one step.
    Up,
    /// Arrow down: lower the target temperature one step.
    Down,
    /// Anything else: leave the event to the toolkit.
    Other,
}

/// The two window opacity levels.
#[derive(Clone, Copy, Debug, PartialEq, Eq, Structural)]
pub enum Opacity {
    Focused,
    Unfocused,
}

/// A single edit of the configuration.
#[derive(Clone, Copy, Debug, PartialEq, Eq, Structural)]
pub enum ConfigMutation {
    ToggleForce,
    TempUp,
    TempDown,
}

/// A UI event, already reduced to plain values.
#[derive(Clone, Copy, Debug, PartialEq, Eq, Structural)]
pub enum Event {
    /// A widget edited the configuration in the store.
    ConfigChangeRequested,
    /// A debounce timer fired and reports its identity.
    DebounceTimerFired { timer_id: u64 },
    /// The user drags the window, currently at (`x`, `y`), by (`dx`, `dy`).
    WindowMoveRequested { x: i32, y: i32, dx: i32, dy: i32 },
    /// The user asked to quit.
    QuitRequested,
    /// A key was pressed.
    KeyPressed { key: Key },
    /// The window's focus changed; `co2_focused` reports whether the CO2
    /// entry field holds focus.
    FocusChanged { has_focus: bool, co2_focused: bool },
    /// The periodic reconciliation interval elapsed.
    PollTick,
}

/// What the event loop must do after an event.
#[derive(Clone, Copy, Debug, PartialEq, Eq, Structural)]
pub enum Action {
    /// Send this configuration to the control API as a patch.
    SendUpdate(ThermostatConfig),
    /// Start a cancellable timer with this identity, due at `deadline`
    /// milliseconds; deliver `DebounceTimerFired` when it fires.
    ScheduleTimer { timer_id: u64, deadline: u64 },
    /// Stop this timer; its fire event would be ignored in any case.
    CancelTimer { timer_id: u64 },
    /// Hide the window.
    HideWindow,
    /// Move the window to this position.
    MoveWindowTo { x: i32, y: i32 },
    /// Set the window opacity.
    SetOpacity(Opacity),
    /// Fetch device state from the control API, with or without the
    /// configuration.
    Poll { include_config: bool },
}

/// Which UI callbacks have been wired up.
#[derive(Clone, Copy, Debug, PartialEq, Eq, Structural)]
pub struct HandlerRegistry {
    pub target_temp: bool,
    pub window_move: bool,
    pub quit: bool,
    pub key: bool,
    pub focus: bool,
}

impl HandlerRegistry {
    /// No handler registered yet.
    pub fn new() -> (r: HandlerRegistry)
        ensures
            r == (HandlerRegistry {
                target_temp: false,
                window_move: false,
                quit: false,
                key: false,
                focus: false,
            }),
    {
        HandlerRegistry {
            target_temp: false,
            window_move: false,
            quit: false,
            key: false,
            focus: false,
        }
    }
}

/// The client's whole event-loop state: the store, the debounce coordinator,
/// and the registered handlers.
#[derive(Clone, Copy, Debug, PartialEq, Eq, Structural)]
pub struct App {
    pub store: UiStore,
    pub debounce: Debouncer,
    pub handlers: HandlerRegistry,
}

impl App {
    /// A fresh client, started at time `now` with nothing registered.
    pub fn new(now: u64) -> (r: App)
        ensures
            r.store == UiStore::initial(),
            r.debounce == (Debouncer { last_fire: now, pending: None, next_id: 0u64 }),
            r.handlers == (HandlerRegistry {
                target_temp: false,
                window_move: false,
                quit: false,
                key: false,
                focus: false,
            }),
    {
        App { store: UiStore::new(), debounce: Debouncer::new(now), handlers: HandlerRegistry::new() }
    }
}

/// Register the debounced configuration-change handler.
pub fn register_target_temp_handler(app: &mut App)
    ensures
        *final(app) == (App {
            handlers: HandlerRegistry { target_temp: true, ..old(app).handlers },
            ..*old(app)
        }),
{
    app.handlers.target_temp = true;
}

/// Register the window-drag handler.
pub fn register_window_move_handler(app: &mut App)
    ensures
        *final(app) == (App {
            handlers: HandlerRegistry { window_move: true, ..old(app).handlers },
            ..*old(app)
        }),
{
    app.handlers.window_move = true;
}

/// Register the quit handler.
pub fn register_quit_handler(app: &mut App)
    ensures
        *final(app) == (App {
            handlers: HandlerRegistry { quit: true, ..old(app).handlers },
            ..*old(app)
        }),
{
    app.handlers.quit = true;
}

/// Register the key handler.
pub fn register_key_handler(app: &mut App)
    ensures
        *final(app) == (App {
            handlers: HandlerRegistry { key: true, ..old(app).handlers },
            ..*old(app)
        }),
{
    app.handlers.key = true;
}

/// Register the focus handler.
pub fn register_focus_handler(app: &mut App)
    ensures
        *final(app) == (App {
            handlers: HandlerRegistry { focus: true, ..old(app).handlers },
            ..*old(app)
        }),
{
    app.handlers.focus = true;
}

/// One edit applied to a configuration.
pub open spec fn mutate_spec(c: ThermostatConfig, m: ConfigMutation) -> ThermostatConfig {
    match m {
        ConfigMutation::ToggleForce => ThermostatConfig { force: !c.force, ..c },
        ConfigMutation::TempUp => ThermostatConfig {
            target_temp: (c.target_temp + TEMPERATURE_STEP) as i32,
            ..c
        },
        ConfigMutation::TempDown => ThermostatConfig {
            target_temp: (c.target_temp - TEMPERATURE_STEP) as i32,
            ..c
        },
    }
}

/// Apply one edit to the configuration in the store, the way the UI holds it:
/// the stored UI form is refreshed from the edited client form, and the edited
/// client form comes back for the caller to send out.
pub fn modify_config(store: &mut UiStore, m: ConfigMutation) -> (cfg: ThermostatConfig)
    requires
        m is TempUp ==> old(store).config.target_temp <= i32::MAX - TEMPERATURE_STEP,
        m is TempDown ==> old(store).config.target_temp >= i32::MIN + TEMPERATURE_STEP,
    ensures
        cfg == mutate_spec(of_ui(old(store).config), m),
        final(store).config == to_ui(cfg),
        final(store).state == old(store).state,
{
    let mut cfg = ThermostatConfig::from(store.config);
    match m {
        ConfigMutation::ToggleForce => {
            cfg.force = !cfg.force;
        },
        ConfigMutation::TempUp => {
            cfg.target_temp = cfg.target_temp + TEMPERATURE_STEP;
        },
        ConfigMutation::TempDown => {
            cfg.target_temp = cfg.target_temp - TEMPERATURE_STEP;
        },
    }
    store.config = Config::from(cfg);
    cfg
}

/// The cancellation a change intent asks for, as actions.
pub open spec fn cancel_actions(cancelled: Option<u64>) -> Seq<Action> {
    match cancelled {
        Some(id) => seq![Action::CancelTimer { timer_id: id }],
        None => Seq::empty(),
    }
}

/// The outbound half of a debounce decision, as actions: an immediate update
/// carries the configuration as the store holds it now; a scheduled timer
/// carries nothing, since the update will read the store when it fires.
pub open spec fn decision_actions(dec: DebounceDecision, cfg: Config) -> Seq<Action> {
    match dec {
        DebounceDecision::FireNow => seq![Action::SendUpdate(of_ui(cfg))],
        DebounceDecision::Schedule { timer_id, deadline } => seq![
            Action::ScheduleTimer { timer_id, deadline },
        ],
    }
}

/// The mutation a key asks for, if any.
pub open spec fn key_mutation(key: Key) -> Option<ConfigMutation> {
    match key {
        Key::KeyF => Some(ConfigMutation::ToggleForce),
        Key::Up => Some(ConfigMutation::TempUp),
        Key::Down => Some(ConfigMutation::TempDown),
        _ => None,
    }
}

/// Feed one event through the client.
///
/// The store and the debounce coordinator change exactly as the returned
/// actions report; events whose handler is not registered change nothing and
/// return no action. Widget edits and key edits alike are change intents to
/// the debounce coordinator: the edit lands in the store at once, while the
/// outbound update is sent now only when a full quiet window has passed, and
/// is otherwise left to a fresh timer that supersedes any pending one. The
/// contract spells out every arm.
pub fn dispatch(app: &mut App, event: Event, now: u64) -> (actions: Vec<Action>)
    requires
        old(app).debounce.wf(),
        (event is ConfigChangeRequested || (event matches (Event::KeyPressed { key })
            && key_mutation(key) is Some)) ==> now >= old(app).debounce.last_fire && now
            <= u64::MAX - UPDATE_MARGIN_MS && old(app).debounce.next_id < u64::MAX,
        event == (Event::KeyPressed { key: Key::Up }) ==> old(app).store.config.target_temp
            <= i32::MAX - TEMPERATURE_STEP,
        event == (Event::KeyPressed { key: Key::Down }) ==> old(app).store.config.target_temp
            >= i32::MIN + TEMPERATURE_STEP,
        event matches (Event::WindowMoveRequested { x, y, dx, dy }) ==> i32::MIN <= x + dx
            <= i32::MAX && i32::MIN <= y + dy <= i32::MAX,
    ensures
        final(app).debounce.wf(),
        final(app).handlers == old(app).handlers,
        event is ConfigChangeRequested ==> (if old(app).handlers.target_temp {
            let (d1, dec, cancelled) = old(app).debounce.intent_spec(now);
            &&& final(app).debounce == d1
            &&& final(app).store == old(app).store
            &&& actions@ == cancel_actions(cancelled) + decision_actions(
                dec,
                old(app).store.config,
            )
        } else {
            *final(app) == *old(app) && actions@ == Seq::<Action>::empty()
        }),
        event matches (Event::DebounceTimerFired { timer_id }) ==> ({
            let (d1, fired) = old(app).debounce.fire_spec(timer_id);
            &&& final(app).debounce == d1
            &&& final(app).store == old(app).store
            &&& actions@ == (if fired {
                seq![Action::SendUpdate(of_ui(old(app).store.config))]
            } else {
                Seq::<Action>::empty()
            })
        }),
        event matches (Event::WindowMoveRequested { x, y, dx, dy }) ==> *final(app) == *old(app)
            && actions@ == (if old(app).handlers.window_move {
            seq![Action::MoveWindowTo { x: (x + dx) as i32, y: (y + dy) as i32 }]
        } else {
            Seq::<Action>::empty()
        }),
        event is QuitRequested ==> *final(app) == *old(app) && actions@ == (
        if old(app).handlers.quit {
            seq![Action::HideWindow]
        } else {
            Seq::<Action>::empty()
        }),
        event matches (Event::KeyPressed { key }) ==> (if old(app).handlers.key {
            match key_mutation(key) {
                Some(m) => ({
                    let cfg = mutate_spec(of_ui(old(app).store.config), m);
                    let (d1, dec, cancelled) = old(app).debounce.intent_spec(now);
                    &&& final(app).store.config == to_ui(cfg)
                    &&& final(app).store.state == old(app).store.state
                    &&& final(app).debounce == d1
                    &&& actions@ == cancel_actions(cancelled) + decision_actions(dec, to_ui(cfg))
                }),
                None => (if key is Escape {
                    *final(app) == *old(app) && actions@ == seq![Action::HideWindow]
                } else {
                    *final(app) == *old(app) && actions@ == Seq::<Action>::empty()
                }),
            }
        } else {
            *final(app) == *old(app) && actions@ == Seq::<Action>::empty()
        }),
        event matches (Event::FocusChanged { has_focus, co2_focused }) ==> *final(app) == *old(app)
            && actions@ == (if old(app).handlers.focus {
            seq![
                Action::SetOpacity(
                    if has_focus || co2_focused {
                        Opacity::Focused
                    } else {
                        Opacity::Unfocused
                    },
                ),
            ]
        } else {
            Seq::<Action>::empty()
        }),
        event is PollTick ==> *final(app) == *old(app) && actions@ == seq![
            Action::Poll { include_config: false },
        ],
{
    let mut actions: Vec<Action> = Vec::new();
    match event {
        Event::ConfigChangeRequested => {
            if app.handlers.target_temp {
                let (dec, cancelled) = app.debounce.on_change_intent(now);
                match cancelled {
                    Some(id) => actions.push(Action::CancelTimer { timer_id: id }),
                    None => (),
                }
                match dec {
                    DebounceDecision::FireNow => {
                        actions.push(Action::SendUpdate(ThermostatConfig::from(app.store.config)));
                    },
                    DebounceDecision::Schedule { timer_id, deadline } => {
                        actions.push(Action::ScheduleTimer { timer_id, deadline });
                    },
                }
                proof {
                    let (d1, dec0, cancelled0) = old(app).debounce.intent_spec(now);
                    assert(actions@ =~= cancel_actions(cancelled0) + decision_actions(
                        dec0,
                        old(app).store.config,
                    ));
                }
            }
        },
        Event::DebounceTimerFired { timer_id } => {
            let fired = app.debounce.on_timer_fire(timer_id);
            if fired {
                actions.push(Action::SendUpdate(ThermostatConfig::from(app.store.config)));
            }
        },
        Event::WindowMoveRequested { x, y, dx, dy } => {
            if app.handlers.window_move {
                actions.push(Action::MoveWindowTo { x: x + dx, y: y + dy });
            }
        },
        Event::QuitRequested => {
            if app.handlers.quit {
                actions.push(Action::HideWindow);
            }
        },
        Event::KeyPressed { key } => {
            if app.handlers.key {
                let mutation = match key {
                    Key::KeyF => Some(ConfigMutation::ToggleForce),
                    Key::Up => Some(ConfigMutation::TempUp),
                    Key::Down => Some(ConfigMutation::TempDown),
                    Key::Escape | Key::Other => None,
                };
                match mutation {
                    Some(m) => {
                        let cfg = modify_config(&mut app.store, m);
                        let (dec, cancelled) = app.debounce.on_change_intent(now);
                        match cancelled {
                            Some(id) => actions.push(Action::CancelTimer { timer_id: id }),
                            None => (),
                        }
                        match dec {
                            DebounceDecision::FireNow => {
                                actions.push(Action::SendUpdate(cfg));
                            },
                            DebounceDecision::Schedule { timer_id, deadline } => {
                                actions.push(Action::ScheduleTimer { timer_id, deadline });
                            },
                        }
                        proof {
                            let (d1, dec0, cancelled0) = old(app).debounce.intent_spec(now);
                            assert(of_ui(to_ui(cfg)) == cfg);
                            assert(actions@ =~= cancel_actions(cancelled0) + decision_actions(
                                dec0,
                                to_ui(cfg),
                            ));
                        }
                    },
                    None => {
                        if let Key::Escape = key {
                            actions.push(Action::HideWindow);
                        }
                    },
                }
            }
        },
        Event::FocusChanged { has_focus, co2_focused } => {
            if app.handlers.focus {
                let level = if has_focus || co2_focused {
                    Opacity::Focused
                } else {
                    Opacity::Unfocused
                };
                actions.push(Action::SetOpacity(level));
            }
        },
        Event::PollTick => {
            actions.push(Action::Poll { include_config: false });
        },
    }
    actions
}

} // verus!
