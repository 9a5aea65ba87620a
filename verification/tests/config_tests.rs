use thermostat::config::{
    AppOptions, Config, Options, State, APIResponseStateData, ThermostatConfig, WindowPos,
    DEFAULT_CO2_TARGET, TEMPERATURE_STEP,
};

#[test]
fn ui_round_trip_with_co2() {
    let cfg = ThermostatConfig {
        master_switch: true,
        force: false,
        target_temp: 215,
        co2_target: Some(800),
    };
    let ui = Config::from(cfg);
    assert!(ui.require_co2);
    assert_eq!(ui.co2_target, 800);
    assert_eq!(ui.target_temp, 215);
    assert_eq!(ThermostatConfig::from(ui), cfg);
}

#[test]
fn ui_round_trip_without_co2() {
    let cfg = ThermostatConfig {
        master_switch: false,
        force: true,
        target_temp: -30,
        co2_target: None,
    };
    let ui = Config::from(cfg);
    assert!(!ui.require_co2);
    assert_eq!(ui.co2_target, DEFAULT_CO2_TARGET);
    assert_eq!(ThermostatConfig::from(ui), cfg);
}

#[test]
fn require_co2_toggle_matches_presence() {
    let with = ThermostatConfig {
        master_switch: true,
        force: true,
        target_temp: 0,
        co2_target: Some(450),
    };
    let without = ThermostatConfig { co2_target: None, ..with };
    assert_eq!(Config::from(with).require_co2, true);
    assert_eq!(Config::from(without).require_co2, false);
}

#[test]
fn state_conversion_copies_all_fields() {
    let api = APIResponseStateData { available: true, temperature: 198, co2: 612, is_heating: false };
    let state = State::from(api);
    assert_eq!(state.available, true);
    assert_eq!(state.current_temp, 198);
    assert_eq!(state.co2, 612);
    assert_eq!(state.is_heating, false);
}

#[test]
fn default_options() {
    let o = Options::default();
    assert_eq!(o.window_pos, WindowPos { x: 190, y: 190 });
    assert_eq!(o.app_options, AppOptions { on_top: false });
}

#[test]
fn temperature_step_is_half_a_degree() {
    assert_eq!(TEMPERATURE_STEP, 5);
}
