//! The thermostat data model: the client-side configuration, the UI form of
//! the same configuration, the read-only device state, and the response
//! envelope of the control API.
//!
//! All temperatures are carried as tenths of a degree Celsius, so `210` means
//! 21.0 degrees. The user-visible step of half a degree is `TEMPERATURE_STEP`.

use vstd::prelude::*;

verus! {

/// One user-visible temperature step, in tenths of a degree (half a degree).
pub const TEMPERATURE_STEP: i32 = 5;

/// CO2 threshold shown by the UI while the require-CO2 toggle is off.
pub const DEFAULT_CO2_TARGET: i32 = 500;

/// Client-side thermostat configuration: the local source of truth between
/// server responses.
#[derive(Clone, Copy, Debug, PartialEq, Eq, Structural)]
pub struct ThermostatConfig {
    pub master_switch: bool,
    pub force: bool,
    /// Desired temperature, tenths of a degree Celsius.
    pub target_temp: i32,
    /// CO2 threshold; `None` exactly when the require-CO2 toggle is off.
    pub co2_target: Option<i32>,
}

/// The configuration as the UI widgets hold it: the optional CO2 threshold is
/// split into an always-present number and a `require_co2` toggle.
#[derive(Clone, Copy, Debug, PartialEq, Eq, Structural)]
pub struct Config {
    pub master_switch: bool,
    pub force: bool,
    /// Desired temperature, tenths of a degree Celsius.
    pub target_temp: i32,
    pub require_co2: bool,
    pub co2_target: i32,
}

/// Read-only device state, replaced wholesale by each server response.
#[derive(Clone, Copy, Debug, PartialEq, Eq, Structural)]
pub struct State {
    pub available: bool,
    /// Measured temperature, tenths of a degree Celsius.
    pub current_temp: i32,
    pub co2: i32,
    pub is_heating: bool,
}

/// Device state as the control API reports it.
#[derive(Clone, Copy, Debug, PartialEq, Eq, Structural)]
pub struct APIResponseStateData {
    pub available: bool,
    /// Measured temperature, tenths of a degree Celsius.
    pub temperature: i32,
    pub co2: i32,
    pub is_heating: bool,
}

/// Payload of a successful control API response.
#[derive(Clone, Copy, Debug, PartialEq, Eq, Structural)]
pub struct APIResponseData {
    /// Present when the request asked for the configuration as well.
    pub config: Option<ThermostatConfig>,
    pub state: APIResponseStateData,
}

/// Response envelope of the control API.
#[derive(Clone, Debug)]
pub struct APIResponse {
    pub success: bool,
    pub data: Option<APIResponseData>,
    pub error: Option<String>,
}

/// The UI form of a client configuration. A switched-off CO2 toggle drops the
/// threshold; the toggle itself records whether one was present.
pub open spec fn of_ui(cfg: Config) -> ThermostatConfig {
    ThermostatConfig {
        master_switch: cfg.master_switch,
        force: cfg.force,
        target_temp: cfg.target_temp,
        co2_target: if cfg.require_co2 {
            Some(cfg.co2_target)
        } else {
            None
        },
    }
}

/// The client form of a UI configuration. An absent CO2 threshold shows as
/// `DEFAULT_CO2_TARGET` behind a switched-off toggle.
pub open spec fn to_ui(cfg: ThermostatConfig) -> Config {
    Config {
        master_switch: cfg.master_switch,
        force: cfg.force,
        target_temp: cfg.target_temp,
        require_co2: cfg.co2_target is Some,
        co2_target: if cfg.co2_target is Some {
            cfg.co2_target->0
        } else {
            DEFAULT_CO2_TARGET
        },
    }
}

impl From<Config> for ThermostatConfig {
    fn from(cfg: Config) -> (r: Self) {
        ThermostatConfig {
            master_switch: cfg.master_switch,
            force: cfg.force,
            target_temp: cfg.target_temp,
            co2_target: if cfg.require_co2 {
                Some(cfg.co2_target)
            } else {
                None
            },
        }
    }
}

impl vstd::std_specs::convert::FromSpecImpl<Config> for ThermostatConfig {
    open spec fn obeys_from_spec() -> bool {
        true
    }

    open spec fn from_spec(cfg: Config) -> Self {
        of_ui(cfg)
    }
}

impl From<ThermostatConfig> for Config {
    fn from(cfg: ThermostatConfig) -> (r: Self) {
        Config {
            master_switch: cfg.master_switch,
            force: cfg.force,
            target_temp: cfg.target_temp,
            require_co2: cfg.co2_target.is_some(),
            co2_target: match cfg.co2_target {
                Some(v) => v,
                None => DEFAULT_CO2_TARGET,
            },
        }
    }
}

impl vstd::std_specs::convert::FromSpecImpl<ThermostatConfig> for Config {
    open spec fn obeys_from_spec() -> bool {
        true
    }

    open spec fn from_spec(cfg: ThermostatConfig) -> Self {
        to_ui(cfg)
    }
}

impl From<APIResponseStateData> for State {
    fn from(state: APIResponseStateData) -> (r: Self) {
        State {
            available: state.available,
            current_temp: state.temperature,
            co2: state.co2,
            is_heating: state.is_heating,
        }
    }
}

impl vstd::std_specs::convert::FromSpecImpl<APIResponseStateData> for State {
    open spec fn obeys_from_spec() -> bool {
        true
    }

    open spec fn from_spec(state: APIResponseStateData) -> Self {
        state_of_api(state)
    }
}

/// The client form of a reported device state.
pub open spec fn state_of_api(state: APIResponseStateData) -> State {
    State {
        available: state.available,
        current_temp: state.temperature,
        co2: state.co2,
        is_heating: state.is_heating,
    }
}

/// A window position in physical pixels.
#[derive(Clone, Copy, Debug, PartialEq, Eq, Structural)]
pub struct WindowPos {
    pub x: i32,
    pub y: i32,
}

/// User-facing application options.
#[derive(Clone, Copy, Debug, PartialEq, Eq, Structural)]
pub struct AppOptions {
    pub on_top: bool,
}

/// Everything persisted between runs: the window position and the application
/// options.
#[derive(Clone, Copy, Debug, PartialEq, Eq, Structural)]
pub struct Options {
    pub window_pos: WindowPos,
    pub app_options: AppOptions,
}

impl Default for Options {
    /// The options of a fresh installation.
    fn default() -> (r: Options)
        ensures
            r == (Options {
                window_pos: WindowPos { x: 190, y: 190 },
                app_options: AppOptions { on_top: false },
            }),
    {
        Options {
            window_pos: WindowPos { x: 190, y: 190 },
            app_options: AppOptions { on_top: false },
        }
    }
}

/// Round trip: converting a configuration to its UI form and back yields the
/// identical value, and the UI toggle records exactly whether a CO2 threshold
/// is present.
pub proof fn lemma_config_round_trip(cfg: ThermostatConfig)
    ensures
        of_ui(to_ui(cfg)) == cfg,
        to_ui(cfg).require_co2 == cfg.co2_target is Some,
{
}

} // verus!
