use thermostat::config::{
    APIResponse, APIResponseData, APIResponseStateData, State, ThermostatConfig,
};
use thermostat::store::{apply_initial_response, try_apply_response, ApplyError, UiStore};

fn ok_response(state: APIResponseStateData, config: Option<ThermostatConfig>) -> APIResponse {
    APIResponse {
        success: true,
        data: Some(APIResponseData { config, state }),
        error: None,
    }
}

#[test]
fn successful_response_replaces_state() {
    let mut store = UiStore::new();
    let reported = APIResponseStateData {
        available: true,
        temperature: 203,
        co2: 540,
        is_heating: true,
    };
    let r = try_apply_response(&mut store, &ok_response(reported, None));
    assert_eq!(r, Ok(()));
    assert_eq!(
        store.state,
        State { available: true, current_temp: 203, co2: 540, is_heating: true }
    );
}

#[test]
fn applying_the_same_poll_result_twice_changes_nothing() {
    let mut store = UiStore::new();
    let resp = ok_response(
        APIResponseStateData { available: true, temperature: 188, co2: 499, is_heating: false },
        None,
    );
    try_apply_response(&mut store, &resp).unwrap();
    let once = store;
    try_apply_response(&mut store, &resp).unwrap();
    assert_eq!(store, once);
}

#[test]
fn failed_response_leaves_store_untouched_and_reports_error() {
    let mut store = UiStore::new();
    let before = store;
    let resp = APIResponse {
        success: false,
        data: None,
        error: Some(String::from("device unreachable")),
    };
    let r = try_apply_response(&mut store, &resp);
    assert_eq!(r, Err(ApplyError::Api(String::from("device unreachable"))));
    assert_eq!(store, before);
}

#[test]
fn success_without_data_is_rejected_without_crash() {
    let mut store = UiStore::new();
    let before = store;
    let resp = APIResponse { success: true, data: None, error: None };
    assert_eq!(try_apply_response(&mut store, &resp), Err(ApplyError::MissingData));
    assert_eq!(store, before);
    assert_eq!(apply_initial_response(&mut store, &resp), Err(ApplyError::MissingData));
    assert_eq!(store, before);
}

#[test]
fn failure_without_message_is_rejected_without_crash() {
    let mut store = UiStore::new();
    let before = store;
    let resp = APIResponse { success: false, data: None, error: None };
    assert_eq!(try_apply_response(&mut store, &resp), Err(ApplyError::MissingErrorText));
    assert_eq!(store, before);
    assert_eq!(apply_initial_response(&mut store, &resp), Err(ApplyError::MissingErrorText));
    assert_eq!(store, before);
}

#[test]
fn initial_success_without_config_is_rejected_without_crash() {
    let mut store = UiStore::new();
    let before = store;
    let resp = ok_response(
        APIResponseStateData { available: true, temperature: 201, co2: 510, is_heating: true },
        None,
    );
    assert_eq!(apply_initial_response(&mut store, &resp), Err(ApplyError::MissingConfig));
    assert_eq!(store, before);
}

#[test]
fn initial_response_sets_config_and_state() {
    let mut store = UiStore::new();
    let cfg = ThermostatConfig {
        master_switch: true,
        force: false,
        target_temp: 210,
        co2_target: Some(600),
    };
    let reported = APIResponseStateData {
        available: true,
        temperature: 195,
        co2: 480,
        is_heating: true,
    };
    let r = apply_initial_response(&mut store, &ok_response(reported, Some(cfg)));
    assert_eq!(r, Ok(()));
    assert!(store.config.master_switch);
    assert!(store.config.require_co2);
    assert_eq!(store.config.co2_target, 600);
    assert_eq!(store.config.target_temp, 210);
    assert_eq!(store.state.current_temp, 195);
}

#[test]
fn initial_response_twice_is_idempotent() {
    let mut store = UiStore::new();
    let cfg = ThermostatConfig {
        master_switch: false,
        force: true,
        target_temp: 170,
        co2_target: None,
    };
    let resp = ok_response(
        APIResponseStateData { available: false, temperature: 10, co2: 0, is_heating: false },
        Some(cfg),
    );
    apply_initial_response(&mut store, &resp).unwrap();
    let once = store;
    apply_initial_response(&mut store, &resp).unwrap();
    assert_eq!(store, once);
}

#[test]
fn failed_initial_response_changes_nothing() {
    let mut store = UiStore::new();
    let before = store;
    let resp = APIResponse {
        success: false,
        data: None,
        error: Some(String::from("boot not ready")),
    };
    let r = apply_initial_response(&mut store, &resp);
    assert_eq!(r, Err(ApplyError::Api(String::from("boot not ready"))));
    assert_eq!(store, before);
}
