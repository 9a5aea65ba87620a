use thermostat::codec::{encode_config, encode_options, encode_query, parse_config, parse_options};
use thermostat::config::{AppOptions, Options, ThermostatConfig, WindowPos};

#[test]
fn scenario_config_serializes_and_parses_back() {
    let cfg = ThermostatConfig {
        master_switch: true,
        force: false,
        target_temp: 210,
        co2_target: None,
    };
    let bytes = encode_config(&cfg);
    assert_eq!(
        bytes.as_slice(),
        br#"{"master_switch":true,"force":false,"target_temp":21.0,"co2_target":null}"#
    );
    assert_eq!(parse_config(&bytes), Some(cfg));
}

#[test]
fn config_with_co2_round_trip() {
    let cfg = ThermostatConfig {
        master_switch: false,
        force: true,
        target_temp: 185,
        co2_target: Some(700),
    };
    let bytes = encode_config(&cfg);
    assert_eq!(
        bytes.as_slice(),
        br#"{"master_switch":false,"force":true,"target_temp":18.5,"co2_target":700}"#
    );
    assert_eq!(parse_config(&bytes), Some(cfg));
}

#[test]
fn negative_temperature_encodes_with_fraction() {
    let cfg = ThermostatConfig {
        master_switch: true,
        force: true,
        target_temp: -5,
        co2_target: Some(-12),
    };
    let bytes = encode_config(&cfg);
    assert_eq!(
        bytes.as_slice(),
        br#"{"master_switch":true,"force":true,"target_temp":-0.5,"co2_target":-12}"#
    );
    assert_eq!(parse_config(&bytes), Some(cfg));
}

#[test]
fn zero_temperature_encodes_as_zero_point_zero() {
    let cfg = ThermostatConfig {
        master_switch: false,
        force: false,
        target_temp: 0,
        co2_target: None,
    };
    let bytes = encode_config(&cfg);
    assert_eq!(
        bytes.as_slice(),
        br#"{"master_switch":false,"force":false,"target_temp":0.0,"co2_target":null}"#
    );
    assert_eq!(parse_config(&bytes), Some(cfg));
}

#[test]
fn extreme_temperatures_round_trip() {
    for t in [i32::MIN, i32::MIN + 1, -1, 1, i32::MAX - 1, i32::MAX] {
        let cfg = ThermostatConfig {
            master_switch: true,
            force: false,
            target_temp: t,
            co2_target: Some(t),
        };
        assert_eq!(parse_config(&encode_config(&cfg)), Some(cfg));
    }
}

#[test]
fn parse_rejects_garbage() {
    assert_eq!(parse_config(b"garbage"), None);
    assert_eq!(parse_config(b""), None);
    assert_eq!(parse_config(b"{}"), None);
}

#[test]
fn parse_rejects_trailing_bytes() {
    let cfg = ThermostatConfig {
        master_switch: true,
        force: false,
        target_temp: 210,
        co2_target: None,
    };
    let mut bytes = encode_config(&cfg);
    bytes.push(b' ');
    assert_eq!(parse_config(&bytes), None);
}

#[test]
fn parse_rejects_non_canonical_number() {
    // same value, but not the canonical digits the encoder produces
    assert_eq!(
        parse_config(
            br#"{"master_switch":true,"force":false,"target_temp":021.0,"co2_target":null}"#
        ),
        None
    );
}

#[test]
fn parse_rejects_truncated_text() {
    let cfg = ThermostatConfig {
        master_switch: true,
        force: false,
        target_temp: 210,
        co2_target: Some(500),
    };
    let bytes = encode_config(&cfg);
    assert_eq!(parse_config(&bytes[..bytes.len() - 1]), None);
}

#[test]
fn options_exact_text_and_round_trip() {
    let o = Options::default();
    let bytes = encode_options(&o);
    assert_eq!(
        bytes.as_slice(),
        br#"{"window_pos":{"x":190,"y":190},"app_options":{"on_top":false}}"#
    );
    assert_eq!(parse_options(&bytes), Some(o));
}

#[test]
fn options_negative_position_round_trip() {
    let o = Options {
        window_pos: WindowPos { x: -15, y: 2480 },
        app_options: AppOptions { on_top: true },
    };
    let bytes = encode_options(&o);
    assert_eq!(
        bytes.as_slice(),
        br#"{"window_pos":{"x":-15,"y":2480},"app_options":{"on_top":true}}"#
    );
    assert_eq!(parse_options(&bytes), Some(o));
}

#[test]
fn corrupt_options_are_rejected() {
    assert_eq!(parse_options(b""), None);
    assert_eq!(parse_options(b"{\"window_pos\":{\"x\":190}}"), None);
    assert_eq!(parse_options(b"not json at all"), None);
}

#[test]
fn query_text_is_exact() {
    assert_eq!(encode_query(true).as_slice(), b"?include_config=true");
    assert_eq!(encode_query(false).as_slice(), b"?include_config=false");
}
