use glowmarkt::aggregate::ResourceReadings;
use glowmarkt::aggregate::build_measurements;
use glowmarkt::api::AuthResponse;
use glowmarkt::api::Device;
use glowmarkt::api::DeviceProtocol;
use glowmarkt::api::DeviceSensor;
use glowmarkt::api::ErrorResponse;
use glowmarkt::api::InvalidAuthResponse;
use glowmarkt::api::Resource;
use glowmarkt::api::ValidAuthResponse;
use glowmarkt::api::build_map;
use glowmarkt::api::values;
use glowmarkt::datetime::DateTime;
use glowmarkt::endpoint::GlowmarktEndpoint;
use glowmarkt::error::Error;
use glowmarkt::error::ErrorKind;
use glowmarkt::error::kind_for_status;
use glowmarkt::error::maybe;
use glowmarkt::period::ReadingPeriod;
use glowmarkt::reading::MAX_READING_TIMESTAMP;
use glowmarkt::reading::Reading;
use glowmarkt::reading::normalize_readings;
use glowmarkt::reading::period_query_arg;
use glowmarkt::reading::reading_end;
use glowmarkt::strmap::StrMap;

fn some_date() -> DateTime {
    DateTime { year: 2023, month: 1, day: 1, hour: 0, minute: 0, second: 0, nanosecond: 0 }
}

fn device(id: &str, resource_ids: &[&str]) -> Device {
    Device {
        id: id.to_string(),
        description: Some("smart meter".to_string()),
        active: true,
        hardware_id: format!("hw-{}", id),
        device_type_id: "type-1".to_string(),
        owner_id: "owner-1".to_string(),
        hardware_id_names: vec![],
        hardware_ids: vec![],
        parent_hardware_id: vec![],
        tags: vec![],
        protocol: DeviceProtocol {
            protocol: "smets2".to_string(),
            sensors: resource_ids
                .iter()
                .map(|rid| DeviceSensor {
                    protocol_id: "p-1".to_string(),
                    resource_id: rid.to_string(),
                    resource_type_id: "rt-1".to_string(),
                })
                .collect(),
        },
        updated_at: some_date(),
        created_at: some_date(),
    }
}

fn resource(id: &str, classifier: Option<&str>) -> Resource {
    Resource {
        id: id.to_string(),
        name: format!("resource {}", id),
        description: None,
        label: None,
        active: true,
        type_id: "rt-1".to_string(),
        owner_id: "owner-1".to_string(),
        classifier: classifier.map(|c| c.to_string()),
        base_unit: Some("kWh".to_string()),
        data_source_type: "live".to_string(),
        data_source_resource_type_info: None,
        updated_at: some_date(),
        created_at: some_date(),
    }
}

fn reading(start: i64, value: f64) -> Reading {
    Reading { start, period: ReadingPeriod::HalfHour, value: value.to_bits() }
}

fn ok_result(rid: &str, readings: Vec<Reading>) -> ResourceReadings {
    ResourceReadings { resource_id: rid.to_string(), readings: Ok(readings) }
}

fn err_result(rid: &str) -> ResourceReadings {
    ResourceReadings {
        resource_id: rid.to_string(),
        readings: Err(Error { kind: ErrorKind::Network, message: "connection reset".to_string() }),
    }
}

#[test]
fn builds_sorted_tagged_measurements() {
    let devices = vec![device("dev-1", &["res-1"])];
    let resources = build_map(vec![resource("res-1", Some("electricity.consumption"))]);
    let results = vec![ok_result("res-1", vec![reading(200, 2.5), reading(100, 1.5)])];
    let out = build_measurements(&devices, &resources, &results, &StrMap::new(), false, false)
        .unwrap();
    assert_eq!(out.len(), 2);
    // sorted ascending by timestamp even though delivered out of order
    assert_eq!(out[0].timestamp, 100_000_000_000i128);
    assert_eq!(out[1].timestamp, 200_000_000_000i128);
    assert_eq!(out[0].id, "glowmarkt");
    assert_eq!(out[0].fields.entries()[0].0, "consumption");
    assert_eq!(out[0].fields.entries()[0].1, (1.5f64).to_bits());
    assert_eq!(out[0].tags.get("resource-id"), Some(&"res-1".to_string()));
    assert_eq!(out[0].tags.get("device-id"), Some(&"dev-1".to_string()));
    assert_eq!(out[0].tags.get("class"), Some(&"electricity".to_string()));
    assert_eq!(out[0].tags.get("classifier"), Some(&"electricity.consumption".to_string()));
    assert_eq!(out[0].tags.get("unit"), Some(&"kWh".to_string()));
    assert_eq!(out[0].tags.get("device"), Some(&"smart meter".to_string()));
    assert_eq!(out[0].tags.get("device-active"), Some(&"true".to_string()));
}

#[test]
fn resource_tags_overwrite_caller_and_device_tags() {
    let devices = vec![device("dev-1", &["res-1"])];
    let resources = build_map(vec![resource("res-1", None)]);
    let results = vec![ok_result("res-1", vec![reading(100, 1.0)])];
    let mut base: StrMap<String> = StrMap::new();
    base.insert("resource-id".to_string(), "spoofed".to_string());
    base.insert("site".to_string(), "home".to_string());
    let out = build_measurements(&devices, &resources, &results, &base, false, false).unwrap();
    assert_eq!(out[0].tags.get("resource-id"), Some(&"res-1".to_string()));
    assert_eq!(out[0].tags.get("site"), Some(&"home".to_string()));
    assert_eq!(out[0].fields.entries()[0].0, "value");
}

#[test]
fn three_timestamps_trailing_zeros_suppressed() {
    let devices = vec![device("dev-1", &["res-1"])];
    let resources = build_map(vec![resource("res-1", Some("electricity.consumption"))]);
    let results = vec![ok_result(
        "res-1",
        vec![reading(100, 1.0), reading(200, 0.0), reading(300, 0.0)],
    )];
    let out = build_measurements(&devices, &resources, &results, &StrMap::new(), true, false)
        .unwrap();
    assert_eq!(out.len(), 1);
    assert_eq!(out[0].timestamp, 100_000_000_000i128);
}

#[test]
fn interior_zero_is_kept_by_suppression() {
    let devices = vec![device("dev-1", &["res-1"])];
    let resources = build_map(vec![resource("res-1", Some("electricity.consumption"))]);
    let results = vec![ok_result(
        "res-1",
        vec![reading(100, 0.0), reading(200, 1.0), reading(300, 0.0)],
    )];
    let out = build_measurements(&devices, &resources, &results, &StrMap::new(), true, false)
        .unwrap();
    assert_eq!(out.len(), 2);
    assert_eq!(out[0].timestamp, 100_000_000_000i128);
    assert_eq!(out[1].timestamp, 200_000_000_000i128);
}

#[test]
fn suppression_can_be_disabled() {
    let devices = vec![device("dev-1", &["res-1"])];
    let resources = build_map(vec![resource("res-1", None)]);
    let results = vec![ok_result("res-1", vec![reading(100, 0.0), reading(200, 0.0)])];
    let out = build_measurements(&devices, &resources, &results, &StrMap::new(), false, false)
        .unwrap();
    assert_eq!(out.len(), 2);
}

#[test]
fn unknown_resource_is_skipped_silently() {
    let devices = vec![device("dev-1", &["res-unknown"])];
    let resources = build_map(vec![resource("res-1", None)]);
    let results = vec![ok_result("res-1", vec![reading(100, 1.0)])];
    let out = build_measurements(&devices, &resources, &results, &StrMap::new(), false, false)
        .unwrap();
    assert_eq!(out.len(), 0);
}

#[test]
fn lenient_mode_keeps_partial_results_on_fetch_failure() {
    let devices = vec![device("dev-1", &["res-1"]), device("dev-2", &["res-2"])];
    let resources = build_map(vec![resource("res-1", None), resource("res-2", None)]);
    let results = vec![
        ok_result("res-1", vec![reading(100, 1.0)]),
        err_result("res-1"),
        ok_result("res-1", vec![reading(200, 2.0)]),
        ok_result("res-2", vec![reading(300, 3.0)]),
    ];
    let out = build_measurements(&devices, &resources, &results, &StrMap::new(), false, false)
        .unwrap();
    // the first device stops at its failure and loses its later outcome;
    // the second device still contributes
    assert_eq!(out.len(), 2);
    assert_eq!(out[0].timestamp, 100_000_000_000i128);
    assert_eq!(out[1].timestamp, 300_000_000_000i128);
}

#[test]
fn strict_mode_aborts_on_fetch_failure() {
    let devices = vec![device("dev-1", &["res-1"])];
    let resources = build_map(vec![resource("res-1", None)]);
    let results = vec![ok_result("res-1", vec![reading(100, 1.0)]), err_result("res-1")];
    let r = build_measurements(&devices, &resources, &results, &StrMap::new(), false, true);
    match r {
        Err(e) => {
            assert_eq!(e.kind, ErrorKind::Network);
            assert_eq!(e.message, "connection reset");
        },
        Ok(_) => panic!("strict mode must hand the failure back"),
    }
}

#[test]
fn hardware_ids_become_tags() {
    let mut d = device("dev-1", &["res-1"]);
    d.hardware_ids = vec![("mpan".to_string(), "123".to_string())];
    let resources = build_map(vec![resource("res-1", None)]);
    let results = vec![ok_result("res-1", vec![reading(100, 1.0)])];
    let out = build_measurements(&vec![d], &resources, &results, &StrMap::new(), false, false)
        .unwrap();
    assert_eq!(out[0].tags.get("mpan"), Some(&"123".to_string()));
    assert_eq!(out[0].tags.get("hardware-id"), Some(&"hw-dev-1".to_string()));
}

#[test]
fn measurements_interleave_across_devices_by_timestamp() {
    let devices = vec![device("dev-1", &["res-1"]), device("dev-2", &["res-2"])];
    let resources = build_map(vec![resource("res-1", None), resource("res-2", None)]);
    let results = vec![
        ok_result("res-1", vec![reading(100, 1.0), reading(300, 3.0)]),
        ok_result("res-2", vec![reading(200, 2.0), reading(300, 4.0)]),
    ];
    let out = build_measurements(&devices, &resources, &results, &StrMap::new(), false, false)
        .unwrap();
    assert_eq!(out.len(), 4);
    assert_eq!(out[0].timestamp, 100_000_000_000i128);
    assert_eq!(out[1].timestamp, 200_000_000_000i128);
    assert_eq!(out[2].timestamp, 300_000_000_000i128);
    assert_eq!(out[3].timestamp, 300_000_000_000i128);
    // within one timestamp the arrival order is kept: the first device's
    // measurement stays ahead
    assert_eq!(out[2].tags.get("device-id"), Some(&"dev-1".to_string()));
    assert_eq!(out[3].tags.get("device-id"), Some(&"dev-2".to_string()));
}

#[test]
fn normalize_keeps_order_and_period() {
    let rows = vec![(100i64, (1.5f64).to_bits()), (50i64, (2.5f64).to_bits())];
    let out = normalize_readings(&rows, ReadingPeriod::Hour).unwrap();
    assert_eq!(out.len(), 2);
    assert_eq!(out[0].start, 100);
    assert_eq!(out[0].value, (1.5f64).to_bits());
    assert!(matches!(out[0].period, ReadingPeriod::Hour));
    assert_eq!(out[1].start, 50);
}

#[test]
fn normalize_rejects_unrepresentable_timestamp() {
    let rows = vec![(MAX_READING_TIMESTAMP + 1, (1.0f64).to_bits())];
    let r = normalize_readings(&rows, ReadingPeriod::HalfHour);
    match r {
        Err(e) => assert_eq!(e.kind, ErrorKind::Response),
        Ok(_) => panic!("out-of-range timestamp must fail the request"),
    }
}

#[test]
fn reading_end_is_start_plus_fixed_duration() {
    let r = Reading { start: 1000, period: ReadingPeriod::HalfHour, value: 0 };
    assert_eq!(reading_end(&r), Some(1000 + 1800));
    let r = Reading { start: 1000, period: ReadingPeriod::Week, value: 0 };
    assert_eq!(reading_end(&r), Some(1000 + 604800));
    let r = Reading { start: 1000, period: ReadingPeriod::Month, value: 0 };
    assert_eq!(reading_end(&r), None);
}

#[test]
fn period_query_arguments() {
    assert_eq!(period_query_arg(ReadingPeriod::HalfHour), "PT30M");
    assert_eq!(period_query_arg(ReadingPeriod::Hour), "PT1H");
    assert_eq!(period_query_arg(ReadingPeriod::Day), "P1D");
    assert_eq!(period_query_arg(ReadingPeriod::Week), "P1W");
    assert_eq!(period_query_arg(ReadingPeriod::Month), "P1M");
    assert_eq!(period_query_arg(ReadingPeriod::Year), "P1Y");
}

#[test]
fn maybe_turns_not_found_into_none() {
    let ok: Result<u32, Error> = Ok(7);
    assert_eq!(maybe(ok).unwrap(), Some(7));
    let missing: Result<u32, Error> = Err(Error {
        kind: ErrorKind::NotFound,
        message: "absent".to_string(),
    });
    assert_eq!(maybe(missing).unwrap(), None);
    let broken: Result<u32, Error> = Err(Error {
        kind: ErrorKind::Server,
        message: "boom".to_string(),
    });
    assert!(maybe(broken).is_err());
}

#[test]
fn status_codes_map_to_error_kinds() {
    assert_eq!(kind_for_status(Some(404)), ErrorKind::NotFound);
    assert_eq!(kind_for_status(Some(401)), ErrorKind::NotAuthenticated);
    assert_eq!(kind_for_status(Some(500)), ErrorKind::Server);
    assert_eq!(kind_for_status(Some(503)), ErrorKind::Server);
    assert_eq!(kind_for_status(Some(418)), ErrorKind::Client);
    assert_eq!(kind_for_status(None), ErrorKind::Network);
}

#[test]
fn auth_response_validation() {
    let good = AuthResponse::Valid(ValidAuthResponse {
        valid: true,
        token: "token-abc123".to_string(),
        expiry: 1700000000,
    });
    let validated = good.validate().unwrap();
    assert_eq!(validated.token, "token-abc123");
    let marked_invalid = AuthResponse::Valid(ValidAuthResponse {
        valid: false,
        token: "token-abc123".to_string(),
        expiry: 1700000000,
    });
    let e = marked_invalid.validate().unwrap_err();
    assert_eq!(e.kind, ErrorKind::NotAuthenticated);
    assert_eq!(e.message, "Authentication error");
    let rejected = AuthResponse::Invalid(InvalidAuthResponse {
        error: ErrorResponse { message: "bad credentials".to_string() },
    });
    let e = rejected.validate().unwrap_err();
    assert_eq!(e.kind, ErrorKind::NotAuthenticated);
    assert_eq!(e.message, "bad credentials");
}

#[test]
fn build_map_keys_by_identifier() {
    let map = build_map(vec![resource("res-b", None), resource("res-a", None)]);
    assert_eq!(map.len(), 2);
    assert_eq!(map.get("res-a").unwrap().id, "res-a");
    assert_eq!(map.get("res-b").unwrap().id, "res-b");
    assert!(map.get("res-c").is_none());
    let vs = values(map);
    assert_eq!(vs.len(), 2);
    assert_eq!(vs[0].id, "res-a");
    assert_eq!(vs[1].id, "res-b");
}

#[test]
fn endpoint_builds_urls() {
    let endpoint = GlowmarktEndpoint::default();
    assert_eq!(endpoint.base_url, "https://api.glowmarkt.com/api/v0-1");
    assert_eq!(endpoint.url("device"), "https://api.glowmarkt.com/api/v0-1/device");
    let endpoint = GlowmarktEndpoint {
        base_url: "http://localhost:8080".to_string(),
        app_id: "test".to_string(),
    };
    assert_eq!(endpoint.url("auth"), "http://localhost:8080/auth");
}
