use bitaxe_cli::error::{CliError, Command};
use bitaxe_cli::render::{render, status_outcome, status_report, DisplayLine, REPORT_HEADER};
use bitaxe_cli::telemetry::{decode_reply, Document, FieldValue, RawValue, TelemetryRecord, FIELD_COUNT};

fn num(k: &str, t: &str) -> (String, RawValue) {
    (k.to_string(), RawValue::Number(t.to_string()))
}

fn text(k: &str, t: &str) -> (String, RawValue) {
    (k.to_string(), RawValue::Text(t.to_string()))
}

fn doc(entries: Vec<(String, RawValue)>) -> Document {
    Document { entries }
}

fn values(lines: &[DisplayLine]) -> Vec<(String, String)> {
    lines.iter().map(|l| (l.label.clone(), l.value.clone())).collect()
}

#[test]
fn hashrate_and_temp_only() {
    let d = doc(vec![num("hashRate", "450.5"), num("temp", "60")]);
    let lines = render(&TelemetryRecord::extract(&d));
    assert_eq!(
        values(&lines),
        vec![
            ("Hashrate".to_string(), "450.50 GH/s".to_string()),
            ("Core Temp".to_string(), "60.0 °C".to_string()),
        ]
    );
    let report = status_report(&d);
    assert_eq!(
        report,
        vec![
            REPORT_HEADER.to_string(),
            "Hashrate        : 450.50 GH/s".to_string(),
            "Core Temp       : 60.0 °C".to_string(),
        ]
    );
}

#[test]
fn voltage_in_volts() {
    let d = doc(vec![num("voltage", "5000")]);
    let lines = render(&TelemetryRecord::extract(&d));
    assert_eq!(values(&lines), vec![("PSU Voltage".to_string(), "5.00 V".to_string())]);
}

#[test]
fn empty_document_gives_header_only() {
    let d = doc(vec![]);
    assert_eq!(status_report(&d), vec![REPORT_HEADER.to_string()]);
    let record = TelemetryRecord::extract(&d);
    assert_eq!(record.fields.len(), FIELD_COUNT);
    assert!(record.fields.iter().all(|f| f.is_none()));
}

fn full_entries() -> Vec<(String, RawValue)> {
    vec![
        text("hostname", "bitaxe"),
        num("hashRate", "1234.567"),
        num("bestDiff", "1.5e3"),
        text("bestSessionDiff", "12.3M"),
        num("sharesAccepted", "100"),
        num("sharesRejected", "2.0"),
        num("temp", "55.25"),
        num("vrTemp", "48"),
        num("power", "14.123"),
        num("voltage", "5125"),
        num("frequency", "525"),
        num("coreVoltage", "1200"),
        num("coreVoltageActual", "1187"),
        num("wifiRSSI", "-62"),
        text("wifiStatus", "Connected!"),
    ]
}

#[test]
fn every_field_in_fixed_order() {
    let expected = vec![
        "Hostname        : bitaxe",
        "Hashrate        : 1234.57 GH/s",
        "Best Diff       : 1500",
        "Best Session    : 12.3M",
        "Shares Accepted : 100",
        "Shares Rejected : 2",
        "Core Temp       : 55.2 °C",
        "VR Temp         : 48.0 °C",
        "Power           : 14.12 W",
        "PSU Voltage     : 5.12 V",
        "Frequency       : 525 MHz",
        "Core V (set)    : 1200 mV",
        "Core V (actual) : 1187 mV",
        "WiFi RSSI       : -62 dBm",
        "WiFi Status     : Connected!",
    ];
    let mut report = status_report(&doc(full_entries()));
    assert_eq!(report.remove(0), REPORT_HEADER);
    assert_eq!(report, expected);
    let mut reversed = full_entries();
    reversed.reverse();
    let mut report = status_report(&doc(reversed));
    report.remove(0);
    assert_eq!(report, expected);
}

#[test]
fn absent_fields_leave_no_line() {
    let d = doc(vec![text("wifiStatus", "ok"), num("frequency", "490"), text("hostname", "rig")]);
    let report = status_report(&d);
    assert_eq!(
        report,
        vec![
            REPORT_HEADER.to_string(),
            "Hostname        : rig".to_string(),
            "Frequency       : 490 MHz".to_string(),
            "WiFi Status     : ok".to_string(),
        ]
    );
}

#[test]
fn wrong_types_count_as_absent() {
    let d = doc(vec![
        num("hostname", "12"),
        text("hashRate", "fast"),
        (String::from("temp"), RawValue::Other),
        text("bestDiff", "4.2G"),
        num("bestSessionDiff", "100.0"),
        num("power", "not a number"),
        text("unknownKey", "x"),
    ]);
    let record = TelemetryRecord::extract(&d);
    let lines = render(&record);
    assert_eq!(
        values(&lines),
        vec![
            ("Best Diff".to_string(), "4.2G".to_string()),
            ("Best Session".to_string(), "100".to_string()),
        ]
    );
}

#[test]
fn integer_and_float_values_render_alike() {
    for t in ["100", "100.0", "1e2"] {
        let lines = render(&TelemetryRecord::extract(&doc(vec![num("hashRate", t)])));
        assert_eq!(values(&lines), vec![("Hashrate".to_string(), "100.00 GH/s".to_string())]);
    }
}

#[test]
fn extraction_twice_is_identical() {
    let d = doc(full_entries());
    let a = status_report(&d);
    let b = status_report(&d);
    assert_eq!(a, b);
    let ra = TelemetryRecord::extract(&d);
    let rb = TelemetryRecord::extract(&d);
    for (x, y) in ra.fields.iter().zip(rb.fields.iter()) {
        match (x, y) {
            (Some(FieldValue::Number(p)), Some(FieldValue::Number(q))) => assert_eq!(p, q),
            (Some(FieldValue::Text(p)), Some(FieldValue::Text(q))) => assert_eq!(p, q),
            (None, None) => {}
            _ => panic!("records differ"),
        }
    }
}

#[test]
fn first_member_of_a_repeated_name_wins() {
    let d = doc(vec![num("power", "10"), num("power", "20")]);
    assert_eq!(status_report(&d)[1], "Power           : 10.00 W");
}

#[test]
fn long_label_is_not_cut() {
    let line = DisplayLine { label: "A label longer than sixteen".to_string(), value: "v".to_string() };
    assert_eq!(line.text(), "A label longer than sixteen: v");
}

#[test]
fn status_reply_with_two_fields() {
    let lines = status_outcome(200, r#"{"hashRate": 450.5, "temp": 60}"#).unwrap();
    assert_eq!(
        lines,
        vec![
            REPORT_HEADER.to_string(),
            "Hashrate        : 450.50 GH/s".to_string(),
            "Core Temp       : 60.0 °C".to_string(),
        ]
    );
}

#[test]
fn status_reply_empty_object() {
    assert_eq!(status_outcome(200, "{}").unwrap(), vec![REPORT_HEADER.to_string()]);
}

#[test]
fn status_reply_json_kinds() {
    let body = r#"{"voltage": 5000, "bestDiff": 1.5e3, "sharesAccepted": 18446744073709551615,
        "wifiRSSI": -62, "hostname": null, "power": "12", "bestSessionDiff": "9.1M"}"#;
    assert_eq!(
        status_outcome(200, body).unwrap(),
        vec![
            REPORT_HEADER.to_string(),
            "Best Diff       : 1500".to_string(),
            "Best Session    : 9.1M".to_string(),
            "Shares Accepted : 18446744073709551615".to_string(),
            "PSU Voltage     : 5.00 V".to_string(),
            "WiFi RSSI       : -62 dBm".to_string(),
        ]
    );
}

#[test]
fn status_reply_not_an_object() {
    assert_eq!(status_outcome(200, "[1, 2]").unwrap(), vec![REPORT_HEADER.to_string()]);
    assert_eq!(status_outcome(200, "42").unwrap(), vec![REPORT_HEADER.to_string()]);
}

#[test]
fn status_reply_errors() {
    assert!(matches!(
        status_outcome(200, "not json"),
        Err(CliError::ResponseDecodeFailure(_))
    ));
    assert!(matches!(
        status_outcome(500, "{}"),
        Err(CliError::HttpStatusFailure(Command::Status, 500))
    ));
}

#[test]
fn decoded_members_keep_their_kinds() {
    let d = decode_reply(r#"{"temp": 60.0, "hostname": "rig", "x": true}"#).unwrap();
    assert_eq!(d.entries.len(), 3);
    match d.get("temp") {
        Some(RawValue::Number(t)) => assert_eq!(t, "60.0"),
        _ => panic!("temp is a number"),
    }
    assert!(matches!(d.get("hostname"), Some(RawValue::Text(s)) if s == "rig"));
    assert!(matches!(d.get("x"), Some(RawValue::Other)));
    assert!(d.get("missing").is_none());
}

#[test]
fn number_forms_give_the_same_report() {
    let a = status_outcome(200, r#"{"power": 15, "temp": 1e2, "bestDiff": 2000}"#).unwrap();
    let b = status_outcome(200, r#"{"power": 15.0, "temp": 100, "bestDiff": 2.0e3}"#).unwrap();
    assert_eq!(a, b);
    assert_eq!(a[3], "Power           : 15.00 W");
}
