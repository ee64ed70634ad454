use hackdose::meter::{find_value, register_to_watts, scale_to_watts};
use hackdose::sml::{
    parse_body, AnyValue, GetListResponseBody, SmlListEntry, SmlMessageEnvelope, SmlMessages,
};

const POWER: [u8; 6] = [1, 0, 16, 7, 0, 255];

fn entry(object_name: &[u8], value: AnyValue, scaler: Option<i64>) -> SmlListEntry {
    SmlListEntry {
        object_name: object_name.to_vec(),
        status: None,
        value_time: vec![],
        unit: Some(27),
        scaler,
        value,
    }
}

fn list(entries: Vec<SmlListEntry>) -> SmlMessageEnvelope {
    SmlMessageEnvelope::GetListResponse(GetListResponseBody {
        server_id: vec![1, 2, 3],
        list_name: vec![],
        value_list: entries,
    })
}

#[test]
fn applies_negative_scaler_truncating() {
    assert_eq!(scale_to_watts(&AnyValue::Signed(4567), Some(-1)), Some(456));
    assert_eq!(scale_to_watts(&AnyValue::Signed(-4567), Some(-1)), Some(-456));
    assert_eq!(scale_to_watts(&AnyValue::Unsigned(4567), Some(-3)), Some(4));
}

#[test]
fn applies_positive_and_absent_scaler() {
    assert_eq!(scale_to_watts(&AnyValue::Signed(-12), Some(2)), Some(-1200));
    assert_eq!(scale_to_watts(&AnyValue::Unsigned(321), None), Some(321));
    assert_eq!(scale_to_watts(&AnyValue::Signed(7), Some(0)), Some(7));
}

#[test]
fn saturates_to_i32() {
    assert_eq!(scale_to_watts(&AnyValue::Unsigned(u64::MAX), None), Some(i32::MAX));
    assert_eq!(scale_to_watts(&AnyValue::Signed(i64::MIN), Some(3)), Some(i32::MIN));
    assert_eq!(scale_to_watts(&AnyValue::Signed(3_000_000), Some(3)), Some(i32::MAX));
    assert_eq!(scale_to_watts(&AnyValue::Signed(5), Some(-40)), Some(0));
    assert_eq!(scale_to_watts(&AnyValue::Signed(5), Some(i64::MIN)), Some(0));
}

#[test]
fn string_value_gives_no_watts() {
    assert_eq!(scale_to_watts(&AnyValue::String(vec![1, 2]), None), None);
}

#[test]
fn reads_register_as_signed() {
    assert_eq!(register_to_watts(0xFF9C), -100);
    assert_eq!(register_to_watts(0x0064), 100);
    assert_eq!(register_to_watts(0x8000), -32768);
    assert_eq!(register_to_watts(0x7FFF), 32767);
}

#[test]
fn finds_scaled_power_entry() {
    let m = SmlMessages {
        messages: vec![
            SmlMessageEnvelope::GetCloseResponse,
            list(vec![
                entry(&[1, 0, 1, 8, 0, 255], AnyValue::Unsigned(99), None),
                entry(&POWER, AnyValue::Signed(4567), Some(-1)),
            ]),
        ],
    };
    assert_eq!(find_value(&m, &POWER), Some(456));
    assert_eq!(find_value(&m, &[9, 9, 9, 9, 9, 9]), None);
}

#[test]
fn skips_string_entry_and_takes_next_message() {
    let m = SmlMessages {
        messages: vec![
            list(vec![entry(&POWER, AnyValue::String(vec![65]), None)]),
            list(vec![entry(&POWER, AnyValue::Signed(-250), None)]),
        ],
    };
    assert_eq!(find_value(&m, &POWER), Some(-250));
}

#[test]
fn finds_value_in_parsed_body() {
    let body = vec![
        0x76, 0x05, 0x01, 0xD3, 0xD7, 0xBB, 0x62, 0x00, 0x62, 0x00, 0x72, 0x63, 0x07, 0x01, 0x77,
        0x01, 0x01, 0x01, 0x72, 0x62, 0x01, 0x65, 0x01, 0x8A, 0x4D, 0x15, 0x71, 0x77, 0x07, 1, 0,
        16, 7, 0, 255, 0x01, 0x01, 0x62, 0x1B, 0x52, 0xFF, 0x53, 0xFE, 0x0C, 0x01, 0x01, 0x01,
        0x63, 0xC6, 0x12, 0x00,
    ];
    let m = parse_body(&body).unwrap();
    // 0xFE0C = -500, scaled by 10^-1.
    assert_eq!(find_value(&m, &POWER), Some(-50));
}
