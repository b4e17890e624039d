use slq::drivers::mysql::{format_date_part, normalize, Value};
use slq::drivers::DriverError;

#[test]
fn null_renders_empty() {
    assert_eq!(normalize(&Value::Null).unwrap(), "");
}

#[test]
fn bytes_decode_as_text() {
    assert_eq!(
        normalize(&Value::Bytes(b"john_doe".to_vec())).unwrap(),
        "john_doe"
    );
}

#[test]
fn bytes_decode_multibyte_text() {
    assert_eq!(
        normalize(&Value::Bytes(vec![0xc3, 0xa9])).unwrap(),
        "\u{e9}"
    );
}

#[test]
fn empty_bytes_decode_empty() {
    assert_eq!(normalize(&Value::Bytes(Vec::new())).unwrap(), "");
}

#[test]
fn invalid_bytes_are_conversion_errors() {
    let result = normalize(&Value::Bytes(vec![0xff, 0xfe, 0x20]));
    assert!(matches!(result, Err(DriverError::Conversion)));
}

#[test]
fn signed_integers_render_decimal() {
    assert_eq!(normalize(&Value::Int(0)).unwrap(), "0");
    assert_eq!(normalize(&Value::Int(-42)).unwrap(), "-42");
    assert_eq!(normalize(&Value::Int(1234567)).unwrap(), "1234567");
    assert_eq!(
        normalize(&Value::Int(i64::MIN)).unwrap(),
        "-9223372036854775808"
    );
    assert_eq!(
        normalize(&Value::Int(i64::MAX)).unwrap(),
        "9223372036854775807"
    );
}

#[test]
fn unsigned_integers_render_decimal() {
    assert_eq!(normalize(&Value::UInt(0)).unwrap(), "0");
    assert_eq!(normalize(&Value::UInt(987)).unwrap(), "987");
    assert_eq!(
        normalize(&Value::UInt(u64::MAX)).unwrap(),
        "18446744073709551615"
    );
}

#[test]
fn floats_pass_their_rendering_through() {
    let single = (1.5f32).to_string();
    assert_eq!(normalize(&Value::Float(single)).unwrap(), "1.5");
    let double = (-0.25f64).to_string();
    assert_eq!(normalize(&Value::Double(double)).unwrap(), "-0.25");
}

#[test]
fn date_renders_with_two_digit_parts() {
    let value = Value::Date(2024, 2, 6, 16, 38, 26, 999_999);
    assert_eq!(normalize(&value).unwrap(), "2024-02-06 16:38:26");
}

#[test]
fn date_keeps_wide_parts_at_natural_width() {
    let value = Value::Date(987, 11, 30, 5, 6, 59, 0);
    assert_eq!(normalize(&value).unwrap(), "987-11-30 05:06:59");
}

#[test]
fn negative_time_renders_with_sign() {
    let value = Value::Time(true, 1, 2, 3, 4, 5);
    assert_eq!(normalize(&value).unwrap(), "-1d 2h 3m");
}

#[test]
fn nonnegative_time_renders_without_sign() {
    let value = Value::Time(false, 0, 5, 9, 59, 100);
    assert_eq!(normalize(&value).unwrap(), "0d 5h 9m");
}

#[test]
fn date_parts_pad_below_ten() {
    assert_eq!(format_date_part(0), "00");
    assert_eq!(format_date_part(5), "05");
    assert_eq!(format_date_part(9), "09");
    assert_eq!(format_date_part(10), "10");
    assert_eq!(format_date_part(16), "16");
    assert_eq!(format_date_part(255), "255");
}
