use btc_script::{as_bool, as_script_nb, to_script_nb, ScriptError};

#[test]
fn encode_negative_two_bytes() {
    assert_eq!(to_script_nb(-0x50ab), vec![0xab, 0xd0]);
    assert_eq!(as_script_nb(&[0xab, 0xd0]), Ok(-0x50ab));
}

#[test]
fn encode_sixteen() {
    assert_eq!(to_script_nb(16), vec![0x10]);
}

#[test]
fn encode_sign_byte_boundaries() {
    assert_eq!(to_script_nb(127), vec![0x7f]);
    assert_eq!(to_script_nb(128), vec![0x80, 0x00]);
    assert_eq!(to_script_nb(-128), vec![0x80, 0x80]);
}

#[test]
fn zero_is_empty() {
    assert_eq!(to_script_nb(0), Vec::<u8>::new());
    assert_eq!(as_script_nb(&[]), Ok(0));
}

#[test]
fn round_trip_samples() {
    let samples: [i64; 12] = [
        1, -1, 127, -127, 255, -255, 256, 0x7fff, -0x8000, 0x7fff_ffff, -0x7fff_ffff, 0x12_3456,
    ];
    for n in samples {
        let e = to_script_nb(n);
        assert!(e.len() <= 4);
        assert_eq!(as_script_nb(&e), Ok(n));
    }
}

#[test]
fn encode_wide_values() {
    assert_eq!(to_script_nb(0x8000_0000), vec![0x00, 0x00, 0x00, 0x80, 0x00]);
    assert_eq!(to_script_nb(-0x8000_0000), vec![0x00, 0x00, 0x00, 0x80, 0x80]);
    assert_eq!(
        to_script_nb(i64::MIN),
        vec![0x00, 0x00, 0x00, 0x00, 0x00, 0x00, 0x00, 0x80, 0x80]
    );
}

#[test]
fn decode_too_wide() {
    assert_eq!(as_script_nb(&[1, 2, 3, 4, 5]), Err(ScriptError::NumberOverflow));
}

#[test]
fn decode_non_minimal() {
    assert_eq!(as_script_nb(&[0x01, 0x00]), Ok(1));
    assert_eq!(as_script_nb(&[0x01, 0x80]), Ok(-1));
    assert_eq!(as_script_nb(&[0x80]), Ok(0));
    assert_eq!(as_script_nb(&[0xff, 0xff, 0xff, 0xff]), Ok(-0x7fff_ffff));
}

#[test]
fn negative_zero_is_false() {
    assert!(!as_bool(&[0x80]));
    assert!(!as_bool(&[]));
    assert!(!as_bool(&[0x00, 0x00]));
    assert!(!as_bool(&[0x00, 0x80]));
}

#[test]
fn non_zero_is_true() {
    assert!(as_bool(&[0x01]));
    assert!(as_bool(&[0x80, 0x80]));
    assert!(as_bool(&[0x80, 0x00]));
    assert!(as_bool(&[0x00, 0x01]));
    assert!(as_bool(&[0x81]));
}
