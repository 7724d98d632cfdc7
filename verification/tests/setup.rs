use amcrust::hap::mdns::accessory_hostname;
use amcrust::setup::{
    changed_shape, choose_pin, format_setup_code, gate_snapshot, generate_pin, legacy_default_pin,
    md5_like_hash, nearby_pin, parse_pin, printable_name, snapshot_filename, Pin, PinChoice, PinError,
};

#[test]
fn setup_pin_accepts_dashed_or_undashed_input_and_displays_four_four() {
    let dashed = parse_pin("1112-2333").unwrap();
    let undashed = parse_pin("11122333").unwrap();

    assert_eq!(dashed, undashed);
    assert_eq!(format_setup_code(&dashed), "1112-2333");
}

#[test]
fn setup_codes_are_checked() {
    assert_eq!(parse_pin("123-4567"), Err(PinError::NotEightDigits));
    assert_eq!(parse_pin("123456789"), Err(PinError::NotEightDigits));
    assert_eq!(parse_pin("1234-5678"), Err(PinError::TooEasy));
    assert_eq!(parse_pin("87654321"), Err(PinError::TooEasy));
    assert_eq!(parse_pin("000-00-000"), Err(PinError::TooEasy));
    assert_eq!(Pin::new([1, 2, 3, 4, 5, 6, 7, 10]), Err(PinError::InvalidDigit));
    assert!(Pin::new([9, 9, 9, 9, 9, 9, 9, 8]).is_ok());
}

#[test]
fn a_shown_code_reads_back() {
    let pin = Pin::new([0, 3, 1, 4, 5, 1, 5, 4]).unwrap();
    assert_eq!(format_setup_code(&pin), "0314-5154");
    assert_eq!(parse_pin(&format_setup_code(&pin)), Ok(pin));
}

#[test]
fn generated_codes_are_codes() {
    let mut seen = Vec::new();
    while seen.len() < 20 {
        let pin = generate_pin();
        let shown = format_setup_code(&pin);
        assert_eq!(parse_pin(&shown), Ok(pin));
        seen.push(shown);
    }
    assert!(seen.iter().any(|s| s != &seen[0]));
}

#[test]
fn the_setup_code_is_chosen() {
    let stored = Pin::new([0, 3, 1, 4, 5, 1, 5, 4]).unwrap();
    let given = parse_pin("4711-0815").unwrap();
    assert_eq!(choose_pin(Some("4711-0815"), Some(stored)), Ok(PinChoice::Use(given)));
    assert_eq!(choose_pin(Some("1"), Some(stored)), Err(PinError::NotEightDigits));
    assert_eq!(choose_pin(None, Some(stored)), Ok(PinChoice::Keep(stored)));
    assert_eq!(choose_pin(None, Some(legacy_default_pin())), Ok(PinChoice::Generate));
    assert_eq!(choose_pin(None, None), Ok(PinChoice::Generate));
    assert_eq!(format_setup_code(&legacy_default_pin()), "1112-2333");
}

#[test]
fn names_are_made_safe() {
    assert_eq!(snapshot_filename("Front Yard/2"), "Front_Yard_2.jpg");
    assert_eq!(snapshot_filename("a-b_C9"), "a-b_C9.jpg");
    assert_eq!(snapshot_filename("caf\u{e9}"), "caf_.jpg");
    assert_eq!(printable_name("Front Yard\n\u{e9}~"), "Front Yard__~");
    assert_eq!(accessory_hostname("FrontYard"), "hap-frontyard.local");
    assert_eq!(accessory_hostname(" Front Yard! "), "hap-front-yard.local");
    assert_eq!(accessory_hostname("--"), "hap-.local");
}

#[test]
fn hashes_are_fnv1a() {
    assert_eq!(md5_like_hash(b""), 0xcbf2_9ce4_8422_2325);
    assert_eq!(md5_like_hash(b"a"), 0xaf63_dc4c_8601_ec8c);
    assert_eq!(md5_like_hash(b"foobar"), 0x8594_4171_f739_67e8);
}

#[test]
fn a_changed_shape_is_noticed() {
    let first = changed_shape(b"shape", None).unwrap();
    assert_eq!(first, format!("{:x}", md5_like_hash(b"shape")));
    assert!(changed_shape(b"shape", Some(&first)).is_none());
    assert!(changed_shape(b"other", Some(&first)).is_some());
}

#[test]
fn snapshots_are_gated_by_their_reason() {
    assert_eq!(gate_snapshot(Some(0), true, false), Ok(()));
    assert_eq!(gate_snapshot(Some(0), false, true), Err(-70412));
    assert_eq!(gate_snapshot(Some(1), false, true), Ok(()));
    assert_eq!(gate_snapshot(Some(1), true, false), Err(-70412));
    assert_eq!(gate_snapshot(None, true, true), Ok(()));
    assert_eq!(gate_snapshot(None, true, false), Err(-70401));
    assert_eq!(gate_snapshot(Some(7), false, true), Err(-70412));
}

#[test]
fn a_code_too_easy_has_one_nearby() {
    let shown = |digits| format_setup_code(&nearby_pin(digits));
    assert_eq!(shown([4, 8, 1, 5, 1, 6, 2, 3]), "4815-1623");
    assert_eq!(shown([1, 2, 3, 4, 5, 6, 7, 8]), "1234-5679");
    assert_eq!(shown([8, 7, 6, 5, 4, 3, 2, 1]), "8765-4322");
    assert_eq!(shown([9; 8]), "9999-9990");
}

#[test]
fn refused_codes_are_named() {
    assert_eq!(
        parse_pin("123").unwrap_err().message("123"),
        "PIN must contain exactly 8 digits: 123"
    );
    assert_eq!(parse_pin("11111111").unwrap_err().message("1"), "PIN is too easy: 1");
    assert_eq!(PinError::InvalidDigit.message("x"), "PIN holds an invalid digit: x");
}
