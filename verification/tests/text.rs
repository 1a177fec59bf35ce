use validation_archiver::text::{
    decimal_string, is_backup_name, is_confirmation, push_signed_decimal, same_text, surround,
};

#[test]
fn numbers_in_decimal() {
    for n in [0u128, 7, 10, 99, 100, 1_700_000_000, u64::MAX as u128, u128::MAX] {
        assert_eq!(decimal_string(n), n.to_string());
    }
}

#[test]
fn signed_numbers_in_decimal() {
    for n in [0i32, 1, -1, 42, -42, i32::MAX, i32::MIN] {
        let mut shown = "<".to_string();
        push_signed_decimal(&mut shown, n);
        assert_eq!(shown, format!("<{}", n));
    }
}

#[test]
fn backup_names_are_u64() {
    for name in [
        "0", "1700000000", "+5", "007", "18446744073709551615", "00000000000000000000000000001",
    ] {
        assert!(is_backup_name(name.as_bytes()), "{}", name);
    }
    for name in [
        "", "+", "-1", "1a", " 1", "1 ", "1_000", "++1", "18446744073709551616",
        "99999999999999999999999", "1.5", "a", ".hash", "٣",
    ] {
        assert!(!is_backup_name(name.as_bytes()), "{}", name);
    }
    assert!(!is_backup_name(&[0xff, b'1']));
}

#[test]
fn backup_names_agree_with_parsing() {
    let alphabet = ['0', '1', '9', '+', '-', ' ', 'x'];
    for a in alphabet {
        for b in alphabet {
            for c in alphabet {
                let name: String = [a, b, c].iter().collect();
                assert_eq!(is_backup_name(name.as_bytes()), name.parse::<u64>().is_ok());
            }
        }
    }
}

#[test]
fn every_timestamp_is_a_backup_name() {
    for at in [0u64, 9, 10, 1_723_456_789, u64::MAX - 1, u64::MAX] {
        let name = decimal_string(at as u128);
        assert!(is_backup_name(name.as_bytes()));
        assert_eq!(name.parse::<u64>(), Ok(at));
    }
}

#[test]
fn answers() {
    for yes in ["y", "Y", "y\n", " Y \r\n", "\ty", "\u{3000}y\u{a0}"] {
        assert!(is_confirmation(yes), "{:?}", yes);
    }
    for no in ["", "\n", "n", "yes", "yy", "y y", "Yes\n", "y.", "ÿ", "N"] {
        assert!(!is_confirmation(no), "{:?}", no);
    }
}

#[test]
fn answers_of_one_character_follow_unicode() {
    for c in (0..=0x10ffffu32).filter_map(char::from_u32) {
        let alone = c.to_string();
        assert_eq!(is_confirmation(&alone), alone.trim().to_lowercase() == "y", "{:?}", c);
        let beside = format!("{}y", c);
        assert_eq!(is_confirmation(&beside), beside.trim().to_lowercase() == "y", "{:?}", c);
    }
}

#[test]
fn texts_put_together() {
    assert_eq!(surround("a'", "b", "'c"), "a'b'c");
    assert!(same_text("single_file", "single_file"));
    assert!(!same_text("single_file", "single_files"));
}
