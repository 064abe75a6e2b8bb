use ml_core::data::preprocessing::{OHEStrategy, Preprocessing};
use ml_core::data::RawRecord;

/// The cells of an encoding as the model reads them.
fn cells(url: &[u8]) -> Vec<f32> {
    url.iter().map(|&v| v as f32).collect()
}

#[test]
fn test_charset_length() {
    assert_eq!(OHEStrategy::CHARSET.len(), OHEStrategy::CHARSET_LEN);
    assert_eq!(OHEStrategy::CHARSET_LEN, 84);
    assert_eq!(OHEStrategy::CHARSET_WORD_LEN, 85);
}

#[test]
fn test_encoding_length() {
    let record = RawRecord {
        url: "https://example.com".to_owned(),
        label: false,
    };
    let enc = OHEStrategy::encode_url(&record);
    assert_eq!(enc.url.len(), OHEStrategy::ENCODED_URL_LEN);
    assert_eq!(enc.url.len(), 8415);
}

#[test]
fn test_known_char_positions() {
    let table = OHEStrategy::look_up_table();
    // 'a' is at charset index 0
    assert_eq!(table[b'a' as usize], 0);
    // 'z' is at charset index 25
    assert_eq!(table[b'z' as usize], 25);
    // 'A' is at charset index 26
    assert_eq!(table[b'A' as usize], 26);
    // '0' is at charset index 52
    assert_eq!(table[b'0' as usize], 52);
    // '=' is at charset index 83
    assert_eq!(table[b'=' as usize], 83);
}

#[test]
fn test_unknown_chars_are_255() {
    let table = OHEStrategy::look_up_table();
    assert_eq!(table[b' ' as usize], 255);
    assert_eq!(table[b'\n' as usize], 255);
    assert_eq!(table[b'\0' as usize], 255);
    assert_eq!(table[b'%' as usize], 255);
}

#[test]
fn test_simple_encoding() {
    let record = RawRecord {
        url: "a".into(),
        label: true,
    };
    let enc = OHEStrategy::encode_url(&record);
    let url = cells(&enc.url);
    // Position 0, charset index 0 should be 1.0
    assert_eq!(url[0 * OHEStrategy::CHARSET_WORD_LEN + 0], 1.0);
    // All other positions in row 0 should be 0
    for i in 1..OHEStrategy::CHARSET_WORD_LEN {
        assert_eq!(url[0 * OHEStrategy::CHARSET_WORD_LEN + i], 0.0);
    }
    // Remaining rows should be all zeros (padding)
    for j in 1..OHEStrategy::FIXED_URL_LEN {
        for i in 0..OHEStrategy::CHARSET_WORD_LEN {
            assert_eq!(
                url[j * OHEStrategy::CHARSET_WORD_LEN + i],
                0.0,
                "unexpected 1.0 at row {j}, col {i}"
            );
        }
    }
}

#[test]
fn test_truncation_to_99() {
    let long_url = RawRecord {
        url: "a".repeat(200),
        label: false,
    };
    let enc = OHEStrategy::encode_url(&long_url);
    let url = cells(&enc.url);
    // All 99 positions should have 'a' encoded
    for j in 0..OHEStrategy::FIXED_URL_LEN {
        assert_eq!(
            url[j * OHEStrategy::CHARSET_WORD_LEN + 0],
            1.0,
            "position {j} should have 'a'"
        );
    }
    // Total 1.0 count should be exactly 99
    let count: usize = url.iter().filter(|&&v| v == 1.0).count();
    assert_eq!(count, 99);
}

#[test]
fn test_empty_url() {
    let enc = OHEStrategy::encode_url(&RawRecord {
        url: "".into(),
        label: false,
    });
    let url = cells(&enc.url);
    // All zeros (empty URL -> all padding)
    assert!(url.iter().all(|&v| v == 0.0));
}

#[test]
fn test_unknown_chars_produce_zero_rows() {
    // '%' is not in charset
    let enc = OHEStrategy::encode_url(&RawRecord {
        url: "%".into(),
        label: false,
    });
    let url = cells(&enc.url);
    // Position 0 should be all zeros
    for i in 0..OHEStrategy::CHARSET_WORD_LEN {
        assert_eq!(url[0 * OHEStrategy::CHARSET_WORD_LEN + i], 0.0);
    }
}

#[test]
fn test_sum_per_row() {
    let enc = OHEStrategy::encode_url(&RawRecord {
        url: "https://example.com".into(),
        label: false,
    });
    let url = cells(&enc.url);
    let table = OHEStrategy::look_up_table();
    let url_bytes = b"https://example.com";
    for j in 0..url_bytes.len() {
        let row_sum: f32 = (0..OHEStrategy::CHARSET_WORD_LEN)
            .map(|i| url[j * OHEStrategy::CHARSET_WORD_LEN + i])
            .sum();
        if table[url_bytes[j] as usize] != 255 {
            assert_eq!(
                row_sum, 1.0,
                "row {j} (char '{}') should sum to 1.0",
                url_bytes[j] as char
            );
        } else {
            assert_eq!(
                row_sum, 0.0,
                "row {j} (char '{}') should sum to 0.0",
                url_bytes[j] as char
            );
        }
    }
    // Padding rows should sum to 0
    for j in url_bytes.len()..OHEStrategy::FIXED_URL_LEN {
        let row_sum: f32 = (0..OHEStrategy::CHARSET_WORD_LEN)
            .map(|i| url[j * OHEStrategy::CHARSET_WORD_LEN + i])
            .sum();
        assert_eq!(row_sum, 0.0, "padding row {j} should sum to 0.0");
    }
}

#[test]
fn encoded_length_constant_is_rows_times_word() {
    assert_eq!(OHEStrategy::FIXED_URL_LEN, 99);
    assert_eq!(OHEStrategy::ENCODED_URL_LEN, 99 * 85);
    assert_eq!(OHEStrategy::NOT_IN_CHARSET, 255);
}

#[test]
fn look_up_table_inverts_charset() {
    let table = OHEStrategy::look_up_table();
    for (i, &c) in OHEStrategy::CHARSET.iter().enumerate() {
        assert_eq!(table[c as usize] as usize, i);
    }
    for b in 0..=255u8 {
        let idx = table[b as usize];
        if idx == 255 {
            assert!(!OHEStrategy::CHARSET.contains(&b));
        } else {
            assert_eq!(OHEStrategy::CHARSET[idx as usize], b);
        }
    }
    assert_eq!(table[b'~' as usize], 65);
    assert_eq!(table[b'9' as usize], 61);
    assert_eq!(table[b'-' as usize], 62);
    assert_eq!(table[0x80], 255);
}

#[test]
fn encoding_marks_each_character_at_its_index() {
    let enc = OHEStrategy::encode_url(&RawRecord {
        url: "aZ9=".into(),
        label: false,
    });
    let mut ones = Vec::new();
    for (k, &v) in enc.url.iter().enumerate() {
        assert!(v == 0 || v == 1);
        if v == 1 {
            ones.push(k);
        }
    }
    assert_eq!(ones, vec![0, 85 + 51, 2 * 85 + 61, 3 * 85 + 83]);
}

#[test]
fn label_becomes_malicious_flag() {
    let malicious = OHEStrategy::encode_url(&RawRecord { url: "x".into(), label: true });
    let benign = OHEStrategy::encode_url(&RawRecord { url: "x".into(), label: false });
    assert_eq!(malicious.is_malicious, 1);
    assert_eq!(benign.is_malicious, 0);
}

#[test]
fn bytes_past_99_do_not_change_the_encoding() {
    let prefix = "b".repeat(99);
    let short = OHEStrategy::encode_url(&RawRecord { url: prefix.clone(), label: false });
    let long = OHEStrategy::encode_url(&RawRecord { url: format!("{prefix}zzzz%%"), label: false });
    assert_eq!(short.url, long.url);
}

#[test]
fn unknown_characters_are_ignored_in_place() {
    // A byte outside the set leaves its row empty; the other rows keep their
    // positions.
    let with_space = OHEStrategy::encode_url(&RawRecord { url: "a b".into(), label: false });
    let with_percent = OHEStrategy::encode_url(&RawRecord { url: "a%b".into(), label: false });
    let without = OHEStrategy::encode_url(&RawRecord { url: "ab".into(), label: false });
    assert_eq!(with_space.url, with_percent.url);
    assert_ne!(with_space.url, without.url);
    assert_eq!(with_space.url[2 * 85 + 1], 1);
}

#[test]
fn non_ascii_bytes_give_empty_rows() {
    // 'é' is two UTF-8 bytes, both outside the character set.
    let enc = OHEStrategy::encode_url(&RawRecord { url: "éa".into(), label: false });
    assert!(enc.url[0..2 * 85].iter().all(|&v| v == 0));
    assert_eq!(enc.url[2 * 85], 1);
    assert_eq!(enc.url.iter().filter(|&&v| v == 1).count(), 1);
}
