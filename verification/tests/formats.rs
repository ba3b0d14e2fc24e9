use dsh_launcher::base64::encode_base64;
use dsh_launcher::logging::{civil_from_days, error, info, timestamp};

#[test]
fn base64_known_vectors() {
    assert_eq!(encode_base64(b""), "");
    assert_eq!(encode_base64(b"f"), "Zg==");
    assert_eq!(encode_base64(b"fo"), "Zm8=");
    assert_eq!(encode_base64(b"foo"), "Zm9v");
    assert_eq!(encode_base64(b"foobar"), "Zm9vYmFy");
    assert_eq!(encode_base64(&[0xff, 0xfe, 0x00]), "//4A");
    assert_eq!(encode_base64(&[0xfb, 0xff]), "+/8=");
}

#[test]
fn base64_length_is_four_per_group() {
    for n in 0..20usize {
        let bytes: Vec<u8> = (0..n).map(|i| (i * 37) as u8).collect();
        assert_eq!(encode_base64(&bytes).len(), 4 * ((n + 2) / 3));
    }
}

#[test]
fn civil_dates() {
    assert_eq!(civil_from_days(0), (1970, 1, 1));
    assert_eq!(civil_from_days(59), (1970, 3, 1));
    assert_eq!(civil_from_days(11016), (2000, 2, 29));
    assert_eq!(civil_from_days(19723), (2024, 1, 1));
    assert_eq!(civil_from_days(-1), (1969, 12, 31));
    assert_eq!(civil_from_days(-719468), (0, 3, 1));
}

#[test]
fn timestamps_and_log_lines() {
    assert_eq!(timestamp(0, 0), "1970-01-01T00:00:00.000Z");
    assert_eq!(timestamp(1_700_000_000, 7), "2023-11-14T22:13:20.007Z");
    assert_eq!(timestamp(951_782_399, 999), "2000-02-28T23:59:59.999Z");
    assert_eq!(info("T", "启动"), "[T] 启动");
    assert_eq!(error("T", "坏了"), "[T] ERROR: 坏了");
}

#[test]
fn consecutive_day_numbers_are_consecutive_dates() {
    assert_eq!(civil_from_days(10957), (2000, 1, 1));
    assert_eq!(civil_from_days(10956), (1999, 12, 31));
    assert_eq!(civil_from_days(11017), (2000, 3, 1));
    assert_eq!(civil_from_days(-25508), (1900, 3, 1));
    assert_eq!(civil_from_days(-25509), (1900, 2, 28));
}

fn decode_base64_for_test(s: &str) -> Vec<u8> {
    let value = |c: u8| -> u32 {
        match c {
            b'A'..=b'Z' => (c - b'A') as u32,
            b'a'..=b'z' => (c - b'a') as u32 + 26,
            b'0'..=b'9' => (c - b'0') as u32 + 52,
            b'+' => 62,
            _ => 63,
        }
    };
    let mut out = Vec::new();
    for q in s.as_bytes().chunks(4) {
        let n = (value(q[0]) << 18) | (value(q[1]) << 12) | (if q[2] == b'=' { 0 } else { value(q[2]) << 6 })
            | (if q[3] == b'=' { 0 } else { value(q[3]) });
        out.push((n >> 16) as u8);
        if q[2] != b'=' {
            out.push((n >> 8) as u8);
        }
        if q[3] != b'=' {
            out.push(n as u8);
        }
    }
    out
}

#[test]
fn base64_decodes_back_to_the_bytes() {
    let samples: Vec<Vec<u8>> = vec![vec![], vec![0], vec![255, 254], vec![0, 1, 2, 3, 250, 251, 252], (0..=255).collect()];
    for b in samples {
        assert_eq!(decode_base64_for_test(&encode_base64(&b)), b);
    }
}
