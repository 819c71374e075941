use rust_gauge::metrics::format_bytes;
use rust_gauge::percent::{clamp_percent, push_percent_digits};
use rust_gauge::text::{decimal_string, to_wide, trim_chars, white_space, chars_of};

fn reference_format_bytes(bytes: u64) -> String {
    const KB: f64 = 1024.0;
    const MB: f64 = KB * 1024.0;
    const GB: f64 = MB * 1024.0;
    let bytes = bytes as f64;
    if bytes >= GB {
        format!("{:.1} GB", bytes / GB)
    } else if bytes >= MB {
        format!("{:.1} MB", bytes / MB)
    } else if bytes >= KB {
        format!("{:.1} KB", bytes / KB)
    } else {
        format!("{bytes:.0} B")
    }
}

fn percent_text(bits: u32) -> String {
    let mut s = String::new();
    push_percent_digits(&mut s, bits);
    s
}

#[test]
fn format_bytes_examples() {
    assert_eq!(format_bytes(0), "0 B");
    assert_eq!(format_bytes(1023), "1023 B");
    assert_eq!(format_bytes(1024), "1.0 KB");
    assert_eq!(format_bytes(1536), "1.5 KB");
    assert_eq!(format_bytes(1024 * 1024), "1.0 MB");
    assert_eq!(format_bytes(5 * 1024 * 1024 * 1024), "5.0 GB");
}

#[test]
fn format_bytes_rounds_ties_to_even() {
    // 1.25 KB and 1.75 KB are exact binary ties.
    assert_eq!(format_bytes(1280), reference_format_bytes(1280));
    assert_eq!(format_bytes(1792), reference_format_bytes(1792));
    assert_eq!(format_bytes(1280), "1.2 KB");
    assert_eq!(format_bytes(1792), "1.8 KB");
}

#[test]
fn format_bytes_matches_float_formatting() {
    let mut values: Vec<u64> = Vec::new();
    for k in 0..64u32 {
        let p = 1u64 << k;
        for d in [0u64, 1, 2, 3, 5, 7, 51, 102, 103, 511, 512, 513] {
            values.push(p.wrapping_add(d));
            values.push(p.wrapping_sub(d));
            values.push(p.wrapping_mul(3).wrapping_add(d));
            values.push((p / 10).wrapping_mul(7).wrapping_add(d));
        }
    }
    values.push(u64::MAX);
    values.push(u64::MAX - 1024);
    values.push((1u64 << 53) + 1);
    values.push((1u64 << 53) + 3);
    let mut x: u64 = 0x9E37_79B9_7F4A_7C15;
    for _ in 0..20000 {
        x ^= x << 13;
        x ^= x >> 7;
        x ^= x << 17;
        values.push(x >> (x % 64));
    }
    for v in values {
        assert_eq!(format_bytes(v), reference_format_bytes(v), "bytes = {v}");
    }
}

#[test]
fn percent_text_matches_float_formatting() {
    let mut values: Vec<f32> = vec![
        0.0, -0.0, 0.4, 0.5, 0.6, 1.5, 2.5, 3.5, 49.5, 50.5, 99.4, 99.5, 99.6, 100.0, 100.5,
        250.0, -3.0, -0.5, f32::INFINITY, f32::NEG_INFINITY, f32::NAN, f32::MIN_POSITIVE,
        1.0e-40, 12.345, 66.66, 0.49999997, 0.50000006,
    ];
    for i in 0..=2000u32 {
        values.push(i as f32 / 20.0);
        values.push(i as f32 / 19.0);
    }
    let mut x: u32 = 0x1234_5678;
    for _ in 0..20000 {
        x ^= x << 13;
        x ^= x >> 17;
        x ^= x << 5;
        values.push(f32::from_bits(x));
    }
    for v in values {
        let expected = format!("{:.0}", v.clamp(0.0, 100.0));
        assert_eq!(percent_text(v.to_bits()), expected, "value = {v:e}");
    }
}

#[test]
fn clamp_percent_matches_float_clamp() {
    let values: Vec<f32> = vec![
        0.0, -0.0, 42.5, 100.0, 100.01, -1.0, f32::INFINITY, f32::NEG_INFINITY, 1.0e-45, -1.0e-45,
    ];
    for v in values {
        assert_eq!(clamp_percent(v.to_bits()), v.clamp(0.0, 100.0).to_bits(), "value = {v:e}");
    }
    assert!(f32::from_bits(clamp_percent(f32::NAN.to_bits())).is_nan());
}

#[test]
fn decimal_examples() {
    assert_eq!(decimal_string(0), "0");
    assert_eq!(decimal_string(7), "7");
    assert_eq!(decimal_string(10), "10");
    assert_eq!(decimal_string(1234567890), "1234567890");
    assert_eq!(decimal_string(u64::MAX), u64::MAX.to_string());
}

#[test]
fn white_space_matches_std() {
    for v in 0..=0x10FFFFu32 {
        if let Some(c) = char::from_u32(v) {
            assert_eq!(white_space(c), c.is_whitespace(), "U+{v:04X}");
        }
    }
}

#[test]
fn trim_matches_std() {
    for s in ["", "  ", " a ", "\u{3000}x\u{2009}", "\t#abc\n", "a b", "\u{85}q\u{a0}"] {
        let trimmed: String = trim_chars(&chars_of(s)).into_iter().collect();
        assert_eq!(trimmed, s.trim());
    }
}

#[test]
fn to_wide_matches_encode_utf16() {
    for s in ["", "RustGauge", "\"C:\\Program Files\\x.exe\"", "é😀中"] {
        let expected: Vec<u16> = s.encode_utf16().chain(std::iter::once(0)).collect();
        assert_eq!(to_wide(s), expected);
    }
}
