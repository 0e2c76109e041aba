use dockerproxy::format::{format_bytes, format_duration};

/// The size as floating-point numbers give it.
fn by_floats(bytes: u64) -> String {
    let units = ["B", "KiB", "MiB", "GiB", "TiB"];
    let mut value = bytes as f64;
    let mut unit = 0;
    while value >= 1024.0 && unit < units.len() - 1 {
        value /= 1024.0;
        unit += 1;
    }
    if unit == 0 {
        format!("{bytes} {}", units[unit])
    } else {
        format!("{value:.1} {}", units[unit])
    }
}

#[test]
fn sizes_have_one_decimal() {
    assert_eq!(format_bytes(0), "0 B");
    assert_eq!(format_bytes(1023), "1023 B");
    assert_eq!(format_bytes(1024), "1.0 KiB");
    assert_eq!(format_bytes(1536), "1.5 KiB");
    assert_eq!(format_bytes(1048575), "1024.0 KiB");
    assert_eq!(format_bytes(1048576), "1.0 MiB");
    assert_eq!(format_bytes(5 << 30), "5.0 GiB");
    assert_eq!(format_bytes(3 << 40), "3.0 TiB");
    assert_eq!(format_bytes(u64::MAX), "16777216.0 TiB");
}

#[test]
fn sizes_agree_with_floating_point_numbers() {
    for bytes in 0..200_000u64 {
        assert_eq!(format_bytes(bytes), by_floats(bytes), "{bytes}");
    }
    for shift in 0..64 {
        for delta in 0..2000u64 {
            let base = 1u64 << shift;
            for bytes in [base.saturating_add(delta), base.saturating_sub(delta)] {
                assert_eq!(format_bytes(bytes), by_floats(bytes), "{bytes}");
            }
        }
    }
    let mut bytes: u64 = 88172645463325252;
    for _ in 0..100_000 {
        bytes ^= bytes << 13;
        bytes ^= bytes >> 7;
        bytes ^= bytes << 17;
        assert_eq!(format_bytes(bytes), by_floats(bytes), "{bytes}");
        assert_eq!(format_bytes(bytes >> 20), by_floats(bytes >> 20), "{}", bytes >> 20);
    }
}

#[test]
fn halves_of_a_tenth_go_to_the_even_side() {
    for twentieths in 0..4000u64 {
        for unit in [1024u64, 1 << 20, 1 << 30, 1 << 40] {
            let bytes = unit + unit / 20 * twentieths;
            assert_eq!(format_bytes(bytes), by_floats(bytes), "{bytes}");
        }
    }
    assert_eq!(format_bytes(1024 + 256), "1.2 KiB");
    assert_eq!(format_bytes(1024 + 768), "1.8 KiB");
}

#[test]
fn durations_show_their_two_largest_parts() {
    assert_eq!(format_duration(0), "0s");
    assert_eq!(format_duration(59), "59s");
    assert_eq!(format_duration(60), "1m");
    assert_eq!(format_duration(3599), "59m");
    assert_eq!(format_duration(3600), "1h 0m");
    assert_eq!(format_duration(86_399), "23h 59m");
    assert_eq!(format_duration(86_400), "1d 0h");
    assert_eq!(format_duration(31_557_600), "365d 6h");
    assert_eq!(format_duration(u64::MAX), "213503982334601d 7h");
}
