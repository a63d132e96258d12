use xscreen::size::{format_bytes, format_bytes_short};

const MIB: f64 = 1024.0 * 1024.0;
const GIB: f64 = MIB * 1024.0;

fn expected(bytes: u64) -> String {
    if bytes as f64 >= GIB {
        format!("{:.2} GiB", bytes as f64 / GIB)
    } else {
        format!("{:.2} MiB", bytes as f64 / MIB)
    }
}

fn expected_short(bytes: u64) -> String {
    if bytes as f64 >= GIB {
        format!("{:.2} GiB", bytes as f64 / GIB)
    } else {
        format!("{:.1} MiB", bytes as f64 / MIB)
    }
}

fn check(bytes: u64) {
    assert_eq!(format_bytes(bytes), expected(bytes), "{bytes}");
    assert_eq!(format_bytes_short(bytes), expected_short(bytes), "{bytes}");
}

#[test]
fn sizes_are_written_as_rounded_floats() {
    assert_eq!(format_bytes(0), "0.00 MiB");
    assert_eq!(format_bytes(1 << 20), "1.00 MiB");
    assert_eq!(format_bytes(3 << 29), "1.50 GiB");
    assert_eq!(format_bytes_short(3 << 19), "1.5 MiB");
    assert_eq!(format_bytes_short((1 << 30) - 1), "1024.0 MiB");
    for power in 0..64 {
        let n = 1u64 << power;
        for bytes in [n - 1, n, n + 1, n | (n >> 1), n | (n >> 2), n | (n >> 3)] {
            check(bytes);
        }
    }
    check(u64::MAX);
    check(u64::MAX - 1023);
    check(u64::MAX - 1024);
    check(u64::MAX - 1025);
}

#[test]
fn halves_are_rounded_to_even() {
    assert_eq!(format_bytes(1 << 17), "0.12 MiB");
    assert_eq!(format_bytes(3 << 17), "0.38 MiB");
    assert_eq!(format_bytes_short(1 << 18), "0.2 MiB");
    for k in 0..4_000u64 {
        check(k << 17);
        check(k << 18);
        check(k << 27);
    }
}

#[test]
fn many_sizes_agree_with_floats() {
    let mut bytes: u64 = 1;
    for _ in 0..20_000 {
        bytes = bytes.wrapping_mul(6_364_136_223_846_793_005).wrapping_add(1_442_695_040_888_963_407);
        check(bytes);
        check(bytes >> 20);
        check(bytes >> 35);
    }
}
