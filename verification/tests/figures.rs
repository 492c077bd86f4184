use siemctl::figures::{fmt_n, human_bytes};

#[test]
fn sub_tb_values_unchanged() {
    assert_eq!(human_bytes(0), "0 B");
    assert_eq!(human_bytes(512), "512 B");
    assert_eq!(human_bytes(2048), "2.0 KB");
    assert_eq!(human_bytes(5 * 1024 * 1024), "5.0 MB");
    assert_eq!(human_bytes(3 * 1024 * 1024 * 1024), "3.0 GB");
    assert_eq!(human_bytes(7 * 1024_u64.pow(4)), "7.0 TB");
}

#[test]
fn petabyte_and_exabyte_scale_rolls_over_past_tb() {
    assert_eq!(human_bytes(2048 * 1024_u64.pow(4)), "2.0 PB");
    assert_eq!(human_bytes(3 * 1024_u64.pow(6)), "3.0 EB");
}

/// The same figure by floating-point arithmetic.
fn by_division(n: u64) -> String {
    let units = ["B", "KB", "MB", "GB", "TB", "PB", "EB"];
    let mut size = n as f64;
    let mut unit = 0;
    while size >= 1024.0 && unit < 6 {
        size /= 1024.0;
        unit += 1;
    }
    if unit == 0 { format!("{n} B") } else { format!("{size:.1} {}", units[unit]) }
}

#[test]
fn figures_are_rounded_to_a_tenth() {
    for n in [1023, 1024, 1075, 1076, 1126, 1127, 1280, 1536, 2099, 2100, 10_188, 10_240, 1_048_064] {
        assert_eq!(human_bytes(n), by_division(n), "{n}");
    }
    for n in [1_048_575, 1_048_576, 1_073_741_823, 123_456_789_012, u64::MAX, u64::MAX - 1, 1 << 60] {
        assert_eq!(human_bytes(n), by_division(n), "{n}");
    }
    let mut n: u64 = 1;
    for _ in 0..4000 {
        n = n.wrapping_mul(6364136223846793005).wrapping_add(1442695040888963407);
        for shift in [0, 20, 40, 50] {
            assert_eq!(human_bytes(n >> shift), by_division(n >> shift), "{n} {shift}");
        }
    }
}

#[test]
fn thousands_are_set_apart() {
    assert_eq!(fmt_n(0), "0");
    assert_eq!(fmt_n(999), "999");
    assert_eq!(fmt_n(1000), "1,000");
    assert_eq!(fmt_n(1234567), "1,234,567");
    assert_eq!(fmt_n(u64::MAX), "18,446,744,073,709,551,615");
}
