use rtk_core::numbers::{format_tokens, human_bytes};

#[test]
fn test_format_tokens_millions() {
    assert_eq!(format_tokens(1_234_567), "1.2M");
    assert_eq!(format_tokens(12_345_678), "12.3M");
}

#[test]
fn test_format_tokens_thousands() {
    assert_eq!(format_tokens(59_234), "59.2K");
    assert_eq!(format_tokens(1_000), "1.0K");
}

#[test]
fn test_format_tokens_small() {
    assert_eq!(format_tokens(694), "694");
    assert_eq!(format_tokens(0), "0");
}

#[test]
fn test_human_bytes_bytes() {
    assert_eq!(human_bytes(0), "0 B");
    assert_eq!(human_bytes(512), "512 B");
    assert_eq!(human_bytes(1023), "1023 B");
}

#[test]
fn test_human_bytes_kb() {
    assert_eq!(human_bytes(1024), "1.0 KB");
    assert_eq!(human_bytes(2048), "2.0 KB");
    assert_eq!(human_bytes(1536), "1.5 KB");
}

#[test]
fn test_human_bytes_mb() {
    assert_eq!(human_bytes(1_048_576), "1.0 MB");
    assert_eq!(human_bytes(5_242_880), "5.0 MB");
}

#[test]
fn test_human_bytes_gb() {
    assert_eq!(human_bytes(1_073_741_824), "1.0 GB");
    assert_eq!(human_bytes(2_147_483_648), "2.0 GB");
}

#[test]
fn test_human_bytes_tb() {
    assert_eq!(human_bytes(1_099_511_627_776), "1.0 TB");
}

fn tokens_by_doubles(n: usize) -> String {
    if n >= 1_000_000 {
        format!("{:.1}M", n as f64 / 1_000_000.0)
    } else if n >= 1_000 {
        format!("{:.1}K", n as f64 / 1_000.0)
    } else {
        format!("{}", n)
    }
}

fn bytes_by_doubles(bytes: u64) -> String {
    let units = [(40, "TB"), (30, "GB"), (20, "MB"), (10, "KB")];
    for (shift, name) in units {
        if bytes >= 1 << shift {
            return format!("{:.1} {}", bytes as f64 / (1u64 << shift) as f64, name);
        }
    }
    format!("{} B", bytes)
}

/// Numbers of every size, with their neighbours.
fn many_numbers() -> Vec<u64> {
    let mut numbers: Vec<u64> = Vec::new();
    let mut state: u64 = 0x9e37_79b9_7f4a_7c15;
    for shift in 0..64 {
        for _ in 0..200 {
            state = state.wrapping_mul(6_364_136_223_846_793_005).wrapping_add(1_442_695_040_888_963_407);
            numbers.push(state >> shift);
        }
        let power = 1u64 << shift;
        for near in [power.wrapping_sub(1), power, power + 1, power + power / 20, power + power / 4] {
            numbers.push(near);
        }
    }
    numbers.push(u64::MAX);
    numbers
}

#[test]
fn tokens_agree_with_double_arithmetic() {
    for n in 0..20_000usize {
        assert_eq!(format_tokens(n), tokens_by_doubles(n), "{}", n);
    }
    for k in 20..40_000usize {
        let n = k * 50;
        assert_eq!(format_tokens(n), tokens_by_doubles(n), "{}", n);
        let n = k * 50_000;
        assert_eq!(format_tokens(n), tokens_by_doubles(n), "{}", n);
    }
    for n in many_numbers() {
        assert_eq!(format_tokens(n as usize), tokens_by_doubles(n as usize), "{}", n);
    }
}

#[test]
fn sizes_agree_with_double_arithmetic() {
    for n in many_numbers() {
        assert_eq!(human_bytes(n), bytes_by_doubles(n), "{}", n);
    }
    for k in 1..20_000u64 {
        let n = 1024 + k * 51;
        assert_eq!(human_bytes(n), bytes_by_doubles(n), "{}", n);
    }
}

#[test]
fn ties_go_to_the_even_tenth_of_the_double() {
    assert_eq!(format_tokens(1_250), "1.2K");
    assert_eq!(format_tokens(1_350), "1.4K");
    assert_eq!(format_tokens(1_450), "1.4K");
    assert_eq!(format_tokens(1_750), "1.8K");
    assert_eq!(human_bytes(1024 + 256), "1.2 KB");
    assert_eq!(human_bytes(1024 + 768), "1.8 KB");
}

#[test]
fn numbers_close_to_the_next_unit_keep_their_own() {
    assert_eq!(format_tokens(999), "999");
    assert_eq!(format_tokens(999_999), "1000.0K");
    assert_eq!(human_bytes(1_048_575), "1024.0 KB");
    assert_eq!(human_bytes(u64::MAX), "16777216.0 TB");
}
