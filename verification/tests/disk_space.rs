use catacomb::desktop::format_size;
use catacomb::disk_space::{available_bytes, fmt_bytes, has_room, refusal_reason, FREE_SPACE_FLOOR_BYTES};

fn reference(bytes: u64) -> String {
    if bytes >= 1_073_741_824 {
        format!("{:.1} GB", bytes as f64 / 1_073_741_824.0)
    } else if bytes >= 1_048_576 {
        format!("{} MB", bytes / 1_048_576)
    } else if bytes >= 1024 {
        format!("{} KB", bytes / 1024)
    } else {
        format!("{bytes} B")
    }
}

#[test]
fn fmt_bytes_examples() {
    assert_eq!(fmt_bytes(0), "0 B");
    assert_eq!(fmt_bytes(1023), "1023 B");
    assert_eq!(fmt_bytes(15 * 1024), "15 KB");
    assert_eq!(fmt_bytes(250 * 1_048_576), "250 MB");
    assert_eq!(fmt_bytes(FREE_SPACE_FLOOR_BYTES), "500 MB");
    assert_eq!(fmt_bytes(3 * 1_073_741_824), "3.0 GB");
    assert_eq!(fmt_bytes(3_435_973_837), "3.2 GB");
}

#[test]
fn fmt_bytes_matches_float_formatting() {
    let mut samples: Vec<u64> = vec![
        1_073_741_824,
        5 * (1 << 28),  // 1.25 GiB: a tie at one decimal
        7 * (1 << 28),  // 1.75 GiB
        15 * (1 << 28), // 3.75 GiB
        (1 << 53) - 1,
        1 << 53,
        (1 << 53) + 1,
        (1 << 54) + 3,
        u64::MAX,
        u64::MAX - 1024,
        u64::MAX / 3,
    ];
    let mut x: u64 = 0x9E37_79B9_7F4A_7C15;
    for _ in 0..20000 {
        x ^= x << 13;
        x ^= x >> 7;
        x ^= x << 17;
        samples.push(x);
        samples.push(x >> 20);
        samples.push(x >> 30);
        samples.push((x >> 34) * (1 << 26)); // near one-decimal ties
    }
    for b in samples {
        assert_eq!(fmt_bytes(b), reference(b), "bytes = {b}");
    }
}

#[test]
fn statvfs_result_and_preflight() {
    assert_eq!(available_bytes(-1, 4096, 10), None);
    assert_eq!(available_bytes(0, 4096, 10), Some(40960));
    assert_eq!(available_bytes(0, u64::MAX, 2), Some(u64::MAX));
    assert!(has_room(None));
    assert!(has_room(Some(FREE_SPACE_FLOOR_BYTES)));
    assert!(!has_room(Some(FREE_SPACE_FLOOR_BYTES - 1)));
    assert_eq!(refusal_reason(Some(FREE_SPACE_FLOOR_BYTES), "/x"), None);
    assert_eq!(
        refusal_reason(Some(1_048_576), "/media/channels").as_deref(),
        Some("only 1 MB free on /media/channels (need at least 500 MB)")
    );
}

#[test]
fn format_size_matches_float_formatting() {
    let reference = |bytes: u64| -> String {
        if bytes >= 1_073_741_824 {
            format!("{:.1} GB", bytes as f64 / 1_073_741_824.0)
        } else if bytes >= 1_048_576 {
            format!("{:.0} MB", bytes as f64 / 1_048_576.0)
        } else {
            format!("{:.0} KB", bytes as f64 / 1_024.0)
        }
    };
    assert_eq!(format_size(512), "0 KB");
    assert_eq!(format_size(1536), "2 KB");
    assert_eq!(format_size(2560), "2 KB");
    assert_eq!(format_size(734_003_200), "700 MB");
    let mut x: u64 = 0x1234_5678_9ABC_DEF1;
    let mut samples: Vec<u64> = vec![0, 1, 511, 512, 513, 1023, 1024, 1_048_575, 1_048_576, u64::MAX];
    for _ in 0..20000 {
        x ^= x << 13;
        x ^= x >> 7;
        x ^= x << 17;
        samples.push(x >> 40);
        samples.push(x >> 25);
        samples.push((x >> 50) * 512);
        samples.push(x);
    }
    for b in samples {
        assert_eq!(format_size(b), reference(b), "bytes = {b}");
    }
}
