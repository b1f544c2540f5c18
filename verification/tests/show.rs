use sanae::show::{date, human};
use sanae::text::truncate;

#[test]
fn sizes_in_binary_units() {
    assert_eq!(human(0), "0 B");
    assert_eq!(human(1023), "1023 B");
    assert_eq!(human(1024), "1.0 KiB");
    assert_eq!(human(1536), "1.5 KiB");
    assert_eq!(human(262_144_000), "250.0 MiB");
    assert_eq!(human(73_400_320), "70.0 MiB");
    assert_eq!(human(1_048_575), "1024.0 KiB");
    assert_eq!(human(5 * 1024 * 1024 * 1024), "5.0 GiB");
    assert_eq!(human(3 * 1024u64.pow(4) / 2), "1.5 TiB");
    assert_eq!(human(u64::MAX), "16777216.0 TiB");
}

#[test]
fn halves_round_to_even() {
    // 1.25 KiB and 1.75 KiB are exact: ties go to the even digit.
    assert_eq!(human(1280), "1.2 KiB");
    assert_eq!(human(1792), "1.8 KiB");
    for b in [1000u64, 1100, 2047, 123_456_789, 9_999_999_999, 1 << 53, (1 << 53) + 1, u64::MAX - 5] {
        let mut v = b as f64;
        let mut u = 0;
        while v >= 1024.0 && u < 4 {
            v /= 1024.0;
            u += 1;
        }
        let units = ["B", "KiB", "MiB", "GiB", "TiB"];
        let expected = if u == 0 { format!("{b} B") } else { format!("{v:.1} {}", units[u]) };
        assert_eq!(human(b), expected, "{b}");
    }
}

#[test]
fn dates_are_days_or_the_number() {
    assert_eq!(date(1_757_500_000), "2025-09-10");
    assert_eq!(date(0), "1970-01-01");
    assert_eq!(date(i64::MAX), i64::MAX.to_string());
}

#[test]
fn long_text_is_cut_with_an_ellipsis() {
    assert_eq!(truncate("abcdef", 4), "abc…");
    assert_eq!(truncate("abc", 3), "abc");
    assert_eq!(truncate("abc", 0), "…");
}

#[test]
fn large_sizes_use_the_larger_units() {
    assert_eq!(sanae::show::human(3 * 1024 * 1024 * 1024 + 200 * 1024 * 1024), "3.2 GiB");
    assert_eq!(sanae::show::human(1024u64.pow(4)), "1.0 TiB");
    assert_eq!(sanae::show::human(5 * 1024u64.pow(5)), "5120.0 TiB");
}
