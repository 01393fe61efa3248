use modsize::textfmt::age_label;
use modsize::textfmt::format_size;
use modsize::textfmt::u64_to_dec;

#[test]
fn test_format_size() {
    assert_eq!(format_size(500), "500 B");
    assert_eq!(format_size(1024), "1.00 KB");
    assert_eq!(format_size(1500), "1.46 KB");
    assert_eq!(format_size(1024 * 1024), "1.00 MB");
    assert_eq!(format_size(1024 * 1024 * 2 + 1024 * 100), "2.10 MB");
}

#[test]
fn format_size_byte_tier_edges() {
    assert_eq!(format_size(0), "0 B");
    assert_eq!(format_size(1), "1 B");
    assert_eq!(format_size(1023), "1023 B");
}

#[test]
fn format_size_kb_tier_edges() {
    assert_eq!(format_size(1025), "1.00 KB");
    assert_eq!(format_size(1024 + 512), "1.50 KB");
    assert_eq!(format_size(1024 * 1024 - 1), "1024.00 KB");
}

#[test]
fn format_size_mb_rounding() {
    assert_eq!(format_size(1024 * 1024 + 1024 * 512), "1.50 MB");
    assert_eq!(format_size(1024 * 1024 * 3), "3.00 MB");
}

#[test]
fn decimal_rendering() {
    assert_eq!(u64_to_dec(0), "0");
    assert_eq!(u64_to_dec(7), "7");
    assert_eq!(u64_to_dec(10), "10");
    assert_eq!(u64_to_dec(90210), "90210");
    assert_eq!(u64_to_dec(u64::MAX), "18446744073709551615");
}

#[test]
fn age_label_buckets() {
    assert_eq!(age_label(0), "0 seconds ago");
    assert_eq!(age_label(59), "59 seconds ago");
    assert_eq!(age_label(60), "1 minutes ago");
    assert_eq!(age_label(3599), "59 minutes ago");
    assert_eq!(age_label(3600), "1 hours ago");
    assert_eq!(age_label(86399), "23 hours ago");
    assert_eq!(age_label(86400), "1 days ago");
    assert_eq!(age_label(86400 * 30), "30 days ago");
}
