use memory_usage::units::{self, Prefix};

#[test]
fn zero_reads_the_same_in_both_systems() {
    assert_eq!(units::format(0, Prefix::Decimal), units::format(0, Prefix::Binary));
    assert_eq!(units::format(0, Prefix::Decimal), "0.00 B");
}

#[test]
fn thousand_is_one_kilobyte() {
    assert_eq!(units::format(1000, Prefix::Decimal), "1.00 KB");
}

#[test]
fn kibibyte_threshold() {
    assert_eq!(units::format(1024, Prefix::Binary), "1.00 KiB");
    assert_eq!(units::format(1023, Prefix::Binary), "1023.00 B");
}

#[test]
fn below_and_at_each_decimal_threshold() {
    assert_eq!(units::format(999, Prefix::Decimal), "999.00 B");
    assert_eq!(units::format(999_999, Prefix::Decimal), "999.99 KB");
    assert_eq!(units::format(1_000_000, Prefix::Decimal), "1.00 MB");
    assert_eq!(units::format(999_999_999, Prefix::Decimal), "999.99 MB");
    assert_eq!(units::format(1_000_000_000, Prefix::Decimal), "1.00 GB");
    assert_eq!(units::format(1_000_000_000_000, Prefix::Decimal), "1.00 TB");
    assert_eq!(units::format(1_000_000_000_000_000, Prefix::Decimal), "1.00 PB");
    assert_eq!(units::format(999_999_999_999_999_999, Prefix::Decimal), "999.99 PB");
    assert_eq!(units::format(1_000_000_000_000_000_000, Prefix::Decimal), "1.00 EB");
}

#[test]
fn below_and_at_each_binary_threshold() {
    assert_eq!(units::format((1 << 20) - 1, Prefix::Binary), "1023.99 KiB");
    assert_eq!(units::format(1 << 20, Prefix::Binary), "1.00 MiB");
    assert_eq!(units::format((1 << 30) - 1, Prefix::Binary), "1023.99 MiB");
    assert_eq!(units::format(1 << 30, Prefix::Binary), "1.00 GiB");
    assert_eq!(units::format(1 << 40, Prefix::Binary), "1.00 TiB");
    assert_eq!(units::format(1 << 50, Prefix::Binary), "1.00 PiB");
    assert_eq!(units::format((1 << 60) - 1, Prefix::Binary), "1023.99 PiB");
    assert_eq!(units::format(1 << 60, Prefix::Binary), "1.00 EiB");
}

#[test]
fn fractions_are_cut_not_rounded() {
    assert_eq!(units::format(5_242_880, Prefix::Binary), "5.00 MiB");
    assert_eq!(units::format(2_048_000, Prefix::Binary), "1.95 MiB");
    assert_eq!(units::format(1999, Prefix::Decimal), "1.99 KB");
    assert_eq!(units::format(1536, Prefix::Binary), "1.50 KiB");
}

#[test]
fn examples_of_each_scale() {
    assert_eq!(units::format(512, Prefix::Decimal), "512.00 B");
    assert_eq!(units::format(4_300_000, Prefix::Decimal), "4.30 MB");
    assert_eq!(units::format(1_342_177_280, Prefix::Binary), "1.25 GiB");
    assert_eq!(units::format(12_345, Prefix::Decimal), "12.34 KB");
}

#[test]
fn largest_count() {
    assert_eq!(units::format(u64::MAX, Prefix::Decimal), "18.44 EB");
    assert_eq!(units::format(u64::MAX, Prefix::Binary), "15.99 EiB");
}
