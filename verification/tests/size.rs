use index_generator::size::{decimal_string, size_fmt};

#[test]
fn small_counts_are_plain_decimal() {
    assert_eq!(size_fmt(0), "0");
    assert_eq!(size_fmt(7), "7");
    assert_eq!(size_fmt(10), "10");
    assert_eq!(size_fmt(123), "123");
    assert_eq!(size_fmt(1023), "1023");
}

#[test]
fn every_small_count_is_its_own_decimal() {
    let mut b: u64 = 0;
    while b < 1024 {
        assert_eq!(size_fmt(b), b.to_string());
        b += 1;
    }
}

#[test]
fn scaled_counts_have_one_decimal_and_a_unit() {
    assert_eq!(size_fmt(1024), "1.0 KiB");
    assert_eq!(size_fmt(1536), "1.5 KiB");
    assert_eq!(size_fmt(2048), "2.0 KiB");
    assert_eq!(size_fmt(1024 * 1024), "1.0 MiB");
    assert_eq!(size_fmt(5 * 1024 * 1024 * 1024), "5.0 GiB");
    assert_eq!(size_fmt(1u64 << 40), "1.0 TiB");
    assert_eq!(size_fmt(1u64 << 50), "1.0 PiB");
    assert_eq!(size_fmt(1u64 << 60), "1.0 EiB");
}

#[test]
fn ties_go_to_the_even_tenth() {
    assert_eq!(size_fmt(1280), "1.2 KiB");
    assert_eq!(size_fmt(1792), "1.8 KiB");
    assert_eq!(size_fmt(1075), "1.0 KiB");
    assert_eq!(size_fmt(1076), "1.1 KiB");
}

#[test]
fn the_unit_follows_the_count_not_the_rounded_number() {
    assert_eq!(size_fmt(1024 * 1024 - 1), "1024.0 KiB");
    assert_eq!(size_fmt((1u64 << 60) - 1), "1024.0 PiB");
}

#[test]
fn the_largest_count_is_sixteen_exbibytes() {
    assert_eq!(size_fmt(u64::MAX), "16.0 EiB");
}

#[test]
fn scaled_text_agrees_with_binary_floating_point() {
    let labels = ["KiB", "MiB", "GiB", "TiB"];
    let mut k = 0;
    while k < labels.len() {
        let unit: u64 = 1u64 << (10 * (k as u32 + 1));
        let mut i: u64 = 0;
        while i < 4000 {
            let b = unit + i * (unit / 4096 * 1023 + 7);
            if b < unit * 1024 {
                let scaled = b as f64 / unit as f64;
                assert_eq!(size_fmt(b), format!("{:.1} {}", scaled, labels[k]));
            }
            i += 1;
        }
        k += 1;
    }
}

#[test]
fn decimal_string_matches_std() {
    assert_eq!(decimal_string(0), "0");
    assert_eq!(decimal_string(9), "9");
    assert_eq!(decimal_string(10), "10");
    assert_eq!(decimal_string(2048), "2048");
    assert_eq!(decimal_string(u64::MAX), u64::MAX.to_string());
}
