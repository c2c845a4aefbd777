use colophon::analyze::{color_distance, hamming};

#[test]
fn hamming_counts_the_bits_apart() {
    assert_eq!(hamming(0, 0), 0);
    assert_eq!(hamming(0, u64::MAX), 64);
    assert_eq!(hamming(0b1011, 0b0001), 2);
}

#[test]
fn color_distance_is_the_mean_channel_gap() {
    let a = [10u8; 12];
    let mut b = [10u8; 12];
    assert_eq!(color_distance(&a, &b), 0);
    b[0] = 34;
    b[5] = 0;
    assert_eq!(color_distance(&a, &b), (24 + 10) / 12);
    assert_eq!(color_distance(&[0u8; 12], &[255u8; 12]), 255);
}
