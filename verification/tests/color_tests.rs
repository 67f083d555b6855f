use kmeans_quantize::color::{channel_from_u8, channel_to_u8, Color, CHANNEL_MAX};

#[test]
fn eight_bit_samples_widen_by_257() {
    assert_eq!(channel_from_u8(0), 0);
    assert_eq!(channel_from_u8(1), 257);
    assert_eq!(channel_from_u8(128), 32896);
    assert_eq!(channel_from_u8(255), CHANNEL_MAX);
}

#[test]
fn quantizing_rounds_to_the_nearest_sample() {
    assert_eq!(channel_to_u8(0), 0);
    assert_eq!(channel_to_u8(128), 0);
    assert_eq!(channel_to_u8(129), 1);
    assert_eq!(channel_to_u8(257), 1);
    assert_eq!(channel_to_u8(385), 1);
    assert_eq!(channel_to_u8(386), 2);
    assert_eq!(channel_to_u8(32767), 127);
    assert_eq!(channel_to_u8(32768), 128);
    assert_eq!(channel_to_u8(65406), 254);
    assert_eq!(channel_to_u8(65407), 255);
    assert_eq!(channel_to_u8(65535), 255);
}

#[test]
fn widening_then_quantizing_is_the_identity() {
    for v in 0..=255u8 {
        assert_eq!(channel_to_u8(channel_from_u8(v)), v);
    }
}

#[test]
fn quantizing_moves_a_channel_by_at_most_half_a_step() {
    for c in 0..=65535u16 {
        let back = 257 * channel_to_u8(c) as i32;
        assert!((back - c as i32).abs() <= 128);
    }
}

#[test]
fn pixel_from_and_to_eight_bit_color() {
    let p = Color::from_rgb8(12, 200, 255);
    assert_eq!(p, Color::new(3084, 51400, 65535));
    assert_eq!(p.to_rgb8(), (12, 200, 255));
    assert_eq!(Color::new(128, 129, 65407).to_rgb8(), (0, 1, 255));
}

#[test]
fn pixel_new_keeps_its_channels() {
    let p = Color::new(1, 2, 3);
    assert_eq!((p.r, p.g, p.b), (1, 2, 3));
}
