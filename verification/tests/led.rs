use afterglow::led::{encode_frames, APA102DataFrame, LEDStrip, LedError};

#[test]
fn it_builds_grayscale_frames() {
    let black = APA102DataFrame::led_frame(0x000000);
    assert_eq!(black, APA102DataFrame(0, 0, 0));

    let white = APA102DataFrame::led_frame(0xffffff);
    assert_eq!(white, APA102DataFrame(255, 255, 255));
}

#[test]
fn it_builds_color_frames() {
    let red = APA102DataFrame::led_frame(0xff0000);
    assert_eq!(red, APA102DataFrame(255, 0, 0));

    let green = APA102DataFrame::led_frame(0x00ff00);
    assert_eq!(green, APA102DataFrame(0, 255, 0));

    let blue = APA102DataFrame::led_frame(0x0000ff);
    assert_eq!(blue, APA102DataFrame(0, 0, 255));

    let color = APA102DataFrame::led_frame(0x4b8040);
    assert_eq!(color, APA102DataFrame(75, 128, 64));
}

#[test]
fn it_makes_frames_for_a_single_led_strip() {
    let mut led_strip = LEDStrip::new_with_data([0x4b8040]);
    assert_eq!(led_strip.data(), &[APA102DataFrame(75, 128, 64)]);
    assert_eq!(
        led_strip.get_spi_data(),
        &[
            0x00, 0x00, 0x00, 0x00, // Start frame
            0xff, 0x40, 0x80, 0x4b, // Data frame
            0xff, 0xff, 0xff, 0xff, // End frame
        ]
    );
}

#[test]
fn it_makes_frames_for_an_led_strip() {
    let mut led_strip = LEDStrip::new_with_data([0xff0000, 0x00ff00, 0x0000ff, 0x4b8040]);
    assert_eq!(
        led_strip.data(),
        &[
            APA102DataFrame(255, 0, 0),
            APA102DataFrame(0, 255, 0),
            APA102DataFrame(0, 0, 255),
            APA102DataFrame(75, 128, 64),
        ]
    );
    assert_eq!(
        led_strip.get_spi_data(),
        &[
            0x00, 0x00, 0x00, 0x00, // Start frame
            0xff, 0x00, 0x00, 0xff, // Data frame
            0xff, 0x00, 0xff, 0x00, // Data frame
            0xff, 0xff, 0x00, 0x00, // Data frame
            0xff, 0x40, 0x80, 0x4b, // Data frame
            0xff, 0xff, 0xff, 0xff, // End frame
            0xff, 0xff, 0xff, 0xff, // End frame
        ]
    );
}

#[test]
fn it_gets_rgb_values_of_individual_leds() {
    let led_strip = LEDStrip::new_with_data([0xff0000, 0x00ff00, 0x0000ff, 0x4b8040]);
    assert_eq!(led_strip.get_led(1), Ok((0, 255, 0)));
    assert_eq!(led_strip.get_led(3), Ok((75, 128, 64)));
}

#[test]
fn it_sets_an_led() {
    let mut led_strip = LEDStrip::new_with_data([0xff0000, 0x00ff00, 0x0000ff, 0x4b8040]);
    assert_eq!(
        led_strip.data(),
        &[
            APA102DataFrame(255, 0, 0),
            APA102DataFrame(0, 255, 0),
            APA102DataFrame(0, 0, 255),
            APA102DataFrame(75, 128, 64),
        ]
    );
    assert_eq!(
        led_strip.get_spi_data(),
        &[
            0x00, 0x00, 0x00, 0x00, // Start frame
            0xff, 0x00, 0x00, 0xff, // Data frame
            0xff, 0x00, 0xff, 0x00, // Data frame
            0xff, 0xff, 0x00, 0x00, // Data frame
            0xff, 0x40, 0x80, 0x4b, // Data frame
            0xff, 0xff, 0xff, 0xff, // End frame
            0xff, 0xff, 0xff, 0xff, // End frame
        ]
    );

    assert_eq!(led_strip.set_led(2, 0xf329b2), Ok(()));

    assert_eq!(
        led_strip.data(),
        &[
            APA102DataFrame(255, 0, 0),
            APA102DataFrame(0, 255, 0),
            APA102DataFrame(243, 41, 178),
            APA102DataFrame(75, 128, 64),
        ]
    );
    assert_eq!(
        led_strip.get_spi_data(),
        &[
            0x00, 0x00, 0x00, 0x00, // Start frame
            0xff, 0x00, 0x00, 0xff, // Data frame
            0xff, 0x00, 0xff, 0x00, // Data frame
            0xff, 0xb2, 0x29, 0xf3, // Data frame
            0xff, 0x40, 0x80, 0x4b, // Data frame
            0xff, 0xff, 0xff, 0xff, // End frame
            0xff, 0xff, 0xff, 0xff, // End frame
        ]
    );
}

#[test]
fn start_and_end_frames_are_four_constant_bytes() {
    assert_eq!(APA102DataFrame::start_frame_spi_data(), [0x00; 4]);
    assert_eq!(APA102DataFrame::end_frame_spi_data(), [0xff; 4]);
}

#[test]
fn a_frame_goes_out_as_brightness_blue_green_red() {
    assert_eq!(
        APA102DataFrame(75, 128, 64).get_spi_data(),
        [0xff, 64, 128, 75]
    );
    assert_eq!(APA102DataFrame(1, 2, 3).get_spi_data(), [0xff, 3, 2, 1]);
}

#[test]
fn the_top_byte_of_a_packed_color_is_ignored() {
    assert_eq!(
        APA102DataFrame::led_frame(0xaa4b8040),
        APA102DataFrame(75, 128, 64)
    );
}

#[test]
fn a_new_strip_is_black() {
    let mut led_strip = LEDStrip::<3>::new();
    assert_eq!(led_strip.data(), &[APA102DataFrame(0, 0, 0); 3]);
    assert_eq!(led_strip.get_led(0), Ok((0, 0, 0)));
    assert_eq!(led_strip.get_led(2), Ok((0, 0, 0)));
    assert_eq!(
        led_strip.get_spi_data(),
        &[
            0x00, 0x00, 0x00, 0x00, //
            0xff, 0x00, 0x00, 0x00, //
            0xff, 0x00, 0x00, 0x00, //
            0xff, 0x00, 0x00, 0x00, //
            0xff, 0xff, 0xff, 0xff, //
            0xff, 0xff, 0xff, 0xff, //
        ]
    );
}

#[test]
fn the_number_of_end_frames_is_half_the_leds_rounded_up() {
    let frame = APA102DataFrame(1, 2, 3);
    assert_eq!(encode_frames(&[]).len(), 4);
    assert_eq!(encode_frames(&[frame; 1]).len(), 4 + 4 + 4);
    assert_eq!(encode_frames(&[frame; 2]).len(), 4 + 8 + 4);
    assert_eq!(encode_frames(&[frame; 3]).len(), 4 + 12 + 8);
    assert_eq!(encode_frames(&[frame; 4]).len(), 4 + 16 + 8);
    assert_eq!(encode_frames(&[frame; 5]).len(), 4 + 20 + 12);
    let bytes = encode_frames(&[frame; 36]);
    assert_eq!(bytes.len(), 4 + 144 + 72);
    assert!(bytes[148..].iter().all(|byte| *byte == 0xff));
}

#[test]
fn four_leds_are_followed_by_two_end_frames() {
    let mut led_strip = LEDStrip::new_with_data([0x010203, 0x040506, 0x070809, 0x0a0b0c]);
    let bytes = led_strip.get_spi_data();
    assert_eq!(bytes.len(), 4 + 4 * 4 + 2 * 4);
    assert_eq!(&bytes[20..], &[0xff; 8]);
    assert_eq!(&bytes[16..20], &[0xff, 0x0c, 0x0b, 0x0a]);
}

#[test]
fn encoding_a_slice_matches_the_strip() {
    let mut led_strip = LEDStrip::new_with_data([0xff0000, 0x00ff00, 0x0000ff]);
    let frames = *led_strip.data();
    assert_eq!(&encode_frames(&frames), led_strip.get_spi_data());
}

#[test]
fn serializing_twice_gives_the_same_bytes() {
    let mut led_strip = LEDStrip::new_with_data([0x123456, 0x789abc, 0xdef012]);
    let first = led_strip.get_spi_data().clone();
    let second = led_strip.get_spi_data().clone();
    assert_eq!(first, second);
    assert_eq!(led_strip.get_led(1), Ok((0x78, 0x9a, 0xbc)));
    let third = led_strip.get_spi_data().clone();
    assert_eq!(first, third);
}

#[test]
fn a_new_color_changes_only_the_bytes_of_its_led() {
    let mut led_strip = LEDStrip::new_with_data([0xff0000, 0x00ff00, 0x0000ff, 0x4b8040, 0x101010]);
    let before = led_strip.get_spi_data().clone();
    assert_eq!(led_strip.set_led(3, 0x0a141e), Ok(()));
    let after = led_strip.get_spi_data().clone();
    assert_eq!(before.len(), after.len());
    for index in 0..before.len() {
        if (16..20).contains(&index) {
            continue;
        }
        assert_eq!(before[index], after[index]);
    }
    assert_eq!(&before[16..20], &[0xff, 0x40, 0x80, 0x4b]);
    assert_eq!(&after[16..20], &[0xff, 0x1e, 0x14, 0x0a]);
}

#[test]
fn serialized_bytes_follow_every_change() {
    let mut led_strip = LEDStrip::new_with_data([0x000000, 0x000000]);
    assert_eq!(&led_strip.get_spi_data()[4..12], &[0xff, 0, 0, 0, 0xff, 0, 0, 0]);
    assert_eq!(led_strip.set_led(0, 0x010203), Ok(()));
    assert_eq!(led_strip.set_led(1, 0x040506), Ok(()));
    assert_eq!(&led_strip.get_spi_data()[4..12], &[0xff, 3, 2, 1, 0xff, 6, 5, 4]);
    assert_eq!(led_strip.set_led(0, 0x070809), Ok(()));
    assert_eq!(&led_strip.get_spi_data()[4..12], &[0xff, 9, 8, 7, 0xff, 6, 5, 4]);
    assert_eq!(led_strip.set_led(0, 0x070809), Ok(()));
    assert_eq!(&led_strip.get_spi_data()[4..12], &[0xff, 9, 8, 7, 0xff, 6, 5, 4]);
}

#[test]
fn reading_out_of_bounds_fails() {
    let led_strip = LEDStrip::new_with_data([0xff0000, 0x00ff00, 0x0000ff, 0x4b8040]);
    assert_eq!(led_strip.get_led(4), Err(LedError::OutOfBounds));
    assert_eq!(led_strip.get_led(usize::MAX), Err(LedError::OutOfBounds));
    assert_eq!(led_strip.get_led(3), Ok((75, 128, 64)));
}

#[test]
fn writing_out_of_bounds_fails_and_changes_nothing() {
    let mut led_strip = LEDStrip::new_with_data([0xff0000, 0x00ff00, 0x0000ff, 0x4b8040]);
    let colors = *led_strip.data();
    assert_eq!(led_strip.set_led(4, 0xffffff), Err(LedError::OutOfBounds));
    assert_eq!(led_strip.data(), &colors);

    let bytes = led_strip.get_spi_data().clone();
    assert_eq!(led_strip.set_led(100, 0xffffff), Err(LedError::OutOfBounds));
    assert_eq!(led_strip.data(), &colors);
    assert_eq!(led_strip.get_spi_data(), &bytes);
}
