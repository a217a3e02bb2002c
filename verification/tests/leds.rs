use agar_keys::leds::{
    spi_clock_exact, ChainIndicator, IndicatorStyle, Rgb, Ws2812, MAX_BYTES, MAX_LEDS, ONE, UNDERGLOW, WS2812_HZ, ZERO,
};

fn decode_byte(bytes: &[u8]) -> u8 {
    let mut v = 0u8;
    for (k, b) in bytes.iter().enumerate() {
        if *b == ONE {
            v |= 0x80 >> k;
        }
    }
    v
}

fn decode(frame: &[u8], pos: usize) -> Rgb {
    let at = pos * 24;
    Rgb {
        g: decode_byte(&frame[at..at + 8]),
        r: decode_byte(&frame[at + 8..at + 16]),
        b: decode_byte(&frame[at + 16..at + 24]),
    }
}

#[test]
fn strap_reads_style() {
    assert_eq!(IndicatorStyle::read(true), IndicatorStyle::Gpio);
    assert_eq!(IndicatorStyle::read(false), IndicatorStyle::Addressable);
}

#[test]
fn style_layout() {
    assert_eq!(IndicatorStyle::Addressable.led_count(), 17);
    assert_eq!(IndicatorStyle::Gpio.led_count(), 16);
    assert_eq!(MAX_LEDS, UNDERGLOW + 1);
    assert_eq!(MAX_BYTES, 408);
    assert_eq!(IndicatorStyle::Addressable.caps_position(), Some(0));
    assert_eq!(IndicatorStyle::Gpio.caps_position(), None);
    assert_eq!(IndicatorStyle::Addressable.underglow(), 1..17);
    assert_eq!(IndicatorStyle::Gpio.underglow(), 0..16);
}

#[test]
fn rgb_new_keeps_channels() {
    assert_eq!(Rgb::new(1, 2, 3), Rgb { r: 1, g: 2, b: 3 });
}

#[test]
fn new_buffer_is_zero_bits() {
    let chain = Ws2812::new(IndicatorStyle::Gpio);
    assert_eq!(chain.style(), IndicatorStyle::Gpio);
    assert_eq!(chain.buffer().len(), MAX_BYTES);
    assert!(chain.buffer().iter().all(|b| *b == ZERO));
}

#[test]
fn encode_is_green_first_msb_first() {
    let mut chain = Ws2812::new(IndicatorStyle::Addressable);
    let n = chain.encode(&[Rgb::new(0x80, 0x01, 0xFF)]);
    assert_eq!(n, 17 * 24);
    let f = chain.buffer();
    // green 0x01
    assert_eq!(&f[0..8], &[ZERO, ZERO, ZERO, ZERO, ZERO, ZERO, ZERO, ONE]);
    // red 0x80
    assert_eq!(&f[8..16], &[ONE, ZERO, ZERO, ZERO, ZERO, ZERO, ZERO, ZERO]);
    // blue 0xFF
    assert_eq!(&f[16..24], &[ONE; 8]);
    // positions past the colors go dark
    assert!(f[24..n].iter().all(|b| *b == ZERO));
}

#[test]
fn encode_gpio_clocks_sixteen_positions() {
    let mut chain = Ws2812::new(IndicatorStyle::Gpio);
    let colors = [Rgb::new(9, 9, 9); 20];
    let n = chain.encode(&colors);
    assert_eq!(n, 16 * 24);
    assert!(chain.buffer()[n..].iter().all(|b| *b == ZERO));
    assert_eq!(decode(chain.buffer(), 15), Rgb::new(9, 9, 9));
}

#[test]
fn frame_decodes_to_colors() {
    let colors: Vec<Rgb> = (0..17u8)
        .map(|i| Rgb::new(i.wrapping_mul(37), i ^ 0xA5, 255 - i))
        .collect();
    let mut chain = Ws2812::new(IndicatorStyle::Addressable);
    let n = chain.encode(&colors);
    for pos in 0..17 {
        assert_eq!(decode(&chain.buffer()[..n], pos), colors[pos]);
    }
}

#[test]
fn frame_bytes_end_low() {
    let mut chain = Ws2812::new(IndicatorStyle::Addressable);
    let n = chain.encode(&[Rgb::new(0xFF, 0x55, 0xAA), Rgb::new(1, 2, 3)]);
    assert!(chain.buffer()[..n].iter().all(|b| (*b == ONE || *b == ZERO) && b & 1 == 0));
}

#[test]
fn paint_addressable_caps_on() {
    let under = Rgb::new(8, 8, 8);
    let caps = Rgb::new(64, 64, 64);
    let mut ind = ChainIndicator::new(Ws2812::new(IndicatorStyle::Addressable), under, caps);
    let n = ind.paint(true);
    assert_eq!(n, 408);
    let f = ind.chain().buffer();
    assert_eq!(decode(f, 0), caps);
    for pos in 1..17 {
        assert_eq!(decode(f, pos), under);
    }
}

#[test]
fn paint_addressable_caps_off() {
    let under = Rgb::new(8, 8, 8);
    let caps = Rgb::new(64, 64, 64);
    let mut ind = ChainIndicator::new(Ws2812::new(IndicatorStyle::Addressable), under, caps);
    ind.paint(true);
    let n = ind.paint(false);
    assert_eq!(n, 408);
    let f = ind.chain().buffer();
    assert_eq!(decode(f, 0), Rgb::new(0, 0, 0));
    assert_eq!(decode(f, 16), under);
}

#[test]
fn paint_gpio_has_no_chain_caps() {
    let under = Rgb::new(1, 2, 3);
    let caps = Rgb::new(64, 64, 64);
    let mut ind = ChainIndicator::new(Ws2812::new(IndicatorStyle::Gpio), under, caps);
    let n = ind.paint(true);
    assert_eq!(n, 384);
    let f = ind.chain().buffer();
    for pos in 0..16 {
        assert_eq!(decode(f, pos), under);
    }
}

#[test]
fn off_is_dark() {
    assert_eq!(Rgb::off(), Rgb::new(0, 0, 0));
}

#[test]
fn spi_clock_must_divide_cleanly() {
    assert_eq!(WS2812_HZ, 6_000_000);
    assert!(spi_clock_exact(24_000_000));
    assert!(spi_clock_exact(6_000_000));
    assert!(spi_clock_exact(48_000_000));
    assert!(!spi_clock_exact(18_000_000));
    assert!(!spi_clock_exact(36_000_000));
    assert!(!spi_clock_exact(25_000_000));
    assert!(!spi_clock_exact(0));
}
