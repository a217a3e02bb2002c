//! Indicator wiring and the WS2812 frame encoding.
//!
//! One SPI byte carries one WS2812 bit. A zero bit is `ZERO`, a one bit is
//! `ONE`, most significant bit first, green before red before blue.

use core::ops::Range;
use vstd::prelude::*;

verus! {

/// Underglow positions. Both revisions carry these.
pub const UNDERGLOW: usize = 16;

/// Chain positions on a board with an addressable indicator.
pub const MAX_LEDS: usize = UNDERGLOW + 1;

/// One SPI byte per WS2812 bit, three color bytes per position.
pub const MAX_BYTES: usize = MAX_LEDS * 3 * 8;

/// SPI byte that clocks out a WS2812 zero bit.
pub const ZERO: u8 = 0b1100_0000;

/// SPI byte that clocks out a WS2812 one bit.
pub const ONE: u8 = 0b1111_1000;

/// SPI clock of the chain: one SPI byte per WS2812 bit puts it at 6 MHz.
pub const WS2812_HZ: u32 = 6_000_000;

/// Low time, in microseconds, that latches a frame.
pub const LATCH_US: u64 = 300;

/// Whether `n` is a power of two.
pub open spec fn is_pow2(n: nat) -> bool
    decreases n,
{
    if n == 0 {
        false
    } else if n == 1 {
        true
    } else {
        n % 2 == 0 && is_pow2(n / 2)
    }
}

fn power_of_two(n: u32) -> (b: bool)
    ensures
        b == is_pow2(n as nat),
{
    if n == 0 {
        return false;
    }
    let mut m = n;
    while m % 2 == 0 && m > 1
        invariant
            m > 0,
            is_pow2(n as nat) == is_pow2(m as nat),
        decreases m,
    {
        m = m / 2;
    }
    m == 1
}

/// Whether an SPI kernel clock of `kernel_hz` reaches the chain's clock
/// exactly. The SPI prescalers are powers of two and round the divider up;
/// a clock tree that does not divide cleanly gives out-of-spec WS2812 timing
/// and reports nothing, so the firmware halts at boot instead.
pub fn spi_clock_exact(kernel_hz: u32) -> (ok: bool)
    ensures
        ok == (kernel_hz % WS2812_HZ == 0 && is_pow2((kernel_hz / WS2812_HZ) as nat)),
{
    kernel_hz % WS2812_HZ == 0 && power_of_two(kernel_hz / WS2812_HZ)
}

/// How the board wires its indicators, read off the B8 strap.
#[derive(Clone, Copy, PartialEq, Eq, Debug, Structural)]
pub enum IndicatorStyle {
    /// B8 floating. Chain position 0 is an addressable indicator.
    Addressable,
    /// B8 tied low. The chain is underglow only.
    Gpio,
}

impl IndicatorStyle {
    /// Number of chain positions clocked out for this style.
    pub open spec fn spec_led_count(self) -> nat {
        match self {
            IndicatorStyle::Addressable => MAX_LEDS as nat,
            IndicatorStyle::Gpio => UNDERGLOW as nat,
        }
    }

    /// Chain position of the caps lock indicator, if the chain carries one.
    pub open spec fn spec_caps_position(self) -> Option<nat> {
        match self {
            IndicatorStyle::Addressable => Some(0),
            IndicatorStyle::Gpio => None,
        }
    }

    /// First underglow position.
    pub open spec fn spec_underglow_start(self) -> nat {
        match self {
            IndicatorStyle::Addressable => 1,
            IndicatorStyle::Gpio => 0,
        }
    }

    /// One past the last underglow position.
    pub open spec fn spec_underglow_end(self) -> nat {
        match self {
            IndicatorStyle::Addressable => MAX_LEDS as nat,
            IndicatorStyle::Gpio => UNDERGLOW as nat,
        }
    }

    /// The strap is read against a pull-up. A board that does not tie it low
    /// reads high.
    pub fn read(strapped_low: bool) -> (style: Self)
        ensures
            style == (if strapped_low { IndicatorStyle::Gpio } else { IndicatorStyle::Addressable }),
    {
        if strapped_low {
            IndicatorStyle::Gpio
        } else {
            IndicatorStyle::Addressable
        }
    }

    /// Chain positions to clock out.
    pub fn led_count(self) -> (n: usize)
        ensures
            n == self.spec_led_count(),
    {
        match self {
            IndicatorStyle::Addressable => MAX_LEDS,
            IndicatorStyle::Gpio => UNDERGLOW,
        }
    }

    /// Chain position of the caps lock indicator.
    pub fn caps_position(self) -> (p: Option<usize>)
        ensures
            match self.spec_caps_position() {
                Some(q) => p == Some(q as usize),
                None => p is None,
            },
    {
        match self {
            IndicatorStyle::Addressable => Some(0),
            IndicatorStyle::Gpio => None,
        }
    }

    /// Underglow positions, after any addressable indicator.
    pub fn underglow(self) -> (r: Range<usize>)
        ensures
            r.start == self.spec_underglow_start(),
            r.end == self.spec_underglow_end(),
    {
        match self {
            IndicatorStyle::Addressable => 1..MAX_LEDS,
            IndicatorStyle::Gpio => 0..UNDERGLOW,
        }
    }
}

/// A color as the chain takes it, one byte per channel.
#[derive(Clone, Copy, PartialEq, Eq, Debug, Structural)]
pub struct Rgb {
    pub r: u8,
    pub g: u8,
    pub b: u8,
}

impl Rgb {
    /// A dark position.
    pub fn off() -> (c: Self)
        ensures
            c == off(),
    {
        Rgb { r: 0, g: 0, b: 0 }
    }

    pub fn new(r: u8, g: u8, b: u8) -> (c: Self)
        ensures
            c == (Rgb { r, g, b }),
    {
        Self { r, g, b }
    }
}


/// The color of a dark position.
pub open spec fn off() -> Rgb {
    Rgb { r: 0, g: 0, b: 0 }
}

/// The `k`-th color byte the chain takes for `c`: green, then red, then blue.
pub open spec fn channel(c: Rgb, k: int) -> u8 {
    if k == 0 {
        c.g
    } else if k == 1 {
        c.r
    } else {
        c.b
    }
}

/// The SPI byte that carries bit `bit` of `value`, counting from the most
/// significant bit.
pub open spec fn bit_pattern(value: u8, bit: int) -> u8 {
    if value & (0x80u8 >> (bit as u8)) != 0u8 {
        ONE
    } else {
        ZERO
    }
}

/// The color shown at chain position `pos`: positions past the end of
/// `colors` go dark.
pub open spec fn color_at(colors: Seq<Rgb>, pos: int) -> Rgb {
    if 0 <= pos < colors.len() {
        colors[pos]
    } else {
        off()
    }
}

/// Byte `i` of the SPI frame for `colors`: 24 bytes per position, 8 per
/// color byte.
pub open spec fn frame_byte(colors: Seq<Rgb>, i: int) -> u8 {
    bit_pattern(channel(color_at(colors, i / 24), (i % 24) / 8), i % 8)
}

/// Index arithmetic of the frame layout.
proof fn lemma_frame_index(pos: int, byte: int, bit: int)
    requires
        0 <= pos,
        0 <= byte < 3,
        0 <= bit < 8,
    ensures
        ({
            let i = (pos * 3 + byte) * 8 + bit;
            &&& i / 24 == pos
            &&& (i % 24) / 8 == byte
            &&& i % 8 == bit
            &&& i == pos * 24 + byte * 8 + bit
        }),
{
    let i = (pos * 3 + byte) * 8 + bit;
    assert(i == pos * 24 + byte * 8 + bit) by (nonlinear_arith)
        requires
            i == (pos * 3 + byte) * 8 + bit,
    ;
    vstd::arithmetic::div_mod::lemma_fundamental_div_mod_converse(i, 24, pos, byte * 8 + bit);
    vstd::arithmetic::div_mod::lemma_fundamental_div_mod_converse(byte * 8 + bit, 8, byte, bit);
    vstd::arithmetic::div_mod::lemma_fundamental_div_mod_converse(i, 8, pos * 3 + byte, bit);
}

/// The WS2812 chain's SPI frame buffer and the wiring it is clocked for.
pub struct Ws2812 {
    buf: Vec<u8>,
    style: IndicatorStyle,
}

impl Ws2812 {
    /// The buffer always holds room for the longest chain.
    pub closed spec fn wf(&self) -> bool {
        self.buf@.len() == MAX_BYTES
    }

    /// The SPI bytes held in the buffer.
    pub closed spec fn bytes(&self) -> Seq<u8> {
        self.buf@
    }

    /// The wiring the buffer is clocked for.
    pub closed spec fn spec_style(&self) -> IndicatorStyle {
        self.style
    }

    /// A buffer of zero bits for the given wiring.
    pub fn new(style: IndicatorStyle) -> (chain: Self)
        ensures
            chain.wf(),
            chain.spec_style() == style,
            forall|i: int| 0 <= i < MAX_BYTES ==> chain.bytes()[i] == ZERO,
    {
        let mut buf: Vec<u8> = Vec::new();
        while buf.len() < MAX_BYTES
            invariant
                buf@.len() <= MAX_BYTES,
                forall|i: int| 0 <= i < buf@.len() ==> buf@[i] == ZERO,
            decreases MAX_BYTES - buf@.len(),
        {
            buf.push(ZERO);
        }
        Self { buf, style }
    }

    pub fn style(&self) -> (style: IndicatorStyle)
        ensures
            style == self.spec_style(),
    {
        self.style
    }

    /// The whole SPI buffer. The first `encode` result bytes of it are the
    /// frame to clock out.
    pub fn buffer(&self) -> (b: &[u8])
        ensures
            b@ == self.bytes(),
    {
        self.buf.as_slice()
    }

    /// Fills the frame for every position the wiring clocks out. Positions
    /// past the end of `colors` go dark. Returns the frame length in bytes.
    pub fn encode(&mut self, colors: &[Rgb]) -> (n: usize)
        requires
            old(self).wf(),
        ensures
            final(self).wf(),
            final(self).spec_style() == old(self).spec_style(),
            n == old(self).spec_style().spec_led_count() * 24,
            forall|i: int| 0 <= i < n ==> final(self).bytes()[i] == frame_byte(colors@, i),
            forall|i: int| n <= i < MAX_BYTES ==> final(self).bytes()[i] == old(self).bytes()[i],
    {
        let count = self.style.led_count();
        let ghost old_bytes = self.buf@;
        let mut pos: usize = 0;
        while pos < count
            invariant
                self.buf@.len() == MAX_BYTES,
                self.style == old(self).style,
                old_bytes == old(self).buf@,
                count == self.style.spec_led_count(),
                count <= MAX_LEDS,
                pos <= count,
                forall|i: int| 0 <= i < pos * 24 ==> self.buf@[i] == frame_byte(colors@, i),
                forall|i: int| pos * 24 <= i < MAX_BYTES ==> self.buf@[i] == old_bytes[i],
            decreases count - pos,
        {
            let color = if pos < colors.len() {
                colors[pos]
            } else {
                Rgb::off()
            };
            assert(color == color_at(colors@, pos as int));
            let mut byte: usize = 0;
            while byte < 3
                invariant
                    self.buf@.len() == MAX_BYTES,
                    self.style == old(self).style,
                    old_bytes == old(self).buf@,
                    pos < count <= MAX_LEDS,
                    byte <= 3,
                    color == color_at(colors@, pos as int),
                    forall|i: int| 0 <= i < pos * 24 + byte * 8 ==> self.buf@[i] == frame_byte(colors@, i),
                    forall|i: int| pos * 24 + byte * 8 <= i < MAX_BYTES ==> self.buf@[i] == old_bytes[i],
                decreases 3 - byte,
            {
                let value = if byte == 0 {
                    color.g
                } else if byte == 1 {
                    color.r
                } else {
                    color.b
                };
                assert(value == channel(color, byte as int));
                let at = (pos * 3 + byte) * 8;
                let mut bit: usize = 0;
                while bit < 8
                    invariant
                        self.buf@.len() == MAX_BYTES,
                        self.style == old(self).style,
                        old_bytes == old(self).buf@,
                        pos < count <= MAX_LEDS,
                        byte < 3,
                        bit <= 8,
                        at == (pos * 3 + byte) * 8,
                        color == color_at(colors@, pos as int),
                        value == channel(color, byte as int),
                        forall|i: int| 0 <= i < pos * 24 + byte * 8 + bit ==> self.buf@[i] == frame_byte(colors@, i),
                        forall|i: int| pos * 24 + byte * 8 + bit <= i < MAX_BYTES ==> self.buf@[i] == old_bytes[i],
                    decreases 8 - bit,
                {
                    proof {
                        lemma_frame_index(pos as int, byte as int, bit as int);
                    }
                    let pattern = if value & (0x80u8 >> (bit as u8)) != 0 {
                        ONE
                    } else {
                        ZERO
                    };
                    self.buf.set(at + bit, pattern);
                    bit = bit + 1;
                }
                byte = byte + 1;
            }
            pos = pos + 1;
        }
        count * 24
    }
}


/// The byte a receiver latches from the eight SPI bytes at `at`: a `ONE`
/// pattern is a set bit, most significant bit first.
pub open spec fn decode_bits(frame: Seq<u8>, at: int) -> u8 {
    (if frame[at] == ONE { 0x80u8 } else { 0u8 })
    | (if frame[at + 1] == ONE { 0x40u8 } else { 0u8 })
    | (if frame[at + 2] == ONE { 0x20u8 } else { 0u8 })
    | (if frame[at + 3] == ONE { 0x10u8 } else { 0u8 })
    | (if frame[at + 4] == ONE { 0x08u8 } else { 0u8 })
    | (if frame[at + 5] == ONE { 0x04u8 } else { 0u8 })
    | (if frame[at + 6] == ONE { 0x02u8 } else { 0u8 })
    | (if frame[at + 7] == ONE { 0x01u8 } else { 0u8 })
}

/// The color a WS2812 at chain position `pos` latches from `frame`.
pub open spec fn decode_color(frame: Seq<u8>, pos: int) -> Rgb {
    Rgb {
        g: decode_bits(frame, pos * 24),
        r: decode_bits(frame, pos * 24 + 8),
        b: decode_bits(frame, pos * 24 + 16),
    }
}

/// A byte is the OR of its bits.
proof fn lemma_byte_from_bits(v: u8)
    ensures
        v == ((if v & 0x80u8 != 0u8 { 0x80u8 } else { 0u8 })
        | (if v & 0x40u8 != 0u8 { 0x40u8 } else { 0u8 })
        | (if v & 0x20u8 != 0u8 { 0x20u8 } else { 0u8 })
        | (if v & 0x10u8 != 0u8 { 0x10u8 } else { 0u8 })
        | (if v & 0x08u8 != 0u8 { 0x08u8 } else { 0u8 })
        | (if v & 0x04u8 != 0u8 { 0x04u8 } else { 0u8 })
        | (if v & 0x02u8 != 0u8 { 0x02u8 } else { 0u8 })
        | (if v & 0x01u8 != 0u8 { 0x01u8 } else { 0u8 })),
{
    assert(v == ((if v & 0x80u8 != 0u8 { 0x80u8 } else { 0u8 })
        | (if v & 0x40u8 != 0u8 { 0x40u8 } else { 0u8 })
        | (if v & 0x20u8 != 0u8 { 0x20u8 } else { 0u8 })
        | (if v & 0x10u8 != 0u8 { 0x10u8 } else { 0u8 })
        | (if v & 0x08u8 != 0u8 { 0x08u8 } else { 0u8 })
        | (if v & 0x04u8 != 0u8 { 0x04u8 } else { 0u8 })
        | (if v & 0x02u8 != 0u8 { 0x02u8 } else { 0u8 })
        | (if v & 0x01u8 != 0u8 { 0x01u8 } else { 0u8 }))) by (bit_vector);
}

/// The masks `0x80 >> bit` for the eight bit positions.
proof fn lemma_bit_masks()
    ensures
        0x80u8 >> 0u8 == 0x80u8,
        0x80u8 >> 1u8 == 0x40u8,
        0x80u8 >> 2u8 == 0x20u8,
        0x80u8 >> 3u8 == 0x10u8,
        0x80u8 >> 4u8 == 0x08u8,
        0x80u8 >> 5u8 == 0x04u8,
        0x80u8 >> 6u8 == 0x02u8,
        0x80u8 >> 7u8 == 0x01u8,
{
    assert(0x80u8 >> 0u8 == 0x80u8) by (bit_vector);
    assert(0x80u8 >> 1u8 == 0x40u8) by (bit_vector);
    assert(0x80u8 >> 2u8 == 0x20u8) by (bit_vector);
    assert(0x80u8 >> 3u8 == 0x10u8) by (bit_vector);
    assert(0x80u8 >> 4u8 == 0x08u8) by (bit_vector);
    assert(0x80u8 >> 5u8 == 0x04u8) by (bit_vector);
    assert(0x80u8 >> 6u8 == 0x02u8) by (bit_vector);
    assert(0x80u8 >> 7u8 == 0x01u8) by (bit_vector);
}

/// Eight SPI bytes encoding `v` decode back to `v`.
proof fn lemma_bits_decode(frame: Seq<u8>, at: int, v: u8)
    requires
        0 <= at,
        at + 8 <= frame.len(),
        forall|k: int| 0 <= k < 8 ==> #[trigger] frame[at + k] == bit_pattern(v, k),
    ensures
        decode_bits(frame, at) == v,
{
    lemma_bit_masks();
    lemma_byte_from_bits(v);
    assert(frame[at + 0] == bit_pattern(v, 0));
    assert(frame[at + 1] == bit_pattern(v, 1));
    assert(frame[at + 2] == bit_pattern(v, 2));
    assert(frame[at + 3] == bit_pattern(v, 3));
    assert(frame[at + 4] == bit_pattern(v, 4));
    assert(frame[at + 5] == bit_pattern(v, 5));
    assert(frame[at + 6] == bit_pattern(v, 6));
    assert(frame[at + 7] == bit_pattern(v, 7));
}

/// Round trip of the chain encoding: wherever a buffer holds the frame for
/// `colors` at position `pos`, the LED there latches `colors[pos]`, or goes
/// dark past the end of `colors`.
pub proof fn lemma_frame_decodes(colors: Seq<Rgb>, frame: Seq<u8>, pos: int)
    requires
        0 <= pos,
        (pos + 1) * 24 <= frame.len(),
        forall|i: int| pos * 24 <= i < (pos + 1) * 24 ==> #[trigger] frame[i] == frame_byte(colors, i),
    ensures
        decode_color(frame, pos) == color_at(colors, pos),
{
    let c = color_at(colors, pos);
    assert forall|byte: int, k: int| 0 <= byte < 3 && 0 <= k < 8 implies #[trigger] frame[pos * 24 + byte * 8 + k]
        == bit_pattern(channel(c, byte), k) by {
        lemma_frame_index(pos, byte, k);
    }
    assert forall|k: int| 0 <= k < 8 implies #[trigger] frame[pos * 24 + k] == bit_pattern(c.g, k) by {
        assert(frame[pos * 24 + 0 * 8 + k] == bit_pattern(channel(c, 0), k));
    }
    assert forall|k: int| 0 <= k < 8 implies #[trigger] frame[(pos * 24 + 8) + k] == bit_pattern(c.r, k) by {
        assert(frame[pos * 24 + 1 * 8 + k] == bit_pattern(channel(c, 1), k));
    }
    assert forall|k: int| 0 <= k < 8 implies #[trigger] frame[(pos * 24 + 16) + k] == bit_pattern(c.b, k) by {
        assert(frame[pos * 24 + 2 * 8 + k] == bit_pattern(channel(c, 2), k));
    }
    lemma_bits_decode(frame, pos * 24, c.g);
    lemma_bits_decode(frame, pos * 24 + 8, c.r);
    lemma_bits_decode(frame, pos * 24 + 16, c.b);
}

/// Every SPI byte of a frame ends in a low bit, so the data line rests low
/// between frames.
pub proof fn lemma_frame_ends_low(colors: Seq<Rgb>, i: int)
    ensures
        frame_byte(colors, i) & 1u8 == 0u8,
        frame_byte(colors, i) == ONE || frame_byte(colors, i) == ZERO,
{
    assert(ONE & 1u8 == 0u8) by (bit_vector);
    assert(ZERO & 1u8 == 0u8) by (bit_vector);
}

/// The color that `ChainIndicator::paint` puts at chain position `pos`.
pub open spec fn paint_color(style: IndicatorStyle, underglow: Rgb, caps: Rgb, caps_lock: bool, pos: int) -> Rgb {
    if caps_lock && style.spec_caps_position() == Some(pos as nat) && 0 <= pos {
        caps
    } else if style.spec_underglow_start() <= pos < style.spec_underglow_end() {
        underglow
    } else {
        off()
    }
}

/// The two wirings: with an addressable indicator the chain has 17
/// positions, caps lock on position 0 and underglow on 1..17; with GPIO
/// indicators it has 16 positions, all underglow, and no caps lock position.
pub proof fn lemma_style_layout()
    ensures
        IndicatorStyle::Addressable.spec_led_count() == 17,
        IndicatorStyle::Addressable.spec_caps_position() == Some(0nat),
        IndicatorStyle::Addressable.spec_underglow_start() == 1,
        IndicatorStyle::Addressable.spec_underglow_end() == 17,
        IndicatorStyle::Gpio.spec_led_count() == 16,
        IndicatorStyle::Gpio.spec_caps_position() is None,
        IndicatorStyle::Gpio.spec_underglow_start() == 0,
        IndicatorStyle::Gpio.spec_underglow_end() == 16,
{
}

/// What a painted position shows, for every wiring and either caps lock
/// state: the caps lock color on the caps lock position while caps lock is
/// on; the underglow color on every underglow position that is not the caps
/// lock position, whether caps lock is on or not; dark everywhere else. Caps
/// lock changes no position but the caps lock position.
pub proof fn lemma_paint_layout(style: IndicatorStyle, underglow: Rgb, caps: Rgb, caps_lock: bool, pos: nat)
    ensures
        caps_lock && style.spec_caps_position() == Some(pos) ==> paint_color(style, underglow, caps, caps_lock, pos as int)
            == caps,
        style.spec_underglow_start() <= pos < style.spec_underglow_end() && style.spec_caps_position() != Some(pos)
            ==> paint_color(style, underglow, caps, caps_lock, pos as int) == underglow,
        !(style.spec_underglow_start() <= pos < style.spec_underglow_end()) && !(caps_lock && style.spec_caps_position()
            == Some(pos)) ==> paint_color(style, underglow, caps, caps_lock, pos as int) == (Rgb { r: 0, g: 0, b: 0 }),
        style.spec_caps_position() != Some(pos) ==> paint_color(style, underglow, caps, true, pos as int) == paint_color(style, underglow, caps, false, pos as int),
{
}

/// The whole frame `ChainIndicator::paint` hands to the chain.
pub open spec fn paint_frame(style: IndicatorStyle, underglow: Rgb, caps: Rgb, caps_lock: bool) -> Seq<Rgb> {
    Seq::new(MAX_LEDS as nat, |pos: int| paint_color(style, underglow, caps, caps_lock, pos))
}

/// Paints the chain from the host's LED report: underglow on every underglow
/// position and the caps lock color on the addressable indicator.
pub struct ChainIndicator {
    chain: Ws2812,
    underglow: Rgb,
    caps: Rgb,
}

impl ChainIndicator {
    pub closed spec fn wf(&self) -> bool {
        self.chain.wf()
    }

    /// The chain's buffer.
    pub closed spec fn spec_chain(&self) -> Ws2812 {
        self.chain
    }

    pub closed spec fn spec_underglow(&self) -> Rgb {
        self.underglow
    }

    pub closed spec fn spec_caps(&self) -> Rgb {
        self.caps
    }

    pub fn new(chain: Ws2812, underglow: Rgb, caps: Rgb) -> (ind: Self)
        ensures
            ind.spec_chain() == chain,
            ind.spec_underglow() == underglow,
            ind.spec_caps() == caps,
            ind.wf() == chain.wf(),
    {
        Self { chain, underglow, caps }
    }

    pub fn chain(&self) -> (chain: &Ws2812)
        ensures
            *chain == self.spec_chain(),
    {
        &self.chain
    }

    /// Builds one frame and encodes it into the chain's buffer. Returns the
    /// number of leading buffer bytes to clock out.
    pub fn paint(&mut self, caps_lock: bool) -> (n: usize)
        requires
            old(self).wf(),
        ensures
            final(self).wf(),
            final(self).spec_underglow() == old(self).spec_underglow(),
            final(self).spec_caps() == old(self).spec_caps(),
            final(self).spec_chain().spec_style() == old(self).spec_chain().spec_style(),
            n == old(self).spec_chain().spec_style().spec_led_count() * 24,
            forall|i: int| 0 <= i < n ==> final(self).spec_chain().bytes()[i] == frame_byte(
                paint_frame(old(self).spec_chain().spec_style(), old(self).spec_underglow(), old(self).spec_caps(), caps_lock),
                i,
            ),
            forall|i: int| n <= i < MAX_BYTES ==> final(self).spec_chain().bytes()[i] == old(self).spec_chain().bytes()[i],
            forall|pos: int|
                0 <= pos < old(self).spec_chain().spec_style().spec_led_count() ==> #[trigger] decode_color(final(self).spec_chain().bytes(), pos) == paint_color(
                    old(self).spec_chain().spec_style(),
                    old(self).spec_underglow(),
                    old(self).spec_caps(),
                    caps_lock,
                    pos,
                ),
    {
        let style = self.chain.style();
        let ghost target = paint_frame(style, self.underglow, self.caps, caps_lock);
        let mut frame: Vec<Rgb> = Vec::new();
        while frame.len() < MAX_LEDS
            invariant
                frame@.len() <= MAX_LEDS,
                forall|i: int| 0 <= i < frame@.len() ==> frame@[i] == off(),
            decreases MAX_LEDS - frame@.len(),
        {
            frame.push(Rgb::off());
        }
        let range = style.underglow();
        let mut pos = range.start;
        while pos < range.end
            invariant
                frame@.len() == MAX_LEDS,
                range.start == style.spec_underglow_start(),
                range.end == style.spec_underglow_end(),
                range.start <= pos <= range.end,
                forall|i: int| 0 <= i < MAX_LEDS ==> frame@[i] == (if range.start <= i < pos {
                    self.underglow
                } else {
                    off()
                }),
            decreases range.end - pos,
        {
            frame.set(pos, self.underglow);
            pos = pos + 1;
        }
        if let Some(p) = style.caps_position() {
            if caps_lock {
                frame.set(p, self.caps);
            }
        }
        assert(frame@ =~= target);
        let n = self.chain.encode(frame.as_slice());
        proof {
            assert forall|pos: int| 0 <= pos < style.spec_led_count() implies #[trigger] decode_color(self.chain.bytes(), pos) == paint_color(style, self.underglow, self.caps, caps_lock, pos) by {
                assert((pos + 1) * 24 <= n) by (nonlinear_arith)
                    requires
                        pos < style.spec_led_count(),
                        n == style.spec_led_count() * 24,
                ;
                assert((pos + 1) * 24 <= MAX_BYTES) by (nonlinear_arith)
                    requires
                        (pos + 1) * 24 <= n,
                        n <= MAX_BYTES,
                ;
                lemma_frame_decodes(target, self.chain.bytes(), pos);
            }
        }
        n
    }
}

} // verus!
