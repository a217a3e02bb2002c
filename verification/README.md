# agar_keys

The logic of a keyboard firmware for the YDKB Agar (a 65% board on an
STM32F103CB whose keys sit on a shift-register chain) and of the tool that
packages its binary as UF2, written in Verus and proved against its contracts.

- `src/leds.rs`: indicator wiring read off the B8 strap, the WS2812 frame
  encoding (one SPI byte per LED bit) and the frame the caps lock / underglow
  painter builds; the frame is proved to decode back to the colors.
- `src/debounce.rs`: the quiet-release debouncer; press and release rules are
  stated as laws over a per-position record.
- `src/matrix.rs`: the scan of the chain: which (row, col) a sample belongs
  to, the double read, the pass interval, and the key events a debouncer's
  results commit; events for a key are proved to alternate.
- `src/keymap.rs`: the two-layer keymap in chain order and the tap-hold
  settings, with layer 1 proved to be the documented overlay of layer 0.
- `src/instrument.rs`: per-position transition and dropout counters.
- `src/uf2.rs`: binary to UF2 image; the layout, header fields and payload
  round trip are proved.
- `src/args.rs`: the packaging tool's command line; numbers are proved to
  read back from their decimal and hexadecimal renderings.
- `src/clock.rs`: the one read of the system clock.

`app/` holds the rest: the UF2 tool's `main` (file I/O), and under
`app/agar/` the board glue (GPIO, SPI, USB, timers, the conversion of the keymap
to RMK's types and the bootloader request word).
