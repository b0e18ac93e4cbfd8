# wspr_tx

Transmits WSPR (Weak Signal Propagation Reporter) beacons, and images on a
waterfall display, from the GPCLK0 clock of a Raspberry Pi 4, with the
encoding and the register arithmetic proved correct.

- `src/` — the verified library, which states and proves the WSPR encoding
  (message packing, coding, interleaving, synchronisation) and the register
  arithmetic:
  - `callsign`, `locator`, `message`: the message fields and their packing
    into the 50 source bits (callsign code at bit 60, locator and power at
    bit 38);
  - `convolution`, `interleave`, `symbols`: the message bits taken most
    significant first with 31 zero bits after them, the rate 1/2, K = 32
    convolutional code, the bit-reversal interleaver and the merge with the
    synchronisation vector into 162 four-level symbols;
  - `bitarray`: the `bitvec` bit array that carries the channel bits;
  - `clock`: GPIO function-select and GPCLK0 register values;
  - `image`: the image data file and the order in which it is played.
- `app/` — the program: memory-mapped register access, sleeps, floating
  point frequency divisors and file reading.
- `tests/` — tests of the library.
