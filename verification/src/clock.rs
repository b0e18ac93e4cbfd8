//! Register values for the BCM2711 GPIO function-select registers and the
//! general-purpose clock GPCLK0, and the clock settings the transmitter
//! steps through.
use vstd::prelude::*;

verus! {

/// Size of each memory-mapped register block.
pub const BLOCK_SIZE: usize = 4 * 1024;

/// Bus base address of the BCM2711 peripherals.
pub const BCM2711_PERI_BASE: u64 = 0xFE000000;

/// Base of the GPIO registers.
pub const GPIO_BASE: u64 = BCM2711_PERI_BASE + 0x200000;

/// Base of the general-purpose clock registers.
pub const GPCLK_BASE: u64 = BCM2711_PERI_BASE + 0x101000;

/// Password that must stand in the top byte of every clock register write.
pub const CLK_PSW: u32 = 0x5A000000;

/// Offset, in 32-bit words, of the GPCLK0 control register in its block
/// (byte offset 0x70).
pub const CLK_OFFSET: isize = 0x1c;

/// Control register value selecting PLLD (750 MHz) as source (6) with MASH
/// 1 (bit 9), with the password: `CLK_PSW | 6 | 1 << 9`.
pub const CLK_SRC_PLLD_MASH1: u32 = 0x5A000206;

/// The busy flag (bit 7) of the clock control register.
pub const CLK_BUSY: u32 = 0x80;

/// The enable flag (bit 4) of the clock control register.
pub const CLK_ENAB: u32 = 0x10;

/// The first bit of pin `g`'s 3-bit field in its function-select register.
pub open spec fn fsel_shift(g: isize) -> u32 {
    ((g % 10) * 3) as u32
}

/// The function-select register (counted in 32-bit words) that holds pin
/// `g`: ten pins per register.
pub fn gpio_register_index(g: isize) -> (r: isize)
    requires
        g >= 0,
    ensures
        r == g / 10,
{
    g / 10
}

/// The function-select register with pin `g`'s field set to 000 (input),
/// the other pins unchanged.
pub fn gpio_out_clear(reg: u32, g: isize) -> (r: u32)
    requires
        g >= 0,
    ensures
        r == reg & !(7u32 << fsel_shift(g)),
{
    let shift = ((g % 10) * 3) as u32;
    reg & !(7u32 << shift)
}

/// The function-select register with the top bit of pin `g`'s field set,
/// which turns a cleared field (000) into 100, alternate function 0.
pub fn gpio_alt0(reg: u32, g: isize) -> (r: u32)
    requires
        g >= 0,
    ensures
        r == reg | (1u32 << ((fsel_shift(g) + 2) as u32)),
{
    let shift = ((g % 10) * 3 + 2) as u32;
    reg | (1u32 << shift)
}

/// Clearing pin `g`'s field and then setting alternate function 0 leaves
/// the field at 100 and every other bit of the register as it was.
pub proof fn lemma_alt0_after_clear(reg: u32, g: isize)
    requires
        g >= 0,
    ensures
        ({
            let r = reg & !(7u32 << fsel_shift(g)) | (1u32 << ((fsel_shift(g) + 2) as u32));
            &&& (r >> fsel_shift(g)) & 7u32 == 4u32
            &&& r & !(7u32 << fsel_shift(g)) == reg & !(7u32 << fsel_shift(g))
        }),
{
    let s = fsel_shift(g);
    assert(s <= 27);
    assert(((reg & !(7u32 << s) | (1u32 << ((s + 2) as u32))) >> s) & 7u32 == 4u32) by (bit_vector)
        requires
            s <= 27,
    ;
    assert((reg & !(7u32 << s) | (1u32 << ((s + 2) as u32))) & !(7u32 << s) == reg & !(7u32 << s))
        by (bit_vector)
        requires
            s <= 27,
    ;
}

/// Whether the clock control register reports the clock as busy.
pub fn clk_busy(ctl: u32) -> (r: bool)
    ensures
        r == (ctl & CLK_BUSY == CLK_BUSY),
{
    (ctl & CLK_BUSY) == CLK_BUSY
}

/// The control register value that enables the clock: the password and the
/// enable flag added to the current value.
pub fn clk_enab(ctl: u32) -> (r: u32)
    ensures
        r == ctl | CLK_PSW | CLK_ENAB,
        r & CLK_ENAB == CLK_ENAB,
{
    let r = ctl | CLK_PSW | CLK_ENAB;
    assert((ctl | 0x5A000000u32 | 0x10u32) & 0x10u32 == 0x10u32) by (bit_vector);
    r
}

/// The control register value that disables the clock: the enable flag
/// cleared, the password added.
pub fn clk_disab(ctl: u32) -> (r: u32)
    ensures
        r == (ctl & !CLK_ENAB) | CLK_PSW,
        r & CLK_ENAB == 0,
        r & 0xffffffu32 & !CLK_ENAB == ctl & 0xffffffu32 & !CLK_ENAB,
{
    let r = (ctl & !CLK_ENAB) | CLK_PSW;
    assert(((ctl & !0x10u32) | 0x5A000000u32) & 0x10u32 == 0) by (bit_vector);
    assert(((ctl & !0x10u32) | 0x5A000000u32) & 0xffffffu32 & !0x10u32 == ctl & 0xffffffu32
        & !0x10u32) by (bit_vector);
    r
}

/// The divisor register value for integer part `div_i` and fractional part
/// `div_f` (in 1/1024ths): the password, `div_i` from bit 12, `div_f` below.
pub fn clk_div(div_i: u32, div_f: u32) -> (r: u32)
    ensures
        r == CLK_PSW | (div_i << 12u32) | div_f,
        div_i < 4096 && div_f < 4096 ==> {
            &&& r >> 24u32 == 0x5Au32
            &&& (r >> 12u32) & 0xfffu32 == div_i
            &&& r & 0xfffu32 == div_f
        },
{
    let r = CLK_PSW | (div_i << 12) | div_f;
    assert(div_i < 4096 && div_f < 4096 ==> {
        &&& (0x5A000000u32 | (div_i << 12u32) | div_f) >> 24u32 == 0x5Au32
        &&& ((0x5A000000u32 | (div_i << 12u32) | div_f) >> 12u32) & 0xfffu32 == div_i
        &&& (0x5A000000u32 | (div_i << 12u32) | div_f) & 0xfffu32 == div_f
    }) by (bit_vector);
    r
}

/// The divisors of the clock test sweep at step `i` of round `j`: the
/// integer divisor one higher with no fraction when `i` is the round's tens
/// (`10 * (j / 10)`) or the next ten, otherwise the base divisor with
/// fraction `i`.
pub fn test_clock_divisors(div_i: u32, j: u32, i: u32) -> (r: (u32, u32))
    requires
        div_i < u32::MAX,
        j <= u32::MAX - 10,
    ensures
        r == if i == 10 * (j / 10) || i == 10 * (j / 10) + 10 {
            ((div_i + 1) as u32, 0u32)
        } else {
            (div_i, i)
        },
{
    let tens = 10 * (j / 10);
    if i == tens || i == tens + 10 {
        (div_i + 1, 0)
    } else {
        (div_i, i)
    }
}

/// The clock test sweep: round `j` runs over 0..1000, step `i` over the
/// fractions 0, 10, ..., 990. The step after `(j, i)`, or `None` after the
/// last one.
pub fn test_clock_next(j: u32, i: u32) -> (r: Option<(u32, u32)>)
    requires
        j < 1000,
        i < 999,
    ensures
        r == if i + 10 < 999 {
            Some((j, (i + 10) as u32))
        } else if j + 1 < 1000 {
            Some(((j + 1) as u32, 0u32))
        } else {
            None::<(u32, u32)>
        },
{
    if i + 10 < 999 {
        Some((j, i + 10))
    } else if j + 1 < 1000 {
        Some((j + 1, 0))
    } else {
        None
    }
}

} // verus!
