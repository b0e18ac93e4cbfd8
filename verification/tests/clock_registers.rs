use wspr_tx::clock::{
    clk_busy, clk_disab, clk_div, clk_enab, gpio_alt0, gpio_out_clear, gpio_register_index,
    test_clock_divisors, test_clock_next, CLK_SRC_PLLD_MASH1, GPCLK_BASE, GPIO_BASE,
};

#[test]
fn register_bases() {
    assert_eq!(GPIO_BASE, 0xFE200000);
    assert_eq!(GPCLK_BASE, 0xFE101000);
    assert_eq!(CLK_SRC_PLLD_MASH1, 0x5A000000 | 6 | 1 << 9);
}

#[test]
fn function_select_register_of_pin() {
    assert_eq!(gpio_register_index(4), 0);
    assert_eq!(gpio_register_index(9), 0);
    assert_eq!(gpio_register_index(10), 1);
    assert_eq!(gpio_register_index(27), 2);
}

#[test]
fn clearing_a_pin_field() {
    assert_eq!(gpio_out_clear(0xFFFF_FFFF, 4), 0xFFFF_8FFF);
    assert_eq!(gpio_out_clear(0xFFFF_FFFF, 10), 0xFFFF_FFF8);
    assert_eq!(gpio_out_clear(0xFFFF_FFFF, 19), 0xC7FF_FFFF);
}

#[test]
fn alternate_function_zero_after_clear() {
    for reg in [0u32, 0xFFFF_FFFF, 0x1234_5678, 0x0000_7000] {
        for g in [4isize, 5, 14, 29] {
            let shift = (g % 10 * 3) as u32;
            let r = gpio_alt0(gpio_out_clear(reg, g), g);
            assert_eq!((r >> shift) & 7, 4);
            assert_eq!(r & !(7 << shift), reg & !(7 << shift));
        }
    }
}

#[test]
fn clock_busy_flag() {
    assert!(clk_busy(0x80));
    assert!(clk_busy(0x5A00_0096));
    assert!(!clk_busy(0x5A00_0016));
}

#[test]
fn clock_enable_and_disable() {
    assert_eq!(clk_enab(0x206), 0x5A00_0216);
    assert_eq!(clk_disab(0x296), 0x5A00_0286);
    assert_eq!(clk_disab(clk_enab(0x206)) & 0x10, 0);
}

#[test]
fn clock_divisor_value() {
    assert_eq!(clk_div(35, 0), 0x5A02_3000);
    assert_eq!(clk_div(2, 1023), 0x5A00_23FF);
    let r = clk_div(408, 512);
    assert_eq!(r >> 24, 0x5A);
    assert_eq!((r >> 12) & 0xfff, 408);
    assert_eq!(r & 0xfff, 512);
}

#[test]
fn clock_test_sweep_divisors() {
    assert_eq!(test_clock_divisors(35, 23, 20), (36, 0));
    assert_eq!(test_clock_divisors(35, 23, 30), (36, 0));
    assert_eq!(test_clock_divisors(35, 23, 40), (35, 40));
    assert_eq!(test_clock_divisors(35, 0, 0), (36, 0));
    assert_eq!(test_clock_divisors(35, 0, 10), (36, 0));
    assert_eq!(test_clock_divisors(35, 0, 990), (35, 990));
}

#[test]
fn clock_test_sweep_order() {
    assert_eq!(test_clock_next(0, 0), Some((0, 10)));
    assert_eq!(test_clock_next(0, 980), Some((0, 990)));
    assert_eq!(test_clock_next(0, 990), Some((1, 0)));
    assert_eq!(test_clock_next(999, 990), None);
    let mut count = 1;
    let mut step = Some((0u32, 0u32));
    while let Some((j, i)) = step {
        step = test_clock_next(j, i);
        if step.is_some() {
            count += 1;
        }
    }
    assert_eq!(count, 1000 * 100);
}
