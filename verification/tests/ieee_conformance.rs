//! The integer arithmetic of the library against the machine's own binary32
//! arithmetic, bit for bit.

use raytracer::ieee::arith::{abs, add, divide, multiply, negate, subtract};
use raytracer::ieee::convert::to_byte;
use raytracer::ieee::order::{equal, less_or_equal, less_than};
use raytracer::ieee::root::square_root;

struct Patterns {
    state: u64,
}

impl Patterns {
    fn new(seed: u64) -> Patterns {
        Patterns { state: seed }
    }

    fn next(&mut self) -> u32 {
        self.state = self
            .state
            .wrapping_mul(6364136223846793005)
            .wrapping_add(1442695040888963407);
        (self.state >> 32) as u32
    }

    /// A pattern whose exponent lies within `spread` of that of `near`.
    fn next_near(&mut self, near: u32, spread: u32) -> u32 {
        let raw = self.next();
        let exponent = (near >> 23) & 0xff;
        let shift = raw % (2 * spread + 1);
        let moved = (exponent + shift).saturating_sub(spread).min(254);
        (raw & 0x807f_ffff) | (moved << 23)
    }
}

const SPECIAL: [u32; 26] = [
    0x0000_0000,
    0x8000_0000,
    0x0000_0001,
    0x8000_0001,
    0x0000_0002,
    0x007f_ffff,
    0x807f_ffff,
    0x0080_0000,
    0x8080_0000,
    0x0080_0001,
    0x00ff_ffff,
    0x0100_0000,
    0x3f80_0000,
    0xbf80_0000,
    0x3f7f_ffff,
    0x3f80_0001,
    0x4000_0000,
    0x3400_0000,
    0x3380_0000,
    0x4b80_0000,
    0x7f7f_ffff,
    0xff7f_ffff,
    0x7f80_0000,
    0xff80_0000,
    0x7fc0_0000,
    0xffc0_0001,
];

fn agree(ours: u32, theirs: f32) -> bool {
    if theirs.is_nan() {
        f32::from_bits(ours).is_nan()
    } else {
        ours == theirs.to_bits()
    }
}

fn check_pair(a: u32, b: u32) {
    let x = f32::from_bits(a);
    let y = f32::from_bits(b);
    assert!(agree(add(a, b), x + y), "add {:#010x} {:#010x}", a, b);
    assert!(agree(subtract(a, b), x - y), "subtract {:#010x} {:#010x}", a, b);
    assert!(agree(multiply(a, b), x * y), "multiply {:#010x} {:#010x}", a, b);
    assert!(agree(divide(a, b), x / y), "divide {:#010x} {:#010x}", a, b);
    assert_eq!(less_than(a, b), x < y, "less_than {:#010x} {:#010x}", a, b);
    assert_eq!(less_or_equal(a, b), x <= y, "less_or_equal {:#010x} {:#010x}", a, b);
    assert_eq!(equal(a, b), x == y, "equal {:#010x} {:#010x}", a, b);
}

fn check_one(a: u32) {
    let x = f32::from_bits(a);
    assert!(agree(square_root(a), x.sqrt()), "square_root {:#010x}", a);
    assert_eq!(negate(a), (-x).to_bits(), "negate {:#010x}", a);
    assert_eq!(abs(a), x.abs().to_bits(), "abs {:#010x}", a);
    assert_eq!(to_byte(a), x as u8, "to_byte {:#010x}", a);
}

#[test]
fn special_values_agree_with_the_machine() {
    for a in SPECIAL {
        check_one(a);
        for b in SPECIAL {
            check_pair(a, b);
        }
    }
}

#[test]
fn random_patterns_agree_with_the_machine() {
    let mut patterns = Patterns::new(0x2545_f491_4f6c_dd1d);
    for _ in 0..20000 {
        let a = patterns.next();
        let b = patterns.next();
        check_one(a);
        check_pair(a, b);
    }
}

#[test]
fn neighbouring_exponents_agree_with_the_machine() {
    let mut patterns = Patterns::new(0x9e37_79b9_7f4a_7c15);
    for _ in 0..20000 {
        let a = patterns.next();
        let b = patterns.next_near(a, 2);
        check_pair(a, b);
        let c = patterns.next_near(a, 30);
        check_pair(a, c);
    }
}

#[test]
fn special_values_against_random_patterns_agree_with_the_machine() {
    let mut patterns = Patterns::new(0x1234_5678_9abc_def1);
    for a in SPECIAL {
        for _ in 0..300 {
            let b = patterns.next();
            check_pair(a, b);
            check_pair(b, a);
        }
    }
}

#[test]
fn cancelling_sums_agree_with_the_machine() {
    let mut patterns = Patterns::new(0x0f0f_0f0f_f0f0_f0f1);
    for _ in 0..20000 {
        let a = patterns.next();
        let b = (a ^ 0x8000_0000).wrapping_add(patterns.next() % 5).wrapping_sub(2);
        check_pair(a, b);
    }
}

#[test]
fn bytes_of_small_values_agree_with_the_machine() {
    let mut patterns = Patterns::new(0x5151_5151_1515_1515);
    for _ in 0..20000 {
        let raw = patterns.next();
        let a = (raw & 0x807f_ffff) | ((120 + raw % 20) << 23);
        check_one(a);
    }
}

#[test]
fn square_roots_of_perfect_squares_are_exact() {
    for n in 0u32..2000 {
        let square = ((n * n) as f32).to_bits();
        assert_eq!(square_root(square), (n as f32).to_bits());
    }
}
