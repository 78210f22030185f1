//! Fixed-width signed integers.
//!
//! A `Fixnum` holds a 32-bit signed integer. Sums, differences and products
//! wrap around in two's complement; a quotient is rounded toward zero and
//! asks for a divisor other than zero and a quotient that fits.

use core::cmp::Ordering;
use vstd::prelude::*;
use vstd::std_specs::cmp::PartialOrdSpecImpl;
use vstd::std_specs::convert::FromSpecImpl;
use vstd::std_specs::ops::{AddSpecImpl, DivSpecImpl, MulSpecImpl, SubSpecImpl};
use vstd::string::*;

verus! {

/// A 32-bit signed integer value.
#[derive(Debug, Copy, Clone, PartialEq, Eq, Structural, Ord, Hash)]
pub struct Fixnum(pub i32);

impl View for Fixnum {
    type V = int;

    open spec fn view(&self) -> int {
        self.0 as int
    }
}

/// The representative of `x` modulo 2^32 that lies in the `i32` range.
pub open spec fn wrap(x: int) -> int {
    let r = x % 0x1_0000_0000;
    if r >= 0x8000_0000 {
        r - 0x1_0000_0000
    } else {
        r
    }
}

/// `x` divided by `d` and rounded toward zero.
pub open spec fn quotient(x: int, d: int) -> int {
    let magnitude = (if x < 0 { -x } else { x }) / (if d < 0 { -d } else { d });
    if (x < 0) == (d < 0) {
        magnitude
    } else {
        -magnitude
    }
}

/// Wrapping a factor of a product first makes no difference.
pub proof fn lemma_wrap_mul(x: int, y: int)
    ensures
        wrap(wrap(x) * y) == wrap(x * y),
{
    let m = 0x1_0000_0000int;
    vstd::arithmetic::div_mod::lemma_mul_mod_noop_left(wrap(x), y, m);
    vstd::arithmetic::div_mod::lemma_mul_mod_noop_left(x, y, m);
}

/// A quotient is no larger in magnitude than what is divided; that of the
/// least number by anything but -1 fits in 32 bits.
pub proof fn lemma_quotient_range(x: int, d: int)
    requires
        i32::MIN <= x <= i32::MAX,
        i32::MIN <= d <= i32::MAX,
        d != 0,
        !(x == i32::MIN && d == -1),
    ensures
        i32::MIN <= quotient(x, d) <= i32::MAX,
{
    let a = if x < 0 { -x } else { x };
    let b = if d < 0 { -d } else { d };
    if b >= 2 {
        vstd::arithmetic::div_mod::lemma_div_is_ordered_by_denominator(a, 2, b);
    }
}

/// Makes a `Fixnum` from a native integer.
pub fn fxn(i: i32) -> (r: Fixnum)
    ensures
        r@ == i,
{
    Fixnum(i)
}

impl core::ops::Add for Fixnum {
    type Output = Fixnum;

    fn add(self, rhs: Fixnum) -> (r: Fixnum) {
        Fixnum(self.0.wrapping_add(rhs.0))
    }
}

impl AddSpecImpl for Fixnum {
    open spec fn obeys_add_spec() -> bool {
        true
    }

    open spec fn add_req(self, rhs: Fixnum) -> bool {
        true
    }

    open spec fn add_spec(self, rhs: Fixnum) -> Fixnum {
        Fixnum(wrap(self@ + rhs@) as i32)
    }
}

impl core::ops::Sub for Fixnum {
    type Output = Fixnum;

    fn sub(self, rhs: Fixnum) -> (r: Fixnum) {
        Fixnum(self.0.wrapping_sub(rhs.0))
    }
}

impl SubSpecImpl for Fixnum {
    open spec fn obeys_sub_spec() -> bool {
        true
    }

    open spec fn sub_req(self, rhs: Fixnum) -> bool {
        true
    }

    open spec fn sub_spec(self, rhs: Fixnum) -> Fixnum {
        Fixnum(wrap(self@ - rhs@) as i32)
    }
}

impl core::ops::Mul for Fixnum {
    type Output = Fixnum;

    fn mul(self, rhs: Fixnum) -> (r: Fixnum) {
        Fixnum(self.0.wrapping_mul(rhs.0))
    }
}

impl MulSpecImpl for Fixnum {
    open spec fn obeys_mul_spec() -> bool {
        true
    }

    open spec fn mul_req(self, rhs: Fixnum) -> bool {
        true
    }

    open spec fn mul_spec(self, rhs: Fixnum) -> Fixnum {
        Fixnum(wrap(self@ * rhs@) as i32)
    }
}

impl core::ops::Div for Fixnum {
    type Output = Fixnum;

    fn div(self, rhs: Fixnum) -> (r: Fixnum) {
        proof {
            lemma_quotient_range(self@, rhs@);
        }
        Fixnum(self.0.checked_div(rhs.0).unwrap())
    }
}

impl DivSpecImpl for Fixnum {
    open spec fn obeys_div_spec() -> bool {
        true
    }

    open spec fn div_req(self, rhs: Fixnum) -> bool {
        rhs@ != 0 && !(self@ == i32::MIN && rhs@ == -1)
    }

    open spec fn div_spec(self, rhs: Fixnum) -> Fixnum {
        Fixnum(quotient(self@, rhs@) as i32)
    }
}

impl core::ops::AddAssign for Fixnum {
    fn add_assign(&mut self, rhs: Fixnum)
        ensures
            final(self)@ == wrap(old(self)@ + rhs@),
    {
        self.0 = self.0.wrapping_add(rhs.0);
    }
}

impl core::ops::SubAssign for Fixnum {
    fn sub_assign(&mut self, rhs: Fixnum)
        ensures
            final(self)@ == wrap(old(self)@ - rhs@),
    {
        self.0 = self.0.wrapping_sub(rhs.0);
    }
}

impl core::ops::MulAssign for Fixnum {
    fn mul_assign(&mut self, rhs: Fixnum)
        ensures
            final(self)@ == wrap(old(self)@ * rhs@),
    {
        self.0 = self.0.wrapping_mul(rhs.0);
    }
}

impl core::ops::DivAssign for Fixnum {
    fn div_assign(&mut self, rhs: Fixnum)
        requires
            rhs@ != 0,
            !(old(self)@ == i32::MIN && rhs@ == -1),
        ensures
            final(self)@ == quotient(old(self)@, rhs@),
    {
        let q = *self / rhs;
        proof {
            lemma_quotient_range(self@, rhs@);
        }
        self.0 = q.0;
    }
}

impl PartialOrd for Fixnum {
    fn partial_cmp(&self, other: &Fixnum) -> (r: Option<Ordering>) {
        if self.0 < other.0 {
            Some(Ordering::Less)
        } else if self.0 > other.0 {
            Some(Ordering::Greater)
        } else {
            Some(Ordering::Equal)
        }
    }
}

impl PartialOrdSpecImpl for Fixnum {
    open spec fn obeys_partial_cmp_spec() -> bool {
        true
    }

    open spec fn partial_cmp_spec(&self, other: &Fixnum) -> Option<Ordering> {
        if self.0 < other.0 {
            Some(Ordering::Less)
        } else if self.0 > other.0 {
            Some(Ordering::Greater)
        } else {
            Some(Ordering::Equal)
        }
    }
}

impl From<u8> for Fixnum {
    fn from(i: u8) -> (r: Fixnum) {
        Fixnum(i as i32)
    }
}

impl FromSpecImpl<u8> for Fixnum {
    open spec fn obeys_from_spec() -> bool {
        true
    }

    open spec fn from_spec(i: u8) -> Fixnum {
        Fixnum(i as i32)
    }
}

impl From<u16> for Fixnum {
    fn from(i: u16) -> (r: Fixnum) {
        Fixnum(i as i32)
    }
}

impl FromSpecImpl<u16> for Fixnum {
    open spec fn obeys_from_spec() -> bool {
        true
    }

    open spec fn from_spec(i: u16) -> Fixnum {
        Fixnum(i as i32)
    }
}

impl From<u32> for Fixnum {
    /// Keeps the 32 bits: what is above the `i32` range wraps to below zero.
    fn from(i: u32) -> (r: Fixnum) {
        if i > 0x7fff_ffff {
            Fixnum((i as i64 - 0x1_0000_0000) as i32)
        } else {
            Fixnum(i as i32)
        }
    }
}

impl FromSpecImpl<u32> for Fixnum {
    open spec fn obeys_from_spec() -> bool {
        true
    }

    open spec fn from_spec(i: u32) -> Fixnum {
        Fixnum(wrap(i as int) as i32)
    }
}

impl From<i8> for Fixnum {
    fn from(i: i8) -> (r: Fixnum) {
        Fixnum(i as i32)
    }
}

impl FromSpecImpl<i8> for Fixnum {
    open spec fn obeys_from_spec() -> bool {
        true
    }

    open spec fn from_spec(i: i8) -> Fixnum {
        Fixnum(i as i32)
    }
}

impl From<i16> for Fixnum {
    fn from(i: i16) -> (r: Fixnum) {
        Fixnum(i as i32)
    }
}

impl FromSpecImpl<i16> for Fixnum {
    open spec fn obeys_from_spec() -> bool {
        true
    }

    open spec fn from_spec(i: i16) -> Fixnum {
        Fixnum(i as i32)
    }
}

impl From<i32> for Fixnum {
    fn from(i: i32) -> (r: Fixnum) {
        Fixnum(i)
    }
}

impl FromSpecImpl<i32> for Fixnum {
    open spec fn obeys_from_spec() -> bool {
        true
    }

    open spec fn from_spec(i: i32) -> Fixnum {
        Fixnum(i)
    }
}

impl From<char> for Fixnum {
    /// The character's code point.
    fn from(c: char) -> (r: Fixnum) {
        Fixnum(c as u32 as i32)
    }
}

impl FromSpecImpl<char> for Fixnum {
    open spec fn obeys_from_spec() -> bool {
        true
    }

    open spec fn from_spec(c: char) -> Fixnum {
        Fixnum(c as u32 as i32)
    }
}

/// The lowercase hexadecimal digit for a number below 16.
pub open spec fn hex_digit(d: int) -> char {
    if d < 10 {
        ('0' as int + d) as char
    } else {
        ('a' as int + d - 10) as char
    }
}

/// The hexadecimal digits of `n`, without leading zeros; `0` for zero.
pub open spec fn hex_digits(n: nat) -> Seq<char>
    decreases n,
{
    if n < 16 {
        seq![hex_digit(n as int)]
    } else {
        hex_digits(n / 16).push(hex_digit((n % 16) as int))
    }
}

/// The number that the 32 bits of `x` write when read without a sign.
pub open spec fn unsigned(x: int) -> nat {
    if x < 0 {
        (x + 0x1_0000_0000) as nat
    } else {
        x as nat
    }
}

/// The text of one hexadecimal digit.
fn hex_digit_text(d: u64) -> (text: &'static str)
    requires
        d < 16,
    ensures
        text@ == seq![hex_digit(d as int)],
{
    proof {
        reveal_strlit("0");
        reveal_strlit("1");
        reveal_strlit("2");
        reveal_strlit("3");
        reveal_strlit("4");
        reveal_strlit("5");
        reveal_strlit("6");
        reveal_strlit("7");
        reveal_strlit("8");
        reveal_strlit("9");
        reveal_strlit("a");
        reveal_strlit("b");
        reveal_strlit("c");
        reveal_strlit("d");
        reveal_strlit("e");
        reveal_strlit("f");
    }
    let text = if d == 0 {
        "0"
    } else if d == 1 {
        "1"
    } else if d == 2 {
        "2"
    } else if d == 3 {
        "3"
    } else if d == 4 {
        "4"
    } else if d == 5 {
        "5"
    } else if d == 6 {
        "6"
    } else if d == 7 {
        "7"
    } else if d == 8 {
        "8"
    } else if d == 9 {
        "9"
    } else if d == 10 {
        "a"
    } else if d == 11 {
        "b"
    } else if d == 12 {
        "c"
    } else if d == 13 {
        "d"
    } else if d == 14 {
        "e"
    } else {
        "f"
    };
    text
}

impl Fixnum {
    /// The value's 32 bits in lowercase hexadecimal, without a prefix and
    /// without leading zeros: a negative value shows its two's complement.
    pub fn to_lower_hex(self) -> (text: String)
        ensures
            text@ == hex_digits(unsigned(self@)),
    {
        let whole: u64 = if self.0 < 0 {
            (self.0 as i64 + 0x1_0000_0000) as u64
        } else {
            self.0 as u64
        };
        let mut n: u64 = whole / 16;
        let mut text = String::from_str(hex_digit_text(whole % 16));
        while n > 0
            invariant
                n > 0 ==> hex_digits(whole as nat) == hex_digits(n as nat) + text@,
                n == 0 ==> hex_digits(whole as nat) == text@,
            decreases n,
        {
            let digit = String::from_str(hex_digit_text(n % 16));
            text = digit.concat(text.as_str());
            n = n / 16;
        }
        text
    }
}

} // verus!
