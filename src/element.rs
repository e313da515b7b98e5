use rand::Rng;
use vstd::prelude::*;

verus! {

/// Relies on rand's `thread_rng().gen_range(lo..=hi)`: a value of the closed
/// range `[lo, hi]`; the call panics only on an empty range, which `requires`
/// leaves out.
#[verifier::external_body]
fn draw_between(lo: i128, hi: i128) -> (r: i128)
    requires
        lo <= hi,
    ensures
        lo <= r <= hi,
{
    rand::thread_rng().gen_range(lo..=hi)
}

/// A number that the matrices, vectors, points and quaternions of this crate
/// hold. Each value stands for the integer `as_int()`; arithmetic computes on
/// those integers and asks that the exact result be representable (`fits`).
pub trait Element: Copy + Sized {
    /// The integer this value stands for.
    spec fn as_int(self) -> int;

    /// Whether `v` is the integer of some value of the type.
    spec fn fits(v: int) -> bool;

    proof fn lemma_fits(a: Self)
        ensures
            Self::fits(a.as_int()),
    ;

    /// The value that stands for `v`, where `fits(v)`.
    spec fn from_int(v: int) -> Self;

    proof fn lemma_from_int(v: int)
        requires
            Self::fits(v),
        ensures
            Self::from_int(v).as_int() == v,
    ;

    proof fn lemma_fits_zero_one()
        ensures
            Self::fits(0),
            Self::fits(1),
    ;

    /// Two values that stand for the same integer are the same value.
    proof fn lemma_injective(a: Self, b: Self)
        requires
            a.as_int() == b.as_int(),
        ensures
            a == b,
    ;

    /// The additive identity.
    fn zero() -> (r: Self)
        ensures
            r.as_int() == 0,
    ;

    /// The multiplicative identity.
    fn one() -> (r: Self)
        ensures
            r.as_int() == 1,
    ;

    fn plus(self, other: Self) -> (r: Self)
        requires
            Self::fits(self.as_int() + other.as_int()),
        ensures
            r.as_int() == self.as_int() + other.as_int(),
    ;

    fn minus(self, other: Self) -> (r: Self)
        requires
            Self::fits(self.as_int() - other.as_int()),
        ensures
            r.as_int() == self.as_int() - other.as_int(),
    ;

    fn times(self, other: Self) -> (r: Self)
        requires
            Self::fits(self.as_int() * other.as_int()),
        ensures
            r.as_int() == self.as_int() * other.as_int(),
    ;

    fn negate(self) -> (r: Self)
        requires
            Self::fits(-self.as_int()),
        ensures
            r.as_int() == -self.as_int(),
    ;

    fn equals(&self, other: &Self) -> (r: bool)
        ensures
            r == (self.as_int() == other.as_int()),
    ;

    fn greater(&self, other: &Self) -> (r: bool)
        ensures
            r == (self.as_int() > other.as_int()),
    ;

    /// A value drawn at random from the closed range `[lo, hi]`.
    fn draw(lo: Self, hi: Self) -> (r: Self)
        requires
            lo.as_int() <= hi.as_int(),
        ensures
            lo.as_int() <= r.as_int() <= hi.as_int(),
    ;
}

/// Every value is the one `from_int` gives for its integer.
pub proof fn lemma_from_as_int<N: Element>(x: N)
    ensures
        N::from_int(x.as_int()) == x,
{
    N::lemma_fits(x);
    N::lemma_from_int(x.as_int());
    N::lemma_injective(N::from_int(x.as_int()), x);
}

/// `x + y` when `plus`, `x - y` otherwise.
pub open spec fn pm(x: int, y: int, plus: bool) -> int {
    if plus {
        x + y
    } else {
        x - y
    }
}

/// Whether the products `a`, `b` and the total `a ± b` are representable.
pub open spec fn products_fit2<N: Element>(a: int, b: int, sb: bool) -> bool {
    N::fits(a) && N::fits(b) && N::fits(pm(a, b, sb))
}

/// Whether the products `a`, `b`, `c` and each running total of
/// `a ± b ± c`, taken left to right, are representable.
pub open spec fn products_fit3<N: Element>(a: int, b: int, c: int, sb: bool, sc: bool) -> bool {
    products_fit2::<N>(a, b, sb) && N::fits(c) && N::fits(pm(pm(a, b, sb), c, sc))
}

/// Whether the products `a`, `b`, `c`, `d` and each running total of
/// `a ± b ± c ± d`, taken left to right, are representable.
pub open spec fn products_fit4<N: Element>(a: int, b: int, c: int, d: int, sb: bool, sc: bool, sd: bool) -> bool {
    products_fit3::<N>(a, b, c, sb, sc) && N::fits(d) && N::fits(pm(pm(pm(a, b, sb), c, sc), d, sd))
}

/// `a0 * a1 ± b0 * b1`, with `+` when `sb`.
pub fn combine2<N: Element>(a0: N, a1: N, b0: N, b1: N, sb: bool) -> (r: N)
    requires
        products_fit2::<N>(a0.as_int() * a1.as_int(), b0.as_int() * b1.as_int(), sb),
    ensures
        r.as_int() == pm(a0.as_int() * a1.as_int(), b0.as_int() * b1.as_int(), sb),
{
    let a = a0.times(a1);
    let b = b0.times(b1);
    if sb {
        a.plus(b)
    } else {
        a.minus(b)
    }
}

/// `a0 * a1 ± b0 * b1 ± c0 * c1`, summed left to right.
pub fn combine3<N: Element>(a0: N, a1: N, b0: N, b1: N, c0: N, c1: N, sb: bool, sc: bool) -> (r: N)
    requires
        products_fit3::<N>(a0.as_int() * a1.as_int(), b0.as_int() * b1.as_int(), c0.as_int() * c1.as_int(), sb, sc),
    ensures
        r.as_int() == pm(
            pm(a0.as_int() * a1.as_int(), b0.as_int() * b1.as_int(), sb),
            c0.as_int() * c1.as_int(),
            sc,
        ),
{
    let ab = combine2(a0, a1, b0, b1, sb);
    let c = c0.times(c1);
    if sc {
        ab.plus(c)
    } else {
        ab.minus(c)
    }
}

/// `a0 * a1 ± b0 * b1 ± c0 * c1 ± d0 * d1`, summed left to right.
pub fn combine4<N: Element>(
    a0: N,
    a1: N,
    b0: N,
    b1: N,
    c0: N,
    c1: N,
    d0: N,
    d1: N,
    sb: bool,
    sc: bool,
    sd: bool,
) -> (r: N)
    requires
        products_fit4::<N>(
            a0.as_int() * a1.as_int(),
            b0.as_int() * b1.as_int(),
            c0.as_int() * c1.as_int(),
            d0.as_int() * d1.as_int(),
            sb,
            sc,
            sd,
        ),
    ensures
        r.as_int() == pm(
            pm(pm(a0.as_int() * a1.as_int(), b0.as_int() * b1.as_int(), sb), c0.as_int() * c1.as_int(), sc),
            d0.as_int() * d1.as_int(),
            sd,
        ),
{
    let abc = combine3(a0, a1, b0, b1, c0, c1, sb, sc);
    let d = d0.times(d1);
    if sd {
        abc.plus(d)
    } else {
        abc.minus(d)
    }
}

impl Element for i32 {
    open spec fn as_int(self) -> int {
        self as int
    }

    open spec fn fits(v: int) -> bool {
        i32::MIN <= v <= i32::MAX
    }

    proof fn lemma_fits(a: i32) {
    }

    open spec fn from_int(v: int) -> i32 {
        v as i32
    }

    proof fn lemma_from_int(v: int) {
    }

    proof fn lemma_fits_zero_one() {
    }

    proof fn lemma_injective(a: i32, b: i32) {
    }

    fn zero() -> (r: i32) {
        0
    }

    fn one() -> (r: i32) {
        1
    }

    fn plus(self, other: i32) -> (r: i32) {
        self + other
    }

    fn minus(self, other: i32) -> (r: i32) {
        self - other
    }

    fn times(self, other: i32) -> (r: i32) {
        self * other
    }

    fn negate(self) -> (r: i32) {
        -self
    }

    fn equals(&self, other: &i32) -> (r: bool) {
        *self == *other
    }

    fn greater(&self, other: &i32) -> (r: bool) {
        *self > *other
    }

    fn draw(lo: i32, hi: i32) -> (r: i32) {
        draw_between(lo as i128, hi as i128) as i32
    }
}

impl Element for i64 {
    open spec fn as_int(self) -> int {
        self as int
    }

    open spec fn fits(v: int) -> bool {
        i64::MIN <= v <= i64::MAX
    }

    proof fn lemma_fits(a: i64) {
    }

    open spec fn from_int(v: int) -> i64 {
        v as i64
    }

    proof fn lemma_from_int(v: int) {
    }

    proof fn lemma_fits_zero_one() {
    }

    proof fn lemma_injective(a: i64, b: i64) {
    }

    fn zero() -> (r: i64) {
        0
    }

    fn one() -> (r: i64) {
        1
    }

    fn plus(self, other: i64) -> (r: i64) {
        self + other
    }

    fn minus(self, other: i64) -> (r: i64) {
        self - other
    }

    fn times(self, other: i64) -> (r: i64) {
        self * other
    }

    fn negate(self) -> (r: i64) {
        -self
    }

    fn equals(&self, other: &i64) -> (r: bool) {
        *self == *other
    }

    fn greater(&self, other: &i64) -> (r: bool) {
        *self > *other
    }

    fn draw(lo: i64, hi: i64) -> (r: i64) {
        draw_between(lo as i128, hi as i128) as i64
    }
}

impl Element for u32 {
    open spec fn as_int(self) -> int {
        self as int
    }

    open spec fn fits(v: int) -> bool {
        u32::MIN <= v <= u32::MAX
    }

    proof fn lemma_fits(a: u32) {
    }

    open spec fn from_int(v: int) -> u32 {
        v as u32
    }

    proof fn lemma_from_int(v: int) {
    }

    proof fn lemma_fits_zero_one() {
    }

    proof fn lemma_injective(a: u32, b: u32) {
    }

    fn zero() -> (r: u32) {
        0
    }

    fn one() -> (r: u32) {
        1
    }

    fn plus(self, other: u32) -> (r: u32) {
        self + other
    }

    fn minus(self, other: u32) -> (r: u32) {
        self - other
    }

    fn times(self, other: u32) -> (r: u32) {
        self * other
    }

    fn negate(self) -> (r: u32) {
        0
    }

    fn equals(&self, other: &u32) -> (r: bool) {
        *self == *other
    }

    fn greater(&self, other: &u32) -> (r: bool) {
        *self > *other
    }

    fn draw(lo: u32, hi: u32) -> (r: u32) {
        draw_between(lo as i128, hi as i128) as u32
    }
}

impl Element for u64 {
    open spec fn as_int(self) -> int {
        self as int
    }

    open spec fn fits(v: int) -> bool {
        u64::MIN <= v <= u64::MAX
    }

    proof fn lemma_fits(a: u64) {
    }

    open spec fn from_int(v: int) -> u64 {
        v as u64
    }

    proof fn lemma_from_int(v: int) {
    }

    proof fn lemma_fits_zero_one() {
    }

    proof fn lemma_injective(a: u64, b: u64) {
    }

    fn zero() -> (r: u64) {
        0
    }

    fn one() -> (r: u64) {
        1
    }

    fn plus(self, other: u64) -> (r: u64) {
        self + other
    }

    fn minus(self, other: u64) -> (r: u64) {
        self - other
    }

    fn times(self, other: u64) -> (r: u64) {
        self * other
    }

    fn negate(self) -> (r: u64) {
        0
    }

    fn equals(&self, other: &u64) -> (r: bool) {
        *self == *other
    }

    fn greater(&self, other: &u64) -> (r: bool) {
        *self > *other
    }

    fn draw(lo: u64, hi: u64) -> (r: u64) {
        draw_between(lo as i128, hi as i128) as u64
    }
}

} // verus!
