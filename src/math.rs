//! Fixed-size vectors and matrices. Integer arithmetic is exact: each
//! component-wise operation states what it computes over mathematical
//! integers, and products are widened so that they cannot overflow.
use vstd::prelude::*;

verus! {

/// A fixed-size numeric tuple of `N` components.
#[derive(Clone, Copy, Debug, PartialEq, Eq)]
pub struct Vector<T, const N: usize>(pub [T; N]);

/// A pair of unsigned 32-bit integers, such as a size in pixels.
pub type UVec2 = Vector<u32, 2>;

/// The two components of a two-component vector, by name.
#[derive(Clone, Copy, Debug, PartialEq, Eq)]
pub struct Xy<T> {
    pub x: T,
    pub y: T,
}

/// The three components of a three-component vector, by name.
#[derive(Clone, Copy, Debug, PartialEq, Eq)]
pub struct Xyz<T> {
    pub x: T,
    pub y: T,
    pub z: T,
}

/// The four components of a four-component vector, by name.
#[derive(Clone, Copy, Debug, PartialEq, Eq)]
pub struct Xyzw<T> {
    pub x: T,
    pub y: T,
    pub z: T,
    pub w: T,
}

impl<T> Vector<T, 2> {
    /// Builds a two-component vector.
    pub fn new(x: T, y: T) -> (r: Self)
        ensures
            r.0@ == seq![x, y],
    {
        let r = Vector([x, y]);
        assert(r.0@ =~= seq![x, y]);
        r
    }
}

impl<T> Vector<T, 3> {
    /// Builds a three-component vector.
    pub fn new(x: T, y: T, z: T) -> (r: Self)
        ensures
            r.0@ == seq![x, y, z],
    {
        let r = Vector([x, y, z]);
        assert(r.0@ =~= seq![x, y, z]);
        r
    }
}

impl<T> Vector<T, 4> {
    /// Builds a four-component vector.
    pub fn new(x: T, y: T, z: T, w: T) -> (r: Self)
        ensures
            r.0@ == seq![x, y, z, w],
    {
        let r = Vector([x, y, z, w]);
        assert(r.0@ =~= seq![x, y, z, w]);
        r
    }
}

impl<T: Copy> Vector<T, 2> {
    /// The components by name.
    pub fn xy(&self) -> (r: Xy<T>)
        ensures
            r.x == self.0@[0] && r.y == self.0@[1],
    {
        Xy { x: self.0[0], y: self.0[1] }
    }
}

impl<T: Copy> Vector<T, 3> {
    /// The components by name.
    pub fn xyz(&self) -> (r: Xyz<T>)
        ensures
            r.x == self.0@[0] && r.y == self.0@[1] && r.z == self.0@[2],
    {
        Xyz { x: self.0[0], y: self.0[1], z: self.0[2] }
    }
}

impl<T: Copy> Vector<T, 4> {
    /// The components by name.
    pub fn xyzw(&self) -> (r: Xyzw<T>)
        ensures
            r.x == self.0@[0] && r.y == self.0@[1] && r.z == self.0@[2] && r.w == self.0@[3],
    {
        Xyzw { x: self.0[0], y: self.0[1], z: self.0[2], w: self.0[3] }
    }
}

/// The components of an `i32` vector as integers.
pub open spec fn ints32<const N: usize>(v: Vector<i32, N>) -> Seq<int> {
    v.0@.map_values(|x: i32| x as int)
}

/// The components of an `i64` vector as integers.
pub open spec fn ints64<const N: usize>(v: Vector<i64, N>) -> Seq<int> {
    v.0@.map_values(|x: i64| x as int)
}

/// Component-wise sum.
pub open spec fn add_spec(a: Seq<int>, b: Seq<int>) -> Seq<int> {
    Seq::new(a.len(), |i: int| a[i] + b[i])
}

/// Component-wise difference.
pub open spec fn sub_spec(a: Seq<int>, b: Seq<int>) -> Seq<int> {
    Seq::new(a.len(), |i: int| a[i] - b[i])
}

/// Component-wise negation.
pub open spec fn neg_spec(a: Seq<int>) -> Seq<int> {
    Seq::new(a.len(), |i: int| -a[i])
}

/// Each component times `k`.
pub open spec fn scale_spec(a: Seq<int>, k: int) -> Seq<int> {
    Seq::new(a.len(), |i: int| a[i] * k)
}

/// The sum of the products of the first `n` components.
pub open spec fn dot_spec(a: Seq<int>, b: Seq<int>, n: int) -> int
    decreases n,
{
    if n <= 0 {
        0
    } else {
        dot_spec(a, b, n - 1) + a[n - 1] * b[n - 1]
    }
}

/// The cross product of two three-component vectors.
pub open spec fn cross_spec(a: Seq<int>, b: Seq<int>) -> Seq<int> {
    seq![a[1] * b[2] - a[2] * b[1], a[2] * b[0] - a[0] * b[2], a[0] * b[1] - a[1] * b[0]]
}

/// Whether every component of `s` fits in an `i32`.
pub open spec fn fits_i32(s: Seq<int>) -> bool {
    forall|i: int| 0 <= i < s.len() ==> i32::MIN <= #[trigger] s[i] <= i32::MAX
}

/// Adding a vector and then subtracting it again gives back what one started
/// from, for all vectors of one dimension.
pub proof fn lemma_add_sub(a: Seq<int>, b: Seq<int>)
    requires
        a.len() == b.len(),
    ensures
        sub_spec(add_spec(a, b), b) == a,
{
    assert(sub_spec(add_spec(a, b), b) =~= a);
}

/// Swapping the operands of a cross product negates it, for all
/// three-component vectors.
pub proof fn lemma_cross_anticommutative(a: Seq<int>, b: Seq<int>)
    requires
        a.len() == 3,
        b.len() == 3,
    ensures
        cross_spec(a, b) == neg_spec(cross_spec(b, a)),
{
    assert(a[1] * b[2] == b[2] * a[1]) by (nonlinear_arith);
    assert(a[2] * b[1] == b[1] * a[2]) by (nonlinear_arith);
    assert(a[2] * b[0] == b[0] * a[2]) by (nonlinear_arith);
    assert(a[0] * b[2] == b[2] * a[0]) by (nonlinear_arith);
    assert(a[0] * b[1] == b[1] * a[0]) by (nonlinear_arith);
    assert(a[1] * b[0] == b[0] * a[1]) by (nonlinear_arith);
    assert(cross_spec(a, b) =~= neg_spec(cross_spec(b, a)));
}

impl<const N: usize> Vector<i32, N> {
    /// Component-wise sum.
    pub fn add(self, rhs: Self) -> (r: Self)
        requires
            fits_i32(add_spec(ints32(self), ints32(rhs))),
        ensures
            ints32(r) == add_spec(ints32(self), ints32(rhs)),
    {
        let mut out = [0i32; N];
        let mut i: usize = 0;
        while i < N
            invariant
                i <= N,
                fits_i32(add_spec(ints32(self), ints32(rhs))),
                forall|q: int| 0 <= q < i ==> out@[q] as int == self.0@[q] + rhs.0@[q],
            decreases N - i,
        {
            assert(add_spec(ints32(self), ints32(rhs))[i as int] == self.0@[i as int] + rhs.0@[i as int]);
            out[i] = self.0[i] + rhs.0[i];
            i = i + 1;
        }
        let r = Vector(out);
        assert(ints32(r) =~= add_spec(ints32(self), ints32(rhs)));
        r
    }

    /// Component-wise difference.
    pub fn sub(self, rhs: Self) -> (r: Self)
        requires
            fits_i32(sub_spec(ints32(self), ints32(rhs))),
        ensures
            ints32(r) == sub_spec(ints32(self), ints32(rhs)),
    {
        let mut out = [0i32; N];
        let mut i: usize = 0;
        while i < N
            invariant
                i <= N,
                fits_i32(sub_spec(ints32(self), ints32(rhs))),
                forall|q: int| 0 <= q < i ==> out@[q] as int == self.0@[q] - rhs.0@[q],
            decreases N - i,
        {
            assert(sub_spec(ints32(self), ints32(rhs))[i as int] == self.0@[i as int] - rhs.0@[i as int]);
            out[i] = self.0[i] - rhs.0[i];
            i = i + 1;
        }
        let r = Vector(out);
        assert(ints32(r) =~= sub_spec(ints32(self), ints32(rhs)));
        r
    }

    /// Component-wise negation.
    pub fn neg(self) -> (r: Self)
        requires
            fits_i32(neg_spec(ints32(self))),
        ensures
            ints32(r) == neg_spec(ints32(self)),
    {
        let mut out = [0i32; N];
        let mut i: usize = 0;
        while i < N
            invariant
                i <= N,
                fits_i32(neg_spec(ints32(self))),
                forall|q: int| 0 <= q < i ==> out@[q] as int == -self.0@[q],
            decreases N - i,
        {
            assert(neg_spec(ints32(self))[i as int] == -self.0@[i as int]);
            out[i] = -self.0[i];
            i = i + 1;
        }
        let r = Vector(out);
        assert(ints32(r) =~= neg_spec(ints32(self)));
        r
    }

    /// Each component times `k`.
    pub fn mul(self, k: i32) -> (r: Self)
        requires
            fits_i32(scale_spec(ints32(self), k as int)),
        ensures
            ints32(r) == scale_spec(ints32(self), k as int),
    {
        let mut out = [0i32; N];
        let mut i: usize = 0;
        while i < N
            invariant
                i <= N,
                fits_i32(scale_spec(ints32(self), k as int)),
                forall|q: int| 0 <= q < i ==> out@[q] as int == self.0@[q] * k,
            decreases N - i,
        {
            assert(scale_spec(ints32(self), k as int)[i as int] == self.0@[i as int] * k);
            out[i] = self.0[i] * k;
            i = i + 1;
        }
        let r = Vector(out);
        assert(ints32(r) =~= scale_spec(ints32(self), k as int));
        r
    }

    /// The sum of the products of the components, in a wide accumulator.
    pub fn dot(self, rhs: Self) -> (r: i128)
        ensures
            r == dot_spec(ints32(self), ints32(rhs), N as int),
    {
        let mut acc: i128 = 0;
        let mut i: usize = 0;
        while i < N
            invariant
                i <= N,
                acc == dot_spec(ints32(self), ints32(rhs), i as int),
                -(i as int) * 0x4000_0000_0000_0000 <= acc <= (i as int) * 0x4000_0000_0000_0000,
            decreases N - i,
        {
            let a = self.0[i] as i64;
            let b = rhs.0[i] as i64;
            assert(-0x4000_0000_0000_0000 <= a * b <= 0x4000_0000_0000_0000) by (nonlinear_arith)
                requires
                    -0x8000_0000 <= a <= 0x7fff_ffff,
                    -0x8000_0000 <= b <= 0x7fff_ffff,
            ;
            acc = acc + (a * b) as i128;
            i = i + 1;
        }
        acc
    }

    /// The sum of the squares of the components, in a wide accumulator.
    pub fn length_squared(self) -> (r: i128)
        ensures
            r == dot_spec(ints32(self), ints32(self), N as int),
    {
        self.dot(self)
    }
}

impl Vector<i32, 3> {
    /// The cross product, in 64-bit components, where it cannot overflow.
    pub fn cross(self, rhs: Self) -> (r: Vector<i64, 3>)
        ensures
            ints64(r) == cross_spec(ints32(self), ints32(rhs)),
    {
        let (a0, a1, a2) = (self.0[0] as i64, self.0[1] as i64, self.0[2] as i64);
        let (b0, b1, b2) = (rhs.0[0] as i64, rhs.0[1] as i64, rhs.0[2] as i64);
        proof {
            lemma_i32_product(a1, b2);
            lemma_i32_product(a2, b1);
            lemma_i32_product(a2, b0);
            lemma_i32_product(a0, b2);
            lemma_i32_product(a0, b1);
            lemma_i32_product(a1, b0);
        }
        let r = Vector([a1 * b2 - a2 * b1, a2 * b0 - a0 * b2, a0 * b1 - a1 * b0]);
        assert(ints64(r) =~= cross_spec(ints32(self), ints32(rhs)));
        r
    }
}

proof fn lemma_i32_product(x: i64, y: i64)
    requires
        -0x8000_0000 <= x <= 0x7fff_ffff,
        -0x8000_0000 <= y <= 0x7fff_ffff,
    ensures
        -0x3fff_ffff_8000_0000 <= x * y <= 0x4000_0000_0000_0000,
{
    if x >= 0 && y >= 0 {
        assert(x * y <= 0x7fff_ffff * 0x7fff_ffff) by (nonlinear_arith)
            requires
                0 <= x <= 0x7fff_ffff,
                0 <= y <= 0x7fff_ffff,
        ;
        assert(x * y >= 0) by (nonlinear_arith)
            requires
                0 <= x,
                0 <= y,
        ;
    } else if x < 0 && y < 0 {
        assert(x * y <= 0x8000_0000 * 0x8000_0000) by (nonlinear_arith)
            requires
                -0x8000_0000 <= x < 0,
                -0x8000_0000 <= y < 0,
        ;
        assert(x * y >= 0) by (nonlinear_arith)
            requires
                x < 0,
                y < 0,
        ;
    } else if x < 0 {
        assert(x * y >= -0x8000_0000 * 0x7fff_ffff) by (nonlinear_arith)
            requires
                -0x8000_0000 <= x < 0,
                0 <= y <= 0x7fff_ffff,
        ;
        assert(x * y <= 0) by (nonlinear_arith)
            requires
                x < 0,
                0 <= y,
        ;
    } else {
        assert(x * y >= 0x7fff_ffff * -0x8000_0000) by (nonlinear_arith)
            requires
                0 <= x <= 0x7fff_ffff,
                -0x8000_0000 <= y < 0,
        ;
        assert(x * y <= 0) by (nonlinear_arith)
            requires
                0 <= x,
                y < 0,
        ;
    }
}

impl<const N: usize> Vector<i64, N> {
    /// Component-wise negation.
    pub fn neg(self) -> (r: Self)
        requires
            forall|i: int| 0 <= i < N ==> self.0@[i] > i64::MIN,
        ensures
            ints64(r) == neg_spec(ints64(self)),
    {
        let mut out = [0i64; N];
        let mut i: usize = 0;
        while i < N
            invariant
                i <= N,
                forall|q: int| 0 <= q < N ==> self.0@[q] > i64::MIN,
                forall|q: int| 0 <= q < i ==> out@[q] as int == -self.0@[q],
            decreases N - i,
        {
            out[i] = -self.0[i];
            i = i + 1;
        }
        let r = Vector(out);
        assert(ints64(r) =~= neg_spec(ints64(self)));
        r
    }
}

/// An `N`-column, `M`-row matrix, stored as its columns.
#[derive(Clone, Copy, Debug, PartialEq, Eq)]
pub struct Matrix<T, const N: usize, const M: usize>(pub [Vector<T, M>; N]);

impl<const N: usize> Matrix<i32, N, N> {
    /// The identity: ones on the diagonal, zeros elsewhere.
    pub fn identity() -> (r: Self)
        ensures
            forall|i: int, j: int|
                0 <= i < N && 0 <= j < N ==> #[trigger] r.0@[i].0@[j] == (if i == j { 1i32 } else { 0i32 }),
    {
        let mut cols = [Vector([0i32; N]); N];
        let mut i: usize = 0;
        while i < N
            invariant
                i <= N,
                forall|c: int, j: int|
                    0 <= c < i && 0 <= j < N ==> #[trigger] cols@[c].0@[j] == (if c == j { 1i32 } else { 0i32 }),
            decreases N - i,
        {
            let mut col = [0i32; N];
            col[i] = 1;
            cols[i] = Vector(col);
            i = i + 1;
        }
        Matrix(cols)
    }
}

} // verus!
