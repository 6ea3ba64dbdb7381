//! Little-endian decoding of fixed-layout values from a byte buffer.
use vstd::prelude::*;

verus! {

/// Why a value could not be decoded.
#[derive(Debug, Clone, Copy, PartialEq, Eq)]
pub enum ReadError {
    /// The buffer ended before the value was complete.
    UnexpectedEof,
}

/// The unsigned value of two bytes at `p`, least significant first.
pub open spec fn le16(d: Seq<u8>, p: int) -> int {
    d[p] as int + d[p + 1] as int * 256
}

/// The unsigned value of four bytes at `p`, least significant first.
pub open spec fn le32(d: Seq<u8>, p: int) -> int {
    le16(d, p) + le16(d, p + 2) * 65536
}

/// Whether `n` bytes starting at `p` lie inside `d`.
pub open spec fn fits(d: Seq<u8>, p: int, n: int) -> bool {
    0 <= p && p + n <= d.len()
}

/// Decodes a byte at absolute offset `p`.
pub fn get_u8(d: &[u8], p: usize) -> (r: Result<u8, ReadError>)
    ensures
        fits(d@, p as int, 1) ==> r == Ok::<u8, ReadError>(d@[p as int]),
        !fits(d@, p as int, 1) ==> r == Err::<u8, ReadError>(ReadError::UnexpectedEof),
{
    if p < d.len() {
        Ok(d[p])
    } else {
        Err(ReadError::UnexpectedEof)
    }
}

/// Decodes a little-endian `u16` at absolute offset `p`.
pub fn get_u16(d: &[u8], p: usize) -> (r: Result<u16, ReadError>)
    ensures
        fits(d@, p as int, 2) ==> r is Ok && r->Ok_0 as int == le16(d@, p as int),
        !fits(d@, p as int, 2) ==> r == Err::<u16, ReadError>(ReadError::UnexpectedEof),
{
    if p < d.len() && d.len() - p >= 2 {
        Ok(d[p] as u16 + d[p + 1] as u16 * 256)
    } else {
        Err(ReadError::UnexpectedEof)
    }
}

/// Decodes a little-endian `u32` at absolute offset `p`.
pub fn get_u32(d: &[u8], p: usize) -> (r: Result<u32, ReadError>)
    ensures
        fits(d@, p as int, 4) ==> r is Ok && r->Ok_0 as int == le32(d@, p as int),
        !fits(d@, p as int, 4) ==> r == Err::<u32, ReadError>(ReadError::UnexpectedEof),
{
    if p < d.len() && d.len() - p >= 4 {
        Ok(d[p] as u32 + d[p + 1] as u32 * 256 + d[p + 2] as u32 * 65536 + d[p + 3] as u32
            * 16777216)
    } else {
        Err(ReadError::UnexpectedEof)
    }
}

/// Decodes a little-endian two's-complement `i32` at absolute offset `p`.
pub fn get_i32(d: &[u8], p: usize) -> (r: Result<i32, ReadError>)
    ensures
        fits(d@, p as int, 4) ==> r is Ok && r->Ok_0 == (le32(d@, p as int) as u32) as i32,
        !fits(d@, p as int, 4) ==> r == Err::<i32, ReadError>(ReadError::UnexpectedEof),
{
    match get_u32(d, p) {
        Ok(v) => Ok(v as i32),
        Err(e) => Err(e),
    }
}

/// The offset of the first zero byte at or after `p`, if there is one.
pub open spec fn zero_from(d: Seq<u8>, p: int) -> Option<int>
    decreases d.len() - p,
{
    if p < 0 || p >= d.len() {
        None
    } else if d[p] == 0 {
        Some(p)
    } else {
        zero_from(d, p + 1)
    }
}

/// The zero-terminated string at `p`, without its terminator.
pub open spec fn cstr_at(d: Seq<u8>, p: int) -> Option<Seq<u8>> {
    match zero_from(d, p) {
        Some(z) => Some(d.subrange(p, z)),
        None => None,
    }
}

/// Decodes a zero-terminated byte string at absolute offset `p`; the result
/// leaves out the terminator. A buffer that ends first is an error.
pub fn get_cstr(d: &[u8], p: usize) -> (r: Result<Vec<u8>, ReadError>)
    ensures
        match r {
            Ok(s) => cstr_at(d@, p as int) == Some(s@),
            Err(e) => e == ReadError::UnexpectedEof && cstr_at(d@, p as int) is None,
        },
{
    let mut s: Vec<u8> = Vec::new();
    let mut i: usize = p;
    if p >= d.len() {
        return Err(ReadError::UnexpectedEof);
    }
    while i < d.len()
        invariant
            p <= i <= d@.len(),
            s@ == d@.subrange(p as int, i as int),
            zero_from(d@, p as int) == zero_from(d@, i as int),
        decreases d@.len() - i,
    {
        if d[i] == 0 {
            return Ok(s);
        }
        s.push(d[i]);
        i = i + 1;
        assert(s@ == d@.subrange(p as int, i as int));
    }
    Err(ReadError::UnexpectedEof)
}

/// A value of fixed width that decodes from bytes at an absolute offset.
pub trait FromRead: Sized {
    /// The number of bytes a value takes.
    spec fn width() -> nat;

    /// The value that the `width()` bytes at `p` encode.
    spec fn decode(d: Seq<u8>, p: int) -> Self;

    fn width_exec() -> (n: usize)
        ensures
            n == Self::width(),
            0 < n <= 4096,
    ;

    fn from_read(d: &[u8], p: usize) -> (r: Result<Self, ReadError>)
        ensures
            fits(d@, p as int, Self::width() as int) ==> r == Ok::<Self, ReadError>(
                Self::decode(d@, p as int),
            ),
            !fits(d@, p as int, Self::width() as int) ==> r == Err::<Self, ReadError>(
                ReadError::UnexpectedEof,
            ),
    ;
}

/// The `n` values laid out one after the other from `p`.
pub open spec fn decode_seq<T: FromRead>(d: Seq<u8>, p: int, n: int) -> Seq<T> {
    Seq::new(n as nat, |k: int| T::decode(d, p + k * T::width()))
}

/// Decodes `n` consecutive values starting at absolute offset `p`.
pub fn get_vec_at<T: FromRead>(d: &[u8], p: usize, n: u32) -> (r: Result<Vec<T>, ReadError>)
    ensures
        fits(d@, p as int, n * T::width()) ==> r is Ok && r->Ok_0@ == decode_seq::<T>(
            d@,
            p as int,
            n as int,
        ),
        !fits(d@, p as int, n * T::width()) ==> r == Err::<Vec<T>, ReadError>(
            ReadError::UnexpectedEof,
        ),
{
    let w = T::width_exec();
    assert(n as u64 * w as u64 <= 0x1000_0000_0000) by (nonlinear_arith)
        requires
            n <= u32::MAX,
            w <= 4096,
    ;
    let total: u64 = n as u64 * w as u64;
    let len = d.len();
    if p as u64 > d.len() as u64 || total > d.len() as u64 - p as u64 {
        return Err(ReadError::UnexpectedEof);
    }
    let mut v: Vec<T> = Vec::new();
    let mut k: u32 = 0;
    let mut q: usize = p;
    while k < n
        invariant
            w == T::width(),
            0 < w <= 4096,
            k <= n,
            q == p + k * w,
            p + n * w <= d@.len(),
            d@.len() == len,
            v@ == decode_seq::<T>(d@, p as int, k as int),
        decreases n - k,
    {
        proof {
            assert(q + w <= p + n * w) by (nonlinear_arith)
                requires
                    q == p + k * w,
                    k < n,
            ;
        }
        let x = T::from_read(d, q);
        match x {
            Ok(x) => {
                v.push(x);
            },
            Err(_) => {
                return Err(ReadError::UnexpectedEof);
            },
        }
        proof {
            assert(q + w == p + (k + 1) * w) by (nonlinear_arith)
                requires
                    q == p + k * w,
            ;
        }
        q = q + w;
        k = k + 1;
        assert(v@ =~= decode_seq::<T>(d@, p as int, k as int));
    }
    Ok(v)
}

} // verus!
