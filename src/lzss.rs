//! The archive's LZSS variant: a 4096-byte window, 12-bit match positions,
//! 4-bit match lengths, one flag bit per token, most significant bit first.
use vstd::prelude::*;

verus! {

/// Bits of a match position.
pub const INDEX_BITS: u8 = 12;

/// Bits of a match length.
pub const LENGTH_BITS: u8 = 4;

/// The window size.
pub const WINDOW_SIZE: usize = 4096;

/// Added to every raw match length: `(1 + 12 + 4) / 9`.
pub const BREAK_EVEN: u8 = 1;

/// Bit `i` of `d`, counting from the most significant bit of the first byte.
pub open spec fn bit_at(d: Seq<u8>, i: int) -> int {
    ((d[i / 8] >> (7 - i % 8) as u8) & 1u8) as int
}

/// The `n` bits of `d` from bit `i`, first bit most significant.
pub open spec fn bits(d: Seq<u8>, i: int, n: nat) -> int
    decreases n,
{
    if n == 0 {
        0
    } else {
        2 * bits(d, i, (n - 1) as nat) + bit_at(d, i + n - 1)
    }
}

/// `2` to the power `n`.
pub open spec fn pow2(n: nat) -> int
    decreases n,
{
    if n == 0 {
        1
    } else {
        2 * pow2((n - 1) as nat)
    }
}

proof fn lemma_pow2_pos(n: nat)
    ensures
        pow2(n) >= 1,
    decreases n,
{
    if n > 0 {
        lemma_pow2_pos((n - 1) as nat);
    }
}

proof fn lemma_pow2_le(n: nat, m: nat)
    requires
        n <= m,
    ensures
        pow2(n) <= pow2(m),
    decreases m,
{
    if n < m {
        lemma_pow2_le(n, (m - 1) as nat);
        lemma_pow2_pos((m - 1) as nat);
    }
}

proof fn lemma_pow2_16(n: nat)
    requires
        n <= 16,
    ensures
        1 <= pow2(n) <= 65536,
{
    reveal_with_fuel(pow2, 17);
    assert(pow2(16) == 65536);
    lemma_pow2_le(n, 16);
    lemma_pow2_pos(n);
}

/// Reads bits from a byte string, most significant bit of each byte first.
pub struct BitReader<'a> {
    pub data: &'a [u8],
    pub byte: usize,
    pub bit: u8,
}

impl<'a> BitReader<'a> {
    /// The position of the next bit.
    pub open spec fn pos(&self) -> int {
        8 * self.byte + self.bit
    }

    /// The bit offset within the current byte is in range.
    pub open spec fn wf(&self) -> bool {
        self.bit < 8
    }

    /// A reader at the first bit of `data`.
    pub fn new(data: &'a [u8]) -> (r: Self)
        ensures
            r.data@ == data@,
            r.pos() == 0,
            r.wf(),
    {
        BitReader { data, byte: 0, bit: 0 }
    }

    /// Reads `n` bits, first bit most significant; `None` where the data
    /// ends first.
    pub fn read_bits(&mut self, n: u8) -> (r: Option<u16>)
        requires
            old(self).wf(),
            1 <= n <= 16,
        ensures
            final(self).wf(),
            final(self).data@ == old(self).data@,
            old(self).pos() + n <= 8 * old(self).data@.len() ==> r is Some && r->Some_0 as int == bits(
                old(self).data@,
                old(self).pos(),
                n as nat,
            ) && final(self).pos() == old(self).pos() + n,
            old(self).pos() + n > 8 * old(self).data@.len() ==> r is None,
    {
        let ghost start = self.pos();
        let mut v: u32 = 0;
        let mut k: u8 = 0;
        while k < n
            invariant
                self.wf(),
                self.data@ == old(self).data@,
                start == old(self).pos(),
                k <= n <= 16,
                self.pos() == start + k,
                k > 0 ==> self.pos() <= 8 * self.data@.len(),
                v as int == bits(self.data@, start, k as nat),
                v < pow2(k as nat),
            decreases n - k,
        {
            if self.byte >= self.data.len() {
                return None;
            }
            let byte_val = self.data[self.byte];
            let sh: u8 = 7 - self.bit;
            let b = (byte_val >> sh) & 1;
            assert(self.pos() / 8 == self.byte && self.pos() % 8 == self.bit);
            assert(b as int == bit_at(self.data@, start + k));
            proof {
                lemma_pow2_16((k + 1) as nat);
            }
            assert(b <= 1) by (bit_vector)
                requires
                    b == (byte_val >> sh) & 1u8,
            ;
            v = v * 2 + b as u32;
            if self.bit == 7 {
                self.bit = 0;
                self.byte = self.byte + 1;
            } else {
                self.bit = self.bit + 1;
            }
            k = k + 1;
        }
        proof {
            lemma_pow2_16(n as nat);
        }
        Some(v as u16)
    }
}

/// Copies `n` bytes within the window, from position `from` on, to the write
/// cursor and to the output: each byte goes in the window before the next is
/// read. Gives the new window, cursor and output.
pub open spec fn copy_run(win: Seq<u8>, cur: int, from: int, n: nat, out: Seq<u8>) -> (
    Seq<u8>,
    int,
    Seq<u8>,
)
    decreases n,
{
    if n == 0 {
        (win, cur, out)
    } else {
        let r = copy_run(win, cur, from, (n - 1) as nat, out);
        let b = r.0[(from + n - 1) % 4096];
        (r.0.update(r.1, b), (r.1 + 1) % 4096, r.2.push(b))
    }
}

/// The output of decoding `d` from bit `pos`, with window `win`, write cursor
/// `cur` and output so far `out`; `None` where the data ends before the end
/// marker (a match at position zero).
pub open spec fn lzss_from(d: Seq<u8>, pos: int, win: Seq<u8>, cur: int, out: Seq<u8>) -> Option<
    Seq<u8>,
>
    decreases 8 * d.len() - pos,
{
    let total = 8 * d.len();
    if pos + 1 > total {
        None
    } else if bits(d, pos, 1) == 1 {
        if pos + 9 > total {
            None
        } else {
            let c = bits(d, pos + 1, 8) as u8;
            lzss_from(d, pos + 9, win.update(cur, c), (cur + 1) % 4096, out.push(c))
        }
    } else if pos + 13 > total {
        None
    } else if bits(d, pos + 1, 12) == 0 {
        Some(out)
    } else if pos + 17 > total {
        None
    } else {
        let r = copy_run(win, cur, bits(d, pos + 1, 12), (bits(d, pos + 13, 4) + 2) as nat, out);
        lzss_from(d, pos + 17, r.0, r.1, r.2)
    }
}

/// The output of decoding `d`: the window starts zeroed, the write cursor at 1.
pub open spec fn lzss(d: Seq<u8>) -> Option<Seq<u8>> {
    lzss_from(d, 0, Seq::new(4096, |i: int| 0u8), 1, seq![])
}

/// Decodes an LZSS stream; `None` where the data ends before the end marker.
pub fn lzss_decompress(d: &[u8]) -> (r: Option<Vec<u8>>)
    ensures
        match r {
            Some(o) => lzss(d@) == Some(o@),
            None => lzss(d@) is None,
        },
{
    let mut window: Vec<u8> = Vec::new();
    while window.len() < WINDOW_SIZE
        invariant
            window@.len() <= 4096,
            window@ == Seq::new(window@.len(), |i: int| 0u8),
        decreases 4096 - window@.len(),
    {
        window.push(0);
        assert(window@ =~= Seq::new(window@.len(), |i: int| 0u8));
    }
    assert(window@ =~= Seq::new(4096, |i: int| 0u8));
    let mut reader = BitReader::new(d);
    let mut cur: usize = 1;
    let mut out: Vec<u8> = Vec::new();
    loop
        invariant
            reader.wf(),
            reader.data@ == d@,
            0 <= reader.pos() <= 8 * d@.len(),
            window@.len() == 4096,
            cur < 4096,
            lzss(d@) == lzss_from(d@, reader.pos(), window@, cur as int, out@),
        decreases 8 * d@.len() - reader.pos(),
    {
        let ghost pos = reader.pos();
        let flag = match reader.read_bits(1) {
            Some(f) => f,
            None => return None,
        };
        if flag == 1 {
            let c = match reader.read_bits(8) {
                Some(c) => c,
                None => return None,
            };
            assert(bits(d@, pos + 1, 8) < 256) by {
                lemma_bits_bound(d@, pos + 1, 8);
                lemma_pow2_16(8);
                reveal_with_fuel(pow2, 9);
            }
            let c = c as u8;
            out.push(c);
            window.set(cur, c);
            cur = (cur + 1) % WINDOW_SIZE;
        } else {
            let match_position = match reader.read_bits(INDEX_BITS) {
                Some(m) => m,
                None => return None,
            };
            if match_position == 0 {
                return Some(out);
            }
            let raw_length = match reader.read_bits(LENGTH_BITS) {
                Some(l) => l,
                None => return None,
            };
            assert(bits(d@, pos + 13, 4) < 16) by {
                lemma_bits_bound(d@, pos + 13, 4);
                reveal_with_fuel(pow2, 5);
            }
            let match_length = raw_length as u8 + BREAK_EVEN;
            let ghost win0 = window@;
            let ghost cur0 = cur as int;
            let ghost out0 = out@;
            let mut i: u8 = 0;
            while i <= match_length
                invariant
                    match_length < 17,
                    i <= match_length + 1,
                    window@.len() == 4096,
                    cur < 4096,
                    win0.len() == 4096,
                    0 <= cur0 < 4096,
                    (window@, cur as int, out@) == copy_run(win0, cur0, match_position as int, i as nat, out0),
                decreases match_length + 1 - i,
            {
                let c = window[(match_position as usize + i as usize) % WINDOW_SIZE];
                window.set(cur, c);
                cur = (cur + 1) % WINDOW_SIZE;
                out.push(c);
                i = i + 1;
            }
        }
    }
}

proof fn lemma_bits_bound(d: Seq<u8>, i: int, n: nat)
    ensures
        0 <= bits(d, i, n) < pow2(n),
    decreases n,
{
    if n > 0 {
        lemma_bits_bound(d, i, (n - 1) as nat);
        let b = d[(i + n - 1) / 8];
        let s = (7 - (i + n - 1) % 8) as u8;
        assert((b >> s) & 1u8 <= 1) by (bit_vector);
    }
}

} // verus!
