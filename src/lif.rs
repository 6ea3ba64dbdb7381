//! The texture file format: a header, then either palette indices and a
//! 256-entry RGBA palette, or raw RGBA pixels.
use vstd::prelude::*;

use crate::geo::{ImportError, has_prefix, starts_with};
use crate::math::Vector;
use crate::model::Texture;
use crate::read::{FromRead, ReadError, fits, get_u32, le32};
use crate::texlist::{LIST_VERSION, PALETTED, TextureFlags};

verus! {

/// The number of palette entries.
pub const PALETTE_SIZE: usize = 256;

/// The magic tag of a texture file.
pub open spec fn lif_magic() -> Seq<u8> {
    seq![87u8, 105, 108, 108, 121, 32, 55, 0]
}

/// The fixed part of a texture file after its magic tag (48 bytes with it).
#[derive(Clone, Copy, Debug, PartialEq, Eq)]
pub struct Header {
    pub version: u32,
    pub flags: TextureFlags,
    pub width: u32,
    pub height: u32,
    pub palette_crc: u32,
    pub image_crc: u32,
    /// Offset of the pixel data.
    pub data: u32,
    /// Offset of the palette.
    pub palette: u32,
    /// Offsets of the palettes of the two team colour effects.
    pub team_effect: [u32; 2],
}

impl FromRead for Header {
    open spec fn width() -> nat {
        48
    }

    open spec fn decode(d: Seq<u8>, p: int) -> Header {
        Header {
            version: le32(d, p + 8) as u32,
            flags: TextureFlags(le32(d, p + 12) as u32),
            width: le32(d, p + 16) as u32,
            height: le32(d, p + 20) as u32,
            palette_crc: le32(d, p + 24) as u32,
            image_crc: le32(d, p + 28) as u32,
            data: le32(d, p + 32) as u32,
            palette: le32(d, p + 36) as u32,
            team_effect: [le32(d, p + 40) as u32, le32(d, p + 44) as u32],
        }
    }

    fn width_exec() -> (n: usize) {
        48
    }

    fn from_read(d: &[u8], p: usize) -> (r: Result<Header, ReadError>) {
        if p > d.len() || d.len() - p < 48 {
            return Err(ReadError::UnexpectedEof);
        }
        let team_effect = [get_u32(d, p + 40).unwrap(), get_u32(d, p + 44).unwrap()];
        let r = Header {
            version: get_u32(d, p + 8).unwrap(),
            flags: TextureFlags(get_u32(d, p + 12).unwrap()),
            width: get_u32(d, p + 16).unwrap(),
            height: get_u32(d, p + 20).unwrap(),
            palette_crc: get_u32(d, p + 24).unwrap(),
            image_crc: get_u32(d, p + 28).unwrap(),
            data: get_u32(d, p + 32).unwrap(),
            palette: get_u32(d, p + 36).unwrap(),
            team_effect,
        };
        assert(r == Header::decode(d@, p as int));
        Ok(r)
    }
}

/// The image width.
pub open spec fn lif_width(d: Seq<u8>) -> int {
    le32(d, 16)
}

/// The image height.
pub open spec fn lif_height(d: Seq<u8>) -> int {
    le32(d, 20)
}

/// The offset of the pixel data.
pub open spec fn lif_data(d: Seq<u8>) -> int {
    le32(d, 32)
}

/// The offset of the palette.
pub open spec fn lif_palette(d: Seq<u8>) -> int {
    le32(d, 36)
}

/// Whether the image indexes a palette.
pub open spec fn lif_paletted(d: Seq<u8>) -> bool {
    (le32(d, 12) as u32) & PALETTED == PALETTED
}

/// Whether a texture file decodes.
pub open spec fn lif_ok(d: Seq<u8>) -> bool {
    &&& fits(d, 0, 48)
    &&& starts_with(d, lif_magic())
    &&& le32(d, 8) == LIST_VERSION
    &&& lif_width(d) * lif_height(d) <= u32::MAX
    &&& if lif_paletted(d) {
        fits(d, lif_data(d), lif_width(d) * lif_height(d)) && fits(d, lif_palette(d), 1024)
    } else {
        fits(d, lif_data(d), 4 * lif_width(d) * lif_height(d))
    }
}

/// The four bytes at `p`.
pub open spec fn rgba_at(d: Seq<u8>, p: int) -> Seq<u8> {
    d.subrange(p, p + 4)
}

/// Pixel `i` of a texture file: its palette entry, or its own four bytes.
pub open spec fn lif_pixel(d: Seq<u8>, i: int) -> Seq<u8> {
    if lif_paletted(d) {
        rgba_at(d, lif_palette(d) + 4 * d[lif_data(d) + i])
    } else {
        rgba_at(d, lif_data(d) + 4 * i)
    }
}

/// `t` is the image that the texture file `d` holds.
pub open spec fn is_texture_of(d: Seq<u8>, t: Texture) -> bool {
    &&& t.size.0@ == seq![lif_width(d) as u32, lif_height(d) as u32]
    &&& t.rgba@.len() == lif_width(d) * lif_height(d)
    &&& forall|i: int| 0 <= i < t.rgba@.len() ==> (#[trigger] t.rgba@[i])@ == lif_pixel(d, i)
}

fn rgba(d: &[u8], p: usize) -> (r: [u8; 4])
    requires
        p + 4 <= d@.len(),
    ensures
        r@ == rgba_at(d@, p as int),
{
    let r = [d[p], d[p + 1], d[p + 2], d[p + 3]];
    assert(r@ =~= rgba_at(d@, p as int));
    r
}

/// Decodes a texture file into RGBA pixels.
pub fn decode_lif(d: &[u8]) -> (r: Result<Texture, ImportError>)
    ensures
        r is Ok <==> lif_ok(d@),
        r is Ok ==> is_texture_of(d@, r->Ok_0),
{
    let header = match Header::from_read(d, 0) {
        Ok(h) => h,
        Err(e) => return Err(ImportError::from_read(e)),
    };
    let magic: [u8; 8] = [87u8, 105, 108, 108, 121, 32, 55, 0];
    assert(magic@ == lif_magic());
    if !has_prefix(d, magic.as_slice()) {
        return Err(ImportError::BadMagic);
    }
    if header.version != LIST_VERSION {
        return Err(ImportError::BadVersion);
    }
    let flags = header.flags;
    let w = header.width;
    let h = header.height;
    let data = header.data as usize;
    let palette = header.palette as usize;
    assert(w as u64 * h as u64 <= u64::MAX) by (nonlinear_arith)
        requires
            w <= u32::MAX,
            h <= u32::MAX,
    ;
    if w as u64 * h as u64 > u32::MAX as u64 {
        return Err(ImportError::CountOverflow);
    }
    let n = (w * h) as usize;
    assert(4 * lif_width(d@) * lif_height(d@) == 4 * n) by (nonlinear_arith)
        requires
            n == lif_width(d@) * lif_height(d@),
    ;
    let len = d.len();
    let paletted = flags.contains(TextureFlags(PALETTED));
    if paletted {
        if data > d.len() || n > d.len() - data || palette > d.len() || 1024 > d.len() - palette {
            return Err(ImportError::UnexpectedEof);
        }
    } else {
        if data > d.len() || n as u64 * 4 > (d.len() - data) as u64 {
            return Err(ImportError::UnexpectedEof);
        }
    }
    let mut pixels: Vec<[u8; 4]> = Vec::new();
    let mut i: usize = 0;
    while i < n
        invariant
            i <= n,
            n == lif_width(d@) * lif_height(d@),
            lif_ok(d@),
            paletted == lif_paletted(d@),
            data == lif_data(d@),
            palette == lif_palette(d@),
            pixels@.len() == i,
            d@.len() == len,
            4 * lif_width(d@) * lif_height(d@) == 4 * n,
            forall|q: int| 0 <= q < i ==> (#[trigger] pixels@[q])@ == lif_pixel(d@, q),
        decreases n - i,
    {
        let px = if paletted {
            let idx = d[data + i] as usize;
            rgba(d, palette + 4 * idx)
        } else {
            assert(data + 4 * i + 4 <= data + 4 * n) by (nonlinear_arith)
                requires
                    i < n,
            ;
            rgba(d, data + 4 * i)
        };
        pixels.push(px);
        i = i + 1;
    }
    Ok(Texture { size: Vector::<u32, 2>::new(w, h), rgba: pixels })
}

} // verus!
