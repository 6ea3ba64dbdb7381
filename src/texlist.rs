//! The texture list: the size and flags of every known texture, and which
//! textures are shared from (aliases of) another.
use vstd::prelude::*;

use crate::geo::{ImportError, has_prefix, starts_with};
use crate::model::copy_bytes;
use crate::read::{FromRead, ReadError, cstr_at, decode_seq, fits, get_cstr, get_u32, get_vec_at, le32};

verus! {

/// The only supported texture list and texture version.
pub const LIST_VERSION: u32 = 0x104;

/// Texture flag: the image indexes a palette.
pub const PALETTED: u32 = 0x02;

/// Texture flag: the image has an alpha channel.
pub const ALPHA: u32 = 0x08;

/// Texture flags: the image takes one of the two team colours.
pub const TEAM_COLOUR: u32 = 0x30;

/// The flags of a texture.
#[derive(Clone, Copy, Debug, PartialEq, Eq)]
pub struct TextureFlags(pub u32);

impl TextureFlags {
    /// Whether every flag of `other` is set.
    pub fn contains(self, other: TextureFlags) -> (r: bool)
        ensures
            r == (self.0 & other.0 == other.0),
    {
        self.0 & other.0 == other.0
    }

    /// Whether some flag of `other` is set.
    pub fn intersects(self, other: TextureFlags) -> (r: bool)
        ensures
            r == (self.0 & other.0 != 0),
    {
        self.0 & other.0 != 0
    }
}

/// ASCII lower case of one byte.
pub open spec fn lower_byte(b: u8) -> u8 {
    if 65 <= b <= 90 {
        (b + 32) as u8
    } else {
        b
    }
}

/// ASCII lower case of a byte string.
pub open spec fn lower(s: Seq<u8>) -> Seq<u8> {
    s.map_values(|b: u8| lower_byte(b))
}

/// Lower-cases the ASCII letters of a byte string.
pub fn to_lower(s: &[u8]) -> (r: Vec<u8>)
    ensures
        r@ == lower(s@),
{
    let mut r: Vec<u8> = Vec::new();
    let mut i: usize = 0;
    while i < s.len()
        invariant
            i <= s@.len(),
            r@ == lower(s@.subrange(0, i as int)),
        decreases s@.len() - i,
    {
        let b = s[i];
        r.push(if b >= 65 && b <= 90 { b + 32 } else { b });
        i = i + 1;
        assert(lower(s@.subrange(0, i as int)) == lower(s@.subrange(0, i - 1)).push(lower_byte(s@[i - 1])));
    }
    assert(s@.subrange(0, i as int) == s@);
    r
}

/// The fixed part of a texture list after its magic tag (28 bytes with it).
#[derive(Clone, Copy, Debug, PartialEq, Eq)]
pub struct ListHeader {
    pub version: u32,
    pub n_elements: u32,
    pub string_length: u32,
    pub sharing_length: u32,
    pub total_length: u32,
}

impl FromRead for ListHeader {
    open spec fn width() -> nat {
        28
    }

    open spec fn decode(d: Seq<u8>, p: int) -> ListHeader {
        ListHeader {
            version: le32(d, p + 8) as u32,
            n_elements: le32(d, p + 12) as u32,
            string_length: le32(d, p + 16) as u32,
            sharing_length: le32(d, p + 20) as u32,
            total_length: le32(d, p + 24) as u32,
        }
    }

    fn width_exec() -> (n: usize) {
        28
    }

    fn from_read(d: &[u8], p: usize) -> (r: Result<ListHeader, ReadError>) {
        if p > d.len() || d.len() - p < 28 {
            return Err(ReadError::UnexpectedEof);
        }
        Ok(
            ListHeader {
                version: get_u32(d, p + 8).unwrap(),
                n_elements: get_u32(d, p + 12).unwrap(),
                string_length: get_u32(d, p + 16).unwrap(),
                sharing_length: get_u32(d, p + 20).unwrap(),
                total_length: get_u32(d, p + 24).unwrap(),
            },
        )
    }
}

/// A texture list record (32 bytes).
#[derive(Clone, Copy, Debug, PartialEq, Eq)]
pub struct ListElement {
    /// Offset of the name from the start of the string block.
    pub name: u32,
    pub width: u32,
    pub height: u32,
    pub flags: TextureFlags,
    /// The entry this one is shared from, or `u32::MAX` for none.
    pub shared_from: u32,
}

impl FromRead for ListElement {
    open spec fn width() -> nat {
        32
    }

    open spec fn decode(d: Seq<u8>, p: int) -> ListElement {
        ListElement {
            name: le32(d, p) as u32,
            width: le32(d, p + 4) as u32,
            height: le32(d, p + 8) as u32,
            flags: TextureFlags(le32(d, p + 12) as u32),
            shared_from: le32(d, p + 28) as u32,
        }
    }

    fn width_exec() -> (n: usize) {
        32
    }

    fn from_read(d: &[u8], p: usize) -> (r: Result<ListElement, ReadError>) {
        if p > d.len() || d.len() - p < 32 {
            return Err(ReadError::UnexpectedEof);
        }
        Ok(
            ListElement {
                name: get_u32(d, p).unwrap(),
                width: get_u32(d, p + 4).unwrap(),
                height: get_u32(d, p + 8).unwrap(),
                flags: TextureFlags(get_u32(d, p + 12).unwrap()),
                shared_from: get_u32(d, p + 28).unwrap(),
            },
        )
    }
}

/// What the renderer needs to know of a texture, and the name of the image
/// that holds its pixels.
#[derive(Clone, Debug)]
pub struct TextureMeta {
    pub name: Vec<u8>,
    pub width: u32,
    pub height: u32,
    pub palette: bool,
    pub alpha: bool,
    pub team_colour: bool,
}

/// A listed texture under its lower-cased name.
#[derive(Clone, Debug)]
pub struct ListedTexture {
    pub key: Vec<u8>,
    pub meta: TextureMeta,
}

/// A texture list entry, seen from a specification: key, true name, width,
/// height, and the paletted, alpha and team-colour flags.
pub type ListedView = (Seq<u8>, Seq<u8>, u32, u32, bool, bool, bool);

impl ListedTexture {
    pub open spec fn view(&self) -> ListedView {
        (
            self.key@,
            self.meta.name@,
            self.meta.width,
            self.meta.height,
            self.meta.palette,
            self.meta.alpha,
            self.meta.team_colour,
        )
    }
}

/// Whether entry `k` may be shared from the entry it names: that entry
/// exists, has the same size and at least the same flags.
pub open spec fn share_ok(e: Seq<ListElement>, k: int) -> bool {
    let s = e[k].shared_from;
    s == u32::MAX || (s < e.len() && e[s as int].width == e[k].width && e[s as int].height
        == e[k].height && e[s as int].flags.0 & e[k].flags.0 == e[k].flags.0)
}

/// The entry that record `k` (with a non-empty name) becomes.
pub open spec fn listed_entry(e: Seq<ListElement>, names: Seq<Seq<u8>>, k: int) -> ListedView {
    let s = e[k].shared_from;
    (
        lower(names[k]),
        if s == u32::MAX { names[k] } else { names[s as int] },
        e[k].width,
        e[k].height,
        e[k].flags.0 & PALETTED == PALETTED,
        e[k].flags.0 & ALPHA == ALPHA,
        e[k].flags.0 & TEAM_COLOUR != 0,
    )
}

/// The entries that the first `n` records become: one for each record with a
/// non-empty name, in order.
pub open spec fn listed(e: Seq<ListElement>, names: Seq<Seq<u8>>, n: int) -> Seq<ListedView>
    decreases n,
{
    if n <= 0 {
        seq![]
    } else {
        let prev = listed(e, names, n - 1);
        if names[n - 1].len() == 0 {
            prev
        } else {
            prev.push(listed_entry(e, names, n - 1))
        }
    }
}

/// Whether every record with a non-empty name among the first `n` may be
/// shared as it says.
pub open spec fn shares_ok(e: Seq<ListElement>, names: Seq<Seq<u8>>, n: int) -> bool {
    forall|k: int| 0 <= k < n && names[k].len() > 0 ==> #[trigger] share_ok(e, k)
}

/// The view of a list of entries.
pub open spec fn listed_views(l: Seq<ListedTexture>) -> Seq<ListedView> {
    l.map_values(|t: ListedTexture| t.view())
}

/// Builds the texture metadata from the list's records and their names.
pub fn build_texture_list(elems: &Vec<ListElement>, names: &Vec<Vec<u8>>) -> (r: Result<
    Vec<ListedTexture>,
    ImportError,
>)
    requires
        names@.len() == elems@.len(),
    ensures
        r is Ok <==> shares_ok(elems@, names@.map_values(|n: Vec<u8>| n@), elems@.len() as int),
        r is Ok ==> listed_views(r->Ok_0@) == listed(
            elems@,
            names@.map_values(|n: Vec<u8>| n@),
            elems@.len() as int,
        ),
        r is Err ==> r->Err_0 == ImportError::BadSharedTexture,
{
    let ghost nv = names@.map_values(|n: Vec<u8>| n@);
    let mut out: Vec<ListedTexture> = Vec::new();
    let mut k: usize = 0;
    while k < elems.len()
        invariant
            k <= elems@.len(),
            names@.len() == elems@.len(),
            nv == names@.map_values(|n: Vec<u8>| n@),
            shares_ok(elems@, nv, k as int),
            listed_views(out@) == listed(elems@, nv, k as int),
        decreases elems@.len() - k,
    {
        let l = elems[k];
        assert(nv[k as int] == names@[k as int]@);
        if names[k].len() > 0 {
            let s = l.shared_from;
            let true_name = if s == u32::MAX {
                copy_bytes(names[k].as_slice())
            } else {
                if s as usize >= elems.len() {
                    assert(!share_ok(elems@, k as int));
                    return Err(ImportError::BadSharedTexture);
                }
                let sh = elems[s as usize];
                if sh.width != l.width || sh.height != l.height || !sh.flags.contains(l.flags) {
                    assert(!share_ok(elems@, k as int));
                    return Err(ImportError::BadSharedTexture);
                }
                assert(nv[s as int] == names@[s as int]@);
                copy_bytes(names[s as usize].as_slice())
            };
            let t = ListedTexture {
                key: to_lower(names[k].as_slice()),
                meta: TextureMeta {
                    name: true_name,
                    width: l.width,
                    height: l.height,
                    palette: l.flags.contains(TextureFlags(PALETTED)),
                    alpha: l.flags.contains(TextureFlags(ALPHA)),
                    team_colour: l.flags.intersects(TextureFlags(TEAM_COLOUR)),
                },
            };
            let ghost prev = out@;
            out.push(t);
            assert(listed_views(out@) =~= listed_views(prev).push(t.view()));
        }
        k = k + 1;
    }
    Ok(out)
}

/// The magic tag of a texture list.
pub open spec fn list_magic() -> Seq<u8> {
    seq![69u8, 118, 101, 110, 116, 49, 51, 0]
}

/// Where the string block of a list of `n` records starts.
pub open spec fn strings_offset(n: int) -> int {
    28 + 32 * n
}

/// The record count of a texture list.
pub open spec fn list_count(d: Seq<u8>) -> int {
    le32(d, 12)
}

/// The records of a texture list.
pub open spec fn list_elements(d: Seq<u8>) -> Seq<ListElement> {
    decode_seq::<ListElement>(d, 28, list_count(d))
}

/// The name of each record, from the string block.
pub open spec fn list_names(d: Seq<u8>) -> Seq<Seq<u8>> {
    Seq::new(
        list_count(d) as nat,
        |k: int| cstr_at(d, strings_offset(list_count(d)) + list_elements(d)[k].name)->Some_0,
    )
}

/// Whether a texture list decodes and its sharing is consistent.
pub open spec fn list_ok(d: Seq<u8>) -> bool {
    &&& fits(d, 0, 28)
    &&& starts_with(d, list_magic())
    &&& le32(d, 8) == LIST_VERSION
    &&& strings_offset(list_count(d)) <= u32::MAX
    &&& fits(d, 28, list_count(d) * 32)
    &&& forall|k: int|
        0 <= k < list_count(d) ==> #[trigger] cstr_at(
            d,
            strings_offset(list_count(d)) + list_elements(d)[k].name,
        ) is Some
    &&& shares_ok(list_elements(d), list_names(d), list_count(d))
}

/// Decodes a texture list into its entries.
pub fn parse_texture_list(d: &[u8]) -> (r: Result<Vec<ListedTexture>, ImportError>)
    ensures
        r is Ok <==> list_ok(d@),
        r is Ok ==> listed_views(r->Ok_0@) == listed(list_elements(d@), list_names(d@), list_count(d@)),
{
    let header = match ListHeader::from_read(d, 0) {
        Ok(h) => h,
        Err(e) => return Err(ImportError::from_read(e)),
    };
    let magic: [u8; 8] = [69u8, 118, 101, 110, 116, 49, 51, 0];
    assert(magic@ == list_magic());
    if !has_prefix(d, magic.as_slice()) {
        return Err(ImportError::BadMagic);
    }
    if header.version != LIST_VERSION {
        return Err(ImportError::BadVersion);
    }
    let n = header.n_elements;
    if n > (u32::MAX - 28) / 32 {
        return Err(ImportError::CountOverflow);
    }
    let strings: u32 = 28 + 32 * n;
    let elems = match get_vec_at::<ListElement>(d, 28, n) {
        Ok(v) => v,
        Err(e) => return Err(ImportError::from_read(e)),
    };
    assert(elems@ == list_elements(d@));
    let mut names: Vec<Vec<u8>> = Vec::new();
    let mut k: usize = 0;
    while k < elems.len()
        invariant
            k <= elems@.len(),
            elems@ == list_elements(d@),
            elems@.len() == n,
            n == list_count(d@),
            strings == strings_offset(n as int),
            names@.len() == k,
            forall|q: int| 0 <= q < k ==> #[trigger] cstr_at(d@, strings + elems@[q].name) == Some(names@[q]@),
        decreases elems@.len() - k,
    {
        let at: u64 = strings as u64 + elems[k].name as u64;
        if at >= d.len() as u64 {
            assert(cstr_at(d@, strings + elems@[k as int].name) is None);
            return Err(ImportError::UnexpectedEof);
        }
        match get_cstr(d, at as usize) {
            Ok(s) => names.push(s),
            Err(e) => return Err(ImportError::from_read(e)),
        }
        k = k + 1;
    }
    assert(names@.map_values(|n: Vec<u8>| n@) =~= list_names(d@));
    build_texture_list(&elems, &names)
}

/// The index of the last entry with key `k`, if any.
pub open spec fn last_match(v: Seq<ListedView>, k: Seq<u8>) -> Option<int>
    decreases v.len(),
{
    if v.len() == 0 {
        None
    } else if v.last().0 == k {
        Some(v.len() - 1)
    } else {
        last_match(v.drop_last(), k)
    }
}

/// Finds the entry listed under `key`; where several are, the last one.
pub fn find_texture(list: &Vec<ListedTexture>, key: &[u8]) -> (r: Option<usize>)
    ensures
        match r {
            Some(i) => i < list@.len() && last_match(listed_views(list@), key@) == Some(i as int),
            None => last_match(listed_views(list@), key@) is None,
        },
{
    let mut i: usize = list.len();
    assert(list@.take(i as int) == list@);
    while i > 0
        invariant
            i <= list@.len(),
            last_match(listed_views(list@), key@) == last_match(
                listed_views(list@.take(i as int)),
                key@,
            ),
        decreases i,
    {
        assert(listed_views(list@.take(i as int)).drop_last() == listed_views(list@.take(i - 1)));
        if crate::model::bytes_eq(list[i - 1].key.as_slice(), key) {
            return Some(i - 1);
        }
        i = i - 1;
    }
    None
}

} // verus!
