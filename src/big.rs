//! The archive container: a table of contents of named, optionally
//! compressed entries, and layered archives that are searched in order.
use vstd::prelude::*;

use crate::cipher::{NAME_SEED, decrypt, decrypt_name};
use crate::geo::{ImportError, has_prefix, starts_with};
use crate::lzss::{lzss, lzss_decompress};
use crate::model::bytes_eq;
use crate::read::{FromRead, ReadError, decode_seq, fits, get_u16, get_u32, get_u8, get_vec_at, le16, le32};
use crate::texlist::{lower, to_lower};

verus! {

/// Where the table of contents starts: after the 7-byte magic, the entry
/// count and the flags.
pub const TOC_START: usize = 15;

/// A table-of-contents record (32 bytes).
#[derive(Clone, Copy, Debug, PartialEq, Eq)]
pub struct TocEntry {
    pub name_length: u16,
    pub stored_length: u32,
    pub real_length: u32,
    pub offset: u32,
    pub compression_type: u8,
}

impl FromRead for TocEntry {
    open spec fn width() -> nat {
        32
    }

    open spec fn decode(d: Seq<u8>, p: int) -> TocEntry {
        TocEntry {
            name_length: le16(d, p + 8) as u16,
            stored_length: le32(d, p + 12) as u32,
            real_length: le32(d, p + 16) as u32,
            offset: le32(d, p + 20) as u32,
            compression_type: d[p + 28],
        }
    }

    fn width_exec() -> (n: usize) {
        32
    }

    fn from_read(d: &[u8], p: usize) -> (r: Result<TocEntry, ReadError>) {
        if p > d.len() || d.len() - p < 32 {
            return Err(ReadError::UnexpectedEof);
        }
        Ok(
            TocEntry {
                name_length: get_u16(d, p + 8).unwrap(),
                stored_length: get_u32(d, p + 12).unwrap(),
                real_length: get_u32(d, p + 16).unwrap(),
                offset: get_u32(d, p + 20).unwrap(),
                compression_type: get_u8(d, p + 28).unwrap(),
            },
        )
    }
}

/// Where an entry's payload lies and how it is stored.
#[derive(Clone, Copy, Debug, PartialEq, Eq)]
pub struct FileEntry {
    pub stored_length: u32,
    pub real_length: u32,
    pub offset: u32,
    pub compressed: bool,
}

/// An entry under its normalised name.
#[derive(Clone, Debug)]
pub struct NamedEntry {
    pub name: Vec<u8>,
    pub entry: FileEntry,
}

/// An archive held in memory, with its table of contents.
pub struct BigFile {
    pub data: Vec<u8>,
    pub toc: Vec<NamedEntry>,
}

/// The magic tag of an archive.
pub open spec fn big_magic() -> Seq<u8> {
    seq![82u8, 66, 70, 49, 46, 50, 51]
}

/// A stored name made fit for lookup: ASCII letters lower-cased (bytes
/// outside ASCII are kept as they are), backslashes turned into slashes.
/// Names are compared case-insensitively for ASCII letters only.
pub open spec fn normalise(s: Seq<u8>) -> Seq<u8> {
    lower(s).map_values(|b: u8| if b == 92 { 47u8 } else { b })
}

/// The number of entries of an archive.
pub open spec fn toc_count(d: Seq<u8>) -> int {
    (le32(d, 7) as u32) as i32 as int
}

/// The table-of-contents records of an archive.
pub open spec fn toc_records(d: Seq<u8>) -> Seq<TocEntry> {
    decode_seq::<TocEntry>(d, TOC_START as int, toc_count(d))
}

/// Whether record `e` is well-formed: its name lies in the archive, its
/// compression type is known, a stored entry is as long as its contents, and
/// its payload offset does not overflow.
pub open spec fn record_ok(d: Seq<u8>, e: TocEntry) -> bool {
    &&& fits(d, e.offset as int, e.name_length as int)
    &&& (e.compression_type == 0 || e.compression_type == 1)
    &&& (e.compression_type == 1 || e.real_length == e.stored_length)
    &&& e.offset + e.name_length + 1 <= u32::MAX
}

/// Whether an archive's table of contents decodes.
pub open spec fn toc_ok(d: Seq<u8>) -> bool {
    &&& fits(d, 0, TOC_START as int)
    &&& starts_with(d, big_magic())
    &&& toc_count(d) >= 0
    &&& fits(d, TOC_START as int, toc_count(d) * 32)
    &&& forall|k: int| 0 <= k < toc_count(d) ==> #[trigger] record_ok(d, toc_records(d)[k])
}

/// The lookup name of the entry that record `e` describes.
pub open spec fn entry_name(d: Seq<u8>, e: TocEntry) -> Seq<u8> {
    normalise(decrypt(d.subrange(e.offset as int, e.offset + e.name_length), NAME_SEED))
}

/// The entry that record `e` describes.
pub open spec fn entry_of(e: TocEntry) -> FileEntry {
    FileEntry {
        stored_length: e.stored_length,
        real_length: e.real_length,
        offset: (e.offset + e.name_length + 1) as u32,
        compressed: e.compression_type != 0,
    }
}

/// Whether `toc` lists the records of `d`, one for one and in order.
pub open spec fn toc_at(d: Seq<u8>, toc: Seq<NamedEntry>) -> bool {
    &&& toc.len() == toc_count(d)
    &&& forall|k: int|
        0 <= k < toc.len() ==> (#[trigger] toc[k]).name@ == entry_name(d, toc_records(d)[k])
            && toc[k].entry == entry_of(toc_records(d)[k])
}

/// Normalises a stored name.
fn normalise_name(s: &[u8]) -> (r: Vec<u8>)
    ensures
        r@ == normalise(s@),
{
    let l = to_lower(s);
    let mut r: Vec<u8> = Vec::new();
    let mut i: usize = 0;
    while i < l.len()
        invariant
            i <= l@.len(),
            r@ == l@.subrange(0, i as int).map_values(|b: u8| if b == 92 { 47u8 } else { b }),
        decreases l@.len() - i,
    {
        let b = l[i];
        r.push(if b == 92 { 47 } else { b });
        i = i + 1;
        assert(l@.subrange(0, i as int).map_values(|b: u8| if b == 92 { 47u8 } else { b })
            =~= l@.subrange(0, i - 1).map_values(|b: u8| if b == 92 { 47u8 } else { b }).push(
            if b == 92 { 47u8 } else { b }));
    }
    assert(l@.subrange(0, i as int) == l@);
    r
}

/// Copies `n` bytes of `d` from `p`.
fn copy_range(d: &[u8], p: usize, n: usize) -> (r: Vec<u8>)
    requires
        p + n <= d@.len(),
    ensures
        r@ == d@.subrange(p as int, p + n),
{
    let mut r: Vec<u8> = Vec::new();
    let mut i: usize = 0;
    let len = d.len();
    while i < n
        invariant
            i <= n,
            d@.len() == len,
            p + n <= d@.len(),
            r@ == d@.subrange(p as int, p + i),
        decreases n - i,
    {
        r.push(d[p + i]);
        i = i + 1;
        assert(r@ =~= d@.subrange(p as int, p + i));
    }
    r
}

impl BigFile {
    /// Reads the table of contents of an archive held in `data`.
    pub fn load(data: Vec<u8>) -> (r: Result<BigFile, ImportError>)
        ensures
            r is Ok <==> toc_ok(data@),
            r is Ok ==> r->Ok_0.data@ == data@ && toc_at(data@, r->Ok_0.toc@),
    {
        let d = data.as_slice();
        if d.len() < TOC_START {
            return Err(ImportError::UnexpectedEof);
        }
        let magic: [u8; 7] = [82u8, 66, 70, 49, 46, 50, 51];
        assert(magic@ == big_magic());
        if !has_prefix(d, magic.as_slice()) {
            return Err(ImportError::BadMagic);
        }
        let count = get_u32(d, 7).unwrap() as i32;
        if count < 0 {
            return Err(ImportError::BadArchive);
        }
        let records = match get_vec_at::<TocEntry>(d, TOC_START, count as u32) {
            Ok(v) => v,
            Err(e) => return Err(ImportError::from_read(e)),
        };
        assert(records@ == toc_records(d@));
        let mut toc: Vec<NamedEntry> = Vec::new();
        let mut k: usize = 0;
        while k < records.len()
            invariant
                k <= records@.len(),
                records@ == toc_records(d@),
                records@.len() == toc_count(d@),
                d@ == data@,
                fits(d@, 0, TOC_START as int),
                starts_with(d@, big_magic()),
                toc_count(d@) >= 0,
                fits(d@, TOC_START as int, toc_count(d@) * 32),
                toc@.len() == k,
                forall|q: int| 0 <= q < k ==> #[trigger] record_ok(d@, records@[q]),
                forall|q: int|
                    0 <= q < k ==> (#[trigger] toc@[q]).name@ == entry_name(d@, records@[q])
                        && toc@[q].entry == entry_of(records@[q]),
            decreases records@.len() - k,
        {
            let f = records[k];
            if f.offset as usize > d.len() || (f.name_length as usize) > d.len() - f.offset as usize {
                assert(!record_ok(d@, toc_records(d@)[k as int]));
                return Err(ImportError::UnexpectedEof);
            }
            if f.compression_type != 0 && f.compression_type != 1 {
                assert(!record_ok(d@, toc_records(d@)[k as int]));
                return Err(ImportError::BadArchive);
            }
            if f.compression_type == 0 && f.real_length != f.stored_length {
                assert(!record_ok(d@, toc_records(d@)[k as int]));
                return Err(ImportError::BadArchive);
            }
            if f.offset as u64 + f.name_length as u64 + 1 > u32::MAX as u64 {
                assert(!record_ok(d@, toc_records(d@)[k as int]));
                return Err(ImportError::BadArchive);
            }
            let enc = copy_range(d, f.offset as usize, f.name_length as usize);
            let plain = decrypt_name(enc.as_slice(), NAME_SEED);
            let name = normalise_name(plain.as_slice());
            toc.push(
                NamedEntry {
                    name,
                    entry: FileEntry {
                        stored_length: f.stored_length,
                        real_length: f.real_length,
                        offset: f.offset + f.name_length as u32 + 1,
                        compressed: f.compression_type != 0,
                    },
                },
            );
            k = k + 1;
        }
        Ok(BigFile { data, toc })
    }
}

/// The index of the last entry named `key`, if any.
pub open spec fn find_entry(toc: Seq<NamedEntry>, key: Seq<u8>) -> Option<int>
    decreases toc.len(),
{
    if toc.len() == 0 {
        None
    } else if toc.last().name@ == key {
        Some(toc.len() - 1)
    } else {
        find_entry(toc.drop_last(), key)
    }
}

/// The contents of entry `e` of the archive `d`: decompressed where it is
/// compressed, else its stored bytes; `None` where the archive ends first.
pub open spec fn payload(d: Seq<u8>, e: FileEntry) -> Option<Seq<u8>> {
    if e.compressed {
        if e.offset <= d.len() {
            lzss(d.subrange(e.offset as int, d.len() as int))
        } else {
            None
        }
    } else if fits(d, e.offset as int, e.stored_length as int) {
        Some(d.subrange(e.offset as int, e.offset + e.stored_length))
    } else {
        None
    }
}

/// What opening `name` in `b` gives: `Ok(None)` where no entry has that name
/// (compared in lower case), the entry's contents where they can be read.
pub open spec fn opened(b: BigFile, name: Seq<u8>) -> Result<Option<Seq<u8>>, ImportError> {
    match find_entry(b.toc@, lower(name)) {
        None => Ok(None),
        Some(i) => match payload(b.data@, b.toc@[i].entry) {
            Some(p) => Ok(Some(p)),
            None => Err(ImportError::UnexpectedEof),
        },
    }
}

/// The view of what an open returns.
pub open spec fn opened_view(r: Result<Option<Vec<u8>>, ImportError>) -> Result<Option<Seq<u8>>, ImportError> {
    match r {
        Ok(Some(v)) => Ok(Some(v@)),
        Ok(None) => Ok(None),
        Err(e) => Err(e),
    }
}

impl BigFile {
    /// Opens the entry named `filename`, with its ASCII letters in any case,
    /// and reads it whole. Bytes outside ASCII must match exactly.
    pub fn open(&self, filename: &[u8]) -> (r: Result<Option<Vec<u8>>, ImportError>)
        ensures
            opened_view(r) == opened(*self, filename@),
    {
        let key = to_lower(filename);
        let mut i: usize = self.toc.len();
        assert(self.toc@.take(i as int) == self.toc@);
        while i > 0 && !bytes_eq(self.toc[i - 1].name.as_slice(), key.as_slice())
            invariant
                i <= self.toc@.len(),
                key@ == lower(filename@),
                find_entry(self.toc@, key@) == find_entry(self.toc@.take(i as int), key@),
            decreases i,
        {
            assert(self.toc@.take(i as int).drop_last() == self.toc@.take(i - 1));
            i = i - 1;
        }
        if i == 0 {
            return Ok(None);
        }
        assert(find_entry(self.toc@.take(i as int), key@) == Some(i - 1));
        let e = self.toc[i - 1].entry;
        let d = self.data.as_slice();
        if e.compressed {
            if e.offset as usize > d.len() {
                return Err(ImportError::UnexpectedEof);
            }
            let tail = vstd::slice::slice_subrange(d, e.offset as usize, d.len());
            match lzss_decompress(tail) {
                Some(o) => Ok(Some(o)),
                None => Err(ImportError::UnexpectedEof),
            }
        } else {
            if e.offset as usize > d.len() || e.stored_length as usize > d.len() - e.offset as usize {
                return Err(ImportError::UnexpectedEof);
            }
            Ok(Some(copy_range(d, e.offset as usize, e.stored_length as usize)))
        }
    }
}

/// Archives layered over each other: a name resolves in the first archive
/// that holds it.
pub struct HwFs(pub Vec<BigFile>);

/// What opening `name` in the layered archives `bs` gives.
pub open spec fn layered(bs: Seq<BigFile>, name: Seq<u8>) -> Result<Option<Seq<u8>>, ImportError>
    decreases bs.len(),
{
    if bs.len() == 0 {
        Ok(None)
    } else if find_entry(bs[0].toc@, lower(name)) is Some {
        opened(bs[0], name)
    } else {
        layered(bs.drop_first(), name)
    }
}

impl HwFs {
    /// Opens `filename` in the first archive that holds it.
    pub fn open(&self, filename: &[u8]) -> (r: Result<Option<Vec<u8>>, ImportError>)
        ensures
            opened_view(r) == layered(self.0@, filename@),
    {
        let mut i: usize = 0;
        assert(self.0@.skip(0) == self.0@);
        while i < self.0.len()
            invariant
                i <= self.0@.len(),
                layered(self.0@, filename@) == layered(self.0@.skip(i as int), filename@),
            decreases self.0@.len() - i,
        {
            assert(self.0@.skip(i as int).drop_first() == self.0@.skip(i + 1));
            assert(self.0@.skip(i as int)[0] == self.0@[i as int]);
            let r = self.0[i].open(filename);
            match r {
                Ok(None) => {},
                _ => {
                    return r;
                },
            }
            i = i + 1;
        }
        assert(self.0@.skip(i as int).len() == 0);
        Ok(None)
    }
}

} // verus!
