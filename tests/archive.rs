use guidestone::big::{BigFile, HwFs};
use guidestone::cipher::{decrypt_name, encrypt_name, NAME_SEED};
use guidestone::geo::ImportError;
use guidestone::lzss::{lzss_decompress, BitReader};

struct Bits {
    bytes: Vec<u8>,
    n: usize,
}

impl Bits {
    fn new() -> Self {
        Bits { bytes: Vec::new(), n: 0 }
    }

    fn put(&mut self, value: u32, width: u32) {
        for k in (0..width).rev() {
            if self.n % 8 == 0 {
                self.bytes.push(0);
            }
            if (value >> k) & 1 == 1 {
                let last = self.bytes.len() - 1;
                self.bytes[last] |= 0x80 >> (self.n % 8);
            }
            self.n += 1;
        }
    }
}

struct Entry {
    name: &'static [u8],
    payload: Vec<u8>,
    real_length: u32,
    compression: u8,
}

fn archive(entries: &[Entry]) -> Vec<u8> {
    let mut d = b"RBF1.23".to_vec();
    d.extend_from_slice(&(entries.len() as i32).to_le_bytes());
    d.extend_from_slice(&0i32.to_le_bytes());
    let mut offset = 15 + 32 * entries.len();
    let mut tail = Vec::new();
    for e in entries {
        d.extend_from_slice(&0u64.to_le_bytes());
        d.extend_from_slice(&(e.name.len() as u16).to_le_bytes());
        d.extend_from_slice(&[0, 0]);
        d.extend_from_slice(&(e.payload.len() as u32).to_le_bytes());
        d.extend_from_slice(&e.real_length.to_le_bytes());
        d.extend_from_slice(&(offset as u32).to_le_bytes());
        d.extend_from_slice(&0u32.to_le_bytes());
        d.extend_from_slice(&[e.compression, 0, 0, 0]);
        let enc = encrypt_name(e.name, NAME_SEED);
        tail.extend_from_slice(&enc);
        tail.push(0);
        tail.extend_from_slice(&e.payload);
        offset += e.name.len() + 1 + e.payload.len();
    }
    d.extend_from_slice(&tail);
    d
}

fn stored(name: &'static [u8], payload: &[u8]) -> Entry {
    Entry { name, payload: payload.to_vec(), real_length: payload.len() as u32, compression: 0 }
}

#[test]
fn open_stored_entry_any_case() {
    let big = BigFile::load(archive(&[stored(b"foo.txt", b"hello")])).unwrap();
    assert_eq!(big.open(b"foo.txt").unwrap(), Some(b"hello".to_vec()));
    assert_eq!(big.open(b"FOO.TXT").unwrap(), Some(b"hello".to_vec()));
    assert_eq!(big.open(b"bar.txt").unwrap(), None);
}

#[test]
fn stored_names_are_normalised() {
    let big = BigFile::load(archive(&[stored(b"Dir\\File.TXT", b"x")])).unwrap();
    assert_eq!(big.toc[0].name, b"dir/file.txt".to_vec());
    assert_eq!(big.toc[0].entry.offset, 15 + 32 + 12 + 1);
    assert_eq!(big.open(b"DIR/file.txt").unwrap(), Some(b"x".to_vec()));
}

#[test]
fn name_cipher_round_trip() {
    let original = b"r1\\mothership\\rl0\\lod0\\mothership.peo".to_vec();
    let plain = decrypt_name(&original, 213);
    assert_ne!(plain, original);
    assert_eq!(encrypt_name(&plain, 213), original);
    assert_eq!(decrypt_name(&encrypt_name(b"foo.txt", 213), 213), b"foo.txt".to_vec());
}

#[test]
fn name_cipher_chains_the_mask() {
    let enc = encrypt_name(b"ab", 213);
    assert_eq!(enc, vec![b'a' ^ 213, b'b' ^ b'a']);
    assert_eq!(decrypt_name(&[], 213), Vec::<u8>::new());
}

fn literal_then_match() -> Vec<u8> {
    let mut b = Bits::new();
    for c in b"abc" {
        b.put(1, 1);
        b.put(*c as u32, 8);
    }
    b.put(0, 1);
    b.put(1, 12);
    b.put(1, 4);
    b.put(0, 1);
    b.put(0, 12);
    b.bytes
}

#[test]
fn lzss_literals_and_back_reference() {
    assert_eq!(lzss_decompress(&literal_then_match()), Some(b"abcabc".to_vec()));
}

#[test]
fn lzss_immediate_end_is_empty() {
    let mut b = Bits::new();
    b.put(0, 1);
    b.put(0, 12);
    assert_eq!(lzss_decompress(&b.bytes), Some(Vec::new()));
}

#[test]
fn lzss_truncated_stream_fails() {
    let mut b = Bits::new();
    b.put(1, 1);
    b.put(b'a' as u32, 8);
    assert_eq!(lzss_decompress(&b.bytes), None);
    assert_eq!(lzss_decompress(&[]), None);
}

#[test]
fn lzss_overlapping_copy_repeats() {
    let mut b = Bits::new();
    b.put(1, 1);
    b.put(b'z' as u32, 8);
    b.put(0, 1);
    b.put(1, 12);
    b.put(2, 4);
    b.put(0, 1);
    b.put(0, 12);
    assert_eq!(lzss_decompress(&b.bytes), Some(b"zzzzz".to_vec()));
}

#[test]
fn bit_reader_reads_most_significant_first() {
    let data = [0b1010_0000u8, 0xff];
    let mut r = BitReader::new(&data);
    assert_eq!(r.read_bits(1), Some(1));
    assert_eq!(r.read_bits(3), Some(0b010));
    assert_eq!(r.read_bits(8), Some(0b0000_1111));
    assert_eq!(r.read_bits(4), Some(0xf));
    assert_eq!(r.read_bits(1), None);
}

#[test]
fn open_compressed_entry() {
    let e = Entry { name: b"z.bin", payload: literal_then_match(), real_length: 6, compression: 1 };
    let big = BigFile::load(archive(&[e])).unwrap();
    assert_eq!(big.open(b"Z.BIN").unwrap(), Some(b"abcabc".to_vec()));
}

#[test]
fn unknown_compression_is_refused() {
    let e = Entry { name: b"a", payload: vec![1], real_length: 1, compression: 2 };
    assert_eq!(BigFile::load(archive(&[e])).err(), Some(ImportError::BadArchive));
}

#[test]
fn stored_length_mismatch_is_refused() {
    let e = Entry { name: b"a", payload: vec![1], real_length: 2, compression: 0 };
    assert_eq!(BigFile::load(archive(&[e])).err(), Some(ImportError::BadArchive));
}

#[test]
fn bad_archive_magic_is_refused() {
    let mut d = archive(&[stored(b"a", b"1")]);
    d[0] = b'X';
    assert_eq!(BigFile::load(d).err(), Some(ImportError::BadMagic));
    assert_eq!(BigFile::load(vec![0; 3]).err(), Some(ImportError::UnexpectedEof));
}

#[test]
fn layered_archives_resolve_in_order() {
    let first = BigFile::load(archive(&[stored(b"a.txt", b"first")])).unwrap();
    let second = BigFile::load(archive(&[stored(b"a.txt", b"second"), stored(b"b.txt", b"b")])).unwrap();
    let fs = HwFs(vec![first, second]);
    assert_eq!(fs.open(b"a.txt").unwrap(), Some(b"first".to_vec()));
    assert_eq!(fs.open(b"b.txt").unwrap(), Some(b"b".to_vec()));
    assert_eq!(fs.open(b"c.txt").unwrap(), None);
}

#[test]
fn later_duplicate_entry_wins() {
    let big = BigFile::load(archive(&[stored(b"a", b"1"), stored(b"A", b"2")])).unwrap();
    assert_eq!(big.open(b"a").unwrap(), Some(b"2".to_vec()));
}

#[test]
fn entry_keeps_its_real_length() {
    let e = Entry { name: b"c.bin", payload: literal_then_match(), real_length: 6, compression: 1 };
    let big = BigFile::load(archive(&[e])).unwrap();
    assert_eq!(big.toc[0].entry.real_length, 6);
    assert_eq!(big.toc[0].entry.stored_length, literal_then_match().len() as u32);
}

#[test]
fn only_ascii_letters_fold_case() {
    let big = BigFile::load(archive(&[stored("Éa.txt".as_bytes(), b"e")])).unwrap();
    assert_eq!(big.toc[0].name, "Éa.txt".as_bytes().to_vec());
    assert_eq!(big.open("ÉA.TXT".as_bytes()).unwrap(), Some(b"e".to_vec()));
    assert_eq!(big.open("éa.txt".as_bytes()).unwrap(), None);
}
