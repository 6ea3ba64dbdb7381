//! The running XOR cipher that hides archive entry names: each plain byte is
//! the mask of the next.
use vstd::prelude::*;

verus! {

/// The seed of the name cipher in the shipped archives.
pub const NAME_SEED: u8 = 213;

/// The plain text of `enc`: byte `i` is `enc[i]` XOR the plain byte before it
/// (XOR `seed` for the first).
pub open spec fn decrypt(enc: Seq<u8>, seed: u8) -> Seq<u8>
    decreases enc.len(),
{
    if enc.len() == 0 {
        seq![]
    } else {
        let prev = decrypt(enc.drop_last(), seed);
        let mask = if enc.len() == 1 { seed } else { prev.last() };
        prev.push(enc.last() ^ mask)
    }
}

/// The cipher text of `plain`: byte `i` is `plain[i]` XOR `plain[i - 1]`
/// (XOR `seed` for the first).
pub open spec fn encrypt(plain: Seq<u8>, seed: u8) -> Seq<u8>
    decreases plain.len(),
{
    if plain.len() == 0 {
        seq![]
    } else {
        let mask = if plain.len() == 1 { seed } else { plain[plain.len() - 2] };
        encrypt(plain.drop_last(), seed).push(plain.last() ^ mask)
    }
}

proof fn lemma_decrypt_len(enc: Seq<u8>, seed: u8)
    ensures
        decrypt(enc, seed).len() == enc.len(),
    decreases enc.len(),
{
    if enc.len() > 0 {
        lemma_decrypt_len(enc.drop_last(), seed);
    }
}

proof fn lemma_encrypt_len(plain: Seq<u8>, seed: u8)
    ensures
        encrypt(plain, seed).len() == plain.len(),
    decreases plain.len(),
{
    if plain.len() > 0 {
        lemma_encrypt_len(plain.drop_last(), seed);
    }
}

/// Encrypting what was decrypted with the same seed gives back the cipher
/// text, for every byte string and seed.
pub proof fn lemma_encrypt_decrypt(enc: Seq<u8>, seed: u8)
    ensures
        encrypt(decrypt(enc, seed), seed) == enc,
    decreases enc.len(),
{
    if enc.len() > 0 {
        let d = decrypt(enc, seed);
        let prev = decrypt(enc.drop_last(), seed);
        lemma_encrypt_decrypt(enc.drop_last(), seed);
        lemma_decrypt_len(enc.drop_last(), seed);
        lemma_decrypt_len(enc, seed);
        assert(d.drop_last() == prev);
        let mask = if enc.len() == 1 { seed } else { prev.last() };
        let e = enc.last();
        assert((e ^ mask) ^ mask == e) by (bit_vector);
        if enc.len() > 1 {
            assert(d[d.len() - 2] == prev.last());
        }
        assert(encrypt(d, seed) == encrypt(prev, seed).push(d.last() ^ mask));
        assert(enc.drop_last().push(e) == enc);
    }
}

/// Decrypting what was encrypted with the same seed gives back the plain
/// text, for every byte string and seed.
pub proof fn lemma_decrypt_encrypt(plain: Seq<u8>, seed: u8)
    ensures
        decrypt(encrypt(plain, seed), seed) == plain,
    decreases plain.len(),
{
    if plain.len() > 0 {
        let e = encrypt(plain, seed);
        lemma_decrypt_encrypt(plain.drop_last(), seed);
        lemma_encrypt_len(plain.drop_last(), seed);
        lemma_encrypt_len(plain, seed);
        assert(e.drop_last() == encrypt(plain.drop_last(), seed));
        let mask = if plain.len() == 1 { seed } else { plain[plain.len() - 2] };
        let p = plain.last();
        assert((p ^ mask) ^ mask == p) by (bit_vector);
        assert(plain.drop_last().push(p) == plain);
    }
}

/// Decrypts an entry name.
pub fn decrypt_name(enc: &[u8], seed: u8) -> (r: Vec<u8>)
    ensures
        r@ == decrypt(enc@, seed),
{
    let mut r: Vec<u8> = Vec::new();
    let mut mask = seed;
    let mut i: usize = 0;
    while i < enc.len()
        invariant
            i <= enc@.len(),
            r@ == decrypt(enc@.take(i as int), seed),
            mask == (if i == 0 { seed } else { r@.last() }),
        decreases enc@.len() - i,
    {
        proof {
            lemma_decrypt_len(enc@.take(i as int), seed);
        }
        assert(enc@.take(i + 1).drop_last() == enc@.take(i as int));
        let c = enc[i] ^ mask;
        r.push(c);
        mask = c;
        i = i + 1;
    }
    assert(enc@.take(i as int) == enc@);
    r
}

/// Encrypts an entry name.
pub fn encrypt_name(plain: &[u8], seed: u8) -> (r: Vec<u8>)
    ensures
        r@ == encrypt(plain@, seed),
{
    let mut r: Vec<u8> = Vec::new();
    let mut mask = seed;
    let mut i: usize = 0;
    while i < plain.len()
        invariant
            i <= plain@.len(),
            r@ == encrypt(plain@.take(i as int), seed),
            mask == (if i == 0 { seed } else { plain@[i - 1] }),
        decreases plain@.len() - i,
    {
        assert(plain@.take(i + 1).drop_last() == plain@.take(i as int));
        r.push(plain[i] ^ mask);
        mask = plain[i];
        i = i + 1;
    }
    assert(plain@.take(i as int) == plain@);
    r
}

} // verus!
