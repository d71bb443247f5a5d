//! AES-128 CFB8 stream cipher, applied byte-wise and in place.
//!
//! Each byte costs one AES block encryption of the 16-byte iv register; the
//! plaintext byte is XORed with the first keystream byte, and the iv register
//! is shifted left one byte with the ciphertext byte fed into its tail. The
//! AES block function itself comes from the `aes` crate and is modelled by
//! the uninterpreted function `aes128_block`.

use vstd::prelude::*;
use crate::types::Error;
use aes::cipher::{BlockEncrypt, KeyInit};
use aes::cipher::generic_array::GenericArray;

verus! {

/// The AES-128 block encryption of `block` under `key` (both 16 bytes): a
/// pure function of its arguments, named rather than written out.
pub uninterp spec fn aes128_block(key: Seq<u8>, block: Seq<u8>) -> Seq<u8>;

/// Relies on `aes::Aes128` (`KeyInit::new` followed by
/// `BlockEncrypt::encrypt_block`): one AES-128 block encryption, a pure
/// function of key and block, returning one 16-byte block.
#[verifier::external_body]
fn aes128_encrypt_block(key: &Vec<u8>, block: &Vec<u8>) -> (r: Vec<u8>)
    requires
        key@.len() == 16,
        block@.len() == 16,
    ensures
        r@ == aes128_block(key@, block@),
        r@.len() == 16,
{
    let cipher = aes::Aes128::new(GenericArray::from_slice(key.as_slice()));
    let mut b = GenericArray::clone_from_slice(block.as_slice());
    cipher.encrypt_block(&mut b);
    b.to_vec()
}

/// First keystream byte for the given key and iv register.
pub open spec fn keystream_byte(key: Seq<u8>, iv: Seq<u8>) -> u8 {
    aes128_block(key, iv)[0]
}

/// The iv register after one byte: shifted left one position, with the
/// ciphertext byte fed into the tail.
pub open spec fn iv_shift(iv: Seq<u8>, fed: u8) -> Seq<u8> {
    iv.subrange(1, 16).push(fed)
}

/// CFB8 encryption of `p` under `key` starting from iv register `iv`.
pub open spec fn cfb8_encrypt(key: Seq<u8>, iv: Seq<u8>, p: Seq<u8>) -> Seq<u8>
    decreases p.len(),
{
    if p.len() == 0 {
        Seq::empty()
    } else {
        let c = p[0] ^ keystream_byte(key, iv);
        seq![c] + cfb8_encrypt(key, iv_shift(iv, c), p.drop_first())
    }
}

/// The iv register after CFB8-encrypting `p`.
pub open spec fn cfb8_enc_iv(key: Seq<u8>, iv: Seq<u8>, p: Seq<u8>) -> Seq<u8>
    decreases p.len(),
{
    if p.len() == 0 {
        iv
    } else {
        let c = p[0] ^ keystream_byte(key, iv);
        cfb8_enc_iv(key, iv_shift(iv, c), p.drop_first())
    }
}

/// CFB8 decryption of `c` under `key` starting from iv register `iv`. The iv
/// register is fed the ciphertext byte, exactly as on the encrypting side.
pub open spec fn cfb8_decrypt(key: Seq<u8>, iv: Seq<u8>, c: Seq<u8>) -> Seq<u8>
    decreases c.len(),
{
    if c.len() == 0 {
        Seq::empty()
    } else {
        seq![c[0] ^ keystream_byte(key, iv)] + cfb8_decrypt(key, iv_shift(iv, c[0]), c.drop_first())
    }
}

/// The iv register after CFB8-decrypting `c`.
pub open spec fn cfb8_dec_iv(key: Seq<u8>, iv: Seq<u8>, c: Seq<u8>) -> Seq<u8>
    decreases c.len(),
{
    if c.len() == 0 {
        iv
    } else {
        cfb8_dec_iv(key, iv_shift(iv, c[0]), c.drop_first())
    }
}

/// Both directions preserve length: the ciphertext is as long as the
/// plaintext and conversely.
pub proof fn lemma_cfb8_len(key: Seq<u8>, iv: Seq<u8>, s: Seq<u8>)
    ensures
        cfb8_encrypt(key, iv, s).len() == s.len(),
        cfb8_decrypt(key, iv, s).len() == s.len(),
    decreases s.len(),
{
    if s.len() > 0 {
        let c = s[0] ^ keystream_byte(key, iv);
        lemma_cfb8_len(key, iv_shift(iv, c), s.drop_first());
        lemma_cfb8_len(key, iv_shift(iv, s[0]), s.drop_first());
    }
}

/// Round trip: decrypting what was encrypted, from the same key and iv,
/// yields the plaintext back, and the two iv registers end identical.
pub proof fn lemma_cfb8_round_trip(key: Seq<u8>, iv: Seq<u8>, p: Seq<u8>)
    ensures
        cfb8_decrypt(key, iv, cfb8_encrypt(key, iv, p)) == p,
        cfb8_dec_iv(key, iv, cfb8_encrypt(key, iv, p)) == cfb8_enc_iv(key, iv, p),
    decreases p.len(),
{
    if p.len() == 0 {
        assert(cfb8_decrypt(key, iv, cfb8_encrypt(key, iv, p)) =~= p);
    } else {
        let k = keystream_byte(key, iv);
        let a = p[0];
        let c0 = a ^ k;
        assert((a ^ k) ^ k == a) by (bit_vector);
        let e = cfb8_encrypt(key, iv, p);
        let iv2 = iv_shift(iv, c0);
        assert(e == seq![c0] + cfb8_encrypt(key, iv2, p.drop_first()));
        assert(e[0] == c0);
        assert(e.drop_first() =~= cfb8_encrypt(key, iv2, p.drop_first()));
        lemma_cfb8_round_trip(key, iv2, p.drop_first());
        assert(cfb8_decrypt(key, iv, e) =~= p);
    }
}

/// Byte-slicing: encrypting a concatenation equals encrypting the pieces in
/// order with the same cipher state carried across; likewise for the iv.
pub proof fn lemma_cfb8_enc_append(key: Seq<u8>, iv: Seq<u8>, a: Seq<u8>, b: Seq<u8>)
    ensures
        cfb8_encrypt(key, iv, a + b) == cfb8_encrypt(key, iv, a) + cfb8_encrypt(
            key,
            cfb8_enc_iv(key, iv, a),
            b,
        ),
        cfb8_enc_iv(key, iv, a + b) == cfb8_enc_iv(key, cfb8_enc_iv(key, iv, a), b),
    decreases a.len(),
{
    if a.len() == 0 {
        assert(a + b =~= b);
        assert(cfb8_encrypt(key, iv, a) + cfb8_encrypt(key, iv, b) =~= cfb8_encrypt(key, iv, b));
    } else {
        let s = a + b;
        assert(s[0] == a[0]);
        let c0 = a[0] ^ keystream_byte(key, iv);
        let iv2 = iv_shift(iv, c0);
        assert(s.drop_first() =~= a.drop_first() + b);
        lemma_cfb8_enc_append(key, iv2, a.drop_first(), b);
        assert(cfb8_encrypt(key, iv, s) =~= cfb8_encrypt(key, iv, a) + cfb8_encrypt(
            key,
            cfb8_enc_iv(key, iv, a),
            b,
        ));
    }
}

/// Decrypting a concatenation equals decrypting the pieces in order with the
/// same cipher state carried across; likewise for the iv.
pub proof fn lemma_cfb8_dec_append(key: Seq<u8>, iv: Seq<u8>, a: Seq<u8>, b: Seq<u8>)
    ensures
        cfb8_decrypt(key, iv, a + b) == cfb8_decrypt(key, iv, a) + cfb8_decrypt(
            key,
            cfb8_dec_iv(key, iv, a),
            b,
        ),
        cfb8_dec_iv(key, iv, a + b) == cfb8_dec_iv(key, cfb8_dec_iv(key, iv, a), b),
    decreases a.len(),
{
    if a.len() == 0 {
        assert(a + b =~= b);
        assert(cfb8_decrypt(key, iv, a) + cfb8_decrypt(key, iv, b) =~= cfb8_decrypt(key, iv, b));
    } else {
        let s = a + b;
        assert(s[0] == a[0]);
        let iv2 = iv_shift(iv, a[0]);
        assert(s.drop_first() =~= a.drop_first() + b);
        lemma_cfb8_dec_append(key, iv2, a.drop_first(), b);
        assert(cfb8_decrypt(key, iv, s) =~= cfb8_decrypt(key, iv, a) + cfb8_decrypt(
            key,
            cfb8_dec_iv(key, iv, a),
            b,
        ));
    }
}

/// Per-slice encryption of `parts` with one cipher instance: each slice is
/// encrypted from the iv register left by the slices before it.
pub open spec fn cfb8_encrypt_slices(key: Seq<u8>, iv: Seq<u8>, parts: Seq<Seq<u8>>) -> Seq<Seq<u8>>
    decreases parts.len(),
{
    if parts.len() == 0 {
        Seq::empty()
    } else {
        seq![cfb8_encrypt(key, iv, parts.first())] + cfb8_encrypt_slices(
            key,
            cfb8_enc_iv(key, iv, parts.first()),
            parts.drop_first(),
        )
    }
}

/// The iv register after encrypting every slice of `parts` in order.
pub open spec fn cfb8_enc_iv_slices(key: Seq<u8>, iv: Seq<u8>, parts: Seq<Seq<u8>>) -> Seq<u8>
    decreases parts.len(),
{
    if parts.len() == 0 {
        iv
    } else {
        cfb8_enc_iv_slices(key, cfb8_enc_iv(key, iv, parts.first()), parts.drop_first())
    }
}

/// Arbitrary slicing: splitting a buffer into any sequence of sub-slices and
/// encrypting them in order with one cipher instance yields the same bytes
/// as encrypting the whole buffer in one call, and the same final iv
/// register.
pub proof fn lemma_cfb8_slicing(key: Seq<u8>, iv: Seq<u8>, parts: Seq<Seq<u8>>)
    ensures
        cfb8_encrypt_slices(key, iv, parts).flatten() == cfb8_encrypt(key, iv, parts.flatten()),
        cfb8_enc_iv_slices(key, iv, parts) == cfb8_enc_iv(key, iv, parts.flatten()),
    decreases parts.len(),
{
    if parts.len() == 0 {
        assert(cfb8_encrypt_slices(key, iv, parts).flatten() =~= cfb8_encrypt(
            key,
            iv,
            parts.flatten(),
        ));
    } else {
        let a = parts.first();
        let rest = parts.drop_first();
        let iv2 = cfb8_enc_iv(key, iv, a);
        lemma_cfb8_slicing(key, iv2, rest);
        lemma_cfb8_enc_append(key, iv, a, rest.flatten());
        let es = cfb8_encrypt_slices(key, iv, parts);
        assert(es.first() == cfb8_encrypt(key, iv, a));
        assert(es.drop_first() =~= cfb8_encrypt_slices(key, iv2, rest));
        assert(es.flatten() == cfb8_encrypt(key, iv, a) + cfb8_encrypt_slices(
            key,
            iv2,
            rest,
        ).flatten());
    }
}

/// One more byte at the end of the plaintext extends the ciphertext by one
/// byte computed from the iv register reached so far.
pub proof fn lemma_cfb8_enc_snoc(key: Seq<u8>, iv: Seq<u8>, p: Seq<u8>, x: u8)
    ensures
        ({
            let ivp = cfb8_enc_iv(key, iv, p);
            let c = x ^ keystream_byte(key, ivp);
            cfb8_encrypt(key, iv, p.push(x)) == cfb8_encrypt(key, iv, p).push(c)
                && cfb8_enc_iv(key, iv, p.push(x)) == iv_shift(ivp, c)
        }),
{
    let ivp = cfb8_enc_iv(key, iv, p);
    let c = x ^ keystream_byte(key, ivp);
    assert(p.push(x) =~= p + seq![x]);
    lemma_cfb8_enc_append(key, iv, p, seq![x]);
    assert(seq![x].drop_first() =~= Seq::<u8>::empty());
    assert(cfb8_encrypt(key, iv_shift(ivp, c), Seq::<u8>::empty()) == Seq::<u8>::empty());
    assert(cfb8_enc_iv(key, iv_shift(ivp, c), Seq::<u8>::empty()) == iv_shift(ivp, c));
    assert(cfb8_encrypt(key, ivp, seq![x]) =~= seq![c]);
    assert(cfb8_encrypt(key, iv, p) + seq![c] =~= cfb8_encrypt(key, iv, p).push(c));
}

/// One more byte at the end of the ciphertext extends the plaintext by one
/// byte computed from the iv register reached so far.
pub proof fn lemma_cfb8_dec_snoc(key: Seq<u8>, iv: Seq<u8>, c: Seq<u8>, x: u8)
    ensures
        ({
            let ivc = cfb8_dec_iv(key, iv, c);
            let d = x ^ keystream_byte(key, ivc);
            cfb8_decrypt(key, iv, c.push(x)) == cfb8_decrypt(key, iv, c).push(d)
                && cfb8_dec_iv(key, iv, c.push(x)) == iv_shift(ivc, x)
        }),
{
    let ivc = cfb8_dec_iv(key, iv, c);
    let d = x ^ keystream_byte(key, ivc);
    assert(c.push(x) =~= c + seq![x]);
    lemma_cfb8_dec_append(key, iv, c, seq![x]);
    assert(seq![x].drop_first() =~= Seq::<u8>::empty());
    assert(cfb8_decrypt(key, iv_shift(ivc, x), Seq::<u8>::empty()) == Seq::<u8>::empty());
    assert(cfb8_dec_iv(key, iv_shift(ivc, x), Seq::<u8>::empty()) == iv_shift(ivc, x));
    assert(cfb8_decrypt(key, ivc, seq![x]) =~= seq![d]);
    assert(cfb8_decrypt(key, iv, c) + seq![d] =~= cfb8_decrypt(key, iv, c).push(d));
}

/// CFB8 cipher state: the AES key, and the 16-byte iv register mutated as
/// bytes flow through.
pub struct MinecraftCipher {
    key: Vec<u8>,
    iv: Vec<u8>,
}

impl MinecraftCipher {
    /// Key and iv register are both exactly 16 bytes.
    pub closed spec fn wf(&self) -> bool {
        self.key@.len() == 16 && self.iv@.len() == 16
    }

    /// The AES key this cipher was constructed with.
    pub closed spec fn key_spec(&self) -> Seq<u8> {
        self.key@
    }

    /// The current iv register.
    pub closed spec fn iv_spec(&self) -> Seq<u8> {
        self.iv@
    }

    /// Construct from exactly 16 bytes of key and 16 bytes of iv; any other
    /// length fails with `InvalidKeyMaterial`.
    pub fn new(key: &Vec<u8>, iv: &Vec<u8>) -> (r: Result<Self, Error>)
        ensures
            match r {
                Ok(c) => key@.len() == 16 && iv@.len() == 16 && c.wf() && c.key_spec() == key@
                    && c.iv_spec() == iv@,
                Err(e) => e == Error::InvalidKeyMaterial && !(key@.len() == 16 && iv@.len()
                    == 16),
            },
    {
        if key.len() != 16 || iv.len() != 16 {
            return Err(Error::InvalidKeyMaterial);
        }
        let mut key_out: Vec<u8> = Vec::with_capacity(16);
        key_out.extend_from_slice(key.as_slice());
        let mut iv_out: Vec<u8> = Vec::with_capacity(16);
        iv_out.extend_from_slice(iv.as_slice());
        proof {
            assert(key_out@ =~= key@);
            assert(iv_out@ =~= iv@);
        }
        Ok(MinecraftCipher { key: key_out, iv: iv_out })
    }

    /// Encrypt one byte: XOR with the first keystream byte, and feed the
    /// ciphertext byte into the iv register's tail.
    pub fn encrypt_byte(&mut self, d: u8) -> (c: u8)
        requires
            old(self).wf(),
        ensures
            final(self).wf(),
            final(self).key_spec() == old(self).key_spec(),
            c == d ^ keystream_byte(old(self).key_spec(), old(self).iv_spec()),
            final(self).iv_spec() == iv_shift(old(self).iv_spec(), c),
    {
        let ks = aes128_encrypt_block(&self.key, &self.iv);
        let c: u8 = d ^ ks[0];
        self.feed_iv(c);
        c
    }

    /// Decrypt one byte: XOR with the first keystream byte, and feed the
    /// ciphertext byte (the input) into the iv register's tail.
    pub fn decrypt_byte(&mut self, c: u8) -> (d: u8)
        requires
            old(self).wf(),
        ensures
            final(self).wf(),
            final(self).key_spec() == old(self).key_spec(),
            d == c ^ keystream_byte(old(self).key_spec(), old(self).iv_spec()),
            final(self).iv_spec() == iv_shift(old(self).iv_spec(), c),
    {
        let ks = aes128_encrypt_block(&self.key, &self.iv);
        let d: u8 = c ^ ks[0];
        self.feed_iv(c);
        d
    }

    /// Shift the iv register left one byte and feed `fed` into its tail.
    fn feed_iv(&mut self, fed: u8)
        requires
            old(self).wf(),
        ensures
            final(self).wf(),
            final(self).key_spec() == old(self).key_spec(),
            final(self).iv_spec() == iv_shift(old(self).iv_spec(), fed),
    {
        self.iv.remove(0);
        self.iv.push(fed);
        proof {
            assert(self.iv@ =~= iv_shift(old(self).iv@, fed));
        }
    }

    /// Encrypt `data` in place, advancing the iv register across every byte.
    pub fn encrypt(&mut self, data: &mut Vec<u8>)
        requires
            old(self).wf(),
        ensures
            final(self).wf(),
            final(self).key_spec() == old(self).key_spec(),
            final(data)@ == cfb8_encrypt(
                old(self).key_spec(),
                old(self).iv_spec(),
                old(data)@,
            ),
            final(self).iv_spec() == cfb8_enc_iv(
                old(self).key_spec(),
                old(self).iv_spec(),
                old(data)@,
            ),
    {
        let ghost key = self.key_spec();
        let ghost iv0 = self.iv_spec();
        let ghost orig = data@;
        let n: usize = data.len();
        let mut i: usize = 0;
        proof {
            assert(orig.take(0) =~= Seq::<u8>::empty());
        }
        while i < n
            invariant
                self.wf(),
                self.key_spec() == key,
                i <= n,
                n == data@.len(),
                data@.len() == orig.len(),
                forall|j: int| i <= j < orig.len() ==> data@[j] == orig[j],
                data@.take(i as int) == cfb8_encrypt(key, iv0, orig.take(i as int)),
                self.iv_spec() == cfb8_enc_iv(key, iv0, orig.take(i as int)),
            decreases n - i,
        {
            let c = self.encrypt_byte(data[i]);
            proof {
                lemma_cfb8_enc_snoc(key, iv0, orig.take(i as int), orig[i as int]);
                assert(orig.take(i + 1) =~= orig.take(i as int).push(orig[i as int]));
            }
            data.set(i, c);
            proof {
                assert(data@.take(i + 1) =~= cfb8_encrypt(key, iv0, orig.take(i as int)).push(c));
            }
            i = i + 1;
        }
        proof {
            assert(orig.take(n as int) =~= orig);
            assert(data@.take(n as int) =~= data@);
        }
    }

    /// Decrypt `data[start..end]` in place, advancing the iv register across
    /// exactly those bytes; bytes outside the range are untouched.
    pub fn decrypt_range(&mut self, data: &mut Vec<u8>, start: usize, end: usize)
        requires
            old(self).wf(),
            start <= end <= old(data)@.len(),
        ensures
            final(self).wf(),
            final(self).key_spec() == old(self).key_spec(),
            final(data)@.len() == old(data)@.len(),
            final(data)@ == old(data)@.take(start as int) + cfb8_decrypt(
                old(self).key_spec(),
                old(self).iv_spec(),
                old(data)@.subrange(start as int, end as int),
            ) + old(data)@.skip(end as int),
            final(self).iv_spec() == cfb8_dec_iv(
                old(self).key_spec(),
                old(self).iv_spec(),
                old(data)@.subrange(start as int, end as int),
            ),
    {
        let ghost key = self.key_spec();
        let ghost iv0 = self.iv_spec();
        let ghost orig = data@;
        let mut i: usize = start;
        proof {
            assert(orig.subrange(start as int, start as int) =~= Seq::<u8>::empty());
        }
        while i < end
            invariant
                self.wf(),
                self.key_spec() == key,
                start <= i <= end <= orig.len(),
                data@.len() == orig.len(),
                data@.take(start as int) == orig.take(start as int),
                forall|j: int| i <= j < orig.len() ==> data@[j] == orig[j],
                data@.subrange(start as int, i as int) == cfb8_decrypt(
                    key,
                    iv0,
                    orig.subrange(start as int, i as int),
                ),
                self.iv_spec() == cfb8_dec_iv(key, iv0, orig.subrange(start as int, i as int)),
            decreases end - i,
        {
            let d = self.decrypt_byte(data[i]);
            proof {
                lemma_cfb8_dec_snoc(key, iv0, orig.subrange(start as int, i as int), orig[i as int]);
                assert(orig.subrange(start as int, i + 1) =~= orig.subrange(
                    start as int,
                    i as int,
                ).push(orig[i as int]));
            }
            data.set(i, d);
            proof {
                assert(data@.take(start as int) =~= orig.take(start as int));
                assert(data@.subrange(start as int, i + 1) =~= cfb8_decrypt(
                    key,
                    iv0,
                    orig.subrange(start as int, i as int),
                ).push(d));
            }
            i = i + 1;
        }
        proof {
            assert(data@.skip(end as int) =~= orig.skip(end as int));
            assert(data@ =~= data@.take(start as int) + data@.subrange(start as int, end as int)
                + data@.skip(end as int));
            assert(data@.subrange(start as int, end as int) == cfb8_decrypt(
                key,
                iv0,
                orig.subrange(start as int, end as int),
            ));
        }
    }

    /// Decrypt `data` in place, advancing the iv register across every byte.
    pub fn decrypt(&mut self, data: &mut Vec<u8>)
        requires
            old(self).wf(),
        ensures
            final(self).wf(),
            final(self).key_spec() == old(self).key_spec(),
            final(data)@ == cfb8_decrypt(
                old(self).key_spec(),
                old(self).iv_spec(),
                old(data)@,
            ),
            final(self).iv_spec() == cfb8_dec_iv(
                old(self).key_spec(),
                old(self).iv_spec(),
                old(data)@,
            ),
    {
        let ghost orig = data@;
        let n: usize = data.len();
        self.decrypt_range(data, 0, n);
        proof {
            assert(orig.subrange(0, n as int) =~= orig);
            assert(orig.take(0) =~= Seq::<u8>::empty());
            assert(orig.skip(n as int) =~= Seq::<u8>::empty());
            assert(Seq::<u8>::empty() + cfb8_decrypt(
                old(self).key_spec(),
                old(self).iv_spec(),
                orig,
            ) + Seq::<u8>::empty() =~= cfb8_decrypt(old(self).key_spec(), old(self).iv_spec(), orig));
        }
    }
}

} // verus!
