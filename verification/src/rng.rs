//! The deterministic random byte generator: AES-128 in counter mode. Seeded
//! from 48 bytes of entropy, it produces the same byte stream for the same
//! seed on every platform; the AES block function itself comes from an
//! outside crate and is only named, never restated.

use vstd::prelude::*;
use aes::Aes128;
use aes::cipher::BlockEncrypt;
use aes::cipher::KeyInit;
use aes::cipher::generic_array::GenericArray;

verus! {

/// Names the AES-128 block function: the encryption of one 16-byte block
/// under a 16-byte key depends on key and block alone.
pub uninterp spec fn aes128_block_of(key: Seq<u8>, block: Seq<u8>) -> Seq<u8>;

/// Relies on the aes crate's Aes128 (NIST FIPS 197): one block encryption in
/// ECB mode; the result is a pure function of key and block.
#[verifier::external_body]
fn aes128_block(key: &[u8; 16], block: &[u8; 16]) -> (r: [u8; 16])
    ensures
        r@ == aes128_block_of(key@, block@),
{
    let cipher = Aes128::new(GenericArray::from_slice(key));
    let mut b = *GenericArray::from_slice(block);
    cipher.encrypt_block(&mut b);
    b.into()
}

/// The 16-byte counter incremented by one, big-endian, wrapping.
pub open spec fn inc1(v: Seq<u8>) -> Seq<u8>
    decreases v.len(),
{
    if v.len() == 0 {
        v
    } else if v.last() == 255 {
        inc1(v.drop_last()).push(0)
    } else {
        v.drop_last().push((v.last() + 1) as u8)
    }
}

/// The counter incremented n times.
pub open spec fn inc_n(v: Seq<u8>, n: nat) -> Seq<u8>
    decreases n,
{
    if n == 0 {
        v
    } else {
        inc1(inc_n(v, (n - 1) as nat))
    }
}

/// Byte j of the keystream drawn from a counter state: block j/16 of AES-CTR.
pub open spec fn ctr_byte(key: Seq<u8>, v: Seq<u8>, j: int) -> u8 {
    aes128_block_of(key, inc_n(v, (j / 16 + 1) as nat))[j % 16]
}

/// Increments compose additively.
pub proof fn lemma_inc_n_add(v: Seq<u8>, a: nat, b: nat)
    ensures
        inc_n(inc_n(v, a), b) == inc_n(v, a + b),
    decreases b,
{
    if b > 0 {
        lemma_inc_n_add(v, a, (b - 1) as nat);
    }
}

/// An AES-128-CTR byte generator: an AES key and a big-endian 128-bit
/// counter, both set directly from the seeding entropy.
pub struct AesState {
    pub key: [u8; 16],
    pub v: [u8; 16],
}

proof fn lemma_inc1_shape(s: Seq<u8>, j: int)
    requires
        0 <= j < s.len(),
        s[j] != 255,
        forall|k: int| j < k < s.len() ==> s[k] == 255,
    ensures
        inc1(s) == s.take(j).push((s[j] + 1) as u8) + Seq::new((s.len() - j - 1) as nat, |x: int| 0u8),
    decreases s.len(),
{
    if j == s.len() - 1 {
        assert(s.take(j) == s.drop_last());
        assert(s.drop_last().push((s[j] + 1) as u8)
            + Seq::new(0, |x: int| 0u8) =~= inc1(s));
    } else {
        assert(s.last() == 255);
        lemma_inc1_shape(s.drop_last(), j);
        assert(s.drop_last().take(j) == s.take(j));
        assert(inc1(s) == inc1(s.drop_last()).push(0));
        assert(inc1(s.drop_last()).push(0) =~= s.take(j).push((s[j] + 1) as u8)
            + Seq::new((s.len() - j - 1) as nat, |x: int| 0u8));
    }
}

proof fn lemma_inc1_all_carry(s: Seq<u8>)
    requires
        forall|k: int| 0 <= k < s.len() ==> s[k] == 255,
    ensures
        inc1(s) == Seq::new(s.len(), |x: int| 0u8),
    decreases s.len(),
{
    if s.len() == 0 {
        assert(inc1(s) =~= Seq::new(0, |x: int| 0u8));
    } else {
        lemma_inc1_all_carry(s.drop_last());
        assert(inc1(s.drop_last()).push(0) =~= Seq::new(s.len(), |x: int| 0u8));
    }
}

impl AesState {
    /// A zeroed generator; seeding sets the key and counter.
    pub fn new() -> (r: AesState)
        ensures
            r.key@ == Seq::new(16, |i: int| 0u8),
            r.v@ == Seq::new(16, |i: int| 0u8),
    {
        let r = AesState { key: [0u8; 16], v: [0u8; 16] };
        proof {
            assert(r.key@ =~= Seq::new(16, |i: int| 0u8));
            assert(r.v@ =~= Seq::new(16, |i: int| 0u8));
        }
        r
    }

    /// Seeds the generator: the key is the first 16 entropy bytes, the
    /// counter the next 16; the remaining entropy is not consumed.
    pub fn randombytes_init(&mut self, entropy_input: [u8; 48])
        ensures
            final(self).key@ == entropy_input@.take(16),
            final(self).v@ == entropy_input@.skip(16).take(16),
    {
        let mut i: usize = 0;
        while i < 16
            invariant
                i <= 16,
                forall|k: int| 0 <= k < i ==> self.key@[k] == entropy_input@[k],
                forall|k: int| 0 <= k < i ==> self.v@[k] == entropy_input@[16 + k],
            decreases 16 - i,
        {
            self.key[i] = entropy_input[i];
            self.v[i] = entropy_input[16 + i];
            i += 1;
        }
        proof {
            assert(self.key@ =~= entropy_input@.take(16));
            assert(self.v@ =~= entropy_input@.skip(16).take(16));
        }
    }

    /// Advances the counter by one, big-endian with carry.
    fn increment(&mut self)
        ensures
            final(self).key == old(self).key,
            final(self).v@ == inc1(old(self).v@),
    {
        let ghost v0 = self.v@;
        let mut j: usize = 16;
        while j > 0
            invariant
                j <= 16,
                v0.len() == 16,
                v0 == old(self).v@,
                self.key == old(self).key,
                forall|k: int| 0 <= k < j ==> #[trigger] self.v@[k] == v0[k],
                forall|k: int| j <= k < 16 ==> #[trigger] self.v@[k] == 0,
                forall|k: int| j <= k < 16 ==> #[trigger] v0[k] == 255,
            decreases j,
        {
            j -= 1;
            if self.v[j] == 0xff {
                self.v[j] = 0;
            } else {
                let b: u8 = self.v[j];
                self.v[j] = b + 1;
                proof {
                    lemma_inc1_shape(v0, j as int);
                    let rhs = v0.take(j as int).push((v0[j as int] + 1) as u8)
                        + Seq::new((15 - j) as nat, |x: int| 0u8);
                    assert(rhs.len() == 16);
                    assert forall|k: int| 0 <= k < 16 implies self.v@[k] == rhs[k] by {
                        if k < j {
                            assert(rhs[k] == v0.take(j as int)[k]);
                        } else if k == j {
                            assert(rhs[k] == (v0[j as int] + 1) as u8);
                        } else {
                            assert(rhs[k] == Seq::new((15 - j) as nat, |x: int| 0u8)[k - j - 1]);
                        }
                    }
                    assert(self.v@ =~= rhs);
                }
                return;
            }
        }
        proof {
            lemma_inc1_all_carry(v0);
            assert forall|k: int| 0 <= k < 16 implies
                self.v@[k] == Seq::new(16, |x: int| 0u8)[k] by {
            }
            assert(self.v@ =~= Seq::new(16, |x: int| 0u8));
        }
    }

    /// Fills the buffer with the next bytes of the keystream: for each
    /// 16-byte chunk the counter is incremented and the block encrypted
    /// under the fixed key. Deterministic for a given state.
    pub fn randombytes(&mut self, x: &mut [u8]) -> (res: Result<(), ()>)
        requires
            old(x)@.len() <= 0x1000_0000,
        ensures
            res.is_ok(),
            final(self).key == old(self).key,
            final(self).v@ == inc_n(old(self).v@, ((old(x)@.len() + 15) / 16) as nat),
            final(x)@.len() == old(x)@.len(),
            forall|j: int| 0 <= j < old(x)@.len() ==>
                final(x)@[j] == ctr_byte(old(self).key@, old(self).v@, j),
    {
        let ghost key0 = old(self).key@;
        let ghost v0 = old(self).v@;
        let n: usize = x.len();
        let mut i: usize = 0;
        while i < n
            invariant
                i % 16 == 0,
                i <= n + 15,
                n <= 0x1000_0000,
                n == x@.len(),
                key0.len() == 16,
                v0.len() == 16,
                self.key@ == key0,
                self.v@ == inc_n(v0, (i / 16) as nat),
                forall|j: int| 0 <= j < i && j < n ==> x@[j] == ctr_byte(key0, v0, j),
            decreases n + 16 - i,
        {
            self.increment();
            proof {
                assert(self.v@ == inc_n(v0, (i / 16 + 1) as nat));
            }
            let block = aes128_block(&self.key, &self.v);
            let mut k: usize = 0;
            while k < 16 && i + k < n
                invariant
                    k <= 16,
                    i % 16 == 0,
                    i + k <= n + 15,
                    n == x@.len(),
                    self.key@ == key0,
                    self.v@ == inc_n(v0, (i / 16 + 1) as nat),
                    block@ == aes128_block_of(key0, inc_n(v0, (i / 16 + 1) as nat)),
                    forall|j: int| 0 <= j < i && j < n ==> x@[j] == ctr_byte(key0, v0, j),
                    forall|j: int| i <= j < i + k ==> x@[j] == ctr_byte(key0, v0, j),
                decreases 16 - k,
            {
                x[i + k] = block[k];
                proof {
                    let j = (i + k) as int;
                    vstd::arithmetic::div_mod::lemma_fundamental_div_mod_converse(
                        j, 16, (i / 16) as int, k as int);
                    assert(x@[j] == ctr_byte(key0, v0, j));
                }
                k += 1;
            }
            i += 16;
        }
        proof {
            vstd::arithmetic::div_mod::lemma_fundamental_div_mod(i as int, 16);
            assert((n + 15) / 16 == i / 16) by {
                vstd::arithmetic::div_mod::lemma_fundamental_div_mod_converse(
                    n as int + 15, 16, (i / 16) as int, n + 15 - i);
            }
        }
        Ok(())
    }
}

} // verus!
