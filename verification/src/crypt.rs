//! Block-streamed authenticated encryption. Plaintext is split into
//! fixed-size blocks; each block is sealed by an AEAD construction whose
//! nonce combines the header's nonce base with the block counter and a
//! last-block flag, so that truncating, reordering or extending the sealed
//! stream is detected. The header's salt is the associated data of every
//! block.
//!
//! The sealed form of a single block is named by the spec function
//! [`seal_of`]; the whole sealed stream of a plaintext is the spec function
//! [`cipher_of`]. Encryption returns exactly `cipher_of` of its input, and
//! decryption accepts exactly the streams that `cipher_of` produces.

use vstd::prelude::*;
use vstd::slice::slice_subrange;
use crate::header::{Header, NONCE_LEN};
use crate::key::{Key, KEY_LEN};
use crate::secret::{Erase, Secret};

verus! {

/// Length in bytes of a block of plain data sealed at a time.
pub const PLAIN_BLOCK_LEN: usize = 0x1000;

/// Length in bytes of an authentication tag.
pub const TAG_LEN: usize = 0x10;

/// Length in bytes of a sealed block: a full plain block plus its tag.
pub const ENCRYPTED_BLOCK_LEN: usize = PLAIN_BLOCK_LEN + TAG_LEN;

/// The longest plaintext `encrypt` accepts: one gibibyte, far below what
/// the 32-bit block counter could accommodate.
pub const MAX_PLAIN_LEN: usize = 0x4000_0000;

/// Cryptographic context: the private key together with the public header.
pub struct CryptCtx<'k, 'h> {
    key: &'k Key,
    head: &'h Header,
}

#[derive(Debug)]
pub enum Error {
    /// A block could not be sealed.
    EncryptingBlock,
    /// A block failed authentication: the key is wrong or the data is
    /// corrupted, and the two cases are deliberately indistinguishable.
    DecryptingBlock,
}

/// The sealed form (ciphertext, then a 16-byte tag) of one block under the
/// given key, nonce base, block counter, last-block flag and associated
/// data. Deterministic in its arguments.
pub uninterp spec fn seal_of(
    key: Seq<u8>,
    nonce: Seq<u8>,
    counter: nat,
    last: bool,
    aad: Seq<u8>,
    plain: Seq<u8>,
) -> Seq<u8>;

/// The sealed stream of plaintext `p` starting at block counter `ctr`:
/// full blocks are sealed with the last-block flag clear, and the final
/// block, possibly short but never empty, with it set. Empty input
/// produces an empty stream.
pub open spec fn stream_cipher_of(
    key: Seq<u8>,
    nonce: Seq<u8>,
    aad: Seq<u8>,
    p: Seq<u8>,
    ctr: nat,
) -> Seq<u8>
    decreases p.len(),
{
    if p.len() == 0 {
        Seq::empty()
    } else if p.len() <= PLAIN_BLOCK_LEN {
        seal_of(key, nonce, ctr, true, aad, p)
    } else {
        seal_of(key, nonce, ctr, false, aad, p.take(PLAIN_BLOCK_LEN as int))
            + stream_cipher_of(key, nonce, aad, p.skip(PLAIN_BLOCK_LEN as int), ctr + 1)
    }
}

/// The whole sealed stream of a plaintext, counting blocks from zero.
pub open spec fn cipher_of(key: Seq<u8>, nonce: Seq<u8>, aad: Seq<u8>, p: Seq<u8>) -> Seq<u8> {
    stream_cipher_of(key, nonce, aad, p, 0)
}

/// Each sealed block of the stream for `p` is exactly its plain block plus
/// the 16-byte tag. This holds of every stream the cipher produces; it is
/// recorded here because the block boundaries of a sealed stream depend on
/// it.
pub open spec fn seal_sizes_ok(
    key: Seq<u8>,
    nonce: Seq<u8>,
    aad: Seq<u8>,
    p: Seq<u8>,
    ctr: nat,
) -> bool
    decreases p.len(),
{
    if p.len() == 0 {
        true
    } else if p.len() <= PLAIN_BLOCK_LEN {
        seal_of(key, nonce, ctr, true, aad, p).len() == p.len() + TAG_LEN
    } else {
        seal_of(key, nonce, ctr, false, aad, p.take(PLAIN_BLOCK_LEN as int)).len()
            == PLAIN_BLOCK_LEN + TAG_LEN
            && seal_sizes_ok(key, nonce, aad, p.skip(PLAIN_BLOCK_LEN as int), ctr + 1)
    }
}

/// The longest sealed stream that a plaintext within [`MAX_PLAIN_LEN`] can
/// produce: every plain block carries one 16-byte tag.
pub const MAX_CIPHER_LEN: usize = MAX_PLAIN_LEN + TAG_LEN * 0x40000;

/// The number of blocks a plaintext of the given length splits into.
pub open spec fn spec_num_blocks(len: nat) -> nat
    decreases len,
{
    if len == 0 {
        0
    } else if len <= PLAIN_BLOCK_LEN {
        1
    } else {
        1 + spec_num_blocks((len - PLAIN_BLOCK_LEN) as nat)
    }
}

/// A sealed stream whose blocks are all sealed with the last-block flag
/// clear: the form a partially read stream takes while blocks remain.
pub open spec fn partial_cipher_of(
    key: Seq<u8>,
    nonce: Seq<u8>,
    aad: Seq<u8>,
    p: Seq<u8>,
    ctr: nat,
) -> Seq<u8>
    decreases p.len(),
{
    if p.len() == 0 {
        Seq::empty()
    } else if p.len() <= PLAIN_BLOCK_LEN {
        seal_of(key, nonce, ctr, false, aad, p)
    } else {
        seal_of(key, nonce, ctr, false, aad, p.take(PLAIN_BLOCK_LEN as int))
            + partial_cipher_of(key, nonce, aad, p.skip(PLAIN_BLOCK_LEN as int), ctr + 1)
    }
}

/// Like [`seal_sizes_ok`], for the all-non-last form.
pub open spec fn partial_sizes_ok(
    key: Seq<u8>,
    nonce: Seq<u8>,
    aad: Seq<u8>,
    p: Seq<u8>,
    ctr: nat,
) -> bool
    decreases p.len(),
{
    if p.len() == 0 {
        true
    } else if p.len() <= PLAIN_BLOCK_LEN {
        seal_of(key, nonce, ctr, false, aad, p).len() == p.len() + TAG_LEN
    } else {
        seal_of(key, nonce, ctr, false, aad, p.take(PLAIN_BLOCK_LEN as int)).len()
            == PLAIN_BLOCK_LEN + TAG_LEN
            && partial_sizes_ok(key, nonce, aad, p.skip(PLAIN_BLOCK_LEN as int), ctr + 1)
    }
}

proof fn lemma_num_blocks(len: nat)
    ensures
        len == 0 ==> spec_num_blocks(len) == 0,
        len > 0 ==> 1 <= spec_num_blocks(len),
        len > 0 ==> (spec_num_blocks(len) - 1) * (PLAIN_BLOCK_LEN as int) < len,
        len > 0 && len <= PLAIN_BLOCK_LEN ==> spec_num_blocks(len) == 1,
    decreases len,
{
    if len > PLAIN_BLOCK_LEN {
        lemma_num_blocks((len - PLAIN_BLOCK_LEN) as nat);
        let nb = spec_num_blocks((len - PLAIN_BLOCK_LEN) as nat);
        assert((nb - 1) * (PLAIN_BLOCK_LEN as int) < len - PLAIN_BLOCK_LEN);
        assert(((nb + 1) - 1) * (PLAIN_BLOCK_LEN as int)
            == (nb - 1) * (PLAIN_BLOCK_LEN as int) + PLAIN_BLOCK_LEN) by (nonlinear_arith);
    }
}

/// Under the recorded per-block sizes, a sealed stream's length is its
/// plaintext's length plus one tag per block.
proof fn lemma_stream_len(key: Seq<u8>, nonce: Seq<u8>, aad: Seq<u8>, p: Seq<u8>, ctr: nat)
    requires
        seal_sizes_ok(key, nonce, aad, p, ctr),
    ensures
        stream_cipher_of(key, nonce, aad, p, ctr).len()
            == p.len() + (TAG_LEN as int) * spec_num_blocks(p.len()),
    decreases p.len(),
{
    if p.len() == 0 {
    } else if p.len() <= PLAIN_BLOCK_LEN {
    } else {
        lemma_stream_len(key, nonce, aad, p.skip(PLAIN_BLOCK_LEN as int), ctr + 1);
        assert((TAG_LEN as int) * spec_num_blocks(p.len())
            == TAG_LEN + (TAG_LEN as int) * spec_num_blocks((p.len() - PLAIN_BLOCK_LEN) as nat))
            by (nonlinear_arith)
            requires spec_num_blocks(p.len())
                == 1 + spec_num_blocks((p.len() - PLAIN_BLOCK_LEN) as nat);
        assert(p.skip(PLAIN_BLOCK_LEN as int).len() == p.len() - PLAIN_BLOCK_LEN);
    }
}

/// Extending an all-non-last stream by one further full block.
proof fn lemma_partial_extend(
    key: Seq<u8>,
    nonce: Seq<u8>,
    aad: Seq<u8>,
    prior: Seq<u8>,
    blk: Seq<u8>,
    ctr: nat,
    b: nat,
)
    requires
        prior.len() == b * (PLAIN_BLOCK_LEN as int),
        blk.len() == PLAIN_BLOCK_LEN,
        partial_sizes_ok(key, nonce, aad, prior, ctr),
        seal_of(key, nonce, ctr + b, false, aad, blk).len() == PLAIN_BLOCK_LEN + TAG_LEN,
    ensures
        partial_cipher_of(key, nonce, aad, prior + blk, ctr)
            == partial_cipher_of(key, nonce, aad, prior, ctr)
                + seal_of(key, nonce, ctr + b, false, aad, blk),
        partial_sizes_ok(key, nonce, aad, prior + blk, ctr),
    decreases prior.len(),
{
    if prior.len() == 0 {
        assert(b == 0) by (nonlinear_arith)
            requires b * (PLAIN_BLOCK_LEN as int) == 0;
        assert(prior + blk =~= blk);
        assert(partial_cipher_of(key, nonce, aad, prior, ctr) + seal_of(key, nonce, ctr, false, aad, blk)
            =~= seal_of(key, nonce, ctr, false, aad, blk));
    } else {
        assert(b >= 1) by (nonlinear_arith)
            requires b * (PLAIN_BLOCK_LEN as int) > 0;
        let q = prior + blk;
        assert(q.len() > PLAIN_BLOCK_LEN);
        assert(q.take(PLAIN_BLOCK_LEN as int) =~= prior.take(PLAIN_BLOCK_LEN as int));
        assert(q.skip(PLAIN_BLOCK_LEN as int) =~= prior.skip(PLAIN_BLOCK_LEN as int) + blk);
        assert(prior.skip(PLAIN_BLOCK_LEN as int).len() == (b - 1) * (PLAIN_BLOCK_LEN as int))
            by (nonlinear_arith)
            requires
                prior.len() == b * (PLAIN_BLOCK_LEN as int),
                b >= 1,
                prior.skip(PLAIN_BLOCK_LEN as int).len() == prior.len() - PLAIN_BLOCK_LEN;
        assert(prior.len() > PLAIN_BLOCK_LEN || prior.len() == PLAIN_BLOCK_LEN) by (nonlinear_arith)
            requires prior.len() == b * (PLAIN_BLOCK_LEN as int), b >= 1;
        if prior.len() == PLAIN_BLOCK_LEN {
            assert(prior.take(PLAIN_BLOCK_LEN as int) =~= prior);
            assert(prior.skip(PLAIN_BLOCK_LEN as int) =~= Seq::<u8>::empty());
        }
        lemma_partial_extend(
            key, nonce, aad,
            prior.skip(PLAIN_BLOCK_LEN as int),
            blk,
            ctr + 1,
            (b - 1) as nat,
        );
        assert(partial_cipher_of(key, nonce, aad, q, ctr)
            =~= partial_cipher_of(key, nonce, aad, prior, ctr)
                + seal_of(key, nonce, ctr + b, false, aad, blk));
    }
}

/// Closing an all-non-last stream with a final block sealed with the
/// last-block flag set yields exactly the sealed stream of the whole
/// plaintext, with every per-block size recorded.
proof fn lemma_concat_full(
    key: Seq<u8>,
    nonce: Seq<u8>,
    aad: Seq<u8>,
    prior: Seq<u8>,
    plast: Seq<u8>,
    ctr: nat,
    b: nat,
)
    requires
        prior.len() == b * (PLAIN_BLOCK_LEN as int),
        0 < plast.len() <= PLAIN_BLOCK_LEN,
        partial_sizes_ok(key, nonce, aad, prior, ctr),
        seal_of(key, nonce, ctr + b, true, aad, plast).len() == plast.len() + TAG_LEN,
    ensures
        stream_cipher_of(key, nonce, aad, prior + plast, ctr)
            == partial_cipher_of(key, nonce, aad, prior, ctr)
                + seal_of(key, nonce, ctr + b, true, aad, plast),
        seal_sizes_ok(key, nonce, aad, prior + plast, ctr),
    decreases prior.len(),
{
    if prior.len() == 0 {
        assert(b == 0) by (nonlinear_arith)
            requires b * (PLAIN_BLOCK_LEN as int) == 0;
        assert(prior + plast =~= plast);
        assert(partial_cipher_of(key, nonce, aad, prior, ctr)
                + seal_of(key, nonce, ctr, true, aad, plast)
            =~= seal_of(key, nonce, ctr, true, aad, plast));
    } else {
        assert(b >= 1) by (nonlinear_arith)
            requires b * (PLAIN_BLOCK_LEN as int) > 0;
        let q = prior + plast;
        assert(q.len() > PLAIN_BLOCK_LEN);
        assert(q.take(PLAIN_BLOCK_LEN as int) =~= prior.take(PLAIN_BLOCK_LEN as int));
        assert(q.skip(PLAIN_BLOCK_LEN as int) =~= prior.skip(PLAIN_BLOCK_LEN as int) + plast);
        assert(prior.skip(PLAIN_BLOCK_LEN as int).len() == (b - 1) * (PLAIN_BLOCK_LEN as int))
            by (nonlinear_arith)
            requires
                prior.len() == b * (PLAIN_BLOCK_LEN as int),
                b >= 1,
                prior.skip(PLAIN_BLOCK_LEN as int).len() == prior.len() - PLAIN_BLOCK_LEN;
        assert(prior.len() > PLAIN_BLOCK_LEN || prior.len() == PLAIN_BLOCK_LEN) by (nonlinear_arith)
            requires prior.len() == b * (PLAIN_BLOCK_LEN as int), b >= 1;
        if prior.len() == PLAIN_BLOCK_LEN {
            assert(prior.take(PLAIN_BLOCK_LEN as int) =~= prior);
            assert(prior.skip(PLAIN_BLOCK_LEN as int) =~= Seq::<u8>::empty());
        }
        lemma_concat_full(
            key, nonce, aad,
            prior.skip(PLAIN_BLOCK_LEN as int),
            plast,
            ctr + 1,
            (b - 1) as nat,
        );
        assert(stream_cipher_of(key, nonce, aad, q, ctr)
            =~= partial_cipher_of(key, nonce, aad, prior, ctr)
                + seal_of(key, nonce, ctr + b, true, aad, plast));
    }
}

impl<'k, 'h> CryptCtx<'k, 'h> {
    pub closed spec fn spec_key(&self) -> Seq<u8> {
        self.key@
    }

    pub closed spec fn spec_nonce(&self) -> Seq<u8> {
        self.head.spec_nonce()
    }

    pub closed spec fn spec_salt(&self) -> Seq<u8> {
        self.head.spec_salt()
    }

    pub open spec fn well_formed(&self) -> bool {
        self.spec_key().len() == KEY_LEN && self.spec_nonce().len() == NONCE_LEN
    }

    /// The stream that this context's `encrypt` produces for plaintext `p`,
    /// and the only stream its `decrypt` accepts for `p`.
    pub open spec fn spec_cipher(&self, p: Seq<u8>) -> Seq<u8> {
        cipher_of(self.spec_key(), self.spec_nonce(), self.spec_salt(), p)
    }

    /// `src` is the sealed stream of plaintext `p` under this context, as
    /// `encrypt` would produce it. `decrypt` recovers `p` from exactly
    /// these streams.
    pub open spec fn decrypts_to(&self, src: Seq<u8>, p: Seq<u8>) -> bool {
        &&& p.len() <= MAX_PLAIN_LEN
        &&& seal_sizes_ok(self.spec_key(), self.spec_nonce(), self.spec_salt(), p, 0)
        &&& src == self.spec_cipher(p)
    }

    /// Constructs a new `CryptCtx`.
    pub fn new(key: &'k Key, head: &'h Header) -> (r: Self)
        requires
            key.well_formed(),
            head.well_formed(),
        ensures
            r.spec_key() == key@,
            r.spec_nonce() == head.spec_nonce(),
            r.spec_salt() == head.spec_salt(),
            r.well_formed(),
    {
        CryptCtx { key, head }
    }

    /// Seals `src` block by block and returns the sealed stream. Empty
    /// input produces empty output.
    pub fn encrypt(&self, src: &[u8]) -> (r: Result<Vec<u8>, Error>)
        requires
            self.well_formed(),
            src@.len() <= MAX_PLAIN_LEN,
        ensures
            r matches Ok(c) ==> c@ == self.spec_cipher(src@)
                && seal_sizes_ok(self.spec_key(), self.spec_nonce(), self.spec_salt(), src@, 0),
            r is Ok,
    {
        let ghost k = self.spec_key();
        let ghost no = self.spec_nonce();
        let ghost a = self.spec_salt();
        let n: usize = src.len();
        let mut out: Vec<u8> = Vec::new();
        let mut off: usize = 0;
        let mut ctr: u32 = 0;

        proof {
            assert(src@.skip(0) =~= src@);
        }

        while off < n
            invariant
                self.well_formed(),
                k == self.spec_key(),
                no == self.spec_nonce(),
                a == self.spec_salt(),
                n == src@.len(),
                n <= MAX_PLAIN_LEN,
                off <= n,
                off < n ==> off == (ctr as int) * (PLAIN_BLOCK_LEN as int),
                out@ + stream_cipher_of(k, no, a, src@.skip(off as int), ctr as nat)
                    == cipher_of(k, no, a, src@),
                seal_sizes_ok(k, no, a, src@.skip(off as int), ctr as nat)
                    ==> seal_sizes_ok(k, no, a, src@, 0),
            decreases n - off,
        {
            let remaining: usize = n - off;
            let last: bool = remaining <= PLAIN_BLOCK_LEN;
            let blk_end: usize = if last { n } else { off + PLAIN_BLOCK_LEN };
            let block = slice_subrange(src, off, blk_end);
            let ghost rest = src@.skip(off as int);
            proof {
                if last {
                    assert(block@ =~= rest);
                } else {
                    assert(block@ =~= rest.take(PLAIN_BLOCK_LEN as int));
                    assert(src@.skip(blk_end as int) =~= rest.skip(PLAIN_BLOCK_LEN as int));
                }
            }
            let mut sealed = match seal_block(
                self.key.as_slice(),
                self.head.nonce(),
                ctr,
                last,
                self.head.salt(),
                block,
            ) {
                Ok(c) => c,
                Err(e) => {
                    return Err(e);
                },
            };
            out.append(&mut sealed);
            if last {
                proof {
                    assert(stream_cipher_of(k, no, a, rest, ctr as nat)
                        == seal_of(k, no, ctr as nat, true, a, rest));
                    assert(src@.skip(n as int) =~= Seq::<u8>::empty());
                    assert(out@ + stream_cipher_of(k, no, a, src@.skip(n as int), (ctr + 1) as nat)
                        =~= cipher_of(k, no, a, src@));
                }
                off = n;
                ctr = ctr + 1;
            } else {
                proof {
                    assert(stream_cipher_of(k, no, a, rest, ctr as nat)
                        == seal_of(k, no, ctr as nat, false, a, rest.take(PLAIN_BLOCK_LEN as int))
                            + stream_cipher_of(k, no, a, rest.skip(PLAIN_BLOCK_LEN as int), (ctr + 1) as nat));
                    assert(out@ + stream_cipher_of(k, no, a, src@.skip(blk_end as int), (ctr + 1) as nat)
                        =~= cipher_of(k, no, a, src@));
                }
                off = blk_end;
                ctr = ctr + 1;
            }
        }
        proof {
            assert(src@.skip(n as int) =~= Seq::<u8>::empty());
            assert(out@ + Seq::<u8>::empty() =~= out@);
        }
        Ok(out)
    }

    /// Opens `src` block by block, accumulating the plaintext in a
    /// [`Secret`]-wrapped buffer which is scrubbed before any error
    /// propagates. Succeeds on exactly the streams `encrypt` produces
    /// under the same key and header. A failed block authentication
    /// reports the single opaque `DecryptingBlock` condition: whether the
    /// key is wrong or the data corrupted is deliberately not revealed.
    pub fn decrypt(&self, src: &[u8]) -> (r: Result<Secret<Vec<u8>>, Error>)
        requires
            self.well_formed(),
        ensures
            r matches Ok(p) ==> src@ == self.spec_cipher(p.value()@)
                && seal_sizes_ok(self.spec_key(), self.spec_nonce(), self.spec_salt(), p.value()@, 0)
                && p.value()@.len() <= src@.len(),
            forall|p: Seq<u8>| self.decrypts_to(src@, p)
                ==> (r matches Ok(q) && q.value()@ == p),
    {
        let ghost k = self.spec_key();
        let ghost no = self.spec_nonce();
        let ghost a = self.spec_salt();
        let n: usize = src.len();

        if n == 0 {
            proof {
                assert(src@ =~= Seq::<u8>::empty());
                assert(cipher_of(k, no, a, Seq::<u8>::empty()) =~= Seq::<u8>::empty());
                assert forall|p: Seq<u8>| self.decrypts_to(src@, p) implies p =~= Seq::<u8>::empty() by {
                    if p.len() > 0 {
                        lemma_stream_len(k, no, a, p, 0);
                        lemma_num_blocks(p.len());
                    }
                }
            }
            return Ok(Secret::new(Vec::new()));
        }

        if n > MAX_CIPHER_LEN {
            proof {
                assert forall|p: Seq<u8>| !self.decrypts_to(src@, p) by {
                    if self.decrypts_to(src@, p) {
                        lemma_stream_len(k, no, a, p, 0);
                        lemma_num_blocks(p.len());
                        if p.len() > 0 {
                            assert(spec_num_blocks(p.len()) <= 0x40000);
                        }
                    }
                }
            }
            return Err(Error::DecryptingBlock);
        }

        let mut result: Vec<u8> = Vec::new();
        let mut off: usize = 0;
        let mut ctr: u32 = 0;
        let ghost mut done: bool = false;

        proof {
            assert(src@.take(0) =~= Seq::<u8>::empty());
            assert(partial_cipher_of(k, no, a, Seq::<u8>::empty(), 0) =~= Seq::<u8>::empty());
            assert forall|p: Seq<u8>| #[trigger] self.decrypts_to(src@, p) implies {
                &&& result@ == p.take(0)
                &&& 0 <= p.len()
                &&& src@.skip(0) == stream_cipher_of(k, no, a, p.skip(0), 0)
                &&& seal_sizes_ok(k, no, a, p.skip(0), 0)
            } by {
                assert(p.take(0) =~= Seq::<u8>::empty());
                assert(p.skip(0) =~= p);
                assert(src@.skip(0) =~= src@);
            }
        }

        while off < n
            invariant
                self.well_formed(),
                k == self.spec_key(),
                no == self.spec_nonce(),
                a == self.spec_salt(),
                n == src@.len(),
                0 < n <= MAX_CIPHER_LEN,
                off <= n,
                result@.len() <= off,
                !done ==> off < n,
                !done ==> off == (ctr as int) * (ENCRYPTED_BLOCK_LEN as int),
                !done ==> result@.len() == (ctr as int) * (PLAIN_BLOCK_LEN as int),
                !done ==> src@.take(off as int) == partial_cipher_of(k, no, a, result@, 0),
                !done ==> partial_sizes_ok(k, no, a, result@, 0),
                done ==> off == n
                    && src@ == stream_cipher_of(k, no, a, result@, 0)
                    && seal_sizes_ok(k, no, a, result@, 0),
                !done ==> forall|p: Seq<u8>| #[trigger] self.decrypts_to(src@, p) ==> {
                    &&& result@ == p.take((ctr as int) * (PLAIN_BLOCK_LEN as int))
                    &&& (ctr as int) * (PLAIN_BLOCK_LEN as int) <= p.len()
                    &&& src@.skip(off as int) == stream_cipher_of(
                        k, no, a, p.skip((ctr as int) * (PLAIN_BLOCK_LEN as int)), ctr as nat)
                    &&& seal_sizes_ok(
                        k, no, a, p.skip((ctr as int) * (PLAIN_BLOCK_LEN as int)), ctr as nat)
                },
                done ==> forall|p: Seq<u8>| #[trigger] self.decrypts_to(src@, p) ==> result@ == p,
            decreases n - off,
        {
            let remaining: usize = n - off;
            let last: bool = remaining <= ENCRYPTED_BLOCK_LEN;
            let chunk_end: usize = if last { n } else { off + ENCRYPTED_BLOCK_LEN };
            let chunk = slice_subrange(src, off, chunk_end);
            let ghost ctr_pb = (ctr as int) * (PLAIN_BLOCK_LEN as int);

            if chunk.len() < TAG_LEN + 1 {
                // Only a trailing fragment shorter than a tag plus one byte
                // can land here, and no sealed stream ends with one.
                proof {
                    assert forall|p: Seq<u8>| !self.decrypts_to(src@, p) by {
                        if self.decrypts_to(src@, p) {
                            let rest_p = p.skip(ctr_pb);
                            lemma_stream_len(k, no, a, rest_p, ctr as nat);
                            lemma_num_blocks(rest_p.len());
                        }
                    }
                }
                result.erase();
                return Err(Error::DecryptingBlock);
            }

            let opened = open_block(
                self.key.as_slice(),
                self.head.nonce(),
                ctr,
                last,
                self.head.salt(),
                chunk,
            );

            // What any plaintext this stream decrypts to must look like at
            // this block: its next block is exactly this chunk's seal.
            proof {
                assert forall|p: Seq<u8>| #[trigger] self.decrypts_to(src@, p) implies {
                    &&& (if last {
                        chunk@ == seal_of(k, no, ctr as nat, true, a, p.skip(ctr_pb))
                    } else {
                        chunk@ == seal_of(k, no, ctr as nat, false, a,
                            p.skip(ctr_pb).take(PLAIN_BLOCK_LEN as int))
                    })
                } by {
                    let rest_p = p.skip(ctr_pb);
                    lemma_stream_len(k, no, a, rest_p, ctr as nat);
                    lemma_num_blocks(rest_p.len());
                    assert(rest_p.len() > 0);
                    if last {
                        if rest_p.len() > PLAIN_BLOCK_LEN {
                            lemma_stream_len(
                                k, no, a, rest_p.skip(PLAIN_BLOCK_LEN as int), ctr as nat + 1);
                            lemma_num_blocks(rest_p.skip(PLAIN_BLOCK_LEN as int).len());
                            assert(false);
                        }
                        assert(stream_cipher_of(k, no, a, rest_p, ctr as nat)
                            == seal_of(k, no, ctr as nat, true, a, rest_p));
                        assert(chunk@ =~= src@.skip(off as int));
                    } else {
                        if rest_p.len() <= PLAIN_BLOCK_LEN {
                            assert(stream_cipher_of(k, no, a, rest_p, ctr as nat)
                                == seal_of(k, no, ctr as nat, true, a, rest_p));
                            assert(false);
                        }
                        let seal_f = seal_of(k, no, ctr as nat, false, a,
                            rest_p.take(PLAIN_BLOCK_LEN as int));
                        assert(seal_f.len() == ENCRYPTED_BLOCK_LEN);
                        assert(stream_cipher_of(k, no, a, rest_p, ctr as nat)
                            == seal_f + stream_cipher_of(
                                k, no, a, rest_p.skip(PLAIN_BLOCK_LEN as int), ctr as nat + 1));
                        assert(chunk@ =~= src@.skip(off as int).take(ENCRYPTED_BLOCK_LEN as int));
                        assert(src@.skip(off as int).take(ENCRYPTED_BLOCK_LEN as int) =~= seal_f);
                    }
                }
            }

            match opened {
                Ok(block) => {
                    let mut block = block;
                    let ghost prior = result@;
                    let ghost qv = block@;
                    result.append(&mut block);
                    if last {
                        proof {
                            lemma_concat_full(k, no, a, prior, qv, 0, ctr as nat);
                            assert(src@.take(n as int) =~= src@);
                            assert(src@.take(n as int) =~= src@.take(off as int) + chunk@);
                            assert(result@ =~= prior + qv);
                            // every stream this could decrypt to is now fully read
                            assert forall|p: Seq<u8>| #[trigger] self.decrypts_to(src@, p)
                                implies result@ == p by {
                                assert(qv == p.skip(ctr_pb));
                                assert(prior + p.skip(ctr_pb) =~= p);
                            }
                            done = true;
                        }
                        off = n;
                    } else {
                        proof {
                            assert((ctr as int + 1) * (ENCRYPTED_BLOCK_LEN as int)
                                == (ctr as int) * (ENCRYPTED_BLOCK_LEN as int)
                                    + ENCRYPTED_BLOCK_LEN) by (nonlinear_arith);
                            assert((ctr as int + 1) * (PLAIN_BLOCK_LEN as int)
                                == (ctr as int) * (PLAIN_BLOCK_LEN as int)
                                    + PLAIN_BLOCK_LEN) by (nonlinear_arith);
                            lemma_partial_extend(k, no, a, prior, qv, 0, ctr as nat);
                            assert(src@.take(chunk_end as int)
                                =~= src@.take(off as int) + chunk@);
                            assert(result@ =~= prior + qv);
                            assert forall|p: Seq<u8>| #[trigger] self.decrypts_to(src@, p)
                                implies {
                                &&& result@ == p.take(ctr_pb + PLAIN_BLOCK_LEN)
                                &&& ctr_pb + PLAIN_BLOCK_LEN <= p.len()
                                &&& src@.skip(chunk_end as int) == stream_cipher_of(
                                    k, no, a, p.skip(ctr_pb + PLAIN_BLOCK_LEN), ctr as nat + 1)
                                &&& seal_sizes_ok(
                                    k, no, a, p.skip(ctr_pb + PLAIN_BLOCK_LEN), ctr as nat + 1)
                            } by {
                                let rest_p = p.skip(ctr_pb);
                                assert(qv == rest_p.take(PLAIN_BLOCK_LEN as int));
                                assert(prior + rest_p.take(PLAIN_BLOCK_LEN as int)
                                    =~= p.take(ctr_pb + PLAIN_BLOCK_LEN));
                                assert(p.skip(ctr_pb + PLAIN_BLOCK_LEN)
                                    =~= rest_p.skip(PLAIN_BLOCK_LEN as int));
                                let seal_f = seal_of(k, no, ctr as nat, false, a,
                                    rest_p.take(PLAIN_BLOCK_LEN as int));
                                assert(stream_cipher_of(k, no, a, rest_p, ctr as nat)
                                    == seal_f + stream_cipher_of(
                                        k, no, a, rest_p.skip(PLAIN_BLOCK_LEN as int),
                                        ctr as nat + 1));
                                assert(src@.skip(chunk_end as int)
                                    =~= src@.skip(off as int).skip(ENCRYPTED_BLOCK_LEN as int));
                                assert(src@.skip(off as int).skip(ENCRYPTED_BLOCK_LEN as int)
                                    =~= stream_cipher_of(
                                        k, no, a, rest_p.skip(PLAIN_BLOCK_LEN as int),
                                        ctr as nat + 1));
                            }
                        }
                        off = chunk_end;
                        ctr = ctr + 1;
                    }
                },
                Err(_) => {
                    // An unopenable block: under this key, nonce and salt no
                    // sealed stream has this chunk at this position.
                    proof {
                        assert forall|p: Seq<u8>| !self.decrypts_to(src@, p) by {}
                    }
                    result.erase();
                    return Err(Error::DecryptingBlock);
                },
            }
        }
        Ok(Secret::new(result))
    }

    /// The round-trip law: decrypting an encryption of any plaintext
    /// within bounds, under the same key and header, yields exactly that
    /// plaintext — empty, single-block and multi-block alike. Follows
    /// from `encrypt` producing `cipher_of` and `decrypt` accepting it.
    pub fn round_trip(&self, src: &[u8]) -> (r: Vec<u8>)
        requires
            self.well_formed(),
            src@.len() <= MAX_PLAIN_LEN,
        ensures
            r@ == src@,
    {
        let sealed = self.encrypt(src).unwrap();
        proof {
            assert(self.decrypts_to(sealed@, src@));
        }
        let opened = self.decrypt(sealed.as_slice()).unwrap();
        opened.into_inner()
    }
}

/// Relies on the aead crate's StreamPrimitive::encrypt for StreamBE32 over
/// XChaCha20Poly1305: seals one block at the given stream position with the
/// given last-block flag, a pure function of its arguments, named `seal_of`
/// here; the output is the ciphertext (as long as the input) followed by
/// the 16-byte tag, and the crate's source returns it for any block of at
/// most one plain block's length.
#[verifier::external_body]
fn seal_block(
    key: &Vec<u8>,
    nonce: &Vec<u8>,
    counter: u32,
    last: bool,
    aad: &Vec<u8>,
    plain: &[u8],
) -> (r: Result<Vec<u8>, Error>)
    requires
        key@.len() == KEY_LEN,
        nonce@.len() == NONCE_LEN,
        plain@.len() <= PLAIN_BLOCK_LEN,
    ensures
        r matches Ok(c) ==> c@ == seal_of(key@, nonce@, counter as nat, last, aad@, plain@)
            && c@.len() == plain@.len() + TAG_LEN,
        r is Ok,
{
    let cipher: chacha20poly1305::XChaCha20Poly1305 =
        chacha20poly1305::KeyInit::new(key.as_slice().into());
    let st: chacha20poly1305::aead::stream::StreamBE32<chacha20poly1305::XChaCha20Poly1305> =
        chacha20poly1305::aead::stream::NewStream::from_aead(cipher, nonce.as_slice().into());
    chacha20poly1305::aead::stream::StreamPrimitive::encrypt(
        &st,
        counter,
        last,
        chacha20poly1305::aead::Payload { msg: plain, aad: aad.as_slice() },
    ).map_err(|_| Error::EncryptingBlock)
}

/// Relies on the aead crate's StreamPrimitive::decrypt for StreamBE32 over
/// XChaCha20Poly1305: opening verifies the tag and succeeds exactly on the
/// blocks that sealing at the same position, flag and associated data
/// produced, returning the sealed plaintext; on everything else it fails.
#[verifier::external_body]
fn open_block(
    key: &Vec<u8>,
    nonce: &Vec<u8>,
    counter: u32,
    last: bool,
    aad: &Vec<u8>,
    sealed: &[u8],
) -> (r: Result<Vec<u8>, Error>)
    requires
        key@.len() == KEY_LEN,
        nonce@.len() == NONCE_LEN,
        sealed@.len() >= TAG_LEN,
    ensures
        r matches Ok(p) ==> sealed@ == seal_of(key@, nonce@, counter as nat, last, aad@, p@)
            && p@.len() + TAG_LEN == sealed@.len(),
        r is Err ==> forall|p: Seq<u8>|
            sealed@ != #[trigger] seal_of(key@, nonce@, counter as nat, last, aad@, p),
        r matches Ok(q) ==> forall|p: Seq<u8>|
            sealed@ == #[trigger] seal_of(key@, nonce@, counter as nat, last, aad@, p) ==> p == q@,
{
    let cipher: chacha20poly1305::XChaCha20Poly1305 =
        chacha20poly1305::KeyInit::new(key.as_slice().into());
    let st: chacha20poly1305::aead::stream::StreamBE32<chacha20poly1305::XChaCha20Poly1305> =
        chacha20poly1305::aead::stream::NewStream::from_aead(cipher, nonce.as_slice().into());
    chacha20poly1305::aead::stream::StreamPrimitive::decrypt(
        &st,
        counter,
        last,
        chacha20poly1305::aead::Payload { msg: sealed, aad: aad.as_slice() },
    ).map_err(|_| Error::DecryptingBlock)
}

} // verus!
