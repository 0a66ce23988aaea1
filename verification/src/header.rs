//! Public per-file metadata: a fixed-length salt used both for key
//! derivation and as associated data, and a fixed-length nonce base for the
//! streaming encryption. Generated fresh on every full rewrite and stored
//! verbatim at the start of the file.

use vstd::prelude::*;
use vstd::slice::{slice_subrange, slice_to_vec};

verus! {

/// Length in bytes of the password salt.
pub const SALT_LEN: usize = 16;

/// Length in bytes of the nonce base. The cipher's full nonce is 24 bytes,
/// of which 5 carry the block counter and last-block flag, so only 19 bytes
/// of random data are needed.
pub const NONCE_LEN: usize = 19;

/// Length in bytes of a serialized header: the salt followed by the nonce.
pub const HEADER_LEN: usize = SALT_LEN + NONCE_LEN;

/// Public, non-secret encryption metadata. Immutable once constructed.
pub struct Header {
    salt: Vec<u8>,
    nonce: Vec<u8>,
}

#[derive(Debug)]
pub enum Error {
    /// The input ended before a whole header could be read.
    Truncated,
    /// The operating system's random source yielded no data.
    GatheringRandomness,
}

impl Header {
    pub closed spec fn spec_salt(&self) -> Seq<u8> {
        self.salt@
    }

    pub closed spec fn spec_nonce(&self) -> Seq<u8> {
        self.nonce@
    }

    pub open spec fn well_formed(&self) -> bool {
        self.spec_salt().len() == SALT_LEN && self.spec_nonce().len() == NONCE_LEN
    }

    /// A header with a freshly drawn random salt and nonce base.
    pub fn generate() -> (r: Result<Self, Error>)
        ensures
            r matches Ok(h) ==> h.well_formed(),
    {
        let salt = match os_random_bytes(SALT_LEN) {
            Some(v) => v,
            None => {
                return Err(Error::GatheringRandomness);
            },
        };
        let nonce = match os_random_bytes(NONCE_LEN) {
            Some(v) => v,
            None => {
                return Err(Error::GatheringRandomness);
            },
        };
        Ok(Header { salt, nonce })
    }

    pub fn salt(&self) -> (r: &Vec<u8>)
        ensures
            r@ == self.spec_salt(),
    {
        &self.salt
    }

    pub fn nonce(&self) -> (r: &Vec<u8>)
        ensures
            r@ == self.spec_nonce(),
    {
        &self.nonce
    }

    /// Reads a header back from the first `HEADER_LEN` bytes of `src`.
    pub fn read_from(src: &[u8]) -> (r: Result<Self, Error>)
        ensures
            src@.len() >= HEADER_LEN ==> (r matches Ok(h)
                && h.spec_salt() == src@.subrange(0, SALT_LEN as int)
                && h.spec_nonce() == src@.subrange(SALT_LEN as int, HEADER_LEN as int)),
            src@.len() < HEADER_LEN ==> (r matches Err(e) && e is Truncated),
            r matches Ok(h) ==> h.well_formed(),
    {
        if src.len() < HEADER_LEN {
            return Err(Error::Truncated);
        }
        let salt = slice_to_vec(slice_subrange(src, 0, SALT_LEN));
        let nonce = slice_to_vec(slice_subrange(src, SALT_LEN, HEADER_LEN));
        Ok(Header { salt, nonce })
    }

    /// Appends the serialized header, salt then nonce, to `dest`.
    pub fn write_to(&self, dest: &mut Vec<u8>)
        ensures
            final(dest)@ == old(dest)@ + self.spec_salt() + self.spec_nonce(),
    {
        dest.extend_from_slice(self.salt.as_slice());
        dest.extend_from_slice(self.nonce.as_slice());
    }
}

/// Relies on rand's OsRng::try_fill_bytes: fills the buffer with random
/// bytes drawn from the operating system's cryptographically secure source;
/// the buffer length is untouched. Nothing can be promised of the values.
#[verifier::external_body]
fn os_random_bytes(n: usize) -> (r: Option<Vec<u8>>)
    ensures
        r matches Some(v) ==> v@.len() == n,
{
    let mut buf = vec![0u8; n];
    match rand::RngCore::try_fill_bytes(&mut rand::rngs::OsRng, &mut buf) {
        Ok(()) => Some(buf),
        Err(_) => None,
    }
}

} // verus!
