//! Password-based key derivation: a 32-byte key is hashed from a password
//! and a header's salt with a memory-hard Argon2id configuration. The hash
//! is a deterministic function of password and salt alone, which the
//! contracts express through the name `key_of`.

use vstd::prelude::*;
use crate::header::{Header, SALT_LEN};
use crate::secret::{atomic_fence, Erase};

verus! {

/// Length in bytes of an encryption key.
pub const KEY_LEN: usize = 32;

/// The longest password the hash accepts, a limit of the hashing crate.
pub const MAX_PASSWORD_LEN: usize = 0xFFFF_FFFF;

/// A private encryption key. Should be erased after use, for example by
/// holding it in a [`Secret`](crate::secret::Secret).
pub struct Key(Vec<u8>);

#[derive(Debug)]
pub enum Error {
    HashingPassword,
}

/// The 32-byte Argon2id hash of a password under a salt, with this
/// library's fixed cost parameters. Deterministic in its two arguments.
pub uninterp spec fn key_of(pw: Seq<u8>, salt: Seq<u8>) -> Seq<u8>;

impl View for Key {
    type V = Seq<u8>;

    closed spec fn view(&self) -> Seq<u8> {
        self.0@
    }
}

impl Key {
    pub open spec fn well_formed(&self) -> bool {
        self@.len() == KEY_LEN
    }

    /// The key hashed from `pw` under the salt in `head`. Fails only on a
    /// password beyond the hash's length limit.
    pub fn from_password(pw: &[u8], head: &Header) -> (r: Result<Self, Error>)
        requires
            head.well_formed(),
        ensures
            r matches Ok(k) ==> k@ == key_of(pw@, head.spec_salt()) && k.well_formed(),
            r is Ok <==> pw@.len() <= MAX_PASSWORD_LEN,
    {
        match argon2id_hash(pw, head.salt()) {
            Ok(h) => Ok(Key(h)),
            Err(e) => Err(e),
        }
    }

    /// The contained key bytes; always `KEY_LEN` bytes long.
    pub fn as_slice(&self) -> (r: &Vec<u8>)
        ensures
            r@ == self@,
    {
        &self.0
    }
}

impl Erase for Key {
    open spec fn erased(&self) -> bool {
        forall|i: int| 0 <= i < self@.len() ==> self@[i] == 0u8
    }

    #[inline(never)]
    fn erase(&mut self) {
        self.0.erase();
    }
}

/// Two keys derived from two password entries match exactly when the
/// passwords hash alike under the same salt; comparing the hashes rather
/// than the passwords keeps the comparison's timing independent of where
/// the passwords first differ.
pub fn confirm_to_key(pw: &[u8], pw_confirm: &[u8], head: &Header) -> (r: Result<Option<Key>, Error>)
    requires
        head.well_formed(),
    ensures
        r matches Ok(k) ==> match k {
            Some(k) => key_of(pw@, head.spec_salt()) == key_of(pw_confirm@, head.spec_salt())
                && k@ == key_of(pw@, head.spec_salt()) && k.well_formed(),
            None => key_of(pw@, head.spec_salt()) != key_of(pw_confirm@, head.spec_salt()),
        },
        r is Ok <==> pw@.len() <= MAX_PASSWORD_LEN && pw_confirm@.len() <= MAX_PASSWORD_LEN,
    {
        let key = match Key::from_password(pw, head) {
            Ok(k) => k,
            Err(e) => {
                return Err(e);
            },
        };
        let key_confirm = match Key::from_password(pw_confirm, head) {
            Ok(k) => k,
            Err(e) => {
                return Err(e);
            },
        };
        if eq_bytes(key.as_slice(), key_confirm.as_slice()) {
            Ok(Some(key))
        } else {
            Ok(None)
        }
    }

fn eq_bytes(a: &Vec<u8>, b: &Vec<u8>) -> (r: bool)
    ensures
        r == (a@ == b@),
{
    if a.len() != b.len() {
        return false;
    }
    let n: usize = a.len();
    let mut i: usize = 0;
    while i < n
        invariant
            n == a@.len() == b@.len(),
            i <= n,
            forall|j: int| 0 <= j < i ==> a@[j] == b@[j],
        decreases n - i,
    {
        if a[i] != b[i] {
            return false;
        }
        i = i + 1;
    }
    proof {
        assert(a@ =~= b@);
    }
    true
}

/// Relies on argon2::hash_raw (the rust-argon2 crate): Argon2id with this
/// library's fixed parameters is a deterministic function of password and
/// salt alone, named `key_of` here. With a 32-byte hash length, default
/// lanes and time cost, and a 16-byte salt, every parameter check in the
/// crate's Context::new passes except the password-length cap, so the
/// call returns the hash exactly when the password is within that cap.
#[verifier::external_body]
fn argon2id_hash(pw: &[u8], salt: &Vec<u8>) -> (r: Result<Vec<u8>, Error>)
    requires
        salt@.len() == SALT_LEN,
    ensures
        r matches Ok(h) ==> h@ == key_of(pw@, salt@) && h@.len() == KEY_LEN,
        r is Ok <==> pw@.len() <= MAX_PASSWORD_LEN,
{
    let conf = argon2::Config {
        variant: argon2::Variant::Argon2id,
        version: argon2::Version::Version13,
        hash_length: 32,
        mem_cost: 0x800,
        ..argon2::Config::default()
    };
    argon2::hash_raw(pw, salt.as_slice(), &conf).map_err(|_| Error::HashingPassword)
}

} // verus!
