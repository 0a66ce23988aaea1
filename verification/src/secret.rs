//! Erasure model: sensitive values scrub their backing storage on demand,
//! and a `Secret` wrapper keeps a value behind an interface that makes the
//! scrub explicit before the value goes away.

use vstd::prelude::*;
use vstd::utf8::encode_utf8;

verus! {

/// A value whose sensitive contents can be overwritten in place.
///
/// After `erase`, the object is valid but carries none of its former data:
/// `erased` says, per type, what that empty state is. A container's erase
/// walks and erases each element.
pub trait Erase {
    /// Holds when the object no longer carries any of its former data.
    spec fn erased(&self) -> bool;

    /// Overwrites the held data, leaving the object valid but empty.
    fn erase(&mut self)
        ensures
            final(self).erased(),
    ;
}

/// Relies on std::sync::atomic::fence: a sequentially consistent memory
/// fence, keeping the scrubbing stores from being reordered past it.
#[verifier::external_body]
pub fn atomic_fence() {
    std::sync::atomic::fence(std::sync::atomic::Ordering::SeqCst);
}

impl Erase for Vec<u8> {
    /// Every byte of the buffer has been overwritten with zero; the length
    /// is untouched, since only the contents are sensitive.
    open spec fn erased(&self) -> bool {
        forall|i: int| 0 <= i < self@.len() ==> self@[i] == 0u8
    }

    #[inline(never)]
    fn erase(&mut self)
        ensures
            final(self).erased(),
            final(self)@.len() == old(self)@.len(),
    {
        let n: usize = self.len();
        let mut i: usize = 0;
        while i < n
            invariant
                n == self@.len(),
                i <= n,
                forall|j: int| 0 <= j < i ==> self@[j] == 0u8,
            decreases n - i,
        {
            self[i] = 0;
            i = i + 1;
        }
        atomic_fence();
    }
}

/// Every character is the zero character: what a scrubbed string holds.
pub open spec fn chars_zeroed(s: Seq<char>) -> bool {
    forall|i: int| 0 <= i < s.len() ==> s[i] == '\0'
}

impl Erase for String {
    /// Every character of the string has been overwritten with the zero
    /// character, in the same backing buffer; the length is untouched.
    open spec fn erased(&self) -> bool {
        chars_zeroed(self@)
    }

    #[inline(never)]
    fn erase(&mut self) {
        let mut tmp = String::new();
        core::mem::swap(self, &mut tmp);
        let mut bytes = string_into_bytes(tmp);
        bytes.erase();
        let mut restored = string_from_zeroed(bytes);
        core::mem::swap(self, &mut restored);
        atomic_fence();
    }
}

/// Relies on String::into_bytes: hands the string's own backing buffer
/// over as bytes, the UTF-8 encoding of its characters, without a copy.
#[verifier::external_body]
fn string_into_bytes(s: String) -> (r: Vec<u8>)
    ensures
        r@ == encode_utf8(s@),
{
    s.into_bytes()
}

/// Relies on String::from_utf8: an all-zero buffer is valid UTF-8 — each
/// zero byte is the zero character — so the call wraps the same buffer
/// back up as a string of as many zero characters, without a copy.
#[verifier::external_body]
fn string_from_zeroed(bytes: Vec<u8>) -> (r: String)
    requires
        forall|i: int| 0 <= i < bytes@.len() ==> bytes@[i] == 0u8,
    ensures
        r@.len() == bytes@.len(),
        chars_zeroed(r@),
{
    match String::from_utf8(bytes) {
        Ok(s) => s,
        Err(_) => String::new(),
    }
}

/// Owns exactly one erasable value, handing out references on request and
/// scrubbing the value in place on `scrub`. Callers are expected to scrub
/// before the wrapper goes out of scope; `into_inner` transfers the value
/// out again without making any unprotected duplicate.
pub struct Secret<T: Erase> {
    data: T,
}

impl<T: Erase> Secret<T> {
    /// The wrapped value, for contracts.
    pub closed spec fn value(&self) -> T {
        self.data
    }

    pub fn new(data: T) -> (r: Self)
        ensures
            r.value() == data,
    {
        Secret { data }
    }

    /// Unwraps the `Secret`, returning the value it holds.
    pub fn into_inner(self) -> (r: T)
        ensures
            r == self.value(),
    {
        self.data
    }

    /// A shared reference to the wrapped value.
    pub fn expose(&self) -> (r: &T)
        ensures
            *r == self.value(),
    {
        &self.data
    }

    /// An exclusive reference to the wrapped value.
    pub fn expose_mut(&mut self) -> (r: &mut T)
        ensures
            *r == old(self).value(),
            final(self).value() == *final(r),
    {
        &mut self.data
    }

    /// Erases the wrapped value in place.
    pub fn scrub(&mut self)
        ensures
            final(self).value().erased(),
    {
        self.data.erase();
    }
}

} // verus!
