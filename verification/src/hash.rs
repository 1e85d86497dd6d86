//! The SHA-256 hash value: thirty-two bytes, their hexadecimal text form,
//! and the digest that gives the hash of a content.

use crate::hex::{
    digit_char, digit_value, hex_decode, hex_digit_value, hex_encode, hex_pair, is_hex,
    lemma_hex_decode_encode,
};
use crate::text::{chars_of, push_char};
use sha2::Digest;
use sha2::Sha256;
use vstd::prelude::*;

verus! {

/// The number of characters in the text form of a hash.
pub const HEX_LEN: usize = 64;

/// One more than the greatest number of bytes that a SHA-256 message can
/// hold: its length in bits is below 2^64.
pub const MESSAGE_LIMIT: u64 = 0x2000_0000_0000_0000;

/// The SHA-256 digest of `message`.
pub uninterp spec fn sha256(message: Seq<u8>) -> Seq<u8>;

/// Computes the SHA-256 digest of `data`.
///
/// Trusted: the body is one call of `Digest::digest` on `sha2::Sha256`,
/// which feeds `data` to a new accumulator and finalizes it; its thirty-two
/// bytes of output are a function of `data` alone, named `sha256` here, and
/// are handed on as an array. The bound keeps the message within what
/// SHA-256 can hold, so that the length arithmetic inside cannot overflow.
#[verifier::external_body]
pub(crate) fn sha256_of(data: &[u8]) -> (out: [u8; 32])
    requires
        data@.len() < MESSAGE_LIMIT,
    ensures
        out@ == sha256(data@),
{
    Sha256::digest(data).into()
}

/// The bytes of the hash whose text form is `text`: `text` has to be
/// sixty-four hexadecimal digits, of either case, and nothing else.
pub open spec fn hash_of_text(text: Seq<char>) -> Option<Seq<u8>> {
    if text.len() == HEX_LEN && is_hex(text) {
        Some(hex_decode(text))
    } else {
        None
    }
}

/// A SHA-256 hash value.
///
/// Its view is the sequence of its thirty-two bytes; two values are equal
/// when their bytes are.
#[derive(Eq, Hash, Debug)]
pub struct Sha256Hash([u8; 32]);

impl View for Sha256Hash {
    type V = Seq<u8>;

    closed spec fn view(&self) -> Seq<u8> {
        self.0@
    }
}

impl Clone for Sha256Hash {
    fn clone(&self) -> (copy: Self)
        ensures
            copy == *self,
    {
        Sha256Hash(self.0)
    }
}

impl PartialEq for Sha256Hash {
    fn eq(&self, other: &Self) -> (same: bool) {
        let mut i: usize = 0;
        while i < 32
            invariant
                i <= 32,
                forall|j: int| 0 <= j < i ==> self.0@[j] == other.0@[j],
            decreases 32 - i,
        {
            if self.0[i] != other.0[i] {
                return false;
            }
            i += 1;
        }
        assert(self.0@ =~= other.0@);
        true
    }
}

impl vstd::std_specs::cmp::PartialEqSpecImpl for Sha256Hash {
    open spec fn obeys_eq_spec() -> bool {
        true
    }

    open spec fn eq_spec(&self, other: &Self) -> bool {
        self@ == other@
    }
}

impl Sha256Hash {
    /// A hash has thirty-two bytes.
    pub proof fn lemma_len(self)
        ensures
            self@.len() == 32,
    {
    }

    /// Hashes of the same bytes are the same hash.
    pub proof fn lemma_same_bytes(self, other: Self)
        requires
            self@ == other@,
        ensures
            self == other,
    {
        assert(self.0 =~= other.0);
    }

    /// The text form gives the hash back: what `to_hex` writes for thirty-two
    /// bytes is a text that `from_hex` takes, and takes for those bytes.
    pub proof fn lemma_text_form_reads_back(bytes: Seq<u8>)
        requires
            bytes.len() == 32,
        ensures
            hash_of_text(hex_encode(bytes)) == Some(bytes),
    {
        lemma_hex_decode_encode(bytes);
    }

    /// The hash value of a finished digest computation: its thirty-two bytes
    /// of output.
    pub fn from_digest(digest: [u8; 32]) -> (hash: Self)
        ensures
            hash@ == digest@,
    {
        Sha256Hash(digest)
    }

    /// The hash of `content`.
    pub fn of_content(content: &[u8]) -> (hash: Self)
        requires
            content@.len() < MESSAGE_LIMIT,
        ensures
            hash@ == sha256(content@),
    {
        Self::from_digest(sha256_of(content))
    }

    /// The hash whose text form is the characters `chars`, if they are one.
    pub(crate) fn from_chars(chars: &[char]) -> (r: Option<Self>)
        ensures
            match r {
                Some(hash) => hash_of_text(chars@) == Some(hash@),
                None => hash_of_text(chars@) is None,
            },
    {
        if chars.len() != HEX_LEN {
            return None;
        }
        let mut bytes = [0u8; 32];
        let mut i: usize = 0;
        while i < 32
            invariant
                i <= 32,
                chars@.len() == 64,
                forall|j: int| 0 <= j < 2 * i ==> (#[trigger] hex_digit_value(chars@[j])) is Some,
                forall|k: int| 0 <= k < i ==> bytes@[k] == hex_pair(chars@[2 * k], chars@[2 * k + 1]),
            decreases 32 - i,
        {
            let high = match digit_value(chars[2 * i]) {
                Some(v) => v,
                None => {
                    return None;
                },
            };
            let low = match digit_value(chars[2 * i + 1]) {
                Some(v) => v,
                None => {
                    return None;
                },
            };
            bytes[i] = high * 16 + low;
            i += 1;
        }
        assert(bytes@ =~= hex_decode(chars@));
        Some(Sha256Hash(bytes))
    }

    /// Converts the hexadecimal string to a hash value.
    ///
    /// The string has to be sixty-four hexadecimal digits, of either case,
    /// and nothing else.
    pub fn from_hex(s: &str) -> (r: Result<Self, ()>)
        ensures
            match r {
                Ok(hash) => hash_of_text(s@) == Some(hash@),
                Err(_) => hash_of_text(s@) is None,
            },
    {
        let chars = chars_of(s);
        match Self::from_chars(chars.as_slice()) {
            Some(hash) => Ok(hash),
            None => Err(()),
        }
    }

    /// Converts the hash value to hexadecimal: sixty-four lower-case digits,
    /// two per byte, the high four bits first.
    pub fn to_hex(&self) -> (s: String)
        ensures
            s@ == hex_encode(self@),
            hash_of_text(s@) == Some(self@),
    {
        let mut s = String::new();
        let mut i: usize = 0;
        while i < 32
            invariant
                i <= 32,
                s@ == hex_encode(self@).take(2 * i),
            decreases 32 - i,
        {
            let b = self.0[i];
            push_char(&mut s, digit_char(b / 16));
            push_char(&mut s, digit_char(b % 16));
            i += 1;
            assert(s@ =~= hex_encode(self@).take(2 * i));
        }
        proof {
            lemma_hex_decode_encode(self@);
        }
        s
    }
}

} // verus!
