//! The reveal of the protected profile: from the name that a visitor types
//! to the key, from the deciphered bytes to the payload, and which profile
//! the view shows.
//!
//! The name is reduced to its hiragana, the key is the SHA3-256 digest of
//! what is left, and the bytes deciphered under that key lose their trailing
//! zero padding before they are read.

use vstd::prelude::*;
use vstd::utf8::encode_utf8;
use sha3::Digest;
use crate::cipher::{decrypt, decrypted};
use crate::text::to_chars;

verus! {

/// The SHA3-256 digest of `data`, as the `sha3` crate computes it.
pub uninterp spec fn sha3_256(data: Seq<u8>) -> Seq<u8>;

/// `sha3::Sha3_256::digest`: hashes `data` in one go. The digest is a
/// function of the data alone and is 32 bytes long; nothing else is claimed
/// of it.
#[verifier::external_body]
fn sha3_256_digest(data: &[u8]) -> (digest: [u8; 32])
    ensures
        digest@ == sha3_256(data@),
{
    sha3::Sha3_256::digest(data).into()
}

/// Whether `c` is one of the hiragana from small a (U+3041) to small ke
/// (U+3096).
pub open spec fn is_hiragana(c: char) -> bool {
    0x3041 <= c as u32 <= 0x3096
}

/// `name` without every character that is no hiragana.
pub open spec fn normalized(name: Seq<char>) -> Seq<char>
    decreases name.len(),
{
    if name.len() == 0 {
        Seq::empty()
    } else if is_hiragana(name.last()) {
        normalized(name.drop_last()).push(name.last())
    } else {
        normalized(name.drop_last())
    }
}

/// `data` without its trailing zero bytes.
pub open spec fn without_padding(data: Seq<u8>) -> Seq<u8>
    decreases data.len(),
{
    if data.len() > 0 && data.last() == 0 {
        without_padding(data.drop_last())
    } else {
        data
    }
}

/// The key that the name `name` gives.
pub open spec fn key_of(name: Seq<char>) -> Seq<u8> {
    sha3_256(encode_utf8(normalized(name)))
}

/// What is left of a name is hiragana only, and a name of hiragana is left
/// as it is.
pub proof fn lemma_normalized(name: Seq<char>)
    ensures
        forall|k: int| 0 <= k < normalized(name).len() ==> is_hiragana(#[trigger] normalized(name)[k]),
        (forall|k: int| 0 <= k < name.len() ==> is_hiragana(#[trigger] name[k])) ==> normalized(name)
            == name,
        normalized(normalized(name)) == normalized(name),
    decreases name.len(),
{
    if name.len() > 0 {
        let shorter = name.drop_last();
        lemma_normalized(shorter);
        if forall|k: int| 0 <= k < name.len() ==> is_hiragana(#[trigger] name[k]) {
            assert forall|k: int| 0 <= k < shorter.len() implies is_hiragana(
                #[trigger] shorter[k],
            ) by {
                assert(shorter[k] == name[k]);
            }
            assert(normalized(name) =~= name);
        }
        lemma_normalized_of_hiragana(normalized(name));
    }
}

/// A name of hiragana is left as it is.
proof fn lemma_normalized_of_hiragana(name: Seq<char>)
    requires
        forall|k: int| 0 <= k < name.len() ==> is_hiragana(#[trigger] name[k]),
    ensures
        normalized(name) == name,
    decreases name.len(),
{
    if name.len() > 0 {
        let shorter = name.drop_last();
        assert forall|k: int| 0 <= k < shorter.len() implies is_hiragana(#[trigger] shorter[k]) by {
            assert(shorter[k] == name[k]);
        }
        lemma_normalized_of_hiragana(shorter);
        assert(normalized(name) =~= name);
    }
}

/// What is left of stripped data ends in no zero byte, and is a prefix of
/// the data followed by zero bytes only.
pub proof fn lemma_without_padding(data: Seq<u8>)
    ensures
        without_padding(data).len() <= data.len(),
        without_padding(data) == data.take(without_padding(data).len() as int),
        without_padding(data).len() > 0 ==> without_padding(data).last() != 0,
        forall|k: int| without_padding(data).len() <= k < data.len() ==> data[k] == 0,
    decreases data.len(),
{
    if data.len() > 0 && data.last() == 0 {
        let shorter = data.drop_last();
        lemma_without_padding(shorter);
        let kept = without_padding(shorter);
        assert(kept =~= data.take(kept.len() as int));
        assert forall|k: int| kept.len() <= k < data.len() implies data[k] == 0 by {
            if k < shorter.len() {
                assert(shorter[k] == data[k]);
            }
        }
    } else {
        assert(data =~= data.take(data.len() as int));
    }
}

/// Reduces a name to its hiragana.
pub fn normalize(name: &str) -> (left: String)
    ensures
        left@ == normalized(name@),
{
    let chars = to_chars(name);
    let mut left = String::new();
    let mut k: usize = 0;
    assert(chars@.take(0) =~= Seq::<char>::empty());
    while k < chars.len()
        invariant
            k <= chars.len(),
            left@ == normalized(chars@.take(k as int)),
        decreases chars.len() - k,
    {
        let c = chars[k];
        let code: u32 = c as u32;
        proof {
            let longer = chars@.take(k + 1);
            assert(longer.last() == c);
            assert(longer.drop_last() =~= chars@.take(k as int));
        }
        if 0x3041 <= code && code <= 0x3096 {
            left.push(c);
        }
        k += 1;
    }
    assert(chars@.take(k as int) =~= chars@);
    left
}

/// The key that a text gives as it stands: the digest of its bytes.
pub fn key_from(text: &str) -> (key: [u8; 32])
    ensures
        key@ == sha3_256(encode_utf8(text@)),
{
    sha3_256_digest(text.as_bytes())
}

/// The key that a typed name gives: the digest of the name reduced to its
/// hiragana.
pub fn derive_key(name: &str) -> (key: [u8; 32])
    ensures
        key@ == key_of(name@),
{
    let left = normalize(name);
    key_from(left.as_str())
}

/// Strips the trailing zero padding from deciphered bytes.
pub fn strip_padding(data: Vec<u8>) -> (payload: Vec<u8>)
    ensures
        payload@ == without_padding(data@),
{
    let mut payload = data;
    while payload.len() > 0 && payload[payload.len() - 1] == 0
        invariant
            without_padding(payload@) == without_padding(data@),
        decreases payload.len(),
    {
        let ghost before = payload@;
        payload.pop();
        assert(payload@ =~= before.drop_last());
    }
    payload
}

/// The payload that the protected bytes `data` reveal under `key`: the
/// bytes deciphered block by block, without their trailing zero padding.
pub fn decipher(data: &[u8], key: &[u8; 32]) -> (payload: Vec<u8>)
    ensures
        payload@ == without_padding(decrypted(data@, key@)),
{
    strip_padding(decrypt(data, key))
}

/// The profile that the view shows: the plain one, or the one revealed
/// with a key.
#[derive(Debug, Clone, PartialEq)]
pub enum ProfileDataList<T> {
    Raw(T),
    Encrypted(T),
}

impl<T> ProfileDataList<T> {
    /// The profile shown, whichever it is.
    pub open spec fn shown(&self) -> T {
        match self {
            ProfileDataList::Raw(d) => *d,
            ProfileDataList::Encrypted(d) => *d,
        }
    }

    /// The profile shown, whichever it is.
    pub fn data(&self) -> (d: &T)
        ensures
            *d == self.shown(),
    {
        match self {
            ProfileDataList::Raw(d) => d,
            ProfileDataList::Encrypted(d) => d,
        }
    }

    /// Takes the plain profile `plain` that has arrived. It is shown unless
    /// a revealed profile is shown already. The second part of the result
    /// says whether the view changed.
    pub fn fetched(self, plain: T) -> (next: (ProfileDataList<T>, bool))
        ensures
            next == match self {
                ProfileDataList::Raw(_) => (ProfileDataList::Raw(plain), true),
                ProfileDataList::Encrypted(d) => (ProfileDataList::Encrypted(d), false),
            },
    {
        match self {
            ProfileDataList::Raw(_) => (ProfileDataList::Raw(plain), true),
            ProfileDataList::Encrypted(d) => (ProfileDataList::Encrypted(d), false),
        }
    }

    /// Takes the profile `revealed` that a key has revealed; `differs` says
    /// whether it differs from the one shown. It replaces a plain profile,
    /// and a revealed one that differs from it. The second part of the
    /// result says whether the view changed.
    pub fn revealed(self, revealed: T, differs: bool) -> (next: (ProfileDataList<T>, bool))
        ensures
            next == match self {
                ProfileDataList::Raw(_) => (ProfileDataList::Encrypted(revealed), true),
                ProfileDataList::Encrypted(d) => if differs {
                    (ProfileDataList::Encrypted(revealed), true)
                } else {
                    (ProfileDataList::Encrypted(d), false)
                },
            },
    {
        match self {
            ProfileDataList::Raw(_) => (ProfileDataList::Encrypted(revealed), true),
            ProfileDataList::Encrypted(d) => if differs {
                (ProfileDataList::Encrypted(revealed), true)
            } else {
                (ProfileDataList::Encrypted(d), false)
            },
        }
    }
}

} // verus!
