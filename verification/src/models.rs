use vstd::prelude::*;

use crate::b64::b64_of;
use vstd::string::StringSliceAdditionalSpecFns;
use vstd::utf8::{encode_utf8, encode_utf8_decode_utf8};

verus! {

/// One stored credential record.  `password` holds the secret itself when
/// the record is unprotected, and the base64 of the ciphertext-with-tag when
/// it is protected; `nonce` holds the base64 of the 12-byte nonce exactly in
/// the protected case.
pub struct Entry {
    pub username: String,
    pub password: String,
    pub encrypted: bool,
    pub nonce: Option<String>,
}

impl Entry {
    /// Record invariant: a nonce is stored exactly when the secret is
    /// encrypted.
    pub open spec fn wf(self) -> bool {
        self.nonce is Some <==> self.encrypted
    }
}

/// Store metadata: the base64-encoded key-derivation salt, created once per
/// store and immutable afterwards.
pub struct Meta {
    pub salt: String,
}

/// True when `salt_b` is the 32-byte salt that `meta.salt` encodes.
pub open spec fn is_salt_bytes(meta: Meta, salt_b: Seq<u8>) -> bool {
    salt_b.len() == 32 && meta.salt@ == b64_of(salt_b)
}

/// The store: its salt and its credential records, identifiers unique.
pub struct Store {
    pub meta: Meta,
    pub entries: Vec<Entry>,
}

/// True when `e` answers to `name` under the store's case-insensitive
/// lookup rule.
pub open spec fn ci_matches(e: Entry, name: Seq<char>) -> bool {
    lower_of(e.username@) == lower_of(name)
}

impl Store {
    /// Store invariant: identifiers are unique (exact match), every record
    /// is well-formed, and the salt is the base64 of 32 bytes.
    pub open spec fn wf(self) -> bool {
        &&& forall|i: int, j: int|
            #![trigger self.entries@[i], self.entries@[j]]
            0 <= i < j < self.entries@.len() ==> self.entries@[i].username@
                != self.entries@[j].username@
        &&& forall|i: int| 0 <= i < self.entries@.len() ==> (#[trigger] self.entries@[i]).wf()
        &&& exists|b: Seq<u8>| is_salt_bytes(self.meta, b)
    }

    /// True when some record carries exactly this identifier.
    pub open spec fn spec_contains(self, name: Seq<char>) -> bool {
        exists|i: int|
            0 <= i < self.entries@.len() && (#[trigger] self.entries@[i]).username@ == name
    }

    /// True when some record answers to `name` case-insensitively.
    pub open spec fn has_ci_match(self, name: Seq<char>) -> bool {
        exists|i: int|
            0 <= i < self.entries@.len() && ci_matches(#[trigger] self.entries@[i], name)
    }

    /// True when record `i` is the first, in iteration order, to answer to
    /// `name` case-insensitively — the record that lookup and removal
    /// operate on.
    pub open spec fn is_first_ci_match(self, name: Seq<char>, i: int) -> bool {
        &&& 0 <= i < self.entries@.len()
        &&& ci_matches(self.entries@[i], name)
        &&& forall|j: int| 0 <= j < i ==> !ci_matches(#[trigger] self.entries@[j], name)
    }

    /// Exact, case-sensitive membership test: the rule that guards
    /// insertion.
    pub fn contains(&self, username: &str) -> (r: bool)
        ensures
            r == self.spec_contains(username@),
    {
        let n = self.entries.len();
        let mut i: usize = 0;
        while i < n
            invariant
                n == self.entries@.len(),
                0 <= i <= n,
                forall|k: int| 0 <= k < i ==> (#[trigger] self.entries@[k]).username@ != username@,
            decreases n - i,
        {
            if str_eq(self.entries[i].username.as_str(), username) {
                return true;
            }
            i += 1;
        }
        false
    }

    /// Case-insensitive lookup: returns the first record, in iteration
    /// order, whose identifier matches the requested one ignoring case.
    pub fn find(&self, username: &str) -> (r: Option<&Entry>)
        ensures
            r matches Some(e) ==> exists|i: int|
                #[trigger] self.is_first_ci_match(username@, i) && *e == self.entries@[i],
            r is Some <==> self.has_ci_match(username@),
    {
        let target = lowercase(username);
        let n = self.entries.len();
        let mut i: usize = 0;
        while i < n
            invariant
                n == self.entries@.len(),
                0 <= i <= n,
                target@ == lower_of(username@),
                forall|k: int| 0 <= k < i ==> !ci_matches(#[trigger] self.entries@[k], username@),
            decreases n - i,
        {
            let lowered = lowercase(self.entries[i].username.as_str());
            if str_eq(lowered.as_str(), target.as_str()) {
                proof {
                    assert(self.is_first_ci_match(username@, i as int));
                }
                return Some(&self.entries[i]);
            }
            i += 1;
        }
        None
    }
}

/// The Unicode lowercasing of a string, as `str::to_lowercase` computes it.
pub uninterp spec fn lower_of(s: Seq<char>) -> Seq<char>;

/// Relies on `str::to_lowercase`: the result depends on the characters
/// alone.
#[verifier::external_body]
pub(crate) fn lowercase(s: &str) -> (r: String)
    ensures
        r@ == lower_of(s@),
{
    s.to_lowercase()
}

/// UTF-8 encoding is injective: equal encodings come from equal strings.
pub proof fn lemma_encode_utf8_injective(a: Seq<char>, b: Seq<char>)
    requires
        encode_utf8(a) == encode_utf8(b),
    ensures
        a == b,
{
    encode_utf8_decode_utf8(a);
    encode_utf8_decode_utf8(b);
}

/// String equality, decided by comparing UTF-8 bytes.
pub fn str_eq(a: &str, b: &str) -> (r: bool)
    ensures
        r == (a@ == b@),
{
    let ab = a.as_bytes();
    let bb = b.as_bytes();
    if ab.len() != bb.len() {
        proof {
            if a@ == b@ {
                assert(encode_utf8(a@) == encode_utf8(b@));
            }
        }
        return false;
    }
    let n = ab.len();
    let mut i: usize = 0;
    while i < n
        invariant
            n == ab@.len(),
            ab@.len() == bb@.len(),
            ab@ == encode_utf8(a@),
            bb@ == encode_utf8(b@),
            0 <= i <= n,
            forall|k: int| 0 <= k < i ==> ab@[k] == bb@[k],
        decreases n - i,
    {
        if ab[i] != bb[i] {
            proof {
                if a@ == b@ {
                    assert(encode_utf8(a@) == encode_utf8(b@));
                }
            }
            return false;
        }
        i += 1;
    }
    proof {
        assert(ab@ =~= bb@);
        lemma_encode_utf8_injective(a@, b@);
    }
    true
}

} // verus!
