use vstd::prelude::*;

use crate::b64::{b64_decode, b64_encode, b64_of};
use crate::crypto::{aead_open, decrypt_password, encrypt_password, MAX_SECRET_LEN};
use crate::errors::StoreError;
use crate::hashing::{argon2_key, generate_salt, hash_password};
use crate::models::{ci_matches, is_salt_bytes, lowercase, str_eq, Entry, Meta, Store};
use vstd::utf8::{decode_utf8, encode_utf8, valid_utf8};

verus! {

broadcast use vstd::utf8::encode_utf8_valid_utf8, vstd::utf8::encode_utf8_decode_utf8;

/// The key that a store derives for a master password: Argon2 over the
/// password's UTF-8 bytes and the store's decoded salt.
pub open spec fn entry_key(salt_b: Seq<u8>, master: Seq<char>) -> Seq<u8> {
    argon2_key(encode_utf8(master), salt_b)
}

/// True when a protected record's stored fields decode at all: the nonce to
/// 12 bytes and the ciphertext to some bytes.
pub open spec fn entry_decodable(e: Entry) -> bool {
    &&& e.nonce is Some
    &&& exists|nb: Seq<u8>| #![trigger b64_of(nb)] e.nonce->0@ == b64_of(nb) && nb.len() == 12
    &&& exists|cb: Seq<u8>| #![trigger b64_of(cb)] e.password@ == b64_of(cb)
}

/// True when a protected record's fields decode and its ciphertext opens to
/// plaintext bytes `p` under `key`.
pub open spec fn entry_opens_to(e: Entry, key: Seq<u8>, p: Seq<u8>) -> bool {
    &&& e.nonce is Some
    &&& exists|nb: Seq<u8>, cb: Seq<u8>|
        #![trigger b64_of(nb), b64_of(cb)]
        {
            &&& e.nonce->0@ == b64_of(nb)
            &&& nb.len() == 12
            &&& e.password@ == b64_of(cb)
            &&& aead_open(key, nb, cb) == Some(p)
        }
}

/// True when `e` is a protected record that, against salt `salt_b` and the
/// master password `master`, holds exactly the secret `secret`: what a
/// successful protected `add` stores, and what `show` decrypts back.
pub open spec fn protected_entry_holds(
    e: Entry,
    salt_b: Seq<u8>,
    master: Seq<char>,
    secret: Seq<char>,
) -> bool {
    &&& e.encrypted
    &&& entry_opens_to(e, entry_key(salt_b, master), encode_utf8(secret))
}

/// A freshly initialized store: a new random 32-byte salt and no entries.
pub fn init_new_store() -> (r: Result<Store, StoreError>)
    ensures
        r is Ok,
        r matches Ok(s) ==> s.wf() && s.entries@.len() == 0 && s.meta.salt@.len() == 44,
{
    let salt = generate_salt();
    let store = Store { meta: Meta { salt }, entries: Vec::new() };
    proof {
        let b0 = choose|b: Seq<u8>| b.len() == 32 && store.meta.salt@ == b64_of(b);
        assert(is_salt_bytes(store.meta, b0));
        assert(store.wf());
    }
    Ok(store)
}

/// The load step that the persistence layer hands its result to.  `None`
/// stands for an absent store file and yields a fresh store; `Some` carries
/// the parsed content, which is accepted exactly when it satisfies the
/// store invariant, and is malformed otherwise.
#[verifier::loop_isolation(false)]
pub fn load_store(raw: Option<Store>) -> (r: Result<Store, StoreError>)
    ensures
        raw is None ==> (r matches Ok(s) && s.wf() && s.entries@.len() == 0),
        raw matches Some(s0) ==> ((s0.wf() ==> r == Ok::<Store, StoreError>(s0)) && (!s0.wf()
            ==> r == Err::<Store, StoreError>(StoreError::Persistence))),
{
    match raw {
        None => init_new_store(),
        Some(s) => {
            match b64_decode(s.meta.salt.as_str()) {
                Some(v) => {
                    if v.len() != 32 {
                        proof {
                            assert(!s.wf());
                        }
                        return Err(StoreError::Persistence);
                    }
                    proof {
                        assert(is_salt_bytes(s.meta, v@));
                    }
                },
                None => {
                    proof {
                        assert(!s.wf());
                    }
                    return Err(StoreError::Persistence);
                },
            }
            let n = s.entries.len();
            let mut i: usize = 0;
            while i < n
                invariant
                    n == s.entries@.len(),
                    0 <= i <= n,
                    forall|k: int| 0 <= k < i ==> (#[trigger] s.entries@[k]).wf(),
                    forall|a: int, b: int|
                        #![trigger s.entries@[a], s.entries@[b]]
                        0 <= a < b < i ==> s.entries@[a].username@ != s.entries@[b].username@,
                decreases n - i,
            {
                if s.entries[i].nonce.is_some() != s.entries[i].encrypted {
                    proof {
                        assert(!(#[trigger] s.entries@[i as int]).wf());
                        assert(!s.wf());
                    }
                    return Err(StoreError::Persistence);
                }
                let mut j: usize = 0;
                while j < i
                    invariant
                        0 <= j <= i,
                        forall|k: int|
                            0 <= k < j ==> (#[trigger] s.entries@[k]).username@
                                != s.entries@[i as int].username@,
                    decreases i - j,
                {
                    if str_eq(
                        s.entries[j].username.as_str(),
                        s.entries[i].username.as_str(),
                    ) {
                        proof {
                            assert(s.entries@[j as int].username@
                                == s.entries@[i as int].username@);
                            assert(!s.wf());
                        }
                        return Err(StoreError::Persistence);
                    }
                    j += 1;
                }
                i += 1;
            }
            proof {
                assert(s.wf());
            }
            Ok(s)
        },
    }
}

impl Store {
    /// Adds a record.  Fails first, before any cryptographic work, when the
    /// exact identifier is already present.  An unprotected record stores
    /// the secret as given; a protected one stores the base64 of its
    /// AES-256-GCM sealing under the key derived from the master password
    /// and the store's salt, with the base64 of the fresh nonce.
    pub fn add(
        &mut self,
        username: String,
        password: String,
        encrypted: bool,
        master_password: &str,
    ) -> (r: Result<(), StoreError>)
        requires
            old(self).wf(),
            encode_utf8(password@).len() <= MAX_SECRET_LEN,
            encode_utf8(master_password@).len() <= 0xFFFF_FFFFu64,
        ensures
            final(self).wf(),
            final(self).meta == old(self).meta,
            old(self).spec_contains(username@) ==> r == Err::<(), StoreError>(
                StoreError::DuplicateIdentifier,
            ) && *final(self) == *old(self),
            !old(self).spec_contains(username@) ==> r is Ok && final(self).entries@.len() == old(
                self,
            ).entries@.len() + 1 && final(self).entries@.drop_last() == old(self).entries@,
            !old(self).spec_contains(username@) && !encrypted ==> final(self).entries@ == old(
                self,
            ).entries@.push(
                (Entry {
                    username: username,
                    password: password,
                    encrypted: false,
                    nonce: Option::<String>::None,
                }),
            ),
            !old(self).spec_contains(username@) && encrypted ==> ({
                let e = final(self).entries@.last();
                &&& e.username@ == username@
                &&& e.encrypted
                &&& forall|sb: Seq<u8>|
                    is_salt_bytes(old(self).meta, sb) ==> protected_entry_holds(
                        e,
                        sb,
                        master_password@,
                        password@,
                    )
            }),
    {
        if self.contains(username.as_str()) {
            return Err(StoreError::DuplicateIdentifier);
        }
        if encrypted {
            let salt_bytes = match b64_decode(self.meta.salt.as_str()) {
                Some(v) => v,
                None => {
                    proof {
                        let b0 = choose|b: Seq<u8>| is_salt_bytes(old(self).meta, b);
                        assert(self.meta.salt@ == b64_of(b0));
                        assert(false);
                    }
                    return Err(StoreError::Persistence);
                },
            };
            proof {
                let b0 = choose|b: Seq<u8>| is_salt_bytes(old(self).meta, b);
                assert(self.meta.salt@ == b64_of(b0));
                assert(salt_bytes@ == b0);
                assert(salt_bytes@.len() == 32);
            }
            let key = match hash_password(master_password, salt_bytes) {
                Ok(k) => k,
                Err(e) => {
                    proof {
                        assert(false);
                    }
                    return Err(e);
                },
            };
            let (ciphertext, nonce) = match encrypt_password(&key, password.as_str()) {
                Ok(t) => t,
                Err(e) => {
                    proof {
                        assert(false);
                    }
                    return Err(e);
                },
            };
            let ct_b64 = b64_encode(ciphertext.as_slice());
            let nonce_b64 = b64_encode(nonce.as_slice());
            let ghost salt_b: Seq<u8> = salt_bytes@;
            let entry = Entry {
                username,
                password: ct_b64,
                encrypted: true,
                nonce: Some(nonce_b64),
            };
            self.entries.push(entry);
            proof {
                let olds = old(self).entries@;
                let news = self.entries@;
                assert(news.drop_last() =~= olds);
                assert forall|i: int, j: int|
                    #![trigger news[i], news[j]]
                    0 <= i < j < news.len() implies news[i].username@ != news[j].username@ by {
                    if j == news.len() - 1 {
                        assert(news[i] == olds[i]);
                        assert(olds[i].username@ != news[j].username@);
                    } else {
                        assert(news[i] == olds[i] && news[j] == olds[j]);
                    }
                };
                assert forall|i: int| 0 <= i < news.len() implies (
                #[trigger] news[i]).wf() by {
                    if i < news.len() - 1 {
                        assert(news[i] == olds[i]);
                        assert(olds[i].wf());
                    }
                };
                assert(is_salt_bytes(self.meta, salt_b));
                assert forall|sb: Seq<u8>|
                    is_salt_bytes(old(self).meta, sb) implies protected_entry_holds(
                    news.last(),
                    sb,
                    master_password@,
                    password@,
                ) by {
                    assert(old(self).meta.salt@ == b64_of(sb));
                    assert(sb == salt_b);
                    let e = news.last();
                    assert(e.nonce->0@ == b64_of(nonce@));
                    assert(e.password@ == b64_of(ciphertext@));
                    assert(aead_open(entry_key(sb, master_password@), nonce@, ciphertext@)
                        == Some(encode_utf8(password@)));
                    assert(entry_opens_to(e, entry_key(sb, master_password@), encode_utf8(
                        password@,
                    )));
                };
            }
            Ok(())
        } else {
            let entry = Entry { username, password, encrypted: false, nonce: None };
            self.entries.push(entry);
            proof {
                let olds = old(self).entries@;
                let news = self.entries@;
                assert(news.drop_last() =~= olds);
                assert forall|i: int, j: int|
                    #![trigger news[i], news[j]]
                    0 <= i < j < news.len() implies news[i].username@ != news[j].username@ by {
                    if j == news.len() - 1 {
                        assert(news[i] == olds[i]);
                        assert(olds[i].username@ != news[j].username@);
                    } else {
                        assert(news[i] == olds[i] && news[j] == olds[j]);
                    }
                };
                assert forall|i: int| 0 <= i < news.len() implies (
                #[trigger] news[i]).wf() by {
                    if i < news.len() - 1 {
                        assert(news[i] == olds[i]);
                        assert(olds[i].wf());
                    }
                };
                let b0 = choose|b: Seq<u8>| is_salt_bytes(old(self).meta, b);
                assert(is_salt_bytes(self.meta, b0));
            }
            Ok(())
        }
    }

    /// Removes the first record, in iteration order, whose identifier
    /// matches case-insensitively; reports when none does.
    #[verifier::loop_isolation(false)]
    pub fn rm(&mut self, username: &str) -> (r: Result<(), StoreError>)
        requires
            old(self).wf(),
        ensures
            final(self).wf(),
            final(self).meta == old(self).meta,
            !old(self).has_ci_match(username@) ==> r == Err::<(), StoreError>(StoreError::NotFound)
                && *final(self) == *old(self),
            old(self).has_ci_match(username@) ==> r is Ok && exists|i: int|
                #[trigger] old(self).is_first_ci_match(username@, i) && final(self).entries@ == old(
                    self,
                ).entries@.remove(i),
    {
        let target = lowercase(username);
        let n = self.entries.len();
        let mut i: usize = 0;
        while i < n
            invariant
                *self == *old(self),
                0 <= i <= n,
                target@ == crate::models::lower_of(username@),
                forall|k: int| 0 <= k < i ==> !ci_matches(#[trigger] self.entries@[k], username@),
            decreases n - i,
        {
            let lowered = lowercase(self.entries[i].username.as_str());
            if str_eq(lowered.as_str(), target.as_str()) {
                proof {
                    assert(old(self).is_first_ci_match(username@, i as int));
                }
                let ghost olds = old(self).entries@;
                self.entries.remove(i);
                proof {
                    olds.remove_ensures(i as int);
                    let news = self.entries@;
                    assert forall|a: int, b: int|
                        #![trigger news[a], news[b]]
                        0 <= a < b < news.len() implies news[a].username@ != news[b].username@ by {
                        let ia: int = if a < i as int {
                            a
                        } else {
                            a + 1
                        };
                        let ib: int = if b < i as int {
                            b
                        } else {
                            b + 1
                        };
                        assert(news[a] == olds[ia] && news[b] == olds[ib]);
                        assert(olds[ia].username@ != olds[ib].username@);
                    };
                    assert forall|a: int| 0 <= a < news.len() implies (
                    #[trigger] news[a]).wf() by {
                        let ia: int = if a < i as int {
                            a
                        } else {
                            a + 1
                        };
                        assert(news[a] == olds[ia]);
                        assert(olds[ia].wf());
                    };
                    let b0 = choose|b: Seq<u8>| is_salt_bytes(old(self).meta, b);
                    assert(is_salt_bytes(self.meta, b0));
                }
                return Ok(());
            }
            i += 1;
        }
        Err(StoreError::NotFound)
    }

    /// Returns the secret of the first case-insensitive match: the stored
    /// text for an unprotected record, and for a protected one the result
    /// of deriving the key from the master password and decrypting.  A
    /// protected record that `add` stored under the same master password
    /// decrypts back to exactly the secret that was added.
    pub fn show(&self, username: &str, master_password: &str) -> (r: Result<String, StoreError>)
        requires
            self.wf(),
            encode_utf8(master_password@).len() <= 0xFFFF_FFFFu64,
        ensures
            !self.has_ci_match(username@) ==> r == Err::<String, StoreError>(StoreError::NotFound),
            forall|i: int|
                #[trigger] self.is_first_ci_match(username@, i) ==> ({
                    let e = self.entries@[i];
                    &&& (!e.encrypted ==> (r matches Ok(s) && s@ == e.password@))
                    &&& (e.encrypted && !entry_decodable(e) ==> r == Err::<String, StoreError>(
                        StoreError::Persistence,
                    ))
                    &&& (e.encrypted ==> forall|sb: Seq<u8>|
                        is_salt_bytes(self.meta, sb) ==> ({
                            &&& forall|p: Seq<u8>|
                                entry_opens_to(e, entry_key(sb, master_password@), p) ==> ((
                                valid_utf8(p) ==> (r matches Ok(s) && s@ == decode_utf8(p))) && (
                                !valid_utf8(p) ==> r == Err::<String, StoreError>(
                                    StoreError::Persistence,
                                )))
                            &&& ((entry_decodable(e) && forall|p: Seq<u8>|
                                !entry_opens_to(e, entry_key(sb, master_password@), p)) ==> r
                                == Err::<String, StoreError>(StoreError::Authentication))
                        }))
                    &&& (e.encrypted ==> forall|sb: Seq<u8>, secret: Seq<char>|
                        (is_salt_bytes(self.meta, sb) && protected_entry_holds(
                            e,
                            sb,
                            master_password@,
                            secret,
                        )) ==> (r matches Ok(s) && s@ == secret))
                }),
    {
        let found = self.find(username);
        match found {
            None => Err(StoreError::NotFound),
            Some(entry) => {
                proof {
                    let i0 = choose|i0: int|
                        #[trigger] self.is_first_ci_match(username@, i0) && *entry
                            == self.entries@[i0];
                    assert forall|i: int|
                        #[trigger] self.is_first_ci_match(username@, i) implies self.entries@[i]
                        == *entry by {
                        if i < i0 {
                            assert(!ci_matches(self.entries@[i], username@));
                        } else if i0 < i {
                            assert(!ci_matches(self.entries@[i0], username@));
                        }
                    };
                }
                if !entry.encrypted {
                    return Ok(entry.password.clone());
                }
                let nonce_s = match &entry.nonce {
                    Some(s) => s,
                    None => {
                        proof {
                            assert(false);
                        }
                        return Err(StoreError::Persistence);
                    },
                };
                let salt_bytes = match b64_decode(self.meta.salt.as_str()) {
                    Some(v) => v,
                    None => {
                        proof {
                            let b0 = choose|b: Seq<u8>| is_salt_bytes(self.meta, b);
                            assert(self.meta.salt@ == b64_of(b0));
                            assert(false);
                        }
                        return Err(StoreError::Persistence);
                    },
                };
                proof {
                    let b0 = choose|b: Seq<u8>| is_salt_bytes(self.meta, b);
                    assert(self.meta.salt@ == b64_of(b0));
                    assert(salt_bytes@ == b0);
                    assert(salt_bytes@.len() == 32);
                }
                let ghost salt_b: Seq<u8> = salt_bytes@;
                let key = match hash_password(master_password, salt_bytes) {
                    Ok(k) => k,
                    Err(e) => {
                        proof {
                            assert(false);
                        }
                        return Err(e);
                    },
                };
                let out = decrypt_password(&key, nonce_s.as_str(), entry.password.as_str());
                proof {
                    let e = *entry;
                    let m = master_password@;
                    assert forall|sb: Seq<u8>| is_salt_bytes(self.meta, sb) implies sb
                        == salt_b by {
                        assert(self.meta.salt@ == b64_of(sb));
                    };
                    assert forall|sb: Seq<u8>, p: Seq<u8>|
                        is_salt_bytes(self.meta, sb) && entry_opens_to(
                            e,
                            entry_key(sb, m),
                            p,
                        ) implies ((valid_utf8(p) ==> (out matches Ok(s) && s@ == decode_utf8(p)))
                        && (!valid_utf8(p) ==> out == Err::<String, StoreError>(
                        StoreError::Persistence,
                    ))) by {
                        assert(sb == salt_b);
                        assert(key@ == entry_key(sb, m));
                        let (nb, cb): (Seq<u8>, Seq<u8>) = choose|nb: Seq<u8>, cb: Seq<u8>|
                            #![trigger b64_of(nb), b64_of(cb)]
                            {
                                &&& e.nonce->0@ == b64_of(nb)
                                &&& nb.len() == 12
                                &&& e.password@ == b64_of(cb)
                                &&& aead_open(entry_key(sb, m), nb, cb) == Some(p)
                            };
                        assert(nonce_s@ == b64_of(nb) && nb.len() == 12);
                        assert(entry.password@ == b64_of(cb));
                        assert(aead_open(key@, nb, cb) == Some(p));
                    };
                    assert forall|sb: Seq<u8>|
                        is_salt_bytes(self.meta, sb) && entry_decodable(e) && (forall|p: Seq<u8>|
                            !entry_opens_to(e, entry_key(sb, m), p)) implies out == Err::<
                        String,
                        StoreError,
                    >(StoreError::Authentication) by {
                        assert(sb == salt_b);
                        let nb = choose|nb: Seq<u8>|
                            #![trigger b64_of(nb)]
                            e.nonce->0@ == b64_of(nb) && nb.len() == 12;
                        let cb = choose|cb: Seq<u8>| #![trigger b64_of(cb)] e.password@ == b64_of(
                            cb,
                        );
                        if aead_open(key@, nb, cb) is Some {
                            let p = aead_open(key@, nb, cb)->0;
                            assert(entry_opens_to(e, entry_key(sb, m), p));
                            assert(false);
                        }
                        assert(nonce_s@ == b64_of(nb) && nb.len() == 12);
                        assert(entry.password@ == b64_of(cb));
                        assert(aead_open(key@, nb, cb) is None);
                    };
                    if !entry_decodable(e) {
                        assert(!(exists|nb: Seq<u8>|
                            #![trigger b64_of(nb)]
                            nonce_s@ == b64_of(nb) && nb.len() == 12) || !(exists|cb: Seq<u8>|
                            #![trigger b64_of(cb)]
                            entry.password@ == b64_of(cb)));
                        assert(out == Err::<String, StoreError>(StoreError::Persistence));
                    }
                    assert forall|sb: Seq<u8>, secret: Seq<char>|
                        is_salt_bytes(self.meta, sb) && protected_entry_holds(
                            e,
                            sb,
                            m,
                            secret,
                        ) implies (out matches Ok(s) && s@ == secret) by {
                        assert(entry_opens_to(e, entry_key(sb, m), encode_utf8(secret)));
                        assert(valid_utf8(encode_utf8(secret)));
                        assert(decode_utf8(encode_utf8(secret)) == secret);
                    };
                }
                out
            },
        }
    }

    /// The identifiers of all records, in iteration order.
    #[verifier::loop_isolation(false)]
    pub fn list(&self) -> (r: Vec<String>)
        ensures
            r@.len() == self.entries@.len(),
            forall|i: int| 0 <= i < r@.len() ==> (#[trigger] r@[i])@ == self.entries@[i].username@,
    {
        let n = self.entries.len();
        let mut out: Vec<String> = Vec::new();
        let mut i: usize = 0;
        while i < n
            invariant
                0 <= i <= n,
                out@.len() == i,
                forall|k: int| 0 <= k < i ==> (#[trigger] out@[k])@ == self.entries@[k].username@,
            decreases n - i,
        {
            out.push(self.entries[i].username.clone());
            i += 1;
        }
        out
    }
}

} // verus!
