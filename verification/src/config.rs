use vstd::prelude::*;

use vstd::slice::slice_subrange;

use crate::codec::{lemma_store_round_trip, parse_store_bytes, rows_encodable, ser_store, serialize_store};
use crate::crypto::{
    aead_decrypt, aead_encrypt, aead_max_plaintext_len, ct_of, generate_nonce, key_from_password,
    key_of,
};
use crate::error::Error;
use crate::store::{map_of, unique_keys, Entry, EntryView, PasswordStore, StoreRows};

verus! {

/// True when `bytes` is an encrypted container image of `rows` under
/// `password` with nonce `n`: the 24-byte nonce followed by the AEAD
/// ciphertext of the canonical store encoding.
pub open spec fn valid_image(bytes: Seq<u8>, password: Seq<char>, rows: StoreRows, n: Seq<u8>) -> bool {
    rows_encodable(rows) && unique_keys(rows) && n.len() == 24 && bytes == n + ct_of(
        key_of(password),
        n,
        ser_store(rows),
    )
}

/// The in-memory configuration of a container: its decrypted entry store.
#[derive(Debug)]
pub struct Config {
    store: PasswordStore,
}

impl View for Config {
    type V = Map<Seq<char>, EntryView>;

    open spec fn view(&self) -> Map<Seq<char>, EntryView> {
        map_of(self.rows())
    }
}

impl Config {
    /// The stored pairs in insertion order, as mathematical values.
    pub closed spec fn rows(&self) -> StoreRows {
        self.store.rows()
    }

    /// Well-formedness: no account name occurs twice.
    pub open spec fn wf(&self) -> bool {
        unique_keys(self.rows())
    }

    /// A configuration holding an empty store.
    pub fn new() -> (r: Self)
        ensures
            r.wf(),
            r.rows() == Seq::<(Seq<char>, EntryView)>::empty(),
            r@ == Map::<Seq<char>, EntryView>::empty(),
    {
        Config { store: PasswordStore::new() }
    }

    /// Builds a configuration from account/(username, password) pairs; a
    /// repeated account name is rejected with `DuplicateAccount`.
    pub fn from_pairs(pairs: Vec<(String, (String, String))>) -> (r: Result<Self, Error>)
        ensures
            match r {
                Ok(c) => c.wf()
                    && c.rows().len() == pairs@.len()
                    && forall|i: int| 0 <= i < pairs@.len() ==> (#[trigger] c.rows()[i]) == ((
                        pairs@[i].0@,
                        (EntryView { username: pairs@[i].1.0@, password: pairs@[i].1.1@ }),
                    )),
                Err(e) => e == Error::DuplicateAccount && exists|i: int, j: int|
                    0 <= i < j < pairs@.len() && (#[trigger] pairs@[i]).0@ == (#[trigger] pairs@[j]).0@,
            },
    {
        match PasswordStore::from_pairs(pairs) {
            Ok(store) => Ok(Config { store }),
            Err(e) => Err(e),
        }
    }

    /// Inserts `entry` under `account`; an account that is already present
    /// is rejected with `DuplicateAccount` and the store is left unchanged.
    pub fn add_entry(&mut self, account: &str, entry: Entry) -> (r: Result<(), Error>)
        requires
            old(self).wf(),
        ensures
            final(self).wf(),
            match r {
                Ok(()) => !old(self)@.contains_key(account@)
                    && final(self).rows() == old(self).rows().push((account@, entry@))
                    && final(self)@ == old(self)@.insert(account@, entry@),
                Err(e) => e == Error::DuplicateAccount
                    && old(self)@.contains_key(account@)
                    && *final(self) == *old(self),
            },
    {
        self.store.add_entry(account, entry)
    }

    /// Returns the entry stored for `account`, or nothing if it is absent.
    pub fn get_entry(&self, account: &str) -> (r: Option<&Entry>)
        requires
            self.wf(),
        ensures
            match r {
                Some(e) => self@.contains_key(account@) && e@ == self@[account@],
                None => !self@.contains_key(account@),
            },
    {
        self.store.get_entry(account)
    }

    /// Every stored pair, in insertion order.
    pub fn get_all_entries(&self) -> (r: Vec<(String, Entry)>)
        ensures
            r@.len() == self.rows().len(),
            forall|i: int| 0 <= i < r@.len() ==> ((#[trigger] r@[i]).0@, r@[i].1@) == self.rows()[i],
    {
        self.store.entries()
    }

    /// Serializes the store, draws a fresh random 24-byte nonce, encrypts
    /// the serialization under the password-derived key and that nonce, and
    /// returns nonce followed by ciphertext: a container image of this
    /// configuration's rows. Encryption is owed whenever the serialization
    /// is under the cipher's block-counter limit; in-memory stores never
    /// come near it.
    pub fn encrypt_bytes(&self, db_password: &str) -> (r: Result<Vec<u8>, Error>)
        requires
            self.wf(),
        ensures
            match r {
                Ok(b) => b@.len() == 40 + ser_store(self.rows()).len() && exists|n: Seq<u8>|
                    valid_image(b@, db_password@, self.rows(), n),
                Err(e) => e == Error::EncryptionError
                    && ser_store(self.rows()).len() >= aead_max_plaintext_len(),
            },
    {
        let plain = serialize_store(&self.store);
        let key = key_from_password(db_password);
        let nonce = generate_nonce();
        let ghost n = nonce@;
        match aead_encrypt(key.as_slice(), nonce.as_slice(), plain.as_slice()) {
            Ok(ct) => {
                let mut out = nonce;
                out.extend_from_slice(ct.as_slice());
                proof {
                    assert(out@ =~= n + ct_of(key_of(db_password@), n, ser_store(self.rows())));
                    assert(valid_image(out@, db_password@, self.rows(), n));
                }
                Ok(out)
            },
            Err(_) => Err(Error::EncryptionError),
        }
    }

    /// Splits a container image into nonce and ciphertext, decrypts under
    /// the password-derived key, and decodes the store. Any image of some
    /// rows under this password yields exactly those rows; an
    /// authentication failure — wrong password, corruption, truncation or
    /// tampering, which the design cannot tell apart — is `DecryptionFailed`,
    /// and an authenticated plaintext that does not decode is
    /// `MalformedData`.
    pub fn from_bytes(bytes: &[u8], db_password: &str) -> (r: Result<Self, Error>)
        ensures
            match r {
                Ok(c) => c.wf(),
                Err(e) => e == Error::DecryptionFailed || e == Error::MalformedData,
            },
            forall|rows: StoreRows, n: Seq<u8>|
                #[trigger] valid_image(bytes@, db_password@, rows, n) ==> (r matches Ok(c)
                    && c.rows() == rows),
            bytes@.len() < 24 ==> (r matches Err(e) && e == Error::DecryptionFailed),
    {
        let blen = bytes.len();
        if blen < 24 {
            proof {
                assert forall|rows: StoreRows, n: Seq<u8>|
                    #[trigger] valid_image(bytes@, db_password@, rows, n) implies false by {
                    assert(bytes@.len() == 24 + ct_of(key_of(db_password@), n, ser_store(rows)).len());
                }
            }
            return Err(Error::DecryptionFailed);
        }
        let nonce = slice_subrange(bytes, 0, 24);
        let payload = slice_subrange(bytes, 24, blen);
        let key = key_from_password(db_password);
        match aead_decrypt(key.as_slice(), nonce, payload) {
            Ok(plain) => {
                match parse_store_bytes(plain.as_slice()) {
                    Ok(store) => {
                        let c = Config { store };
                        proof {
                            assert forall|rows: StoreRows, n: Seq<u8>|
                                #[trigger] valid_image(bytes@, db_password@, rows, n)
                                implies c.rows() == rows by {
                                assert(nonce@ =~= n);
                                assert(payload@ =~= ct_of(key_of(db_password@), n, ser_store(rows)));
                                assert(plain@ == ser_store(rows));
                                lemma_store_round_trip(rows);
                            }
                        }
                        Ok(c)
                    },
                    Err(_) => {
                        proof {
                            assert forall|rows: StoreRows, n: Seq<u8>|
                                #[trigger] valid_image(bytes@, db_password@, rows, n) implies false by {
                                assert(nonce@ =~= n);
                                assert(payload@ =~= ct_of(key_of(db_password@), n, ser_store(rows)));
                                assert(plain@ == ser_store(rows));
                                lemma_store_round_trip(rows);
                            }
                        }
                        Err(Error::MalformedData)
                    },
                }
            },
            Err(_) => {
                proof {
                    assert forall|rows: StoreRows, n: Seq<u8>|
                        #[trigger] valid_image(bytes@, db_password@, rows, n) implies false by {
                        assert(nonce@ =~= n);
                        assert(payload@ =~= ct_of(key_of(db_password@), n, ser_store(rows)));
                    }
                }
                Err(Error::DecryptionFailed)
            },
        }
    }
}

} // verus!
