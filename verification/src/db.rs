use vstd::prelude::*;

use vstd::slice::slice_index_get;
use vstd::utf8::encode_utf8;

use crate::codec::{ser_rows, ser_store};
use crate::config::{valid_image, Config};
use crate::crypto::aead_max_plaintext_len;
use crate::error::Error;
use crate::store::{map_of, Entry, EntryView, StoreRows};

verus! {

/// The index after the last `/` byte of a path, i.e. where its file name
/// starts; 0 when the path holds no separator.
pub open spec fn file_name_start(b: Seq<u8>) -> int
    decreases b.len(),
{
    if b.len() == 0 {
        0
    } else if b.last() == 0x2fu8 {
        b.len() as int
    } else {
        file_name_start(b.drop_last())
    }
}

/// True when `name` is a file name with extension `pwm`: it ends in
/// `.pwm` and at least one byte precedes that suffix (a bare `.pwm` is a
/// hidden file without an extension).
pub open spec fn pwm_file_name(name: Seq<u8>) -> bool {
    name.len() > 4 && name.subrange(name.len() - 4, name.len() as int) == seq![
        0x2eu8,
        0x70u8,
        0x77u8,
        0x6du8,
    ]
}

/// True when the path names a `.pwm` container file, judged on the UTF-8
/// bytes of the path: the file name after the last `/` must carry the
/// `pwm` extension.
pub open spec fn pwm_path(path: Seq<char>) -> bool {
    pwm_file_name(encode_utf8(path).skip(file_name_start(encode_utf8(path))))
}

proof fn lemma_file_name_start(b: Seq<u8>, i: int)
    requires
        0 <= i <= b.len(),
        i == 0 || b[i - 1] == 0x2fu8,
        forall|j: int| i <= j < b.len() ==> b[j] != 0x2fu8,
    ensures
        file_name_start(b) == i,
    decreases b.len(),
{
    if b.len() == 0 {
    } else if b.last() == 0x2fu8 {
        assert(b[b.len() - 1] == 0x2fu8);
        assert(i == b.len());
    } else {
        assert(i < b.len() || (i > 0 && b[i - 1] != 0x2fu8) || i == 0) by {
            if i == b.len() && i > 0 {
                assert(b[i - 1] == b.last());
            }
        }
        assert(i <= b.drop_last().len());
        lemma_file_name_start(b.drop_last(), i);
    }
}

/// Access to an encrypted container under one password: every operation is
/// a pure function from the container file's bytes (and the operation's
/// arguments) to a result, so that the surrounding process can do the
/// reading and writing.
pub struct DB {
    password: String,
}

impl DB {
    /// The password this handle operates with.
    pub closed spec fn spec_password(&self) -> Seq<char> {
        self.password@
    }

    pub fn new(password: &str) -> (r: Self)
        ensures
            r.spec_password() == password@,
    {
        DB { password: password.to_owned() }
    }

    /// Accepts exactly the paths that name a `.pwm` container file.
    pub fn check_file_path(db_file: &str) -> (r: Result<(), Error>)
        ensures
            r is Ok <==> pwm_path(db_file@),
            r is Err ==> r == Err::<(), Error>(Error::InvalidPath),
    {
        let bytes = db_file.as_bytes();
        let blen = bytes.len();
        let mut i: usize = blen;
        while i > 0 && *slice_index_get(bytes, i - 1) != 0x2fu8
            invariant
                blen == bytes@.len(),
                0 <= i <= blen,
                forall|j: int| i <= j < blen ==> bytes@[j] != 0x2fu8,
            decreases i,
        {
            i -= 1;
        }
        proof {
            lemma_file_name_start(bytes@, i as int);
        }
        let name_len = blen - i;
        if name_len <= 4 {
            return Err(Error::InvalidPath);
        }
        let suffix_ok = *slice_index_get(bytes, blen - 4) == 0x2eu8
            && *slice_index_get(bytes, blen - 3) == 0x70u8
            && *slice_index_get(bytes, blen - 2) == 0x77u8
            && *slice_index_get(bytes, blen - 1) == 0x6du8;
        proof {
            let name = bytes@.skip(i as int);
            assert(name.subrange(name.len() - 4, name.len() as int) =~= bytes@.subrange(
                blen - 4,
                blen as int,
            ));
            if suffix_ok {
                assert(bytes@.subrange(blen - 4, blen as int) =~= seq![0x2eu8, 0x70u8, 0x77u8, 0x6du8]);
            }
        }
        if suffix_ok {
            Ok(())
        } else {
            Err(Error::InvalidPath)
        }
    }

    /// Builds the image of a brand-new, empty container: an encrypted empty
    /// store under a fresh nonce. The caller reports whether the target path
    /// already has a file; an existing file is never overwritten, so that an
    /// accidental re-initialisation cannot destroy credentials. On a valid,
    /// fresh path the image is owed: an empty store serializes to 8 bytes,
    /// far under the cipher's limit.
    pub fn create_empty(&self, db_file: &str, file_exists: bool) -> (r: Result<Vec<u8>, Error>)
        ensures
            !pwm_path(db_file@) ==> r == Err::<Vec<u8>, Error>(Error::InvalidPath),
            pwm_path(db_file@) && file_exists ==> r == Err::<Vec<u8>, Error>(Error::AlreadyExists),
            pwm_path(db_file@) && !file_exists ==> (r matches Ok(b) && exists|n: Seq<u8>|
                valid_image(
                    b@,
                    self.spec_password(),
                    Seq::<(Seq<char>, EntryView)>::empty(),
                    n,
                )),
    {
        match Self::check_file_path(db_file) {
            Ok(()) => {},
            Err(e) => {
                return Err(e);
            },
        }
        if file_exists {
            return Err(Error::AlreadyExists);
        }
        let config = Config::new();
        let out = config.encrypt_bytes(self.password.as_str());
        proof {
            assert(config.rows() == Seq::<(Seq<char>, EntryView)>::empty());
            assert(self.password@ == self.spec_password());
            vstd::bytes::lemma_auto_spec_u64_to_from_le_bytes();
            assert(ser_rows(config.rows()).len() == 0);
            assert(ser_store(config.rows()).len() == 8);
        }
        out
    }

    /// Read-modify-write on the container image: decrypts `contents`, adds
    /// the entry to the store, and returns the re-encrypted image under a
    /// fresh nonce; an account already present is rejected with
    /// `DuplicateAccount` and no new image is produced. For a fresh account
    /// the new image is owed unless the grown store's serialization reaches
    /// the cipher's limit.
    pub fn add_entry(&self, db_file: &str, contents: &[u8], account: &str, entry: Entry) -> (r: Result<
        Vec<u8>,
        Error,
    >)
        ensures
            !pwm_path(db_file@) ==> r == Err::<Vec<u8>, Error>(Error::InvalidPath),
            forall|rows: StoreRows, n: Seq<u8>|
                pwm_path(db_file@) && #[trigger] valid_image(contents@, self.spec_password(), rows, n)
                    ==> if map_of(rows).contains_key(account@) {
                        r == Err::<Vec<u8>, Error>(Error::DuplicateAccount)
                    } else {
                        (r matches Ok(b) && exists|n2: Seq<u8>|
                            valid_image(b@, self.spec_password(), rows.push((account@, entry@)), n2))
                        || (r == Err::<Vec<u8>, Error>(Error::EncryptionError)
                            && ser_store(rows.push((account@, entry@))).len()
                                >= aead_max_plaintext_len())
                    },
            r matches Err(e) ==> (e == Error::InvalidPath || e == Error::DecryptionFailed
                || e == Error::MalformedData || e == Error::DuplicateAccount
                || e == Error::EncryptionError),
    {
        match Self::check_file_path(db_file) {
            Ok(()) => {},
            Err(e) => {
                return Err(e);
            },
        }
        let mut config = match Config::from_bytes(contents, self.password.as_str()) {
            Ok(c) => c,
            Err(e) => {
                return Err(e);
            },
        };
        match config.add_entry(account, entry) {
            Ok(()) => {},
            Err(e) => {
                return Err(e);
            },
        }
        match config.encrypt_bytes(self.password.as_str()) {
            Ok(b) => Ok(b),
            Err(e) => Err(e),
        }
    }

    /// Decrypts `contents` and looks up one account; an absent account is
    /// `AccountNotFound`.
    pub fn get_entry(&self, db_file: &str, contents: &[u8], account: &str) -> (r: Result<Entry, Error>)
        ensures
            !pwm_path(db_file@) ==> r == Err::<Entry, Error>(Error::InvalidPath),
            forall|rows: StoreRows, n: Seq<u8>|
                pwm_path(db_file@) && #[trigger] valid_image(contents@, self.spec_password(), rows, n)
                    ==> if map_of(rows).contains_key(account@) {
                        (r matches Ok(e) && e@ == map_of(rows)[account@])
                    } else {
                        r == Err::<Entry, Error>(Error::AccountNotFound)
                    },
            r matches Err(e) ==> (e == Error::InvalidPath || e == Error::DecryptionFailed
                || e == Error::MalformedData || e == Error::AccountNotFound),
    {
        match Self::check_file_path(db_file) {
            Ok(()) => {},
            Err(e) => {
                return Err(e);
            },
        }
        let config = match Config::from_bytes(contents, self.password.as_str()) {
            Ok(c) => c,
            Err(e) => {
                return Err(e);
            },
        };
        match config.get_entry(account) {
            Some(entry) => Ok(entry.clone()),
            None => Err(Error::AccountNotFound),
        }
    }

    /// Decrypts `contents` and returns every stored pair.
    pub fn get_all_entries(&self, db_file: &str, contents: &[u8]) -> (r: Result<
        Vec<(String, Entry)>,
        Error,
    >)
        ensures
            !pwm_path(db_file@) ==> r == Err::<Vec<(String, Entry)>, Error>(Error::InvalidPath),
            forall|rows: StoreRows, n: Seq<u8>|
                pwm_path(db_file@) && #[trigger] valid_image(contents@, self.spec_password(), rows, n)
                    ==> (r matches Ok(v) && v@.len() == rows.len() && forall|i: int|
                        0 <= i < rows.len() ==> ((#[trigger] v@[i]).0@, v@[i].1@) == rows[i]),
            r matches Err(e) ==> (e == Error::InvalidPath || e == Error::DecryptionFailed
                || e == Error::MalformedData),
    {
        match Self::check_file_path(db_file) {
            Ok(()) => {},
            Err(e) => {
                return Err(e);
            },
        }
        let config = match Config::from_bytes(contents, self.password.as_str()) {
            Ok(c) => c,
            Err(e) => {
                return Err(e);
            },
        };
        Ok(config.get_all_entries())
    }
}

} // verus!
