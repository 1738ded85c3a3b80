use vstd::prelude::*;

verus! {

/// The error taxonomy of the credential store.
///
/// Every fallible operation of the library reports exactly one of these
/// kinds; the container deliberately conflates wrong password, corruption and
/// tampering in `DecryptionFailed`, since an authentication failure of the
/// AEAD is the single signal for all three.
#[derive(Clone, Copy, Debug, PartialEq, Eq, Structural)]
pub enum Error {
    /// Creating an empty container targeted a path that already has a file.
    AlreadyExists,
    /// Adding an entry targeted an account name already present in the store.
    DuplicateAccount,
    /// Looking up an entry targeted an account absent from the store.
    AccountNotFound,
    /// AEAD authentication failed: wrong password, corruption or tampering.
    DecryptionFailed,
    /// The plaintext decrypted successfully but did not decode into a store.
    MalformedData,
    /// The underlying AEAD reported a failure while encrypting.
    EncryptionError,
    /// The container path does not name a `.pwm` file.
    InvalidPath,
    /// No password was supplied and none was found in the environment.
    MissingPassword,
    /// An underlying filesystem operation failed.
    IoFailure,
}

impl Error {
    /// The description owed for each error kind; one fixed message per
    /// kind, so that every kind stays distinguishable to the user.
    pub open spec fn spec_message(&self) -> Seq<char> {
        match self {
            Error::AlreadyExists => "could not create the container: the file already exists"@,
            Error::DuplicateAccount => "account already added to store"@,
            Error::AccountNotFound => "no entry found for the account"@,
            Error::DecryptionFailed => "failed to decrypt the container: wrong password or corrupted file"@,
            Error::MalformedData => "decrypted data does not decode into a store"@,
            Error::EncryptionError => "failed to encrypt the store"@,
            Error::InvalidPath => "the container file must be a .pwm file"@,
            Error::MissingPassword => "password not supplied and PWM_PASS not found in environment"@,
            Error::IoFailure => "a filesystem operation failed"@,
        }
    }

    /// A short, actionable description of the error kind, per
    /// [`Error::spec_message`].
    pub fn message(&self) -> (r: &'static str)
        ensures
            r@ == self.spec_message(),
            r@.len() > 0,
    {
        let r = match self {
            Error::AlreadyExists => "could not create the container: the file already exists",
            Error::DuplicateAccount => "account already added to store",
            Error::AccountNotFound => "no entry found for the account",
            Error::DecryptionFailed => "failed to decrypt the container: wrong password or corrupted file",
            Error::MalformedData => "decrypted data does not decode into a store",
            Error::EncryptionError => "failed to encrypt the store",
            Error::InvalidPath => "the container file must be a .pwm file",
            Error::MissingPassword => "password not supplied and PWM_PASS not found in environment",
            Error::IoFailure => "a filesystem operation failed",
        };
        proof {
            reveal_strlit("could not create the container: the file already exists");
            reveal_strlit("account already added to store");
            reveal_strlit("no entry found for the account");
            reveal_strlit("failed to decrypt the container: wrong password or corrupted file");
            reveal_strlit("decrypted data does not decode into a store");
            reveal_strlit("failed to encrypt the store");
            reveal_strlit("the container file must be a .pwm file");
            reveal_strlit("password not supplied and PWM_PASS not found in environment");
            reveal_strlit("a filesystem operation failed");
        }
        r
    }
}

/// Distinct error kinds carry distinct messages, so the kind stays visible
/// to the user through the message alone.
pub proof fn lemma_messages_distinct(a: Error, b: Error)
    requires
        a != b,
    ensures
        a.spec_message() != b.spec_message(),
{
    reveal_strlit("could not create the container: the file already exists");
    reveal_strlit("account already added to store");
    reveal_strlit("no entry found for the account");
    reveal_strlit("failed to decrypt the container: wrong password or corrupted file");
    reveal_strlit("decrypted data does not decode into a store");
    reveal_strlit("failed to encrypt the store");
    reveal_strlit("the container file must be a .pwm file");
    reveal_strlit("password not supplied and PWM_PASS not found in environment");
    reveal_strlit("a filesystem operation failed");
    assert("could not create the container: the file already exists"@.len() == 55);
    assert("account already added to store"@.len() == 30);
    assert("no entry found for the account"@.len() == 30);
    assert("failed to decrypt the container: wrong password or corrupted file"@.len() == 65);
    assert("decrypted data does not decode into a store"@.len() == 43);
    assert("failed to encrypt the store"@.len() == 27);
    assert("the container file must be a .pwm file"@.len() == 38);
    assert("password not supplied and PWM_PASS not found in environment"@.len() == 59);
    assert("a filesystem operation failed"@.len() == 29);
    assert("account already added to store"@[0] == 'a');
    assert("no entry found for the account"@[0] == 'n');
}

} // verus!
