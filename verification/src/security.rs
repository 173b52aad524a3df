//! Content hashing in two stages: a SHA-256 fingerprint of the bytes, then an
//! Argon2 hash of the fingerprint under a fresh random salt. The result is a
//! PHC string, which names the algorithm and holds parameters, salt and
//! digest, so that it can be verified later without anything else.

use crate::result::{join2, OpenCliError};
use argon2::password_hash::{PasswordHash, PasswordHasher, PasswordVerifier, SaltString};
use argon2::Argon2;
use rand_core::OsRng;
use sha2::{Digest, Sha256};
use vstd::prelude::*;

verus! {

/// The SHA-256 digest of a sequence of bytes.
pub uninterp spec fn sha256(data: Seq<u8>) -> Seq<u8>;

/// What Argon2 with its default parameters makes of a fingerprint and a salt
/// in B64 form: the PHC string, or the message of the error.
pub uninterp spec fn argon2_phc(fingerprint: Seq<u8>, salt: Seq<char>) -> Result<
    Seq<char>,
    Seq<char>,
>;

/// What comes of checking a fingerprint against a stored text: whether the
/// text, read as a PHC string, is the hash of the fingerprint, or the message
/// of the error where the text is no PHC string.
pub uninterp spec fn phc_check(fingerprint: Seq<u8>, stored: Seq<char>) -> Result<bool, Seq<char>>;

/// The outcome of the Argon2 stage that is the PHC string `h`.
pub open spec fn text_ok(h: Seq<char>) -> Result<Seq<char>, Seq<char>> {
    Ok(h)
}

/// The outcome of the Argon2 stage that is an error with the message `m`.
pub open spec fn text_err(m: Seq<char>) -> Result<Seq<char>, Seq<char>> {
    Err(m)
}

/// The outcome of a check that says whether the hash matches.
pub open spec fn check_ok(b: bool) -> Result<bool, Seq<char>> {
    Ok(b)
}

/// The outcome of a check on a text that is no PHC string.
pub open spec fn check_err(m: Seq<char>) -> Result<bool, Seq<char>> {
    Err(m)
}

/// `sha2::Sha256::digest`: the SHA-256 digest of `data`, which is 32 bytes
/// long.
#[verifier::external_body]
fn sha256_digest(data: &[u8]) -> (r: Vec<u8>)
    ensures
        r@ == sha256(data@),
        r@.len() == 32,
{
    Sha256::digest(data).to_vec()
}

/// `SaltString::generate` on the operating system's random number generator:
/// a salt in B64 form. Nothing is claimed of it: each call gives another.
#[verifier::external_body]
fn fresh_salt() -> (r: String) {
    SaltString::generate(&mut OsRng).as_str().to_owned()
}

/// `Argon2::hash_password` with the default parameters, on a salt given in
/// B64 form: the PHC string, or the error's message. The result depends on the
/// two arguments alone, and a PHC string that comes out of it passes
/// `verify_password` for the same fingerprint, as the crate's documentation
/// shows.
#[verifier::external_body]
fn argon2_hash(fingerprint: &[u8], salt: &str) -> (r: Result<String, String>)
    ensures
        r matches Ok(h) ==> argon2_phc(fingerprint@, salt@) == text_ok(h@),
        r matches Err(e) ==> argon2_phc(fingerprint@, salt@) == text_err(e@),
        r matches Ok(h) ==> phc_check(fingerprint@, h@) == check_ok(true),
{
    let salt = SaltString::from_b64(salt).map_err(|e| e.to_string())?;
    let hash = Argon2::default().hash_password(fingerprint, &salt).map_err(|e| e.to_string())?;
    Ok(hash.to_string())
}

/// `Argon2::verify_password` on a stored text that `PasswordHash::new` has
/// read: whether the fingerprint has that hash, or the message of the error
/// with which the text was refused as a PHC string. The result depends on
/// the two arguments alone.
#[verifier::external_body]
fn argon2_verify(fingerprint: &[u8], stored: &str) -> (r: Result<bool, String>)
    ensures
        r matches Ok(b) ==> phc_check(fingerprint@, stored@) == check_ok(b),
        r matches Err(e) ==> phc_check(fingerprint@, stored@) == check_err(e@),
{
    let parsed = PasswordHash::new(stored).map_err(|e| e.to_string())?;
    Ok(Argon2::default().verify_password(fingerprint, &parsed).is_ok())
}

/// What hashing returns for an outcome of the Argon2 stage: the PHC string,
/// or a `Process` error whose message is `label` and the stage's message.
pub open spec fn hash_outcome(
    raw: Result<Seq<char>, Seq<char>>,
    label: Seq<char>,
    r: Result<String, OpenCliError>,
) -> bool {
    match raw {
        Ok(h) => r matches Ok(s) && s@ == h,
        Err(m) => r matches Err(e) && e is Process && e.message() == label + m,
    }
}

/// What verification returns for an outcome of the check: whether the hash
/// matches, or a `Process` error where the stored text is no PHC string.
pub open spec fn verify_outcome(raw: Result<bool, Seq<char>>, r: Result<bool, OpenCliError>) -> bool {
    match raw {
        Ok(b) => r matches Ok(x) && x == b,
        Err(m) => r matches Err(e) && e is Process && e.message() == "Invalid hash format: "@ + m,
    }
}

/// Hashes and verifies content.
#[derive(Debug, Clone, Copy)]
pub struct SecurityManager {}

impl SecurityManager {
    /// The hasher; it holds no state.
    pub fn new() -> (r: SecurityManager) {
        SecurityManager {  }
    }

    /// The fingerprint of `content`: its SHA-256 digest.
    pub fn fingerprint(&self, content: &[u8]) -> (r: Vec<u8>)
        ensures
            r@ == sha256(content@),
            r@.len() == 32,
    {
        sha256_digest(content)
    }

    /// What hashing returns for the outcome `raw` of the Argon2 stage.
    pub fn hash_result(raw: Result<String, String>, label: &str) -> (r: Result<
        String,
        OpenCliError,
    >)
        ensures
            match raw {
                Ok(h) => r matches Ok(s) && s@ == h@,
                Err(m) => r matches Err(e) && e is Process && e.message() == label@ + m@,
            },
    {
        match raw {
            Ok(h) => Ok(h),
            Err(m) => Err(OpenCliError::Process(join2(label, m.as_str()))),
        }
    }

    /// What verification returns for the outcome `raw` of the check.
    pub fn verify_result(raw: Result<bool, String>) -> (r: Result<bool, OpenCliError>)
        ensures
            match raw {
                Ok(b) => r matches Ok(x) && x == b,
                Err(m) => r matches Err(e) && e is Process && e.message()
                    == "Invalid hash format: "@ + m@,
            },
    {
        match raw {
            Ok(b) => Ok(b),
            Err(m) => Err(OpenCliError::Process(join2("Invalid hash format: ", m.as_str()))),
        }
    }

    /// The hash of a fingerprint under the given salt.
    pub fn hash_with_salt(&self, content_hash: &[u8], salt: &str) -> (r: Result<
        String,
        OpenCliError,
    >)
        ensures
            hash_outcome(argon2_phc(content_hash@, salt@), "Failed to hash content: "@, r),
            r matches Ok(h) ==> phc_check(content_hash@, h@) == check_ok(true),
    {
        Self::hash_result(argon2_hash(content_hash, salt), "Failed to hash content: ")
    }

    /// The hash of a fingerprint that the caller has computed, under a fresh
    /// salt. What comes back is the hash under some salt; a hash that comes
    /// back verifies against the fingerprint.
    pub fn hash_file_content(&self, content_hash: &[u8]) -> (r: Result<String, OpenCliError>)
        ensures
            exists|salt: Seq<char>|
                hash_outcome(
                    #[trigger] argon2_phc(content_hash@, salt),
                    "Failed to hash content: "@,
                    r,
                ),
            r matches Ok(h) ==> phc_check(content_hash@, h@) == check_ok(true),
    {
        let salt = fresh_salt();
        self.hash_with_salt(content_hash, salt.as_str())
    }

    /// The hash of the content of a file: of its fingerprint, under a fresh
    /// salt. A hash that comes back verifies against the content.
    pub fn hash_file(&self, content: &[u8]) -> (r: Result<String, OpenCliError>)
        ensures
            exists|salt: Seq<char>|
                hash_outcome(
                    #[trigger] argon2_phc(sha256(content@), salt),
                    "Failed to hash file: "@,
                    r,
                ),
            r matches Ok(h) ==> phc_check(sha256(content@), h@) == check_ok(true),
    {
        let fingerprint = sha256_digest(content);
        let salt = fresh_salt();
        Self::hash_result(
            argon2_hash(fingerprint.as_slice(), salt.as_str()),
            "Failed to hash file: ",
        )
    }

    /// Whether `stored_hash` is a hash of the fingerprint.
    ///
    /// Fails with a `Process` error where the stored text is no PHC string.
    pub fn verify_fingerprint(&self, content_hash: &[u8], stored_hash: &str) -> (r: Result<
        bool,
        OpenCliError,
    >)
        ensures
            verify_outcome(phc_check(content_hash@, stored_hash@), r),
    {
        Self::verify_result(argon2_verify(content_hash, stored_hash))
    }

    /// Whether `stored_hash` is a hash of the content of a file. A mismatch
    /// is `Ok(false)`, not an error.
    ///
    /// Fails with a `Process` error where the stored text is no PHC string.
    pub fn verify_file(&self, content: &[u8], stored_hash: &str) -> (r: Result<bool, OpenCliError>)
        ensures
            verify_outcome(phc_check(sha256(content@), stored_hash@), r),
    {
        let fingerprint = sha256_digest(content);
        Self::verify_result(argon2_verify(fingerprint.as_slice(), stored_hash))
    }
}

/// Hashing and then verifying the same content succeeds. `hashed` stands for
/// what `hash_file` returned for the content, with what `hash_file` ensures
/// of a hash that it returns; `verified` stands for what `verify_file`
/// returned for the content and that hash, with what `verify_file` ensures.
/// Then `verified` is `Ok(true)`, whatever salt the hash was made with.
pub proof fn lemma_hash_then_verify(
    content: Seq<u8>,
    hashed: Result<String, OpenCliError>,
    verified: Result<bool, OpenCliError>,
)
    requires
        hashed matches Ok(h) && phc_check(sha256(content), h@) == check_ok(true) && verify_outcome(
            phc_check(sha256(content), h@),
            verified,
        ),
    ensures
        verified == Ok::<bool, OpenCliError>(true),
{
}

} // verus!
