//! Password hashing for accounts (Argon2 with the crate's default
//! parameters, PHC string format).
use vstd::prelude::*;
use vstd::string::StringSliceAdditionalSpecFns;

use argon2::{PasswordHasher, PasswordVerifier};

verus! {

/// What `Argon2::default().hash_password` gives for a password and a salt:
/// the PHC text of the hash, or the text of the error. It depends on these
/// two alone.
pub uninterp spec fn argon2_phc(password: Seq<u8>, salt: Seq<char>) -> Result<Seq<char>, Seq<char>>;

/// Whether `Argon2::default().verify_password` accepts a password against a
/// PHC text (false when the text does not parse). It depends on these two
/// alone.
pub uninterp spec fn argon2_accepts(password: Seq<u8>, phc: Seq<char>) -> bool;

/// A fresh random salt from the system's generator
/// (`SaltString::generate(&mut OsRng)`), as its base64 text. Random, so
/// nothing is claimed of it.
#[verifier::external_body]
fn random_salt() -> (r: String) {
    argon2::password_hash::SaltString::generate(&mut argon2::password_hash::rand_core::OsRng).as_str().to_owned()
}

/// Hashes `password` with `salt` (`SaltString::from_b64`, then
/// `Argon2::default().hash_password`, as PHC text); errors are returned as
/// their text. The result is named `argon2_phc`. As the source of
/// `PasswordVerifier::verify_password` shows (it recomputes the hash with the
/// stored salt and parameters and compares), the hash it gives is accepted
/// for the same password.
#[verifier::external_body]
fn argon2_hash(password: &[u8], salt: &str) -> (r: Result<String, String>)
    ensures
        match r {
            Ok(h) => argon2_phc(password@, salt@) == Ok::<Seq<char>, Seq<char>>(h@) && argon2_accepts(password@, h@),
            Err(e) => argon2_phc(password@, salt@) == Err::<Seq<char>, Seq<char>>(e@),
        },
{
    let salt = match argon2::password_hash::SaltString::from_b64(salt) {
        Ok(s) => s,
        Err(e) => return Err(e.to_string()),
    };
    match argon2::Argon2::default().hash_password(password, &salt) {
        Ok(h) => Ok(h.to_string()),
        Err(e) => Err(e.to_string()),
    }
}

/// Checks `password` against the PHC text `phc` (`PasswordHash::new`, then
/// `Argon2::default().verify_password`); text that does not parse is
/// refused. The result is named `argon2_accepts`.
#[verifier::external_body]
fn argon2_verify(password: &[u8], phc: &str) -> (r: bool)
    ensures
        r == argon2_accepts(password@, phc@),
{
    match argon2::password_hash::PasswordHash::new(phc) {
        Ok(h) => argon2::Argon2::default().verify_password(password, &h).is_ok(),
        Err(_) => false,
    }
}

/// Hashes a password under a fresh random salt; the error's text on failure.
/// A hash it returns is accepted by `verify_password` for the same password.
pub fn hash_password(password: &str) -> (r: Result<String, String>)
    ensures
        exists|salt: Seq<char>|
            #[trigger] argon2_phc(password.spec_bytes(), salt) == match r {
                Ok(h) => Ok::<Seq<char>, Seq<char>>(h@),
                Err(e) => Err::<Seq<char>, Seq<char>>(e@),
            },
        r matches Ok(h) ==> argon2_accepts(password.spec_bytes(), h@),
{
    let salt = random_salt();
    argon2_hash(password.as_bytes(), salt.as_str())
}

/// Whether `password` matches the stored hash `hash`; a malformed hash never
/// matches.
pub fn verify_password(password: &str, hash: &str) -> (r: bool)
    ensures
        r == argon2_accepts(password.spec_bytes(), hash@),
{
    argon2_verify(password.as_bytes(), hash)
}

} // verus!
