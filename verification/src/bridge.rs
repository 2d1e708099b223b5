use vstd::prelude::*;

verus! {

/// Whether bcrypt verification accepts `password` against the stored hash
/// string `stored`: the (deterministic) outcome of `bcrypt::verify`, with a
/// malformed stored hash counting as no match. The outcome depends on the
/// two arguments alone, so it can carry a name even though writing the
/// algorithm out here would prove nothing.
pub uninterp spec fn bcrypt_accepts(password: Seq<char>, stored: Seq<char>) -> bool;

#[verifier::external_type_specification]
#[verifier::external_body]
pub struct ExBcryptError(bcrypt::BcryptError);

/// Relies on `bcrypt::hash` at `DEFAULT_COST` (a valid cost, so only the
/// operating system's randomness can fail): on success the result is the
/// 60-character `$2b$...` encoding of a salted one-way hash of the
/// password, and `bcrypt::verify` recomputes that hash from the embedded
/// cost and salt, so it accepts the password against the result.
#[verifier::external_body]
pub(crate) fn hash_password(password: &str) -> (r: Result<String, bcrypt::BcryptError>)
    ensures
        r matches Ok(h) ==> h@.len() == 60 && h@[0] == '$' && bcrypt_accepts(password@, h@),
{
    bcrypt::hash(password, bcrypt::DEFAULT_COST)
}

/// Relies on `bcrypt::verify`: a deterministic function of the password
/// and the stored hash string, which compares the recomputed hash in
/// constant time. A verification error (a malformed stored hash) counts
/// as no match, as the login flow treats it.
#[verifier::external_body]
pub(crate) fn password_matches(password: &str, stored: &str) -> (r: bool)
    ensures
        r == bcrypt_accepts(password@, stored@),
{
    match bcrypt::verify(password, stored) {
        Ok(accepted) => accepted,
        Err(_) => false,
    }
}

/// Relies on `uuid::Uuid::new_v4` for a randomly generated identifier,
/// carried as its 128-bit value. Nothing is assumed of the outcome: the
/// callers state what holds whatever identifier comes back. If the
/// operating system's randomness source fails, the primitive itself
/// aborts the process rather than returning.
#[verifier::external_body]
pub(crate) fn fresh_id() -> u128 {
    uuid::Uuid::new_v4().as_u128()
}

} // verus!
