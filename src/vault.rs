use vstd::prelude::*;

use ockam_vault::ockam_vault_core::{
    SecretPersistence, SecretType, Signature, CURVE25519_SECRET_LENGTH,
};
use ockam_vault::{
    Hasher, KeyIdVault, PublicKey, Secret, SecretAttributes, SecretVault, Signer, SoftwareVault,
    Verifier,
};

use crate::identifier::hex_lower;

verus! {

#[verifier::external_type_specification]
#[verifier::external_body]
pub struct ExSoftwareVault(SoftwareVault);

#[verifier::external_type_specification]
#[verifier::external_body]
pub struct ExSecret(Secret);

#[verifier::external_type_specification]
#[verifier::external_body]
pub struct ExError(ockam_core::Error);

/// The SHA-256 digest of some bytes.
pub uninterp spec fn sha256_of(data: Seq<u8>) -> Seq<u8>;

/// Whether an XEdDSA signature over some data is valid for a Curve25519 public key.
pub uninterp spec fn xeddsa_verifies(public_key: Seq<u8>, data: Seq<u8>, signature: Seq<u8>) -> bool;

/// Relies on `Hasher::sha256` of `SoftwareVault`, which always returns the
/// 32-byte SHA-256 digest of `data`.
#[verifier::external_body]
pub(crate) fn vault_sha256(vault: &mut SoftwareVault, data: &[u8]) -> (r: Result<Vec<u8>, ockam_core::Error>)
    ensures
        r is Ok,
        r is Ok ==> r->Ok_0@ == sha256_of(data@),
        r is Ok ==> r->Ok_0@.len() == 32,
{
    vault.sha256(data).map(|d| d.to_vec())
}

/// Relies on `Verifier::verify` of `SoftwareVault`: for a 32-byte public key
/// and a 64-byte signature it returns whether the XEdDSA signature is valid;
/// for other lengths it returns an error. It goes through ed25519's
/// `Signature::new`, which panics when one of the three high bits of the
/// signature's last byte is set, so such signatures are not admitted.
#[verifier::external_body]
pub(crate) fn vault_verify(
    vault: &mut SoftwareVault,
    public_key: &[u8],
    data: &[u8],
    signature: &[u8],
) -> (r: Result<bool, ockam_core::Error>)
    requires
        signature@.len() == 64 ==> signature@[63] < 32,
    ensures
        public_key@.len() == 32 && signature@.len() == 64 ==> r is Ok,
        public_key@.len() == 32 && signature@.len() == 64 ==> r->Ok_0 == xeddsa_verifies(
            public_key@,
            data@,
            signature@,
        ),
        !(public_key@.len() == 32 && signature@.len() == 64) ==> r is Err,
{
    vault.verify(
        &Signature::new(signature.to_vec()),
        &PublicKey::new(public_key.to_vec()),
        data,
    )
}

/// Relies on `SecretVault::secret_generate` of `SoftwareVault`: a fresh random
/// Curve25519 secret held by the vault, or an error.
#[verifier::external_body]
pub(crate) fn vault_generate_secret(vault: &mut SoftwareVault) -> (r: Result<Secret, ockam_core::Error>) {
    vault.secret_generate(
        SecretAttributes::new(
            SecretType::Curve25519,
            SecretPersistence::Persistent,
            CURVE25519_SECRET_LENGTH,
        ),
    )
}

/// Relies on `SecretVault::secret_public_key_get` of `SoftwareVault`: the
/// 32-byte Curve25519 public key of a secret, or an error.
#[verifier::external_body]
pub(crate) fn vault_public_key(vault: &mut SoftwareVault, secret: &Secret) -> (r: Result<Vec<u8>, ockam_core::Error>)
    ensures
        r is Ok ==> r->Ok_0@.len() == 32,
{
    vault.secret_public_key_get(secret).map(|k| k.as_ref().to_vec())
}

/// Relies on `Signer::sign` of `SoftwareVault`: a 64-byte XEdDSA signature
/// over `data` with a Curve25519 secret, or an error.
#[verifier::external_body]
pub(crate) fn vault_sign(vault: &mut SoftwareVault, secret: &Secret, data: &[u8]) -> (r: Result<Vec<u8>, ockam_core::Error>)
    ensures
        r is Ok ==> r->Ok_0@.len() == 64,
{
    vault.sign(secret, data).map(|s| s.as_ref().to_vec())
}

/// Relies on `KeyIdVault::compute_key_id_for_public_key` of `SoftwareVault`,
/// which always returns the lowercase hex encoding (`hex::encode`) of the
/// SHA-256 digest of the public key.
#[verifier::external_body]
pub(crate) fn vault_key_id(vault: &mut SoftwareVault, public_key: &[u8]) -> (r: Result<String, ockam_core::Error>)
    ensures
        r is Ok,
        r is Ok ==> r->Ok_0@ == hex_lower(sha256_of(public_key@)),
{
    vault.compute_key_id_for_public_key(&PublicKey::new(public_key.to_vec()))
}

/// Relies on `KeyIdVault::get_secret_by_key_id` of `SoftwareVault`: the
/// secret that the vault holds under a key id, or an error.
#[verifier::external_body]
pub(crate) fn vault_secret_by_key_id(vault: &mut SoftwareVault, key_id: &str) -> (r: Result<Secret, ockam_core::Error>) {
    vault.get_secret_by_key_id(key_id)
}

} // verus!
