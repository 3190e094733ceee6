use vstd::prelude::*;

use ockam_vault::{Secret, SoftwareVault};

use crate::change::{Change, ChangeHistory};
use crate::error::IdentityError;
use crate::history::{compute_change_hash, verify_change_history};
use crate::identifier::hex_lower;
use crate::identity::Identity;
use crate::vault::{
    sha256_of, vault_generate_secret, vault_key_id, vault_public_key, vault_secret_by_key_id, vault_sign,
};

verus! {

/// The secret to build a change with: the one stored under `key_id`, or a fresh one.
fn secret_for(vault: &mut SoftwareVault, key_id: Option<&str>) -> (r: Result<Secret, IdentityError>)
    ensures
        r is Err && key_id is None ==> r->Err_0 == IdentityError::VaultError,
        r is Err && key_id is Some ==> r->Err_0 == IdentityError::KeyNotFound,
{
    match key_id {
        Some(id) => match vault_secret_by_key_id(vault, id) {
            Ok(s) => Ok(s),
            Err(_) => Err(IdentityError::KeyNotFound),
        },
        None => match vault_generate_secret(vault) {
            Ok(s) => Ok(s),
            Err(_) => Err(IdentityError::VaultError),
        },
    }
}

/// A change introducing the public key of `secret`, linked to `previous`,
/// signed with `signer`.
fn make_change(
    vault: &mut SoftwareVault,
    previous: Option<Vec<u8>>,
    secret: &Secret,
    signer: &Secret,
) -> (r: Result<Change, IdentityError>)
    ensures
        r is Ok ==> r->Ok_0@.previous == match previous {
            Some(p) => Some(p@),
            None => None::<Seq<u8>>,
        },
        r is Err ==> r->Err_0 == IdentityError::VaultError,
{
    let public_key = match vault_public_key(vault, secret) {
        Ok(k) => k,
        Err(_) => {
            return Err(IdentityError::VaultError);
        },
    };
    let mut change = Change { previous, public_key, signature: Vec::new() };
    let data = change.signed_data();
    match vault_sign(vault, signer, data.as_slice()) {
        Ok(s) => {
            change.signature = s;
            Ok(change)
        },
        Err(_) => Err(IdentityError::VaultError),
    }
}

/// Build a new identity whose history is one root change, self-signed with the
/// secret stored under `key_id`, or with a freshly generated secret.
pub fn create_initial_key(vault: &mut SoftwareVault, key_id: Option<&str>) -> (r: Result<
    Identity,
    IdentityError,
>)
    ensures
        r is Ok ==> r->Ok_0.wf(),
        r is Ok ==> r->Ok_0@.history.len() == 1,
        r is Ok ==> r->Ok_0@.history[0].previous is None,
        r is Err && key_id is None ==> r->Err_0 == IdentityError::VaultError || r->Err_0
            == IdentityError::InvalidChange,
        r is Err && key_id is Some ==> r->Err_0 == IdentityError::VaultError || r->Err_0
            == IdentityError::KeyNotFound || r->Err_0 == IdentityError::InvalidChange,
{
    let secret = secret_for(vault, key_id)?;
    let change = make_change(vault, None, &secret, &secret)?;
    let mut changes: Vec<Change> = Vec::new();
    changes.push(change);
    let history = ChangeHistory { changes };
    let identifier = verify_change_history(vault, &history)?;
    Ok(Identity::from_verified(identifier, history))
}

/// The vault's key id of the currently authorized key of `identity`: the
/// public key of its last change.
pub fn authorized_key_id(vault: &mut SoftwareVault, identity: &Identity) -> (r: String)
    requires
        identity.wf(),
    ensures
        r@ == hex_lower(sha256_of(identity@.history.last().public_key)),
{
    let changes = &identity.change_history().changes;
    let last = &changes[changes.len() - 1];
    match vault_key_id(vault, last.public_key.as_slice()) {
        Ok(id) => id,
        Err(_) => {
            proof {
                assert(false);
            }
            String::new()
        },
    }
}

/// The vault's secret for the currently authorized key of `identity`, looked
/// up under `authorized_key_id(identity)`.
pub fn get_secret_key(vault: &mut SoftwareVault, identity: &Identity) -> (r: Result<
    Secret,
    IdentityError,
>)
    requires
        identity.wf(),
    ensures
        r is Err ==> r->Err_0 == IdentityError::KeyNotFound,
{
    let key_id = authorized_key_id(vault, identity);
    match vault_secret_by_key_id(vault, key_id.as_str()) {
        Ok(s) => Ok(s),
        Err(_) => Err(IdentityError::KeyNotFound),
    }
}

/// Extend the history of `identity` with a change that introduces the key
/// stored under `key_id` (or a fresh one), signed with the current key.
pub fn rotate_key(vault: &mut SoftwareVault, identity: &Identity, key_id: Option<&str>) -> (r: Result<
    Identity,
    IdentityError,
>)
    requires
        identity.wf(),
    ensures
        r is Ok ==> r->Ok_0.wf(),
        r is Ok ==> r->Ok_0@.identifier == identity@.identifier,
        r is Ok ==> r->Ok_0@.history.len() == identity@.history.len() + 1,
        r is Ok ==> r->Ok_0@.history.take(identity@.history.len() as int) == identity@.history,
        r is Err ==> r->Err_0 == IdentityError::VaultError || r->Err_0 == IdentityError::KeyNotFound
            || r->Err_0 == IdentityError::InvalidChange,
{
    let signer = get_secret_key(vault, identity)?;
    let secret = secret_for(vault, key_id)?;
    let current = identity.change_history();
    let last_hash = compute_change_hash(vault, &current.changes[current.changes.len() - 1]);
    let change = make_change(vault, Some(last_hash), &secret, &signer)?;
    let mut history = current.copy();
    history.changes.push(change);
    proof {
        assert(history@.take(identity@.history.len() as int) =~= identity@.history);
        assert(history@[0] == identity@.history[0]);
    }
    let identifier = verify_change_history(vault, &history)?;
    Ok(Identity::from_verified(identifier, history))
}

} // verus!
