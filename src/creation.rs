use vstd::prelude::*;

use ockam_vault::SoftwareVault;

use crate::change::ChangeView;
use crate::error::IdentityError;
use crate::history::{history_valid, identifier_of};
use crate::identifier::Identifier;
use crate::identity::{expected_view, import_bytes_outcome, import_outcome, Identity};
use crate::keys::create_initial_key;
use crate::repository::{reconcile, required_lookup, IdentitiesRepository};

verus! {

/// Creation and import of identities with a vault, persisting created ones
/// in a repository.
pub struct IdentitiesCreation {
    pub repository: IdentitiesRepository,
    pub vault: SoftwareVault,
}

impl IdentitiesCreation {
    /// Create a new identities creation module.
    pub fn new(repository: IdentitiesRepository, vault: SoftwareVault) -> (r: IdentitiesCreation)
        ensures
            r.repository == repository,
            r.vault == vault,
    {
        IdentitiesCreation { repository, vault }
    }

    /// Import and verify an identity from its binary format; nothing is persisted.
    pub fn import(&mut self, expected_identifier: Option<&Identifier>, data: &[u8]) -> (r: Result<
        Identity,
        IdentityError,
    >)
        ensures
            final(self).repository == old(self).repository,
            import_bytes_outcome(expected_view(expected_identifier), data@) is Ok ==> r is Ok,
            r is Ok ==> r->Ok_0.wf(),
            r is Ok ==> r->Ok_0@.history == import_bytes_outcome(
                expected_view(expected_identifier),
                data@,
            )->Ok_0,
            import_bytes_outcome(expected_view(expected_identifier), data@) is Err ==> r
                == Err::<Identity, IdentityError>(
                import_bytes_outcome(expected_view(expected_identifier), data@)->Err_0,
            ),
    {
        Identity::import(expected_identifier, data, &mut self.vault)
    }

    /// Create an identity with a fresh key and persist it.
    pub fn create_identity(&mut self) -> (r: Result<Identity, IdentityError>)
        requires
            old(self).repository.wf(),
        ensures
            final(self).repository.wf(),
            r is Ok ==> r->Ok_0.wf(),
            r is Ok ==> r->Ok_0@.history.len() == 1,
            r is Ok ==> final(self).repository@ == old(self).repository@.insert(
                r->Ok_0@.identifier,
                r->Ok_0@.history,
            ),
            r is Err ==> final(self).repository@ == old(self).repository@,
            r is Err ==> r->Err_0 == IdentityError::VaultError || r->Err_0
                == IdentityError::InvalidChange || r->Err_0 == IdentityError::ConflictingHistory,
    {
        self.make_and_persist_identity(None)
    }

    /// Store a verified identity's history under its identifier. Succeeds
    /// exactly when the repository accepts the update; otherwise the
    /// repository's `ConflictingHistory` comes back and nothing changes.
    pub fn persist_identity(&mut self, identity: Identity) -> (r: Result<Identity, IdentityError>)
        requires
            old(self).repository.wf(),
            identity.wf(),
        ensures
            final(self).repository.wf(),
            r is Ok <==> reconcile(
                old(self).repository@,
                identity@.identifier,
                identity@.history,
            ) is Ok,
            r is Ok ==> r->Ok_0 == identity,
            r is Ok ==> final(self).repository@ == old(self).repository@.insert(
                identity@.identifier,
                identity@.history,
            ),
            r is Err ==> r->Err_0 == IdentityError::ConflictingHistory,
            r is Err ==> final(self).repository@ == old(self).repository@,
    {
        match self.repository.update_identity(identity.identifier(), identity.change_history()) {
            Ok(()) => Ok(identity),
            Err(e) => Err(e),
        }
    }

    /// Make a new identity with the key stored under `key_id`, or a fresh
    /// one, and persist it.
    fn make_and_persist_identity(&mut self, key_id: Option<&str>) -> (r: Result<
        Identity,
        IdentityError,
    >)
        requires
            old(self).repository.wf(),
        ensures
            final(self).repository.wf(),
            r is Ok ==> r->Ok_0.wf(),
            r is Ok ==> r->Ok_0@.history.len() == 1,
            r is Ok ==> final(self).repository@ == old(self).repository@.insert(
                r->Ok_0@.identifier,
                r->Ok_0@.history,
            ),
            r is Err ==> final(self).repository@ == old(self).repository@,
            r is Err && key_id is None ==> r->Err_0 == IdentityError::VaultError || r->Err_0
                == IdentityError::InvalidChange || r->Err_0 == IdentityError::ConflictingHistory,
            r is Err && key_id is Some ==> r->Err_0 == IdentityError::VaultError || r->Err_0
                == IdentityError::KeyNotFound || r->Err_0 == IdentityError::InvalidChange || r->Err_0
                == IdentityError::ConflictingHistory,
    {
        let identity = create_initial_key(&mut self.vault, key_id)?;
        self.persist_identity(identity)
    }
}

/// Once an identity's history is stored under its identifier, the required
/// lookup returns that history and importing it under that identifier gives
/// back the same identifier and history.
pub proof fn lemma_persistence_round_trip(
    m: Map<Seq<u8>, Seq<ChangeView>>,
    identity: &Identity,
)
    requires
        identity.wf(),
    ensures
        required_lookup(m.insert(identity@.identifier, identity@.history), identity@.identifier)
            == Ok::<Seq<ChangeView>, IdentityError>(identity@.history),
        import_outcome(Some(identity@.identifier), identity@.history) == Ok::<
            Seq<ChangeView>,
            IdentityError,
        >(identity@.history),
        history_valid(identity@.history) && identifier_of(identity@.history)
            == identity@.identifier,
{
}

} // verus!
