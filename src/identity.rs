use vstd::prelude::*;

use ockam_vault::SoftwareVault;

use crate::change::{change_wf, ChangeHistory, ChangeView};
use crate::codec::{decode_history, encode_history, lemma_decode_encode};
use crate::error::IdentityError;
use crate::history::{change_accepted, change_hash, history_valid, identifier_of, verify_change_history};
use crate::identifier::{Identifier, IDENTIFIER_LEN};

verus! {

/// Mathematical model of an identity.
pub struct IdentityView {
    pub identifier: Seq<u8>,
    pub history: Seq<ChangeView>,
}

/// An identifier together with the verified change history it is derived from.
#[derive(Clone, Debug, PartialEq, Eq)]
pub struct Identity {
    identifier: Identifier,
    change_history: ChangeHistory,
}

impl View for Identity {
    type V = IdentityView;

    closed spec fn view(&self) -> IdentityView {
        IdentityView { identifier: self.identifier@, history: self.change_history@ }
    }
}

/// The fingerprint that an optional expected identifier asks for.
pub open spec fn expected_view(expected: Option<&Identifier>) -> Option<Seq<u8>> {
    match expected {
        Some(e) => Some(e@),
        None => None,
    }
}

/// Outcome of importing an already decoded history: the history itself, or
/// the first check that fails.
pub open spec fn import_outcome(expected: Option<Seq<u8>>, h: Seq<ChangeView>) -> Result<
    Seq<ChangeView>,
    IdentityError,
> {
    if !history_valid(h) {
        Err(IdentityError::InvalidChange)
    } else if expected matches Some(e) && e != identifier_of(h) {
        Err(IdentityError::IdentifierMismatch)
    } else {
        Ok(h)
    }
}

/// Outcome of importing an encoded history.
pub open spec fn import_bytes_outcome(expected: Option<Seq<u8>>, data: Seq<u8>) -> Result<
    Seq<ChangeView>,
    IdentityError,
> {
    match decode_history(data) {
        None => Err(IdentityError::DecodeError),
        Some(h) => import_outcome(expected, h),
    }
}

impl Identity {
    /// The history is valid and the identifier is the one derived from it.
    pub open spec fn wf(&self) -> bool {
        &&& history_valid(self@.history)
        &&& self@.identifier == identifier_of(self@.history)
        &&& self@.identifier.len() == IDENTIFIER_LEN
    }

    /// The identifier.
    pub fn identifier(&self) -> (r: &Identifier)
        ensures
            r@ == self@.identifier,
    {
        &self.identifier
    }

    /// The change history.
    pub fn change_history(&self) -> (r: &ChangeHistory)
        ensures
            r@ == self@.history,
    {
        &self.change_history
    }

    /// The wire encoding of the change history.
    pub fn export(&self) -> (r: Vec<u8>)
        ensures
            r@ == encode_history(self@.history),
    {
        self.change_history.encode()
    }

    /// Verify a decoded history and check its identifier against the expected one.
    pub fn import_from_change_history(
        expected_identifier: Option<&Identifier>,
        change_history: ChangeHistory,
        vault: &mut SoftwareVault,
    ) -> (r: Result<Identity, IdentityError>)
        ensures
            import_outcome(expected_view(expected_identifier), change_history@) is Ok ==> r is Ok,
            r is Ok ==> r->Ok_0.wf(),
            r is Ok ==> r->Ok_0@.history == change_history@,
            import_outcome(expected_view(expected_identifier), change_history@) is Err ==> r
                == Err::<Identity, IdentityError>(
                import_outcome(expected_view(expected_identifier), change_history@)->Err_0,
            ),
    {
        let identifier = match verify_change_history(vault, &change_history) {
            Ok(id) => id,
            Err(e) => {
                return Err(e);
            },
        };
        if let Some(expected) = expected_identifier {
            if !expected.same_as(&identifier) {
                return Err(IdentityError::IdentifierMismatch);
            }
        }
        Ok(Identity { identifier, change_history })
    }

    /// Decode and verify an identity from its wire encoding.
    pub fn import(
        expected_identifier: Option<&Identifier>,
        data: &[u8],
        vault: &mut SoftwareVault,
    ) -> (r: Result<Identity, IdentityError>)
        ensures
            import_bytes_outcome(expected_view(expected_identifier), data@) is Ok ==> r is Ok,
            r is Ok ==> r->Ok_0.wf(),
            r is Ok ==> r->Ok_0@.history == decode_history(data@)->Some_0,
            import_bytes_outcome(expected_view(expected_identifier), data@) is Err ==> r
                == Err::<Identity, IdentityError>(
                import_bytes_outcome(expected_view(expected_identifier), data@)->Err_0,
            ),
    {
        match ChangeHistory::decode(data) {
            None => Err(IdentityError::DecodeError),
            Some(history) => Identity::import_from_change_history(expected_identifier, history, vault),
        }
    }

    /// An identity from a history already known to be valid, with its identifier.
    pub(crate) fn from_verified(identifier: Identifier, change_history: ChangeHistory) -> (r: Identity)
        requires
            history_valid(change_history@),
            identifier@ == identifier_of(change_history@),
            identifier@.len() == IDENTIFIER_LEN,
        ensures
            r.wf(),
            r@.identifier == identifier@,
            r@.history == change_history@,
    {
        Identity { identifier, change_history }
    }
}

/// The identifier of a well-formed identity is the hash of its root change.
pub proof fn lemma_identifier_is_derived(identity: &Identity)
    requires
        identity.wf(),
    ensures
        identity@.identifier == change_hash(identity@.history[0]),
{
}

/// Decoding the export of a well-formed identity gives back its change history.
pub proof fn lemma_export_round_trip(identity: &Identity)
    requires
        identity.wf(),
    ensures
        decode_history(encode_history(identity@.history)) == Some(identity@.history),
{
    let h = identity@.history;
    assert forall|i: int| 0 <= i < h.len() implies change_wf(#[trigger] h[i]) by {
        assert(change_accepted(h, i));
    }
    lemma_decode_encode(h);
}

/// A history holding any change that is malformed, wrongly linked, or not
/// signed by its authorized key is rejected with `InvalidChange`, whatever
/// identifier is expected.
pub proof fn lemma_rejected_change_fails_import(
    expected: Option<Seq<u8>>,
    h: Seq<ChangeView>,
    i: int,
)
    requires
        0 <= i < h.len(),
        !change_accepted(h, i),
    ensures
        import_outcome(expected, h) == Err::<Seq<ChangeView>, IdentityError>(
            IdentityError::InvalidChange,
        ),
{
}

/// Importing the bytes of a valid history succeeds without an expected
/// identifier, or with the derived one, and fails with `IdentifierMismatch`
/// under any other expected identifier.
pub proof fn lemma_identifier_binding(data: Seq<u8>, expected: Seq<u8>)
    requires
        decode_history(data) matches Some(h) && history_valid(h),
    ensures
        import_bytes_outcome(None, data) == Ok::<Seq<ChangeView>, IdentityError>(
            decode_history(data)->Some_0,
        ),
        import_bytes_outcome(Some(identifier_of(decode_history(data)->Some_0)), data) == Ok::<
            Seq<ChangeView>,
            IdentityError,
        >(decode_history(data)->Some_0),
        expected != identifier_of(decode_history(data)->Some_0) ==> import_bytes_outcome(
            Some(expected),
            data,
        ) == Err::<Seq<ChangeView>, IdentityError>(IdentityError::IdentifierMismatch),
{
}

} // verus!
