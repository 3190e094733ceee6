use vstd::prelude::*;

use crate::bytes::{append_bytes, bytes_equal, copy_bytes};
use crate::identifier::IDENTIFIER_LEN;

verus! {

/// Length of a change's public key (a Curve25519 public key).
pub const KEY_LEN: usize = 32;

/// Length of a change's signature.
pub const SIGNATURE_LEN: usize = 64;

/// Bound on the last byte of a signature.
pub const SIGNATURE_LAST_BYTE_BOUND: u8 = 32;

/// Length of the hash by which a change names its predecessor.
pub const CHANGE_HASH_LEN: usize = IDENTIFIER_LEN;

/// First byte of the signed data of a root change.
pub const ROOT_TAG: u8 = 0;

/// First byte of the signed data of a change that extends a previous one.
pub const NEXT_TAG: u8 = 1;

/// One event of an identity's key evolution.
#[derive(Clone, Debug, PartialEq, Eq)]
pub struct Change {
    /// Hash of the change this one extends; `None` for the root change.
    pub previous: Option<Vec<u8>>,
    /// The public key that this change makes the authorized key.
    pub public_key: Vec<u8>,
    /// Signature over the change's signed data.
    pub signature: Vec<u8>,
}

/// Mathematical model of a change.
pub struct ChangeView {
    pub previous: Option<Seq<u8>>,
    pub public_key: Seq<u8>,
    pub signature: Seq<u8>,
}

impl View for Change {
    type V = ChangeView;

    open spec fn view(&self) -> ChangeView {
        ChangeView {
            previous: match self.previous {
                Some(p) => Some(p@),
                None => None,
            },
            public_key: self.public_key@,
            signature: self.signature@,
        }
    }
}

/// The fields of a change have their fixed lengths, and the signature's last
/// byte has its three high bits clear, as every Ed25519 signature does.
pub open spec fn change_wf(c: ChangeView) -> bool {
    &&& c.public_key.len() == KEY_LEN
    &&& c.signature.len() == SIGNATURE_LEN
    &&& c.signature[SIGNATURE_LEN - 1] < SIGNATURE_LAST_BYTE_BOUND
    &&& c.previous matches Some(p) ==> p.len() == CHANGE_HASH_LEN
}

/// The bytes that a change's signature covers: a tag, the previous hash if
/// any, and the public key.
pub open spec fn signed_data(c: ChangeView) -> Seq<u8> {
    match c.previous {
        None => seq![ROOT_TAG] + c.public_key,
        Some(p) => seq![NEXT_TAG] + p + c.public_key,
    }
}

/// An ordered, root-first sequence of changes.
#[derive(Clone, Debug, PartialEq, Eq)]
pub struct ChangeHistory {
    pub changes: Vec<Change>,
}

impl View for ChangeHistory {
    type V = Seq<ChangeView>;

    open spec fn view(&self) -> Seq<ChangeView> {
        self.changes@.map_values(|c: Change| c@)
    }
}

impl Change {
    /// The signed data of this change.
    pub fn signed_data(&self) -> (r: Vec<u8>)
        ensures
            r@ == signed_data(self@),
    {
        let mut r: Vec<u8> = Vec::new();
        match &self.previous {
            None => {
                r.push(ROOT_TAG);
                append_bytes(&mut r, self.public_key.as_slice());
            },
            Some(p) => {
                r.push(NEXT_TAG);
                append_bytes(&mut r, p.as_slice());
                append_bytes(&mut r, self.public_key.as_slice());
            },
        }
        r
    }

    /// Whether the fields have their fixed lengths and the signature's last
    /// byte is in range.
    pub fn is_well_formed(&self) -> (r: bool)
        ensures
            r == change_wf(self@),
    {
        self.public_key.len() == KEY_LEN && self.signature.len() == SIGNATURE_LEN
            && self.signature[SIGNATURE_LEN - 1] < SIGNATURE_LAST_BYTE_BOUND && match &self.previous {
            Some(p) => p.len() == CHANGE_HASH_LEN,
            None => true,
        }
    }

    /// Whether two changes are equal.
    pub fn same_as(&self, other: &Change) -> (r: bool)
        ensures
            r == (self@ == other@),
    {
        let prev_eq = match (&self.previous, &other.previous) {
            (None, None) => true,
            (Some(a), Some(b)) => bytes_equal(a, b),
            _ => false,
        };
        prev_eq && bytes_equal(&self.public_key, &other.public_key) && bytes_equal(
            &self.signature,
            &other.signature,
        )
    }

    /// A copy of this change.
    pub fn copy(&self) -> (r: Change)
        ensures
            r@ == self@,
    {
        let previous = match &self.previous {
            Some(p) => Some(copy_bytes(p)),
            None => None,
        };
        Change {
            previous,
            public_key: copy_bytes(&self.public_key),
            signature: copy_bytes(&self.signature),
        }
    }
}

impl ChangeHistory {
    /// A copy of this history.
    pub fn copy(&self) -> (r: ChangeHistory)
        ensures
            r@ == self@,
    {
        let mut changes: Vec<Change> = Vec::new();
        let mut i: usize = 0;
        while i < self.changes.len()
            invariant
                i <= self.changes@.len(),
                changes@.len() == i,
                forall|k: int| 0 <= k < i ==> (#[trigger] changes@[k])@ == self.changes@[k]@,
            decreases self.changes@.len() - i,
        {
            changes.push(self.changes[i].copy());
            i = i + 1;
        }
        let r = ChangeHistory { changes };
        assert(r@ =~= self@);
        r
    }
}

} // verus!
