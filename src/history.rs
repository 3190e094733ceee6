use vstd::prelude::*;

use ockam_vault::SoftwareVault;

use crate::bytes::bytes_equal;
use crate::change::{change_wf, signed_data, Change, ChangeHistory, ChangeView, CHANGE_HASH_LEN};
use crate::error::IdentityError;
use crate::identifier::Identifier;
use crate::vault::{sha256_of, vault_sha256, vault_verify, xeddsa_verifies};

verus! {

/// Hash that names a change: the first bytes of the SHA-256 digest of its signed data.
pub open spec fn change_hash(c: ChangeView) -> Seq<u8> {
    sha256_of(signed_data(c)).take(CHANGE_HASH_LEN as int)
}

/// The identifier of a history: the hash of its root change.
pub open spec fn identifier_of(h: Seq<ChangeView>) -> Seq<u8> {
    change_hash(h[0])
}

/// The key authorized to sign change `i`: the root signs itself, every later
/// change is signed by the key of the change before it.
pub open spec fn signer_key(h: Seq<ChangeView>, i: int) -> Seq<u8> {
    if i == 0 {
        h[0].public_key
    } else {
        h[i - 1].public_key
    }
}

/// Change `i` names the change before it, or nothing if it is the root.
pub open spec fn linked(h: Seq<ChangeView>, i: int) -> bool {
    if i == 0 {
        h[0].previous is None
    } else {
        h[i].previous == Some(change_hash(h[i - 1]))
    }
}

/// Change `i` is well formed, linked, and signed by its authorized key.
pub open spec fn change_accepted(h: Seq<ChangeView>, i: int) -> bool {
    &&& change_wf(h[i])
    &&& linked(h, i)
    &&& xeddsa_verifies(signer_key(h, i), signed_data(h[i]), h[i].signature)
}

/// A history is valid: non-empty, and every change is accepted.
pub open spec fn history_valid(h: Seq<ChangeView>) -> bool {
    &&& h.len() > 0
    &&& forall|i: int| 0 <= i < h.len() ==> #[trigger] change_accepted(h, i)
}

/// The hash that names `c`.
pub fn compute_change_hash(vault: &mut SoftwareVault, c: &Change) -> (r: Vec<u8>)
    ensures
        r@ == change_hash(c@),
        r@.len() == CHANGE_HASH_LEN,
{
    let data = c.signed_data();
    let digest = vault_sha256(vault, data.as_slice());
    match digest {
        Ok(d) => {
            let r = crate::bytes::copy_range(d.as_slice(), 0, CHANGE_HASH_LEN);
            proof {
                assert(r@ =~= change_hash(c@));
            }
            r
        },
        Err(_) => {
            proof {
                assert(false);
            }
            Vec::new()
        },
    }
}

/// Check every link and signature of a history, and derive its identifier.
pub fn verify_change_history(vault: &mut SoftwareVault, history: &ChangeHistory) -> (r: Result<
    Identifier,
    IdentityError,
>)
    ensures
        r is Ok <==> history_valid(history@),
        r is Ok ==> r->Ok_0@ == identifier_of(history@),
        r is Ok ==> r->Ok_0.wf(),
        r is Err ==> r->Err_0 == IdentityError::InvalidChange,
{
    let n = history.changes.len();
    if n == 0 {
        return Err(IdentityError::InvalidChange);
    }
    let mut i: usize = 0;
    let mut previous_hash: Vec<u8> = Vec::new();
    while i < n
        invariant
            n == history.changes@.len(),
            n == history@.len(),
            i <= n,
            forall|k: int| 0 <= k < i ==> #[trigger] change_accepted(history@, k),
            i > 0 ==> previous_hash@ == change_hash(history@[i - 1]),
        decreases n - i,
    {
        let c = &history.changes[i];
        assert(c@ == history@[i as int]);
        if !c.is_well_formed() {
            assert(!change_accepted(history@, i as int));
            return Err(IdentityError::InvalidChange);
        }
        let link_ok = if i == 0 {
            c.previous.is_none()
        } else {
            match &c.previous {
                Some(p) => bytes_equal(p, &previous_hash),
                None => false,
            }
        };
        if !link_ok {
            assert(!change_accepted(history@, i as int));
            return Err(IdentityError::InvalidChange);
        }
        let signer = if i == 0 {
            &c.public_key
        } else {
            &history.changes[i - 1].public_key
        };
        proof {
            if i > 0 {
                assert(change_accepted(history@, i - 1));
                assert(history.changes@[i - 1]@ == history@[i - 1]);
            }
            assert(signer@ == signer_key(history@, i as int));
        }
        let data = c.signed_data();
        let verified = vault_verify(vault, signer.as_slice(), data.as_slice(), c.signature.as_slice());
        match verified {
            Ok(true) => {},
            _ => {
                assert(!change_accepted(history@, i as int));
                return Err(IdentityError::InvalidChange);
            },
        }
        previous_hash = compute_change_hash(vault, c);
        i = i + 1;
    }
    let id = compute_change_hash(vault, &history.changes[0]);
    Ok(Identifier::from_bytes(id))
}

} // verus!
