use vstd::prelude::*;

use crate::change::{ChangeHistory, ChangeView};
use crate::error::IdentityError;
use crate::identifier::Identifier;

verus! {

/// One stored record: an identifier and the last accepted history for it.
#[derive(Debug)]
struct StoredIdentity {
    identifier: Identifier,
    change_history: ChangeHistory,
}

spec fn key_of(e: StoredIdentity) -> Seq<u8> {
    e.identifier@
}

spec fn history_of(e: StoredIdentity) -> Seq<ChangeView> {
    e.change_history@
}

spec fn keys_unique(s: Seq<StoredIdentity>) -> bool {
    forall|i: int, j: int|
        0 <= i < s.len() && 0 <= j < s.len() && i != j ==> key_of(#[trigger] s[i]) != key_of(
            #[trigger] s[j],
        )
}

spec fn map_of(s: Seq<StoredIdentity>) -> Map<Seq<u8>, Seq<ChangeView>>
    decreases s.len(),
{
    if s.len() == 0 {
        Map::empty()
    } else {
        map_of(s.drop_last()).insert(key_of(s.last()), history_of(s.last()))
    }
}

proof fn lemma_map_of_absent(s: Seq<StoredIdentity>, k: Seq<u8>)
    requires
        forall|i: int| 0 <= i < s.len() ==> key_of(#[trigger] s[i]) != k,
    ensures
        !map_of(s).contains_key(k),
    decreases s.len(),
{
    if s.len() > 0 {
        let d = s.drop_last();
        assert forall|i: int| 0 <= i < d.len() implies key_of(#[trigger] d[i]) != k by {
            assert(d[i] == s[i]);
        }
        lemma_map_of_absent(d, k);
    }
}

proof fn lemma_map_of_index(s: Seq<StoredIdentity>, i: int)
    requires
        keys_unique(s),
        0 <= i < s.len(),
    ensures
        map_of(s).contains_key(key_of(s[i])),
        map_of(s)[key_of(s[i])] == history_of(s[i]),
    decreases s.len(),
{
    if i < s.len() - 1 {
        let d = s.drop_last();
        assert(d[i] == s[i]);
        assert(key_of(s[i]) != key_of(s[s.len() - 1]));
        assert forall|a: int, b: int|
            0 <= a < d.len() && 0 <= b < d.len() && a != b implies key_of(#[trigger] d[a])
            != key_of(#[trigger] d[b]) by {
            assert(d[a] == s[a] && d[b] == s[b]);
        }
        lemma_map_of_index(d, i);
    }
}

proof fn lemma_map_of_update(s: Seq<StoredIdentity>, j: int, e: StoredIdentity)
    requires
        keys_unique(s),
        0 <= j < s.len(),
        key_of(e) == key_of(s[j]),
    ensures
        map_of(s.update(j, e)) == map_of(s).insert(key_of(e), history_of(e)),
    decreases s.len(),
{
    let u = s.update(j, e);
    let d = s.drop_last();
    if j == s.len() - 1 {
        assert(u.drop_last() =~= d);
        assert(map_of(u) =~= map_of(s).insert(key_of(e), history_of(e)));
    } else {
        assert(u.drop_last() =~= d.update(j, e));
        assert(d[j] == s[j]);
        assert forall|a: int, b: int|
            0 <= a < d.len() && 0 <= b < d.len() && a != b implies key_of(#[trigger] d[a])
            != key_of(#[trigger] d[b]) by {
            assert(d[a] == s[a] && d[b] == s[b]);
        }
        lemma_map_of_update(d, j, e);
        assert(key_of(s[j]) != key_of(s[s.len() - 1]));
        assert(u.last() == s.last());
        assert(map_of(u) =~= map_of(s).insert(key_of(e), history_of(e)));
    }
}

/// `incoming` is `stored` itself or `stored` followed by more changes.
pub open spec fn extends(stored: Seq<ChangeView>, incoming: Seq<ChangeView>) -> bool {
    stored.len() <= incoming.len() && incoming.take(stored.len() as int) == stored
}

/// The repository after an update of `k` with `incoming`, or the error that
/// rejects the update: a record may only be created, kept, or extended.
pub open spec fn reconcile(
    m: Map<Seq<u8>, Seq<ChangeView>>,
    k: Seq<u8>,
    incoming: Seq<ChangeView>,
) -> Result<Map<Seq<u8>, Seq<ChangeView>>, IdentityError> {
    if !m.contains_key(k) || extends(m[k], incoming) {
        Ok(m.insert(k, incoming))
    } else {
        Err(IdentityError::ConflictingHistory)
    }
}

/// The history stored for `k`, if any.
pub open spec fn lookup(m: Map<Seq<u8>, Seq<ChangeView>>, k: Seq<u8>) -> Option<Seq<ChangeView>> {
    if m.contains_key(k) {
        Some(m[k])
    } else {
        None
    }
}

/// The history stored for `k`, or `NotFound`.
pub open spec fn required_lookup(m: Map<Seq<u8>, Seq<ChangeView>>, k: Seq<u8>) -> Result<
    Seq<ChangeView>,
    IdentityError,
> {
    if m.contains_key(k) {
        Ok(m[k])
    } else {
        Err(IdentityError::NotFound)
    }
}

/// In-memory store of the last accepted change history of each identifier.
#[derive(Debug)]
pub struct IdentitiesRepository {
    entries: Vec<StoredIdentity>,
}

impl View for IdentitiesRepository {
    type V = Map<Seq<u8>, Seq<ChangeView>>;

    closed spec fn view(&self) -> Map<Seq<u8>, Seq<ChangeView>> {
        map_of(self.entries@)
    }
}

impl IdentitiesRepository {
    /// Each identifier is stored at most once.
    pub closed spec fn wf(&self) -> bool {
        keys_unique(self.entries@)
    }

    /// An empty repository.
    pub fn new() -> (r: IdentitiesRepository)
        ensures
            r.wf(),
            r@ == Map::<Seq<u8>, Seq<ChangeView>>::empty(),
    {
        IdentitiesRepository { entries: Vec::new() }
    }

    /// Position of the record for `identifier`.
    fn find(&self, identifier: &Identifier) -> (r: Option<usize>)
        requires
            self.wf(),
        ensures
            r is Some ==> r->Some_0 < self.entries@.len() && key_of(self.entries@[r->Some_0 as int])
                == identifier@,
            r is Some ==> self@.contains_key(identifier@),
            r is Some ==> self@[identifier@] == history_of(self.entries@[r->Some_0 as int]),
            r is None ==> !self@.contains_key(identifier@),
    {
        let mut i: usize = 0;
        while i < self.entries.len()
            invariant
                i <= self.entries@.len(),
                keys_unique(self.entries@),
                forall|k: int| 0 <= k < i ==> key_of(#[trigger] self.entries@[k]) != identifier@,
            decreases self.entries@.len() - i,
        {
            if self.entries[i].identifier.same_as(identifier) {
                proof {
                    lemma_map_of_index(self.entries@, i as int);
                }
                return Some(i);
            }
            i = i + 1;
        }
        proof {
            lemma_map_of_absent(self.entries@, identifier@);
        }
        None
    }

    /// The stored history of `identifier`, or `None` if there is none.
    pub fn retrieve_identity(&self, identifier: &Identifier) -> (r: Option<ChangeHistory>)
        requires
            self.wf(),
        ensures
            lookup(self@, identifier@) is Some ==> r is Some,
            lookup(self@, identifier@) is None ==> r is None,
            r is Some ==> r->Some_0@ == lookup(self@, identifier@)->Some_0,
    {
        match self.find(identifier) {
            Some(i) => Some(self.entries[i].change_history.copy()),
            None => None,
        }
    }

    /// The stored history of `identifier`, or `NotFound`.
    pub fn get_identity(&self, identifier: &Identifier) -> (r: Result<ChangeHistory, IdentityError>)
        requires
            self.wf(),
        ensures
            required_lookup(self@, identifier@) is Ok ==> r is Ok,
            r is Ok ==> r->Ok_0@ == required_lookup(self@, identifier@)->Ok_0,
            required_lookup(self@, identifier@) is Err ==> r == Err::<ChangeHistory, IdentityError>(
                IdentityError::NotFound,
            ),
    {
        match self.retrieve_identity(identifier) {
            Some(h) => Ok(h),
            None => Err(IdentityError::NotFound),
        }
    }

    /// Store `change_history` for `identifier` if there is no record yet or
    /// it extends the stored one; otherwise leave the record as it is and
    /// fail with `ConflictingHistory`.
    pub fn update_identity(&mut self, identifier: &Identifier, change_history: &ChangeHistory) -> (r:
        Result<(), IdentityError>)
        requires
            old(self).wf(),
            change_history@.len() > 0,
        ensures
            final(self).wf(),
            reconcile(old(self)@, identifier@, change_history@) is Ok ==> r is Ok && final(self)@
                == reconcile(old(self)@, identifier@, change_history@)->Ok_0,
            reconcile(old(self)@, identifier@, change_history@) is Err ==> r == Err::<
                (),
                IdentityError,
            >(IdentityError::ConflictingHistory) && final(self)@ == old(self)@,
    {
        let entry = StoredIdentity { identifier: identifier.copy(), change_history: change_history.copy() };
        match self.find(identifier) {
            None => {
                let ghost before = self.entries@;
                self.entries.push(entry);
                proof {
                    assert(self.entries@.drop_last() =~= before);
                    assert forall|i: int, j: int|
                        0 <= i < self.entries@.len() && 0 <= j < self.entries@.len() && i != j
                        implies key_of(#[trigger] self.entries@[i]) != key_of(
                        #[trigger] self.entries@[j],
                    ) by {
                        if i < before.len() && j < before.len() {
                            assert(self.entries@[i] == before[i] && self.entries@[j] == before[j]);
                        } else if i < before.len() {
                            assert(self.entries@[i] == before[i]);
                            if key_of(before[i]) == identifier@ {
                                lemma_map_of_index(before, i);
                            }
                        } else {
                            assert(self.entries@[j] == before[j]);
                            if key_of(before[j]) == identifier@ {
                                lemma_map_of_index(before, j);
                            }
                        }
                    }
                }
                Ok(())
            },
            Some(i) => {
                let stored = &self.entries[i].change_history;
                let n = stored.changes.len();
                if n > change_history.changes.len() {
                    assert(stored@.len() > change_history@.len());
                    return Err(IdentityError::ConflictingHistory);
                }
                let mut k: usize = 0;
                while k < n
                    invariant
                        n == stored@.len(),
                        n <= change_history@.len(),
                        self.entries@ == old(self).entries@,
                        keys_unique(self.entries@),
                        old(self)@.contains_key(identifier@),
                        old(self)@[identifier@] == stored@,
                        k <= n,
                        forall|t: int| 0 <= t < k ==> stored@[t] == change_history@[t],
                    decreases n - k,
                {
                    if !stored.changes[k].same_as(&change_history.changes[k]) {
                        assert(change_history@.take(n as int)[k as int] != stored@[k as int]);
                        return Err(IdentityError::ConflictingHistory);
                    }
                    k = k + 1;
                }
                assert(change_history@.take(n as int) =~= stored@);
                let ghost before = self.entries@;
                self.entries.set(i, entry);
                proof {
                    lemma_map_of_update(before, i as int, entry);
                    assert(self.entries@ == before.update(i as int, entry));
                    assert forall|a: int, b: int|
                        0 <= a < self.entries@.len() && 0 <= b < self.entries@.len() && a != b
                        implies key_of(#[trigger] self.entries@[a]) != key_of(
                        #[trigger] self.entries@[b],
                    ) by {
                        assert(key_of(self.entries@[a]) == key_of(before[a]));
                        assert(key_of(self.entries@[b]) == key_of(before[b]));
                    }
                }
                Ok(())
            },
        }
    }
}

/// An identifier with no record is reported as absent by the optional
/// lookup and as `NotFound` by the required one.
pub proof fn lemma_missing_lookup(m: Map<Seq<u8>, Seq<ChangeView>>, k: Seq<u8>)
    requires
        !m.contains_key(k),
    ensures
        lookup(m, k) is None,
        required_lookup(m, k) == Err::<Seq<ChangeView>, IdentityError>(IdentityError::NotFound),
{
}

/// An update with a history that diverges from the stored one at some index
/// present in both is rejected with `ConflictingHistory` (and the update
/// then leaves the repository unchanged).
pub proof fn lemma_fork_rejected(
    m: Map<Seq<u8>, Seq<ChangeView>>,
    k: Seq<u8>,
    incoming: Seq<ChangeView>,
    j: int,
)
    requires
        m.contains_key(k),
        0 <= j < m[k].len(),
        j < incoming.len(),
        incoming[j] != m[k][j],
    ensures
        reconcile(m, k, incoming) == Err::<Map<Seq<u8>, Seq<ChangeView>>, IdentityError>(
            IdentityError::ConflictingHistory,
        ),
{
    if extends(m[k], incoming) {
        assert(incoming.take(m[k].len() as int)[j] == incoming[j]);
    }
}

/// An update with the stored history followed by one more change is
/// accepted, and the extended history becomes the stored one.
pub proof fn lemma_extension_accepted(
    m: Map<Seq<u8>, Seq<ChangeView>>,
    k: Seq<u8>,
    c: ChangeView,
)
    requires
        m.contains_key(k),
    ensures
        reconcile(m, k, m[k].push(c)) is Ok,
        reconcile(m, k, m[k].push(c))->Ok_0 == m.insert(k, m[k].push(c)),
        lookup(reconcile(m, k, m[k].push(c))->Ok_0, k) == Some(m[k].push(c)),
{
    assert(m[k].push(c).take(m[k].len() as int) =~= m[k]);
}

} // verus!
