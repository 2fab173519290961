//! What is run, and in which order.

use vstd::prelude::*;
use crate::crud_model::crud_operation::CRUDOperation;
use crate::crud_model::dispatch;
use crate::crud_model::laws;
use crate::record_model::versioned_entry::LIVE;
use crate::record_model::{Key, Payload};
use crate::tree::bplus_tree;
use crate::tree::bplus_tree::TreeState;
use crate::workload::config;
use crate::workload::config::GroupConfig;
use crate::workload::runner;
use crate::workload::runner::Make;

verus! {

/// A step of an experiment: the position of its group, and zero for the first step, or else the
/// number of a later one.
pub type Step = (usize, usize);

/// All steps of some groups: group by group, and in each the first step before the later ones.
pub open spec fn steps(groups: Seq<GroupConfig>) -> Seq<Step>
    decreases groups.len(),
{
    if groups.len() == 0 {
        Seq::empty()
    } else {
        steps(groups.drop_last()) + Seq::new(
            groups.last().chain_groups@.len() + 1,
            |i: int| ((groups.len() - 1) as usize, i as usize),
        )
    }
}

/// Each experiment is one step.
pub proof fn law_steps_are_experiments(groups: Seq<GroupConfig>)
    ensures
        steps(groups).len() == config::experiments(groups),
    decreases groups.len(),
{
    if groups.len() > 0 {
        law_steps_are_experiments(groups.drop_last());
    }
}

/// Lists all steps of some groups.
pub fn schedule(groups: &Vec<GroupConfig>) -> (plan: Vec<Step>)
    requires
        forall|i: int|
            0 <= i < groups@.len() ==> (#[trigger] groups@[i]).chain_groups@.len() < usize::MAX,
    ensures
        plan@ == steps(groups@),
{
    let mut plan: Vec<Step> = Vec::new();
    let mut g: usize = 0;
    assert(groups@.take(0) =~= Seq::<GroupConfig>::empty());
    while g < groups.len()
        invariant
            g <= groups@.len(),
            plan@ == steps(groups@.take(g as int)),
            forall|i: int|
                0 <= i < groups@.len() ==> (#[trigger] groups@[i]).chain_groups@.len()
                    < usize::MAX,
        decreases groups@.len() - g,
    {
        let chains = groups[g].num_chains();
        let ghost before = plan@;
        let ghost own = Seq::new(
            (chains + 1) as nat,
            |i: int| (g as usize, i as usize),
        );
        let mut s: usize = 0;
        assert(before + own.take(0) =~= before);
        while s <= chains
            invariant
                g < groups@.len(),
                chains < usize::MAX,
                s <= chains + 1,
                own == Seq::new((chains + 1) as nat, |i: int| (g as usize, i as usize)),
                plan@ == before + own.take(s as int),
            decreases chains + 1 - s,
        {
            plan.push((g, s));
            assert(plan@ =~= before + own.take(s + 1));
            s = s + 1;
        }
        proof {
            let t = groups@.take(g + 1);
            assert(t.drop_last() =~= groups@.take(g as int));
            assert(t.last() == groups@[g as int]);
            assert(own.take(s as int) =~= own);
            assert(plan@ =~= steps(t));
        }
        g = g + 1;
    }
    assert(groups@.take(g as int) =~= groups@);
    plan
}

/// The payload of updates.
pub const PAYLOAD: Payload = 0;

/// An insertion of each key, with the key as its payload.
pub open spec fn insertions(keys: Seq<Key>) -> Seq<CRUDOperation> {
    keys.map_values(|key: Key| CRUDOperation::Insert(key, key))
}

/// An update of each key.
pub open spec fn updates(keys: Seq<Key>) -> Seq<CRUDOperation> {
    keys.map_values(|key: Key| CRUDOperation::Update(key, PAYLOAD))
}

/// A deletion of each key.
pub open spec fn deletions(keys: Seq<Key>) -> Seq<CRUDOperation> {
    keys.map_values(|key: Key| CRUDOperation::Delete(key))
}

/// First insertions, then updates, then deletions.
pub fn load_phases(inserted: &[Key], updated: &[Key], deleted: &[Key]) -> (operations: Vec<
    CRUDOperation,
>)
    ensures
        operations@ == insertions(inserted@) + updates(updated@) + deletions(deleted@),
{
    let mut operations: Vec<CRUDOperation> = Vec::new();
    let mut i: usize = 0;
    while i < inserted.len()
        invariant
            i <= inserted@.len(),
            operations@ == insertions(inserted@).take(i as int),
        decreases inserted@.len() - i,
    {
        operations.push(CRUDOperation::Insert(inserted[i], inserted[i]));
        assert(operations@ =~= insertions(inserted@).take(i + 1));
        i = i + 1;
    }
    let ghost first = insertions(inserted@);
    assert(first.take(i as int) =~= first);
    let mut j: usize = 0;
    assert(operations@ =~= first + updates(updated@).take(0));
    while j < updated.len()
        invariant
            j <= updated@.len(),
            operations@ == first + updates(updated@).take(j as int),
        decreases updated@.len() - j,
    {
        operations.push(CRUDOperation::Update(updated[j], PAYLOAD));
        assert(operations@ =~= first + updates(updated@).take(j + 1));
        j = j + 1;
    }
    let ghost second = first + updates(updated@);
    assert(updates(updated@).take(j as int) =~= updates(updated@));
    let mut k: usize = 0;
    assert(operations@ =~= second + deletions(deleted@).take(0));
    while k < deleted.len()
        invariant
            k <= deleted@.len(),
            operations@ == second + deletions(deleted@).take(k as int),
        decreases deleted@.len() - k,
    {
        operations.push(CRUDOperation::Delete(deleted[k]));
        assert(operations@ =~= second + deletions(deleted@).take(k + 1));
        k = k + 1;
    }
    assert(deletions(deleted@).take(k as int) =~= deletions(deleted@));
    operations
}

/// All of them.
pub open spec fn phases(inserted: Seq<Key>, updated: Seq<Key>, deleted: Seq<Key>) -> Seq<
    CRUDOperation,
> {
    insertions(inserted) + updates(updated) + deletions(deleted)
}

/// A key is among the first ones.
pub open spec fn among(keys: Seq<Key>, n: int, key: Key) -> bool {
    exists|i: int| 0 <= i < n && i < keys.len() && #[trigger] keys[i] == key
}

/// After the first `n` of them: keys that are still to be inserted can be, and keys that were
/// inserted and not deleted are live.
spec fn on_track(
    state: TreeState,
    inserted: Seq<Key>,
    updated: Seq<Key>,
    deleted: Seq<Key>,
    n: int,
) -> bool {
    forall|i: int| #![trigger inserted[i]]
        0 <= i < inserted.len() ==> {
            &&& n <= i ==> dispatch::insertable(state, inserted[i])
            &&& i < n && !among(
                deleted,
                n - inserted.len() - updated.len(),
                inserted[i],
            ) ==> dispatch::live(state, inserted[i])
        }
}

/// Insertions of new keys, updates of keys that were inserted, and deletions of such keys, each
/// at most once, all succeed.
pub proof fn law_phases_succeed(
    state: TreeState,
    make: Make,
    inserted: Seq<Key>,
    updated: Seq<Key>,
    deleted: Seq<Key>,
)
    requires
        bplus_tree::sound(state.records, state.clock, make.kind),
        !(make.kind is BTree),
        state.clock + 2 * (inserted.len() + updated.len() + deleted.len()) < LIVE,
        forall|i: int, j: int| 0 <= i < j < inserted.len() ==> inserted[i] != inserted[j],
        forall|i: int, j: int| 0 <= i < j < deleted.len() ==> deleted[i] != deleted[j],
        forall|i: int|
            0 <= i < inserted.len() ==> dispatch::insertable(state, #[trigger] inserted[i]),
        forall|i: int|
            0 <= i < updated.len() ==> among(
                inserted,
                inserted.len() as int,
                #[trigger] updated[i],
            ),
        forall|i: int|
            0 <= i < deleted.len() ==> among(
                inserted,
                inserted.len() as int,
                #[trigger] deleted[i],
            ),
    ensures
        runner::failures(state, make, phases(inserted, updated, deleted)) == 0,
{
    let all = phases(inserted, updated, deleted);
    lemma_on_track(state, make, inserted, updated, deleted, all.len() as int);
    assert(all.take(all.len() as int) =~= all);
}

proof fn lemma_on_track(
    state: TreeState,
    make: Make,
    inserted: Seq<Key>,
    updated: Seq<Key>,
    deleted: Seq<Key>,
    n: int,
)
    requires
        bplus_tree::sound(state.records, state.clock, make.kind),
        !(make.kind is BTree),
        state.clock + 2 * (inserted.len() + updated.len() + deleted.len()) < LIVE,
        forall|i: int, j: int| 0 <= i < j < inserted.len() ==> inserted[i] != inserted[j],
        forall|i: int, j: int| 0 <= i < j < deleted.len() ==> deleted[i] != deleted[j],
        forall|i: int|
            0 <= i < inserted.len() ==> dispatch::insertable(state, #[trigger] inserted[i]),
        forall|i: int|
            0 <= i < updated.len() ==> among(
                inserted,
                inserted.len() as int,
                #[trigger] updated[i],
            ),
        forall|i: int|
            0 <= i < deleted.len() ==> among(
                inserted,
                inserted.len() as int,
                #[trigger] deleted[i],
            ),
        0 <= n <= phases(inserted, updated, deleted).len(),
    ensures
        ({
            let first = phases(inserted, updated, deleted).take(n);
            let now = runner::run(state, make, first);
            &&& runner::failures(state, make, first) == 0
            &&& bplus_tree::sound(now.records, now.clock, make.kind)
            &&& now.clock <= state.clock + 2 * n
            &&& on_track(now, inserted, updated, deleted, n)
        }),
    decreases n,
{
    let all = phases(inserted, updated, deleted);
    if n == 0 {
        assert(all.take(0) =~= Seq::<CRUDOperation>::empty());
    } else {
        lemma_on_track(state, make, inserted, updated, deleted, n - 1);
        let m = n - 1;
        assert(all.take(n).drop_last() =~= all.take(m));
        assert(all.take(n).last() == all[m]);
        let before = runner::run(state, make, all.take(m));
        let after = runner::run(state, make, all.take(n));
        let u = inserted.len() as int;
        let d = u + updated.len();
        let key = if m < u {
            inserted[m]
        } else if m < d {
            updated[m - u]
        } else {
            deleted[m - d]
        };
        let payload = if m < u {
            key
        } else {
            PAYLOAD
        };
        laws::law_writers_keep_states_sound(
            before,
            make.kind,
            make.optimistic,
            key,
            payload,
        );
        if m < u {
            assert(all[m] == CRUDOperation::Insert(key, payload));
            assert(dispatch::insertable(before, inserted[m]));
            laws::law_read_after_insert(
                before,
                make.kind,
                key,
                payload,
                dispatch::next(before),
            );
        } else if m < d {
            assert(all[m] == CRUDOperation::Update(key, payload));
            assert(among(inserted, u, updated[m - u]));
            let i = choose|i: int| 0 <= i < u && i < inserted.len() && #[trigger] inserted[i]
                == key;
            assert(dispatch::live(before, inserted[i]));
            laws::law_read_after_update(
                before,
                make.kind,
                make.optimistic,
                key,
                payload,
                dispatch::stored_at(before, make.optimistic),
            );
        } else {
            assert(all[m] == CRUDOperation::Delete(key));
            assert(among(inserted, u, deleted[m - d]));
            let i = choose|i: int| 0 <= i < u && i < inserted.len() && #[trigger] inserted[i]
                == key;
            assert(!among(deleted, m - d, inserted[i]));
            assert(dispatch::live(before, inserted[i]));
        }
        assert forall|i: int| #![trigger inserted[i]] 0 <= i < inserted.len() implies {
            &&& n <= i ==> dispatch::insertable(after, inserted[i])
            &&& i < n && !among(deleted, n - d, inserted[i]) ==> dispatch::live(
                after,
                inserted[i],
            )
        } by {
            if inserted[i] != key {
                laws::law_other_keys_are_untouched(
                    before,
                    make.kind,
                    make.optimistic,
                    key,
                    payload,
                    inserted[i],
                );
                if among(deleted, m - d, inserted[i]) {
                    let j = choose|j: int|
                        0 <= j < m - d && j < deleted.len() && #[trigger] deleted[j]
                            == inserted[i];
                    assert(among(deleted, n - d, inserted[i]));
                }
            } else if m < u {
                if i != m {
                    if i < m {
                        assert(inserted[i] != inserted[m]);
                    } else {
                        assert(inserted[m] != inserted[i]);
                    }
                }
            } else if m >= d {
                assert(deleted[m - d] == inserted[i]);
                assert(among(deleted, n - d, inserted[i]));
            }
        }
    }
}

} // verus!
