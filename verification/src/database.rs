//! The event router: turns one batch of raw row events from the upstream
//! feed into per-category location deltas and folds them into the live
//! index — deletes first, then inserts, with a stale category cleared the
//! first time a batch touches it.
//!
//! Resources cannot move: their deletes arrive tagged with category and
//! entity, and their inserts are paired with a location insert that the
//! feed guarantees to deliver in the same batch. Enemies move: their
//! membership (spawn/despawn) arrives on dedicated rows and is kept across
//! batches, while their positions arrive keyed by entity alone and are
//! routed through that membership.

use vstd::prelude::*;

use crate::dict::{entries_map, Dict};
use crate::index::{
    del_set, delete_fold, folded_category, ins_map, insert_fold, lemma_apply_batch, touches, Pos,
};
use crate::state::AppState;

verus! {

/// A location row: where one entity stands.
#[derive(Clone, Copy, PartialEq, Eq, Structural, Debug)]
pub struct LocationRow {
    pub entity_id: u64,
    pub x: i32,
    pub z: i32,
}

/// A resource-membership row: one entity belonging to one resource
/// category.
#[derive(Clone, Copy, PartialEq, Eq, Structural, Debug)]
pub struct ResourceRow {
    pub entity_id: u64,
    pub resource_id: i32,
}

/// An enemy-membership row: one entity belonging to one enemy category.
#[derive(Clone, Copy, PartialEq, Eq, Structural, Debug)]
pub struct EnemyRow {
    pub entity_id: u64,
    pub enemy_type: i32,
}

/// A mobile-location row: where one moving entity now stands.
#[derive(Clone, Copy, PartialEq, Eq, Structural, Debug)]
pub struct MobileRow {
    pub entity_id: u64,
    pub location_x: i32,
    pub location_z: i32,
}

/// One batch of row events, the smallest set the feed delivers together.
pub struct DbUpdate {
    pub location_inserts: Vec<LocationRow>,
    pub resource_inserts: Vec<ResourceRow>,
    pub resource_deletes: Vec<ResourceRow>,
    pub enemy_inserts: Vec<EnemyRow>,
    pub enemy_deletes: Vec<EnemyRow>,
    pub mobile_inserts: Vec<MobileRow>,
}

/// The batch's location rows as (entity, position) pairs.
pub open spec fn loc_pairs(rows: Seq<LocationRow>) -> Seq<(u64, Pos)> {
    rows.map_values(|r: LocationRow| (r.entity_id, Pos { x: r.x, z: r.z }))
}

/// The batch's location lookup: each entity's last inserted position.
pub open spec fn loc_map(u: &DbUpdate) -> Map<u64, Pos> {
    entries_map(loc_pairs(u.location_inserts@))
}

/// The batch's resource deletes as (category, entity) rows.
pub open spec fn res_del_pairs(u: &DbUpdate) -> Seq<(i32, u64)> {
    u.resource_deletes@.map_values(|r: ResourceRow| (r.resource_id, r.entity_id))
}

/// The batch's resource inserts as (category, entity, position) rows,
/// each position joined in from the batch's location lookup.
pub open spec fn res_ins_rows(u: &DbUpdate) -> Seq<(i32, u64, Pos)> {
    u.resource_inserts@.map_values(
        |r: ResourceRow| (r.resource_id, r.entity_id, loc_map(u)[r.entity_id]),
    )
}

/// The entities the batch deletes from one resource category.
pub open spec fn res_deletes_for(u: &DbUpdate, c: i32) -> Set<u64> {
    del_set(res_del_pairs(u), c)
}

/// The entities the batch inserts into one resource category, with their
/// joined positions.
pub open spec fn res_inserts_for(u: &DbUpdate, c: i32) -> Map<u64, Pos> {
    ins_map(res_ins_rows(u), c)
}

/// Whether the batch touches one resource category at all.
pub open spec fn res_touches(u: &DbUpdate, c: i32) -> bool {
    touches(res_del_pairs(u), res_ins_rows(u), c)
}

/// The batch's enemy deletes as (category, entity) rows.
pub open spec fn enemy_del_pairs(u: &DbUpdate) -> Seq<(i32, u64)> {
    u.enemy_deletes@.map_values(|r: EnemyRow| (r.enemy_type, r.entity_id))
}

/// The entities whose enemy membership the batch drops.
pub open spec fn enemy_del_ids(u: &DbUpdate) -> Seq<u64> {
    u.enemy_deletes@.map_values(|r: EnemyRow| r.entity_id)
}

/// The memberships the batch adds, as (entity, category) pairs.
pub open spec fn member_ins_pairs(u: &DbUpdate) -> Seq<(u64, i32)> {
    u.enemy_inserts@.map_values(|r: EnemyRow| (r.entity_id, r.enemy_type))
}

/// The enemy membership after the batch: the dropped entities gone, the
/// added ones in, additions winning over drops within one batch.
pub open spec fn member_after(m0: Map<u64, i32>, u: &DbUpdate) -> Map<u64, i32> {
    m0.remove_keys(enemy_del_ids(u).to_set()).union_prefer_right(
        entries_map(member_ins_pairs(u)),
    )
}

/// The batch's mobile-location rows routed through a membership `m`:
/// (category, entity, position) rows.
pub open spec fn mobile_ins_rows(u: &DbUpdate, m: Map<u64, i32>) -> Seq<(i32, u64, Pos)> {
    u.mobile_inserts@.map_values(
        |r: MobileRow| (m[r.entity_id], r.entity_id, Pos { x: r.location_x, z: r.location_z }),
    )
}

/// The entities the batch deletes from one enemy category.
pub open spec fn enemy_deletes_for(u: &DbUpdate, c: i32) -> Set<u64> {
    del_set(enemy_del_pairs(u), c)
}

/// The entities the batch inserts into one enemy category, routed through
/// the membership as it stands after the batch's membership changes.
pub open spec fn enemy_inserts_for(u: &DbUpdate, m0: Map<u64, i32>, c: i32) -> Map<u64, Pos> {
    ins_map(mobile_ins_rows(u, member_after(m0, u)), c)
}

/// Whether the batch touches one enemy category at all.
pub open spec fn enemy_touches(u: &DbUpdate, m0: Map<u64, i32>, c: i32) -> bool {
    touches(enemy_del_pairs(u), mobile_ins_rows(u, member_after(m0, u)), c)
}

/// Membership drops folded one by one.
pub open spec fn remove_fold(m: Map<u64, i32>, ids: Seq<u64>) -> Map<u64, i32>
    decreases ids.len(),
{
    if ids.len() == 0 {
        m
    } else {
        remove_fold(m, ids.drop_last()).remove(ids.last())
    }
}

/// Membership additions folded one by one.
pub open spec fn add_fold(m: Map<u64, i32>, pairs: Seq<(u64, i32)>) -> Map<u64, i32>
    decreases pairs.len(),
{
    if pairs.len() == 0 {
        m
    } else {
        add_fold(m, pairs.drop_last()).insert(pairs.last().0, pairs.last().1)
    }
}

/// Dropping keys one by one equals removing them as a set.
proof fn lemma_remove_fold(m: Map<u64, i32>, ids: Seq<u64>)
    ensures
        remove_fold(m, ids) =~= m.remove_keys(ids.to_set()),
    decreases ids.len(),
{
    if ids.len() > 0 {
        let rest = ids.drop_last();
        lemma_remove_fold(m, rest);
        assert forall|x: u64| ids.to_set().contains(x) <==> (rest.to_set().contains(x) || x
            == ids.last()) by {
            if ids.contains(x) {
                let k = choose|k: int| 0 <= k < ids.len() && ids[k] == x;
                if k < ids.len() - 1 {
                    assert(rest[k] == x);
                }
            }
            if rest.contains(x) {
                let k = choose|k: int| 0 <= k < rest.len() && rest[k] == x;
                assert(ids[k] == x);
            }
            if x == ids.last() {
                assert(ids[ids.len() - 1] == x);
            }
        }
        assert(m.remove_keys(rest.to_set()).remove(ids.last()) =~= m.remove_keys(ids.to_set()));
    } else {
        assert(m.remove_keys(ids.to_set()) =~= m);
    }
}

/// Adding pairs one by one equals laying their spelled-out map over the
/// membership.
proof fn lemma_add_fold(m: Map<u64, i32>, pairs: Seq<(u64, i32)>)
    ensures
        add_fold(m, pairs) =~= m.union_prefer_right(entries_map(pairs)),
    decreases pairs.len(),
{
    if pairs.len() > 0 {
        lemma_add_fold(m, pairs.drop_last());
        assert(m.union_prefer_right(entries_map(pairs.drop_last())).insert(
            pairs.last().0,
            pairs.last().1,
        ) =~= m.union_prefer_right(entries_map(pairs)));
    } else {
        assert(m.union_prefer_right(entries_map(pairs)) =~= m);
    }
}

/// The event router's state that outlives one batch: which enemy entity
/// belongs to which enemy category. Kept across batches because a moving
/// enemy's location rows carry the entity alone.
pub struct Router {
    enemy_state: Dict<i32>,
}

impl Router {
    /// Which enemy belongs to which category, as tracked so far.
    pub closed spec fn membership(&self) -> Map<u64, i32> {
        self.enemy_state@
    }

    /// The membership store is well formed.
    pub closed spec fn wf(&self) -> bool {
        self.enemy_state.wf()
    }

    /// A router that has seen nothing yet.
    pub fn new() -> (r: Self)
        ensures
            r.wf(),
            r.membership() == Map::<u64, i32>::empty(),
    {
        Router { enemy_state: Dict::new() }
    }

    /// Whether the router currently knows which enemy category `entity`
    /// belongs to.
    pub fn knows_enemy(&self, entity: u64) -> (r: bool)
        requires
            self.wf(),
        ensures
            r == self.membership().dom().contains(entity),
    {
        self.enemy_state.contains_key(entity)
    }

    /// Routes one batch into the live index.
    ///
    /// Per category, the batch's deletes are applied before its inserts,
    /// and a category that was stale is cleared the first time the batch
    /// touches it. The feed guarantees that every resource insert has a
    /// location insert in the same batch, and that every mobile location
    /// row belongs to an enemy whose membership is known once this batch's
    /// membership changes are in; those guarantees are this function's
    /// preconditions, checked by the caller at the trust boundary.
    #[verifier::loop_isolation(false)]
    pub fn consume(&mut self, state: &mut AppState, update: &DbUpdate)
        requires
            old(self).wf(),
            old(state).wf(),
            forall|k: int|
                0 <= k < update.resource_inserts@.len() ==> loc_map(update).dom().contains(
                    (#[trigger] update.resource_inserts@[k]).entity_id,
                ),
            forall|k: int|
                0 <= k < update.mobile_inserts@.len() ==> member_after(
                    old(self).membership(),
                    update,
                ).dom().contains((#[trigger] update.mobile_inserts@[k]).entity_id),
        ensures
            final(self).wf(),
            final(state).wf(),
            final(self).membership() == member_after(old(self).membership(), update),
            final(state).state == old(state).state,
            final(state).next_wake == old(state).next_wake,
            final(state).resource@.dom() =~= old(state).resource@.dom(),
            final(state).enemy@.dom() =~= old(state).enemy@.dom(),
            forall|c: i32| #[trigger]
                old(state).resource@.dom().contains(c) ==> final(state).resource@[c]
                    == folded_category(
                    old(state).resource@[c],
                    res_deletes_for(update, c),
                    res_inserts_for(update, c),
                    res_touches(update, c),
                ),
            forall|c: i32| #[trigger]
                old(state).enemy@.dom().contains(c) ==> final(state).enemy@[c] == folded_category(
                    old(state).enemy@[c],
                    enemy_deletes_for(update, c),
                    enemy_inserts_for(update, old(self).membership(), c),
                    enemy_touches(update, old(self).membership(), c),
                ),
    {
        let ghost mem0 = self.enemy_state@;
        let ghost res0 = state.resource@;
        let ghost ene0 = state.enemy@;

        // The batch's location lookup: resource inserts join against it.
        let mut location_state: Dict<Pos> = Dict::new();
        let n_loc = update.location_inserts.len();
        let mut k: usize = 0;
        while k < n_loc
            invariant
                0 <= k <= n_loc,
                location_state.wf(),
                location_state@ == entries_map(loc_pairs(update.location_inserts@).take(k as int)),
            decreases n_loc - k,
        {
            let row = update.location_inserts[k];
            location_state.insert(row.entity_id, Pos { x: row.x, z: row.z });
            proof {
                let pairs = loc_pairs(update.location_inserts@);
                assert(pairs.take(k + 1).drop_last() =~= pairs.take(k as int));
                assert(pairs.take(k + 1).last() == (row.entity_id, Pos { x: row.x, z: row.z }));
            }
            k = k + 1;
        }
        proof {
            assert(loc_pairs(update.location_inserts@).take(n_loc as int) =~= loc_pairs(
                update.location_inserts@,
            ));
            assert(location_state@ == loc_map(update));
        }

        // Resources: the batch's deletes, then its inserts.
        let n_rdel = update.resource_deletes.len();
        k = 0;
        while k < n_rdel
            invariant
                0 <= k <= n_rdel,
                state.resource.wf(),
                state.resource@ == delete_fold(res0, res_del_pairs(update).take(k as int)),
                state.enemy == old(state).enemy,
                state.state == old(state).state,
                state.next_wake == old(state).next_wake,
            decreases n_rdel - k,
        {
            let row = update.resource_deletes[k];
            state.resource.delete_entity(row.resource_id, row.entity_id);
            proof {
                let pairs = res_del_pairs(update);
                assert(pairs.take(k + 1).drop_last() =~= pairs.take(k as int));
                assert(pairs.take(k + 1).last() == (row.resource_id, row.entity_id));
            }
            k = k + 1;
        }
        proof {
            assert(res_del_pairs(update).take(n_rdel as int) =~= res_del_pairs(update));
        }

        let ghost res1 = state.resource@;
        let n_rins = update.resource_inserts.len();
        k = 0;
        while k < n_rins
            invariant
                0 <= k <= n_rins,
                state.resource.wf(),
                state.resource@ == insert_fold(res1, res_ins_rows(update).take(k as int)),
                state.enemy == old(state).enemy,
                state.state == old(state).state,
                state.next_wake == old(state).next_wake,
            decreases n_rins - k,
        {
            let row = update.resource_inserts[k];
            let pos = location_state.get(row.entity_id).unwrap();
            state.resource.insert_entity(row.resource_id, row.entity_id, pos);
            proof {
                let rows = res_ins_rows(update);
                assert(rows.take(k + 1).drop_last() =~= rows.take(k as int));
                assert(rows.take(k + 1).last() == (row.resource_id, row.entity_id, pos));
            }
            k = k + 1;
        }
        proof {
            assert(res_ins_rows(update).take(n_rins as int) =~= res_ins_rows(update));
            lemma_apply_batch(res0, res_del_pairs(update), res_ins_rows(update));
        }

        // Enemies: membership drops with their deletes, then membership
        // additions, then locations routed through the fresh membership.
        let ghost res_done = state.resource;
        let n_edel = update.enemy_deletes.len();
        k = 0;
        while k < n_edel
            invariant
                0 <= k <= n_edel,
                self.enemy_state.wf(),
                self.enemy_state@ == remove_fold(mem0, enemy_del_ids(update).take(k as int)),
                state.enemy.wf(),
                state.enemy@ == delete_fold(ene0, enemy_del_pairs(update).take(k as int)),
                state.resource == res_done,
                state.state == old(state).state,
                state.next_wake == old(state).next_wake,
            decreases n_edel - k,
        {
            let row = update.enemy_deletes[k];
            self.enemy_state.remove(row.entity_id);
            state.enemy.delete_entity(row.enemy_type, row.entity_id);
            proof {
                let ids = enemy_del_ids(update);
                assert(ids.take(k + 1).drop_last() =~= ids.take(k as int));
                assert(ids.take(k + 1).last() == row.entity_id);
                let pairs = enemy_del_pairs(update);
                assert(pairs.take(k + 1).drop_last() =~= pairs.take(k as int));
                assert(pairs.take(k + 1).last() == (row.enemy_type, row.entity_id));
            }
            k = k + 1;
        }
        proof {
            assert(enemy_del_ids(update).take(n_edel as int) =~= enemy_del_ids(update));
            assert(enemy_del_pairs(update).take(n_edel as int) =~= enemy_del_pairs(update));
        }

        let ghost mem_mid = self.enemy_state@;
        let n_eins = update.enemy_inserts.len();
        k = 0;
        while k < n_eins
            invariant
                0 <= k <= n_eins,
                self.enemy_state.wf(),
                self.enemy_state@ == add_fold(mem_mid, member_ins_pairs(update).take(k as int)),
            decreases n_eins - k,
        {
            let row = update.enemy_inserts[k];
            self.enemy_state.insert(row.entity_id, row.enemy_type);
            proof {
                let pairs = member_ins_pairs(update);
                assert(pairs.take(k + 1).drop_last() =~= pairs.take(k as int));
                assert(pairs.take(k + 1).last() == (row.entity_id, row.enemy_type));
            }
            k = k + 1;
        }
        proof {
            assert(member_ins_pairs(update).take(n_eins as int) =~= member_ins_pairs(update));
            lemma_remove_fold(mem0, enemy_del_ids(update));
            lemma_add_fold(remove_fold(mem0, enemy_del_ids(update)), member_ins_pairs(update));
            assert(self.enemy_state@ == member_after(mem0, update));
        }

        let ghost mem1 = self.enemy_state@;
        let ghost ene1 = state.enemy@;
        let n_mob = update.mobile_inserts.len();
        k = 0;
        while k < n_mob
            invariant
                0 <= k <= n_mob,
                state.enemy.wf(),
                state.enemy@ == insert_fold(ene1, mobile_ins_rows(update, mem1).take(k as int)),
                state.resource == res_done,
                state.state == old(state).state,
                state.next_wake == old(state).next_wake,
            decreases n_mob - k,
        {
            let row = update.mobile_inserts[k];
            let cat = self.enemy_state.get(row.entity_id).unwrap();
            state.enemy.insert_entity(
                cat,
                row.entity_id,
                Pos { x: row.location_x, z: row.location_z },
            );
            proof {
                let rows = mobile_ins_rows(update, mem1);
                assert(rows.take(k + 1).drop_last() =~= rows.take(k as int));
                assert(rows.take(k + 1).last() == (
                    cat,
                    row.entity_id,
                    Pos { x: row.location_x, z: row.location_z },
                ));
            }
            k = k + 1;
        }
        proof {
            assert(mobile_ins_rows(update, mem1).take(n_mob as int) =~= mobile_ins_rows(
                update,
                mem1,
            ));
            lemma_apply_batch(ene0, enemy_del_pairs(update), mobile_ins_rows(update, mem1));
        }
    }
}

} // verus!
