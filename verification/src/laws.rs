//! Laws of the live index's batch semantics, stated against the same
//! spec functions that `Router::consume` promises in its contract:
//! per category, a batch leaves `folded_category(old, dels, ins, touched)`
//! behind, where `dels` and `ins` are the batch's per-category delete set
//! and insert map.

use vstd::prelude::*;

use crate::database::{
    res_del_pairs, res_deletes_for, res_ins_rows, res_inserts_for, res_touches, DbUpdate,
};
use crate::index::{del_set, folded_category, ins_map, revive, touches, CatView, Pos};

verus! {

/// An entity in a batch's delete set comes from a delete row naming the
/// category, so the batch touches the category.
pub proof fn lemma_del_member_touches(
    rows_d: Seq<(i32, u64)>,
    rows_i: Seq<(i32, u64, Pos)>,
    c: i32,
    e: u64,
)
    requires
        del_set(rows_d, c).contains(e),
    ensures
        touches(rows_d, rows_i, c),
    decreases rows_d.len(),
{
    if rows_d.len() > 0 {
        if rows_d.last().0 == c {
            assert(rows_d[rows_d.len() - 1].0 == c);
        } else {
            lemma_del_member_touches(rows_d.drop_last(), rows_i, c, e);
            if exists|k: int|
                0 <= k < rows_d.drop_last().len() && (#[trigger] rows_d.drop_last()[k]).0 == c {
                let k = choose|k: int|
                    0 <= k < rows_d.drop_last().len() && (#[trigger] rows_d.drop_last()[k]).0
                        == c;
                assert(rows_d[k].0 == c);
            }
        }
    }
}

/// An entity in a batch's insert map comes from an insert row naming the
/// category, so the batch touches the category.
pub proof fn lemma_ins_member_touches(
    rows_d: Seq<(i32, u64)>,
    rows_i: Seq<(i32, u64, Pos)>,
    c: i32,
    e: u64,
)
    requires
        ins_map(rows_i, c).dom().contains(e),
    ensures
        touches(rows_d, rows_i, c),
    decreases rows_i.len(),
{
    if rows_i.len() > 0 {
        if rows_i.last().0 == c {
            assert(rows_i[rows_i.len() - 1].0 == c);
        } else {
            lemma_ins_member_touches(rows_d, rows_i.drop_last(), c, e);
            if exists|k: int|
                0 <= k < rows_i.drop_last().len() && (#[trigger] rows_i.drop_last()[k]).0 == c {
                let k = choose|k: int|
                    0 <= k < rows_i.drop_last().len() && (#[trigger] rows_i.drop_last()[k]).0
                        == c;
                assert(rows_i[k].0 == c);
            }
        }
    }
}

/// A batch that deletes an entity from a category and does not insert it
/// again leaves the category without that entity — whatever any earlier
/// batch put there.
pub proof fn law_delete_wins(cat: CatView, dels: Set<u64>, ins: Map<u64, Pos>, e: u64)
    requires
        dels.contains(e),
        !ins.dom().contains(e),
    ensures
        !folded_category(cat, dels, ins, true).nodes.dom().contains(e),
{
}

/// When one batch both deletes and inserts an entity in the same
/// category, the insert wins: afterwards the entity is present, at the
/// inserted position.
pub proof fn law_insert_wins_within_batch(cat: CatView, dels: Set<u64>, ins: Map<u64, Pos>, e: u64)
    requires
        ins.dom().contains(e),
    ensures
        folded_category(cat, dels, ins, true).nodes.dom().contains(e),
        folded_category(cat, dels, ins, true).nodes[e] == ins[e],
{
}

/// Idempotence: re-delivering location inserts that the active category
/// already holds, with nothing deleted, leaves the category exactly as it
/// was.
pub proof fn law_redelivery_idempotent(cat: CatView, dels: Set<u64>, ins: Map<u64, Pos>, touched: bool)
    requires
        !cat.stale,
        dels =~= Set::<u64>::empty(),
        forall|e: u64| #[trigger]
            ins.dom().contains(e) ==> cat.nodes.dom().contains(e) && cat.nodes[e] == ins[e],
    ensures
        folded_category(cat, dels, ins, touched) == cat,
{
    if touched {
        assert(revive(cat) == cat);
        assert(cat.nodes.remove_keys(dels) =~= cat.nodes);
        assert(cat.nodes.remove_keys(dels).union_prefer_right(ins) =~= cat.nodes);
        assert(folded_category(cat, dels, ins, touched) =~= cat);
    }
}

/// After a reconnect marked a category stale, the first batch that
/// touches it discards everything it held: the category then contains
/// exactly the batch's inserts, and nothing not re-announced survives.
pub proof fn law_stale_cleared_on_first_batch(cat: CatView, dels: Set<u64>, ins: Map<u64, Pos>)
    requires
        cat.stale,
    ensures
        folded_category(cat, dels, ins, true).nodes =~= ins,
        !folded_category(cat, dels, ins, true).stale,
{
    assert(revive(cat).nodes =~= Map::<u64, Pos>::empty());
    assert(revive(cat).nodes.remove_keys(dels) =~= Map::<u64, Pos>::empty());
    assert(revive(cat).nodes.remove_keys(dels).union_prefer_right(ins) =~= ins);
}

/// An untouched category is left exactly as it was, flag included: a
/// batch never bleeds into categories it does not name.
pub proof fn law_untouched_unchanged(cat: CatView, dels: Set<u64>, ins: Map<u64, Pos>)
    ensures
        folded_category(cat, dels, ins, false) == cat,
{
}

/// A batch whose resource deletes name an entity that its inserts do not
/// re-add leaves the category without that entity, whatever an earlier
/// batch put there: applied to what `Router::consume` promises, the next
/// snapshot of the category does not contain the entity.
pub proof fn law_batch_delete_wins(cat: CatView, u: &DbUpdate, c: i32, e: u64)
    requires
        res_deletes_for(u, c).contains(e),
        !res_inserts_for(u, c).dom().contains(e),
    ensures
        !folded_category(
            cat,
            res_deletes_for(u, c),
            res_inserts_for(u, c),
            res_touches(u, c),
        ).nodes.dom().contains(e),
{
    lemma_del_member_touches(res_del_pairs(u), res_ins_rows(u), c, e);
}

/// A batch that both deletes and inserts an entity in one resource
/// category keeps the entity, at the inserted position: within a batch,
/// the insert wins.
pub proof fn law_batch_insert_wins(cat: CatView, u: &DbUpdate, c: i32, e: u64)
    requires
        res_inserts_for(u, c).dom().contains(e),
    ensures
        folded_category(
            cat,
            res_deletes_for(u, c),
            res_inserts_for(u, c),
            res_touches(u, c),
        ).nodes.dom().contains(e),
        folded_category(
            cat,
            res_deletes_for(u, c),
            res_inserts_for(u, c),
            res_touches(u, c),
        ).nodes[e] == res_inserts_for(u, c)[e],
{
    lemma_ins_member_touches(res_del_pairs(u), res_ins_rows(u), c, e);
}


} // verus!
