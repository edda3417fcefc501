//! The live index: per-category maps from entity to position, each with a
//! flag that tells whether the cached contents survive from before the
//! most recent reconnect (STALE) or are continuously updated (ACTIVE).
//!
//! Routing a batch applies, per category, first every delete and then
//! every insert of the batch; a STALE category is cleared and marked
//! ACTIVE the first time a batch touches it. The spec functions here state
//! that behaviour once per event (`delete_step`, `insert_step`), as a fold
//! over a batch (`delete_fold`, `insert_fold`), and in closed form
//! (`folded_category`), and `lemma_apply_batch` proves the fold and the
//! closed form agree.

use vstd::prelude::*;

use crate::dict::{
    entries_map, lemma_entries_map_absent, lemma_entries_map_at, lemma_entries_map_contains_at,
    lemma_entries_map_update, lemma_unique_keys_push, unique_keys, Dict,
};

verus! {

/// A tracked entity's position in the world.
#[derive(Clone, Copy, PartialEq, Eq, Structural, Debug)]
pub struct Pos {
    pub x: i32,
    pub z: i32,
}

/// Whether a category's cached positions can be trusted.
#[derive(Clone, Copy, PartialEq, Eq, Structural, Debug)]
pub enum DataState {
    /// Continuously updated from the live feed.
    ACTIVE,
    /// Cached from before the most recent reconnect; to be cleared when
    /// the next batch touches the category.
    STALE,
}

/// One category's tracked entities and its trust flag.
pub struct EntityState {
    pub nodes: Dict<Pos>,
    pub state: DataState,
}

/// What one category holds, mathematically: its entity-to-position map
/// and whether it is stale.
#[verifier::ext_equal]
pub struct CatView {
    pub nodes: Map<u64, Pos>,
    pub stale: bool,
}

impl EntityState {
    /// The category's contents as a map plus its flag.
    pub open spec fn view(&self) -> CatView {
        CatView { nodes: self.nodes@, stale: self.state is STALE }
    }

    /// The underlying store keeps one entry per entity.
    pub open spec fn wf(&self) -> bool {
        self.nodes.wf()
    }
}

/// A stale category is cleared and marked active before a batch's events
/// are folded in; an active one is kept.
pub open spec fn revive(c: CatView) -> CatView {
    if c.stale {
        CatView { nodes: Map::empty(), stale: false }
    } else {
        c
    }
}

/// One delete applied to the table: wakes the category if the batch is
/// the first to touch it since it went stale, then drops the entity.
/// A category the table does not know is ignored.
pub open spec fn delete_step(m: Map<i32, CatView>, cat: i32, entity: u64) -> Map<i32, CatView> {
    if m.dom().contains(cat) {
        m.insert(cat, CatView { nodes: revive(m[cat]).nodes.remove(entity), stale: false })
    } else {
        m
    }
}

/// One insert applied to the table, waking the category the same way.
pub open spec fn insert_step(m: Map<i32, CatView>, cat: i32, entity: u64, pos: Pos) -> Map<
    i32,
    CatView,
> {
    if m.dom().contains(cat) {
        m.insert(cat, CatView { nodes: revive(m[cat]).nodes.insert(entity, pos), stale: false })
    } else {
        m
    }
}

/// A batch's deletes applied in order; a row is a (category, entity) pair.
pub open spec fn delete_fold(m: Map<i32, CatView>, rows: Seq<(i32, u64)>) -> Map<i32, CatView>
    decreases rows.len(),
{
    if rows.len() == 0 {
        m
    } else {
        delete_step(delete_fold(m, rows.drop_last()), rows.last().0, rows.last().1)
    }
}

/// A batch's inserts applied in order; a row is (category, entity, position).
pub open spec fn insert_fold(m: Map<i32, CatView>, rows: Seq<(i32, u64, Pos)>) -> Map<
    i32,
    CatView,
>
    decreases rows.len(),
{
    if rows.len() == 0 {
        m
    } else {
        insert_step(
            insert_fold(m, rows.drop_last()),
            rows.last().0,
            rows.last().1,
            rows.last().2,
        )
    }
}

/// The entities a batch deletes from one category.
pub open spec fn del_set(rows: Seq<(i32, u64)>, c: i32) -> Set<u64>
    decreases rows.len(),
{
    if rows.len() == 0 {
        Set::empty()
    } else {
        let rest = del_set(rows.drop_last(), c);
        if rows.last().0 == c {
            rest.insert(rows.last().1)
        } else {
            rest
        }
    }
}

/// The entities a batch inserts into one category, each with the position
/// of its last insert.
pub open spec fn ins_map(rows: Seq<(i32, u64, Pos)>, c: i32) -> Map<u64, Pos>
    decreases rows.len(),
{
    if rows.len() == 0 {
        Map::empty()
    } else {
        let rest = ins_map(rows.drop_last(), c);
        if rows.last().0 == c {
            rest.insert(rows.last().1, rows.last().2)
        } else {
            rest
        }
    }
}

/// Whether any row of the batch names category `c`.
pub open spec fn touches(rows_d: Seq<(i32, u64)>, rows_i: Seq<(i32, u64, Pos)>, c: i32) -> bool {
    (exists|k: int| 0 <= k < rows_d.len() && (#[trigger] rows_d[k]).0 == c) || (exists|k: int|
        0 <= k < rows_i.len() && (#[trigger] rows_i[k]).0 == c)
}

/// What one category holds after a batch, in closed form: untouched
/// categories keep their contents and their flag; a touched one starts
/// from its kept contents — or from empty if it was stale — then loses
/// the batch's deletes and gains the batch's inserts, and is active.
pub open spec fn folded_category(
    old_cat: CatView,
    dels: Set<u64>,
    ins: Map<u64, Pos>,
    touched: bool,
) -> CatView {
    if touched {
        CatView {
            nodes: revive(old_cat).nodes.remove_keys(dels).union_prefer_right(ins),
            stale: false,
        }
    } else {
        old_cat
    }
}

/// A batch applied whole: every delete, then every insert.
pub open spec fn apply_batch(
    m: Map<i32, CatView>,
    rows_d: Seq<(i32, u64)>,
    rows_i: Seq<(i32, u64, Pos)>,
) -> Map<i32, CatView> {
    insert_fold(delete_fold(m, rows_d), rows_i)
}

/// A category no delete row names collects no deletes.
proof fn lemma_del_set_untouched(rows: Seq<(i32, u64)>, c: i32)
    requires
        forall|k: int| 0 <= k < rows.len() ==> (#[trigger] rows[k]).0 != c,
    ensures
        del_set(rows, c) =~= Set::<u64>::empty(),
    decreases rows.len(),
{
    if rows.len() > 0 {
        assert forall|k: int| 0 <= k < rows.drop_last().len() implies (#[trigger] rows.drop_last()[
            k
        ]).0 != c by {
            assert(rows.drop_last()[k] == rows[k]);
        }
        lemma_del_set_untouched(rows.drop_last(), c);
    }
}

/// A category no insert row names collects no inserts.
proof fn lemma_ins_map_untouched(rows: Seq<(i32, u64, Pos)>, c: i32)
    requires
        forall|k: int| 0 <= k < rows.len() ==> (#[trigger] rows[k]).0 != c,
    ensures
        ins_map(rows, c) =~= Map::<u64, Pos>::empty(),
    decreases rows.len(),
{
    if rows.len() > 0 {
        assert forall|k: int| 0 <= k < rows.drop_last().len() implies (#[trigger] rows.drop_last()[
            k
        ]).0 != c by {
            assert(rows.drop_last()[k] == rows[k]);
        }
        lemma_ins_map_untouched(rows.drop_last(), c);
    }
}

/// Folding a batch's deletes equals removing, per touched category, the
/// batch's delete set from the revived contents.
proof fn lemma_delete_fold(m: Map<i32, CatView>, rows: Seq<(i32, u64)>)
    ensures
        delete_fold(m, rows).dom() =~= m.dom(),
        forall|c: i32| #[trigger]
            m.dom().contains(c) ==> delete_fold(m, rows)[c] == (if (exists|k: int|
                0 <= k < rows.len() && (#[trigger] rows[k]).0 == c) {
                CatView { nodes: revive(m[c]).nodes.remove_keys(del_set(rows, c)), stale: false }
            } else {
                m[c]
            }),
    decreases rows.len(),
{
    if rows.len() > 0 {
        let rest = rows.drop_last();
        let cat = rows.last().0;
        let entity = rows.last().1;
        lemma_delete_fold(m, rest);
        let mid = delete_fold(m, rest);
        assert forall|c: i32| #[trigger] m.dom().contains(c) implies delete_fold(m, rows)[c] == (
        if (exists|k: int| 0 <= k < rows.len() && (#[trigger] rows[k]).0 == c) {
            CatView { nodes: revive(m[c]).nodes.remove_keys(del_set(rows, c)), stale: false }
        } else {
            m[c]
        }) by {
            if c != cat {
                assert(del_set(rows, c) == del_set(rest, c));
                if exists|k: int| 0 <= k < rows.len() && (#[trigger] rows[k]).0 == c {
                    let k = choose|k: int| 0 <= k < rows.len() && (#[trigger] rows[k]).0 == c;
                    assert(rest[k] == rows[k]);
                    assert(exists|k: int| 0 <= k < rest.len() && (#[trigger] rest[k]).0 == c);
                } else {
                    assert forall|k: int| 0 <= k < rest.len() implies (#[trigger] rest[k]).0
                        != c by {
                        assert(rows[k] == rest[k]);
                    }
                }
            } else {
                assert(m.dom().contains(cat));
                assert(del_set(rows, c) == del_set(rest, c).insert(entity));
                if exists|k: int| 0 <= k < rest.len() && (#[trigger] rest[k]).0 == c {
                    assert(mid[c] == CatView {
                        nodes: revive(m[c]).nodes.remove_keys(del_set(rest, c)),
                        stale: false,
                    });
                    assert(revive(mid[c]) == mid[c]);
                    assert(revive(m[c]).nodes.remove_keys(del_set(rest, c)).remove(entity)
                        =~= revive(m[c]).nodes.remove_keys(del_set(rows, c)));
                } else {
                    assert forall|k: int| 0 <= k < rest.len() implies (#[trigger] rest[k]).0
                        != c by {
                        assert(rows[k] == rest[k]);
                    }
                    assert(mid[c] == m[c]);
                    lemma_del_set_untouched(rest, c);
                    assert(revive(m[c]).nodes.remove(entity) =~= revive(
                        m[c],
                    ).nodes.remove_keys(del_set(rows, c)));
                }
                assert(rows[rows.len() - 1].0 == c);
            }
        }
    }
}

/// Folding a batch's inserts equals adding, per touched category, the
/// batch's insert map over the revived contents.
proof fn lemma_insert_fold(m: Map<i32, CatView>, rows: Seq<(i32, u64, Pos)>)
    ensures
        insert_fold(m, rows).dom() =~= m.dom(),
        forall|c: i32| #[trigger]
            m.dom().contains(c) ==> insert_fold(m, rows)[c] == (if (exists|k: int|
                0 <= k < rows.len() && (#[trigger] rows[k]).0 == c) {
                CatView {
                    nodes: revive(m[c]).nodes.union_prefer_right(ins_map(rows, c)),
                    stale: false,
                }
            } else {
                m[c]
            }),
    decreases rows.len(),
{
    if rows.len() > 0 {
        let rest = rows.drop_last();
        let cat = rows.last().0;
        let entity = rows.last().1;
        let pos = rows.last().2;
        lemma_insert_fold(m, rest);
        let mid = insert_fold(m, rest);
        assert forall|c: i32| #[trigger] m.dom().contains(c) implies insert_fold(m, rows)[c] == (
        if (exists|k: int| 0 <= k < rows.len() && (#[trigger] rows[k]).0 == c) {
            CatView {
                nodes: revive(m[c]).nodes.union_prefer_right(ins_map(rows, c)),
                stale: false,
            }
        } else {
            m[c]
        }) by {
            if c != cat {
                assert(ins_map(rows, c) == ins_map(rest, c));
                if exists|k: int| 0 <= k < rows.len() && (#[trigger] rows[k]).0 == c {
                    let k = choose|k: int| 0 <= k < rows.len() && (#[trigger] rows[k]).0 == c;
                    assert(rest[k] == rows[k]);
                    assert(exists|k: int| 0 <= k < rest.len() && (#[trigger] rest[k]).0 == c);
                } else {
                    assert forall|k: int| 0 <= k < rest.len() implies (#[trigger] rest[k]).0
                        != c by {
                        assert(rows[k] == rest[k]);
                    }
                }
            } else {
                assert(m.dom().contains(cat));
                assert(ins_map(rows, c) == ins_map(rest, c).insert(entity, pos));
                if exists|k: int| 0 <= k < rest.len() && (#[trigger] rest[k]).0 == c {
                    assert(mid[c] == CatView {
                        nodes: revive(m[c]).nodes.union_prefer_right(ins_map(rest, c)),
                        stale: false,
                    });
                    assert(revive(mid[c]) == mid[c]);
                    assert(revive(m[c]).nodes.union_prefer_right(ins_map(rest, c)).insert(
                        entity,
                        pos,
                    ) =~= revive(m[c]).nodes.union_prefer_right(ins_map(rows, c)));
                } else {
                    assert forall|k: int| 0 <= k < rest.len() implies (#[trigger] rest[k]).0
                        != c by {
                        assert(rows[k] == rest[k]);
                    }
                    assert(mid[c] == m[c]);
                    lemma_ins_map_untouched(rest, c);
                    assert(revive(m[c]).nodes.insert(entity, pos) =~= revive(
                        m[c],
                    ).nodes.union_prefer_right(ins_map(rows, c)));
                }
                assert(rows[rows.len() - 1].0 == c);
            }
        }
    }
}

/// A whole batch — deletes first, inserts second — leaves every category
/// in its closed form: cleared first if it was stale and is touched, then
/// minus the deletes, plus the inserts.
pub proof fn lemma_apply_batch(
    m: Map<i32, CatView>,
    rows_d: Seq<(i32, u64)>,
    rows_i: Seq<(i32, u64, Pos)>,
)
    ensures
        apply_batch(m, rows_d, rows_i).dom() =~= m.dom(),
        forall|c: i32| #[trigger]
            m.dom().contains(c) ==> apply_batch(m, rows_d, rows_i)[c] == folded_category(
                m[c],
                del_set(rows_d, c),
                ins_map(rows_i, c),
                touches(rows_d, rows_i, c),
            ),
{
    lemma_delete_fold(m, rows_d);
    let mid = delete_fold(m, rows_d);
    lemma_insert_fold(mid, rows_i);
    assert forall|c: i32| #[trigger] m.dom().contains(c) implies apply_batch(m, rows_d, rows_i)[c]
        == folded_category(
        m[c],
        del_set(rows_d, c),
        ins_map(rows_i, c),
        touches(rows_d, rows_i, c),
    ) by {
        let touched_d = exists|k: int| 0 <= k < rows_d.len() && (#[trigger] rows_d[k]).0 == c;
        let touched_i = exists|k: int| 0 <= k < rows_i.len() && (#[trigger] rows_i[k]).0 == c;
        if touched_d && touched_i {
            assert(revive(mid[c]) == mid[c]);
        } else if touched_d {
            lemma_ins_map_untouched(rows_i, c);
            assert(mid[c].nodes.union_prefer_right(ins_map(rows_i, c)) =~= mid[c].nodes);
            assert(revive(mid[c]) == mid[c]);
        } else if touched_i {
            lemma_del_set_untouched(rows_d, c);
            assert(revive(m[c]).nodes.remove_keys(del_set(rows_d, c)) =~= revive(m[c]).nodes);
            assert(mid[c] == m[c]);
            assert(revive(m[c]).nodes.union_prefer_right(ins_map(rows_i, c)) =~= folded_category(
                m[c],
                del_set(rows_d, c),
                ins_map(rows_i, c),
                true,
            ).nodes);
        } else {
            assert(mid[c] == m[c]);
        }
    }
}

/// One more element taken from a sequence adds exactly that element to
/// what the prefix contains.
proof fn lemma_take_step_contains(ids: Seq<i32>, i: int, c: i32)
    requires
        0 <= i < ids.len(),
    ensures
        ids.take(i + 1).contains(c) <==> (ids.take(i).contains(c) || ids[i] == c),
{
    assert(ids.take(i + 1).drop_last() =~= ids.take(i));
    if ids.take(i + 1).contains(c) {
        let k = choose|k: int| 0 <= k < ids.take(i + 1).len() && #[trigger] ids.take(i + 1)[k] == c;
        if k < i {
            assert(ids.take(i)[k] == c);
        }
    }
    if ids.take(i).contains(c) {
        let k = choose|k: int| 0 <= k < ids.take(i).len() && #[trigger] ids.take(i)[k] == c;
        assert(ids.take(i + 1)[k] == c);
    }
    if ids[i] == c {
        assert(ids.take(i + 1)[i] == c);
    }
}

/// The per-category tables of the live index, keyed by category
/// identifier, in a fixed order set at startup.
pub struct CatTable {
    entries: Vec<(i32, EntityState)>,
}

impl View for CatTable {
    type V = Map<i32, CatView>;

    closed spec fn view(&self) -> Map<i32, CatView> {
        entries_map(self.entries@).map_values(|e: EntityState| e.view())
    }
}

impl CatTable {
    /// One slot per category, and one entity store per slot.
    pub closed spec fn wf(&self) -> bool {
        unique_keys(self.entries@) && (forall|i: int|
            0 <= i < self.entries@.len() ==> (#[trigger] self.entries@[i]).1.wf())
    }

    /// How many categories the table holds.
    pub closed spec fn spec_len(&self) -> nat {
        self.entries@.len()
    }

    /// The position of the slot holding `cat`, if any.
    fn position(&self, cat: i32) -> (r: Option<usize>)
        ensures
            match r {
                Some(i) => i < self.entries@.len() && self.entries@[i as int].0 == cat,
                None => forall|i: int|
                    0 <= i < self.entries@.len() ==> (#[trigger] self.entries@[i]).0 != cat,
            },
    {
        let n = self.entries.len();
        let mut i: usize = 0;
        while i < n
            invariant
                0 <= i <= n,
                n == self.entries@.len(),
                forall|j: int| 0 <= j < i ==> (#[trigger] self.entries@[j]).0 != cat,
            decreases n - i,
        {
            if self.entries[i].0 == cat {
                return Some(i);
            }
            i = i + 1;
        }
        None
    }

    /// A table with one empty, stale category per given identifier.
    pub fn with_categories(ids: &Vec<i32>) -> (r: Self)
        ensures
            r.wf(),
            forall|c: i32| r@.dom().contains(c) <==> ids@.contains(c),
            forall|c: i32| #[trigger]
                r@.dom().contains(c) ==> r@[c] == (CatView {
                    nodes: Map::<u64, Pos>::empty(),
                    stale: true,
                }),
    {
        let n = ids.len();
        let mut r = CatTable { entries: Vec::new() };
        let mut i: usize = 0;
        while i < n
            invariant
                0 <= i <= n,
                n == ids@.len(),
                r.wf(),
                forall|c: i32| r@.dom().contains(c) <==> ids@.take(i as int).contains(c),
                forall|c: i32| #[trigger]
                    r@.dom().contains(c) ==> r@[c] == (CatView {
                        nodes: Map::<u64, Pos>::empty(),
                        stale: true,
                    }),
            decreases n - i,
        {
            let id = ids[i];
            let ghost prev = r.entries@;
            proof {
                assert(ids@.take(i + 1).drop_last() =~= ids@.take(i as int));
                assert(ids@.take(i + 1).last() == id);
            }
            match r.position(id) {
                Some(j) => {
                    proof {
                        lemma_entries_map_contains_at(r.entries@, j as int);
                        assert(r@.dom().contains(id));
                        assert forall|c: i32| r@.dom().contains(c) <==> #[trigger] ids@.take(
                            i + 1,
                        ).contains(c) by {
                            lemma_take_step_contains(ids@, i as int, c);
                        }
                    }
                },
                None => {
                    let ghost old_r = r;
                    let fresh = EntityState { nodes: Dict::new(), state: DataState::STALE };
                    r.entries.push((id, fresh));
                    proof {
                        lemma_unique_keys_push(prev, id, fresh);
                        assert(r.entries@.drop_last() =~= prev);
                        assert(entries_map(r.entries@) == entries_map(prev).insert(id, fresh));
                        assert(fresh.view() == CatView {
                            nodes: Map::<u64, Pos>::empty(),
                            stale: true,
                        });
                        assert(r@ =~= old_r@.insert(id, fresh.view()));
                        assert forall|c: i32| r@.dom().contains(c) <==> #[trigger] ids@.take(
                            i + 1,
                        ).contains(c) by {
                            lemma_take_step_contains(ids@, i as int, c);
                        }
                    }
                },
            }
            i = i + 1;
        }
        proof {
            assert(ids@.take(n as int) =~= ids@);
        }
        r
    }

    /// The configured category identifiers, in the table's fixed order.
    pub fn ids(&self) -> (r: Vec<i32>)
        ensures
            forall|c: i32| r@.contains(c) <==> self@.dom().contains(c),
            r@.len() == self.spec_len(),
    {
        let n = self.entries.len();
        let mut r: Vec<i32> = Vec::new();
        let mut i: usize = 0;
        while i < n
            invariant
                0 <= i <= n,
                n == self.entries@.len(),
                r@.len() == i,
                forall|j: int| 0 <= j < i ==> r@[j] == (#[trigger] self.entries@[j]).0,
            decreases n - i,
        {
            r.push(self.entries[i].0);
            i = i + 1;
        }
        proof {
            assert forall|c: i32| r@.contains(c) <==> self@.dom().contains(c) by {
                if r@.contains(c) {
                    let j = choose|j: int| 0 <= j < r@.len() && r@[j] == c;
                    lemma_entries_map_contains_at(self.entries@, j);
                }
                if self@.dom().contains(c) {
                    if exists|j: int|
                        0 <= j < self.entries@.len() && (#[trigger] self.entries@[j]).0 == c {
                        let j = choose|j: int|
                            0 <= j < self.entries@.len() && (#[trigger] self.entries@[j]).0 == c;
                        assert(r@[j] == c);
                    } else {
                        lemma_entries_map_absent(self.entries@, c);
                    }
                }
            }
        }
        r
    }

    /// Whether the table knows category `cat`.
    pub fn contains(&self, cat: i32) -> (r: bool)
        ensures
            r == self@.dom().contains(cat),
    {
        let r = self.position(cat);
        proof {
            match r {
                Some(i) => lemma_entries_map_contains_at(self.entries@, i as int),
                None => lemma_entries_map_absent(self.entries@, cat),
            }
        }
        r.is_some()
    }

    /// Applies one delete row: wakes the category if it was stale, then
    /// drops the entity. An unknown category is silently ignored.
    pub fn delete_entity(&mut self, cat: i32, entity: u64)
        requires
            old(self).wf(),
        ensures
            final(self).wf(),
            final(self)@ == delete_step(old(self)@, cat, entity),
    {
        match self.position(cat) {
            None => {
                proof {
                    lemma_entries_map_absent(self.entries@, cat);
                    assert(!self@.dom().contains(cat));
                }
            },
            Some(i) => {
                let mut entry = self.entries.remove(i);
                if entry.1.state == DataState::STALE {
                    entry.1.nodes.clear();
                    entry.1.state = DataState::ACTIVE;
                }
                entry.1.nodes.remove(entity);
                entry.1.state = DataState::ACTIVE;
                self.entries.insert(i, entry);
                proof {
                    let s = old(self).entries@;
                    assert(self.entries@ =~= s.update(i as int, (cat, entry.1)));
                    lemma_entries_map_update(s, i as int, entry.1);
                    lemma_entries_map_contains_at(s, i as int);
                    lemma_entries_map_at(s, i as int);
                    assert(entry.1.view().nodes =~= revive(old(self)@[cat]).nodes.remove(entity));
                    assert(entry.1.view() == CatView {
                        nodes: revive(old(self)@[cat]).nodes.remove(entity),
                        stale: false,
                    });
                    assert(self@ =~= old(self)@.insert(cat, entry.1.view()));
                }
            },
        }
    }

    /// Applies one insert row: wakes the category if it was stale, then
    /// stores the entity's position. An unknown category is ignored.
    pub fn insert_entity(&mut self, cat: i32, entity: u64, pos: Pos)
        requires
            old(self).wf(),
        ensures
            final(self).wf(),
            final(self)@ == insert_step(old(self)@, cat, entity, pos),
    {
        match self.position(cat) {
            None => {
                proof {
                    lemma_entries_map_absent(self.entries@, cat);
                    assert(!self@.dom().contains(cat));
                }
            },
            Some(i) => {
                let mut entry = self.entries.remove(i);
                if entry.1.state == DataState::STALE {
                    entry.1.nodes.clear();
                    entry.1.state = DataState::ACTIVE;
                }
                entry.1.nodes.insert(entity, pos);
                entry.1.state = DataState::ACTIVE;
                self.entries.insert(i, entry);
                proof {
                    let s = old(self).entries@;
                    assert(self.entries@ =~= s.update(i as int, (cat, entry.1)));
                    lemma_entries_map_update(s, i as int, entry.1);
                    lemma_entries_map_contains_at(s, i as int);
                    lemma_entries_map_at(s, i as int);
                    assert(entry.1.view().nodes =~= revive(old(self)@[cat]).nodes.insert(
                        entity,
                        pos,
                    ));
                    assert(entry.1.view() == CatView {
                        nodes: revive(old(self)@[cat]).nodes.insert(entity, pos),
                        stale: false,
                    });
                    assert(self@ =~= old(self)@.insert(cat, entry.1.view()));
                }
            },
        }
    }

    /// Marks every category stale; contents are kept and cleared lazily
    /// by the first batch that touches the category again.
    pub fn mark_all_stale(&mut self)
        requires
            old(self).wf(),
        ensures
            final(self).wf(),
            final(self)@.dom() =~= old(self)@.dom(),
            forall|c: i32| #[trigger]
                old(self)@.dom().contains(c) ==> final(self)@[c] == (CatView {
                    nodes: old(self)@[c].nodes,
                    stale: true,
                }),
    {
        let n = self.entries.len();
        let mut i: usize = 0;
        while i < n
            invariant
                0 <= i <= n,
                n == self.entries@.len(),
                self.entries@.len() == old(self).entries@.len(),
                old(self).wf(),
                forall|j: int| 0 <= j < self.entries@.len() ==> (#[trigger] self.entries@[j]).0
                    == old(self).entries@[j].0,
                forall|j: int| i <= j < self.entries@.len() ==> #[trigger] self.entries@[j]
                    == old(self).entries@[j],
                forall|j: int| 0 <= j < i ==> (#[trigger] self.entries@[j]).1.nodes
                    == old(self).entries@[j].1.nodes && self.entries@[j].1.state is STALE
                    && self.entries@[j].1.wf(),
            decreases n - i,
        {
            let ghost before = self.entries@;
            let mut entry = self.entries.remove(i);
            entry.1.state = DataState::STALE;
            self.entries.insert(i, entry);
            proof {
                assert(self.entries@ =~= before.update(i as int, (before[i as int].0, entry.1)));
            }
            i = i + 1;
        }
        proof {
            let s1 = old(self).entries@;
            let s2 = self.entries@;
            assert forall|p: int, q: int| 0 <= p < q < s2.len() implies (#[trigger] s2[p]).0 != (
            #[trigger] s2[q]).0 by {
                assert(s1[p].0 != s1[q].0);
            }
            assert forall|c: i32| old(self)@.dom().contains(c) implies self@.dom().contains(c) && (
            self@[c] == CatView { nodes: old(self)@[c].nodes, stale: true }) by {
                if exists|j: int| 0 <= j < s1.len() && (#[trigger] s1[j]).0 == c {
                    let j = choose|j: int| 0 <= j < s1.len() && (#[trigger] s1[j]).0 == c;
                    lemma_entries_map_at(s1, j);
                    lemma_entries_map_at(s2, j);
                    lemma_entries_map_contains_at(s2, j);
                    assert(s2[j].1.view() == CatView { nodes: s1[j].1.view().nodes, stale: true });
                } else {
                    lemma_entries_map_absent(s1, c);
                    assert(false);
                }
            }
            assert forall|c: i32| self@.dom().contains(c) == old(self)@.dom().contains(c) by {
                if exists|j: int| 0 <= j < s1.len() && (#[trigger] s1[j]).0 == c {
                    let j = choose|j: int| 0 <= j < s1.len() && (#[trigger] s1[j]).0 == c;
                    lemma_entries_map_contains_at(s1, j);
                    lemma_entries_map_contains_at(s2, j);
                } else {
                    lemma_entries_map_absent(s1, c);
                    assert forall|j: int| 0 <= j < s2.len() implies (#[trigger] s2[j]).0 != c by {
                        assert(s1[j].0 != c);
                    }
                    lemma_entries_map_absent(s2, c);
                }
            }
            assert(self@.dom() =~= old(self)@.dom());
        }
    }

    /// The flag of one category, if the table knows it.
    pub fn category_state(&self, cat: i32) -> (r: Option<DataState>)
        requires
            self.wf(),
        ensures
            r is Some <==> self@.dom().contains(cat),
            r is Some ==> ((r->Some_0 is STALE) == self@[cat].stale),
    {
        match self.position(cat) {
            None => {
                proof {
                    lemma_entries_map_absent(self.entries@, cat);
                }
                None
            },
            Some(i) => {
                proof {
                    lemma_entries_map_contains_at(self.entries@, i as int);
                    lemma_entries_map_at(self.entries@, i as int);
                }
                Some(self.entries[i].1.state)
            },
        }
    }

    /// A consistent snapshot of one category: every tracked entity with
    /// its position, as pairs that spell out exactly the category's map.
    /// `None` when the table does not know the category.
    pub fn snapshot(&self, cat: i32) -> (r: Option<Vec<(u64, Pos)>>)
        requires
            self.wf(),
        ensures
            r is Some <==> self@.dom().contains(cat),
            r is Some ==> entries_map(r->Some_0@) == self@[cat].nodes && unique_keys(r->Some_0@),
    {
        match self.position(cat) {
            None => {
                proof {
                    lemma_entries_map_absent(self.entries@, cat);
                }
                None
            },
            Some(i) => {
                proof {
                    lemma_entries_map_contains_at(self.entries@, i as int);
                    lemma_entries_map_at(self.entries@, i as int);
                }
                Some(self.entries[i].1.nodes.to_pairs())
            },
        }
    }
}

} // verus!
