//! The subscription sequencer: the registry's live queries are issued to
//! the upstream feed one batch at a time, the next batch only after the
//! feed acknowledged the previous one, so that a large query set cannot
//! overwhelm the feed and progress is reported in a reproducible order.
//!
//! The caller drives the sequencer: `next` hands out the next step — a
//! group label to report, a batch to subscribe, or success when the queue
//! is exhausted — and is called again once a batch is acknowledged. A
//! rejected batch is recorded with `fail`; the sequencer never retries by
//! itself.

use vstd::prelude::*;
use vstd::string::StringExecFns;

use crate::digits::{dec_str_signed, push_dec_i32};

verus! {

/// One named set of live queries from the category registry.
#[derive(Clone, Copy, PartialEq, Eq, Structural, Debug)]
#[allow(non_camel_case_types)]
pub enum Query {
    /// All enemy categories share one pair of backing tables.
    ENEMY,
    /// Each resource category has its own partition, selected by ID.
    RESOURCE(i32),
}

/// The view of a batch's query strings.
pub open spec fn texts(v: Vec<String>) -> Seq<Seq<char>> {
    v@.map_values(|s: String| s@)
}

/// The first enemy query: the enemies that have a location.
pub open spec fn enemy_query_mob() -> Seq<char> {
    "SELECT mob.* FROM enemy_state mob JOIN mobile_entity_state loc ON mob.entity_id = loc.entity_id;"@
}

/// The second enemy query: the locations of those enemies.
pub open spec fn enemy_query_loc() -> Seq<char> {
    "SELECT loc.* FROM mobile_entity_state loc JOIN enemy_state mob ON loc.entity_id = mob.entity_id;"@
}

/// The first query of one resource category: its entities that have a
/// location.
pub open spec fn resource_query_res(id: int) -> Seq<char> {
    "SELECT res.* FROM resource_state res JOIN location_state loc ON res.entity_id = loc.entity_id WHERE res.resource_id = "@
        + dec_str_signed(id) + ";"@
}

/// The second query of one resource category: the locations of those
/// entities.
pub open spec fn resource_query_loc(id: int) -> Seq<char> {
    "SELECT loc.* FROM location_state loc JOIN resource_state res ON loc.entity_id = res.entity_id WHERE res.resource_id = "@
        + dec_str_signed(id) + ";"@
}

/// The pair of query strings one registry entry stands for: a category's
/// membership rows and the matching location rows, subscribed together so
/// an entity is locatable exactly while both are held.
pub open spec fn query_spec(q: Query) -> Seq<Seq<char>> {
    match q {
        Query::ENEMY => seq![enemy_query_mob(), enemy_query_loc()],
        Query::RESOURCE(id) => seq![
            resource_query_res(id as int),
            resource_query_loc(id as int),
        ],
    }
}

impl Query {
    /// Renders this registry entry's pair of query strings.
    pub fn query(&self) -> (r: Vec<String>)
        ensures
            texts(r) == query_spec(*self),
    {
        match self {
            Query::ENEMY => {
                let mut v: Vec<String> = Vec::new();
                v.push(
                    String::from_str(
                        "SELECT mob.* FROM enemy_state mob JOIN mobile_entity_state loc ON mob.entity_id = loc.entity_id;",
                    ),
                );
                v.push(
                    String::from_str(
                        "SELECT loc.* FROM mobile_entity_state loc JOIN enemy_state mob ON loc.entity_id = mob.entity_id;",
                    ),
                );
                proof {
                    assert(texts(v) =~= query_spec(*self));
                }
                v
            },
            Query::RESOURCE(id) => {
                proof {
                    reveal_strlit(";");
                }
                let mut a = String::from_str(
                    "SELECT res.* FROM resource_state res JOIN location_state loc ON res.entity_id = loc.entity_id WHERE res.resource_id = ",
                );
                push_dec_i32(&mut a, *id);
                a.append(";");
                let mut b = String::from_str(
                    "SELECT loc.* FROM location_state loc JOIN resource_state res ON loc.entity_id = res.entity_id WHERE res.resource_id = ",
                );
                push_dec_i32(&mut b, *id);
                b.append(";");
                let mut v: Vec<String> = Vec::new();
                proof {
                    assert(a@ =~= resource_query_res(*id as int));
                    assert(b@ =~= resource_query_loc(*id as int));
                }
                v.push(a);
                v.push(b);
                proof {
                    assert(texts(v) =~= query_spec(*self));
                }
                v
            },
        }
    }
}

/// One entry of the sequencer's queue: a group label reported for
/// operator-visible progress, or one batch of query strings that must be
/// applied together before the next entry is taken.
pub enum QueueEvent {
    GROUP(String),
    QUERY(Vec<String>),
}

/// What the caller is to do next.
pub enum SubStep {
    /// Report this group label and call again.
    GROUP(String),
    /// Subscribe this batch; call again once the feed acknowledged it.
    SUBSCRIBE(Vec<String>),
    /// Every batch was acknowledged; the run is complete.
    SUCCESS,
}

/// The batches of a queue, in order, with the group labels dropped.
pub open spec fn batches(q: Seq<QueueEvent>) -> Seq<Vec<String>>
    decreases q.len(),
{
    if q.len() == 0 {
        Seq::empty()
    } else {
        let rest = batches(q.drop_last());
        match q.last() {
            QueueEvent::QUERY(v) => rest.push(v),
            QueueEvent::GROUP(_) => rest,
        }
    }
}

/// The batches of a prefix are a prefix of the batches.
pub proof fn lemma_batches_prefix(q: Seq<QueueEvent>, c: int)
    requires
        0 <= c <= q.len(),
    ensures
        batches(q.take(c)).len() <= batches(q).len(),
        batches(q.take(c)) =~= batches(q).take(batches(q.take(c)).len() as int),
    decreases q.len() - c,
{
    if c == q.len() {
        assert(q.take(c) =~= q);
        assert(batches(q) =~= batches(q).take(batches(q).len() as int));
    } else {
        lemma_batches_prefix(q, c + 1);
        assert(q.take(c + 1).drop_last() =~= q.take(c));
        let l1 = batches(q.take(c + 1)).len() as int;
        match q[c] {
            QueueEvent::QUERY(v) => {
                assert(q.take(c + 1).last() == q[c]);
                assert(batches(q.take(c + 1)) == batches(q.take(c)).push(v));
                assert(batches(q.take(c)) =~= batches(q.take(c + 1)).drop_last());
                assert(batches(q.take(c)) =~= batches(q).take(l1 - 1));
            },
            QueueEvent::GROUP(_) => {
                assert(batches(q.take(c + 1)) == batches(q.take(c)));
            },
        }
    }
}

/// The sequencer: the queue of entries still to process, and whether the
/// run has already ended in success or in a rejected batch.
pub struct QueueSub {
    queue: Vec<QueueEvent>,
    succeeded: bool,
    failed: bool,
}

/// What one finished sequencer run did: the batches issued, in order,
/// whether the success callback fired, and — at most once — the index of
/// the batch whose rejection ended the run.
pub struct RunReport {
    /// Every batch issued to the feed, in issue order.
    pub issued: Vec<Vec<String>>,
    /// Whether the run completed and reported success; at most once, and
    /// never after a rejection.
    pub success_fired: bool,
    /// The index of the rejected batch among the issued ones, if the run
    /// ended in an error; the error is reported exactly once.
    pub error_at: Option<usize>,
}

impl QueueSub {
    /// The entries not yet processed, front first.
    pub closed spec fn remaining(&self) -> Seq<QueueEvent> {
        self.queue@
    }

    /// Whether the run ended with every batch acknowledged.
    pub closed spec fn succeeded(&self) -> bool {
        self.succeeded
    }

    /// Whether a batch was rejected.
    pub closed spec fn failed(&self) -> bool {
        self.failed
    }

    /// An empty sequencer to push groups and batches into.
    pub fn new() -> (r: Self)
        ensures
            r.remaining() == Seq::<QueueEvent>::empty(),
            !r.succeeded(),
            !r.failed(),
    {
        QueueSub { queue: Vec::new(), succeeded: false, failed: false }
    }

    /// A sequencer over the registry's entries, one batch per entry, in
    /// the registry's order.
    pub fn with(queries: Vec<Query>) -> (r: Self)
        ensures
            !r.succeeded(),
            !r.failed(),
            r.remaining().len() == queries@.len(),
            forall|i: int|
                0 <= i < queries@.len() ==> ((#[trigger] r.remaining()[i]) matches
                    QueueEvent::QUERY(v) && texts(v) == query_spec(queries@[i])),
    {
        let mut r = QueueSub::new();
        let n = queries.len();
        let mut i: usize = 0;
        while i < n
            invariant
                0 <= i <= n,
                n == queries@.len(),
                !r.succeeded(),
                !r.failed(),
                r.remaining().len() == i,
                forall|j: int|
                    0 <= j < i ==> ((#[trigger] r.remaining()[j]) matches QueueEvent::QUERY(v)
                        && texts(v) == query_spec(queries@[j])),
            decreases n - i,
        {
            let q = queries[i];
            r.push_query(q.query());
            i = i + 1;
        }
        r
    }

    /// Queues a group label, reported when the sequencer reaches it.
    pub fn push_group(&mut self, group: String)
        ensures
            final(self).remaining() == old(self).remaining().push(QueueEvent::GROUP(group)),
            final(self).succeeded() == old(self).succeeded(),
            final(self).failed() == old(self).failed(),
    {
        self.queue.push(QueueEvent::GROUP(group));
    }

    /// Queues one batch of query strings, to be applied together.
    pub fn push_query(&mut self, query: Vec<String>)
        ensures
            final(self).remaining() == old(self).remaining().push(QueueEvent::QUERY(query)),
            final(self).succeeded() == old(self).succeeded(),
            final(self).failed() == old(self).failed(),
    {
        self.queue.push(QueueEvent::QUERY(query));
    }

    /// Hands out the next step of the run. Strictly sequential: one call
    /// per acknowledgement, so a batch is never issued before the previous
    /// one was applied, no batch is skipped, and none is issued twice.
    /// With the queue exhausted, reports success — once, since the run is
    /// then over.
    pub fn next(&mut self) -> (r: SubStep)
        requires
            !old(self).succeeded(),
            !old(self).failed(),
        ensures
            final(self).failed() == false,
            old(self).remaining().len() == 0 ==> {
                &&& r is SUCCESS
                &&& final(self).succeeded()
                &&& final(self).remaining() == old(self).remaining()
            },
            old(self).remaining().len() > 0 ==> {
                &&& final(self).remaining() == old(self).remaining().skip(1)
                &&& !final(self).succeeded()
                &&& (old(self).remaining()[0] matches QueueEvent::GROUP(g) ==> r == SubStep::GROUP(
                    g,
                ))
                &&& (old(self).remaining()[0] matches QueueEvent::QUERY(v) ==> r
                    == SubStep::SUBSCRIBE(v))
            },
    {
        if self.queue.len() == 0 {
            self.succeeded = true;
            return SubStep::SUCCESS;
        }
        let head = self.queue.remove(0);
        proof {
            assert(self.queue@ =~= old(self).queue@.skip(1));
        }
        match head {
            QueueEvent::GROUP(g) => SubStep::GROUP(g),
            QueueEvent::QUERY(v) => SubStep::SUBSCRIBE(v),
        }
    }

    /// Records that the feed rejected the batch issued last; the run is
    /// over and the caller decides what to do, typically by forcing a
    /// disconnect.
    pub fn fail(&mut self)
        ensures
            final(self).failed(),
            final(self).succeeded() == old(self).succeeded(),
            final(self).remaining() == old(self).remaining(),
    {
        self.failed = true;
    }

    /// Drives a whole run against the feed's verdicts: `outcomes[k]` says
    /// whether the feed acknowledged the `k`-th issued batch. Group labels
    /// are passed over. The run stops at the first rejected batch.
    ///
    /// Given batches where batch `k` fails first, the error is reported
    /// exactly once and names batch `k`, success never fires, and the
    /// batches after `k` are never issued; with every batch acknowledged,
    /// every batch is issued once, in order, and success fires.
    #[verifier::loop_isolation(false)]
    pub fn run(self, outcomes: &Vec<bool>) -> (r: RunReport)
        requires
            !self.succeeded(),
            !self.failed(),
            batches(self.remaining()).len() <= outcomes@.len(),
        ensures
            (forall|j: int| 0 <= j < batches(self.remaining()).len() ==> outcomes@[j]) ==> {
                &&& r.issued@ == batches(self.remaining())
                &&& r.success_fired
                &&& r.error_at is None
            },
            forall|k: int|
                (0 <= k < batches(self.remaining()).len() && !(#[trigger] outcomes@[k]) && (
                forall|j: int| 0 <= j < k ==> outcomes@[j])) ==> {
                    &&& r.issued@ == batches(self.remaining()).take(k + 1)
                    &&& !r.success_fired
                    &&& r.error_at == Some(k as usize)
                },
    {
        let ghost q0 = self.remaining();
        let mut sub = self;
        let mut issued: Vec<Vec<String>> = Vec::new();
        let ghost mut pos: int = 0;
        loop
            invariant
                0 <= pos <= q0.len(),
                sub.remaining() =~= q0.skip(pos),
                !sub.succeeded(),
                !sub.failed(),
                issued@ == batches(q0.take(pos)),
                forall|j: int| 0 <= j < issued@.len() ==> outcomes@[j],
            decreases q0.len() - pos,
        {
            proof {
                lemma_batches_prefix(q0, pos);
                if pos < q0.len() {
                    assert(q0.take(pos + 1).drop_last() =~= q0.take(pos));
                    assert(q0.take(pos + 1).last() == q0[pos]);
                    lemma_batches_prefix(q0, pos + 1);
                }
            }
            match sub.next() {
                SubStep::SUCCESS => {
                    proof {
                        assert(pos == q0.len());
                        assert(q0.take(pos) =~= q0);
                    }
                    return RunReport { issued, success_fired: true, error_at: None };
                },
                SubStep::GROUP(_) => {
                    proof {
                        assert(q0[pos] is GROUP);
                        assert(q0.skip(pos).skip(1) =~= q0.skip(pos + 1));
                        pos = pos + 1;
                    }
                },
                SubStep::SUBSCRIBE(v) => {
                    proof {
                        assert(q0[pos] is QUERY);
                        assert(q0.skip(pos).skip(1) =~= q0.skip(pos + 1));
                        pos = pos + 1;
                        assert(issued@.push(v) == batches(q0.take(pos)));
                    }
                    let k = issued.len();
                    issued.push(v);
                    if !outcomes[k] {
                        sub.fail();
                        proof {
                            assert(issued@ == batches(q0).take(k + 1));
                        }
                        return RunReport { issued, success_fired: false, error_at: Some(k) };
                    }
                },
            }
        }
    }
}

/// The registry's subscription query group: one shared batch for all
/// enemy categories when any are configured, then one batch per resource
/// category, in the configuration's order.
pub fn build_queries(resource_ids: &Vec<i32>, have_enemies: bool) -> (r: Vec<Query>)
    ensures
        r@ == (if have_enemies {
            seq![Query::ENEMY]
        } else {
            Seq::<Query>::empty()
        }) + resource_ids@.map_values(|id: i32| Query::RESOURCE(id)),
{
    let ghost head: Seq<Query> = if have_enemies {
        seq![Query::ENEMY]
    } else {
        Seq::empty()
    };
    let mut r: Vec<Query> = Vec::new();
    if have_enemies {
        r.push(Query::ENEMY);
    }
    let n = resource_ids.len();
    let mut i: usize = 0;
    while i < n
        invariant
            0 <= i <= n,
            n == resource_ids@.len(),
            r@ == head + resource_ids@.take(i as int).map_values(|id: i32| Query::RESOURCE(id)),
        decreases n - i,
    {
        r.push(Query::RESOURCE(resource_ids[i]));
        proof {
            assert(r@ =~= head + resource_ids@.take(i + 1).map_values(
                |id: i32| Query::RESOURCE(id),
            ));
        }
        i = i + 1;
    }
    proof {
        assert(resource_ids@.take(n as int) =~= resource_ids@);
        assert(r@ =~= head + resource_ids@.map_values(|id: i32| Query::RESOURCE(id)));
    }
    r
}


} // verus!
