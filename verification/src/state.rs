//! The connection lifecycle state machine and the shared application
//! state it guards: the per-category live indexes plus the connection
//! state, with the transitions the transport loop drives.

use vstd::prelude::*;
use vstd::string::StringExecFns;

use crate::digits::{dec_str_signed, push_dec_i32};
use crate::index::{CatTable, CatView, DataState, Pos};

verus! {

/// The identity of one one-shot wake signal, created when the service
/// gives up retrying and waits for an operator-requested reconnect.
/// The signal itself lives outside this crate; handing the handle out
/// moves it, so it can be signalled at most once.
#[derive(Clone, Copy, PartialEq, Eq, Structural, Debug)]
pub struct WakeHandle {
    pub id: u64,
}

/// Where the service stands with the upstream feed.
#[derive(Clone, Copy, PartialEq, Eq, Structural, Debug)]
#[allow(non_camel_case_types)]
pub enum ConnectionState {
    /// Attempting to connect, with this many attempts left before the
    /// service stops retrying and waits to be woken.
    CONNECTING(i32),
    /// Connected; the subscription sequencer is still applying queries.
    SYNCHRONIZING,
    /// All subscriptions applied; the feed is live.
    ACTIVE,
    /// The feed is gone and retries are exhausted; holds the wake handle
    /// an operator signals to start reconnecting.
    DISCONNECTED(WakeHandle),
}

/// How many connection attempts are made before the service waits for an
/// operator-requested reconnect.
pub const RETRY_ATTEMPTS: i32 = 5;

/// The connection state and the live index, shared between the feed
/// consumer and the readers.
pub struct AppState {
    /// Where the service stands with the upstream feed.
    pub state: ConnectionState,
    /// The identity the next wake handle will get.
    pub next_wake: u64,
    /// Tracked positions per resource category.
    pub resource: CatTable,
    /// Tracked positions per enemy category.
    pub enemy: CatTable,
}

impl AppState {
    /// Both tables keep one slot per category.
    pub open spec fn wf(&self) -> bool {
        self.resource.wf() && self.enemy.wf()
    }

    /// The state a freshly configured service starts in: every configured
    /// category present, empty and stale, and the first connection attempt
    /// pending.
    pub fn new(resource_ids: &Vec<i32>, enemy_ids: &Vec<i32>) -> (r: Self)
        ensures
            r.wf(),
            r.state == ConnectionState::CONNECTING(RETRY_ATTEMPTS),
            r.next_wake == 0,
            forall|c: i32| r.resource@.dom().contains(c) <==> resource_ids@.contains(c),
            forall|c: i32| #[trigger]
                r.resource@.dom().contains(c) ==> r.resource@[c] == (CatView {
                    nodes: Map::<u64, Pos>::empty(),
                    stale: true,
                }),
            forall|c: i32| r.enemy@.dom().contains(c) <==> enemy_ids@.contains(c),
            forall|c: i32| #[trigger]
                r.enemy@.dom().contains(c) ==> r.enemy@[c] == (CatView {
                    nodes: Map::<u64, Pos>::empty(),
                    stale: true,
                }),
    {
        AppState {
            state: ConnectionState::CONNECTING(RETRY_ATTEMPTS),
            next_wake: 0,
            resource: CatTable::with_categories(resource_ids),
            enemy: CatTable::with_categories(enemy_ids),
        }
    }

    /// Moves the lifecycle to `new`; the indexes are untouched.
    pub fn set_state(&mut self, new: ConnectionState)
        ensures
            final(self).state == new,
            final(self).next_wake == old(self).next_wake,
            final(self).resource == old(self).resource,
            final(self).enemy == old(self).enemy,
    {
        self.state = new;
    }

    /// The current lifecycle state.
    pub fn connection_state(&self) -> (r: ConnectionState)
        ensures
            r == self.state,
    {
        self.state
    }

    /// Steps the lifecycle after a connection attempt ended: counts the
    /// attempt down while attempts remain; on the last one, moves to
    /// DISCONNECTED with a fresh wake handle and returns that handle so
    /// the caller can wait on it; from any other state, starts a fresh
    /// round of attempts.
    pub fn on_disconnect(&mut self) -> (r: Option<WakeHandle>)
        requires
            old(self).next_wake < u64::MAX,
            old(self).state matches ConnectionState::CONNECTING(n) ==> n > i32::MIN,
        ensures
            final(self).resource == old(self).resource,
            final(self).enemy == old(self).enemy,
            match old(self).state {
                ConnectionState::CONNECTING(n) => if n == 1 {
                    &&& final(self).state == ConnectionState::DISCONNECTED(
                        WakeHandle { id: old(self).next_wake },
                    )
                    &&& r == Some(WakeHandle { id: old(self).next_wake })
                    &&& final(self).next_wake == old(self).next_wake + 1
                } else {
                    &&& final(self).state == ConnectionState::CONNECTING((n - 1) as i32)
                    &&& r is None
                    &&& final(self).next_wake == old(self).next_wake
                },
                _ => {
                    &&& final(self).state == ConnectionState::CONNECTING(RETRY_ATTEMPTS)
                    &&& r is None
                    &&& final(self).next_wake == old(self).next_wake
                },
            },
    {
        match self.state {
            ConnectionState::CONNECTING(n) => {
                if n == 1 {
                    let handle = WakeHandle { id: self.next_wake };
                    self.next_wake = self.next_wake + 1;
                    self.state = ConnectionState::DISCONNECTED(handle);
                    Some(handle)
                } else {
                    self.state = ConnectionState::CONNECTING(n - 1);
                    None
                }
            },
            _ => {
                self.state = ConnectionState::CONNECTING(RETRY_ATTEMPTS);
                None
            },
        }
    }

    /// Serves an operator's "reconnect now" request: when disconnected,
    /// hands out the stored wake handle — it leaves the state, so a second
    /// request finds none and is a no-op — and starts a fresh round of
    /// connection attempts; in any other state, nothing changes.
    pub fn on_reconnect(&mut self) -> (r: Option<WakeHandle>)
        ensures
            final(self).resource == old(self).resource,
            final(self).enemy == old(self).enemy,
            final(self).next_wake == old(self).next_wake,
            match old(self).state {
                ConnectionState::DISCONNECTED(handle) => {
                    &&& final(self).state == ConnectionState::CONNECTING(RETRY_ATTEMPTS)
                    &&& r == Some(handle)
                },
                _ => {
                    &&& final(self).state == old(self).state
                    &&& r is None
                },
            },
    {
        match self.state {
            ConnectionState::DISCONNECTED(handle) => {
                self.state = ConnectionState::CONNECTING(RETRY_ATTEMPTS);
                Some(handle)
            },
            _ => None,
        }
    }

    /// Marks every category of both indexes stale, as the transport's
    /// disconnect demands: contents are kept, but the first batch that
    /// touches a category again will clear them before trusting new data.
    pub fn mark_all_stale(&mut self)
        requires
            old(self).wf(),
        ensures
            final(self).wf(),
            final(self).state == old(self).state,
            final(self).next_wake == old(self).next_wake,
            final(self).resource@.dom() =~= old(self).resource@.dom(),
            final(self).enemy@.dom() =~= old(self).enemy@.dom(),
            forall|c: i32| #[trigger]
                old(self).resource@.dom().contains(c) ==> final(self).resource@[c] == (CatView {
                    nodes: old(self).resource@[c].nodes,
                    stale: true,
                }),
            forall|c: i32| #[trigger]
                old(self).enemy@.dom().contains(c) ==> final(self).enemy@[c] == (CatView {
                    nodes: old(self).enemy@[c].nodes,
                    stale: true,
                }),
    {
        self.resource.mark_all_stale();
        self.enemy.mark_all_stale();
    }

    /// The transport lost the feed: every category of both indexes is
    /// marked stale — nothing cached is trusted past this point — and the
    /// lifecycle steps as `on_disconnect` does, handing out a wake handle
    /// when the retries are exhausted.
    pub fn transport_disconnected(&mut self) -> (r: Option<WakeHandle>)
        requires
            old(self).wf(),
            old(self).next_wake < u64::MAX,
            old(self).state matches ConnectionState::CONNECTING(n) ==> n > i32::MIN,
        ensures
            final(self).wf(),
            final(self).resource@.dom() =~= old(self).resource@.dom(),
            final(self).enemy@.dom() =~= old(self).enemy@.dom(),
            forall|c: i32| #[trigger]
                old(self).resource@.dom().contains(c) ==> final(self).resource@[c] == (CatView {
                    nodes: old(self).resource@[c].nodes,
                    stale: true,
                }),
            forall|c: i32| #[trigger]
                old(self).enemy@.dom().contains(c) ==> final(self).enemy@[c] == (CatView {
                    nodes: old(self).enemy@[c].nodes,
                    stale: true,
                }),
            match old(self).state {
                ConnectionState::CONNECTING(n) => if n == 1 {
                    &&& final(self).state == ConnectionState::DISCONNECTED(
                        WakeHandle { id: old(self).next_wake },
                    )
                    &&& r == Some(WakeHandle { id: old(self).next_wake })
                    &&& final(self).next_wake == old(self).next_wake + 1
                } else {
                    &&& final(self).state == ConnectionState::CONNECTING((n - 1) as i32)
                    &&& r is None
                    &&& final(self).next_wake == old(self).next_wake
                },
                _ => {
                    &&& final(self).state == ConnectionState::CONNECTING(RETRY_ATTEMPTS)
                    &&& r is None
                    &&& final(self).next_wake == old(self).next_wake
                },
            },
    {
        self.mark_all_stale();
        self.on_disconnect()
    }

    /// A snapshot of one resource category: every tracked entity with its
    /// position. `None` when the category is not configured.
    pub fn resource_snapshot(&self, category: i32) -> (r: Option<Vec<(u64, Pos)>>)
        requires
            self.wf(),
        ensures
            r is Some <==> self.resource@.dom().contains(category),
            r is Some ==> crate::dict::entries_map(r->Some_0@) == self.resource@[category].nodes
                && crate::dict::unique_keys(r->Some_0@),
    {
        self.resource.snapshot(category)
    }

    /// A snapshot of one enemy category, like `resource_snapshot`.
    pub fn enemy_snapshot(&self, category: i32) -> (r: Option<Vec<(u64, Pos)>>)
        requires
            self.wf(),
        ensures
            r is Some <==> self.enemy@.dom().contains(category),
            r is Some ==> crate::dict::entries_map(r->Some_0@) == self.enemy@[category].nodes
                && crate::dict::unique_keys(r->Some_0@),
    {
        self.enemy.snapshot(category)
    }

    /// One resource category's trust flag, if it is configured.
    pub fn resource_state(&self, category: i32) -> (r: Option<DataState>)
        requires
            self.wf(),
        ensures
            r is Some <==> self.resource@.dom().contains(category),
            r is Some ==> ((r->Some_0 is STALE) == self.resource@[category].stale),
    {
        self.resource.category_state(category)
    }

    /// One enemy category's trust flag, if it is configured.
    pub fn enemy_state(&self, category: i32) -> (r: Option<DataState>)
        requires
            self.wf(),
        ensures
            r is Some <==> self.enemy@.dom().contains(category),
            r is Some ==> ((r->Some_0 is STALE) == self.enemy@[category].stale),
    {
        self.enemy.category_state(category)
    }

    /// The line the status endpoint reports for the current state.
    pub fn status_label(&self) -> (r: String)
        ensures
            r@ == status_label_spec(self.state),
    {
        match self.state {
            ConnectionState::CONNECTING(n) => {
                proof {
                    reveal_strlit("CONNECTING (");
                    reveal_strlit(")");
                }
                let mut s = String::from_str("CONNECTING (");
                push_dec_i32(&mut s, n);
                s.append(")");
                proof {
                    assert(s@ =~= status_label_spec(self.state));
                }
                s
            },
            ConnectionState::SYNCHRONIZING => String::from_str("SYNCHRONIZING"),
            ConnectionState::ACTIVE => String::from_str("ACTIVE"),
            ConnectionState::DISCONNECTED(_) => String::from_str("DISCONNECTED"),
        }
    }
}

/// The text that names each lifecycle state, with the remaining attempt
/// count spelled out while connecting.
pub open spec fn status_label_spec(s: ConnectionState) -> Seq<char> {
    match s {
        ConnectionState::CONNECTING(n) => "CONNECTING ("@ + dec_str_signed(n as int) + ")"@,
        ConnectionState::SYNCHRONIZING => "SYNCHRONIZING"@,
        ConnectionState::ACTIVE => "ACTIVE"@,
        ConnectionState::DISCONNECTED(_) => "DISCONNECTED"@,
    }
}

} // verus!
