//! The registry of client connections: which session ids were handed out and
//! which of them are open.

use vstd::prelude::*;
use crate::ids::{find, lemma_without, remove_id, without};

verus! {

/// Where a connection stands. `Closed` is final.
#[derive(Clone, Copy, Debug, PartialEq, Eq, Structural)]
pub enum ConnectionState {
    /// An id was assigned; the welcome has not gone out yet.
    Connecting,
    /// The welcome went out; the session takes part in broadcasts.
    Open,
    /// The connection is gone.
    Closed,
}

/// What the registry keeps true: ids start at 1, every listed id was handed
/// out, no id is listed twice, and none is both connecting and open.
pub open spec fn registry_ok(next_id: usize, connecting: Seq<usize>, open: Seq<usize>) -> bool {
    &&& next_id >= 1
    &&& connecting.no_duplicates()
    &&& open.no_duplicates()
    &&& forall|i: int| 0 <= i < connecting.len() ==> 1 <= #[trigger] connecting[i] < next_id
    &&& forall|i: int| 0 <= i < open.len() ==> 1 <= #[trigger] open[i] < next_id
    &&& forall|i: int, j: int|
        0 <= i < connecting.len() && 0 <= j < open.len() ==> #[trigger] connecting[i]
            != #[trigger] open[j]
}

/// The session ids handed out so far and the state of each connection.
pub struct Hub {
    next_id: usize,
    connecting: Vec<usize>,
    open: Vec<usize>,
}

impl Hub {
    /// The id that the next connection gets.
    pub closed spec fn next_id(&self) -> usize {
        self.next_id
    }

    /// The ids of the connections that wait for their welcome, oldest first.
    pub closed spec fn connecting(&self) -> Seq<usize> {
        self.connecting@
    }

    /// The ids of the open sessions, oldest first.
    pub closed spec fn sessions(&self) -> Seq<usize> {
        self.open@
    }

    /// The invariant of the type.
    #[verifier::type_invariant]
    pub closed spec fn wf(&self) -> bool {
        registry_ok(self.next_id, self.connecting@, self.open@)
    }

    /// What the invariant says.
    pub proof fn lemma_wf(&self)
        requires
            self.wf(),
        ensures
            registry_ok(self.next_id(), self.connecting(), self.sessions()),
    {
    }

    /// The state of the connection with id `id`; `None` when no connection
    /// has that id yet.
    pub open spec fn state_of(&self, id: usize) -> Option<ConnectionState> {
        if id < 1 || id >= self.next_id() {
            None
        } else if self.sessions().contains(id) {
            Some(ConnectionState::Open)
        } else if self.connecting().contains(id) {
            Some(ConnectionState::Connecting)
        } else {
            Some(ConnectionState::Closed)
        }
    }

    /// How `accept` changes a hub: the next id is handed out and its
    /// connection is connecting; with the ids used up nothing changes.
    pub open spec fn after_accept(&self, after: &Hub, id: Option<usize>) -> bool {
        match id {
            Some(id) => {
                &&& id == self.next_id()
                &&& after.next_id() == id + 1
                &&& after.connecting() == self.connecting().push(id)
                &&& after.sessions() == self.sessions()
            },
            None => {
                &&& self.next_id() == usize::MAX
                &&& after.next_id() == self.next_id()
                &&& after.connecting() == self.connecting()
                &&& after.sessions() == self.sessions()
            },
        }
    }

    /// How `welcomed` changes a hub: a connecting session becomes open when
    /// its welcome was sent and closed when it was not.
    pub open spec fn after_welcomed(&self, after: &Hub, id: usize, sent: bool) -> bool {
        &&& after.next_id() == self.next_id()
        &&& after.connecting() == without(self.connecting(), id)
        &&& after.sessions() == (if sent && self.connecting().contains(id) {
            self.sessions().push(id)
        } else {
            self.sessions()
        })
    }

    /// How `close` changes a hub: the id is listed nowhere afterwards.
    pub open spec fn after_close(&self, after: &Hub, id: usize) -> bool {
        &&& after.next_id() == self.next_id()
        &&& after.connecting() == without(self.connecting(), id)
        &&& after.sessions() == without(self.sessions(), id)
    }

    /// A hub without connections. The first id is 1.
    pub fn new() -> (hub: Hub)
        ensures
            hub.next_id() == 1,
            hub.connecting() == Seq::<usize>::empty(),
            hub.sessions() == Seq::<usize>::empty(),
    {
        Hub { next_id: 1, connecting: Vec::new(), open: Vec::new() }
    }

    /// Hands out the next id to a new connection, which is then connecting.
    /// Ids grow by one and none is handed out twice; when they are used up,
    /// nothing changes and `None` is returned.
    pub fn accept(&mut self) -> (id: Option<usize>)
        ensures
            old(self).after_accept(final(self), id),
    {
        proof {
            use_type_invariant(&*self);
        }
        if self.next_id == usize::MAX {
            return None;
        }
        let id = self.next_id;
        let mut connecting: Vec<usize> = Vec::new();
        std::mem::swap(&mut self.connecting, &mut connecting);
        connecting.push(id);
        self.next_id = id + 1;
        self.connecting = connecting;
        Some(id)
    }

    /// Records whether the welcome of a connecting session went out: if it
    /// did, the session is open from now on; if not, the connection is
    /// closed. For an id that is not connecting nothing changes. Returns
    /// whether the session is now newly open.
    pub fn welcomed(&mut self, id: usize, sent: bool) -> (opened: bool)
        ensures
            opened == (sent && old(self).connecting().contains(id)),
            old(self).after_welcomed(final(self), id, sent),
    {
        proof {
            use_type_invariant(&*self);
            lemma_without(self.connecting@, id);
        }
        let mut connecting: Vec<usize> = Vec::new();
        std::mem::swap(&mut self.connecting, &mut connecting);
        let was_connecting = remove_id(&mut connecting, id);
        self.connecting = connecting;
        if was_connecting && sent {
            let mut open: Vec<usize> = Vec::new();
            std::mem::swap(&mut self.open, &mut open);
            open.push(id);
            self.open = open;
            true
        } else {
            false
        }
    }

    /// Closes the connection with id `id`: it is neither open nor connecting
    /// afterwards, and every other connection is as before.
    pub fn close(&mut self, id: usize)
        ensures
            old(self).after_close(final(self), id),
    {
        proof {
            use_type_invariant(&*self);
            lemma_without(self.connecting@, id);
            lemma_without(self.open@, id);
        }
        let mut connecting: Vec<usize> = Vec::new();
        std::mem::swap(&mut self.connecting, &mut connecting);
        remove_id(&mut connecting, id);
        self.connecting = connecting;
        let mut open: Vec<usize> = Vec::new();
        std::mem::swap(&mut self.open, &mut open);
        remove_id(&mut open, id);
        self.open = open;
    }

    /// Whether the session with id `id` is open.
    pub fn is_open(&self, id: usize) -> (open: bool)
        ensures
            open == self.sessions().contains(id),
    {
        find(&self.open, id).is_some()
    }

    /// The state of the connection with id `id`.
    pub fn state(&self, id: usize) -> (state: Option<ConnectionState>)
        ensures
            state == self.state_of(id),
    {
        if id < 1 || id >= self.next_id {
            None
        } else if find(&self.open, id).is_some() {
            Some(ConnectionState::Open)
        } else if find(&self.connecting, id).is_some() {
            Some(ConnectionState::Connecting)
        } else {
            Some(ConnectionState::Closed)
        }
    }

    /// The number of open sessions.
    pub fn session_count(&self) -> (n: usize)
        ensures
            n == self.sessions().len(),
    {
        self.open.len()
    }

    /// The id of the `i`-th open session, oldest first.
    pub fn session_at(&self, i: usize) -> (id: Option<usize>)
        ensures
            match id {
                Some(id) => i < self.sessions().len() && id == self.sessions()[i as int],
                None => i >= self.sessions().len(),
            },
    {
        if i < self.open.len() {
            Some(self.open[i])
        } else {
            None
        }
    }
}

/// Whether a connection may go from one state to the other in one step: it
/// stays as it is, or it moves forward from unassigned to connecting, from
/// connecting to open or closed, or from open to closed.
pub open spec fn allowed_step(
    before: Option<ConnectionState>,
    after: Option<ConnectionState>,
) -> bool {
    ||| before == after
    ||| before is None && after == Some(ConnectionState::Connecting)
    ||| before == Some(ConnectionState::Connecting) && after == Some(ConnectionState::Open)
    ||| before == Some(ConnectionState::Connecting) && after == Some(ConnectionState::Closed)
    ||| before == Some(ConnectionState::Open) && after == Some(ConnectionState::Closed)
}

/// Every operation of the hub keeps the invariant.
pub proof fn lemma_step_keeps_invariant(
    before: Hub,
    after: Hub,
    id: usize,
    sent: bool,
    accepted: Option<usize>,
)
    requires
        before.wf(),
        before.after_accept(&after, accepted) || before.after_welcomed(&after, id, sent)
            || before.after_close(&after, id),
    ensures
        registry_ok(after.next_id(), after.connecting(), after.sessions()),
{
    before.lemma_wf();
    lemma_without(before.connecting(), id);
    lemma_without(before.sessions(), id);
    let c = before.connecting();
    let o = before.sessions();
    if before.after_accept(&after, accepted) {
        if let Some(new_id) = accepted {
            let c2 = c.push(new_id);
            assert forall|i: int, j: int|
                0 <= i < c2.len() && 0 <= j < c2.len() && i != j implies c2[i] != c2[j] by {
                if i < c.len() {
                    assert(c[i] < new_id);
                }
                if j < c.len() {
                    assert(c[j] < new_id);
                }
            }
            assert forall|i: int, j: int|
                0 <= i < c2.len() && 0 <= j < o.len() implies #[trigger] c2[i] != #[trigger] o[j] by {
                if i < c.len() {
                    assert(c[i] != o[j]);
                } else {
                    assert(o[j] < new_id);
                }
            }
        }
    } else if before.after_welcomed(&after, id, sent) {
        let c2 = without(c, id);
        assert forall|i: int| 0 <= i < c2.len() implies 1 <= #[trigger] c2[i] < before.next_id() by {
            assert(c2.contains(c2[i]));
            assert(c.contains(c2[i]));
        }
        if sent && c.contains(id) {
            let o2 = o.push(id);
            assert(!o.contains(id)) by {
                if o.contains(id) {
                    let j = choose|j: int| 0 <= j < o.len() && o[j] == id;
                    let i = choose|i: int| 0 <= i < c.len() && c[i] == id;
                    assert(c[i] != o[j]);
                }
            }
            assert forall|i: int, j: int|
                0 <= i < o2.len() && 0 <= j < o2.len() && i != j implies o2[i] != o2[j] by {
                if i < o.len() {
                    assert(o.contains(o[i]));
                }
                if j < o.len() {
                    assert(o.contains(o[j]));
                }
            }
            assert forall|i: int| 0 <= i < o2.len() implies 1 <= #[trigger] o2[i]
                < before.next_id() by {
                if i == o.len() {
                    let k = choose|k: int| 0 <= k < c.len() && c[k] == id;
                    assert(1 <= c[k] < before.next_id());
                }
            }
            assert forall|i: int, j: int|
                0 <= i < c2.len() && 0 <= j < o2.len() implies #[trigger] c2[i]
                != #[trigger] o2[j] by {
                assert(c2.contains(c2[i]));
                assert(c.contains(c2[i]));
                if j < o.len() {
                    let k = choose|k: int| 0 <= k < c.len() && c[k] == c2[i];
                    assert(c[k] != o[j]);
                }
            }
        } else {
            assert forall|i: int, j: int|
                0 <= i < c2.len() && 0 <= j < o.len() implies #[trigger] c2[i] != #[trigger] o[j] by {
                assert(c2.contains(c2[i]));
                assert(c.contains(c2[i]));
                let k = choose|k: int| 0 <= k < c.len() && c[k] == c2[i];
                assert(c[k] != o[j]);
            }
        }
    } else {
        let c2 = without(c, id);
        let o2 = without(o, id);
        assert forall|i: int| 0 <= i < c2.len() implies 1 <= #[trigger] c2[i] < before.next_id() by {
            assert(c2.contains(c2[i]));
            assert(c.contains(c2[i]));
        }
        assert forall|i: int| 0 <= i < o2.len() implies 1 <= #[trigger] o2[i] < before.next_id() by {
            assert(o2.contains(o2[i]));
            assert(o.contains(o2[i]));
        }
        assert forall|i: int, j: int|
            0 <= i < c2.len() && 0 <= j < o2.len() implies #[trigger] c2[i] != #[trigger] o2[j] by {
            assert(c2.contains(c2[i]));
            assert(c.contains(c2[i]));
            assert(o2.contains(o2[j]));
            assert(o.contains(o2[j]));
            let k = choose|k: int| 0 <= k < c.len() && c[k] == c2[i];
            let l = choose|l: int| 0 <= l < o.len() && o[l] == o2[j];
            assert(c[k] != o[l]);
        }
    }
}

/// Every operation of the hub moves each connection along the lifecycle
/// only: no connection goes back, and a closed one stays closed.
pub proof fn lemma_steps_follow_lifecycle(
    before: Hub,
    after: Hub,
    id: usize,
    sent: bool,
    accepted: Option<usize>,
)
    requires
        before.wf(),
        before.after_accept(&after, accepted) || before.after_welcomed(&after, id, sent)
            || before.after_close(&after, id),
    ensures
        forall|x: usize| allowed_step(#[trigger] before.state_of(x), after.state_of(x)),
        forall|x: usize|
            before.state_of(x) == Some(ConnectionState::Closed) ==> #[trigger] after.state_of(x)
                == Some(ConnectionState::Closed),
{
    before.lemma_wf();
    lemma_without(before.connecting(), id);
    lemma_without(before.sessions(), id);
    let c = before.connecting();
    let o = before.sessions();
    assert forall|x: usize| allowed_step(#[trigger] before.state_of(x), after.state_of(x)) by {
        if c.contains(x) {
            let k = choose|k: int| 0 <= k < c.len() && c[k] == x;
            assert(1 <= c[k] < before.next_id());
        }
        if o.contains(x) {
            let k = choose|k: int| 0 <= k < o.len() && o[k] == x;
            assert(1 <= o[k] < before.next_id());
        }
        if c.contains(x) && o.contains(x) {
            let k = choose|k: int| 0 <= k < c.len() && c[k] == x;
            let l = choose|l: int| 0 <= l < o.len() && o[l] == x;
            assert(c[k] != o[l]);
        }
        if before.after_accept(&after, accepted) {
            if let Some(new_id) = accepted {
                let c2 = c.push(new_id);
                if x == new_id {
                    assert(c2[c.len() as int] == x);
                } else {
                    if c2.contains(x) {
                        let k = choose|k: int| 0 <= k < c2.len() && c2[k] == x;
                        assert(c[k] == x);
                    }
                    if c.contains(x) {
                        let k = choose|k: int| 0 <= k < c.len() && c[k] == x;
                        assert(c2[k] == x);
                    }
                }
            }
        } else if before.after_welcomed(&after, id, sent) {
            if sent && c.contains(id) {
                let o2 = o.push(id);
                if x == id {
                    assert(o2[o.len() as int] == x);
                } else {
                    if o2.contains(x) {
                        let k = choose|k: int| 0 <= k < o2.len() && o2[k] == x;
                        assert(o[k] == x);
                    }
                    if o.contains(x) {
                        let k = choose|k: int| 0 <= k < o.len() && o[k] == x;
                        assert(o2[k] == x);
                    }
                }
            }
        } else {
        }
    }
}

/// An accepted id is new and larger than every id handed out before: no id
/// is ever used twice.
pub proof fn lemma_accepted_id_is_fresh(before: Hub, after: Hub, id: usize)
    requires
        before.wf(),
        before.after_accept(&after, Some(id)),
    ensures
        before.state_of(id) is None,
        after.state_of(id) == Some(ConnectionState::Connecting),
        forall|x: usize| #[trigger] before.state_of(x) is Some ==> x < id,
        forall|x: usize| #[trigger] after.state_of(x) is Some ==> x <= id,
{
    before.lemma_wf();
    let c = before.connecting();
    let o = before.sessions();
    let c2 = c.push(id);
    assert(c2[c.len() as int] == id);
    if o.contains(id) {
        let k = choose|k: int| 0 <= k < o.len() && o[k] == id;
        assert(1 <= o[k] < before.next_id());
    }
}

} // verus!
