//! The coordinator: reconciles the replicated snapshot with the local
//! cabin's state and the events of the cluster, and decides the lamp
//! commands, the cab calls for the local cabin and the assignment rounds.
//!
//! Each event handler updates the coordinator and returns its actions in
//! order. An assignment round (see [`Coordinator::assignment_plan`]) is
//! carried out by the caller, which hands the assigner's answer back.
use vstd::prelude::*;
use crate::types::{
    Behaviour, CAB, DataView, ElevatorData, ElevatorState, HALL_DOWN, HALL_UP, StateEntry,
    StateView, copy_matrix, default_state, empty_matrix, entry_map, has_key, hall_bounds, keys_unique,
    lemma_entry_lookup, lemma_entry_push, no_hall_calls,
};

verus! {

/// How an incoming snapshot relates to the local one.
#[derive(Clone, Copy, Debug, PartialEq, Eq, Structural)]
pub enum MergeType {
    /// It names a cabin unknown here: union the hall calls, take the other
    /// cabins' states.
    Merge,
    /// It is newer: take it wholesale.
    Accept,
    /// It is not newer: drop it.
    Reject,
}

/// An action of the coordinator.
#[derive(Clone, Copy, Debug, PartialEq, Eq, Structural)]
pub enum Action {
    /// Set the lamp of the button of this kind at this floor.
    Light(u8, u8, bool),
    /// Hand a cab call for this floor to the local cabin.
    CabRequest(u8),
    /// Run an assignment round; when the flag is set, then broadcast the
    /// snapshot with a new version.
    Reassign(bool),
}

/// A change of the set of reachable peers.
#[derive(Clone, Debug, PartialEq)]
pub struct PeerUpdate {
    pub peers: Vec<String>,
    pub new: Option<String>,
    pub lost: Vec<String>,
}

/// An input of the coordinator.
pub enum Event {
    /// A snapshot from another node.
    NewPackage(ElevatorData),
    /// A button edge `(floor, kind)` at this node.
    RequestReceived((u8, u8)),
    /// A change of the peer set.
    NewPeerUpdate(PeerUpdate),
    /// The local cabin published its state.
    NewElevatorState(ElevatorState),
    /// The local cabin served the order `(floor, kind)`.
    OrderComplete((u8, u8)),
}

/// Mathematical model of a [`Coordinator`].
pub struct CoordinatorView {
    pub data: DataView,
    pub local_id: Seq<char>,
    pub n_floors: u8,
}

impl CoordinatorView {
    /// The snapshot fits the building and holds the local cabin's state.
    pub open spec fn wf(self) -> bool {
        &&& self.n_floors >= 1
        &&& self.data.valid(self.n_floors)
        &&& self.data.states.contains_key(self.local_id)
    }

    /// The local cabin's state.
    pub open spec fn local_state(self) -> StateView {
        self.data.states[self.local_id]
    }

    /// The coordinator with snapshot `data`.
    pub open spec fn with_data(self, data: DataView) -> CoordinatorView {
        CoordinatorView { data, ..self }
    }

    /// The coordinator with state table `states`.
    pub open spec fn with_states(self, states: Map<Seq<char>, StateView>) -> CoordinatorView {
        CoordinatorView { data: DataView { states, ..self.data }, ..self }
    }

    /// The coordinator with hall-request matrix `hall`.
    pub open spec fn with_hall(self, hall: Seq<[bool; 2]>) -> CoordinatorView {
        CoordinatorView { data: DataView { hall_requests: hall, ..self.data }, ..self }
    }

    /// The local cabin's state with the cab call at `floor` set to `on`.
    pub open spec fn with_cab_call(self, floor: u8, on: bool) -> CoordinatorView {
        let s = self.local_state();
        self.with_states(
            self.data.states.insert(
                self.local_id,
                StateView { cab_requests: s.cab_requests.update(floor as int, on), ..s },
            ),
        )
    }

    /// The hall call of `kind` at `floor` set to `on`.
    pub open spec fn with_hall_call(self, floor: u8, kind: u8, on: bool) -> CoordinatorView {
        let h = self.data.hall_requests;
        self.with_hall(h.update(floor as int, set_call(h[floor as int], kind, on)))
    }

    /// What the lamp of the button `(floor, kind)` shows: the local cab call
    /// for a cab button, the hall call for a hall button.
    pub open spec fn lamp_state(self, floor: u8, kind: u8) -> bool {
        if kind == CAB {
            self.local_state().cab_requests[floor as int]
        } else {
            self.data.hall_requests[floor as int][kind as int]
        }
    }
}

/// A matrix row with the call of `kind` set to `on`.
pub open spec fn set_call(row: [bool; 2], kind: u8, on: bool) -> [bool; 2] {
    if kind == HALL_UP {
        [on, row[HALL_DOWN as int]]
    } else {
        [row[HALL_UP as int], on]
    }
}

/// The classification of an incoming snapshot: `Merge` when it names a
/// cabin absent here, else `Accept` when its version is higher, else `Reject`.
pub open spec fn classify(local: DataView, incoming: DataView) -> MergeType {
    if !incoming.states.dom().subset_of(local.states.dom()) {
        MergeType::Merge
    } else if incoming.version > local.version {
        MergeType::Accept
    } else {
        MergeType::Reject
    }
}

/// The element-wise OR of two hall-request matrices.
pub open spec fn or_matrix(a: Seq<[bool; 2]>, b: Seq<[bool; 2]>) -> Seq<[bool; 2]> {
    Seq::new(
        a.len(),
        |f: int| [a[f][HALL_UP as int] || b[f][HALL_UP as int], a[f][HALL_DOWN as int] || b[f][HALL_DOWN as int]],
    )
}

/// The lamp commands for the hall calls of floors below `k` that differ
/// between `old` and `new`: per floor the down lamp, then the up lamp.
pub open spec fn lamp_diff(old: Seq<[bool; 2]>, new: Seq<[bool; 2]>, k: nat) -> Seq<Action>
    decreases k,
{
    if k == 0 {
        seq![]
    } else {
        let f = (k - 1) as int;
        lamp_diff(old, new, (k - 1) as nat) + (if new[f][HALL_DOWN as int] != old[f][HALL_DOWN as int] {
            seq![Action::Light(f as u8, HALL_DOWN, new[f][HALL_DOWN as int])]
        } else {
            seq![]
        }) + (if new[f][HALL_UP as int] != old[f][HALL_UP as int] {
            seq![Action::Light(f as u8, HALL_UP, new[f][HALL_UP as int])]
        } else {
            seq![]
        })
    }
}

/// The cab lamps to turn on for the floors below `k` whose call is set in
/// `new` but not in `old`.
pub open spec fn cab_lamps(old: Seq<bool>, new: Seq<bool>, k: nat) -> Seq<Action>
    decreases k,
{
    if k == 0 {
        seq![]
    } else {
        let f = (k - 1) as int;
        cab_lamps(old, new, (k - 1) as nat) + (if !old[f] && new[f] {
            seq![Action::Light(f as u8, CAB, true)]
        } else {
            seq![]
        })
    }
}

/// Some lost id equals `k`.
pub open spec fn is_lost(lost: Seq<String>, k: Seq<char>) -> bool {
    exists|j: int| 0 <= j < lost.len() && (#[trigger] lost[j])@ == k
}

/// An incoming snapshot: dropped unless well formed and fitting the
/// building; then classified. Accept: the lamps of changed hall calls
/// follow, the version, hall calls and states are taken (the local entry is
/// kept if the snapshot lacks it), and a round runs without broadcast.
/// Merge: hall calls are ORed (the lamps of calls this raises are lit) and
/// every other cabin's state is taken; no round runs.
pub open spec fn package_step(c: CoordinatorView, d: ElevatorData) -> (CoordinatorView, Seq<Action>) {
    let i = d@;
    if !(d.wf() && i.valid(c.n_floors)) {
        (c, seq![])
    } else {
        match classify(c.data, i) {
            MergeType::Accept => {
                let states = if i.states.contains_key(c.local_id) {
                    i.states
                } else {
                    i.states.insert(c.local_id, c.local_state())
                };
                (
                    c.with_data(DataView { version: i.version, hall_requests: i.hall_requests, states }),
                    lamp_diff(c.data.hall_requests, i.hall_requests, c.n_floors as nat) + seq![Action::Reassign(false)],
                )
            },
            MergeType::Merge => {
                let merged = or_matrix(c.data.hall_requests, i.hall_requests);
                (
                    c.with_data(
                        DataView {
                            hall_requests: merged,
                            states: c.data.states.union_prefer_right(i.states.remove(c.local_id)),
                            ..c.data
                        },
                    ),
                    lamp_diff(c.data.hall_requests, merged, c.n_floors as nat),
                )
            },
            MergeType::Reject => (c, seq![]),
        }
    }
}

/// A button edge: a cab call is recorded, handed to the cabin and lit; a
/// hall call is recorded, a round runs with broadcast, and it is lit. An edge
/// outside the building, of an unknown kind, or for a hall button that
/// cannot exist (down at floor 0, up at the top floor) is ignored.
pub open spec fn request_step(c: CoordinatorView, floor: u8, kind: u8) -> (CoordinatorView, Seq<Action>) {
    if floor >= c.n_floors || kind > CAB {
        (c, seq![])
    } else if kind == CAB {
        (c.with_cab_call(floor, true), seq![Action::CabRequest(floor), Action::Light(floor, CAB, true)])
    } else if (kind == HALL_UP && floor as int == c.n_floors - 1) || (kind == HALL_DOWN && floor == 0) {
        (c, seq![])
    } else {
        (c.with_hall_call(floor, kind, true), seq![Action::Reassign(true), Action::Light(floor, kind, true)])
    }
}

/// A peer-set change: every lost cabin but the local one is forgotten, a new
/// cabin gets the default state; a round runs without broadcast if any
/// cabin was lost, and one with broadcast if one joined.
pub open spec fn peer_step(c: CoordinatorView, u: PeerUpdate) -> (CoordinatorView, Seq<Action>) {
    let kept = c.data.states.restrict(Set::new(|k: Seq<char>| k == c.local_id || !is_lost(u.lost@, k)));
    let states = match u.new {
        Some(id) => kept.insert(id@, default_state(c.n_floors)),
        None => kept,
    };
    (
        c.with_states(states),
        (if u.lost@.len() > 0 { seq![Action::Reassign(false)] } else { seq![] }) + (if u.new is Some {
            seq![Action::Reassign(true)]
        } else {
            seq![]
        }),
    )
}

/// The local cabin's published state: the lamps of newly raised cab calls
/// are lit, the local entry is replaced, and a round runs with broadcast. A
/// state that does not fit the building is ignored.
pub open spec fn state_step(c: CoordinatorView, s: StateView) -> (CoordinatorView, Seq<Action>) {
    if !s.valid(c.n_floors) {
        (c, seq![])
    } else {
        (
            c.with_states(c.data.states.insert(c.local_id, s)),
            cab_lamps(c.local_state().cab_requests, s.cab_requests, c.n_floors as nat) + seq![Action::Reassign(true)],
        )
    }
}

/// An order served by the local cabin: its call is cleared and its lamp
/// turned off, and a round runs with broadcast. An order outside the
/// building or of an unknown kind is ignored.
pub open spec fn completion_step(c: CoordinatorView, floor: u8, kind: u8) -> (CoordinatorView, Seq<Action>) {
    if floor >= c.n_floors || kind > CAB {
        (c, seq![])
    } else if kind == CAB {
        (c.with_cab_call(floor, false), seq![Action::Light(floor, CAB, false), Action::Reassign(true)])
    } else {
        (c.with_hall_call(floor, kind, false), seq![Action::Light(floor, kind, false), Action::Reassign(true)])
    }
}

/// The effect of an event.
pub open spec fn event_step(c: CoordinatorView, e: Event) -> (CoordinatorView, Seq<Action>) {
    match e {
        Event::NewPackage(d) => package_step(c, d),
        Event::RequestReceived(r) => request_step(c, r.0, r.1),
        Event::NewPeerUpdate(u) => peer_step(c, u),
        Event::NewElevatorState(s) => state_step(c, s@),
        Event::OrderComplete(o) => completion_step(c, o.0, o.1),
    }
}


/// The first `i + 1` entries map as the first `i` with entry `i` added.
proof fn lemma_take_next(s: Seq<StateEntry>, i: int)
    requires
        keys_unique(s),
        0 <= i < s.len(),
    ensures
        keys_unique(s.take(i)),
        keys_unique(s.take(i + 1)),
        entry_map(s.take(i + 1)) == entry_map(s.take(i)).insert(s[i].0@, s[i].1@),
{
    let t = s.take(i);
    assert(keys_unique(t)) by {
        assert forall|a: int, b: int| 0 <= a < t.len() && 0 <= b < t.len() && a != b implies (#[trigger] t[a]).0@ != (#[trigger] t[b]).0@ by {
            assert(t[a] == s[a] && t[b] == s[b]);
        }
    }
    assert(!has_key(t, s[i].0@)) by {
        if has_key(t, s[i].0@) {
            let a = choose|a: int| 0 <= a < t.len() && (#[trigger] t[a]).0@ == s[i].0@;
            assert(t[a] == s[a]);
        }
    }
    assert(s.take(i + 1) =~= t.push(s[i]));
    lemma_entry_push(t, s[i]);
}

/// An id is lost among the first `i + 1` ids exactly when it is lost among
/// the first `i` or is id `i`.
proof fn lemma_lost_take_next(lost: Seq<String>, i: int, k: Seq<char>)
    requires
        0 <= i < lost.len(),
    ensures
        is_lost(lost.take(i + 1), k) == (is_lost(lost.take(i), k) || lost[i]@ == k),
{
    let t = lost.take(i + 1);
    let t0 = lost.take(i);
    if is_lost(t, k) {
        let j = choose|j: int| 0 <= j < t.len() && (#[trigger] t[j])@ == k;
        if j < i {
            assert(t0[j] == t[j]);
        }
    }
    if is_lost(t0, k) {
        let j = choose|j: int| 0 <= j < t0.len() && (#[trigger] t0[j])@ == k;
        assert(t[j] == t0[j]);
    }
    if lost[i]@ == k {
        assert(t[i] == lost[i]);
    }
}

/// The cabins whose behaviour is not `Error`: those that may be assigned
/// hall calls.
pub open spec fn healthy(m: Map<Seq<char>, StateView>) -> Map<Seq<char>, StateView> {
    m.restrict(Set::new(|k: Seq<char>| m[k].behaviour != Behaviour::Error))
}

/// How a round assigns the hall calls to the local cabin.
pub enum AssignmentPlan {
    /// No cabin is healthy: the local cabin takes this whole matrix.
    Direct(Vec<[bool; 2]>),
    /// The assigner is to be run on this snapshot, which holds the healthy
    /// cabins only.
    Solve(ElevatorData),
}

/// The answer of the hall-request assigner to the text `text`: the entries
/// of its JSON object, from cabin id to boolean matrix, if it is one.
pub uninterp spec fn assigner_answer(text: Seq<char>) -> Option<Seq<(Seq<char>, Seq<Seq<bool>>)>>;

/// Relies on `serde_json::from_str` into a `BTreeMap<String, Vec<Vec<bool>>>`:
/// it parses a JSON object from ids to boolean matrices, or fails; the
/// entries are handed out in the map's order.
#[verifier::external_body]
fn parse_assignment(text: &str) -> (r: Option<Vec<(String, Vec<Vec<bool>>)>>)
    ensures
        match r {
            Some(v) => assigner_answer(text@) == Some(v.deep_view()),
            None => assigner_answer(text@) is None,
        },
{
    match serde_json::from_str::<std::collections::BTreeMap<String, Vec<Vec<bool>>>>(text) {
        Ok(m) => Some(m.into_iter().collect()),
        Err(_) => None,
    }
}

/// The matrix of the last entry with id `id`, if any.
pub open spec fn entry_for(entries: Seq<(Seq<char>, Seq<Seq<bool>>)>, id: Seq<char>) -> Option<Seq<Seq<bool>>>
    decreases entries.len(),
{
    if entries.len() == 0 {
        None
    } else if entries.last().0 == id {
        Some(entries.last().1)
    } else {
        entry_for(entries.drop_last(), id)
    }
}

/// The hall calls that an assigner matrix gives the local cabin: none when
/// the cabin has no entry; the first two flags of each of the `n` first rows
/// when every such row has them; else the answer is unusable.
pub open spec fn assigned_rows(m: Option<Seq<Seq<bool>>>, n: u8) -> Option<Seq<[bool; 2]>> {
    match m {
        None => Some(no_hall_calls(n)),
        Some(rows) => if rows.len() >= n && forall|f: int| 0 <= f < n ==> (#[trigger] rows[f]).len() >= 2 {
            Some(Seq::new(n as nat, |f: int| [rows[f][HALL_UP as int], rows[f][HALL_DOWN as int]]))
        } else {
            None
        },
    }
}

/// The version after a broadcast: one more, held at the largest value.
pub open spec fn next_version(v: u64) -> u64 {
    if v < u64::MAX {
        (v + 1) as u64
    } else {
        v
    }
}

/// The position of the last entry with id `id`, if any.
fn find_answer_entry(entries: &Vec<(String, Vec<Vec<bool>>)>, id: &String) -> (r: Option<usize>)
    ensures
        match r {
            Some(j) => j < entries@.len() && entry_for(entries.deep_view(), id@) == Some(entries.deep_view()[j as int].1),
            None => entry_for(entries.deep_view(), id@) is None,
        },
{
    let ghost e = entries.deep_view();
    let mut i: usize = entries.len();
    assert(e.take(e.len() as int) =~= e);
    while i > 0
        invariant
            e == entries.deep_view(),
            i <= entries@.len(),
            entry_for(e, id@) == entry_for(e.take(i as int), id@),
        decreases i,
    {
        assert(e.take(i as int).drop_last() =~= e.take(i - 1));
        if entries[i - 1].0 == *id {
            return Some(i - 1);
        }
        i -= 1;
    }
    assert(e.take(0) =~= Seq::<(Seq<char>, Seq<Seq<bool>>)>::empty());
    None
}

/// The hall calls that the assigner's parsed answer gives the cabin
/// `local_id` of a building of `n_floors` floors; `None` when the answer is
/// unusable.
pub fn local_assignment(entries: &Vec<(String, Vec<Vec<bool>>)>, local_id: &String, n_floors: u8) -> (r: Option<Vec<[bool; 2]>>)
    ensures
        match r {
            Some(v) => assigned_rows(entry_for(entries.deep_view(), local_id@), n_floors) == Some(v@),
            None => assigned_rows(entry_for(entries.deep_view(), local_id@), n_floors) is None,
        },
{
    let ghost e = entries.deep_view();
    let found = find_answer_entry(entries, local_id);
    match found {
        None => Some(empty_matrix(n_floors)),
        Some(j) => {
            assert(entry_for(e, local_id@) == Some(e[j as int].1));
            let rows = &entries[j].1;
            assert(rows.deep_view() == e[j as int].1);
            if rows.len() < n_floors as usize {
                assert(rows.deep_view().len() == rows@.len());
                return None;
            }
            let mut out: Vec<[bool; 2]> = Vec::with_capacity(n_floors as usize);
            let mut f: usize = 0;
            while f < n_floors as usize
                invariant
                    e == entries.deep_view(),
                    j < e.len(),
                    entry_for(e, local_id@) == Some(e[j as int].1),
                    rows.deep_view() == e[j as int].1,
                    rows@.len() >= n_floors,
                    f <= n_floors,
                    out@.len() == f,
                    forall|g: int| 0 <= g < f ==> (#[trigger] rows.deep_view()[g]).len() >= 2,
                    forall|g: int| 0 <= g < f ==> #[trigger] out@[g] == [rows.deep_view()[g][HALL_UP as int], rows.deep_view()[g][HALL_DOWN as int]],
                decreases n_floors - f,
            {
                let row = &rows[f];
                assert(row.deep_view() == rows.deep_view()[f as int]);
                assert(row.deep_view() =~= row@);
                if row.len() < 2 {
                    assert(!(rows.deep_view()[f as int].len() >= 2));
                    return None;
                }
                out.push([row[HALL_UP as usize], row[HALL_DOWN as usize]]);
                f += 1;
            }
            assert(out@ =~= Seq::new(n_floors as nat, |f: int| [e[j as int].1[f][HALL_UP as int], e[j as int].1[f][HALL_DOWN as int]]));
            Some(out)
        },
    }
}

/// Merging hall calls is commutative and idempotent: `a OR b == b OR a`
/// and `a OR a == a`, row by row.
pub proof fn lemma_merge_commutative_idempotent(a: Seq<[bool; 2]>, b: Seq<[bool; 2]>)
    requires
        a.len() == b.len(),
    ensures
        or_matrix(a, b) == or_matrix(b, a),
        or_matrix(a, a) == a,
{
    assert forall|f: int| 0 <= f < a.len() implies #[trigger] or_matrix(a, b)[f] == or_matrix(b, a)[f] by {
        assert(or_matrix(a, b)[f] =~= or_matrix(b, a)[f]);
    }
    assert(or_matrix(a, b) =~= or_matrix(b, a));
    assert forall|f: int| 0 <= f < a.len() implies #[trigger] or_matrix(a, a)[f] == a[f] by {
        assert(or_matrix(a, a)[f] =~= a[f]);
    }
    assert(or_matrix(a, a) =~= a);
}

/// Every lamp command in `acts` names a button of the building and agrees
/// with the request state of `c`.
pub open spec fn lamps_follow(c: CoordinatorView, acts: Seq<Action>) -> bool {
    forall|i: int| 0 <= i < acts.len() ==> match #[trigger] acts[i] {
        Action::Light(f, k, on) => f < c.n_floors && k <= CAB && c.lamp_state(f, k) == on,
        _ => true,
    }
}

proof fn lemma_lamp_diff_elems(old: Seq<[bool; 2]>, new: Seq<[bool; 2]>, k: nat)
    requires
        k <= new.len(),
        k <= 255,
    ensures
        forall|i: int| 0 <= i < lamp_diff(old, new, k).len() ==> match #[trigger] lamp_diff(old, new, k)[i] {
            Action::Light(f, kind, on) => f < k && (kind == HALL_UP || kind == HALL_DOWN) && on == new[f as int][kind as int],
            _ => false,
        },
    decreases k,
{
    if k > 0 {
        lemma_lamp_diff_elems(old, new, (k - 1) as nat);
    }
}

proof fn lemma_cab_lamps_elems(old: Seq<bool>, new: Seq<bool>, k: nat)
    requires
        k <= new.len(),
        k <= 255,
    ensures
        forall|i: int| 0 <= i < cab_lamps(old, new, k).len() ==> match #[trigger] cab_lamps(old, new, k)[i] {
            Action::Light(f, kind, on) => f < k && kind == CAB && on && new[f as int],
            _ => false,
        },
    decreases k,
{
    if k > 0 {
        lemma_cab_lamps_elems(old, new, (k - 1) as nat);
    }
}

/// Every lamp command that an event calls for is backed by the request
/// state it leaves: a lamp is lit only for a call that is now pending, and
/// put out only for a call that is now cleared.
pub proof fn lemma_lamps_follow_requests(c: CoordinatorView, e: Event)
    requires
        c.wf(),
    ensures
        lamps_follow(event_step(c, e).0, event_step(c, e).1),
{
    let (c2, acts) = event_step(c, e);
    match e {
        Event::NewPackage(d) => {
            if d.wf() && d@.valid(c.n_floors) && classify(c.data, d@) == MergeType::Merge {
                let merged = or_matrix(c.data.hall_requests, d@.hall_requests);
                lemma_lamp_diff_elems(c.data.hall_requests, merged, c.n_floors as nat);
            }
            if d.wf() && d@.valid(c.n_floors) && classify(c.data, d@) == MergeType::Accept {
                lemma_lamp_diff_elems(c.data.hall_requests, d@.hall_requests, c.n_floors as nat);
                let l = lamp_diff(c.data.hall_requests, d@.hall_requests, c.n_floors as nat);
                assert forall|i: int| 0 <= i < acts.len() implies match #[trigger] acts[i] {
                    Action::Light(f, k, on) => f < c2.n_floors && k <= CAB && c2.lamp_state(f, k) == on,
                    _ => true,
                } by {
                    if i < l.len() {
                        assert(acts[i] == l[i]);
                    }
                }
            }
        },
        Event::RequestReceived(r) => {
            assert(forall|i: int| 0 <= i < acts.len() ==> #[trigger] acts[i] == acts[i]);
        },
        Event::NewPeerUpdate(u) => {
            assert forall|i: int| 0 <= i < acts.len() implies !(#[trigger] acts[i] is Light) by {
                if u.lost@.len() > 0 {
                    assert(acts[0] == Action::Reassign(false));
                }
            }
        },
        Event::NewElevatorState(st) => {
            if st@.valid(c.n_floors) {
                lemma_cab_lamps_elems(c.local_state().cab_requests, st@.cab_requests, c.n_floors as nat);
                let l = cab_lamps(c.local_state().cab_requests, st@.cab_requests, c.n_floors as nat);
                assert forall|i: int| 0 <= i < acts.len() implies match #[trigger] acts[i] {
                    Action::Light(f, k, on) => f < c2.n_floors && k <= CAB && c2.lamp_state(f, k) == on,
                    _ => true,
                } by {
                    if i < l.len() {
                        assert(acts[i] == l[i]);
                    }
                }
            }
        },
        Event::OrderComplete(o) => {},
    }
}

/// Every event keeps the snapshot fitting the building: floor 0 never holds
/// a down call and the top floor never an up call, and the local cabin's
/// entry stays, with one cab flag per floor.
pub proof fn lemma_events_keep_invariants(c: CoordinatorView, e: Event)
    requires
        c.wf(),
    ensures
        event_step(c, e).0.wf(),
        event_step(c, e).0.n_floors == c.n_floors,
        event_step(c, e).0.local_id == c.local_id,
        hall_bounds(event_step(c, e).0.data.hall_requests, c.n_floors),
        event_step(c, e).0.local_state().cab_requests.len() == c.n_floors,
{
    let c2 = event_step(c, e).0;
    match e {
        Event::NewPackage(d) => {
            if d.wf() && d@.valid(c.n_floors) {
                match classify(c.data, d@) {
                    MergeType::Merge => {
                        let h = or_matrix(c.data.hall_requests, d@.hall_requests);
                        assert(h[0][HALL_DOWN as int] == (c.data.hall_requests[0][HALL_DOWN as int] || d@.hall_requests[0][HALL_DOWN as int]));
                        let t = c.n_floors - 1;
                        assert(h[t][HALL_UP as int] == (c.data.hall_requests[t][HALL_UP as int] || d@.hall_requests[t][HALL_UP as int]));
                        assert forall|k: Seq<char>| #[trigger] c2.data.states.contains_key(k) implies c2.data.states[k].valid(c.n_floors) by {
                            if d@.states.remove(c.local_id).contains_key(k) {
                                assert(d@.states.contains_key(k));
                            }
                        }
                    },
                    _ => {},
                }
            }
        },
        Event::RequestReceived(r) => {
            if r.0 < c.n_floors && r.1 < CAB && !((r.1 == HALL_UP && r.0 as int == c.n_floors - 1) || (r.1 == HALL_DOWN && r.0 == 0)) {
                let h = c2.data.hall_requests;
                assert(h[0][HALL_DOWN as int] == false);
                assert(h[c.n_floors - 1][HALL_UP as int] == false);
            }
        },
        Event::NewPeerUpdate(u) => {
            let kept = c.data.states.restrict(Set::new(|k: Seq<char>| k == c.local_id || !is_lost(u.lost@, k)));
            assert(kept.contains_key(c.local_id));
        },
        Event::NewElevatorState(st) => {},
        Event::OrderComplete(o) => {
            if o.0 < c.n_floors && o.1 < CAB {
                let h = c2.data.hall_requests;
                assert(h[0][HALL_DOWN as int] == false);
                assert(h[c.n_floors - 1][HALL_UP as int] == false);
            }
        },
    }
}

/// Applying the same snapshot twice: the second application changes
/// nothing and calls for nothing, and neither application broadcasts. This
/// holds unless the first application merges a snapshot whose version is
/// higher than the local one (a merge keeps the local version, so the
/// second application then accepts the snapshot wholesale).
pub proof fn lemma_snapshot_twice(c: CoordinatorView, d: ElevatorData)
    requires
        c.wf(),
        !(d.wf() && d@.valid(c.n_floors) && classify(c.data, d@) == MergeType::Merge && d@.version
            > c.data.version),
    ensures
        package_step(package_step(c, d).0, d).0 == package_step(c, d).0,
        package_step(package_step(c, d).0, d).1.len() == 0,
        forall|i: int| 0 <= i < package_step(c, d).1.len() ==> #[trigger] package_step(c, d).1[i] != Action::Reassign(true),
{
    let (c1, a1) = package_step(c, d);
    if d.wf() && d@.valid(c.n_floors) {
        match classify(c.data, d@) {
            MergeType::Accept => {
                assert(d@.states.dom().subset_of(c1.data.states.dom()));
                assert(classify(c1.data, d@) == MergeType::Reject);
                lemma_lamp_diff_elems(c.data.hall_requests, d@.hall_requests, c.n_floors as nat);
                let l = lamp_diff(c.data.hall_requests, d@.hall_requests, c.n_floors as nat);
                assert forall|i: int| 0 <= i < a1.len() implies #[trigger] a1[i] != Action::Reassign(true) by {
                    if i < l.len() {
                        assert(a1[i] == l[i]);
                    }
                }
            },
            MergeType::Merge => {
                lemma_lamp_diff_elems(c.data.hall_requests, or_matrix(c.data.hall_requests, d@.hall_requests), c.n_floors as nat);
                assert(d@.states.dom().subset_of(c1.data.states.dom())) by {
                    assert forall|k: Seq<char>| d@.states.dom().contains(k) implies c1.data.states.dom().contains(k) by {
                        if k != c.local_id {
                            assert(d@.states.remove(c.local_id).contains_key(k));
                        }
                    }
                }
                assert(classify(c1.data, d@) == MergeType::Reject);
            },
            MergeType::Reject => {},
        }
    }
}

/// The lamp commands for the hall calls that differ between `old` and `new`.
fn hall_lamp_changes(old: &Vec<[bool; 2]>, new: &Vec<[bool; 2]>, n: u8) -> (r: Vec<Action>)
    requires
        old@.len() == n,
        new@.len() == n,
    ensures
        r@ == lamp_diff(old@, new@, n as nat),
{
    let mut out: Vec<Action> = Vec::new();
    let mut f: u8 = 0;
    while f < n
        invariant
            old@.len() == n,
            new@.len() == n,
            f <= n,
            out@ == lamp_diff(old@, new@, f as nat),
        decreases n - f,
    {
        let old_row = old[f as usize];
        let new_row = new[f as usize];
        if new_row[HALL_DOWN as usize] != old_row[HALL_DOWN as usize] {
            out.push(Action::Light(f, HALL_DOWN, new_row[HALL_DOWN as usize]));
        }
        if new_row[HALL_UP as usize] != old_row[HALL_UP as usize] {
            out.push(Action::Light(f, HALL_UP, new_row[HALL_UP as usize]));
        }
        f += 1;
        assert(out@ =~= lamp_diff(old@, new@, f as nat));
    }
    out
}

/// The per-node reconciliation and assignment engine.
pub struct Coordinator {
    elevator_data: ElevatorData,
    local_id: String,
    n_floors: u8,
}

impl View for Coordinator {
    type V = CoordinatorView;

    closed spec fn view(&self) -> CoordinatorView {
        CoordinatorView { data: self.elevator_data@, local_id: self.local_id@, n_floors: self.n_floors }
    }
}

impl Coordinator {
    /// The invariant: the entry table has no repeated id, and the model's.
    pub closed spec fn wf(&self) -> bool {
        self.elevator_data.wf() && self@.wf()
    }

    /// A coordinator for the node `local_id` of a building of `n_floors`
    /// floors, starting from `elevator_data`.
    pub fn new(elevator_data: ElevatorData, local_id: String, n_floors: u8) -> (r: Coordinator)
        requires
            n_floors >= 1,
            elevator_data.wf(),
            elevator_data@.valid(n_floors),
            elevator_data@.states.contains_key(local_id@),
        ensures
            r.wf(),
            r@ == (CoordinatorView { data: elevator_data@, local_id: local_id@, n_floors }),
    {
        Coordinator { elevator_data, local_id, n_floors }
    }

    /// The local snapshot.
    pub fn data(&self) -> (r: &ElevatorData)
        ensures
            r@ == self@.data,
    {
        &self.elevator_data
    }

    /// The local node's id.
    pub fn local_id(&self) -> (r: &String)
        ensures
            r@ == self@.local_id,
    {
        &self.local_id
    }

    /// The number of floors.
    pub fn n_floors(&self) -> (r: u8)
        ensures
            r == self@.n_floors,
    {
        self.n_floors
    }

    /// The ids of the cabins in the local snapshot.
    pub fn peer_ids(&self) -> (r: Vec<String>)
        requires
            self.wf(),
        ensures
            forall|k: Seq<char>| self@.data.states.contains_key(k) <==> exists|i: int| 0 <= i < r@.len() && (#[trigger] r@[i])@ == k,
    {
        self.elevator_data.ids()
    }

    /// The local cabin's state.
    pub fn local_state(&self) -> (r: &ElevatorState)
        requires
            self.wf(),
        ensures
            r@ == self@.local_state(),
    {
        let i = match self.elevator_data.find_state(&self.local_id) {
            Some(i) => i,
            None => {
                proof {
                    assert(false);
                }
                0
            },
        };
        proof {
            lemma_entry_lookup(self.elevator_data.states@, i as int);
        }
        &self.elevator_data.states[i].1
    }

    fn set_local_cab(&mut self, floor: u8, on: bool)
        requires
            old(self).wf(),
            floor < old(self)@.n_floors,
        ensures
            final(self).wf(),
            final(self)@ == old(self)@.with_cab_call(floor, on),
    {
        let mut st = self.local_state().duplicate();
        st.cab_requests.set(floor as usize, on);
        let id = self.local_id.clone();
        self.elevator_data.insert_state(id, st);
    }

    fn set_hall_call(&mut self, floor: u8, kind: u8, on: bool)
        requires
            old(self).wf(),
            floor < old(self)@.n_floors,
            kind == HALL_UP || kind == HALL_DOWN,
            on ==> (kind == HALL_UP ==> floor as int != old(self)@.n_floors - 1),
            on ==> (kind == HALL_DOWN ==> floor != 0),
        ensures
            final(self).wf(),
            final(self)@ == old(self)@.with_hall_call(floor, kind, on),
    {
        let row = self.elevator_data.hall_requests[floor as usize];
        let new_row = if kind == HALL_UP {
            [on, row[HALL_DOWN as usize]]
        } else {
            [row[HALL_UP as usize], on]
        };
        self.elevator_data.hall_requests.set(floor as usize, new_row);
    }

    fn on_package(&mut self, incoming: ElevatorData) -> (r: Vec<Action>)
        requires
            old(self).wf(),
        ensures
            final(self).wf(),
            (final(self)@, r@) == package_step(old(self)@, incoming),
    {
        let ghost c = self@;
        let mut out: Vec<Action> = Vec::new();
        if !incoming.is_valid(self.n_floors) {
            return out;
        }
        let n = self.n_floors;
        match self.check_merge_type(&incoming) {
            MergeType::Accept => {
                out = hall_lamp_changes(&self.elevator_data.hall_requests, &incoming.hall_requests, n);
                let has_local = incoming.has_state(&self.local_id);
                let kept = self.local_state().duplicate();
                let ElevatorData { version, hall_requests, states } = incoming;
                self.elevator_data = ElevatorData { version, hall_requests, states };
                if !has_local {
                    let id = self.local_id.clone();
                    self.elevator_data.insert_state(id, kept);
                }
                out.push(Action::Reassign(false));
            },
            MergeType::Merge => {
                let before = copy_matrix(&self.elevator_data.hall_requests);
                let mut f: usize = 0;
                while f < n as usize
                    invariant
                        self.elevator_data.wf(),
                        self.elevator_data.states@ == old(self).elevator_data.states@,
                        self.elevator_data.version == c.data.version,
                        self@.local_id == c.local_id,
                        self@.n_floors == n,
                        n == c.n_floors,
                        c.wf(),
                        incoming@.valid(n),
                        f <= n,
                        self.elevator_data.hall_requests@.len() == n,
                        forall|g: int| 0 <= g < f ==> self.elevator_data.hall_requests@[g]
                            == #[trigger] or_matrix(c.data.hall_requests, incoming@.hall_requests)[g],
                        forall|g: int| f <= g < n ==> self.elevator_data.hall_requests@[g]
                            == #[trigger] c.data.hall_requests[g],
                    decreases n - f,
                {
                    let a = self.elevator_data.hall_requests[f];
                    let b = incoming.hall_requests[f];
                    self.elevator_data.hall_requests.set(
                        f,
                        [a[HALL_UP as usize] || b[HALL_UP as usize], a[HALL_DOWN as usize] || b[HALL_DOWN as usize]],
                    );
                    f += 1;
                }
                assert(self.elevator_data.hall_requests@ =~= or_matrix(c.data.hall_requests, incoming@.hall_requests));
                let ghost merged = or_matrix(c.data.hall_requests, incoming@.hall_requests);
                out = hall_lamp_changes(&before, &self.elevator_data.hall_requests, n);
                let mut i: usize = 0;
                while i < incoming.states.len()
                    invariant
                        self.elevator_data.wf(),
                        incoming.wf(),
                        self.elevator_data.version == c.data.version,
                        self.elevator_data.hall_requests@ == merged,
                        self@.local_id == c.local_id,
                        self@.n_floors == n,
                        i <= incoming.states@.len(),
                        self.elevator_data@.states == c.data.states.union_prefer_right(
                            entry_map(incoming.states@.take(i as int)).remove(c.local_id),
                        ),
                    decreases incoming.states.len() - i,
                {
                    proof {
                        lemma_take_next(incoming.states@, i as int);
                    }
                    if incoming.states[i].0 != self.local_id {
                        let id = incoming.states[i].0.clone();
                        let st = incoming.states[i].1.duplicate();
                        self.elevator_data.insert_state(id, st);
                    }
                    i += 1;
                    assert(self.elevator_data@.states =~= c.data.states.union_prefer_right(
                        entry_map(incoming.states@.take(i as int)).remove(c.local_id),
                    ));
                }
                assert(incoming.states@.take(incoming.states@.len() as int) =~= incoming.states@);
                assert forall|k: Seq<char>| #[trigger] self@.data.states.contains_key(k) implies self@.data.states[k].valid(n) by {
                    if incoming@.states.remove(c.local_id).contains_key(k) {
                        assert(incoming@.states.contains_key(k));
                    }
                }
            },
            MergeType::Reject => {},
        }
        out
    }

    fn on_request(&mut self, floor: u8, kind: u8) -> (r: Vec<Action>)
        requires
            old(self).wf(),
        ensures
            final(self).wf(),
            (final(self)@, r@) == request_step(old(self)@, floor, kind),
    {
        let mut out: Vec<Action> = Vec::new();
        if floor >= self.n_floors || kind > CAB {
            return out;
        }
        if kind == CAB {
            self.set_local_cab(floor, true);
            out.push(Action::CabRequest(floor));
            out.push(Action::Light(floor, CAB, true));
        } else if (kind == HALL_UP && floor == self.n_floors - 1) || (kind == HALL_DOWN && floor == 0) {
        } else {
            self.set_hall_call(floor, kind, true);
            out.push(Action::Reassign(true));
            out.push(Action::Light(floor, kind, true));
        }
        out
    }

    fn on_peer_update(&mut self, update: PeerUpdate) -> (r: Vec<Action>)
        requires
            old(self).wf(),
        ensures
            final(self).wf(),
            (final(self)@, r@) == peer_step(old(self)@, update),
    {
        let ghost c = self@;
        let mut i: usize = 0;
        while i < update.lost.len()
            invariant
                self.elevator_data.wf(),
                self@.local_id == c.local_id,
                self@.n_floors == c.n_floors,
                self@.data.version == c.data.version,
                self@.data.hall_requests == c.data.hall_requests,
                i <= update.lost@.len(),
                self@.data.states == c.data.states.restrict(
                    Set::new(|k: Seq<char>| k == c.local_id || !is_lost(update.lost@.take(i as int), k)),
                ),
            decreases update.lost.len() - i,
        {
            if update.lost[i] != self.local_id {
                self.elevator_data.remove_state(&update.lost[i]);
            }
            proof {
                assert forall|k: Seq<char>| is_lost(update.lost@.take(i + 1), k) == (is_lost(update.lost@.take(i as int), k) || update.lost@[i as int]@ == k) by {
                    lemma_lost_take_next(update.lost@, i as int, k);
                }
            }
            i += 1;
            assert(self@.data.states =~= c.data.states.restrict(
                Set::new(|k: Seq<char>| k == c.local_id || !is_lost(update.lost@.take(i as int), k)),
            ));
        }
        assert(update.lost@.take(update.lost@.len() as int) =~= update.lost@);
        let mut out: Vec<Action> = Vec::new();
        match &update.new {
            Some(id) => {
                let st = ElevatorState::new(self.n_floors);
                self.elevator_data.insert_state(id.clone(), st);
            },
            None => {},
        }
        if update.lost.len() > 0 {
            out.push(Action::Reassign(false));
        }
        if update.new.is_some() {
            out.push(Action::Reassign(true));
        }
        proof {
            let (fc, fa) = peer_step(c, update);
            assert(out@ =~= fa);
        }
        out
    }

    fn on_state(&mut self, state: ElevatorState) -> (r: Vec<Action>)
        requires
            old(self).wf(),
        ensures
            final(self).wf(),
            (final(self)@, r@) == state_step(old(self)@, state@),
    {
        let ghost c = self@;
        let mut out: Vec<Action> = Vec::new();
        if !state.is_valid(self.n_floors) {
            return out;
        }
        let n = self.n_floors;
        let current = self.local_state();
        let mut f: u8 = 0;
        while f < n
            invariant
                n == c.n_floors,
                c.wf(),
                current@ == c.local_state(),
                state@.valid(n),
                f <= n,
                out@ == cab_lamps(c.local_state().cab_requests, state@.cab_requests, f as nat),
            decreases n - f,
        {
            if !current.cab_requests[f as usize] && state.cab_requests[f as usize] {
                out.push(Action::Light(f, CAB, true));
            }
            f += 1;
            assert(out@ =~= cab_lamps(c.local_state().cab_requests, state@.cab_requests, f as nat));
        }
        let id = self.local_id.clone();
        self.elevator_data.insert_state(id, state);
        out.push(Action::Reassign(true));
        out
    }

    fn on_order_complete(&mut self, floor: u8, kind: u8) -> (r: Vec<Action>)
        requires
            old(self).wf(),
        ensures
            final(self).wf(),
            (final(self)@, r@) == completion_step(old(self)@, floor, kind),
    {
        let mut out: Vec<Action> = Vec::new();
        if floor >= self.n_floors || kind > CAB {
            return out;
        }
        if kind == CAB {
            self.set_local_cab(floor, false);
        } else {
            self.set_hall_call(floor, kind, false);
        }
        out.push(Action::Light(floor, kind, false));
        out.push(Action::Reassign(true));
        out
    }

    /// Handles one event and returns the actions it calls for, in order.
    /// The snapshot keeps fitting the building: floor 0 never holds a down
    /// call nor the top floor an up call, and the local cabin's entry stays,
    /// with one cab flag per floor.
    pub fn handle_event(&mut self, event: Event) -> (r: Vec<Action>)
        requires
            old(self).wf(),
        ensures
            final(self).wf(),
            (final(self)@, r@) == event_step(old(self)@, event),
            hall_bounds(final(self)@.data.hall_requests, final(self)@.n_floors),
            final(self)@.data.states.contains_key(final(self)@.local_id),
            final(self)@.local_state().cab_requests.len() == final(self)@.n_floors,
    {
        match event {
            Event::NewPackage(d) => self.on_package(d),
            Event::RequestReceived(req) => self.on_request(req.0, req.1),
            Event::NewPeerUpdate(u) => self.on_peer_update(u),
            Event::NewElevatorState(st) => self.on_state(st),
            Event::OrderComplete(o) => self.on_order_complete(o.0, o.1),
        }
    }

    /// The first step of an assignment round: the snapshot restricted to
    /// the healthy cabins; when none is healthy the local cabin takes every
    /// hall call.
    pub fn assignment_plan(&self) -> (r: AssignmentPlan)
        requires
            self.wf(),
        ensures
            match r {
                AssignmentPlan::Direct(h) => healthy(self@.data.states) == Map::<Seq<char>, StateView>::empty()
                    && h@ == self@.data.hall_requests,
                AssignmentPlan::Solve(d) => healthy(self@.data.states) != Map::<Seq<char>, StateView>::empty()
                    && d.wf() && d@ == (DataView { states: healthy(self@.data.states), ..self@.data }),
            },
    {
        let s = &self.elevator_data.states;
        let ghost full = entry_map(s@);
        let mut kept: Vec<StateEntry> = Vec::new();
        let mut i: usize = 0;
        while i < s.len()
            invariant
                keys_unique(s@),
                full == entry_map(s@),
                i <= s@.len(),
                keys_unique(kept@),
                entry_map(kept@) == healthy(entry_map(s@.take(i as int))),
            decreases s.len() - i,
        {
            proof {
                lemma_take_next(s@, i as int);
                lemma_entry_lookup(s@.take(i + 1), i as int);
            }
            let ghost before = entry_map(s@.take(i as int));
            if s[i].1.behaviour != Behaviour::Error {
                assert(!has_key(kept@, s@[i as int].0@)) by {
                    if has_key(kept@, s@[i as int].0@) {
                        let a = choose|a: int| 0 <= a < kept@.len() && (#[trigger] kept@[a]).0@ == s@[i as int].0@;
                        assert(entry_map(kept@).contains_key(s@[i as int].0@));
                        assert(!has_key(s@.take(i as int), s@[i as int].0@)) by {
                            if has_key(s@.take(i as int), s@[i as int].0@) {
                                let b = choose|b: int| 0 <= b < i && (#[trigger] s@.take(i as int)[b]).0@ == s@[i as int].0@;
                                assert(s@.take(i as int)[b] == s@[b]);
                            }
                        }
                    }
                }
                let id = s[i].0.clone();
                let st = s[i].1.duplicate();
                proof {
                    lemma_entry_push(kept@, (id, st));
                }
                kept.push((id, st));
            }
            i += 1;
            assert(entry_map(kept@) =~= healthy(entry_map(s@.take(i as int))));
        }
        assert(s@.take(s@.len() as int) =~= s@);
        if kept.len() == 0 {
            assert(entry_map(kept@) =~= Map::<Seq<char>, StateView>::empty());
            AssignmentPlan::Direct(copy_matrix(&self.elevator_data.hall_requests))
        } else {
            proof {
                lemma_entry_lookup(kept@, 0);
                assert(entry_map(kept@).contains_key(kept@[0].0@));
            }
            AssignmentPlan::Solve(ElevatorData {
                version: self.elevator_data.version,
                hall_requests: copy_matrix(&self.elevator_data.hall_requests),
                states: kept,
            })
        }
    }

    /// The hall calls that the assigner's output `answer` gives the local
    /// cabin; `None` when the output is not a JSON object from ids to boolean
    /// matrices, or the local cabin's matrix is too small.
    pub fn assigned_to_self(&self, answer: &str) -> (r: Option<Vec<[bool; 2]>>)
        requires
            self.wf(),
        ensures
            match assigner_answer(answer@) {
                None => r is None,
                Some(e) => match r {
                    Some(v) => assigned_rows(entry_for(e, self@.local_id), self@.n_floors) == Some(v@),
                    None => assigned_rows(entry_for(e, self@.local_id), self@.n_floors) is None,
                },
            },
    {
        match parse_assignment(answer) {
            Some(entries) => local_assignment(&entries, &self.local_id, self.n_floors),
            None => None,
        }
    }

    /// The last step of a broadcasting round: bumps the version and returns
    /// the snapshot to send.
    pub fn broadcast_snapshot(&mut self) -> (r: ElevatorData)
        requires
            old(self).wf(),
        ensures
            final(self).wf(),
            final(self)@ == old(self)@.with_data(DataView { version: next_version(old(self)@.data.version), ..old(self)@.data }),
            r.wf(),
            r@ == final(self)@.data,
    {
        if self.elevator_data.version < u64::MAX {
            self.elevator_data.version = self.elevator_data.version + 1;
        }
        self.elevator_data.duplicate()
    }

    /// Classifies an incoming snapshot against the local one.
    pub fn check_merge_type(&self, incoming: &ElevatorData) -> (r: MergeType)
        requires
            self.wf(),
            incoming.wf(),
        ensures
            r == classify(self@.data, incoming@),
    {
        let mut i: usize = 0;
        while i < incoming.states.len()
            invariant
                self.wf(),
                incoming.wf(),
                i <= incoming.states@.len(),
                forall|j: int| 0 <= j < i ==> self@.data.states.contains_key((#[trigger] incoming.states@[j]).0@),
            decreases incoming.states.len() - i,
        {
            if !self.elevator_data.has_state(&incoming.states[i].0) {
                proof {
                    lemma_entry_lookup(incoming.states@, i as int);
                }
                assert(!incoming@.states.dom().subset_of(self@.data.states.dom()));
                return MergeType::Merge;
            }
            i += 1;
        }
        assert(incoming@.states.dom().subset_of(self@.data.states.dom())) by {
            assert forall|k: Seq<char>| incoming@.states.dom().contains(k) implies self@.data.states.dom().contains(k) by {
                let j = choose|j: int| 0 <= j < incoming.states@.len() && (#[trigger] incoming.states@[j]).0@ == k;
            }
        }
        if incoming.version > self.elevator_data.version {
            MergeType::Accept
        } else {
            MergeType::Reject
        }
    }
}

} // verus!
