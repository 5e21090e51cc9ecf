//! Shared data model: directions, behaviours, the per-cabin state and the
//! replicated cluster snapshot.
use vstd::prelude::*;

verus! {

/// Index of the hall-up call in a row of the hall-request matrix.
pub const HALL_UP: u8 = 0;

/// Index of the hall-down call in a row of the hall-request matrix.
pub const HALL_DOWN: u8 = 1;

/// Button kind of a cab call.
pub const CAB: u8 = 2;

/// Motor code for travelling down.
pub const DIRN_DOWN: u8 = 255;

/// Motor code for standing still.
pub const DIRN_STOP: u8 = 0;

/// Motor code for travelling up.
pub const DIRN_UP: u8 = 1;

#[derive(Clone, Copy, Debug, PartialEq, Eq, Structural)]
pub enum Behaviour {
    Idle,
    Moving,
    DoorOpen,
    Error,
}

#[derive(Clone, Copy, Debug, PartialEq, Eq, Structural)]
pub enum Direction {
    Up,
    Down,
    Stop,
}

impl Direction {
    /// The motor code of this direction.
    pub open spec fn code(self) -> u8 {
        match self {
            Direction::Up => DIRN_UP,
            Direction::Down => DIRN_DOWN,
            Direction::Stop => DIRN_STOP,
        }
    }

    /// The direction of a motor code, if it is one.
    pub fn from_u8(code: u8) -> (r: Option<Direction>)
        ensures
            match r {
                Some(d) => d.code() == code,
                None => code != DIRN_UP && code != DIRN_DOWN && code != DIRN_STOP,
            },
    {
        if code == DIRN_UP {
            Some(Direction::Up)
        } else if code == DIRN_DOWN {
            Some(Direction::Down)
        } else if code == DIRN_STOP {
            Some(Direction::Stop)
        } else {
            None
        }
    }

    /// The motor code of this direction.
    pub fn to_u8(&self) -> (r: u8)
        ensures
            r == self.code(),
    {
        match *self {
            Direction::Up => DIRN_UP,
            Direction::Down => DIRN_DOWN,
            Direction::Stop => DIRN_STOP,
        }
    }
}

/// The state of one cabin.
#[derive(Clone, Debug, PartialEq)]
pub struct ElevatorState {
    pub behaviour: Behaviour,
    pub floor: u8,
    pub direction: Direction,
    pub cab_requests: Vec<bool>,
}

/// Mathematical model of an [`ElevatorState`].
pub struct StateView {
    pub behaviour: Behaviour,
    pub floor: u8,
    pub direction: Direction,
    pub cab_requests: Seq<bool>,
}

impl StateView {
    /// The state fits a building of `n` floors.
    pub open spec fn valid(self, n: u8) -> bool {
        &&& self.cab_requests.len() == n
        &&& self.floor < n
    }
}

/// The state a cabin is given when it first becomes known.
pub open spec fn default_state(n: u8) -> StateView {
    StateView {
        behaviour: Behaviour::Idle,
        floor: 0,
        direction: Direction::Stop,
        cab_requests: Seq::new(n as nat, |i: int| false),
    }
}

impl View for ElevatorState {
    type V = StateView;

    open spec fn view(&self) -> StateView {
        StateView {
            behaviour: self.behaviour,
            floor: self.floor,
            direction: self.direction,
            cab_requests: self.cab_requests@,
        }
    }
}

/// A vector of `n` copies of `false`.
pub fn all_false(n: usize) -> (r: Vec<bool>)
    ensures
        r@ == Seq::new(n as nat, |i: int| false),
{
    let mut r: Vec<bool> = Vec::with_capacity(n);
    let mut i: usize = 0;
    while i < n
        invariant
            i <= n,
            r@ == Seq::new(i as nat, |j: int| false),
        decreases n - i,
    {
        r.push(false);
        i += 1;
        assert(r@ =~= Seq::new(i as nat, |j: int| false));
    }
    r
}

/// A copy of a vector of flags.
pub fn copy_flags(v: &Vec<bool>) -> (r: Vec<bool>)
    ensures
        r@ == v@,
{
    let mut r: Vec<bool> = Vec::with_capacity(v.len());
    let mut i: usize = 0;
    while i < v.len()
        invariant
            i <= v.len(),
            r@ == v@.take(i as int),
        decreases v.len() - i,
    {
        r.push(v[i]);
        i += 1;
        assert(r@ =~= v@.take(i as int));
    }
    assert(r@ =~= v@);
    r
}

impl ElevatorState {
    /// The state of a cabin that has just joined: idle at floor 0, no calls.
    pub fn new(n_floors: u8) -> (r: ElevatorState)
        ensures
            r@ == default_state(n_floors),
    {
        ElevatorState {
            behaviour: Behaviour::Idle,
            floor: 0,
            direction: Direction::Stop,
            cab_requests: all_false(n_floors as usize),
        }
    }

    /// A copy of this state.
    pub fn duplicate(&self) -> (r: ElevatorState)
        ensures
            r@ == self@,
    {
        ElevatorState {
            behaviour: self.behaviour,
            floor: self.floor,
            direction: self.direction,
            cab_requests: copy_flags(&self.cab_requests),
        }
    }

    /// Whether the state fits a building of `n_floors` floors.
    pub fn is_valid(&self, n_floors: u8) -> (r: bool)
        ensures
            r == self@.valid(n_floors),
    {
        self.cab_requests.len() == n_floors as usize && self.floor < n_floors
    }
}


/// One entry of the per-cabin state table: the cabin's id and its state.
pub type StateEntry = (String, ElevatorState);

/// No two entries of the table share an id.
pub open spec fn keys_unique(s: Seq<StateEntry>) -> bool {
    forall|i: int, j: int|
        0 <= i < s.len() && 0 <= j < s.len() && i != j ==> (#[trigger] s[i]).0@ != (#[trigger] s[j]).0@
}

/// Some entry of the table has id `k`.
pub open spec fn has_key(s: Seq<StateEntry>, k: Seq<char>) -> bool {
    exists|i: int| 0 <= i < s.len() && (#[trigger] s[i]).0@ == k
}

/// The table as a map from id to state model.
pub open spec fn entry_map(s: Seq<StateEntry>) -> Map<Seq<char>, StateView> {
    Map::new(
        |k: Seq<char>| has_key(s, k),
        |k: Seq<char>| s[choose|i: int| 0 <= i < s.len() && (#[trigger] s[i]).0@ == k].1@,
    )
}

/// In a table with unique ids, the map sends each entry's id to its state.
pub proof fn lemma_entry_lookup(s: Seq<StateEntry>, i: int)
    requires
        keys_unique(s),
        0 <= i < s.len(),
    ensures
        entry_map(s).contains_key(s[i].0@),
        entry_map(s)[s[i].0@] == s[i].1@,
{
    let k = s[i].0@;
    assert(has_key(s, k));
    let j = choose|j: int| 0 <= j < s.len() && (#[trigger] s[j]).0@ == k;
    assert(j == i);
}

/// Appending an entry with a fresh id inserts it into the map.
pub proof fn lemma_entry_push(s: Seq<StateEntry>, e: StateEntry)
    requires
        keys_unique(s),
        !has_key(s, e.0@),
    ensures
        keys_unique(s.push(e)),
        entry_map(s.push(e)) == entry_map(s).insert(e.0@, e.1@),
{
    let t = s.push(e);
    assert(keys_unique(t)) by {
        assert forall|i: int, j: int|
            0 <= i < t.len() && 0 <= j < t.len() && i != j implies (#[trigger] t[i]).0@ != (#[trigger] t[j]).0@ by {
            if i < s.len() && j < s.len() {
                assert(t[i] == s[i] && t[j] == s[j]);
            } else if i < s.len() {
                assert(t[i] == s[i]);
            } else {
                assert(t[j] == s[j]);
            }
        }
    }
    let m = entry_map(s).insert(e.0@, e.1@);
    assert forall|k: Seq<char>| #[trigger] entry_map(t).contains_key(k) <==> m.contains_key(k) by {
        if has_key(t, k) {
            let i = choose|i: int| 0 <= i < t.len() && (#[trigger] t[i]).0@ == k;
            if i < s.len() {
                assert(s[i] == t[i]);
                assert(has_key(s, k));
            }
        }
        if has_key(s, k) {
            let i = choose|i: int| 0 <= i < s.len() && (#[trigger] s[i]).0@ == k;
            assert(t[i] == s[i]);
            assert(has_key(t, k));
        }
        if k == e.0@ {
            assert(t[s.len() as int] == e);
            assert(has_key(t, k));
        }
    }
    assert forall|k: Seq<char>| #[trigger] entry_map(t).contains_key(k) implies entry_map(t)[k] == m[k] by {
        let i = choose|i: int| 0 <= i < t.len() && (#[trigger] t[i]).0@ == k;
        lemma_entry_lookup(t, i);
        if i < s.len() {
            assert(s[i] == t[i]);
            lemma_entry_lookup(s, i);
        } else {
            assert(t[i] == e);
        }
    }
    assert(entry_map(t) =~= m);
}

/// Replacing the state of an entry updates the map at that entry's id.
pub proof fn lemma_entry_update(s: Seq<StateEntry>, i: int, e: StateEntry)
    requires
        keys_unique(s),
        0 <= i < s.len(),
        e.0@ == s[i].0@,
    ensures
        keys_unique(s.update(i, e)),
        entry_map(s.update(i, e)) == entry_map(s).insert(e.0@, e.1@),
{
    let t = s.update(i, e);
    assert(keys_unique(t)) by {
        assert forall|a: int, b: int|
            0 <= a < t.len() && 0 <= b < t.len() && a != b implies (#[trigger] t[a]).0@ != (#[trigger] t[b]).0@ by {
            assert(t[a].0@ == s[a].0@);
            assert(t[b].0@ == s[b].0@);
        }
    }
    let m = entry_map(s).insert(e.0@, e.1@);
    assert forall|k: Seq<char>| #[trigger] entry_map(t).contains_key(k) <==> m.contains_key(k) by {
        if has_key(t, k) {
            let a = choose|a: int| 0 <= a < t.len() && (#[trigger] t[a]).0@ == k;
            assert(t[a].0@ == s[a].0@);
            assert(has_key(s, k));
        }
        if has_key(s, k) {
            let a = choose|a: int| 0 <= a < s.len() && (#[trigger] s[a]).0@ == k;
            assert(t[a].0@ == s[a].0@);
            assert(has_key(t, k));
        }
        if k == e.0@ {
            assert(t[i] == e);
            assert(has_key(t, k));
        }
    }
    assert forall|k: Seq<char>| #[trigger] entry_map(t).contains_key(k) implies entry_map(t)[k] == m[k] by {
        let a = choose|a: int| 0 <= a < t.len() && (#[trigger] t[a]).0@ == k;
        lemma_entry_lookup(t, a);
        if a != i {
            assert(s[a] == t[a]);
            lemma_entry_lookup(s, a);
        }
    }
    assert(entry_map(t) =~= m);
}

/// Removing an entry removes its id from the map.
pub proof fn lemma_entry_remove(s: Seq<StateEntry>, i: int)
    requires
        keys_unique(s),
        0 <= i < s.len(),
    ensures
        keys_unique(s.remove(i)),
        entry_map(s.remove(i)) == entry_map(s).remove(s[i].0@),
{
    let t = s.remove(i);
    let k0 = s[i].0@;
    assert forall|a: int| 0 <= a < t.len() implies #[trigger] t[a] == if a < i { s[a] } else { s[a + 1] } by {}
    assert(keys_unique(t)) by {
        assert forall|a: int, b: int|
            0 <= a < t.len() && 0 <= b < t.len() && a != b implies (#[trigger] t[a]).0@ != (#[trigger] t[b]).0@ by {
            let a1 = if a < i { a } else { a + 1 };
            let b1 = if b < i { b } else { b + 1 };
            assert(t[a] == s[a1] && t[b] == s[b1]);
        }
    }
    let m = entry_map(s).remove(k0);
    assert forall|k: Seq<char>| #[trigger] entry_map(t).contains_key(k) <==> m.contains_key(k) by {
        if has_key(t, k) {
            let a = choose|a: int| 0 <= a < t.len() && (#[trigger] t[a]).0@ == k;
            let a1 = if a < i { a } else { a + 1 };
            assert(t[a] == s[a1]);
            assert(has_key(s, k));
        }
        if has_key(s, k) && k != k0 {
            let a = choose|a: int| 0 <= a < s.len() && (#[trigger] s[a]).0@ == k;
            assert(a != i);
            let a1 = if a < i { a } else { a - 1 };
            assert(t[a1] == s[a]);
            assert(has_key(t, k));
        }
    }
    assert forall|k: Seq<char>| #[trigger] entry_map(t).contains_key(k) implies entry_map(t)[k] == m[k] by {
        let a = choose|a: int| 0 <= a < t.len() && (#[trigger] t[a]).0@ == k;
        let a1 = if a < i { a } else { a + 1 };
        assert(t[a] == s[a1]);
        lemma_entry_lookup(t, a);
        lemma_entry_lookup(s, a1);
    }
    assert(entry_map(t) =~= m);
}


/// Floor 0 has no down call and the top floor has no up call.
pub open spec fn hall_bounds(h: Seq<[bool; 2]>, n: u8) -> bool {
    n >= 1 ==> !h[0][HALL_DOWN as int] && !h[n - 1][HALL_UP as int]
}

/// The hall-request matrix with no call set.
pub open spec fn no_hall_calls(n: u8) -> Seq<[bool; 2]> {
    Seq::new(n as nat, |i: int| [false, false])
}

/// Mathematical model of an [`ElevatorData`].
pub struct DataView {
    pub version: u64,
    pub hall_requests: Seq<[bool; 2]>,
    pub states: Map<Seq<char>, StateView>,
}

impl DataView {
    /// The snapshot fits a building of `n` floors: one matrix row per floor,
    /// the top and bottom rows free of impossible calls, every state fitting.
    pub open spec fn valid(self, n: u8) -> bool {
        &&& self.hall_requests.len() == n
        &&& hall_bounds(self.hall_requests, n)
        &&& forall|k: Seq<char>| #[trigger] self.states.contains_key(k) ==> self.states[k].valid(n)
    }
}

/// The replicated cluster snapshot.
#[derive(Clone, Debug, PartialEq)]
pub struct ElevatorData {
    pub version: u64,
    pub hall_requests: Vec<[bool; 2]>,
    pub states: Vec<StateEntry>,
}

impl View for ElevatorData {
    type V = DataView;

    open spec fn view(&self) -> DataView {
        DataView {
            version: self.version,
            hall_requests: self.hall_requests@,
            states: entry_map(self.states@),
        }
    }
}

/// A copy of a hall-request matrix.
pub fn copy_matrix(m: &Vec<[bool; 2]>) -> (r: Vec<[bool; 2]>)
    ensures
        r@ == m@,
{
    let mut r: Vec<[bool; 2]> = Vec::with_capacity(m.len());
    let mut i: usize = 0;
    while i < m.len()
        invariant
            i <= m.len(),
            r@ == m@.take(i as int),
        decreases m.len() - i,
    {
        let row = m[i];
        r.push(row);
        i += 1;
        assert(r@ =~= m@.take(i as int));
    }
    assert(r@ =~= m@);
    r
}

/// A hall-request matrix of `n` rows with no call set.
pub fn empty_matrix(n: u8) -> (r: Vec<[bool; 2]>)
    ensures
        r@ == no_hall_calls(n),
{
    let mut r: Vec<[bool; 2]> = Vec::with_capacity(n as usize);
    let mut i: u8 = 0;
    while i < n
        invariant
            i <= n,
            r@ == no_hall_calls(i),
        decreases n - i,
    {
        r.push([false, false]);
        i += 1;
        assert(r@ =~= no_hall_calls(i));
    }
    r
}

impl ElevatorData {
    /// The entry table has no repeated id.
    pub open spec fn wf(&self) -> bool {
        keys_unique(self.states@)
    }

    /// A fresh snapshot: version 0, no hall call, no cabin.
    pub fn new(n_floors: u8) -> (r: ElevatorData)
        ensures
            r.wf(),
            r@.version == 0,
            r@.hall_requests == no_hall_calls(n_floors),
            r@.states == Map::<Seq<char>, StateView>::empty(),
    {
        let r = ElevatorData { version: 0, hall_requests: empty_matrix(n_floors), states: Vec::new() };
        assert(entry_map(r.states@) =~= Map::<Seq<char>, StateView>::empty());
        r
    }

    /// The position of the entry with id `id`, if any.
    pub fn find_state(&self, id: &String) -> (r: Option<usize>)
        ensures
            match r {
                Some(i) => i < self.states@.len() && self.states@[i as int].0@ == id@,
                None => !has_key(self.states@, id@),
            },
    {
        let mut i: usize = 0;
        while i < self.states.len()
            invariant
                i <= self.states@.len(),
                forall|j: int| 0 <= j < i ==> (#[trigger] self.states@[j]).0@ != id@,
            decreases self.states.len() - i,
        {
            if self.states[i].0 == *id {
                return Some(i);
            }
            i += 1;
        }
        None
    }

    /// Whether a state is recorded for `id`.
    pub fn has_state(&self, id: &String) -> (r: bool)
        requires
            self.wf(),
        ensures
            r == self@.states.contains_key(id@),
    {
        self.find_state(id).is_some()
    }

    /// Records `state` for `id`, replacing any earlier state of that id.
    pub fn insert_state(&mut self, id: String, state: ElevatorState)
        requires
            old(self).wf(),
        ensures
            final(self).wf(),
            final(self)@ == (DataView { states: old(self)@.states.insert(id@, state@), ..old(self)@ }),
    {
        match self.find_state(&id) {
            Some(i) => {
                proof {
                    lemma_entry_update(self.states@, i as int, (id, state));
                }
                self.states.set(i, (id, state));
            },
            None => {
                proof {
                    lemma_entry_push(self.states@, (id, state));
                }
                self.states.push((id, state));
            },
        }
    }

    /// Forgets the state of `id`, if any.
    pub fn remove_state(&mut self, id: &String)
        requires
            old(self).wf(),
        ensures
            final(self).wf(),
            final(self)@ == (DataView { states: old(self)@.states.remove(id@), ..old(self)@ }),
    {
        match self.find_state(id) {
            Some(i) => {
                proof {
                    lemma_entry_remove(self.states@, i as int);
                }
                self.states.remove(i);
            },
            None => {
                assert(entry_map(self.states@).remove(id@) =~= entry_map(self.states@));
            },
        }
    }

    /// Whether this snapshot is well formed and fits a building of
    /// `n_floors` floors; a snapshot from the network is checked so before use.
    pub fn is_valid(&self, n_floors: u8) -> (r: bool)
        ensures
            r == (self.wf() && self@.valid(n_floors)),
    {
        let n = self.states.len();
        let mut i: usize = 0;
        while i < n
            invariant
                n == self.states@.len(),
                i <= n,
                forall|a: int, b: int|
                    0 <= a < i && 0 <= b < n && a != b ==> (#[trigger] self.states@[a]).0@
                        != (#[trigger] self.states@[b]).0@,
                forall|a: int| 0 <= a < i ==> (#[trigger] self.states@[a]).1@.valid(n_floors),
            decreases n - i,
        {
            if !self.states[i].1.is_valid(n_floors) {
                proof {
                    if keys_unique(self.states@) {
                        lemma_entry_lookup(self.states@, i as int);
                        let k = self.states@[i as int].0@;
                        assert(self@.states.contains_key(k) && !self@.states[k].valid(n_floors));
                    }
                }
                return false;
            }
            let mut j: usize = 0;
            while j < n
                invariant
                    n == self.states@.len(),
                    i < n,
                    j <= n,
                    forall|b: int| 0 <= b < j && b != i ==> self.states@[i as int].0@ != (#[trigger] self.states@[b]).0@,
                decreases n - j,
            {
                if j != i && self.states[j].0 == self.states[i].0 {
                    assert(!keys_unique(self.states@)) by {
                        assert(self.states@[i as int].0@ == self.states@[j as int].0@);
                    }
                    return false;
                }
                j += 1;
            }
            i += 1;
        }
        assert(keys_unique(self.states@));
        let len_ok = self.hall_requests.len() == n_floors as usize;
        if !len_ok {
            return false;
        }
        if n_floors >= 1 {
            let top = (n_floors - 1) as usize;
            if self.hall_requests[0][HALL_DOWN as usize] || self.hall_requests[top][HALL_UP as usize] {
                return false;
            }
        }
        assert forall|k: Seq<char>| #[trigger] self@.states.contains_key(k) implies self@.states[k].valid(n_floors) by {
            let a = choose|a: int| 0 <= a < self.states@.len() && (#[trigger] self.states@[a]).0@ == k;
            lemma_entry_lookup(self.states@, a);
        }
        true
    }

    /// The ids of the cabins in this snapshot.
    pub fn ids(&self) -> (r: Vec<String>)
        ensures
            forall|k: Seq<char>| self@.states.contains_key(k) <==> exists|i: int| 0 <= i < r@.len() && (#[trigger] r@[i])@ == k,
    {
        let mut r: Vec<String> = Vec::new();
        let mut i: usize = 0;
        while i < self.states.len()
            invariant
                i <= self.states@.len(),
                r@.len() == i,
                forall|j: int| 0 <= j < i ==> (#[trigger] r@[j])@ == self.states@[j].0@,
            decreases self.states.len() - i,
        {
            r.push(self.states[i].0.clone());
            i += 1;
        }
        assert forall|k: Seq<char>| self@.states.contains_key(k) <==> exists|i: int| 0 <= i < r@.len() && (#[trigger] r@[i])@ == k by {
            if self@.states.contains_key(k) {
                let j = choose|j: int| 0 <= j < self.states@.len() && (#[trigger] self.states@[j]).0@ == k;
                assert(r@[j]@ == k);
            }
            if exists|i: int| 0 <= i < r@.len() && (#[trigger] r@[i])@ == k {
                let j = choose|i: int| 0 <= i < r@.len() && (#[trigger] r@[i])@ == k;
                assert(self.states@[j].0@ == k);
                assert(has_key(self.states@, k));
            }
        }
        r
    }

    /// A copy of this snapshot.
    pub fn duplicate(&self) -> (r: ElevatorData)
        requires
            self.wf(),
        ensures
            r.wf(),
            r@ == self@,
    {
        let mut states: Vec<StateEntry> = Vec::with_capacity(self.states.len());
        let mut i: usize = 0;
        while i < self.states.len()
            invariant
                i <= self.states@.len(),
                keys_unique(self.states@),
                states@.len() == i,
                forall|j: int| 0 <= j < i ==> (#[trigger] states@[j]).0@ == self.states@[j].0@
                    && states@[j].1@ == self.states@[j].1@,
            decreases self.states.len() - i,
        {
            let id = self.states[i].0.clone();
            let st = self.states[i].1.duplicate();
            states.push((id, st));
            i += 1;
        }
        let r = ElevatorData {
            version: self.version,
            hall_requests: copy_matrix(&self.hall_requests),
            states,
        };
        assert(keys_unique(r.states@)) by {
            assert forall|a: int, b: int|
                0 <= a < r.states@.len() && 0 <= b < r.states@.len() && a != b
                implies (#[trigger] r.states@[a]).0@ != (#[trigger] r.states@[b]).0@ by {
                assert(r.states@[a].0@ == self.states@[a].0@);
                assert(r.states@[b].0@ == self.states@[b].0@);
            }
        }
        assert forall|k: Seq<char>| #[trigger] entry_map(r.states@).contains_key(k)
            <==> entry_map(self.states@).contains_key(k) by {
            if has_key(r.states@, k) {
                let a = choose|a: int| 0 <= a < r.states@.len() && (#[trigger] r.states@[a]).0@ == k;
                assert(self.states@[a].0@ == k);
            }
            if has_key(self.states@, k) {
                let a = choose|a: int| 0 <= a < self.states@.len() && (#[trigger] self.states@[a]).0@ == k;
                assert(r.states@[a].0@ == k);
            }
        }
        assert forall|k: Seq<char>| #[trigger] entry_map(r.states@).contains_key(k)
            implies entry_map(r.states@)[k] == entry_map(self.states@)[k] by {
            let a = choose|a: int| 0 <= a < r.states@.len() && (#[trigger] r.states@[a]).0@ == k;
            lemma_entry_lookup(r.states@, a);
            lemma_entry_lookup(self.states@, a);
        }
        assert(entry_map(r.states@) =~= entry_map(self.states@));
        r
    }
}

} // verus!
