//! A cache of compositions reached by keystrokes: each state is a
//! composition, and a transition on an ASCII key leads to the state the key
//! produced from it.
use vstd::prelude::*;
use crate::transformation::{clone_comp, comp_model, trans_eq, TransModel, Transformation};

verus! {

/// Number of transitions of a state: one per ASCII character.
pub const ASCII_KEYS: usize = 128;

/// The mathematical content of a [`State`]: its transitions and composition.
pub struct StateModel {
    pub transitions: Seq<u32>,
    pub composition: Seq<TransModel>,
}

/// A state: a composition and, per ASCII key, the state that key leads to
/// (0 when not known yet).
#[derive(Debug)]
pub struct State {
    pub transitions: Vec<u32>,
    pub composition: Vec<Transformation>,
}

impl View for State {
    type V = StateModel;

    open spec fn view(&self) -> StateModel {
        StateModel { transitions: self.transitions@, composition: comp_model(self.composition@) }
    }
}

/// The state with no transitions and an empty composition.
pub open spec fn empty_state() -> StateModel {
    StateModel { transitions: Seq::new(128, |i: int| 0u32), composition: Seq::empty() }
}

impl State {
    /// A state with no transitions for `composition`.
    pub fn with_composition(composition: Vec<Transformation>) -> (r: Self)
        ensures
            r@ == (StateModel { transitions: Seq::new(128, |i: int| 0u32), composition: comp_model(composition@) }),
    {
        let mut transitions: Vec<u32> = Vec::new();
        let mut i: usize = 0;
        while i < ASCII_KEYS
            invariant
                i <= ASCII_KEYS,
                transitions@ == Seq::new(i as nat, |k: int| 0u32),
            decreases ASCII_KEYS - i,
        {
            transitions.push(0);
            assert(transitions@ =~= Seq::new((i + 1) as nat, |k: int| 0u32));
            i = i + 1;
        }
        State { transitions, composition }
    }
}

impl Default for State {
    fn default() -> (r: Self)
        ensures
            r@ == empty_state(),
    {
        let r = State::with_composition(Vec::new());
        assert(r@.composition =~= Seq::<TransModel>::empty());
        r
    }
}

/// The mathematical content of a [`Dfa`].
pub struct DfaModel {
    pub states: Seq<StateModel>,
}

/// The states learned so far; state 0 is the empty composition.
#[derive(Debug)]
pub struct Dfa {
    pub states: Vec<State>,
}

impl View for Dfa {
    type V = DfaModel;

    open spec fn view(&self) -> DfaModel {
        DfaModel { states: self.states@.map_values(|s: State| s@) }
    }
}

/// Every state has 128 transitions, each to an existing state, and the
/// number of states fits a `u32`.
pub open spec fn dfa_wf(d: DfaModel) -> bool {
    &&& 1 <= d.states.len() <= u32::MAX
    &&& forall|i: int| 0 <= i < d.states.len() ==> (#[trigger] d.states[i]).transitions.len() == 128
    &&& forall|i: int, k: int|
        0 <= i < d.states.len() && 0 <= k < 128 ==> (#[trigger] d.states[i].transitions[k]) < d.states.len()
}

/// The first state, from `i` on, whose composition is `comp`.
pub open spec fn find_state_from(d: DfaModel, comp: Seq<TransModel>, i: int) -> Option<u32>
    decreases d.states.len() - i,
{
    if i < 0 || i >= d.states.len() {
        None
    } else if d.states[i].composition == comp {
        Some(i as u32)
    } else {
        find_state_from(d, comp, i + 1)
    }
}

/// The state whose composition is `comp`, if there is one.
pub open spec fn spec_find_state(d: DfaModel, comp: Seq<TransModel>) -> Option<u32> {
    find_state_from(d, comp, 0)
}

/// The state for `comp`, added when missing (no state is added once the
/// state count would pass `u32::MAX`; state 0 stands in then).
pub open spec fn spec_add_state(d: DfaModel, comp: Seq<TransModel>) -> (DfaModel, u32) {
    match spec_find_state(d, comp) {
        Some(id) => (d, id),
        None => if d.states.len() < u32::MAX {
            (
                DfaModel {
                    states: d.states.push(StateModel { transitions: Seq::new(128, |i: int| 0u32), composition: comp }),
                },
                d.states.len() as u32,
            )
        } else {
            (d, 0)
        },
    }
}

/// Sets the transition of state `s` on key `k` to `to`.
pub open spec fn spec_set_transition(d: DfaModel, s: int, k: int, to: u32) -> DfaModel {
    DfaModel {
        states: d.states.update(
            s,
            StateModel { transitions: d.states[s].transitions.update(k, to), ..d.states[s] },
        ),
    }
}

proof fn lemma_find_state_from_bounds(d: DfaModel, comp: Seq<TransModel>, i: int)
    requires
        0 <= i,
        d.states.len() <= u32::MAX,
    ensures
        find_state_from(d, comp, i) matches Some(id) ==> (id as int) < d.states.len() && d.states[id as int].composition == comp,
    decreases d.states.len() - i,
{
    if i < d.states.len() && d.states[i].composition != comp {
        lemma_find_state_from_bounds(d, comp, i + 1);
    }
}

pub proof fn lemma_find_state_bounds(d: DfaModel, comp: Seq<TransModel>)
    requires
        d.states.len() <= u32::MAX,
    ensures
        spec_find_state(d, comp) matches Some(id) ==> (id as int) < d.states.len() && d.states[id as int].composition == comp,
{
    lemma_find_state_from_bounds(d, comp, 0);
}

/// Whether two compositions hold equal transformations.
pub fn comp_eq(a: &[Transformation], b: &[Transformation]) -> (r: bool)
    ensures
        r == (comp_model(a@) == comp_model(b@)),
{
    if a.len() != b.len() {
        return false;
    }
    let mut i: usize = 0;
    while i < a.len()
        invariant
            a@.len() == b@.len(),
            i <= a@.len(),
            forall|j: int| 0 <= j < i ==> a@[j]@ == b@[j]@,
        decreases a@.len() - i,
    {
        if !trans_eq(&a[i], &b[i]) {
            assert(comp_model(a@)[i as int] != comp_model(b@)[i as int]);
            return false;
        }
        i = i + 1;
    }
    assert(comp_model(a@) =~= comp_model(b@));
    true
}

impl Default for Dfa {
    fn default() -> (r: Self)
        ensures
            r@.states == seq![empty_state()],
            dfa_wf(r@),
    {
        Self::new()
    }
}

impl Dfa {
    /// A DFA with its initial state: the empty composition, no transitions.
    pub fn new() -> (r: Self)
        ensures
            r@.states == seq![empty_state()],
            dfa_wf(r@),
    {
        let mut states: Vec<State> = Vec::new();
        states.push(State::default());
        let r = Dfa { states };
        assert(r@.states =~= seq![empty_state()]);
        r
    }

    /// The state `id`.
    pub fn get_state(&self, id: u32) -> (r: &State)
        requires
            (id as int) < self@.states.len(),
        ensures
            r@ == self@.states[id as int],
    {
        &self.states[id as usize]
    }

    /// The transition of state `id` on key `k`.
    pub fn transition(&self, id: u32, k: usize) -> (r: u32)
        requires
            dfa_wf(self@),
            (id as int) < self@.states.len(),
            k < 128,
        ensures
            r == self@.states[id as int].transitions[k as int],
            (r as int) < self@.states.len(),
    {
        assert(self@.states[id as int] == self.states@[id as int]@);
        self.states[id as usize].transitions[k]
    }

    /// The composition of state `id`.
    pub fn get_composition(&self, id: u32) -> (r: &[Transformation])
        requires
            (id as int) < self@.states.len(),
        ensures
            comp_model(r@) == self@.states[id as int].composition,
    {
        assert(self@.states[id as int] == self.states@[id as int]@);
        self.states[id as usize].composition.as_slice()
    }

    /// The state whose composition is `composition`.
    pub fn find_state(&self, composition: &[Transformation]) -> (r: Option<u32>)
        requires
            self@.states.len() <= u32::MAX,
        ensures
            r == spec_find_state(self@, comp_model(composition@)),
    {
        let ghost d = self@;
        let mut i: usize = 0;
        while i < self.states.len()
            invariant
                d == self@,
                d.states.len() <= u32::MAX,
                i <= self.states@.len(),
                spec_find_state(d, comp_model(composition@)) == find_state_from(d, comp_model(composition@), i as int),
            decreases self.states@.len() - i,
        {
            assert(d.states[i as int] == self.states@[i as int]@);
            if comp_eq(self.states[i].composition.as_slice(), composition) {
                return Some(i as u32);
            }
            i = i + 1;
        }
        None
    }

    /// The state for `composition`, added when it is new.
    pub fn add_state(&mut self, composition: &[Transformation]) -> (r: u32)
        requires
            dfa_wf(old(self)@),
        ensures
            (final(self)@, r) == spec_add_state(old(self)@, comp_model(composition@)),
            dfa_wf(final(self)@),
            (r as int) < final(self)@.states.len(),
    {
        proof { lemma_find_state_bounds(self@, comp_model(composition@)); }
        match self.find_state(composition) {
            Some(id) => id,
            None => {
                if self.states.len() >= u32::MAX as usize {
                    return 0;
                }
                let id = self.states.len() as u32;
                let ghost before = self@;
                let st = State::with_composition(clone_comp(composition));
                self.states.push(st);
                assert(self@.states =~= before.states.push(st@));
                id
            },
        }
    }

    /// Sets the transition of state `s` on key `k` to state `to`.
    pub fn set_transition(&mut self, s: u32, k: usize, to: u32)
        requires
            dfa_wf(old(self)@),
            (s as int) < old(self)@.states.len(),
            (to as int) < old(self)@.states.len(),
            k < 128,
        ensures
            final(self)@ == spec_set_transition(old(self)@, s as int, k as int, to),
            dfa_wf(final(self)@),
    {
        let ghost before = self@;
        let mut states: Vec<State> = Vec::new();
        std::mem::swap(&mut states, &mut self.states);
        assert(before.states[s as int] == states@[s as int]@);
        let mut st = states.remove(s as usize);
        assert(st.transitions@.len() == 128);
        st.transitions.set(k, to);
        states.insert(s as usize, st);
        self.states = states;
        assert(self@.states =~= spec_set_transition(before, s as int, k as int, to).states);
    }
}

/// Adding a composition that is already there changes nothing and gives its
/// state again; after adding, looking the composition up finds that state.
pub proof fn lemma_add_state_idempotent(d: DfaModel, comp: Seq<TransModel>)
    requires
        dfa_wf(d),
        d.states.len() < u32::MAX,
    ensures
        ({
            let (d1, id) = spec_add_state(d, comp);
            &&& spec_add_state(d1, comp) == (d1, id)
            &&& spec_find_state(d1, comp) == Some(id)
            &&& d1.states[id as int].composition == comp
        }),
{
    lemma_find_state_bounds(d, comp);
    let (d1, id) = spec_add_state(d, comp);
    if spec_find_state(d, comp) is None {
        lemma_find_state_from_prefix(d, d1, comp, 0);
    }
    lemma_find_state_bounds(d1, comp);
}

proof fn lemma_find_state_from_prefix(d: DfaModel, d1: DfaModel, comp: Seq<TransModel>, i: int)
    requires
        0 <= i <= d.states.len(),
        d1.states.len() == d.states.len() + 1,
        forall|j: int| 0 <= j < d.states.len() ==> d1.states[j] == d.states[j],
        d1.states[d.states.len() as int].composition == comp,
        find_state_from(d, comp, i) is None,
        d.states.len() < u32::MAX,
    ensures
        find_state_from(d1, comp, i) == Some(d.states.len() as u32),
    decreases d.states.len() - i,
{
    if i < d.states.len() {
        lemma_find_state_from_prefix(d, d1, comp, i + 1);
    }
}

} // verus!
