//! Transformations (one keystroke's effect on the composition) and compositions.
use vstd::prelude::*;
use crate::input_method::{clone_rule, rule_eq, Rule, RuleModel};

verus! {

/// Maximum number of transformations in the engine's active composition.
pub const MAX_ACTIVE_TRANS: usize = 24;

/// The mathematical content of a [`Transformation`].
pub struct TransModel {
    pub rule: RuleModel,
    pub target: Option<usize>,
    pub is_upper_case: bool,
}

/// A single keypress or a transformation derived from it (e.g., adding a mark or tone).
#[derive(Debug)]
pub struct Transformation {
    /// The rule that was applied.
    pub rule: Rule,
    /// The index, in the composition, of the transformation this one acts on (if any).
    pub target: Option<usize>,
    /// Whether the resulting character should be uppercase.
    pub is_upper_case: bool,
}

impl View for Transformation {
    type V = TransModel;

    open spec fn view(&self) -> TransModel {
        TransModel { rule: self.rule@, target: self.target, is_upper_case: self.is_upper_case }
    }
}

/// The models of a sequence of transformations.
pub open spec fn comp_model(s: Seq<Transformation>) -> Seq<TransModel> {
    s.map_values(|t: Transformation| t@)
}

pub proof fn lemma_comp_model_push(s: Seq<Transformation>, t: Transformation)
    ensures
        comp_model(s.push(t)) == comp_model(s).push(t@),
{
    assert(comp_model(s.push(t)) =~= comp_model(s).push(t@));
}

/// A copy of a transformation.
pub fn clone_trans(t: &Transformation) -> (r: Transformation)
    ensures
        r@ == t@,
{
    Transformation { rule: clone_rule(&t.rule), target: t.target, is_upper_case: t.is_upper_case }
}

impl Clone for Transformation {
    fn clone(&self) -> (r: Self)
        ensures
            r@ == self@,
    {
        clone_trans(self)
    }
}

/// Whether two transformations are equal in every field.
pub fn trans_eq(a: &Transformation, b: &Transformation) -> (r: bool)
    ensures
        r == (a@ == b@),
{
    a.target == b.target && a.is_upper_case == b.is_upper_case && rule_eq(&a.rule, &b.rule)
}

/// Copies of the transformations `s[from..to]`.
pub fn clone_range(s: &[Transformation], from: usize, to: usize) -> (r: Vec<Transformation>)
    requires
        from <= to <= s@.len(),
    ensures
        comp_model(r@) == comp_model(s@).subrange(from as int, to as int),
{
    let mut out: Vec<Transformation> = Vec::new();
    let mut i = from;
    while i < to
        invariant
            from <= i <= to,
            to <= s@.len(),
            comp_model(out@) == comp_model(s@).subrange(from as int, i as int),
        decreases to - i,
    {
        let c = clone_trans(&s[i]);
        proof { lemma_comp_model_push(out@, c); }
        out.push(c);
        assert(comp_model(s@).subrange(from as int, i + 1) =~= comp_model(s@).subrange(from as int, i as int).push(s@[i as int]@));
        i = i + 1;
    }
    out
}

/// Copies of all transformations of `s`.
pub fn clone_comp(s: &[Transformation]) -> (r: Vec<Transformation>)
    ensures
        comp_model(r@) == comp_model(s@),
{
    let r = clone_range(s, 0, s.len());
    assert(comp_model(s@).subrange(0, s@.len() as int) =~= comp_model(s@));
    r
}

/// A bounded buffer of at most [`MAX_ACTIVE_TRANS`] transformations.
#[derive(Debug)]
pub struct TransformationStack {
    data: Vec<Transformation>,
}

impl View for TransformationStack {
    type V = Seq<TransModel>;

    closed spec fn view(&self) -> Seq<TransModel> {
        comp_model(self.data@)
    }
}

impl TransformationStack {
    /// The stack holds at most [`MAX_ACTIVE_TRANS`] transformations.
    pub closed spec fn wf(&self) -> bool {
        self.data@.len() <= MAX_ACTIVE_TRANS
    }

    /// An empty stack.
    pub fn new() -> (r: Self)
        ensures
            r.wf(),
            r@ == Seq::<TransModel>::empty(),
    {
        let r = TransformationStack { data: Vec::new() };
        assert(comp_model(r.data@) =~= Seq::<TransModel>::empty());
        r
    }

    /// Pushes `t` when there is room; a full stack is left unchanged.
    pub fn push(&mut self, t: Transformation)
        requires
            old(self).wf(),
        ensures
            final(self).wf(),
            old(self)@.len() < MAX_ACTIVE_TRANS ==> final(self)@ == old(self)@.push(t@),
            old(self)@.len() >= MAX_ACTIVE_TRANS ==> final(self)@ == old(self)@,
    {
        if self.data.len() < MAX_ACTIVE_TRANS {
            proof { lemma_comp_model_push(self.data@, t); }
            self.data.push(t);
        }
    }

    /// Removes and returns the top transformation, if any.
    pub fn pop(&mut self) -> (r: Option<Transformation>)
        requires
            old(self).wf(),
        ensures
            final(self).wf(),
            old(self)@.len() > 0 ==> r is Some && r->0@ == old(self)@.last() && final(self)@
                == old(self)@.drop_last(),
            old(self)@.len() == 0 ==> r is None && final(self)@ == old(self)@,
    {
        let ghost before = self.data@;
        let r = self.data.pop();
        proof {
            if before.len() > 0 {
                assert(before == self.data@.push(r->0));
                lemma_comp_model_push(self.data@, r->0);
            }
        }
        r
    }

    /// Empties the stack.
    pub fn clear(&mut self)
        ensures
            final(self).wf(),
            final(self)@ == Seq::<TransModel>::empty(),
    {
        self.data = Vec::new();
        assert(comp_model(self.data@) =~= Seq::<TransModel>::empty());
    }

    /// The number of transformations; never more than [`MAX_ACTIVE_TRANS`].
    pub fn len(&self) -> (r: usize)
        requires
            self.wf(),
        ensures
            r == self@.len(),
            r <= MAX_ACTIVE_TRANS,
    {
        self.data.len()
    }

    /// Whether the stack is empty.
    pub fn is_empty(&self) -> (r: bool)
        ensures
            r == (self@.len() == 0),
    {
        self.data.len() == 0
    }

    /// The transformations, bottom first.
    pub fn as_slice(&self) -> (r: &[Transformation])
        ensures
            comp_model(r@) == self@,
    {
        self.data.as_slice()
    }

    /// The transformations, bottom first, to change in place (the number of
    /// transformations cannot change through the slice).
    pub fn as_mut_slice(&mut self) -> (r: &mut [Transformation])
        requires
            old(self).wf(),
        ensures
            comp_model(r@) == old(self)@,
            final(self)@ == comp_model(final(r)@),
            final(self).wf() <==> final(r)@.len() <= MAX_ACTIVE_TRANS,
    {
        self.data.as_mut_slice()
    }

    /// Appends as many leading transformations of `other` as there is room for.
    pub fn extend_from_slice(&mut self, other: &[Transformation])
        requires
            old(self).wf(),
        ensures
            final(self).wf(),
            final(self)@ == old(self)@ + comp_model(other@).take(
                if other@.len() <= MAX_ACTIVE_TRANS - old(self)@.len() {
                    other@.len() as int
                } else {
                    MAX_ACTIVE_TRANS - old(self)@.len()
                },
            ),
    {
        let room = MAX_ACTIVE_TRANS - self.data.len();
        let to_copy = if other.len() < room { other.len() } else { room };
        let ghost start = comp_model(self.data@);
        let mut i: usize = 0;
        while i < to_copy
            invariant
                i <= to_copy,
                to_copy <= other@.len(),
                self.data@.len() == start.len() + i,
                start.len() + to_copy <= MAX_ACTIVE_TRANS,
                comp_model(self.data@) == start + comp_model(other@).take(i as int),
            decreases to_copy - i,
        {
            let c = clone_trans(&other[i]);
            proof { lemma_comp_model_push(self.data@, c); }
            self.data.push(c);
            assert(comp_model(other@).take(i + 1) =~= comp_model(other@).take(i as int).push(other@[i as int]@));
            assert(start + comp_model(other@).take(i + 1) =~= (start + comp_model(other@).take(i as int)).push(other@[i as int]@));
            i = i + 1;
        }
    }

    /// Moves the transformations from `start` on into `target` (which is emptied first).
    pub fn drain_to(&mut self, start: usize, target: &mut TransformationStack)
        requires
            old(self).wf(),
        ensures
            final(self).wf(),
            final(target).wf(),
            start < old(self)@.len() ==> final(target)@ == old(self)@.subrange(start as int, old(self)@.len() as int)
                && final(self)@ == old(self)@.take(start as int),
            start >= old(self)@.len() ==> final(target)@ == Seq::<TransModel>::empty() && final(self)@
                == old(self)@,
    {
        target.clear();
        if start < self.data.len() {
            let n = self.data.len();
            let moved = clone_range(self.data.as_slice(), start, n);
            target.extend_from_slice(moved.as_slice());
            assert(comp_model(moved@).take(moved@.len() as int) =~= comp_model(moved@));
            let ghost before = self.data@;
            self.data.truncate(start);
            proof {
                assert(self.data@ =~= before.take(start as int));
                assert(comp_model(before.take(start as int)) =~= comp_model(before).take(start as int));
            }
        }
    }
}

} // verus!
