//! Syllable analysis and the rules that decide what a keystroke does to the
//! composition: which letter a mark or tone goes on, whether the result is
//! valid spelling, and how to undo a transformation.
use vstd::prelude::*;
use crate::flattener::{apply_suffix, apply_effect_exec, spec_flatten, flatten_slice};
use crate::input_method::{lemma_rule_model_unfold, EffectType, RuleModel, Tone, tone_from_value};
use crate::spelling::{first8, is_valid_cvc_chars, spec_is_valid_cvc_chars};
use crate::text::{str_chars, str_eq};
use crate::transformation::{
    clone_trans, comp_model, lemma_comp_model_push, trans_eq, TransModel, Transformation,
    MAX_ACTIVE_TRANS,
};
use crate::utils::{add_tone_to_char, in_vowel_table, lower, spec_add_tone, spec_in_vowel_table, spec_lower};

verus! {

broadcast use lemma_rule_model_unfold;

/// Flag bit: tones may be typed at any point of the word.
pub const EFREE_TONE_MARKING: u32 = 1;
/// Flag bit: standard (new-style) tone placement.
pub const ESTD_TONE_STYLE: u32 = 2;
/// The parts of a syllable hold at most this many transformations each.
pub const MAX_CVC_PART: usize = 8;

/// Index sequences as integers.
pub open spec fn idx_view(v: Seq<usize>) -> Seq<int> {
    v.map_values(|x: usize| x as int)
}

/// Indices, among the first `n`, of the transformations without a target,
/// keeping at most [`MAX_ACTIVE_TRANS`] of them.
pub open spec fn app_upto(comp: Seq<TransModel>, n: int) -> Seq<int>
    decreases n,
{
    if n <= 0 || n > comp.len() {
        Seq::empty()
    } else if comp[n - 1].target is None && app_upto(comp, n - 1).len() < MAX_ACTIVE_TRANS {
        app_upto(comp, n - 1).push(n - 1)
    } else {
        app_upto(comp, n - 1)
    }
}

pub open spec fn app_indices(comp: Seq<TransModel>) -> Seq<int> {
    app_upto(comp, comp.len() as int)
}

/// The result letter of the `k`-th entry of `app`, `'\0'` past its end.
pub open spec fn res_at(comp: Seq<TransModel>, app: Seq<int>, k: int) -> char {
    if 0 <= k < app.len() {
        comp[app[k]].rule.result
    } else {
        '\0'
    }
}

/// Start of the trailing run of non-vowels among the first `idx` entries.
pub open spec fn lc_split(comp: Seq<TransModel>, app: Seq<int>, idx: int) -> int
    decreases idx,
{
    if idx > 0 && !spec_in_vowel_table(res_at(comp, app, idx - 1)) {
        lc_split(comp, app, idx - 1)
    } else {
        idx
    }
}

/// Start of the trailing run of vowels among the first `idx` entries.
pub open spec fn fc_split(comp: Seq<TransModel>, app: Seq<int>, idx: int) -> int
    decreases idx,
{
    if idx > 0 && spec_in_vowel_table(res_at(comp, app, idx - 1)) {
        fc_split(comp, app, idx - 1)
    } else {
        idx
    }
}

/// Splits the letters `app` of a syllable into first consonant, vowels and
/// last consonant (as index sequences), moving the `i` of `gi` and the `u`
/// of `qu` into the first consonant.
pub open spec fn spec_cvc_indices(comp: Seq<TransModel>, app: Seq<int>) -> (Seq<int>, Seq<int>, Seq<int>) {
    let h = lc_split(comp, app, app.len() as int);
    let head = app.take(h);
    let lc = app.skip(h);
    let f = fc_split(comp, app, h);
    let fc = head.take(f);
    let vo = head.skip(f);
    if fc.len() == 0 && vo.len() == 0 && lc.len() > 0 {
        (lc, Seq::empty(), Seq::empty())
    } else {
        let cond1 = fc.len() == 1 && vo.len() > 1 && (lc.len() == 0 || res_at(comp, app, 2) != 'e')
            && res_at(comp, app, 1) == 'i' && res_at(comp, app, fc[0]) == 'g';
        let cond2 = fc.len() == 1 && vo.len() > 0 && res_at(comp, app, fc[0]) == 'q' && res_at(comp, app, vo[0])
            == 'u';
        if cond1 || cond2 {
            (app.take(2), vo.skip(1), lc)
        } else {
            (fc, vo, lc)
        }
    }
}

proof fn lemma_lc_split_bounds(comp: Seq<TransModel>, app: Seq<int>, idx: int)
    requires
        0 <= idx,
    ensures
        0 <= lc_split(comp, app, idx) <= idx,
    decreases idx,
{
    if idx > 0 && !spec_in_vowel_table(res_at(comp, app, idx - 1)) {
        lemma_lc_split_bounds(comp, app, idx - 1);
    }
}

proof fn lemma_fc_split_bounds(comp: Seq<TransModel>, app: Seq<int>, idx: int)
    requires
        0 <= idx,
    ensures
        0 <= fc_split(comp, app, idx) <= idx,
    decreases idx,
{
    if idx > 0 && spec_in_vowel_table(res_at(comp, app, idx - 1)) {
        lemma_fc_split_bounds(comp, app, idx - 1);
    }
}

proof fn lemma_app_upto_bounds(comp: Seq<TransModel>, n: int)
    requires
        0 <= n <= comp.len(),
    ensures
        app_upto(comp, n).len() <= MAX_ACTIVE_TRANS,
        app_upto(comp, n).len() <= n,
        forall|k: int| 0 <= k < app_upto(comp, n).len() ==> 0 <= #[trigger] app_upto(comp, n)[k] < n,
    decreases n,
{
    if n > 0 {
        lemma_app_upto_bounds(comp, n - 1);
        let prev = app_upto(comp, n - 1);
        if comp[n - 1].target is None && prev.len() < MAX_ACTIVE_TRANS {
            assert forall|k: int| 0 <= k < prev.len() + 1 implies 0 <= #[trigger] prev.push(n - 1)[k] < n by {
                if k < prev.len() {
                    assert(prev.push(n - 1)[k] == prev[k]);
                }
            }
        }
    }
}

/// Whether every entry of `s` is a valid index of a sequence of length `len`.
pub open spec fn all_below(s: Seq<int>, len: int) -> bool {
    forall|k: int| 0 <= k < s.len() ==> 0 <= #[trigger] s[k] < len
}

pub proof fn lemma_cvc_indices_bounds(comp: Seq<TransModel>, app: Seq<int>)
    requires
        all_below(app, comp.len() as int),
    ensures
        all_below(spec_cvc_indices(comp, app).0, comp.len() as int),
        all_below(spec_cvc_indices(comp, app).1, comp.len() as int),
        all_below(spec_cvc_indices(comp, app).2, comp.len() as int),
{
    let h = lc_split(comp, app, app.len() as int);
    lemma_lc_split_bounds(comp, app, app.len() as int);
    lemma_fc_split_bounds(comp, app, h);
    let head = app.take(h);
    let f = fc_split(comp, app, h);
    let vo = head.skip(f);
    assert forall|k: int| 0 <= k < app.skip(h).len() implies 0 <= #[trigger] app.skip(h)[k] < comp.len() by {
        assert(app.skip(h)[k] == app[k + h]);
    }
    assert forall|k: int| 0 <= k < head.take(f).len() implies 0 <= #[trigger] head.take(f)[k] < comp.len() by {
        assert(head.take(f)[k] == app[k]);
    }
    assert forall|k: int| 0 <= k < vo.len() implies 0 <= #[trigger] vo[k] < comp.len() by {
        assert(vo[k] == app[k + f]);
    }
    assert forall|k: int| 0 <= k < vo.len() - 1 implies 0 <= #[trigger] vo.skip(1)[k] < comp.len() by {
        assert(vo.skip(1)[k] == vo[k + 1]);
    }
    if app.len() >= 2 {
        assert forall|k: int| 0 <= k < app.take(2).len() implies 0 <= #[trigger] app.take(2)[k] < comp.len() by {
            assert(app.take(2)[k] == app[k]);
        }
    }
}

fn app_indices_exec(comp: &[Transformation]) -> (r: Vec<usize>)
    ensures
        idx_view(r@) == app_indices(comp_model(comp@)),
        r@.len() <= MAX_ACTIVE_TRANS,
        forall|k: int| 0 <= k < r@.len() ==> #[trigger] r@[k] < comp@.len(),
{
    let ghost cm = comp_model(comp@);
    let mut out: Vec<usize> = Vec::new();
    let mut i: usize = 0;
    while i < comp.len()
        invariant
            cm == comp_model(comp@),
            i <= comp@.len(),
            idx_view(out@) == app_upto(cm, i as int),
            out@.len() <= MAX_ACTIVE_TRANS,
            forall|k: int| 0 <= k < out@.len() ==> #[trigger] out@[k] < i,
        decreases comp@.len() - i,
    {
        assert(cm[i as int] == comp@[i as int]@);
        if comp[i].target.is_none() && out.len() < MAX_ACTIVE_TRANS {
            let ghost before = out@;
            out.push(i);
            assert(idx_view(out@) =~= idx_view(before).push(i as int));
        }
        i = i + 1;
    }
    out
}

fn res_at_exec(comp: &[Transformation], app: &[usize], k: usize) -> (r: char)
    requires
        forall|j: int| 0 <= j < app@.len() ==> #[trigger] app@[j] < comp@.len(),
    ensures
        r == res_at(comp_model(comp@), idx_view(app@), k as int),
{
    if k < app.len() {
        assert(comp_model(comp@)[app@[k as int] as int] == comp@[app@[k as int] as int]@);
        comp[app[k]].rule.result
    } else {
        '\0'
    }
}

fn sub_vec(v: &[usize], from: usize, to: usize) -> (r: Vec<usize>)
    requires
        from <= to <= v@.len(),
    ensures
        r@ == v@.subrange(from as int, to as int),
{
    let mut out: Vec<usize> = Vec::new();
    let mut i = from;
    while i < to
        invariant
            from <= i <= to,
            to <= v@.len(),
            out@ == v@.subrange(from as int, i as int),
        decreases to - i,
    {
        out.push(v[i]);
        assert(v@.subrange(from as int, i + 1) =~= v@.subrange(from as int, i as int).push(v@[i as int]));
        i = i + 1;
    }
    out
}

/// Splits the letters of a syllable into first consonant, vowels and last consonant.
fn extract_cvc_appending_indices(comp: &[Transformation], app: &[usize]) -> (r: (Vec<usize>, Vec<usize>, Vec<usize>))
    requires
        forall|j: int| 0 <= j < app@.len() ==> #[trigger] app@[j] < comp@.len(),
    ensures
        (idx_view(r.0@), idx_view(r.1@), idx_view(r.2@)) == spec_cvc_indices(comp_model(comp@), idx_view(app@)),
{
    let ghost cm = comp_model(comp@);
    let ghost av = idx_view(app@);
    let mut h = app.len();
    while h > 0 && !in_vowel_table(res_at_exec(comp, app, h - 1))
        invariant
            h <= app@.len(),
            forall|j: int| 0 <= j < app@.len() ==> #[trigger] app@[j] < comp@.len(),
            lc_split(cm, av, app@.len() as int) == lc_split(cm, av, h as int),
            cm == comp_model(comp@),
            av == idx_view(app@),
        decreases h,
    {
        h = h - 1;
    }
    let mut f = h;
    while f > 0 && in_vowel_table(res_at_exec(comp, app, f - 1))
        invariant
            f <= h,
            h <= app@.len(),
            forall|j: int| 0 <= j < app@.len() ==> #[trigger] app@[j] < comp@.len(),
            fc_split(cm, av, h as int) == fc_split(cm, av, f as int),
            cm == comp_model(comp@),
            av == idx_view(app@),
        decreases f,
    {
        f = f - 1;
    }
    let fc = sub_vec(app, 0, f);
    let vo = sub_vec(app, f, h);
    let lc = sub_vec(app, h, app.len());
    assert(idx_view(fc@) =~= av.take(h as int).take(f as int));
    assert(idx_view(vo@) =~= av.take(h as int).skip(f as int));
    assert(idx_view(lc@) =~= av.skip(h as int));
    if fc.len() == 0 && vo.len() == 0 && lc.len() > 0 {
        return (lc, Vec::new(), Vec::new());
    }
    let cond1 = fc.len() == 1 && vo.len() > 1 && (lc.len() == 0 || res_at_exec(comp, app, 2) != 'e')
        && res_at_exec(comp, app, 1) == 'i' && res_at_exec(comp, app, fc[0]) == 'g';
    let cond2 = fc.len() == 1 && vo.len() > 0 && res_at_exec(comp, app, fc[0]) == 'q' && res_at_exec(comp, app, vo[0])
        == 'u';
    if cond1 || cond2 {
        let fc2 = sub_vec(app, 0, 2);
        let vo2 = sub_vec(vo.as_slice(), 1, vo.len());
        assert(idx_view(fc2@) =~= av.take(2));
        assert(idx_view(vo2@) =~= idx_view(vo@).skip(1));
        return (fc2, vo2, lc);
    }
    (fc, vo, lc)
}

// ---------------------------------------------------------------------------
// The parts of a syllable as transformations
// ---------------------------------------------------------------------------

/// Pushes `x` unless `s` already holds [`MAX_CVC_PART`] entries.
pub open spec fn push_part(s: Seq<TransModel>, x: TransModel) -> Seq<TransModel> {
    if s.len() < MAX_CVC_PART { s.push(x) } else { s }
}

/// The transformations at the first `n` indices of `idxs`, at most eight of them.
pub open spec fn gather(comp: Seq<TransModel>, idxs: Seq<int>, n: int) -> Seq<TransModel>
    decreases n,
{
    if n <= 0 || n > idxs.len() {
        Seq::empty()
    } else {
        push_part(gather(comp, idxs, n - 1), comp[idxs[n - 1]])
    }
}

/// The three parts of a syllable: each letter, then the transformations that target it.
pub struct CvcModel {
    pub fc: Seq<TransModel>,
    pub vo: Seq<TransModel>,
    pub lc: Seq<TransModel>,
}

/// Adds the first `n` transformations that target a letter of a part to that part.
pub open spec fn distribute(
    comp: Seq<TransModel>,
    fi: Seq<int>,
    vi: Seq<int>,
    li: Seq<int>,
    base: CvcModel,
    n: int,
) -> CvcModel
    decreases n,
{
    if n <= 0 || n > comp.len() {
        base
    } else {
        let prev = distribute(comp, fi, vi, li, base, n - 1);
        let t = comp[n - 1];
        match t.target {
            Some(tg) => {
                if fi.contains(tg as int) {
                    CvcModel { fc: push_part(prev.fc, t), ..prev }
                } else if vi.contains(tg as int) {
                    CvcModel { vo: push_part(prev.vo, t), ..prev }
                } else if li.contains(tg as int) {
                    CvcModel { lc: push_part(prev.lc, t), ..prev }
                } else {
                    prev
                }
            },
            None => prev,
        }
    }
}

/// The first consonant, vowel and last consonant parts of a syllable.
pub open spec fn spec_extract_cvc(comp: Seq<TransModel>) -> CvcModel {
    let (fi, vi, li) = spec_cvc_indices(comp, app_indices(comp));
    let base = CvcModel {
        fc: gather(comp, fi, fi.len() as int),
        vo: gather(comp, vi, vi.len() as int),
        lc: gather(comp, li, li.len() as int),
    };
    distribute(comp, fi, vi, li, base, comp.len() as int)
}

/// The parts of a syllable.
pub struct Cvc {
    /// Transformations in the first consonant part.
    pub fc: Vec<Transformation>,
    /// Transformations in the vowel part.
    pub vo: Vec<Transformation>,
    /// Transformations in the last consonant part.
    pub lc: Vec<Transformation>,
}

impl View for Cvc {
    type V = CvcModel;

    open spec fn view(&self) -> CvcModel {
        CvcModel { fc: comp_model(self.fc@), vo: comp_model(self.vo@), lc: comp_model(self.lc@) }
    }
}

impl Cvc {
    /// The transformations of the first consonant.
    pub fn fc_slice(&self) -> (r: &[Transformation])
        ensures
            comp_model(r@) == self@.fc,
    {
        self.fc.as_slice()
    }

    /// The transformations of the vowel part.
    pub fn vo_slice(&self) -> (r: &[Transformation])
        ensures
            comp_model(r@) == self@.vo,
    {
        self.vo.as_slice()
    }

    /// The transformations of the last consonant.
    pub fn lc_slice(&self) -> (r: &[Transformation])
        ensures
            comp_model(r@) == self@.lc,
    {
        self.lc.as_slice()
    }
}

fn push_part_exec(v: &mut Vec<Transformation>, t: &Transformation)
    ensures
        comp_model(final(v)@) == push_part(comp_model(old(v)@), t@),
{
    if v.len() < MAX_CVC_PART {
        let c = clone_trans(t);
        proof { lemma_comp_model_push(v@, c); }
        v.push(c);
    }
}

fn contains_idx(v: &[usize], x: usize) -> (r: bool)
    ensures
        r == idx_view(v@).contains(x as int),
{
    let mut i: usize = 0;
    while i < v.len()
        invariant
            i <= v@.len(),
            forall|j: int| 0 <= j < i ==> v@[j] != x,
        decreases v@.len() - i,
    {
        if v[i] == x {
            assert(idx_view(v@)[i as int] == x as int);
            return true;
        }
        i = i + 1;
    }
    assert forall|j: int| 0 <= j < idx_view(v@).len() implies idx_view(v@)[j] != x as int by {
        assert(v@[j] != x);
    }
    false
}

fn gather_exec(comp: &[Transformation], idxs: &[usize]) -> (r: Vec<Transformation>)
    requires
        forall|j: int| 0 <= j < idxs@.len() ==> #[trigger] idxs@[j] < comp@.len(),
    ensures
        comp_model(r@) == gather(comp_model(comp@), idx_view(idxs@), idxs@.len() as int),
{
    let mut out: Vec<Transformation> = Vec::new();
    let mut i: usize = 0;
    while i < idxs.len()
        invariant
            i <= idxs@.len(),
            forall|j: int| 0 <= j < idxs@.len() ==> #[trigger] idxs@[j] < comp@.len(),
            comp_model(out@) == gather(comp_model(comp@), idx_view(idxs@), i as int),
        decreases idxs@.len() - i,
    {
        assert(comp_model(comp@)[idxs@[i as int] as int] == comp@[idxs@[i as int] as int]@);
        push_part_exec(&mut out, &comp[idxs[i]]);
        i = i + 1;
    }
    out
}

/// Splits a syllable into its first consonant, vowel and last consonant parts.
pub fn extract_cvc_trans(comp: &[Transformation]) -> (r: Cvc)
    ensures
        r@ == spec_extract_cvc(comp_model(comp@)),
{
    let ghost cm = comp_model(comp@);
    let app = app_indices_exec(comp);
    let (fi, vi, li) = extract_cvc_appending_indices(comp, app.as_slice());
    proof {
        lemma_app_upto_bounds(cm, cm.len() as int);
        assert(all_below(idx_view(app@), cm.len() as int));
        lemma_cvc_indices_bounds(cm, idx_view(app@));
        assert forall|j: int| 0 <= j < fi@.len() implies #[trigger] fi@[j] < comp@.len() by {
            assert(idx_view(fi@)[j] == fi@[j] as int);
        }
        assert forall|j: int| 0 <= j < vi@.len() implies #[trigger] vi@[j] < comp@.len() by {
            assert(idx_view(vi@)[j] == vi@[j] as int);
        }
        assert forall|j: int| 0 <= j < li@.len() implies #[trigger] li@[j] < comp@.len() by {
            assert(idx_view(li@)[j] == li@[j] as int);
        }
    }
    let mut fc = gather_exec(comp, fi.as_slice());
    let mut vo = gather_exec(comp, vi.as_slice());
    let mut lc = gather_exec(comp, li.as_slice());
    let ghost base = CvcModel { fc: comp_model(fc@), vo: comp_model(vo@), lc: comp_model(lc@) };
    let mut i: usize = 0;
    while i < comp.len()
        invariant
            cm == comp_model(comp@),
            i <= comp@.len(),
            (CvcModel { fc: comp_model(fc@), vo: comp_model(vo@), lc: comp_model(lc@) }) == distribute(
                cm,
                idx_view(fi@),
                idx_view(vi@),
                idx_view(li@),
                base,
                i as int,
            ),
        decreases comp@.len() - i,
    {
        assert(cm[i as int] == comp@[i as int]@);
        match comp[i].target {
            Some(tg) => {
                if contains_idx(fi.as_slice(), tg) {
                    push_part_exec(&mut fc, &comp[i]);
                } else if contains_idx(vi.as_slice(), tg) {
                    push_part_exec(&mut vo, &comp[i]);
                } else if contains_idx(li.as_slice(), tg) {
                    push_part_exec(&mut lc, &comp[i]);
                }
            },
            None => {},
        }
        i = i + 1;
    }
    Cvc { fc, vo, lc }
}


// ---------------------------------------------------------------------------
// Tone placement and spelling validity
// ---------------------------------------------------------------------------

/// Index of the first transformation equal to `t`, from `i` on.
pub open spec fn position_from(comp: Seq<TransModel>, t: TransModel, i: int) -> Option<usize>
    decreases comp.len() - i,
{
    if i < 0 || i >= comp.len() {
        None
    } else if comp[i] == t {
        Some(i as usize)
    } else {
        position_from(comp, t, i + 1)
    }
}

pub open spec fn position(comp: Seq<TransModel>, t: TransModel) -> Option<usize> {
    position_from(comp, t, 0)
}

/// The position of `t`, or 0 when it does not occur.
pub open spec fn pos0(comp: Seq<TransModel>, t: TransModel) -> usize {
    match position(comp, t) {
        Some(i) => i,
        None => 0,
    }
}

/// The position of the first transformation equal to `t`.
fn position_exec(comp: &[Transformation], t: &Transformation) -> (r: Option<usize>)
    ensures
        r == position(comp_model(comp@), t@),
        r matches Some(p) ==> p < comp@.len(),
{
    let ghost cm = comp_model(comp@);
    let mut i: usize = 0;
    while i < comp.len()
        invariant
            cm == comp_model(comp@),
            i <= comp@.len(),
            position(cm, t@) == position_from(cm, t@, i as int),
        decreases comp@.len() - i,
    {
        assert(cm[i as int] == comp@[i as int]@);
        if trans_eq(&comp[i], t) {
            return Some(i);
        }
        i = i + 1;
    }
    None
}

fn pos0_exec(comp: &[Transformation], t: &Transformation) -> (r: usize)
    ensures
        r == pos0(comp_model(comp@), t@),
{
    match position_exec(comp, t) {
        Some(i) => i,
        None => 0,
    }
}

/// The transformations of the first `n` of `vo` that have no target, in order.
pub open spec fn app_vowels_upto(vo: Seq<TransModel>, n: int) -> Seq<TransModel>
    decreases n,
{
    if n <= 0 || n > vo.len() {
        Seq::empty()
    } else if vo[n - 1].target is None {
        app_vowels_upto(vo, n - 1).push(vo[n - 1])
    } else {
        app_vowels_upto(vo, n - 1)
    }
}

pub open spec fn app_vowels(vo: Seq<TransModel>) -> Seq<TransModel> {
    app_vowels_upto(vo, vo.len() as int)
}

/// Among the first `n` of `vo`, the last one whose result is `ơ` or `ê`: its
/// target, or its own position when it has none.
pub open spec fn std_pick(comp: Seq<TransModel>, vo: Seq<TransModel>, n: int) -> Option<usize>
    decreases n,
{
    if n <= 0 || n > vo.len() {
        None
    } else if vo[n - 1].rule.result == 'ơ' || vo[n - 1].rule.result == 'ê' {
        Some(
            match vo[n - 1].target {
                Some(t) => t,
                None => pos0(comp, vo[n - 1]),
            },
        )
    } else {
        std_pick(comp, vo, n - 1)
    }
}

/// Raw keys, lowercase, without tone or mark.
pub open spec fn bare_options() -> u32 {
    71
}

/// Where the tone of the syllable `comp` goes: the vowel letter that carries it.
pub open spec fn spec_find_tone_target(comp: Seq<TransModel>, std_style: bool) -> Option<usize> {
    if comp.len() == 0 {
        None
    } else {
        let cvc = spec_extract_cvc(comp);
        let av = app_vowels(cvc.vo);
        if av.len() == 1 {
            position(comp, av[0])
        } else if av.len() == 2 && std_style {
            match std_pick(comp, cvc.vo, cvc.vo.len() as int) {
                Some(t) => Some(t),
                None => Some(if cvc.lc.len() > 0 { pos0(comp, av[1]) } else { pos0(comp, av[0]) }),
            }
        } else if av.len() == 2 {
            if cvc.lc.len() > 0 {
                position(comp, av[1])
            } else {
                let s = spec_flatten(av, bare_options());
                Some(
                    if s == "oa"@ || s == "oe"@ || s == "uy"@ || s == "ue"@ || s == "uo"@ {
                        pos0(comp, av[1])
                    } else {
                        pos0(comp, av[0])
                    },
                )
            }
        } else if av.len() == 3 {
            Some(
                if spec_flatten(av, bare_options()) == "uye"@ {
                    pos0(comp, av[2])
                } else {
                    pos0(comp, av[1])
                },
            )
        } else {
            None
        }
    }
}

fn app_vowels_exec(vo: &[Transformation]) -> (r: Vec<Transformation>)
    ensures
        comp_model(r@) == app_vowels(comp_model(vo@)),
{
    let ghost vm = comp_model(vo@);
    let mut out: Vec<Transformation> = Vec::new();
    let mut i: usize = 0;
    while i < vo.len()
        invariant
            vm == comp_model(vo@),
            i <= vo@.len(),
            comp_model(out@) == app_vowels_upto(vm, i as int),
        decreases vo@.len() - i,
    {
        assert(vm[i as int] == vo@[i as int]@);
        if vo[i].target.is_none() {
            let c = clone_trans(&vo[i]);
            proof { lemma_comp_model_push(out@, c); }
            out.push(c);
        }
        i = i + 1;
    }
    out
}

/// Where the tone of the syllable `comp` goes.
pub fn find_tone_target(comp: &[Transformation], std_style: bool) -> (r: Option<usize>)
    ensures
        r == spec_find_tone_target(comp_model(comp@), std_style),
{
    let ghost cm = comp_model(comp@);
    if comp.len() == 0 {
        return None;
    }
    let cvc = extract_cvc_trans(comp);
    let av = app_vowels_exec(cvc.vo.as_slice());
    if av.len() == 1 {
        return position_exec(comp, &av[0]);
    }
    if av.len() == 2 && std_style {
        let ghost vm = comp_model(cvc.vo@);
        let mut target: Option<usize> = None;
        let mut i: usize = 0;
        while i < cvc.vo.len()
            invariant
                vm == comp_model(cvc.vo@),
                cm == comp_model(comp@),
                i <= cvc.vo@.len(),
                target == std_pick(cm, vm, i as int),
            decreases cvc.vo@.len() - i,
        {
            let t = &cvc.vo[i];
            assert(vm[i as int] == cvc.vo@[i as int]@);
            if t.rule.result == 'ơ' || t.rule.result == 'ê' {
                target = Some(
                    match t.target {
                        Some(x) => x,
                        None => pos0_exec(comp, t),
                    },
                );
            }
            i = i + 1;
        }
        if target.is_none() {
            target = Some(if cvc.lc.len() > 0 { pos0_exec(comp, &av[1]) } else { pos0_exec(comp, &av[0]) });
        }
        return target;
    }
    if av.len() == 2 {
        if cvc.lc.len() > 0 {
            return position_exec(comp, &av[1]);
        }
        let s = flatten_slice(av.as_slice(), 71);
        let ss = s.as_str();
        if str_eq(ss, "oa") || str_eq(ss, "oe") || str_eq(ss, "uy") || str_eq(ss, "ue") || str_eq(ss, "uo") {
            return Some(pos0_exec(comp, &av[1]));
        } else {
            return Some(pos0_exec(comp, &av[0]));
        }
    }
    if av.len() == 3 {
        let s = flatten_slice(av.as_slice(), 71);
        if str_eq(s.as_str(), "uye") {
            return Some(pos0_exec(comp, &av[2]));
        } else {
            return Some(pos0_exec(comp, &av[1]));
        }
    }
    None
}

/// The first position from `i` on of a transformation equal to `t`, when
/// there is one, holds `t`.
proof fn lemma_position_from_finds(comp: Seq<TransModel>, t: TransModel, i: int, j: int)
    requires
        0 <= i <= j < comp.len(),
        comp.len() <= usize::MAX,
        comp[j] == t,
    ensures
        position_from(comp, t, i) matches Some(p) && i <= p <= j && comp[p as int] == t,
    decreases j - i,
{
    if comp[i] != t {
        lemma_position_from_finds(comp, t, i + 1, j);
    }
}

/// With three vowels typed one after the other (`oai`, `uôi`, `iêu`, `ươi`,
/// ...), the tone goes on the middle one, whatever the tone style; only `uyê`
/// takes it on its last vowel. The position is that of the vowel in the
/// syllable: where the vowel occurs there, the transformation at that
/// position is it.
pub proof fn lemma_tone_on_middle_of_three(comp: Seq<TransModel>, std_style: bool)
    requires
        app_vowels(spec_extract_cvc(comp).vo).len() == 3,
    ensures
        ({
            let av = app_vowels(spec_extract_cvc(comp).vo);
            let mid = if spec_flatten(av, bare_options()) == "uye"@ { av[2] } else { av[1] };
            &&& spec_find_tone_target(comp, std_style) == Some(pos0(comp, mid))
            &&& comp.len() <= usize::MAX && (exists|j: int| 0 <= j < comp.len() && comp[j] == mid) ==> comp[pos0(comp, mid) as int] == mid
        }),
{
    let av = app_vowels(spec_extract_cvc(comp).vo);
    let mid = if spec_flatten(av, bare_options()) == "uye"@ { av[2] } else { av[1] };
    if comp.len() <= usize::MAX && exists|j: int| 0 <= j < comp.len() && comp[j] == mid {
        let j = choose|j: int| 0 <= j < comp.len() && comp[j] == mid;
        lemma_position_from_finds(comp, mid, 0, j);
    }
}

/// Where the tone goes with one or two vowels typed one after the other: a
/// lone vowel takes it; of two, in the old style, the second takes it when a
/// last consonant follows (`hoàng`) or when they are `oa`, `oe`, `uy`, `ue` or
/// `uo` (`hoà`), and the first otherwise (`mùa`); in the new style a vowel
/// `ơ` or `ê` takes it first, and failing one the second vowel with a last
/// consonant, the first without.
pub proof fn lemma_tone_on_one_or_two(comp: Seq<TransModel>, std_style: bool)
    requires
        comp.len() > 0,
        1 <= app_vowels(spec_extract_cvc(comp).vo).len() <= 2,
    ensures
        ({
            let cvc = spec_extract_cvc(comp);
            let av = app_vowels(cvc.vo);
            let s = spec_flatten(av, bare_options());
            let closed = cvc.lc.len() > 0;
            let second = closed || s == "oa"@ || s == "oe"@ || s == "uy"@ || s == "ue"@ || s == "uo"@;
            &&& av.len() == 1 ==> spec_find_tone_target(comp, std_style) == position(comp, av[0])
            &&& av.len() == 2 && !std_style && closed ==> spec_find_tone_target(comp, std_style) == position(comp, av[1])
            &&& av.len() == 2 && !std_style && !closed ==> spec_find_tone_target(comp, std_style) == Some(
                pos0(comp, if second { av[1] } else { av[0] }),
            )
            &&& av.len() == 2 && std_style ==> spec_find_tone_target(comp, std_style) == Some(
                match std_pick(comp, cvc.vo, cvc.vo.len() as int) {
                    Some(t) => t,
                    None => pos0(comp, if closed { av[1] } else { av[0] }),
                },
            )
        }),
{
}

/// A syllable with no vowel typed on its own, or with more than three, has no
/// letter for the tone.
pub proof fn lemma_no_tone_target(comp: Seq<TransModel>, std_style: bool)
    requires
        app_vowels(spec_extract_cvc(comp).vo).len() == 0 || app_vowels(spec_extract_cvc(comp).vo).len() > 3,
    ensures
        spec_find_tone_target(comp, std_style) is None,
{
}

/// Whether the syllable can carry `tone`: the grave, hook and tilde tones
/// cannot go on a syllable ending in `c`, `k`, `p`, `t` or `ch`.
pub open spec fn spec_has_valid_tone(comp: Seq<TransModel>, tone: Tone) -> bool {
    if tone == Tone::Unmarked || tone == Tone::Acute || tone == Tone::Dot {
        true
    } else if comp.len() == 0 {
        true
    } else {
        let cvc = spec_extract_cvc(comp);
        if cvc.lc.len() == 0 {
            true
        } else {
            let s = spec_flatten(cvc.lc, 68);
            !(s == "c"@ || s == "k"@ || s == "p"@ || s == "t"@ || s == "ch"@)
        }
    }
}

pub fn has_valid_tone(comp: &[Transformation], tone: Tone) -> (r: bool)
    ensures
        r == spec_has_valid_tone(comp_model(comp@), tone),
{
    if tone == Tone::Unmarked || tone == Tone::Acute || tone == Tone::Dot {
        return true;
    }
    if comp.len() == 0 {
        return true;
    }
    let cvc = extract_cvc_trans(comp);
    if cvc.lc.len() == 0 {
        return true;
    }
    let s = flatten_slice(cvc.lc.as_slice(), 68);
    let ss = s.as_str();
    !(str_eq(ss, "c") || str_eq(ss, "k") || str_eq(ss, "p") || str_eq(ss, "t") || str_eq(ss, "ch"))
}

/// Index of the last transformation, among the first `n`, that satisfies the
/// tone test: a tone transformation (with a target, when `need_target`).
pub open spec fn last_tone_upto(comp: Seq<TransModel>, need_target: bool, n: int) -> Option<int>
    decreases n,
{
    if n <= 0 || n > comp.len() {
        None
    } else if comp[n - 1].rule.effect_type == EffectType::ToneTransformation && (!need_target
        || comp[n - 1].target is Some) {
        Some(n - 1)
    } else {
        last_tone_upto(comp, need_target, n - 1)
    }
}

pub open spec fn last_tone(comp: Seq<TransModel>, need_target: bool) -> Option<int> {
    last_tone_upto(comp, need_target, comp.len() as int)
}

proof fn lemma_last_tone_bounds(comp: Seq<TransModel>, need_target: bool, n: int)
    requires
        0 <= n <= comp.len(),
    ensures
        last_tone_upto(comp, need_target, n) matches Some(i) ==> 0 <= i < n,
    decreases n,
{
    if n > 0 {
        lemma_last_tone_bounds(comp, need_target, n - 1);
    }
}

fn last_tone_exec(comp: &[Transformation], need_target: bool) -> (r: Option<usize>)
    ensures
        match r {
            Some(i) => last_tone(comp_model(comp@), need_target) == Some(i as int) && i < comp@.len(),
            None => last_tone(comp_model(comp@), need_target) is None,
        },
{
    let ghost cm = comp_model(comp@);
    let mut n = comp.len();
    while n > 0
        invariant
            cm == comp_model(comp@),
            n <= comp@.len(),
            last_tone(cm, need_target) == last_tone_upto(cm, need_target, n as int),
        decreases n,
    {
        assert(cm[n - 1] == comp@[n - 1]@);
        if comp[n - 1].rule.effect_type == EffectType::ToneTransformation && (!need_target || comp[n
            - 1].target.is_some()) {
            return Some(n - 1);
        }
        n = n - 1;
    }
    None
}

/// The letter of transformation `k` with every mark and tone that targets it applied.
pub open spec fn resolved(comp: Seq<TransModel>, k: int) -> char {
    apply_suffix(comp[k].rule.effect_on, comp, k, comp[k].rule.key, 0, comp.len() as int)
}

/// The letters of the indices `idxs`, without tone and lowercase.
pub open spec fn part_chars(comp: Seq<TransModel>, idxs: Seq<int>) -> Seq<char> {
    Seq::new(idxs.len(), |j: int| spec_lower(spec_add_tone(resolved(comp, idxs[j]), 0)))
}

/// Whether the syllable `comp` is valid Vietnamese: its last tone fits the
/// ending, and its letters spell a valid syllable (`full`: a complete one).
pub open spec fn spec_is_valid(comp: Seq<TransModel>, full: bool) -> bool {
    if comp.len() <= 1 {
        true
    } else if last_tone(comp, false) matches Some(i) && !spec_has_valid_tone(
        comp,
        tone_from_value(comp[i].rule.effect),
    ) {
        false
    } else if comp.len() <= MAX_ACTIVE_TRANS {
        let (fi, vi, li) = spec_cvc_indices(comp, app_indices(comp));
        spec_is_valid_cvc_chars(part_chars(comp, fi), part_chars(comp, vi), part_chars(comp, li), full)
    } else {
        let cvc = spec_extract_cvc(comp);
        spec_is_valid_cvc_chars(
            first8(spec_flatten(cvc.fc, 5)),
            first8(spec_flatten(cvc.vo, 5)),
            first8(spec_flatten(cvc.lc, 5)),
            full,
        )
    }
}

fn resolved_exec(comp: &[Transformation], k: usize) -> (r: char)
    requires
        k < comp@.len(),
    ensures
        r == resolved(comp_model(comp@), k as int),
{
    let ghost cm = comp_model(comp@);
    let key = comp[k].rule.key;
    let mut c = comp[k].rule.effect_on;
    let mut j: usize = 0;
    while j < comp.len()
        invariant
            cm == comp_model(comp@),
            j <= comp@.len(),
            k < comp@.len(),
            key == cm[k as int].rule.key,
            c == apply_suffix(cm[k as int].rule.effect_on, cm, k as int, key, 0, j as int),
        decreases comp@.len() - j,
    {
        assert(cm[j as int] == comp@[j as int]@);
        if comp[j].target == Some(k) {
            c = apply_effect_exec(c, &comp[j], key);
        }
        j = j + 1;
    }
    c
}

fn part_chars_exec(comp: &[Transformation], idxs: &[usize]) -> (r: Vec<char>)
    requires
        forall|j: int| 0 <= j < idxs@.len() ==> #[trigger] idxs@[j] < comp@.len(),
    ensures
        r@ == part_chars(comp_model(comp@), idx_view(idxs@)),
{
    let mut out: Vec<char> = Vec::new();
    let mut i: usize = 0;
    while i < idxs.len()
        invariant
            i <= idxs@.len(),
            forall|j: int| 0 <= j < idxs@.len() ==> #[trigger] idxs@[j] < comp@.len(),
            out@ == part_chars(comp_model(comp@), idx_view(idxs@)).take(i as int),
        decreases idxs@.len() - i,
    {
        let c = lower(add_tone_to_char(resolved_exec(comp, idxs[i]), 0));
        out.push(c);
        assert(part_chars(comp_model(comp@), idx_view(idxs@)).take(i + 1) =~= part_chars(
            comp_model(comp@),
            idx_view(idxs@),
        ).take(i as int).push(c));
        i = i + 1;
    }
    assert(part_chars(comp_model(comp@), idx_view(idxs@)).take(idxs@.len() as int) =~= part_chars(
        comp_model(comp@),
        idx_view(idxs@),
    ));
    out
}

fn first8_chars(s: &String) -> (r: Vec<char>)
    ensures
        r@ == first8(s@),
{
    let cs = str_chars(s.as_str());
    let mut out: Vec<char> = Vec::new();
    let mut i: usize = 0;
    while i < cs.len() && i < 8
        invariant
            cs@ == s@,
            i <= cs@.len(),
            i <= 8,
            out@ == cs@.take(i as int),
        decreases cs@.len() - i,
    {
        out.push(cs[i]);
        assert(cs@.take(i + 1) =~= cs@.take(i as int).push(cs@[i as int]));
        i = i + 1;
    }
    assert(cs@.len() <= 8 ==> cs@.take(cs@.len() as int) =~= cs@);
    out
}

fn tone_of_effect(effect: u8) -> (r: Tone)
    ensures
        r == tone_from_value(effect),
{
    if effect == 1 {
        Tone::Grave
    } else if effect == 2 {
        Tone::Acute
    } else if effect == 3 {
        Tone::Hook
    } else if effect == 4 {
        Tone::Tilde
    } else if effect == 5 {
        Tone::Dot
    } else {
        Tone::Unmarked
    }
}

/// Whether the syllable `comp` is valid Vietnamese spelling.
pub fn is_valid(comp: &[Transformation], input_is_full_complete: bool) -> (r: bool)
    ensures
        r == spec_is_valid(comp_model(comp@), input_is_full_complete),
{
    let ghost cm = comp_model(comp@);
    if comp.len() <= 1 {
        return true;
    }
    match last_tone_exec(comp, false) {
        Some(i) => {
            assert(cm[i as int] == comp@[i as int]@);
            if !has_valid_tone(comp, tone_of_effect(comp[i].rule.effect)) {
                return false;
            }
        },
        None => {},
    }
    if comp.len() <= MAX_ACTIVE_TRANS {
        let app = app_indices_exec(comp);
        let (fi, vi, li) = extract_cvc_appending_indices(comp, app.as_slice());
        proof {
            lemma_app_upto_bounds(cm, cm.len() as int);
            assert(all_below(idx_view(app@), cm.len() as int));
            lemma_cvc_indices_bounds(cm, idx_view(app@));
            assert forall|j: int| 0 <= j < fi@.len() implies #[trigger] fi@[j] < comp@.len() by {
                assert(idx_view(fi@)[j] == fi@[j] as int);
            }
            assert forall|j: int| 0 <= j < vi@.len() implies #[trigger] vi@[j] < comp@.len() by {
                assert(idx_view(vi@)[j] == vi@[j] as int);
            }
            assert forall|j: int| 0 <= j < li@.len() implies #[trigger] li@[j] < comp@.len() by {
                assert(idx_view(li@)[j] == li@[j] as int);
            }
        }
        let fcs = part_chars_exec(comp, fi.as_slice());
        let vos = part_chars_exec(comp, vi.as_slice());
        let lcs = part_chars_exec(comp, li.as_slice());
        return is_valid_cvc_chars(fcs.as_slice(), vos.as_slice(), lcs.as_slice(), input_is_full_complete);
    }
    let cvc = extract_cvc_trans(comp);
    let f = first8_chars(&flatten_slice(cvc.fc.as_slice(), 5));
    let v = first8_chars(&flatten_slice(cvc.vo.as_slice(), 5));
    let l = first8_chars(&flatten_slice(cvc.lc.as_slice(), 5));
    is_valid_cvc_chars(f.as_slice(), v.as_slice(), l.as_slice(), input_is_full_complete)
}


// ---------------------------------------------------------------------------
// Where a new mark or tone goes
// ---------------------------------------------------------------------------

/// Follows targets from `t`, at most `fuel` steps, until a transformation without target.
pub open spec fn root_from(comp: Seq<TransModel>, t: int, fuel: nat) -> int
    decreases fuel,
{
    if fuel == 0 || t < 0 || t >= comp.len() {
        t
    } else {
        match comp[t].target {
            None => t,
            Some(n) => root_from(comp, n as int, (fuel - 1) as nat),
        }
    }
}

/// The letter that transformation `t` ultimately acts on.
pub open spec fn root(comp: Seq<TransModel>, t: int) -> int {
    root_from(comp, t, comp.len())
}

proof fn lemma_root_from_nonneg(comp: Seq<TransModel>, t: int, fuel: nat)
    requires
        0 <= t,
    ensures
        0 <= root_from(comp, t, fuel),
    decreases fuel,
{
    if fuel > 0 && t < comp.len() {
        match comp[t].target {
            None => {},
            Some(n) => lemma_root_from_nonneg(comp, n as int, (fuel - 1) as nat),
        }
    }
}

fn find_root_target(comp: &[Transformation], target: usize) -> (r: usize)
    ensures
        r as int == root(comp_model(comp@), target as int),
{
    let ghost cm = comp_model(comp@);
    let mut t = target;
    let mut fuel = comp.len();
    while fuel > 0 && t < comp.len() && comp[t].target.is_some()
        invariant
            cm == comp_model(comp@),
            fuel <= comp@.len(),
            root(cm, target as int) == root_from(cm, t as int, fuel as nat),
        decreases fuel,
    {
        assert(cm[t as int] == comp@[t as int]@);
        t = comp[t].target.unwrap();
        fuel = fuel - 1;
    }
    proof {
        if fuel > 0 && t < comp.len() {
            assert(cm[t as int] == comp@[t as int]@);
        }
    }
    t
}

/// The first transformation from `i` on that targets `ti` with effect type `et`.
pub open spec fn first_same_type(comp: Seq<TransModel>, ti: int, et: EffectType, i: int) -> Option<int>
    decreases comp.len() - i,
{
    if i < 0 || i >= comp.len() {
        None
    } else if comp[i].target == Some(ti as usize) && comp[i].rule.effect_type == et {
        Some(i)
    } else {
        first_same_type(comp, ti, et, i + 1)
    }
}

proof fn lemma_first_same_type_bounds(comp: Seq<TransModel>, ti: int, et: EffectType, i: int)
    requires
        0 <= i,
    ensures
        first_same_type(comp, ti, et, i) matches Some(j) ==> i <= j < comp.len(),
    decreases comp.len() - i,
{
    if i < comp.len() && !(comp[i].target == Some(ti as usize) && comp[i].rule.effect_type == et) {
        lemma_first_same_type_bounds(comp, ti, et, i + 1);
    }
}

/// Whether applying rule `r` to transformation `ti` would change the text:
/// when some transformation of the same effect type already acts on `ti`,
/// whether it has a different effect; otherwise whether the letter that `ti`
/// acts on changes.
pub open spec fn spec_is_effective(comp: Seq<TransModel>, ti: int, r: RuleModel) -> bool {
    match first_same_type(comp, ti, r.effect_type, 0) {
        Some(j) => comp[j].rule.effect != r.effect,
        None => {
            let a = root(comp, ti);
            if a < 0 || a >= comp.len() {
                false
            } else {
                let cur = resolved(comp, a);
                crate::flattener::apply_rule_effect(cur, r, comp[a].rule.key) != cur
            }
        },
    }
}

fn is_effective(comp: &[Transformation], target_idx: usize, new_rule: &crate::input_method::Rule) -> (r: bool)
    ensures
        r == spec_is_effective(comp_model(comp@), target_idx as int, new_rule@),
{
    let ghost cm = comp_model(comp@);
    let mut i: usize = 0;
    while i < comp.len()
        invariant
            cm == comp_model(comp@),
            i <= comp@.len(),
            first_same_type(cm, target_idx as int, new_rule@.effect_type, 0) == first_same_type(
                cm,
                target_idx as int,
                new_rule@.effect_type,
                i as int,
            ),
        decreases comp@.len() - i,
    {
        assert(cm[i as int] == comp@[i as int]@);
        if comp[i].target == Some(target_idx) && comp[i].rule.effect_type == new_rule.effect_type {
            return comp[i].rule.effect != new_rule.effect;
        }
        i = i + 1;
    }
    let a = find_root_target(comp, target_idx);
    if a >= comp.len() {
        return false;
    }
    let cur = resolved_exec(comp, a);
    assert(cm[a as int] == comp@[a as int]@);
    let next = crate::flattener::apply_rule_effect_exec(cur, new_rule, comp[a].rule.key);
    next != cur
}

/// Whether no transformation of effect type `et` targets `idx`.
pub open spec fn spec_is_free(comp: Seq<TransModel>, idx: int, et: EffectType) -> bool {
    forall|j: int|
        0 <= j < comp.len() ==> !((#[trigger] comp[j]).target == Some(idx as usize) && comp[j].rule.effect_type == et)
}

fn is_free(comp: &[Transformation], trans_idx: usize, effect_type: EffectType) -> (r: bool)
    ensures
        r == spec_is_free(comp_model(comp@), trans_idx as int, effect_type),
{
    let ghost cm = comp_model(comp@);
    let mut i: usize = 0;
    while i < comp.len()
        invariant
            cm == comp_model(comp@),
            i <= comp@.len(),
            forall|j: int| 0 <= j < i ==> !((#[trigger] cm[j]).target == Some(trans_idx) && cm[j].rule.effect_type == effect_type),
        decreases comp@.len() - i,
    {
        assert(cm[i as int] == comp@[i as int]@);
        if comp[i].target == Some(trans_idx) && comp[i].rule.effect_type == effect_type {
            return false;
        }
        i = i + 1;
    }
    true
}

/// Index of the last appending transformation among the first `n`.
pub open spec fn last_appending_upto(comp: Seq<TransModel>, n: int) -> Option<int>
    decreases n,
{
    if n <= 0 || n > comp.len() {
        None
    } else if comp[n - 1].rule.effect_type == EffectType::Appending {
        Some(n - 1)
    } else {
        last_appending_upto(comp, n - 1)
    }
}

pub open spec fn last_appending(comp: Seq<TransModel>) -> Option<int> {
    last_appending_upto(comp, comp.len() as int)
}

/// Index of the last appending transformation of the composition.
pub fn find_last_appending_trans_idx(comp: &[Transformation]) -> (r: Option<usize>)
    ensures
        match r {
            Some(i) => last_appending(comp_model(comp@)) == Some(i as int) && i < comp@.len(),
            None => last_appending(comp_model(comp@)) is None,
        },
{
    let ghost cm = comp_model(comp@);
    let mut n = comp.len();
    while n > 0
        invariant
            cm == comp_model(comp@),
            n <= comp@.len(),
            last_appending(cm) == last_appending_upto(cm, n as int),
        decreases n,
    {
        assert(cm[n - 1] == comp@[n - 1]@);
        if comp[n - 1].rule.effect_type == EffectType::Appending {
            return Some(n - 1);
        }
        n = n - 1;
    }
    None
}

/// The transformation appended last, if any.
pub fn find_last_appending_trans(comp: &[Transformation]) -> (r: Option<Transformation>)
    ensures
        match r {
            Some(t) => last_appending(comp_model(comp@)) matches Some(i) && t@ == comp_model(comp@)[i],
            None => last_appending(comp_model(comp@)) is None,
        },
{
    match find_last_appending_trans_idx(comp) {
        Some(i) => {
            assert(comp_model(comp@)[i as int] == comp@[i as int]@);
            Some(clone_trans(&comp[i]))
        },
        None => None,
    }
}

/// The composition followed by one more transformation.
pub open spec fn with_trans(comp: Seq<TransModel>, r: RuleModel, target: Option<usize>, up: bool) -> Seq<TransModel> {
    comp.push(TransModel { rule: r, target, is_upper_case: up })
}

/// Whether mark rule `rules[ri]` applies to the letter of transformation `idx`.
pub open spec fn mark_cond(comp: Seq<TransModel>, rules: Seq<RuleModel>, idx: int, ri: int) -> bool {
    let r = rules[ri];
    &&& r.effect_type == EffectType::MarkTransformation
    &&& comp[idx].rule.result == r.effect_on
    &&& r.effect > 0
    &&& spec_is_effective(comp, root(comp, idx), r)
    &&& spec_is_valid(with_trans(comp, r, Some(root(comp, idx) as usize), false), false)
}

pub open spec fn mark_inner(comp: Seq<TransModel>, rules: Seq<RuleModel>, idx: int, ri: int) -> Option<(usize, int)>
    decreases rules.len() - ri,
{
    if ri < 0 || ri >= rules.len() {
        None
    } else if mark_cond(comp, rules, idx, ri) {
        Some((root(comp, idx) as usize, ri))
    } else {
        mark_inner(comp, rules, idx, ri + 1)
    }
}

pub open spec fn mark_outer(comp: Seq<TransModel>, rules: Seq<RuleModel>, n: int) -> Option<(usize, int)>
    decreases n,
{
    if n <= 0 || n > comp.len() {
        None
    } else {
        match mark_inner(comp, rules, n - 1, 0) {
            Some(x) => Some(x),
            None => mark_outer(comp, rules, n - 1),
        }
    }
}

/// The first (latest letter, then first rule) mark rule that changes a
/// letter and keeps the syllable valid: its target and the rule's index.
pub open spec fn spec_find_mark_target(comp: Seq<TransModel>, rules: Seq<RuleModel>) -> Option<(usize, int)> {
    mark_outer(comp, rules, comp.len() as int)
}

fn with_trans_exec(comp: &[Transformation], r: &crate::input_method::Rule, target: Option<usize>, up: bool) -> (v: Vec<Transformation>)
    ensures
        comp_model(v@) == with_trans(comp_model(comp@), r@, target, up),
{
    let mut v = crate::transformation::clone_comp(comp);
    let t = Transformation { rule: crate::input_method::clone_rule(r), target, is_upper_case: up };
    proof { lemma_comp_model_push(v@, t); }
    v.push(t);
    v
}

fn find_mark_target(comp: &[Transformation], rules: &[crate::input_method::Rule]) -> (r: Option<(usize, usize)>)
    ensures
        match r {
            Some((t, ri)) => spec_find_mark_target(comp_model(comp@), crate::input_method::rules_model(rules@))
                == Some((t, ri as int)),
            None => spec_find_mark_target(comp_model(comp@), crate::input_method::rules_model(rules@)) is None,
        },
{
    let ghost cm = comp_model(comp@);
    let ghost rm = crate::input_method::rules_model(rules@);
    proof { crate::input_method::lemma_rules_model_index(rules@); }
    let mut n = comp.len();
    while n > 0
        invariant
            cm == comp_model(comp@),
            rm == crate::input_method::rules_model(rules@),
            rm.len() == rules@.len(),
            forall|k: int| 0 <= k < rules@.len() ==> #[trigger] rm[k] == rules@[k]@,
            n <= comp@.len(),
            spec_find_mark_target(cm, rm) == mark_outer(cm, rm, n as int),
        decreases n,
    {
        let idx = n - 1;
        let mut ri: usize = 0;
        while ri < rules.len()
            invariant
                cm == comp_model(comp@),
                rm == crate::input_method::rules_model(rules@),
                rm.len() == rules@.len(),
                forall|k: int| 0 <= k < rules@.len() ==> #[trigger] rm[k] == rules@[k]@,
                idx < comp@.len(),
                idx + 1 == n,
                n <= comp@.len(),
                spec_find_mark_target(cm, rm) == mark_outer(cm, rm, n as int),
                ri <= rules@.len(),
                mark_inner(cm, rm, idx as int, 0) == mark_inner(cm, rm, idx as int, ri as int),
            decreases rules@.len() - ri,
        {
            let rule = &rules[ri];
            assert(rm[ri as int] == rule@);
            assert(cm[idx as int] == comp@[idx as int]@);
            if rule.effect_type == EffectType::MarkTransformation && comp[idx].rule.result == rule.effect_on
                && rule.effect > 0 {
                let target = find_root_target(comp, idx);
                if is_effective(comp, target, rule) {
                    let tmp = with_trans_exec(comp, rule, Some(target), false);
                    proof { lemma_root_from_nonneg(cm, idx as int, cm.len()); }
                    if is_valid(tmp.as_slice(), false) {
                        assert(root(cm, idx as int) as usize == target);
                        assert(mark_cond(cm, rm, idx as int, ri as int));
                        return Some((target, ri));
                    }
                }
            }
            ri = ri + 1;
        }
        n = n - 1;
    }
    None
}

pub open spec fn flag_set(flags: u32, bit: u32) -> bool {
    flags & bit != 0
}

/// The letter a tone rule `r` would go on.
pub open spec fn tone_rule_target(comp: Seq<TransModel>, r: RuleModel, flags: u32) -> Option<usize> {
    if flag_set(flags, EFREE_TONE_MARKING) {
        if spec_has_valid_tone(comp, tone_from_value(r.effect)) {
            spec_find_tone_target(comp, flag_set(flags, ESTD_TONE_STYLE))
        } else {
            None
        }
    } else {
        match last_appending(comp) {
            Some(j) => if spec_in_vowel_table(comp[j].rule.effect_on) {
                position(comp, comp[j])
            } else {
                None
            },
            None => None,
        }
    }
}

fn tone_rule_target_exec(comp: &[Transformation], r: &crate::input_method::Rule, flags: u32) -> (res: Option<usize>)
    ensures
        res == tone_rule_target(comp_model(comp@), r@, flags),
{
    if flags & EFREE_TONE_MARKING != 0 {
        if has_valid_tone(comp, tone_of_effect(r.effect)) {
            find_tone_target(comp, flags & ESTD_TONE_STYLE != 0)
        } else {
            None
        }
    } else {
        match find_last_appending_trans_idx(comp) {
            Some(j) => {
                assert(comp_model(comp@)[j as int] == comp@[j as int]@);
                if in_vowel_table(comp[j].rule.effect_on) {
                    position_exec(comp, &comp[j])
                } else {
                    None
                }
            },
            None => None,
        }
    }
}

/// The first tone rule (from rule `ri` on) with a target it changes; failing
/// that, the mark target.
pub open spec fn target_from(comp: Seq<TransModel>, rules: Seq<RuleModel>, flags: u32, ri: int) -> Option<(usize, int)>
    decreases rules.len() - ri,
{
    if ri < 0 || ri >= rules.len() {
        spec_find_mark_target(comp, rules)
    } else if rules[ri].effect_type != EffectType::ToneTransformation {
        target_from(comp, rules, flags, ri + 1)
    } else {
        match tone_rule_target(comp, rules[ri], flags) {
            None => target_from(comp, rules, flags, ri + 1),
            Some(t) => {
                if t >= comp.len() || !spec_is_effective(comp, t as int, rules[ri]) {
                    target_from(comp, rules, flags, ri + 1)
                } else if rules[ri].effect == 0 && spec_is_free(comp, t as int, EffectType::ToneTransformation)
                    && spec_add_tone(comp[t as int].rule.result, 0) == comp[t as int].rule.result {
                    target_from(comp, rules, flags, ri + 1)
                } else {
                    Some((t, ri))
                }
            },
        }
    }
}

/// Which rule a keystroke applies, and to which transformation.
pub open spec fn spec_find_target(comp: Seq<TransModel>, rules: Seq<RuleModel>, flags: u32) -> Option<(usize, int)> {
    target_from(comp, rules, flags, 0)
}

/// Finds the target transformation and the index of the rule to apply.
pub fn find_target(comp: &[Transformation], applicable_rules: &[crate::input_method::Rule], flags: u32) -> (r: Option<(usize, usize)>)
    ensures
        match r {
            Some((t, ri)) => spec_find_target(comp_model(comp@), crate::input_method::rules_model(applicable_rules@), flags)
                == Some((t, ri as int)) && ri < applicable_rules@.len(),
            None => spec_find_target(comp_model(comp@), crate::input_method::rules_model(applicable_rules@), flags) is None,
        },
{
    let ghost cm = comp_model(comp@);
    let ghost rm = crate::input_method::rules_model(applicable_rules@);
    proof { crate::input_method::lemma_rules_model_index(applicable_rules@); }
    let mut ri: usize = 0;
    while ri < applicable_rules.len()
        invariant
            cm == comp_model(comp@),
            rm == crate::input_method::rules_model(applicable_rules@),
            rm.len() == applicable_rules@.len(),
            forall|k: int| 0 <= k < applicable_rules@.len() ==> #[trigger] rm[k] == applicable_rules@[k]@,
            ri <= applicable_rules@.len(),
            spec_find_target(cm, rm, flags) == target_from(cm, rm, flags, ri as int),
        decreases applicable_rules@.len() - ri,
    {
        let rule = &applicable_rules[ri];
        assert(rm[ri as int] == rule@);
        if rule.effect_type == EffectType::ToneTransformation {
            match tone_rule_target_exec(comp, rule, flags) {
                Some(t) => {
                    if t < comp.len() && is_effective(comp, t, rule) {
                        assert(cm[t as int] == comp@[t as int]@);
                        if !(rule.effect == 0 && is_free(comp, t, EffectType::ToneTransformation)
                            && add_tone_to_char(comp[t].rule.result, 0) == comp[t].rule.result) {
                            return Some((t, ri));
                        }
                    }
                },
                None => {},
            }
        }
        ri = ri + 1;
    }
    match find_mark_target(comp, applicable_rules) {
        Some((t, r)) => {
            proof {
                if (r as int) >= rm.len() {
                    assert(false) by { lemma_mark_outer_rule_bounds(cm, rm, cm.len() as int); }
                }
            }
            Some((t, r))
        },
        None => None,
    }
}

proof fn lemma_mark_inner_rule_bounds(comp: Seq<TransModel>, rules: Seq<RuleModel>, idx: int, ri: int)
    requires
        0 <= ri,
    ensures
        mark_inner(comp, rules, idx, ri) matches Some((t, k)) ==> 0 <= k < rules.len(),
    decreases rules.len() - ri,
{
    if ri < rules.len() && !mark_cond(comp, rules, idx, ri) {
        lemma_mark_inner_rule_bounds(comp, rules, idx, ri + 1);
    }
}

proof fn lemma_mark_outer_rule_bounds(comp: Seq<TransModel>, rules: Seq<RuleModel>, n: int)
    ensures
        mark_outer(comp, rules, n) matches Some((t, k)) ==> 0 <= k < rules.len(),
    decreases n,
{
    if 0 < n <= comp.len() {
        lemma_mark_inner_rule_bounds(comp, rules, n - 1, 0);
        lemma_mark_outer_rule_bounds(comp, rules, n - 1);
    }
}


// ---------------------------------------------------------------------------
// Generating the transformations of a keystroke
// ---------------------------------------------------------------------------

/// Pushes `x` unless `s` already holds [`MAX_ACTIVE_TRANS`] transformations.
pub open spec fn push24(s: Seq<TransModel>, x: TransModel) -> Seq<TransModel> {
    if s.len() < MAX_ACTIVE_TRANS { s.push(x) } else { s }
}

pub fn push24_exec(v: &mut Vec<Transformation>, t: Transformation)
    ensures
        comp_model(final(v)@) == push24(comp_model(old(v)@), t@),
{
    if v.len() < MAX_ACTIVE_TRANS {
        proof { lemma_comp_model_push(v@, t); }
        v.push(t);
    }
}

/// A transformation that appends `key` as is.
pub open spec fn new_app(key: char, up: bool) -> TransModel {
    TransModel {
        rule: crate::input_method::rule_m(key, 0, EffectType::Appending, key, key),
        target: None,
        is_upper_case: up,
    }
}

/// A transformation that appends `key` as is.
pub fn new_appending_trans(key: char, is_upper_case: bool) -> (r: Transformation)
    ensures
        r@ == new_app(key, is_upper_case),
{
    Transformation {
        rule: crate::input_method::make_rule(key, 0, EffectType::Appending, key, key),
        target: None,
        is_upper_case,
    }
}

/// A rule with no key, no effect value and no letters, of effect type `et`.
pub open spec fn virtual_rule(et: EffectType, effect: u8) -> RuleModel {
    crate::input_method::rule_m('\0', effect, et, '\0', '\0')
}

fn virtual_trans(et: EffectType, effect: u8, target: Option<usize>) -> (r: Transformation)
    ensures
        r@ == (TransModel { rule: virtual_rule(et, effect), target, is_upper_case: false }),
{
    Transformation {
        rule: crate::input_method::make_rule('\0', effect, et, '\0', '\0'),
        target,
        is_upper_case: false,
    }
}

/// The undo transformations of mark rule `r` for the first `n` transformations,
/// latest first, added to `out`.
pub open spec fn undo_marks(comp: Seq<TransModel>, r: RuleModel, out: Seq<TransModel>, n: int) -> Seq<TransModel>
    decreases n,
{
    if n <= 0 || n > comp.len() {
        out
    } else {
        let idx = n - 1;
        let u = virtual_rule(EffectType::MarkTransformation, 0);
        let out1 = if comp[idx].rule.result == r.effect_on && spec_is_effective(comp, root(comp, idx), u) {
            push24(out, TransModel { rule: u, target: Some(root(comp, idx) as usize), is_upper_case: false })
        } else {
            out
        };
        undo_marks(comp, r, out1, n - 1)
    }
}

/// The undo transformations of the rules from `ri` on, added to `out`: a tone
/// removal where a tone rule would go, a mark removal on each letter a mark
/// rule produces.
pub open spec fn undo_from(comp: Seq<TransModel>, rules: Seq<RuleModel>, flags: u32, out: Seq<TransModel>, ri: int) -> Seq<TransModel>
    decreases rules.len() - ri,
{
    if ri < 0 || ri >= rules.len() {
        out
    } else {
        let r = rules[ri];
        let u = virtual_rule(EffectType::ToneTransformation, 0);
        let out1 = if r.effect_type == EffectType::ToneTransformation {
            match tone_rule_target(comp, r, flags) {
                Some(t) => if spec_is_effective(comp, t as int, u) {
                    push24(out, TransModel { rule: u, target: Some(t), is_upper_case: false })
                } else {
                    out
                },
                None => out,
            }
        } else if r.effect_type == EffectType::MarkTransformation {
            undo_marks(comp, r, out, comp.len() as int)
        } else {
            out
        };
        undo_from(comp, rules, flags, out1, ri + 1)
    }
}

fn generate_undo_transformations(
    comp: &[Transformation],
    rules: &[crate::input_method::Rule],
    flags: u32,
    out: &mut Vec<Transformation>,
)
    ensures
        comp_model(final(out)@) == undo_from(
            comp_model(comp@),
            crate::input_method::rules_model(rules@),
            flags,
            comp_model(old(out)@),
            0,
        ),
{
    let ghost cm = comp_model(comp@);
    let ghost rm = crate::input_method::rules_model(rules@);
    let ghost start = comp_model(out@);
    proof { crate::input_method::lemma_rules_model_index(rules@); }
    let mut ri: usize = 0;
    while ri < rules.len()
        invariant
            cm == comp_model(comp@),
            rm == crate::input_method::rules_model(rules@),
            rm.len() == rules@.len(),
            forall|k: int| 0 <= k < rules@.len() ==> #[trigger] rm[k] == rules@[k]@,
            ri <= rules@.len(),
            undo_from(cm, rm, flags, start, 0) == undo_from(cm, rm, flags, comp_model(out@), ri as int),
        decreases rules@.len() - ri,
    {
        let rule = &rules[ri];
        assert(rm[ri as int] == rule@);
        if rule.effect_type == EffectType::ToneTransformation {
            match tone_rule_target_exec(comp, rule, flags) {
                Some(t) => {
                    let u = virtual_trans(EffectType::ToneTransformation, 0, Some(t));
                    if is_effective(comp, t, &u.rule) {
                        push24_exec(out, u);
                    }
                },
                None => {},
            }
        } else if rule.effect_type == EffectType::MarkTransformation {
            let ghost before = comp_model(out@);
            let mut n = comp.len();
            while n > 0
                invariant
                    cm == comp_model(comp@),
                    n <= comp@.len(),
                    undo_marks(cm, rule@, before, cm.len() as int) == undo_marks(cm, rule@, comp_model(out@), n as int),
                decreases n,
            {
                let idx = n - 1;
                assert(cm[idx as int] == comp@[idx as int]@);
                if comp[idx].rule.result == rule.effect_on {
                    let target = find_root_target(comp, idx);
                    let u = virtual_trans(EffectType::MarkTransformation, 0, Some(target));
                    if is_effective(comp, target, &u.rule) {
                        proof { lemma_root_from_nonneg(cm, idx as int, cm.len()); }
                        push24_exec(out, u);
                    }
                }
                n = n - 1;
            }
        }
        ri = ri + 1;
    }
}

/// Whether `s` holds `ưo` or `ươ`.
pub open spec fn spec_contains_uho(s: Seq<char>) -> bool {
    exists|i: int| 0 <= i < s.len() - 1 && #[trigger] s[i] == 'ư' && (s[i + 1] == 'o' || s[i + 1] == 'ơ')
}

fn contains_uho(s: &String) -> (r: bool)
    ensures
        r == spec_contains_uho(s@),
{
    let cs = str_chars(s.as_str());
    let mut i: usize = 0;
    while i < cs.len() && i + 1 < cs.len()
        invariant
            cs@ == s@,
            i <= cs@.len(),
            forall|j: int| 0 <= j < i && j < cs@.len() - 1 ==> !(#[trigger] cs@[j] == 'ư' && (cs@[j + 1] == 'o' || cs@[j + 1] == 'ơ')),
        decreases cs@.len() - i,
    {
        if cs[i] == 'ư' && (cs[i + 1] == 'o' || cs[i + 1] == 'ơ') {
            return true;
        }
        i = i + 1;
    }
    false
}

/// `r` with its key cleared.
pub open spec fn keyless(r: RuleModel) -> RuleModel {
    RuleModel { key: '\0', ..r }
}

/// Turning `ưo`/`uơ` into `ươ`: a virtual mark on the first vowel and the rule
/// then found for the keystroke, when that rule targets another letter.
pub open spec fn uho_attempt(comp: Seq<TransModel>, rules: Seq<RuleModel>, flags: u32, up: bool) -> Option<(TransModel, TransModel)> {
    if !spec_contains_uho(spec_flatten(comp, 5)) {
        None
    } else {
        let av = app_vowels(spec_extract_cvc(comp).vo);
        if av.len() == 0 {
            None
        } else {
            let ti = position(comp, av[0]);
            let tr = TransModel { rule: virtual_rule(EffectType::MarkTransformation, 0), target: ti, is_upper_case: false };
            match spec_find_target(comp.push(tr), rules, flags) {
                Some((t, ri)) => if ti != Some(t) {
                    Some((tr, TransModel { rule: rules[ri], target: Some(t), is_upper_case: up }))
                } else {
                    None
                },
                None => None,
            }
        }
    }
}

/// A raw mark when the key repeats an appending key whose letter differs from it.
pub open spec fn raw_prefix(comp: Seq<TransModel>, lower_key: char) -> Seq<TransModel> {
    if comp.len() > 0 && comp.last().rule.effect_type == EffectType::Appending && comp.last().rule.key == lower_key
        && comp.last().rule.key != comp.last().rule.result {
        seq![
            TransModel {
                rule: virtual_rule(EffectType::MarkTransformation, 5),
                target: Some((comp.len() - 1) as usize),
                is_upper_case: false,
            },
        ]
    } else {
        Seq::empty()
    }
}

/// The transformations that key `lower_key` adds to the syllable `comp`
/// (empty when none of the rules applies).
pub open spec fn spec_generate(comp: Seq<TransModel>, rules: Seq<RuleModel>, flags: u32, lower_key: char, up: bool) -> Seq<TransModel> {
    let out0 = raw_prefix(comp, lower_key);
    match spec_find_target(comp, rules, flags) {
        Some((t, ri)) => {
            let r = rules[ri];
            let out1 = push24(out0, TransModel { rule: r, target: Some(t), is_upper_case: up });
            if r.effect_type != EffectType::MarkTransformation {
                out1
            } else {
                let nc = comp.push(out1[0]);
                if spec_is_valid(nc, true) {
                    out1
                } else {
                    match spec_find_target(nc, rules, flags) {
                        Some((t2, ri2)) => push24(
                            out1,
                            TransModel { rule: keyless(rules[ri2]), target: Some(t2), is_upper_case: false },
                        ),
                        None => out1,
                    }
                }
            }
        },
        None => match uho_attempt(comp, rules, flags, up) {
            Some((a, b)) => push24(push24(out0, a), b),
            None => {
                let out2 = undo_from(comp, rules, flags, out0, 0);
                if out2.len() > 0 {
                    push24(out2, new_app(lower_key, up))
                } else {
                    out2
                }
            },
        },
    }
}

/// Whether none of `rules` is a mark rule.
pub open spec fn no_mark_rules(rules: Seq<RuleModel>) -> bool {
    forall|k: int| 0 <= k < rules.len() ==> (#[trigger] rules[k]).effect_type != EffectType::MarkTransformation
}

/// The removal of the tone of the letter at `t`.
pub open spec fn untone_at(t: usize) -> TransModel {
    TransModel { rule: virtual_rule(EffectType::ToneTransformation, 0), target: Some(t), is_upper_case: false }
}

/// Undo transformations are only added after those already there.
proof fn lemma_undo_from_extends(comp: Seq<TransModel>, rules: Seq<RuleModel>, flags: u32, out: Seq<TransModel>, ri: int)
    requires
        no_mark_rules(rules),
        0 <= ri,
    ensures
        out.len() <= undo_from(comp, rules, flags, out, ri).len() <= out.len() + if ri < rules.len() { rules.len() - ri } else { 0 },
        undo_from(comp, rules, flags, out, ri).take(out.len() as int) == out,
    decreases rules.len() - ri,
{
    if ri < rules.len() {
        let r = rules[ri];
        let u = virtual_rule(EffectType::ToneTransformation, 0);
        let out1 = if r.effect_type == EffectType::ToneTransformation {
            match tone_rule_target(comp, r, flags) {
                Some(t) => if spec_is_effective(comp, t as int, u) {
                    push24(out, TransModel { rule: u, target: Some(t), is_upper_case: false })
                } else {
                    out
                },
                None => out,
            }
        } else {
            out
        };
        assert(undo_from(comp, rules, flags, out, ri) == undo_from(comp, rules, flags, out1, ri + 1));
        lemma_undo_from_extends(comp, rules, flags, out1, ri + 1);
        assert(out1.take(out.len() as int) =~= out);
        let res = undo_from(comp, rules, flags, out1, ri + 1);
        assert(res.take(out.len() as int) =~= res.take(out1.len() as int).take(out.len() as int));
    }
}

/// Tone rule `rules[ri]`, which goes on the letter at `t` and would change
/// it, puts the removal of that letter's tone among the undo transformations.
proof fn lemma_undo_from_untones(
    comp: Seq<TransModel>,
    rules: Seq<RuleModel>,
    flags: u32,
    out: Seq<TransModel>,
    i: int,
    ri: int,
    t: usize,
)
    requires
        no_mark_rules(rules),
        0 <= i <= ri < rules.len(),
        out.len() + (ri - i) < MAX_ACTIVE_TRANS,
        rules[ri].effect_type == EffectType::ToneTransformation,
        tone_rule_target(comp, rules[ri], flags) == Some(t),
        spec_is_effective(comp, t as int, virtual_rule(EffectType::ToneTransformation, 0)),
    ensures
        undo_from(comp, rules, flags, out, i).contains(untone_at(t)),
    decreases ri - i,
{
    let r = rules[i];
    let u = virtual_rule(EffectType::ToneTransformation, 0);
    let out1 = if r.effect_type == EffectType::ToneTransformation {
        match tone_rule_target(comp, r, flags) {
            Some(t) => if spec_is_effective(comp, t as int, u) {
                push24(out, TransModel { rule: u, target: Some(t), is_upper_case: false })
            } else {
                out
            },
            None => out,
        }
    } else {
        out
    };
    assert(undo_from(comp, rules, flags, out, i) == undo_from(comp, rules, flags, out1, i + 1));
    if i == ri {
        assert(out1 == out.push(untone_at(t)));
        lemma_undo_from_extends(comp, rules, flags, out1, i + 1);
        let res = undo_from(comp, rules, flags, out1, i + 1);
        assert(res.take(out1.len() as int)[out.len() as int] == untone_at(t));
        assert(res[out.len() as int] == untone_at(t));
    } else {
        lemma_undo_from_untones(comp, rules, flags, out1, i + 1, ri, t);
    }
}

/// Typing again a key whose rules are tone rules, where none of them changes
/// the syllable any more, undoes the tone: when one of the key's tone rules
/// goes on a letter that carries a tone, the key removes that tone and is
/// then typed as a plain letter (so `as` followed by `s` gives `as`). This
/// holds for keys with fewer than `MAX_ACTIVE_TRANS - 1` rules, when the
/// syllable has no `uơ`/`ưo` to fix.
pub proof fn lemma_repeated_tone_key_undoes(
    comp: Seq<TransModel>,
    rules: Seq<RuleModel>,
    flags: u32,
    lower_key: char,
    up: bool,
    ri: int,
    t: usize,
)
    requires
        no_mark_rules(rules),
        rules.len() < MAX_ACTIVE_TRANS - 1,
        0 <= ri < rules.len(),
        spec_find_target(comp, rules, flags) is None,
        !spec_contains_uho(spec_flatten(comp, 5)),
        rules[ri].effect_type == EffectType::ToneTransformation,
        tone_rule_target(comp, rules[ri], flags) == Some(t),
        spec_is_effective(comp, t as int, virtual_rule(EffectType::ToneTransformation, 0)),
    ensures
        spec_generate(comp, rules, flags, lower_key, up).contains(untone_at(t)),
        spec_generate(comp, rules, flags, lower_key, up).last() == new_app(lower_key, up),
{
    let out0 = raw_prefix(comp, lower_key);
    assert(out0.len() <= 1);
    assert(uho_attempt(comp, rules, flags, up) is None);
    lemma_undo_from_untones(comp, rules, flags, out0, 0, ri, t);
    lemma_undo_from_extends(comp, rules, flags, out0, 0);
    let out2 = undo_from(comp, rules, flags, out0, 0);
    let x = choose|k: int| 0 <= k < out2.len() && out2[k] == untone_at(t);
    assert(out2.len() > 0);
    assert(out2.len() < MAX_ACTIVE_TRANS);
    let g = out2.push(new_app(lower_key, up));
    assert(g[x] == untone_at(t));
}

/// The removal of the mark of the letter at `t`.
pub open spec fn unmark_at(t: usize) -> TransModel {
    TransModel { rule: virtual_rule(EffectType::MarkTransformation, 0), target: Some(t), is_upper_case: false }
}

/// Mark removals are only added after those already there, at most one for
/// each transformation looked at.
proof fn lemma_undo_marks_extends(comp: Seq<TransModel>, r: RuleModel, out: Seq<TransModel>, n: int)
    ensures
        out.len() <= undo_marks(comp, r, out, n).len() <= out.len() + if 0 <= n <= comp.len() { n } else { 0 },
        undo_marks(comp, r, out, n).take(out.len() as int) == out,
    decreases n,
{
    if 0 < n <= comp.len() {
        let idx = n - 1;
        let u = virtual_rule(EffectType::MarkTransformation, 0);
        let out1 = if comp[idx].rule.result == r.effect_on && spec_is_effective(comp, root(comp, idx), u) {
            push24(out, TransModel { rule: u, target: Some(root(comp, idx) as usize), is_upper_case: false })
        } else {
            out
        };
        assert(undo_marks(comp, r, out, n) == undo_marks(comp, r, out1, n - 1));
        lemma_undo_marks_extends(comp, r, out1, n - 1);
        assert(out1.take(out.len() as int) =~= out);
        let res = undo_marks(comp, r, out1, n - 1);
        assert(res.take(out.len() as int) =~= res.take(out1.len() as int).take(out.len() as int));
    } else {
        assert(out.take(out.len() as int) =~= out);
    }
}

/// A letter at `idx` that mark rule `r` produces, and whose mark can be
/// removed, gets its mark removal.
proof fn lemma_undo_marks_unmarks(comp: Seq<TransModel>, r: RuleModel, out: Seq<TransModel>, n: int, idx: int)
    requires
        0 <= idx < n <= comp.len(),
        out.len() + (n - 1 - idx) < MAX_ACTIVE_TRANS,
        comp[idx].rule.result == r.effect_on,
        spec_is_effective(comp, root(comp, idx), virtual_rule(EffectType::MarkTransformation, 0)),
    ensures
        undo_marks(comp, r, out, n).contains(unmark_at(root(comp, idx) as usize)),
    decreases n,
{
    let i = n - 1;
    let u = virtual_rule(EffectType::MarkTransformation, 0);
    let out1 = if comp[i].rule.result == r.effect_on && spec_is_effective(comp, root(comp, i), u) {
        push24(out, TransModel { rule: u, target: Some(root(comp, i) as usize), is_upper_case: false })
    } else {
        out
    };
    assert(undo_marks(comp, r, out, n) == undo_marks(comp, r, out1, n - 1));
    if i == idx {
        assert(out1 == out.push(unmark_at(root(comp, idx) as usize)));
        lemma_undo_marks_extends(comp, r, out1, n - 1);
        let res = undo_marks(comp, r, out1, n - 1);
        assert(res.take(out1.len() as int)[out.len() as int] == unmark_at(root(comp, idx) as usize));
        assert(res[out.len() as int] == unmark_at(root(comp, idx) as usize));
    } else {
        lemma_undo_marks_unmarks(comp, r, out1, n - 1, idx);
    }
}

/// Undo transformations are only added after those already there, at most
/// one more than the length of the syllable for each rule.
proof fn lemma_undo_from_grows(comp: Seq<TransModel>, rules: Seq<RuleModel>, flags: u32, out: Seq<TransModel>, ri: int)
    requires
        0 <= ri <= rules.len(),
    ensures
        out.len() <= undo_from(comp, rules, flags, out, ri).len() <= out.len() + (rules.len() - ri) * (comp.len() + 1),
        undo_from(comp, rules, flags, out, ri).take(out.len() as int) == out,
    decreases rules.len() - ri,
{
    if ri < rules.len() {
        let r = rules[ri];
        let u = virtual_rule(EffectType::ToneTransformation, 0);
        let out1 = if r.effect_type == EffectType::ToneTransformation {
            match tone_rule_target(comp, r, flags) {
                Some(t) => if spec_is_effective(comp, t as int, u) {
                    push24(out, TransModel { rule: u, target: Some(t), is_upper_case: false })
                } else {
                    out
                },
                None => out,
            }
        } else if r.effect_type == EffectType::MarkTransformation {
            undo_marks(comp, r, out, comp.len() as int)
        } else {
            out
        };
        assert(undo_from(comp, rules, flags, out, ri) == undo_from(comp, rules, flags, out1, ri + 1));
        lemma_undo_marks_extends(comp, r, out, comp.len() as int);
        assert(out1.len() <= out.len() + comp.len() + 1);
        assert(out1.take(out.len() as int) =~= out);
        lemma_undo_from_grows(comp, rules, flags, out1, ri + 1);
        let res = undo_from(comp, rules, flags, out1, ri + 1);
        assert(res.take(out.len() as int) =~= res.take(out1.len() as int).take(out.len() as int));
        let a = rules.len() - ri;
        let b = comp.len() + 1;
        assert((a - 1) * b + b == a * b) by (nonlinear_arith);
    } else {
        assert(out.take(out.len() as int) =~= out);
    }
}

/// Mark rule `rules[ri]` puts the mark removal of each letter at `idx` it
/// produces, whose mark can be removed, among the undo transformations.
proof fn lemma_undo_from_unmarks(
    comp: Seq<TransModel>,
    rules: Seq<RuleModel>,
    flags: u32,
    out: Seq<TransModel>,
    i: int,
    ri: int,
    idx: int,
)
    requires
        0 <= i <= ri < rules.len(),
        0 <= idx < comp.len(),
        out.len() + (ri - i + 1) * (comp.len() + 1) < MAX_ACTIVE_TRANS,
        rules[ri].effect_type == EffectType::MarkTransformation,
        comp[idx].rule.result == rules[ri].effect_on,
        spec_is_effective(comp, root(comp, idx), virtual_rule(EffectType::MarkTransformation, 0)),
    ensures
        undo_from(comp, rules, flags, out, i).contains(unmark_at(root(comp, idx) as usize)),
    decreases ri - i,
{
    let r = rules[i];
    let u = virtual_rule(EffectType::ToneTransformation, 0);
    let out1 = if r.effect_type == EffectType::ToneTransformation {
        match tone_rule_target(comp, r, flags) {
            Some(t) => if spec_is_effective(comp, t as int, u) {
                push24(out, TransModel { rule: u, target: Some(t), is_upper_case: false })
            } else {
                out
            },
            None => out,
        }
    } else if r.effect_type == EffectType::MarkTransformation {
        undo_marks(comp, r, out, comp.len() as int)
    } else {
        out
    };
    assert(undo_from(comp, rules, flags, out, i) == undo_from(comp, rules, flags, out1, i + 1));
    let a = ri - i + 1;
    let b = comp.len() + 1;
    assert(b <= a * b) by (nonlinear_arith) requires a >= 1, b >= 1;
    if i == ri {
        lemma_undo_marks_unmarks(comp, r, out, comp.len() as int, idx);
        let m = unmark_at(root(comp, idx) as usize);
        let p = choose|p: int| 0 <= p < out1.len() && out1[p] == m;
        lemma_undo_from_grows(comp, rules, flags, out1, i + 1);
        let res = undo_from(comp, rules, flags, out1, i + 1);
        assert(res.take(out1.len() as int)[p] == m);
        assert(res[p] == m);
    } else {
        lemma_undo_marks_extends(comp, r, out, comp.len() as int);
        assert(out1.len() <= out.len() + comp.len() + 1);
        assert((a - 1) * b + b == a * b) by (nonlinear_arith);
        lemma_undo_from_unmarks(comp, rules, flags, out1, i + 1, ri, idx);
    }
}

/// Typing again a mark key, where none of its rules changes the syllable any
/// more, undoes the mark: each letter that one of its mark rules produces,
/// and whose mark can be removed, loses that mark, and the key is then typed
/// as a plain letter (so `aw` followed by `w` gives `aw`). This holds while
/// the undo transformations surely fit, the number of the key's rules times
/// one more than the length of the syllable staying under
/// `MAX_ACTIVE_TRANS - 1`, and when the syllable has no `uơ`/`ưo` to fix.
pub proof fn lemma_repeated_mark_key_undoes(
    comp: Seq<TransModel>,
    rules: Seq<RuleModel>,
    flags: u32,
    lower_key: char,
    up: bool,
    ri: int,
    idx: int,
)
    requires
        rules.len() * (comp.len() + 1) < MAX_ACTIVE_TRANS - 1,
        0 <= ri < rules.len(),
        0 <= idx < comp.len(),
        spec_find_target(comp, rules, flags) is None,
        !spec_contains_uho(spec_flatten(comp, 5)),
        rules[ri].effect_type == EffectType::MarkTransformation,
        comp[idx].rule.result == rules[ri].effect_on,
        spec_is_effective(comp, root(comp, idx), virtual_rule(EffectType::MarkTransformation, 0)),
    ensures
        spec_generate(comp, rules, flags, lower_key, up).contains(unmark_at(root(comp, idx) as usize)),
        spec_generate(comp, rules, flags, lower_key, up).last() == new_app(lower_key, up),
{
    let out0 = raw_prefix(comp, lower_key);
    assert(out0.len() <= 1);
    assert(uho_attempt(comp, rules, flags, up) is None);
    let b = comp.len() + 1;
    assert((ri + 1) * b <= rules.len() * b) by (nonlinear_arith) requires ri + 1 <= rules.len(), b >= 1;
    lemma_undo_from_unmarks(comp, rules, flags, out0, 0, ri, idx);
    lemma_undo_from_grows(comp, rules, flags, out0, 0);
    let out2 = undo_from(comp, rules, flags, out0, 0);
    let m = unmark_at(root(comp, idx) as usize);
    let x = choose|k: int| 0 <= k < out2.len() && out2[k] == m;
    assert(out2.len() > 0);
    assert(out2.len() < MAX_ACTIVE_TRANS);
    let g = out2.push(new_app(lower_key, up));
    assert(g[x] == m);
}

fn keyless_rule(r: &crate::input_method::Rule) -> (res: crate::input_method::Rule)
    ensures
        res@ == keyless(r@),
{
    let mut c = crate::input_method::clone_rule(r);
    c.key = '\0';
    c
}

/// The transformations that key `lower_key` adds to the syllable `comp`.
pub fn generate_transformations(
    comp: &[Transformation],
    applicable_rules: &[crate::input_method::Rule],
    flags: u32,
    lower_key: char,
    is_upper_case: bool,
) -> (out: Vec<Transformation>)
    ensures
        comp_model(out@) == spec_generate(
            comp_model(comp@),
            crate::input_method::rules_model(applicable_rules@),
            flags,
            lower_key,
            is_upper_case,
        ),
{
    let ghost cm = comp_model(comp@);
    let ghost rm = crate::input_method::rules_model(applicable_rules@);
    proof { crate::input_method::lemma_rules_model_index(applicable_rules@); }
    let mut out: Vec<Transformation> = Vec::new();
    if comp.len() > 0 {
        let last = &comp[comp.len() - 1];
        assert(cm.last() == comp@[comp@.len() - 1]@);
        if last.rule.effect_type == EffectType::Appending && last.rule.key == lower_key && last.rule.key
            != last.rule.result {
            let t = virtual_trans(EffectType::MarkTransformation, 5, Some(comp.len() - 1));
            proof { lemma_comp_model_push(out@, t); }
            out.push(t);
            assert(comp_model(out@) =~= raw_prefix(cm, lower_key));
        } else {
            assert(comp_model(out@) =~= raw_prefix(cm, lower_key));
        }
    } else {
        assert(comp_model(out@) =~= raw_prefix(cm, lower_key));
    }
    match find_target(comp, applicable_rules, flags) {
        Some((target, ri)) => {
            let rule = &applicable_rules[ri];
            assert(rm[ri as int] == rule@);
            let t = Transformation {
                rule: crate::input_method::clone_rule(rule),
                target: Some(target),
                is_upper_case,
            };
            assert(comp_model(out@).len() == out@.len());
            assert(out@.len() <= 1);
            push24_exec(&mut out, t);
            assert(comp_model(out@).len() == out@.len());
            if rule.effect_type != EffectType::MarkTransformation {
                return out;
            }
            let mut new_comp = crate::transformation::clone_comp(comp);
            let first = clone_trans(&out[0]);
            assert(comp_model(out@)[0] == out@[0]@);
            proof { lemma_comp_model_push(new_comp@, first); }
            new_comp.push(first);
            if !is_valid(new_comp.as_slice(), true) {
                match find_target(new_comp.as_slice(), applicable_rules, flags) {
                    Some((t2, ri2)) => {
                        assert(rm[ri2 as int] == applicable_rules@[ri2 as int]@);
                        let vt = Transformation {
                            rule: keyless_rule(&applicable_rules[ri2]),
                            target: Some(t2),
                            is_upper_case: false,
                        };
                        push24_exec(&mut out, vt);
                    },
                    None => {},
                }
            }
            out
        },
        None => {
            let flat = flatten_slice(comp, 5);
            if contains_uho(&flat) {
                let cvc = extract_cvc_trans(comp);
                let av = app_vowels_exec(cvc.vo.as_slice());
                if av.len() > 0 {
                    let ti = position_exec(comp, &av[0]);
                    let tr = virtual_trans(EffectType::MarkTransformation, 0, ti);
                    let mut tmp = crate::transformation::clone_comp(comp);
                    let trc = clone_trans(&tr);
                    proof { lemma_comp_model_push(tmp@, trc); }
                    tmp.push(trc);
                    match find_target(tmp.as_slice(), applicable_rules, flags) {
                        Some((t, ri)) => {
                            if ti != Some(t) {
                                assert(rm[ri as int] == applicable_rules@[ri as int]@);
                                push24_exec(&mut out, tr);
                                let t2 = Transformation {
                                    rule: crate::input_method::clone_rule(&applicable_rules[ri]),
                                    target: Some(t),
                                    is_upper_case,
                                };
                                push24_exec(&mut out, t2);
                                return out;
                            }
                        },
                        None => {},
                    }
                }
            }
            generate_undo_transformations(comp, applicable_rules, flags, &mut out);
            if out.len() > 0 {
                push24_exec(&mut out, new_appending_trans(lower_key, is_upper_case));
            }
            out
        },
    }
}

/// Index of the first rule, from `i` on, that appends on key `lower_key`.
pub open spec fn first_app_rule(rules: Seq<RuleModel>, lower_key: char, i: int) -> Option<int>
    decreases rules.len() - i,
{
    if i < 0 || i >= rules.len() {
        None
    } else if rules[i].key == lower_key && rules[i].effect_type == EffectType::Appending {
        Some(i)
    } else {
        first_app_rule(rules, lower_key, i + 1)
    }
}

proof fn lemma_first_app_rule_bounds(rules: Seq<RuleModel>, lower_key: char, i: int)
    requires
        0 <= i,
    ensures
        first_app_rule(rules, lower_key, i) matches Some(k) ==> i <= k < rules.len(),
    decreases rules.len() - i,
{
    if i < rules.len() && !(rules[i].key == lower_key && rules[i].effect_type == EffectType::Appending) {
        lemma_first_app_rule_bounds(rules, lower_key, i + 1);
    }
}

/// The appending transformation of key `lower_key`: the first appending rule
/// of that key (its letter lowercased, the case kept in the flag), or the key itself.
pub open spec fn spec_appending_trans(rules: Seq<RuleModel>, lower_key: char, up: bool) -> TransModel {
    match first_app_rule(rules, lower_key, 0) {
        Some(ri) => {
            let r = rules[ri];
            let eo = spec_lower(r.effect_on);
            TransModel {
                rule: RuleModel { effect_on: eo, result: eo, ..r },
                target: None,
                is_upper_case: up || crate::utils::spec_is_upper(r.effect_on) || crate::utils::spec_is_upper(eo),
            }
        },
        None => new_app(lower_key, up),
    }
}

pub fn generate_appending_trans(rules: &[crate::input_method::Rule], lower_key: char, is_upper_case: bool) -> (r: Transformation)
    ensures
        r@ == spec_appending_trans(crate::input_method::rules_model(rules@), lower_key, is_upper_case),
{
    let ghost rm = crate::input_method::rules_model(rules@);
    proof { crate::input_method::lemma_rules_model_index(rules@); }
    let mut i: usize = 0;
    while i < rules.len()
        invariant
            rm == crate::input_method::rules_model(rules@),
            rm.len() == rules@.len(),
            forall|k: int| 0 <= k < rules@.len() ==> #[trigger] rm[k] == rules@[k]@,
            i <= rules@.len(),
            first_app_rule(rm, lower_key, 0) == first_app_rule(rm, lower_key, i as int),
        decreases rules@.len() - i,
    {
        assert(rm[i as int] == rules@[i as int]@);
        if rules[i].key == lower_key && rules[i].effect_type == EffectType::Appending {
            let mut rule = crate::input_method::clone_rule(&rules[i]);
            let mut up = is_upper_case || crate::utils::is_upper(rule.effect_on);
            rule.effect_on = lower(rule.effect_on);
            rule.result = rule.effect_on;
            up = up || crate::utils::is_upper(rule.effect_on);
            return Transformation { is_upper_case: up, target: None, rule };
        }
        i = i + 1;
    }
    new_appending_trans(lower_key, is_upper_case)
}

/// The appending transformation of one appended letter `c`.
pub open spec fn appended_trans(c: char, up: bool) -> TransModel {
    TransModel {
        rule: crate::input_method::rule_m('\0', 0, EffectType::Appending, spec_lower(c), spec_lower(c)),
        target: None,
        is_upper_case: up || crate::utils::spec_is_upper(c),
    }
}

pub open spec fn fallback_upto(t: TransModel, up: bool, n: int) -> Seq<TransModel>
    decreases n,
{
    if n <= 0 || n > t.rule.appended.len() {
        seq![t]
    } else {
        push24(fallback_upto(t, up, n - 1), appended_trans(t.rule.appended[n - 1].effect_on, up))
    }
}

/// The transformations of a key no rule transforms: its appending
/// transformation, then one per letter the rule appends besides.
pub open spec fn spec_fallback(rules: Seq<RuleModel>, lower_key: char, up: bool) -> Seq<TransModel> {
    let t = spec_appending_trans(rules, lower_key, up);
    fallback_upto(t, up, t.rule.appended.len() as int)
}

pub fn generate_fallback_transformations(rules: &[crate::input_method::Rule], lower_key: char, is_upper_case: bool) -> (out: Vec<Transformation>)
    ensures
        comp_model(out@) == spec_fallback(crate::input_method::rules_model(rules@), lower_key, is_upper_case),
{
    let trans = generate_appending_trans(rules, lower_key, is_upper_case);
    let ghost tm = trans@;
    let mut out: Vec<Transformation> = Vec::new();
    let n = trans.rule.appended_rules.len();
    proof { crate::input_method::lemma_rules_model_index(trans.rule.appended_rules@); }
    let mut i: usize = 0;
    let mut chars: Vec<char> = Vec::new();
    while i < n
        invariant
            n == trans.rule.appended_rules@.len(),
            tm == trans@,
            tm.rule.appended.len() == n,
            forall|k: int| 0 <= k < n ==> #[trigger] tm.rule.appended[k] == trans.rule.appended_rules@[k]@,
            i <= n,
            chars@.len() == i,
            forall|k: int| 0 <= k < i ==> #[trigger] chars@[k] == tm.rule.appended[k].effect_on,
        decreases n - i,
    {
        chars.push(trans.rule.appended_rules[i].effect_on);
        i = i + 1;
    }
    proof { lemma_comp_model_push(out@, trans); }
    out.push(trans);
    assert(comp_model(out@) =~= fallback_upto(tm, is_upper_case, 0));
    let mut j: usize = 0;
    while j < n
        invariant
            n == chars@.len(),
            tm.rule.appended.len() == n,
            forall|k: int| 0 <= k < n ==> #[trigger] chars@[k] == tm.rule.appended[k].effect_on,
            j <= n,
            comp_model(out@) == fallback_upto(tm, is_upper_case, j as int),
        decreases n - j,
    {
        let c = chars[j];
        let lc = lower(c);
        let t = Transformation {
            rule: crate::input_method::make_rule('\0', 0, EffectType::Appending, lc, lc),
            target: None,
            is_upper_case: is_upper_case || crate::utils::is_upper(c),
        };
        push24_exec(&mut out, t);
        j = j + 1;
    }
    out
}

/// The keystrokes of the first `n` transformations as plain appending ones
/// (virtual transformations dropped), at most [`MAX_ACTIVE_TRANS`].
pub open spec fn break_upto(comp: Seq<TransModel>, n: int) -> Seq<TransModel>
    decreases n,
{
    if n <= 0 || n > comp.len() {
        Seq::empty()
    } else if comp[n - 1].rule.key == '\0' {
        break_upto(comp, n - 1)
    } else {
        push24(break_upto(comp, n - 1), new_app(comp[n - 1].rule.key, comp[n - 1].is_upper_case))
    }
}

/// "Breaks" a composition: every keystroke becomes a plain appending transformation.
pub fn break_composition_slice(comp: &[Transformation]) -> (r: Vec<Transformation>)
    ensures
        comp_model(r@) == break_upto(comp_model(comp@), comp@.len() as int),
{
    let ghost cm = comp_model(comp@);
    let mut out: Vec<Transformation> = Vec::new();
    let mut i: usize = 0;
    while i < comp.len()
        invariant
            cm == comp_model(comp@),
            i <= comp@.len(),
            comp_model(out@) == break_upto(cm, i as int),
        decreases comp@.len() - i,
    {
        assert(cm[i as int] == comp@[i as int]@);
        if comp[i].rule.key != '\0' {
            push24_exec(&mut out, new_appending_trans(comp[i].rule.key, comp[i].is_upper_case));
        }
        i = i + 1;
    }
    out
}

/// Moving the last tone to where the syllable now wants it: the composition
/// with the tone retargeted, and the transformations to add (removing the old
/// tone, applying it at the new place).
pub open spec fn spec_refresh(comp: Seq<TransModel>, std_style: bool) -> (Seq<TransModel>, Seq<TransModel>) {
    let cvc = spec_extract_cvc(comp);
    if cvc.vo.len() == 0 || last_tone(comp, true) is None {
        (comp, Seq::empty())
    } else {
        let nt = spec_find_tone_target(comp, std_style);
        let idx = last_tone(comp, true)->0;
        let lt = comp[idx].target;
        if lt == nt {
            (comp, Seq::empty())
        } else {
            let nc = comp.update(idx, TransModel { target: nt, ..comp[idx] });
            let e1 = match lt {
                Some(t) => seq![
                    TransModel {
                        rule: virtual_rule(EffectType::ToneTransformation, 0),
                        target: Some(t),
                        is_upper_case: false,
                    },
                ],
                None => Seq::empty(),
            };
            let e2 = match nt {
                Some(n) => e1.push(TransModel { rule: keyless(comp[idx].rule), target: Some(n), is_upper_case: false }),
                None => e1,
            };
            (nc, e2)
        }
    }
}

/// Updates the target of the last tone after the syllable changed; returns the
/// transformations to append.
pub fn refresh_last_tone_target_into(comp: &mut Vec<Transformation>, std_style: bool) -> (extra: Vec<Transformation>)
    ensures
        (comp_model(final(comp)@), comp_model(extra@)) == spec_refresh(comp_model(old(comp)@), std_style),
{
    let ghost cm = comp_model(comp@);
    let mut extra: Vec<Transformation> = Vec::new();
    let cvc = extract_cvc_trans(comp.as_slice());
    if cvc.vo.len() == 0 {
        assert(comp_model(extra@) =~= Seq::<TransModel>::empty());
        return extra;
    }
    let idx = match last_tone_exec(comp.as_slice(), true) {
        Some(i) => i,
        None => {
            assert(comp_model(extra@) =~= Seq::<TransModel>::empty());
            return extra;
        },
    };
    let new_target = find_tone_target(comp.as_slice(), std_style);
    assert(cm[idx as int] == comp@[idx as int]@);
    let last_target = comp[idx].target;
    if last_target == new_target {
        assert(comp_model(extra@) =~= Seq::<TransModel>::empty());
        return extra;
    }
    let mut updated = clone_trans(&comp[idx]);
    updated.target = new_target;
    let override_rule = keyless_rule(&comp[idx].rule);
    comp.set(idx, updated);
    assert(comp_model(comp@) =~= cm.update(idx as int, TransModel { target: new_target, ..cm[idx as int] }));
    match last_target {
        Some(t) => {
            let u = virtual_trans(EffectType::ToneTransformation, 0, Some(t));
            proof { lemma_comp_model_push(extra@, u); }
            extra.push(u);
        },
        None => {},
    }
    match new_target {
        Some(n) => {
            let o = Transformation { target: Some(n), is_upper_case: false, rule: override_rule };
            proof { lemma_comp_model_push(extra@, o); }
            extra.push(o);
        },
        None => {},
    }
    assert(comp_model(extra@) =~= spec_refresh(cm, std_style).1);
    extra
}

// ---------------------------------------------------------------------------
// Words
// ---------------------------------------------------------------------------

/// Whether `c` is one of `keys` (never, without a key list).
pub open spec fn in_keys(keys: Option<Seq<char>>, c: char) -> bool {
    match keys {
        Some(ks) => ks.contains(c),
        None => false,
    }
}

/// Where the last word starts, searching back from `i`: just after the last
/// position whose first visible character (bare, lowercase) is neither an
/// ASCII letter nor an effect key; 0 when there is none.
pub open spec fn last_word_split(comp: Seq<TransModel>, keys: Option<Seq<char>>, i: int) -> int
    decreases i,
{
    if i <= 0 || i > comp.len() {
        0
    } else {
        match crate::flattener::spec_first_canvas_char(comp, i - 1, 7) {
            Some(c) => if !crate::utils::spec_is_ascii_alpha(c) && !in_keys(keys, c) {
                i
            } else {
                last_word_split(comp, keys, i - 1)
            },
            None => last_word_split(comp, keys, i - 1),
        }
    }
}

/// Where the text after the last space starts, searching back from `i`.
pub open spec fn last_space_split(comp: Seq<TransModel>, i: int) -> int
    decreases i,
{
    if i <= 0 || i > comp.len() {
        0
    } else {
        match crate::flattener::spec_first_canvas_char(comp, i - 1, 64) {
            Some(c) => if c == ' ' {
                i
            } else {
                last_space_split(comp, i - 1)
            },
            None => last_space_split(comp, i - 1),
        }
    }
}

/// The characters of an optional key list.
pub open spec fn keys_view(keys: Option<&[char]>) -> Option<Seq<char>> {
    match keys {
        Some(k) => Some(k@),
        None => None,
    }
}

fn in_key_list(keys: Option<&[char]>, key: char) -> (r: bool)
    ensures
        r == in_keys(keys_view(keys), key),
{
    match keys {
        Some(ks) => {
            let mut i: usize = 0;
            while i < ks.len()
                invariant
                    keys == Some(ks),
                    i <= ks@.len(),
                    forall|j: int| 0 <= j < i ==> ks@[j] != key,
                decreases ks@.len() - i,
            {
                if ks[i] == key {
                    assert(ks@[i as int] == key);
                    assert(keys_view(keys) == Some(ks@));
                    assert(ks@.contains(key));
                    return true;
                }
                i = i + 1;
            }
            false
        },
        None => false,
    }
}

/// Splits the composition before its last word: the word is `comp[r..]`.
pub fn extract_last_word(comp: &[Transformation], effect_keys: Option<&[char]>) -> (r: usize)
    ensures
        r as int == last_word_split(
            comp_model(comp@),
            keys_view(effect_keys),
            comp@.len() as int,
        ),
        r <= comp@.len(),
{
    let ghost cm = comp_model(comp@);
    let ghost ks = keys_view(effect_keys);
    let mut i = comp.len();
    while i > 0
        invariant
            cm == comp_model(comp@),
            i <= comp@.len(),
            ks == keys_view(effect_keys),
            last_word_split(cm, ks, cm.len() as int) == last_word_split(cm, ks, i as int),
        decreases i,
    {
        match crate::flattener::first_canvas_char_in_suffix(comp, i - 1, 7) {
            Some(c) => {
                if !crate::utils::is_alpha(c) && !in_key_list(effect_keys, c) {
                    return i;
                }
            },
            None => {},
        }
        i = i - 1;
    }
    0
}

/// Splits the composition after its last space: the tail is `comp[r..]`.
pub fn extract_last_word_with_punctuation_marks(comp: &[Transformation]) -> (r: usize)
    ensures
        r as int == last_space_split(comp_model(comp@), comp@.len() as int),
        r <= comp@.len(),
{
    let ghost cm = comp_model(comp@);
    let mut i = comp.len();
    while i > 0
        invariant
            cm == comp_model(comp@),
            i <= comp@.len(),
            last_space_split(cm, cm.len() as int) == last_space_split(cm, i as int),
        decreases i,
    {
        match crate::flattener::first_canvas_char_in_suffix(comp, i - 1, 64) {
            Some(c) => {
                if c == ' ' {
                    return i;
                }
            },
            None => {},
        }
        i = i - 1;
    }
    0
}

} // verus!
