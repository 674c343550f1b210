//! The engine: it takes keystrokes one at a time, keeps the syllable being
//! typed as a composition of transformations, and renders Vietnamese text.
use vstd::prelude::*;
use crate::bamboo_util::{
    break_composition_slice, break_upto, extract_last_word, extract_last_word_with_punctuation_marks,
    find_target, generate_fallback_transformations, generate_transformations, is_valid, keyless,
    last_space_split, last_word_split, new_app, new_appending_trans, push24, push24_exec,
    refresh_last_tone_target_into, spec_fallback, spec_find_target, spec_generate, spec_is_valid,
    spec_refresh, EFREE_TONE_MARKING, ESTD_TONE_STYLE,
};
use crate::config::{spec_from_flags, spec_to_flags, Config};
use crate::dfa::{
    comp_eq, dfa_wf, empty_state, lemma_find_state_bounds, spec_add_state, spec_find_state,
    spec_set_transition, Dfa, DfaModel,
};
use crate::flattener::{flatten_slice, flatten_upto, spec_flatten};
use crate::input_method::{
    clone_rule, lemma_rule_model_unfold, lemma_rules_model_index, lemma_rules_model_push,
    rules_model, InputMethod, InputMethodModel, Rule, RuleModel,
};
use crate::mode::Mode;
use crate::output_options::{contains, has, FULL_TEXT, PUNCTUATION_MODE};
use crate::text::{is_ascii, is_ascii_char, str_chars, unicode_alphabetic};
use crate::transformation::{
    clone_comp, clone_range, clone_trans, comp_model, lemma_comp_model_push, TransModel,
    Transformation, MAX_ACTIVE_TRANS,
};
use crate::utils::{
    is_alpha, is_upper, is_vietnamese_rune, is_word_break_symbol, lower, spec_is_ascii_alpha,
    spec_is_upper, spec_is_vietnamese_rune, spec_in_vowel_table, spec_is_word_break, spec_lower,
};

verus! {

broadcast use lemma_rule_model_unfold;

// ---------------------------------------------------------------------------
// Rules that apply to a key
// ---------------------------------------------------------------------------

/// The rules among the first `n` whose key, lowercased, is `k`, in order.
pub open spec fn applicable_upto(rules: Seq<RuleModel>, k: char, n: int) -> Seq<RuleModel>
    decreases n,
{
    if n <= 0 || n > rules.len() {
        Seq::empty()
    } else if spec_lower(rules[n - 1].key) == k {
        applicable_upto(rules, k, n - 1).push(rules[n - 1])
    } else {
        applicable_upto(rules, k, n - 1)
    }
}

/// The rules of key `k` (compared lowercased), in the order of the input method.
pub open spec fn applicable(rules: Seq<RuleModel>, k: char) -> Seq<RuleModel> {
    applicable_upto(rules, k, rules.len() as int)
}

fn applicable_rules(rules: &[Rule], k: char) -> (r: Vec<Rule>)
    ensures
        rules_model(r@) == applicable(rules_model(rules@), k),
{
    let ghost rm = rules_model(rules@);
    proof { lemma_rules_model_index(rules@); }
    let mut out: Vec<Rule> = Vec::new();
    let mut i: usize = 0;
    while i < rules.len()
        invariant
            rm == rules_model(rules@),
            rm.len() == rules@.len(),
            forall|j: int| 0 <= j < rules@.len() ==> #[trigger] rm[j] == rules@[j]@,
            i <= rules@.len(),
            rules_model(out@) == applicable_upto(rm, k, i as int),
        decreases rules@.len() - i,
    {
        assert(rm[i as int] == rules@[i as int]@);
        if crate::utils::lower(rules[i].key) == k {
            let c = clone_rule(&rules[i]);
            proof { lemma_rules_model_push(out@, c); }
            out.push(c);
        }
        i = i + 1;
    }
    out
}

// ---------------------------------------------------------------------------
// Compositions bounded by MAX_ACTIVE_TRANS
// ---------------------------------------------------------------------------

/// `a` followed by as many leading transformations of `b` as there is room
/// for under [`MAX_ACTIVE_TRANS`].
pub open spec fn extend24(a: Seq<TransModel>, b: Seq<TransModel>) -> Seq<TransModel> {
    if a.len() >= MAX_ACTIVE_TRANS {
        a
    } else if b.len() <= MAX_ACTIVE_TRANS - a.len() {
        a + b
    } else {
        a + b.take(MAX_ACTIVE_TRANS - a.len())
    }
}

fn extend24_exec(a: &mut Vec<Transformation>, b: &[Transformation])
    ensures
        comp_model(final(a)@) == extend24(comp_model(old(a)@), comp_model(b@)),
{
    let ghost a0 = comp_model(a@);
    let ghost bm = comp_model(b@);
    if a.len() >= MAX_ACTIVE_TRANS {
        return;
    }
    let room = MAX_ACTIVE_TRANS - a.len();
    let n = if b.len() <= room { b.len() } else { room };
    let mut i: usize = 0;
    while i < n
        invariant
            n <= b@.len(),
            bm == comp_model(b@),
            i <= n,
            comp_model(a@) == a0 + bm.take(i as int),
        decreases n - i,
    {
        let c = clone_trans(&b[i]);
        proof { lemma_comp_model_push(a@, c); }
        a.push(c);
        assert(bm.take(i + 1) =~= bm.take(i as int).push(b@[i as int]@));
        assert(a0 + bm.take(i + 1) =~= (a0 + bm.take(i as int)).push(b@[i as int]@));
        i = i + 1;
    }
    assert(bm.take(bm.len() as int) =~= bm);
}

// ---------------------------------------------------------------------------
// The syllable the next key works on
// ---------------------------------------------------------------------------

/// Scanning the appending transformations backwards from `idx`: the scan
/// stops at a consonant that follows (in the scan) a consonant seen after a
/// vowel; the syllable starts just after it.
pub open spec fn syllable_scan(comp: Seq<TransModel>, idx: int, last_vowel: bool, found_vowel: bool) -> int
    decreases idx,
{
    if idx <= 0 || idx > comp.len() {
        0
    } else if comp[idx - 1].target is None {
        let v = spec_in_vowel_table(comp[idx - 1].rule.result);
        if found_vowel && !v && !last_vowel {
            idx
        } else {
            syllable_scan(comp, idx - 1, v, found_vowel || v)
        }
    } else {
        syllable_scan(comp, idx - 1, last_vowel, found_vowel)
    }
}

/// Where the last syllable of `comp` starts.
pub open spec fn syllable_start(comp: Seq<TransModel>) -> int {
    syllable_scan(comp, comp.len() as int, false, false)
}

proof fn lemma_syllable_scan_bounds(comp: Seq<TransModel>, idx: int, lv: bool, fv: bool)
    requires
        idx <= comp.len(),
    ensures
        0 <= syllable_scan(comp, idx, lv, fv) <= if idx < 0 { 0 } else { idx },
    decreases idx,
{
    if idx > 0 {
        if comp[idx - 1].target is None {
            let v = spec_in_vowel_table(comp[idx - 1].rule.result);
            lemma_syllable_scan_bounds(comp, idx - 1, v, fv || v);
        } else {
            lemma_syllable_scan_bounds(comp, idx - 1, lv, fv);
        }
    }
}

fn last_syllable_start(comp: &[Transformation]) -> (r: usize)
    ensures
        r as int == syllable_start(comp_model(comp@)),
        r <= comp@.len(),
{
    let ghost cm = comp_model(comp@);
    let mut idx = comp.len();
    let mut last_vowel = false;
    let mut found_vowel = false;
    proof { lemma_syllable_scan_bounds(cm, cm.len() as int, false, false); }
    while idx > 0
        invariant
            cm == comp_model(comp@),
            idx <= comp@.len(),
            syllable_start(cm) == syllable_scan(cm, idx as int, last_vowel, found_vowel),
        decreases idx,
    {
        assert(cm[idx - 1] == comp@[idx - 1]@);
        if comp[idx - 1].target.is_none() {
            let v = crate::utils::in_vowel_table(comp[idx - 1].rule.result);
            if found_vowel && !v && !last_vowel {
                return idx;
            }
            if v {
                found_vowel = true;
            }
            last_vowel = v;
        }
        idx = idx - 1;
    }
    0
}

/// Moves every target down by `s` (not below 0).
pub open spec fn shift_down(comp: Seq<TransModel>, s: usize) -> Seq<TransModel> {
    comp.map_values(
        |t: TransModel|
            TransModel {
                target: match t.target {
                    Some(x) => Some(x.saturating_sub(s)),
                    None => None,
                },
                ..t
            },
    )
}

/// Moves every target up by `s` (not above `usize::MAX`).
pub open spec fn shift_up(comp: Seq<TransModel>, s: usize) -> Seq<TransModel> {
    comp.map_values(
        |t: TransModel|
            TransModel {
                target: match t.target {
                    Some(x) => Some(x.saturating_add(s)),
                    None => None,
                },
                ..t
            },
    )
}

fn shift_targets(comp: &[Transformation], s: usize, down: bool) -> (r: Vec<Transformation>)
    ensures
        comp_model(r@) == if down { shift_down(comp_model(comp@), s) } else { shift_up(comp_model(comp@), s) },
{
    let ghost cm = comp_model(comp@);
    let ghost want = if down { shift_down(cm, s) } else { shift_up(cm, s) };
    let mut out: Vec<Transformation> = Vec::new();
    let mut i: usize = 0;
    while i < comp.len()
        invariant
            cm == comp_model(comp@),
            want == (if down { shift_down(cm, s) } else { shift_up(cm, s) }),
            i <= comp@.len(),
            comp_model(out@) == want.take(i as int),
        decreases comp@.len() - i,
    {
        let mut t = clone_trans(&comp[i]);
        t.target = match t.target {
            Some(x) => Some(if down { x.saturating_sub(s) } else { x.saturating_add(s) }),
            None => None,
        };
        proof { lemma_comp_model_push(out@, t); }
        out.push(t);
        assert(want.take(i + 1) =~= want.take(i as int).push(want[i as int]));
        i = i + 1;
    }
    assert(want.take(comp@.len() as int) =~= want);
    out
}

// ---------------------------------------------------------------------------
// What one key does to a syllable
// ---------------------------------------------------------------------------

/// The first position, from `i` on, where `a` is directly followed by `b`.
pub open spec fn pair_from(s: Seq<char>, a: char, b: char, i: int) -> Option<int>
    decreases s.len() - i,
{
    if i < 0 || i + 1 >= s.len() {
        None
    } else if s[i] == a && s[i + 1] == b {
        Some(i)
    } else {
        pair_from(s, a, b, i + 1)
    }
}

/// Whether the first `ab` of `s` is directly followed by an alphabetic character.
pub open spec fn letter_after_pair(s: Seq<char>, a: char, b: char) -> bool {
    match pair_from(s, a, b, 0) {
        Some(i) => i + 2 < s.len() && unicode_alphabetic(s[i + 2]),
        None => false,
    }
}

/// Whether a letter follows the first `uơ` or the first `ưo` of `s`.
pub open spec fn spec_uoh_tail_match(s: Seq<char>) -> bool {
    letter_after_pair(s, 'u', 'ơ') || letter_after_pair(s, 'ư', 'o')
}

fn letter_after_pair_exec(s: &[char], a: char, b: char) -> (r: bool)
    ensures
        r == letter_after_pair(s@, a, b),
{
    let mut i: usize = 0;
    while s.len() > 1 && i < s.len() - 1
        invariant
            i <= s@.len(),
            pair_from(s@, a, b, 0) == pair_from(s@, a, b, i as int),
        decreases s@.len() - i,
    {
        if s[i] == a && s[i + 1] == b {
            if i + 2 < s.len() {
                return crate::text::std_is_alphabetic(s[i + 2]);
            }
            return false;
        }
        i = i + 1;
    }
    false
}

fn uoh_tail_match(s: &[char]) -> (r: bool)
    ensures
        r == spec_uoh_tail_match(s@),
{
    letter_after_pair_exec(s, 'u', 'ơ') || letter_after_pair_exec(s, 'ư', 'o')
}

/// The transformation a super key adds when `tmp` spells `uơ`/`ưo` followed
/// by a letter: the super key's rule (without key) on the letter it targets.
pub open spec fn super_key_trans(tmp: Seq<TransModel>, im: InputMethodModel, flags: u32) -> Option<TransModel> {
    if im.super_keys.len() == 0 || !spec_uoh_tail_match(spec_flatten(tmp, 5)) {
        None
    } else {
        let rules = applicable(im.rules, spec_lower(im.super_keys[0]));
        match spec_find_target(tmp, rules, flags) {
            Some((t, ri)) => Some(TransModel { rule: keyless(rules[ri]), target: Some(t), is_upper_case: false }),
            None => None,
        }
    }
}

/// The transformations key `key` adds to `comp`: those of the rules, or else
/// the plain appending ones (with the super key's help on `uơ`/`ưo`).
pub open spec fn key_transformations(comp: Seq<TransModel>, im: InputMethodModel, flags: u32, key: char, up: bool) -> Seq<TransModel> {
    let lk = spec_lower(key);
    let rules = applicable(im.rules, spec_lower(lk));
    let g = spec_generate(comp, rules, flags, lk, up);
    if g.len() > 0 {
        g
    } else {
        let fb = spec_fallback(rules, lk, up);
        match super_key_trans(extend24(comp, fb), im, flags) {
            Some(x) => push24(fb, x),
            None => fb,
        }
    }
}

/// `comp` after key `key`: the key's transformations added, then, with free
/// tone marking on a valid syllable, the last tone moved where it belongs.
pub open spec fn engine_generate(comp: Seq<TransModel>, im: InputMethodModel, flags: u32, key: char, up: bool) -> Seq<TransModel> {
    let c1 = extend24(comp, key_transformations(comp, im, flags, key, up));
    if flags & EFREE_TONE_MARKING != 0 && spec_is_valid(c1, false) {
        let (c2, extra) = spec_refresh(c1, flags & ESTD_TONE_STYLE != 0);
        extend24(c2, extra)
    } else {
        c1
    }
}

/// `comp` after key `key`: the key works on the last syllable only, with
/// targets counted from the start of that syllable.
pub open spec fn new_composition(comp: Seq<TransModel>, im: InputMethodModel, flags: u32, key: char, up: bool) -> Seq<TransModel> {
    let s = syllable_start(comp);
    let tail = shift_down(comp.skip(s), s as usize);
    extend24(comp.take(s), shift_up(engine_generate(tail, im, flags, key, up), s as usize))
}

fn key_transformations_exec(comp: &[Transformation], im: &InputMethod, flags: u32, key: char, up: bool) -> (r: Vec<Transformation>)
    ensures
        comp_model(r@) == key_transformations(comp_model(comp@), im@, flags, key, up),
{
    let lk = lower(key);
    let rules = applicable_rules(im.rules.as_slice(), lower(lk));
    let g = generate_transformations(comp, rules.as_slice(), flags, lk, up);
    if g.len() > 0 {
        return g;
    }
    let mut fb = generate_fallback_transformations(rules.as_slice(), lk, up);
    let mut tmp = clone_comp(comp);
    extend24_exec(&mut tmp, fb.as_slice());
    if im.super_keys.len() > 0 {
        let flat = flatten_slice(tmp.as_slice(), 5);
        let chars = str_chars(flat.as_str());
        if uoh_tail_match(chars.as_slice()) {
            let srules = applicable_rules(im.rules.as_slice(), lower(im.super_keys[0]));
            proof { lemma_rules_model_index(srules@); }
            match find_target(tmp.as_slice(), srules.as_slice(), flags) {
                Some((t, ri)) => {
                    let mut rule = clone_rule(&srules[ri]);
                    rule.key = '\0';
                    push24_exec(&mut fb, Transformation { rule, target: Some(t), is_upper_case: false });
                },
                None => {},
            }
        }
    }
    fb
}

/// `comp` after key `key` (see [`engine_generate`]).
fn engine_generate_exec(comp: &[Transformation], im: &InputMethod, flags: u32, key: char, up: bool) -> (r: Vec<Transformation>)
    ensures
        comp_model(r@) == engine_generate(comp_model(comp@), im@, flags, key, up),
{
    let trans = key_transformations_exec(comp, im, flags, key, up);
    let mut c1 = clone_comp(comp);
    extend24_exec(&mut c1, trans.as_slice());
    if flags & EFREE_TONE_MARKING != 0 && is_valid(c1.as_slice(), false) {
        let extra = refresh_last_tone_target_into(&mut c1, flags & ESTD_TONE_STYLE != 0);
        extend24_exec(&mut c1, extra.as_slice());
    }
    c1
}

/// `comp` after key `key` (see [`new_composition`]).
fn new_composition_exec(comp: &[Transformation], im: &InputMethod, flags: u32, key: char, up: bool) -> (r: Vec<Transformation>)
    ensures
        comp_model(r@) == new_composition(comp_model(comp@), im@, flags, key, up),
{
    let ghost cm = comp_model(comp@);
    let s = last_syllable_start(comp);
    let mut prefix = clone_range(comp, 0, s);
    let tail = clone_range(comp, s, comp.len());
    assert(cm.subrange(0, s as int) =~= cm.take(s as int));
    assert(cm.subrange(s as int, cm.len() as int) =~= cm.skip(s as int));
    let down = shift_targets(tail.as_slice(), s, true);
    let g = engine_generate_exec(down.as_slice(), im, flags, key, up);
    let lifted = shift_targets(g.as_slice(), s, false);
    extend24_exec(&mut prefix, lifted.as_slice());
    prefix
}

/// A new composition stays within [`MAX_ACTIVE_TRANS`].
pub proof fn lemma_new_composition_len(comp: Seq<TransModel>, im: InputMethodModel, flags: u32, key: char, up: bool)
    requires
        comp.len() <= MAX_ACTIVE_TRANS,
    ensures
        new_composition(comp, im, flags, key, up).len() <= MAX_ACTIVE_TRANS,
{
    lemma_syllable_scan_bounds(comp, comp.len() as int, false, false);
}

// ---------------------------------------------------------------------------
// The engine
// ---------------------------------------------------------------------------

/// The mathematical content of an [`Engine`].
pub struct EngineModel {
    /// Text committed so far.
    pub committed: Seq<char>,
    /// The composition being typed.
    pub active: Seq<TransModel>,
    pub im: InputMethodModel,
    pub config: Config,
    /// The preedit text last reported by [`Engine::process_key_delta`].
    pub prev_preedit: Seq<char>,
    /// Compositions learned so far, with the keystrokes between them.
    pub dfa: DfaModel,
    /// The DFA state the engine is in.
    pub state: u32,
}

/// The main stateful processor of the Vietnamese input method engine.
///
/// It keeps the committed text and the composition being typed, and produces
/// the correctly marked Vietnamese text.
pub struct Engine {
    committed_text: String,
    active: Vec<Transformation>,
    input_method: InputMethod,
    config: Config,
    prev_preedit: String,
    dfa: Dfa,
    current_state_id: u32,
}

impl View for Engine {
    type V = EngineModel;

    closed spec fn view(&self) -> EngineModel {
        EngineModel {
            committed: self.committed_text@,
            active: comp_model(self.active@),
            im: self.input_method@,
            config: self.config,
            prev_preedit: self.prev_preedit@,
            dfa: self.dfa@,
            state: self.current_state_id,
        }
    }
}

/// An engine is well formed when its composition has at most
/// [`MAX_ACTIVE_TRANS`] transformations (and its last reported preedit at most
/// as many characters), its DFA is well formed with state 0
/// the empty composition and no composition longer than the bound, and its
/// state exists; and every transition of the DFA gives what the rules give
/// ([`dfa_sound`]).
pub open spec fn engine_wf(e: EngineModel) -> bool {
    &&& e.active.len() <= MAX_ACTIVE_TRANS
    &&& e.prev_preedit.len() <= MAX_ACTIVE_TRANS
    &&& dfa_bounded(e.dfa)
    &&& (e.state as int) < e.dfa.states.len()
    &&& dfa_sound(e)
}

/// A DFA the engine can use: well formed, state 0 the empty composition, no
/// composition longer than [`MAX_ACTIVE_TRANS`].
pub open spec fn dfa_bounded(d: DfaModel) -> bool {
    &&& dfa_wf(d)
    &&& d.states[0].composition == Seq::<TransModel>::empty()
    &&& forall|i: int| 0 <= i < d.states.len() ==> (#[trigger] d.states[i]).composition.len() <= MAX_ACTIVE_TRANS
}

/// A new engine: nothing typed, a DFA with only the empty state.
pub open spec fn fresh_engine(im: InputMethodModel, config: Config) -> EngineModel {
    EngineModel {
        committed: Seq::empty(),
        active: Seq::empty(),
        im,
        config,
        prev_preedit: Seq::empty(),
        dfa: DfaModel { states: seq![empty_state()] },
        state: 0,
    }
}

/// The flag word the engine works with.
pub open spec fn engine_flags(e: EngineModel) -> u32 {
    spec_to_flags(e.config)
}

pub open spec fn id_or_zero(o: Option<u32>) -> u32 {
    match o {
        Some(i) => i,
        None => 0,
    }
}

/// Whether the rules may act on lowercase key `lk`: an ASCII letter, a key of
/// the input method, or a Vietnamese letter that is no word break.
pub open spec fn spec_can_process(im: InputMethodModel, lk: char) -> bool {
    spec_is_ascii_alpha(lk) || im.keys.contains(lk) || (!spec_is_word_break(lk) && spec_is_vietnamese_rune(lk))
}

/// Commit: the composition's text moves to the committed text.
pub open spec fn spec_commit(e: EngineModel) -> EngineModel {
    if e.active.len() == 0 {
        e
    } else {
        EngineModel { committed: e.committed + spec_flatten(e.active, 0), active: Seq::empty(), state: 0, ..e }
    }
}

/// `t` appended to the composition when there is room, the state then
/// being the one of the new composition (0 when unknown).
pub open spec fn spec_push_active(e: EngineModel, t: TransModel) -> EngineModel {
    if e.active.len() < MAX_ACTIVE_TRANS {
        let a = e.active.push(t);
        EngineModel { active: a, state: id_or_zero(spec_find_state(e.dfa, a)), ..e }
    } else {
        e
    }
}

/// The transition slot of an ASCII key: its code point.
pub open spec fn key_index(c: char) -> int {
    (c as u32) as int
}

/// Whether key `lk` goes through the DFA: lowercase ASCII.
pub open spec fn dfa_key(lk: char, up: bool) -> bool {
    is_ascii_char(lk) && !up
}

/// The engine after one keystroke.
///
/// In English mode, or for a key the rules cannot act on, the key is appended
/// as typed (a word break commits before and after it). Otherwise, when the
/// engine is in sync with its DFA state, a lowercase ASCII key the state has
/// a transition for moves to that state and takes its composition; any other
/// key goes through the rules ([`new_composition`]), and a lowercase ASCII
/// key typed in sync then records the transition it took. Out of sync, the
/// engine moves to the state of the new composition (0 when there is none).
pub open spec fn spec_process_key(e: EngineModel, key: char, mode: Mode) -> EngineModel {
    let lk = spec_lower(key);
    let up = spec_is_upper(key);
    if mode == Mode::English || !spec_can_process(e.im, lk) {
        let wb = spec_is_word_break(lk);
        let e1 = if wb { spec_commit(e) } else { e };
        let e2 = spec_push_active(e1, new_app(lk, up));
        let e3 = if wb { spec_commit(e2) } else { e2 };
        EngineModel { state: 0, ..e3 }
    } else if dfa_key(lk, up) && synced(e) && e.dfa.states[e.state as int].transitions[key_index(lk)] != 0 {
        let n = e.dfa.states[e.state as int].transitions[key_index(lk)];
        EngineModel { state: n, active: e.dfa.states[n as int].composition, ..e }
    } else {
        let work = new_composition(e.active, e.im, engine_flags(e), lk, up);
        if dfa_key(lk, up) && synced(e) {
            let (d1, id) = spec_add_state(e.dfa, work);
            EngineModel { active: work, dfa: spec_set_transition(d1, e.state as int, key_index(lk), id), state: id, ..e }
        } else {
            EngineModel { active: work, state: id_or_zero(spec_find_state(e.dfa, work)), ..e }
        }
    }
}

/// A new DFA: only the empty state.
pub open spec fn initial_dfa() -> DfaModel {
    DfaModel { states: seq![empty_state()] }
}

/// The engine with configuration `config`; a different configuration starts
/// over with a new DFA, since the transitions learned belong to the old one.
pub open spec fn spec_set_config(e: EngineModel, config: Config) -> EngineModel {
    if config == e.config {
        e
    } else {
        EngineModel { config, dfa: initial_dfa(), state: 0, ..e }
    }
}

/// The text of the engine as `options` asks: committed text and composition
/// with [`FULL_TEXT`], the composition after its last space with
/// [`PUNCTUATION_MODE`], the composition alone otherwise.
pub open spec fn spec_processed_str(e: EngineModel, options: u32) -> Seq<char> {
    if has(options, FULL_TEXT) {
        e.committed + spec_flatten(e.active, options)
    } else if has(options, PUNCTUATION_MODE) {
        if e.active.len() == 0 {
            Seq::empty()
        } else {
            spec_flatten(e.active.skip(last_space_split(e.active, e.active.len() as int)), 0)
        }
    } else {
        spec_flatten(e.active, options)
    }
}

/// The engine after the keys `keys`, one after the other.
pub open spec fn spec_run(e: EngineModel, keys: Seq<char>, mode: Mode) -> EngineModel
    decreases keys.len(),
{
    if keys.len() == 0 {
        e
    } else {
        spec_process_key(spec_run(e, keys.drop_last(), mode), keys.last(), mode)
    }
}

/// Number of UTF-8 bytes of `c`.
pub open spec fn utf8_len(c: char) -> nat {
    if (c as u32) < 0x80 {
        1
    } else if (c as u32) < 0x800 {
        2
    } else if (c as u32) < 0x10000 {
        3
    } else {
        4
    }
}

/// Number of UTF-8 bytes of `s`.
pub open spec fn utf8_count(s: Seq<char>) -> nat
    decreases s.len(),
{
    if s.len() == 0 {
        0
    } else {
        utf8_count(s.drop_last()) + utf8_len(s.last())
    }
}

/// Length of the common prefix of `a` and `b`, counting from `i`.
pub open spec fn common_prefix_from(a: Seq<char>, b: Seq<char>, i: int) -> int
    decreases a.len() - i,
{
    if 0 <= i < a.len() && i < b.len() && a[i] == b[i] {
        common_prefix_from(a, b, i + 1)
    } else {
        i
    }
}

/// Length of the common prefix of `a` and `b`.
pub open spec fn common_prefix(a: Seq<char>, b: Seq<char>) -> int {
    common_prefix_from(a, b, 0)
}

/// What [`Engine::process_key_delta`] reports: characters and bytes to erase
/// from the previous preedit, and the text to insert after them.
pub open spec fn spec_delta(prev: Seq<char>, cur: Seq<char>) -> (usize, usize, Seq<char>) {
    let l = common_prefix(prev, cur);
    (
        (prev.len() - l) as usize,
        (utf8_count(prev) - utf8_count(prev.take(l))) as usize,
        cur.skip(l),
    )
}

/// The keystrokes of `last` replayed through the rules, one after the other
/// (transformations without a key skipped).
pub open spec fn replay(last: Seq<TransModel>, im: InputMethodModel, flags: u32, n: int) -> Seq<TransModel>
    decreases n,
{
    if n <= 0 || n > last.len() {
        Seq::empty()
    } else if last[n - 1].rule.key == '\0' {
        replay(last, im, flags, n - 1)
    } else {
        new_composition(replay(last, im, flags, n - 1), im, flags, last[n - 1].rule.key, last[n - 1].is_upper_case)
    }
}

/// The engine after restoring its last word: its keystrokes as typed, or,
/// with `to_vietnamese`, typed again through the rules.
pub open spec fn spec_restore_last_word(e: EngineModel, to_vietnamese: bool) -> EngineModel {
    let w = e.active;
    let split = last_word_split(w, Some(e.im.keys), w.len() as int);
    let last = w.skip(split);
    if w.len() == 0 || last.len() == 0 {
        EngineModel { state: 0, ..e }
    } else if !to_vietnamese {
        EngineModel { active: extend24(w.take(split), break_upto(last, last.len() as int)), state: 0, ..e }
    } else {
        EngineModel { active: extend24(w.take(split), replay(last, e.im, engine_flags(e), last.len() as int)), state: 0, ..e }
    }
}

/// The transformations of `w[split..split + n]` other than the one at `li`
/// and those acting on it, at most [`MAX_ACTIVE_TRANS`].
pub open spec fn kept_upto(w: Seq<TransModel>, split: int, li: int, n: int) -> Seq<TransModel>
    decreases n,
{
    if n <= 0 || split + n > w.len() {
        Seq::empty()
    } else {
        let prev = kept_upto(w, split, li, n - 1);
        let t = w[split + n - 1];
        if split + n - 1 == li || t.target == Some(li as usize) {
            prev
        } else {
            push24(prev, t)
        }
    }
}

/// The index of the last of the first `n` transformations that a key
/// produced (one with a key).
pub open spec fn last_keyed_upto(comp: Seq<TransModel>, n: int) -> Option<int>
    decreases n,
{
    if n <= 0 || n > comp.len() {
        None
    } else if comp[n - 1].rule.key != '\0' {
        Some(n - 1)
    } else {
        last_keyed_upto(comp, n - 1)
    }
}

/// The index of the transformation of the last keystroke.
pub open spec fn last_keystroke(comp: Seq<TransModel>) -> Option<int> {
    last_keyed_upto(comp, comp.len() as int)
}

fn find_last_keystroke_idx(comp: &[Transformation]) -> (r: Option<usize>)
    ensures
        match r {
            Some(i) => last_keystroke(comp_model(comp@)) == Some(i as int) && i < comp@.len(),
            None => last_keystroke(comp_model(comp@)) is None,
        },
{
    let ghost cm = comp_model(comp@);
    let mut n = comp.len();
    while n > 0
        invariant
            cm == comp_model(comp@),
            n <= comp@.len(),
            last_keystroke(cm) == last_keyed_upto(cm, n as int),
        decreases n,
    {
        assert(cm[n - 1] == comp@[n - 1]@);
        if comp[n - 1].rule.key != '\0' {
            return Some(n - 1);
        }
        n = n - 1;
    }
    None
}

/// The engine after removing the last typed character: the transformation of
/// the last keystroke goes, with what acts on it (when the rules cannot act
/// on its key, the last transformation is dropped instead); the tone may then
/// move where it belongs.
pub open spec fn spec_remove_last_char(e: EngineModel, refresh: bool) -> EngineModel {
    let w = e.active;
    match last_keystroke(w) {
        None => EngineModel { state: 0, ..e },
        Some(li) => if !spec_can_process(e.im, w[li].rule.key) {
            EngineModel { active: w.drop_last(), state: 0, ..e }
        } else {
            let split = last_word_split(w, Some(e.im.keys), w.len() as int);
            let kept = kept_upto(w, split, li, w.len() - split);
            let kept2 = if refresh {
                let (c2, extra) = spec_refresh(kept, engine_flags(e) & ESTD_TONE_STYLE != 0);
                extend24(c2, extra)
            } else {
                kept
            };
            EngineModel { active: extend24(w.take(split), kept2), state: 0, ..e }
        },
    }
}

proof fn lemma_flatten_upto_len(comp: Seq<TransModel>, options: u32, n: int)
    ensures
        flatten_upto(comp, options, n).len() <= if n < 0 { 0 } else { n },
    decreases n,
{
    if n > 0 && n <= comp.len() {
        lemma_flatten_upto_len(comp, options, n - 1);
    }
}

/// The text of a composition has at most one character per transformation.
pub proof fn lemma_flatten_len(comp: Seq<TransModel>, options: u32)
    ensures
        spec_flatten(comp, options).len() <= comp.len(),
{
    lemma_flatten_upto_len(comp, options, comp.len() as int);
}

proof fn lemma_utf8_count_bound(s: Seq<char>)
    ensures
        utf8_count(s) <= 4 * s.len(),
    decreases s.len(),
{
    if s.len() > 0 {
        lemma_utf8_count_bound(s.drop_last());
    }
}

proof fn lemma_common_prefix_from(a: Seq<char>, b: Seq<char>, i: int)
    requires
        0 <= i <= a.len(),
        i <= b.len(),
        a.take(i) == b.take(i),
    ensures
        i <= common_prefix_from(a, b, i) <= a.len(),
        common_prefix_from(a, b, i) <= b.len(),
        a.take(common_prefix_from(a, b, i)) == b.take(common_prefix_from(a, b, i)),
    decreases a.len() - i,
{
    if i < a.len() && i < b.len() && a[i] == b[i] {
        assert(a.take(i + 1) =~= a.take(i).push(a[i]));
        assert(b.take(i + 1) =~= b.take(i).push(b[i]));
        lemma_common_prefix_from(a, b, i + 1);
    }
}

/// The common prefix is a prefix of both sequences.
pub proof fn lemma_common_prefix(a: Seq<char>, b: Seq<char>)
    ensures
        0 <= common_prefix(a, b) <= a.len(),
        common_prefix(a, b) <= b.len(),
        a.take(common_prefix(a, b)) == b.take(common_prefix(a, b)),
{
    assert(a.take(0) =~= b.take(0));
    lemma_common_prefix_from(a, b, 0);
}

proof fn lemma_kept_len(w: Seq<TransModel>, split: int, li: int, n: int)
    ensures
        kept_upto(w, split, li, n).len() <= MAX_ACTIVE_TRANS,
    decreases n,
{
    if n > 0 && split + n <= w.len() {
        lemma_kept_len(w, split, li, n - 1);
    }
}

proof fn lemma_replay_len(last: Seq<TransModel>, im: InputMethodModel, flags: u32, n: int)
    ensures
        replay(last, im, flags, n).len() <= MAX_ACTIVE_TRANS,
    decreases n,
{
    if n > 0 && n <= last.len() {
        lemma_replay_len(last, im, flags, n - 1);
        if last[n - 1].rule.key != '\0' {
            lemma_new_composition_len(replay(last, im, flags, n - 1), im, flags, last[n - 1].rule.key, last[n - 1].is_upper_case);
        }
    }
}

fn char_utf8_len(c: char) -> (r: usize)
    ensures
        r == utf8_len(c),
{
    let v = c as u32;
    if v < 0x80 {
        1
    } else if v < 0x800 {
        2
    } else if v < 0x10000 {
        3
    } else {
        4
    }
}

proof fn lemma_utf8_count_prefix(s: Seq<char>, i: int)
    requires
        0 <= i <= s.len(),
    ensures
        utf8_count(s.take(i)) <= utf8_count(s),
    decreases s.len() - i,
{
    if i < s.len() {
        lemma_utf8_count_prefix(s, i + 1);
        assert(s.take(i + 1).drop_last() =~= s.take(i));
    } else {
        assert(s.take(i) =~= s);
    }
}

/// The byte count of a character is the length of its UTF-8 encoding.
proof fn lemma_utf8_len_encoded(c: char)
    ensures
        utf8_len(c) == vstd::utf8::encode_scalar(c as u32).len(),
{
    vstd::utf8::char_is_scalar(c);
}

/// Counting bytes from the front gives the same as counting from the back.
proof fn lemma_utf8_count_first(s: Seq<char>)
    requires
        s.len() > 0,
    ensures
        utf8_count(s) == utf8_len(s[0]) + utf8_count(s.drop_first()),
    decreases s.len(),
{
    if s.len() == 1 {
        assert(utf8_count(s.drop_last()) == 0);
        assert(utf8_count(s.drop_first()) == 0);
        assert(s.last() == s[0]);
    } else {
        lemma_utf8_count_first(s.drop_last());
        assert(s.drop_last()[0] == s[0]);
        assert(s.drop_last().drop_first() =~= s.drop_first().drop_last());
        assert(s.drop_first().last() == s.last());
        assert(utf8_count(s.drop_first()) == utf8_count(s.drop_first().drop_last()) + utf8_len(s.drop_first().last()));
    }
}

/// The byte count of a text is the length of its UTF-8 encoding, as
/// `str::len` gives it: one byte below U+0080, two below U+0800, three below
/// U+10000 and four above.
pub proof fn lemma_utf8_count_is_encoded_len(s: Seq<char>)
    ensures
        utf8_count(s) == vstd::utf8::encode_utf8(s).len(),
    decreases s.len(),
{
    if s.len() > 0 {
        lemma_utf8_count_first(s);
        lemma_utf8_len_encoded(s[0]);
        lemma_utf8_count_is_encoded_len(s.drop_first());
    }
}

/// Byte counts add up over concatenation.
proof fn lemma_utf8_count_concat(a: Seq<char>, b: Seq<char>)
    ensures
        utf8_count(a + b) == utf8_count(a) + utf8_count(b),
    decreases b.len(),
{
    if b.len() == 0 {
        assert(a + b =~= a);
    } else {
        lemma_utf8_count_concat(a, b.drop_last());
        assert((a + b).drop_last() =~= a + b.drop_last());
        assert((a + b).last() == b.last());
    }
}

fn char_in(keys: &[char], c: char) -> (r: bool)
    ensures
        r == keys@.contains(c),
{
    let mut i: usize = 0;
    while i < keys.len()
        invariant
            i <= keys@.len(),
            forall|j: int| 0 <= j < i ==> keys@[j] != c,
        decreases keys@.len() - i,
    {
        if keys[i] == c {
            assert(keys@[i as int] == c);
            return true;
        }
        i = i + 1;
    }
    false
}

impl Engine {
    /// The engine is well formed (see [`engine_wf`]).
    pub open spec fn wf(&self) -> bool {
        engine_wf(self@)
    }

    /// Creates a new engine with the specified input method and default configuration.
    pub fn new(input_method: InputMethod) -> (r: Self)
        ensures
            r.wf(),
            r@ == fresh_engine(input_method@, Config { free_tone_marking: true, std_tone_style: true, auto_correct: true }),
    {
        Self::with_config(input_method, Config::default())
    }

    /// Creates a new engine with a specific input method and configuration.
    pub fn with_config(input_method: InputMethod, config: Config) -> (r: Self)
        ensures
            r.wf(),
            r@ == fresh_engine(input_method@, config),
    {
        let r = Engine {
            committed_text: String::new(),
            active: Vec::new(),
            input_method,
            config,
            prev_preedit: String::new(),
            dfa: Dfa::new(),
            current_state_id: 0,
        };
        assert(comp_model(r.active@) =~= Seq::<TransModel>::empty());
        r
    }

    /// Returns the current configuration of the engine.
    pub fn config(&self) -> (r: Config)
        ensures
            r == self@.config,
    {
        self.config
    }

    /// Updates the engine configuration. A different configuration starts a
    /// new DFA: the transitions learned under the old one are dropped.
    pub fn set_config(&mut self, config: Config)
        requires
            old(self).wf(),
        ensures
            final(self).wf(),
            final(self)@ == spec_set_config(old(self)@, config),
    {
        if config == self.config {
            return;
        }
        self.config = config;
        self.dfa = Dfa::new();
        self.current_state_id = 0;
        proof { lemma_fresh_sound(self@.im, config); }
        assert(dfa_sound(self@)) by {
            assert(self@.dfa == fresh_engine(self@.im, config).dfa);
        }
    }

    /// Returns a copy of the current input method.
    pub fn input_method(&self) -> (r: InputMethod)
        ensures
            r@ == self@.im,
    {
        self.input_method.clone()
    }

    fn can_process_key_raw(&self, lower_key: char) -> (r: bool)
        ensures
            r == spec_can_process(self@.im, lower_key),
    {
        if is_alpha(lower_key) || char_in(self.input_method.keys.as_slice(), lower_key) {
            return true;
        }
        if is_word_break_symbol(lower_key) {
            return false;
        }
        is_vietnamese_rune(lower_key)
    }

    /// Returns the currently active syllable as a string.
    pub fn output(&self) -> (r: String)
        ensures
            r@ == spec_flatten(self@.active, 0),
    {
        flatten_slice(self.active.as_slice(), 0)
    }

    /// Returns the processed string according to the specified options:
    /// the full text (committed and active) or the active text, as is or
    /// without tones, marks, case, or only after its last space.
    pub fn get_processed_str(&self, options: u32) -> (r: String)
        ensures
            r@ == spec_processed_str(self@, options),
    {
        if contains(options, FULL_TEXT) {
            let mut result = self.committed_text.clone();
            let tail = flatten_slice(self.active.as_slice(), options);
            result.append(tail.as_str());
            return result;
        }
        if contains(options, PUNCTUATION_MODE) {
            if self.active.len() == 0 {
                return String::new();
            }
            let split = extract_last_word_with_punctuation_marks(self.active.as_slice());
            let tail = clone_range(self.active.as_slice(), split, self.active.len());
            assert(comp_model(self.active@).subrange(split as int, self.active@.len() as int)
                =~= comp_model(self.active@).skip(split as int));
            return flatten_slice(tail.as_slice(), 0);
        }
        flatten_slice(self.active.as_slice(), options)
    }

    /// Checks if the current composition forms a valid Vietnamese syllable.
    pub fn is_valid(&self, input_is_full_complete: bool) -> (r: bool)
        ensures
            r == spec_is_valid(self@.active, input_is_full_complete),
    {
        is_valid(self.active.as_slice(), input_is_full_complete)
    }

    /// Clears the active syllable buffer and appends it to the committed text.
    pub fn commit(&mut self)
        requires
            old(self).wf(),
        ensures
            final(self).wf(),
            final(self)@ == spec_commit(old(self)@),
    {
        if self.active.len() == 0 {
            return;
        }
        let word = self.output();
        self.committed_text.append(word.as_str());
        self.active = Vec::new();
        self.current_state_id = 0;
        assert(comp_model(self.active@) =~= Seq::<TransModel>::empty());
    }

    fn push_active(&mut self, trans: Transformation)
        requires
            old(self).wf(),
        ensures
            final(self).wf(),
            final(self)@ == spec_push_active(old(self)@, trans@),
    {
        if self.active.len() < MAX_ACTIVE_TRANS {
            proof { lemma_comp_model_push(self.active@, trans); }
            self.active.push(trans);
            proof { lemma_find_state_bounds(self.dfa@, comp_model(self.active@)); }
            self.current_state_id = match self.dfa.find_state(self.active.as_slice()) {
                Some(i) => i,
                None => 0,
            };
        }
    }

    /// Processes a single character.
    ///
    /// The `mode` determines whether to apply Vietnamese transformation rules.
    pub fn process_key(&mut self, key: char, mode: Mode)
        requires
            old(self).wf(),
        ensures
            final(self).wf(),
            final(self)@ == spec_process_key(old(self)@, key, mode),
    {
        let ghost e0 = self@;
        let lower_key = lower(key);
        let is_upper_case = is_upper(key);
        if mode == Mode::English || !self.can_process_key_raw(lower_key) {
            let wb = is_word_break_symbol(lower_key);
            if wb {
                self.commit();
            }
            let trans = new_appending_trans(lower_key, is_upper_case);
            self.push_active(trans);
            if wb {
                self.commit();
            }
            self.current_state_id = 0;
            return;
        }
        let flags = self.config.to_flags();
        let k = (lower_key as u32) as usize;
        let in_sync = comp_eq(self.dfa.get_composition(self.current_state_id), self.active.as_slice());
        assert(in_sync == synced(e0));
        if is_ascii(lower_key) && !is_upper_case && in_sync {
            let next = self.dfa.transition(self.current_state_id, k);
            if next != 0 {
                let comp = clone_comp(self.dfa.get_composition(next));
                self.current_state_id = next;
                self.active = comp;
                proof { lemma_process_key_wf(e0, key, mode); }
                return;
            }
        }
        proof { lemma_new_composition_len(e0.active, e0.im, flags, lower_key, is_upper_case); }
        let work = new_composition_exec(self.active.as_slice(), &self.input_method, flags, lower_key, is_upper_case);
        if is_ascii(lower_key) && !is_upper_case && in_sync {
            let ghost d0 = self.dfa@;
            proof { lemma_find_state_bounds(d0, comp_model(work@)); }
            let next_id = self.dfa.add_state(work.as_slice());
            self.dfa.set_transition(self.current_state_id, k, next_id);
            self.current_state_id = next_id;
        } else {
            proof { lemma_find_state_bounds(self.dfa@, comp_model(work@)); }
            self.current_state_id = match self.dfa.find_state(work.as_slice()) {
                Some(i) => i,
                None => 0,
            };
        }
        self.active = work;
        proof { lemma_process_key_wf(e0, key, mode); }
    }

    /// Processes a string of characters and returns the current active word.
    pub fn process(&mut self, s: &str, mode: Mode) -> (r: String)
        requires
            old(self).wf(),
        ensures
            final(self).wf(),
            final(self)@ == spec_run(old(self)@, s@, mode),
            r@ == spec_flatten(final(self)@.active, 0),
    {
        self.process_str(s, mode);
        self.output()
    }

    /// Processes a string of characters and returns a reference to the engine.
    pub fn process_str(&mut self, s: &str, mode: Mode) -> (r: &Self)
        requires
            old(self).wf(),
        ensures
            final(self).wf(),
            final(self)@ == spec_run(old(self)@, s@, mode),
            r@ == final(self)@,
    {
        let ghost e0 = self@;
        for key in it: s.chars()
            invariant
                it.seq() == s@,
                self.wf(),
                self@ == spec_run(e0, it.seq().take(it.index() as int), mode),
        {
            assert(it.seq().take(it.index() + 1).drop_last() =~= it.seq().take(it.index() as int));
            self.process_key(key, mode);
        }
        assert(s@.take(s@.len() as int) =~= s@);
        self
    }

    /// Processes a single key and returns the change to make to the previous
    /// preedit text: characters to delete from its end, the same in UTF-8
    /// bytes, and the text to append after the deletion.
    #[verifier::spinoff_prover]
    #[verifier::rlimit(40)]
    pub fn process_key_delta(&mut self, key: char, mode: Mode) -> (r: (usize, usize, String))
        requires
            old(self).wf(),
        ensures
            final(self).wf(),
            final(self)@ == (EngineModel {
                prev_preedit: spec_flatten(spec_process_key(old(self)@, key, mode).active, 0),
                ..spec_process_key(old(self)@, key, mode)
            }),
            (r.0, r.1, r.2@) == spec_delta(old(self)@.prev_preedit, final(self)@.prev_preedit),
            r.1 == vstd::utf8::encode_utf8(old(self)@.prev_preedit.skip(old(self)@.prev_preedit.len() - r.0)).len(),
    {
        self.process_key(key, mode);
        let cur = flatten_slice(self.active.as_slice(), 0);
        proof { lemma_flatten_len(comp_model(self.active@), 0); }
        let prev = str_chars(self.prev_preedit.as_str());
        let now = str_chars(cur.as_str());
        let ghost p = prev@;
        let ghost c = now@;
        proof {
            lemma_common_prefix(p, c);
            lemma_utf8_count_bound(p);
        }
        let mut lcp: usize = 0;
        let mut lcp_bytes: usize = 0;
        while lcp < prev.len() && lcp < now.len() && prev[lcp] == now[lcp]
            invariant
                p == prev@,
                c == now@,
                p.len() <= MAX_ACTIVE_TRANS,
                lcp <= p.len(),
                lcp <= c.len(),
                common_prefix(p, c) == common_prefix_from(p, c, lcp as int),
                lcp_bytes == utf8_count(p.take(lcp as int)),
                lcp_bytes <= 4 * lcp,
            decreases p.len() - lcp,
        {
            assert(p.take(lcp + 1).drop_last() =~= p.take(lcp as int));
            lcp_bytes = lcp_bytes + char_utf8_len(prev[lcp]);
            lcp = lcp + 1;
        }
        let mut prev_bytes: usize = 0;
        let mut i: usize = 0;
        while i < prev.len()
            invariant
                p == prev@,
                p.len() <= MAX_ACTIVE_TRANS,
                i <= p.len(),
                prev_bytes == utf8_count(p.take(i as int)),
                prev_bytes <= 4 * i,
            decreases p.len() - i,
        {
            assert(p.take(i + 1).drop_last() =~= p.take(i as int));
            prev_bytes = prev_bytes + char_utf8_len(prev[i]);
            i = i + 1;
        }
        assert(p.take(p.len() as int) =~= p);
        proof {
            lemma_utf8_count_prefix(p, lcp as int);
        }
        let inserted = crate::text::string_from_chars(&now.as_slice()[lcp..now.len()]);
        assert(now@.subrange(lcp as int, now@.len() as int) =~= c.skip(lcp as int));
        proof { lemma_delta_contract(p, c); }
        self.prev_preedit = cur;
        (prev.len() - lcp, prev_bytes - lcp_bytes, inserted)
    }

    /// Like [`Self::process_key_delta`], but writes the inserted text into
    /// `inserted` and returns the number of characters to delete.
    pub fn process_key_delta_into(&mut self, key: char, mode: Mode, inserted: &mut String) -> (r: usize)
        requires
            old(self).wf(),
        ensures
            final(self).wf(),
            final(self)@ == (EngineModel {
                prev_preedit: spec_flatten(spec_process_key(old(self)@, key, mode).active, 0),
                ..spec_process_key(old(self)@, key, mode)
            }),
            r == spec_delta(old(self)@.prev_preedit, final(self)@.prev_preedit).0,
            final(inserted)@ == spec_delta(old(self)@.prev_preedit, final(self)@.prev_preedit).2,
    {
        let (backspaces, _bytes, ins) = self.process_key_delta(key, mode);
        *inserted = ins;
        backspaces
    }

    /// Restores the last word of the composition to its keystrokes as typed;
    /// with `to_vietnamese`, the keystrokes are typed again through the rules.
    #[verifier::spinoff_prover]
    #[verifier::rlimit(40)]
    pub fn restore_last_word(&mut self, to_vietnamese: bool)
        requires
            old(self).wf(),
        ensures
            final(self).wf(),
            final(self)@ == spec_restore_last_word(old(self)@, to_vietnamese),
    {
        let ghost e0 = self@;
        let ghost w = e0.active;
        if self.active.len() == 0 {
            self.current_state_id = 0;
            return;
        }
        let split = extract_last_word(self.active.as_slice(), Some(self.input_method.keys.as_slice()));
        let mut previous = clone_range(self.active.as_slice(), 0, split);
        let last = clone_range(self.active.as_slice(), split, self.active.len());
        assert(w.subrange(0, split as int) =~= w.take(split as int));
        assert(w.subrange(split as int, w.len() as int) =~= w.skip(split as int));
        if last.len() == 0 {
            self.current_state_id = 0;
            return;
        }
        if !to_vietnamese {
            let broken = break_composition_slice(last.as_slice());
            extend24_exec(&mut previous, broken.as_slice());
            self.active = previous;
            self.current_state_id = 0;
            return;
        }
        let flags = self.config.to_flags();
        let ghost lm = comp_model(last@);
        let mut new_comp: Vec<Transformation> = Vec::new();
        let mut i: usize = 0;
        while i < last.len()
            invariant
                lm == comp_model(last@),
                i <= last@.len(),
                comp_model(new_comp@) == replay(lm, self@.im, flags, i as int),
                new_comp@.len() <= MAX_ACTIVE_TRANS,
            decreases last@.len() - i,
        {
            assert(lm[i as int] == last@[i as int]@);
            proof { lemma_replay_len(lm, self@.im, flags, i + 1); }
            if last[i].rule.key != '\0' {
                new_comp = new_composition_exec(new_comp.as_slice(), &self.input_method, flags, last[i].rule.key, last[i].is_upper_case);
            }
            i = i + 1;
        }
        extend24_exec(&mut previous, new_comp.as_slice());
        self.active = previous;
        self.current_state_id = 0;
    }

    /// Backspace: undoes the last keystroke of the active composition; with
    /// `refresh_last_tone_target`, the tone then moves where it belongs.
    pub fn remove_last_char(&mut self, refresh_last_tone_target: bool)
        requires
            old(self).wf(),
        ensures
            final(self).wf(),
            final(self)@ == spec_remove_last_char(old(self)@, refresh_last_tone_target),
    {
        let ghost e0 = self@;
        let ghost w = e0.active;
        let last_idx = match find_last_keystroke_idx(self.active.as_slice()) {
            Some(i) => i,
            None => {
                self.current_state_id = 0;
                return;
            },
        };
        assert(w[last_idx as int] == self.active@[last_idx as int]@);
        let last_key = self.active[last_idx].rule.key;
        if !self.can_process_key_raw(last_key) {
            let mut work = clone_comp(self.active.as_slice());
            let ghost before = work@;
            work.pop();
            assert(work@ =~= before.drop_last());
            assert(comp_model(work@) =~= w.drop_last());
            self.active = work;
            self.current_state_id = 0;
            return;
        }
        let split = extract_last_word(self.active.as_slice(), Some(self.input_method.keys.as_slice()));
        let mut previous = clone_range(self.active.as_slice(), 0, split);
        assert(w.subrange(0, split as int) =~= w.take(split as int));
        let n = self.active.len();
        let mut kept: Vec<Transformation> = Vec::new();
        let mut j: usize = split;
        while j < n
            invariant
                w == comp_model(self.active@),
                n == self.active@.len(),
                split <= j <= n,
                comp_model(kept@) == kept_upto(w, split as int, last_idx as int, j - split),
            decreases n - j,
        {
            assert(w[j as int] == self.active@[j as int]@);
            let skip = j == last_idx || self.active[j].target == Some(last_idx);
            if !skip {
                push24_exec(&mut kept, clone_trans(&self.active[j]));
            }
            j = j + 1;
        }
        proof { lemma_kept_len(w, split as int, last_idx as int, n - split); }
        if refresh_last_tone_target {
            let extra = refresh_last_tone_target_into(&mut kept, self.config.to_flags() & ESTD_TONE_STYLE != 0);
            extend24_exec(&mut kept, extra.as_slice());
        }
        extend24_exec(&mut previous, kept.as_slice());
        self.active = previous;
        self.current_state_id = 0;
    }

    /// The active composition.
    pub(crate) fn active_slice(&self) -> (r: &[Transformation])
        ensures
            comp_model(r@) == self@.active,
    {
        self.active.as_slice()
    }

    /// Warms up the DFA: a new DFA learns the common Vietnamese syllables
    /// (see [`DfaCompiler::compile_common`]), so that typing them first
    /// follows the DFA. The engine returns to state 0.
    pub fn warm_up(&mut self)
        requires
            old(self).wf(),
        ensures
            final(self).wf(),
            final(self)@ == (EngineModel {
                dfa: add_runs(initial_dfa(), old(self)@.im, engine_flags(old(self)@), common_inputs()),
                state: 0,
                ..old(self)@
            }),
    {
        let mut compiler = DfaCompiler::new(&self.input_method, self.config.to_flags());
        compiler.compile_common();
        let dfa = compiler.dfa;
        self.dfa = dfa;
        self.current_state_id = 0;
        proof { crate::config::lemma_flags_round_trip(self.config); }
    }

    /// Resets the engine state, clearing committed and active text and the
    /// learned DFA: the engine is then as new, with the same input method and
    /// configuration.
    pub fn reset(&mut self)
        requires
            old(self).wf(),
        ensures
            final(self).wf(),
            final(self)@ == fresh_engine(old(self)@.im, old(self)@.config),
    {
        self.committed_text = String::new();
        self.active = Vec::new();
        self.prev_preedit = String::new();
        self.dfa = Dfa::new();
        self.current_state_id = 0;
        assert(comp_model(self.active@) =~= Seq::<TransModel>::empty());
        proof { lemma_fresh_sound(self@.im, self@.config); }
        assert(self@ == fresh_engine(self@.im, self@.config));
    }
}

// ---------------------------------------------------------------------------
// The DFA as a cache of the rules
// ---------------------------------------------------------------------------

/// Every transition of DFA `d` leads to the composition the rules of `im`
/// under flag word `flags` give for its key (lowercase, ASCII) from the
/// composition of its source state.
pub open spec fn dfa_sound_for(d: DfaModel, im: InputMethodModel, flags: u32) -> bool {
    forall|s: int, c: char|
        0 <= s < d.states.len() && is_ascii_char(c) && #[trigger] d.states[s].transitions[key_index(c)] != 0
            ==> d.states[d.states[s].transitions[key_index(c)] as int].composition == new_composition(
            d.states[s].composition,
            im,
            flags,
            c,
            false,
        )
}

/// Every transition of the engine's DFA gives what the engine's rules give.
pub open spec fn dfa_sound(e: EngineModel) -> bool {
    dfa_sound_for(e.dfa, e.im, engine_flags(e))
}

/// Adding a state keeps a DFA sound: the new state has no transitions.
proof fn lemma_add_state_sound(d: DfaModel, im: InputMethodModel, flags: u32, comp: Seq<TransModel>)
    requires
        dfa_wf(d),
        dfa_sound_for(d, im, flags),
    ensures
        dfa_sound_for(spec_add_state(d, comp).0, im, flags),
{
    let d1 = spec_add_state(d, comp).0;
    assert forall|s: int, c: char|
        0 <= s < d1.states.len() && is_ascii_char(c) && #[trigger] d1.states[s].transitions[key_index(c)] != 0
        implies d1.states[d1.states[s].transitions[key_index(c)] as int].composition == new_composition(
        d1.states[s].composition,
        im,
        flags,
        c,
        false,
    ) by {
        if s < d.states.len() {
            assert(d1.states[s] == d.states[s]);
            let t = d.states[s].transitions[key_index(c)];
            assert(d1.states[t as int] == d.states[t as int]);
        } else {
            assert(d1.states[s].transitions == Seq::new(128, |i: int| 0u32));
        }
    }
}

/// The engine's state holds the engine's composition.
pub open spec fn synced(e: EngineModel) -> bool {
    e.dfa.states[e.state as int].composition == e.active
}

/// Learning, from a state in sync, the transition of lowercase ASCII key `lk`
/// to the composition the rules give keeps the engine well formed.
proof fn lemma_learn_keeps_wf(e: EngineModel, lk: char)
    requires
        engine_wf(e),
        synced(e),
        is_ascii_char(lk),
    ensures
        ({
            let work = new_composition(e.active, e.im, engine_flags(e), lk, false);
            let (d1, id) = spec_add_state(e.dfa, work);
            let e2 = EngineModel {
                active: work,
                dfa: spec_set_transition(d1, e.state as int, key_index(lk), id),
                state: id,
                ..e
            };
            &&& engine_wf(e2)
            &&& e2.dfa.states.len() <= e.dfa.states.len() + 1
            &&& (e.dfa.states.len() < u32::MAX ==> synced(e2))
        }),
{
    let d = e.dfa;
    let work = new_composition(e.active, e.im, engine_flags(e), lk, false);
    lemma_new_composition_len(e.active, e.im, engine_flags(e), lk, false);
    lemma_find_state_bounds(d, work);
    let (d1, id) = spec_add_state(d, work);
    let d2 = spec_set_transition(d1, e.state as int, key_index(lk), id);
    let e2 = EngineModel { active: work, dfa: d2, state: id, ..e };
    assert(forall|i: int| 0 <= i < d.states.len() ==> d1.states[i] == d.states[i]);
    assert(id != 0 || d.states.len() < u32::MAX ==> d1.states[id as int].composition == work);
    assert forall|i: int| 0 <= i < d2.states.len() implies (#[trigger] d2.states[i]).composition.len()
        <= MAX_ACTIVE_TRANS by {
        assert(d2.states[i].composition == d1.states[i].composition);
    }
    assert forall|i: int| 0 <= i < d2.states.len() implies (#[trigger] d2.states[i]).transitions.len() == 128 by {
        assert(d1.states[i].transitions.len() == 128);
    }
    assert forall|i: int, k: int| 0 <= i < d2.states.len() && 0 <= k < 128 implies (#[trigger] d2.states[i].transitions[k])
        < d2.states.len() by {
        if i == e.state as int && k == key_index(lk) {
        } else {
            assert(d2.states[i].transitions[k] == d1.states[i].transitions[k]);
            if i < d.states.len() {
                assert(d1.states[i].transitions[k] == d.states[i].transitions[k]);
            }
        }
    }
    assert(d2.states[0].composition == d.states[0].composition);
    assert forall|s: int, c: char|
        0 <= s < d2.states.len() && is_ascii_char(c) && #[trigger] d2.states[s].transitions[key_index(c)] != 0
        implies d2.states[d2.states[s].transitions[key_index(c)] as int].composition == new_composition(
        d2.states[s].composition,
        e2.im,
        engine_flags(e2),
        c,
        false,
    ) by {
        assert(d2.states[s].composition == d1.states[s].composition);
        if s == e.state as int && key_index(c) == key_index(lk) {
            vstd::utf8::char_u32_cast(c, c as u32);
            vstd::utf8::char_u32_cast(lk, lk as u32);
            assert(c == lk);
            assert(d2.states[s].transitions[key_index(c)] == id);
        } else {
            assert(d2.states[s].transitions[key_index(c)] == d1.states[s].transitions[key_index(c)]);
            if s < d.states.len() {
                let t = d.states[s].transitions[key_index(c)];
                assert(d2.states[t as int].composition == d.states[t as int].composition);
            } else {
                assert(d1.states[s].transitions == Seq::new(128, |i: int| 0u32));
            }
        }
    }
    assert(engine_wf(e2));
}

/// Every keystroke keeps the engine well formed (its DFA included: every
/// transition it holds gives what the rules give), and keeps its input method
/// and configuration.
pub proof fn lemma_process_key_wf(e: EngineModel, key: char, mode: Mode)
    requires
        engine_wf(e),
    ensures
        engine_wf(spec_process_key(e, key, mode)),
        spec_process_key(e, key, mode).im == e.im,
        spec_process_key(e, key, mode).config == e.config,
        spec_process_key(e, key, mode).dfa.states.len() <= e.dfa.states.len() + 1,
{
    let lk = spec_lower(key);
    let up = spec_is_upper(key);
    let d = e.dfa;
    let e2 = spec_process_key(e, key, mode);
    if mode == Mode::English || !spec_can_process(e.im, lk) {
        let wb = spec_is_word_break(lk);
        let e1 = if wb { spec_commit(e) } else { e };
        let t = new_app(lk, up);
        if e1.active.len() < MAX_ACTIVE_TRANS {
            lemma_find_state_bounds(e1.dfa, e1.active.push(t));
        }
        assert(e2.dfa == e.dfa && e2.im == e.im && e2.config == e.config);
    } else if dfa_key(lk, up) && synced(e) && d.states[e.state as int].transitions[key_index(lk)] != 0 {
        assert(e2.dfa == e.dfa);
    } else if dfa_key(lk, up) && synced(e) {
        lemma_learn_keeps_wf(e, lk);
    } else {
        let work = new_composition(e.active, e.im, engine_flags(e), lk, up);
        lemma_new_composition_len(e.active, e.im, engine_flags(e), lk, up);
        lemma_find_state_bounds(d, work);
        assert(e2.dfa == e.dfa);
    }
}

/// What a keystroke does to the committed text and the composition by the
/// rules alone, with no DFA.
pub open spec fn rules_step(
    committed: Seq<char>,
    active: Seq<TransModel>,
    im: InputMethodModel,
    flags: u32,
    key: char,
    mode: Mode,
) -> (Seq<char>, Seq<TransModel>) {
    let lk = spec_lower(key);
    let up = spec_is_upper(key);
    if mode == Mode::English || !spec_can_process(im, lk) {
        let wb = spec_is_word_break(lk);
        let (c1, a1) = if wb && active.len() > 0 {
            (committed + spec_flatten(active, 0), Seq::<TransModel>::empty())
        } else {
            (committed, active)
        };
        let a2 = if a1.len() < MAX_ACTIVE_TRANS { a1.push(new_app(lk, up)) } else { a1 };
        if wb && a2.len() > 0 {
            (c1 + spec_flatten(a2, 0), Seq::<TransModel>::empty())
        } else {
            (c1, a2)
        }
    } else {
        (committed, new_composition(active, im, flags, lk, up))
    }
}

/// The committed text and composition after `keys`, one after the other, by
/// the rules alone.
pub open spec fn rules_run(
    committed: Seq<char>,
    active: Seq<TransModel>,
    im: InputMethodModel,
    flags: u32,
    keys: Seq<char>,
    mode: Mode,
) -> (Seq<char>, Seq<TransModel>)
    decreases keys.len(),
{
    if keys.len() == 0 {
        (committed, active)
    } else {
        let (c, a) = rules_run(committed, active, im, flags, keys.drop_last(), mode);
        rules_step(c, a, im, flags, keys.last(), mode)
    }
}

/// The DFA changes nothing: on every well-formed engine (every engine the
/// public functions build), a keystroke gives the committed text and the
/// composition the rules alone give.
pub proof fn lemma_cache_transparent(e: EngineModel, key: char, mode: Mode)
    requires
        engine_wf(e),
    ensures
        (spec_process_key(e, key, mode).committed, spec_process_key(e, key, mode).active) == rules_step(
            e.committed,
            e.active,
            e.im,
            engine_flags(e),
            key,
            mode,
        ),
{
    let lk = spec_lower(key);
    let up = spec_is_upper(key);
    let d = e.dfa;
    if mode == Mode::English || !spec_can_process(e.im, lk) {
    } else if dfa_key(lk, up) && synced(e) && d.states[e.state as int].transitions[key_index(lk)] != 0 {
        assert(is_ascii_char(lk));
        let n = d.states[e.state as int].transitions[key_index(lk)];
        assert(d.states[n as int].composition == new_composition(d.states[e.state as int].composition, e.im, engine_flags(e), lk, false));
    }
}

/// The DFA changes nothing over any run of keys: on every well-formed engine,
/// the keys give the committed text and composition the rules alone give, and
/// the engine stays well formed, with its input method and configuration.
pub proof fn lemma_run_transparent(e: EngineModel, keys: Seq<char>, mode: Mode)
    requires
        engine_wf(e),
    ensures
        (spec_run(e, keys, mode).committed, spec_run(e, keys, mode).active) == rules_run(
            e.committed,
            e.active,
            e.im,
            engine_flags(e),
            keys,
            mode,
        ),
        engine_wf(spec_run(e, keys, mode)),
        spec_run(e, keys, mode).im == e.im,
        spec_run(e, keys, mode).config == e.config,
    decreases keys.len(),
{
    if keys.len() > 0 {
        lemma_run_transparent(e, keys.drop_last(), mode);
        let e1 = spec_run(e, keys.drop_last(), mode);
        lemma_cache_transparent(e1, keys.last(), mode);
        lemma_process_key_wf(e1, keys.last(), mode);
    }
}

/// A new engine is well formed; any keys typed on it give what the rules alone
/// give from nothing (so a reset engine, being new, types like any other).
pub proof fn lemma_fresh_run_transparent(im: InputMethodModel, config: Config, keys: Seq<char>, mode: Mode)
    ensures
        engine_wf(fresh_engine(im, config)),
        (spec_run(fresh_engine(im, config), keys, mode).committed, spec_run(fresh_engine(im, config), keys, mode).active)
            == rules_run(Seq::empty(), Seq::empty(), im, spec_to_flags(config), keys, mode),
{
    let e = fresh_engine(im, config);
    lemma_fresh_sound(im, config);
    assert(e.dfa.states[0] == empty_state());
    assert(engine_wf(e));
    lemma_run_transparent(e, keys, mode);
}

/// A new engine's DFA is sound and in sync.
pub proof fn lemma_fresh_sound(im: InputMethodModel, config: Config)
    ensures
        dfa_sound(fresh_engine(im, config)),
        synced(fresh_engine(im, config)),
{
    let e = fresh_engine(im, config);
    assert forall|s: int, c: char|
        0 <= s < e.dfa.states.len() && is_ascii_char(c) && #[trigger] e.dfa.states[s].transitions[key_index(c)] != 0
        implies false by {
        assert(s == 0);
        assert(e.dfa.states[0].transitions[key_index(c)] == 0);
    }
}

/// A Vietnamese keystroke the rules act on gives the composition the rules
/// give, whether or not the DFA knew the transition; typed in sync, a
/// lowercase ASCII key leaves the engine in sync (while the DFA has room).
pub proof fn lemma_dfa_transparent(e: EngineModel, key: char)
    requires
        engine_wf(e),
        spec_can_process(e.im, spec_lower(key)),
    ensures
        spec_process_key(e, key, Mode::Vietnamese).active == new_composition(
            e.active,
            e.im,
            engine_flags(e),
            spec_lower(key),
            spec_is_upper(key),
        ),
        spec_process_key(e, key, Mode::Vietnamese).committed == e.committed,
        synced(e) && dfa_key(spec_lower(key), spec_is_upper(key)) && e.dfa.states.len() < u32::MAX
            ==> synced(spec_process_key(e, key, Mode::Vietnamese)),
{
    let lk = spec_lower(key);
    let up = spec_is_upper(key);
    lemma_cache_transparent(e, key, Mode::Vietnamese);
    if dfa_key(lk, up) && synced(e) && e.dfa.states[e.state as int].transitions[key_index(lk)] == 0 {
        lemma_learn_keeps_wf(e, lk);
    }
}

/// Committing a composition leaves the DFA as it was and the engine back in
/// state 0 with nothing typed: in sync.
pub proof fn lemma_commit_syncs(e: EngineModel)
    requires
        engine_wf(e),
    ensures
        spec_commit(e).dfa == e.dfa,
        e.active.len() > 0 ==> synced(spec_commit(e)),
{
}

/// A call on an engine that changes it, as a value.
pub enum EngineCall {
    ProcessKey(char, Mode),
    ProcessKeyDelta(char, Mode),
    Commit,
    Reset,
    RemoveLastChar(bool),
    RestoreLastWord(bool),
    WarmUp,
    SetConfig(Config),
}

/// The engine after call `c`, as the call's contract gives it.
pub open spec fn spec_call(e: EngineModel, c: EngineCall) -> EngineModel {
    match c {
        EngineCall::ProcessKey(k, m) => spec_process_key(e, k, m),
        EngineCall::ProcessKeyDelta(k, m) => EngineModel {
            prev_preedit: spec_flatten(spec_process_key(e, k, m).active, 0),
            ..spec_process_key(e, k, m)
        },
        EngineCall::Commit => spec_commit(e),
        EngineCall::Reset => fresh_engine(e.im, e.config),
        EngineCall::RemoveLastChar(b) => spec_remove_last_char(e, b),
        EngineCall::RestoreLastWord(b) => spec_restore_last_word(e, b),
        EngineCall::WarmUp => EngineModel {
            dfa: add_runs(initial_dfa(), e.im, engine_flags(e), common_inputs()),
            state: 0,
            ..e
        },
        EngineCall::SetConfig(config) => spec_set_config(e, config),
    }
}

/// The engine after the calls `cs`, in order.
pub open spec fn spec_calls(e: EngineModel, cs: Seq<EngineCall>) -> EngineModel
    decreases cs.len(),
{
    if cs.len() == 0 {
        e
    } else {
        spec_call(spec_calls(e, cs.drop_last()), cs.last())
    }
}

/// The configuration after the calls `cs`: the last one set, or `config`.
pub open spec fn config_after(config: Config, cs: Seq<EngineCall>) -> Config
    decreases cs.len(),
{
    if cs.len() == 0 {
        config
    } else {
        match cs.last() {
            EngineCall::SetConfig(c) => c,
            _ => config_after(config, cs.drop_last()),
        }
    }
}

/// No sequence of calls changes the engine's input method, and the
/// configuration is the one last set (or the first).
pub proof fn lemma_calls_keep_input_method(e: EngineModel, cs: Seq<EngineCall>)
    ensures
        spec_calls(e, cs).im == e.im,
        spec_calls(e, cs).config == config_after(e.config, cs),
    decreases cs.len(),
{
    if cs.len() > 0 {
        lemma_calls_keep_input_method(e, cs.drop_last());
        lemma_call_keeps_input_method(spec_calls(e, cs.drop_last()), cs.last());
    }
}

proof fn lemma_call_keeps_input_method(e: EngineModel, c: EngineCall)
    ensures
        spec_call(e, c).im == e.im,
        spec_call(e, c).config == (match c {
            EngineCall::SetConfig(config) => config,
            _ => e.config,
        }),
{
    match c {
        EngineCall::ProcessKey(k, m) => lemma_process_key_keeps_input_method(e, k, m),
        EngineCall::ProcessKeyDelta(k, m) => lemma_process_key_keeps_input_method(e, k, m),
        EngineCall::RemoveLastChar(b) => lemma_remove_keeps_input_method(e, b),
        EngineCall::RestoreLastWord(b) => lemma_restore_keeps_input_method(e, b),
        _ => {},
    }
}

proof fn lemma_process_key_keeps_input_method(e: EngineModel, k: char, m: Mode)
    ensures
        spec_process_key(e, k, m).im == e.im,
        spec_process_key(e, k, m).config == e.config,
{
}

proof fn lemma_remove_keeps_input_method(e: EngineModel, b: bool)
    ensures
        spec_remove_last_char(e, b).im == e.im,
        spec_remove_last_char(e, b).config == e.config,
{
}

proof fn lemma_restore_keeps_input_method(e: EngineModel, b: bool)
    ensures
        spec_restore_last_word(e, b).im == e.im,
        spec_restore_last_word(e, b).config == e.config,
{
}

// ---------------------------------------------------------------------------
// Laws of the text the engine reports
// ---------------------------------------------------------------------------

/// The delta of [`Engine::process_key_delta`] turns the previous preedit into
/// the new one: the previous text is the common prefix followed by the
/// characters to erase, the new text is the common prefix followed by the
/// inserted text; the prefix is the longest common one, and the bytes to erase
/// are the UTF-8 size of the erased characters (their `str::len`).
pub proof fn lemma_delta_contract(prev: Seq<char>, cur: Seq<char>)
    requires
        prev.len() <= usize::MAX,
        utf8_count(prev) <= usize::MAX,
    ensures
        ({
            let (bs, bb, ins) = spec_delta(prev, cur);
            let keep = prev.len() - bs;
            &&& 0 <= keep <= prev.len()
            &&& keep <= cur.len()
            &&& prev.take(keep) == cur.take(keep)
            &&& cur == cur.take(keep) + ins
            &&& (keep < prev.len() && keep < cur.len() ==> prev[keep] != cur[keep])
            &&& bb == utf8_count(prev) - utf8_count(prev.take(keep))
            &&& utf8_count(prev.take(keep)) <= utf8_count(prev)
            &&& bb == vstd::utf8::encode_utf8(prev.skip(keep)).len()
        }),
{
    lemma_common_prefix(prev, cur);
    lemma_common_prefix_stops(prev, cur, 0);
    let l = common_prefix(prev, cur);
    assert(cur =~= cur.take(l) + cur.skip(l));
    lemma_utf8_count_prefix(prev, l);
    let (bs, bb, ins) = spec_delta(prev, cur);
    assert(bs == prev.len() - l);
    assert(prev.len() - bs == l);
    assert(prev =~= prev.take(l) + prev.skip(l));
    lemma_utf8_count_concat(prev.take(l), prev.skip(l));
    lemma_utf8_count_is_encoded_len(prev.skip(l));
}

proof fn lemma_common_prefix_stops(a: Seq<char>, b: Seq<char>, i: int)
    requires
        0 <= i,
    ensures
        ({
            let l = common_prefix_from(a, b, i);
            l < a.len() && l < b.len() && l >= 0 ==> a[l] != b[l]
        }),
    decreases a.len() - i,
{
    if 0 <= i < a.len() && i < b.len() && a[i] == b[i] {
        lemma_common_prefix_stops(a, b, i + 1);
    }
}

proof fn lemma_effects_on_push(comp: Seq<TransModel>, t: TransModel, a: int, raw: bool, n: int)
    requires
        0 <= n <= comp.len(),
    ensures
        crate::flattener::effects_on(comp.push(t), a, raw, n) == crate::flattener::effects_on(comp, a, raw, n),
    decreases n,
{
    if n > 0 {
        lemma_effects_on_push(comp, t, a, raw, n - 1);
        assert(comp.push(t)[n - 1] == comp[n - 1]);
    }
}

proof fn lemma_effects_on_bounds(comp: Seq<TransModel>, a: int, raw: bool, n: int)
    requires
        0 <= n <= comp.len(),
    ensures
        forall|k: int| 0 <= k < crate::flattener::effects_on(comp, a, raw, n).len()
            ==> 0 <= #[trigger] crate::flattener::effects_on(comp, a, raw, n)[k] < n,
    decreases n,
{
    if n > 0 {
        lemma_effects_on_bounds(comp, a, raw, n - 1);
        let p = crate::flattener::effects_on(comp, a, raw, n - 1);
        let cur = crate::flattener::effects_on(comp, a, raw, n);
        assert forall|k: int| 0 <= k < cur.len() implies 0 <= #[trigger] cur[k] < n by {
            if k < p.len() {
                assert(cur[k] == p[k]);
            }
        }
    }
}

proof fn lemma_apply_all_push(c: char, comp: Seq<TransModel>, t: TransModel, idxs: Seq<int>, key: char, n: int)
    requires
        forall|k: int| 0 <= k < idxs.len() ==> 0 <= #[trigger] idxs[k] < comp.len(),
    ensures
        crate::flattener::apply_all(c, comp.push(t), idxs, key, n) == crate::flattener::apply_all(c, comp, idxs, key, n),
    decreases n,
{
    if n > 0 && n <= idxs.len() {
        lemma_apply_all_push(c, comp, t, idxs, key, n - 1);
        assert(comp.push(t)[idxs[n - 1]] == comp[idxs[n - 1]]);
    }
}

/// Appending an output transformation that acts on nothing leaves the
/// characters of the earlier transformations as they were.
proof fn lemma_canvas_char_push(comp: Seq<TransModel>, t: TransModel, a: int, options: u32)
    requires
        0 <= a < comp.len(),
        crate::flattener::is_output(t, has(options, crate::output_options::RAW)),
    ensures
        crate::flattener::canvas_char(comp.push(t), a, options) == crate::flattener::canvas_char(comp, a, options),
{
    let raw = has(options, crate::output_options::RAW);
    let c2 = comp.push(t);
    assert(c2[a] == comp[a]);
    lemma_effects_on_push(comp, t, a, raw, comp.len() as int);
    assert(crate::flattener::effects_on(c2, a, raw, c2.len() as int) == crate::flattener::effects_on(comp, a, raw, comp.len() as int));
    let idxs = crate::flattener::last_effects(crate::flattener::effects_on(comp, a, raw, comp.len() as int));
    lemma_effects_on_bounds(comp, a, raw, comp.len() as int);
    let all = crate::flattener::effects_on(comp, a, raw, comp.len() as int);
    assert forall|k: int| 0 <= k < idxs.len() implies 0 <= #[trigger] idxs[k] < comp.len() by {
        if all.len() > 8 {
            assert(idxs[k] == all[k + all.len() - 8]);
        } else {
            assert(idxs[k] == all[k]);
        }
    }
    lemma_apply_all_push(comp[a].rule.effect_on, comp, t, idxs, comp[a].rule.key, idxs.len() as int);
}

proof fn lemma_flatten_upto_push(comp: Seq<TransModel>, t: TransModel, options: u32, n: int)
    requires
        0 <= n <= comp.len(),
        crate::flattener::is_output(t, has(options, crate::output_options::RAW)),
    ensures
        flatten_upto(comp.push(t), options, n) == flatten_upto(comp, options, n),
    decreases n,
{
    if n > 0 {
        lemma_flatten_upto_push(comp, t, options, n - 1);
        assert(comp.push(t)[n - 1] == comp[n - 1]);
        lemma_canvas_char_push(comp, t, n - 1, options);
    }
}

/// The text of a composition with one more plain key `key` (typed in upper
/// case when `up`), on which nothing acts: the old text and the key's letter.
pub proof fn lemma_flatten_push_key(comp: Seq<TransModel>, key: char, up: bool)
    requires
        key != '\0',
        forall|i: int| 0 <= i < comp.len() ==> #[trigger] comp[i].target != Some(comp.len() as usize),
    ensures
        spec_flatten(comp.push(new_app(key, up)), 0) == spec_flatten(comp, 0).push(
            if up { crate::utils::spec_upper(key) } else { key },
        ),
{
    let t = new_app(key, up);
    let c2 = comp.push(t);
    let n = comp.len() as int;
    assert(has(0, crate::output_options::RAW) == false && has(0, crate::output_options::TONE_LESS) == false
        && has(0, crate::output_options::MARK_LESS) == false && has(0, crate::output_options::LOWER_CASE) == false) by (bit_vector);
    lemma_flatten_upto_push(comp, t, 0, n);
    assert(c2[n] == t);
    assert forall|i: int| 0 <= i < c2.len() && i != n implies #[trigger] c2[i].target != Some(n as usize) by {
        assert(c2[i] == comp[i]);
    }
    lemma_effects_on_empty(c2, n, c2.len() as int);
    assert(crate::flattener::last_effects(Seq::<int>::empty()) =~= Seq::<int>::empty());
    assert(crate::flattener::canvas_char(c2, n, 0) == (if up { crate::utils::spec_upper(key) } else { key }));
    assert(flatten_upto(c2, 0, n + 1) == flatten_upto(c2, 0, n).push(crate::flattener::canvas_char(c2, n, 0)));
}

proof fn lemma_effects_on_empty(comp: Seq<TransModel>, a: int, n: int)
    requires
        0 <= a < comp.len(),
        n <= comp.len(),
        comp[a].target is None,
        crate::flattener::is_output(comp[a], false),
        forall|i: int| 0 <= i < comp.len() && i != a ==> #[trigger] comp[i].target != Some(a as usize),
    ensures
        crate::flattener::effects_on(comp, a, false, n) == Seq::<int>::empty(),
    decreases n,
{
    if n > 0 {
        lemma_effects_on_empty(comp, a, n - 1);
    }
}

/// The text of the engine with its committed part.
pub open spec fn full_text(e: EngineModel) -> Seq<char> {
    spec_processed_str(e, FULL_TEXT)
}

/// English mode passes ASCII text through: a printable ASCII key typed in
/// English mode adds exactly that character to the full text, when the
/// composition has room for it and nothing in it acts on the next position.
pub proof fn lemma_english_passthrough(e: EngineModel, key: char)
    requires
        engine_wf(e),
        is_ascii_char(key),
        key != '\0',
        e.active.len() < MAX_ACTIVE_TRANS,
        forall|i: int| 0 <= i < e.active.len() ==> #[trigger] e.active[i].target != Some(e.active.len() as usize),
    ensures
        full_text(spec_process_key(e, key, Mode::English)) == full_text(e).push(key),
{
    let lk = spec_lower(key);
    let up = spec_is_upper(key);
    vstd::utf8::char_u32_cast(key, key as u32);
    if 'A' <= key && key <= 'Z' {
        let l = ((key as u32) + 32) as char;
        assert(lk == l);
        vstd::utf8::char_u32_cast(l, l as u32);
        assert(((l as u32) - 32) as char == key);
        assert(crate::utils::spec_upper(lk) == key);
    }
    assert((if up { crate::utils::spec_upper(lk) } else { lk }) == key);
    assert(lk != '\0');
    assert(has(FULL_TEXT, FULL_TEXT)) by (bit_vector);
    assert(has(FULL_TEXT, crate::output_options::RAW) == false) by (bit_vector);
    lemma_flatten_full_text_options(e.active);
    let wb = spec_is_word_break(lk);
    if wb {
        let e1 = spec_commit(e);
        assert(e1.active.len() == 0);
        let e2 = spec_push_active(e1, new_app(lk, up));
        assert(e2.active == seq![new_app(lk, up)]) by {
            assert(Seq::<TransModel>::empty().push(new_app(lk, up)) =~= seq![new_app(lk, up)]);
        }
        lemma_flatten_push_key(Seq::<TransModel>::empty(), lk, up);
        assert(Seq::<TransModel>::empty().push(new_app(lk, up)) =~= seq![new_app(lk, up)]);
        assert(spec_flatten(Seq::<TransModel>::empty(), 0) =~= Seq::<char>::empty());
        lemma_flatten_full_text_options(e2.active);
        lemma_flatten_full_text_options(Seq::<TransModel>::empty());
        assert(spec_flatten(Seq::<TransModel>::empty(), FULL_TEXT) =~= Seq::<char>::empty());
        let e3 = spec_commit(e2);
        if e.active.len() == 0 {
            assert(e1 == e);
        }
        assert(e3.committed =~= e.committed + spec_flatten(e.active, 0) + seq![key]);
    } else {
        lemma_flatten_push_key(e.active, lk, up);
        lemma_flatten_full_text_options(e.active.push(new_app(lk, up)));
    }
}

proof fn lemma_last_word_split_bounds(comp: Seq<TransModel>, keys: Option<Seq<char>>, i: int)
    ensures
        0 <= last_word_split(comp, keys, i),
        last_word_split(comp, keys, i) <= if i < 0 { 0 } else { i },
    decreases i,
{
    if i > 0 && i <= comp.len() {
        lemma_last_word_split_bounds(comp, keys, i - 1);
    }
}

proof fn lemma_kept_prefix(w: Seq<TransModel>, split: int, li: int, n: int)
    requires
        0 <= split,
        0 <= n,
        split + n <= li,
        li < w.len(),
        li - split <= MAX_ACTIVE_TRANS,
        forall|i: int| 0 <= i < li ==> #[trigger] w[i].target != Some(li as usize),
    ensures
        kept_upto(w, split, li, n) == w.subrange(split, split + n),
    decreases n,
{
    if n > 0 {
        lemma_kept_prefix(w, split, li, n - 1);
        assert(w.subrange(split, split + n) =~= w.subrange(split, split + n - 1).push(w[split + n - 1]));
    } else {
        assert(w.subrange(split, split) =~= Seq::<TransModel>::empty());
    }
}

/// Backspace undoes a letter typed in English mode: typing an ASCII letter
/// (when the composition has room and nothing in it acts on the next
/// position) and then removing the last character, without moving the tone,
/// gives back the composition.
#[verifier::spinoff_prover]
#[verifier::rlimit(40)]
pub proof fn lemma_backspace_undoes_english_letter(e: EngineModel, key: char)
    requires
        engine_wf(e),
        spec_is_ascii_alpha(key),
        e.active.len() < MAX_ACTIVE_TRANS,
        forall|i: int| 0 <= i < e.active.len() ==> #[trigger] e.active[i].target != Some(e.active.len() as usize),
    ensures
        spec_remove_last_char(spec_process_key(e, key, Mode::English), false).active == e.active,
{
    let lk = spec_lower(key);
    let up = spec_is_upper(key);
    vstd::utf8::char_u32_cast(key, key as u32);
    if 'A' <= key && key <= 'Z' {
        let l = ((key as u32) + 32) as char;
        vstd::utf8::char_u32_cast(l, l as u32);
        assert(lk == l);
    }
    assert('a' <= lk <= 'z');
    assert(!spec_is_word_break(lk));
    let a = e.active;
    let n = a.len() as int;
    let t = new_app(lk, up);
    let a1 = a.push(t);
    let e1 = spec_process_key(e, key, Mode::English);
    assert(e1.active == a1);
    assert(last_keyed_upto(a1, n + 1) == Some(n));
    assert(spec_can_process(e.im, lk));
    // the letter is part of the last word
    assert(has(7, crate::output_options::RAW) == false && has(7, crate::output_options::TONE_LESS)
        && has(7, crate::output_options::MARK_LESS) && has(7, crate::output_options::LOWER_CASE)) by (bit_vector);
    crate::utils::lemma_ascii_letter_plain(lk);
    assert(crate::flattener::first_output_from(a1, false, n) == Some(n));
    assert(crate::flattener::apply_suffix(lk, a1, n, lk, n, n + 1) == lk) by {
        assert(a1[n].target is None);
        assert(crate::flattener::apply_suffix(lk, a1, n, lk, n, n) == lk);
    }
    assert(spec_lower(lk) == lk);
    assert(crate::flattener::spec_first_canvas_char(a1, n, 7) == Some(lk));
    let split = last_word_split(a1, Some(e.im.keys), n + 1);
    lemma_last_word_split_bounds(a1, Some(e.im.keys), n);
    assert(split == last_word_split(a1, Some(e.im.keys), n));
    assert forall|i: int| 0 <= i < n implies #[trigger] a1[i].target != Some(n as usize) by {
        assert(a1[i] == a[i]);
    }
    lemma_kept_prefix(a1, split, n, n - split);
    let kept = kept_upto(a1, split, n, n + 1 - split);
    assert(kept == kept_upto(a1, split, n, n - split));
    assert(a1.subrange(split, n) =~= a.subrange(split, n));
    assert(a1.take(split) =~= a.take(split));
    assert(a.take(split) + a.subrange(split, n) =~= a);
}

/// Each ASCII letter of `keys` as a plain appending transformation, lowercase
/// and marked with its case.
pub open spec fn letter_apps(keys: Seq<char>) -> Seq<TransModel> {
    Seq::new(keys.len(), |i: int| new_app(spec_lower(keys[i]), spec_is_upper(keys[i])))
}

/// An ASCII letter lowercased is a lowercase letter, which lowercases to itself.
proof fn lemma_ascii_letter_lower(key: char)
    requires
        spec_is_ascii_alpha(key),
    ensures
        'a' <= spec_lower(key) <= 'z',
        spec_lower(spec_lower(key)) == spec_lower(key),
        !spec_is_word_break(spec_lower(key)),
{
    vstd::utf8::char_u32_cast(key, key as u32);
    if 'A' <= key && key <= 'Z' {
        let l = ((key as u32) + 32) as char;
        vstd::utf8::char_u32_cast(l, l as u32);
        assert(spec_lower(key) == l);
    }
    let lk = spec_lower(key);
    vstd::utf8::char_u32_cast(lk, lk as u32);
}

/// Letters typed in English mode on nothing are appended as they come.
proof fn lemma_english_letters_run(im: InputMethodModel, flags: u32, keys: Seq<char>)
    requires
        keys.len() <= MAX_ACTIVE_TRANS,
        forall|i: int| 0 <= i < keys.len() ==> spec_is_ascii_alpha(#[trigger] keys[i]),
    ensures
        rules_run(Seq::empty(), Seq::empty(), im, flags, keys, Mode::English) == (Seq::<char>::empty(), letter_apps(keys)),
    decreases keys.len(),
{
    if keys.len() > 0 {
        let ks = keys.drop_last();
        assert forall|i: int| 0 <= i < ks.len() implies spec_is_ascii_alpha(#[trigger] ks[i]) by {
            assert(ks[i] == keys[i]);
        }
        lemma_english_letters_run(im, flags, ks);
        let k = keys.last();
        lemma_ascii_letter_lower(k);
        assert(letter_apps(ks).push(new_app(spec_lower(k), spec_is_upper(k))) =~= letter_apps(keys));
    } else {
        assert(letter_apps(keys) =~= Seq::<TransModel>::empty());
    }
}

/// Letters typed in Vietnamese mode on nothing go through the rules one by
/// one, as replaying their plain transformations does.
#[verifier::spinoff_prover]
proof fn lemma_vietnamese_letters_run(im: InputMethodModel, flags: u32, keys: Seq<char>, n: int)
    requires
        0 <= n <= keys.len(),
        forall|i: int| 0 <= i < keys.len() ==> spec_is_ascii_alpha(#[trigger] keys[i]),
    ensures
        rules_run(Seq::empty(), Seq::empty(), im, flags, keys.take(n), Mode::Vietnamese)
            == (Seq::<char>::empty(), replay(letter_apps(keys), im, flags, n)),
    decreases n,
{
    if n > 0 {
        lemma_vietnamese_letters_run(im, flags, keys, n - 1);
        assert(keys.take(n).drop_last() =~= keys.take(n - 1));
        let k = keys[n - 1];
        assert(keys.take(n).last() == k);
        lemma_ascii_letter_lower(k);
        let t = letter_apps(keys)[n - 1];
        assert(t == new_app(spec_lower(k), spec_is_upper(k)));
        assert(t.rule.key == spec_lower(k));
    } else {
        assert(keys.take(0) =~= Seq::<char>::empty());
    }
}

/// With no transformation targeting anything, no effect changes a letter.
proof fn lemma_apply_suffix_untargeted(c: char, comp: Seq<TransModel>, a: int, k: char, start: int, n: int)
    requires
        0 <= start,
        forall|j: int| 0 <= j < comp.len() ==> (#[trigger] comp[j]).target is None,
    ensures
        crate::flattener::apply_suffix(c, comp, a, k, start, n) == c,
    decreases n - start,
{
    if start < n && n <= comp.len() {
        lemma_apply_suffix_untargeted(c, comp, a, k, start, n - 1);
        assert(comp[n - 1].target is None);
    }
}

/// Plain ASCII letters make one word: the last word starts at the beginning.
proof fn lemma_letters_one_word(keys: Seq<char>, ek: Option<Seq<char>>, n: int)
    requires
        0 <= n <= keys.len(),
        forall|i: int| 0 <= i < keys.len() ==> spec_is_ascii_alpha(#[trigger] keys[i]),
    ensures
        last_word_split(letter_apps(keys), ek, n) == 0,
    decreases n,
{
    if n > 0 {
        lemma_letters_one_word(keys, ek, n - 1);
        let apps = letter_apps(keys);
        let i = n - 1;
        let lk = spec_lower(keys[i]);
        lemma_ascii_letter_lower(keys[i]);
        crate::utils::lemma_ascii_letter_plain(lk);
        assert(crate::flattener::first_output_from(apps, false, i) == Some(i));
        assert forall|j: int| 0 <= j < apps.len() implies (#[trigger] apps[j]).target is None by {}
        lemma_apply_suffix_untargeted(lk, apps, i, lk, i, apps.len() as int);
        assert(has(7, crate::output_options::RAW) == false && has(7, crate::output_options::TONE_LESS)
            && has(7, crate::output_options::MARK_LESS) && has(7, crate::output_options::LOWER_CASE)) by (bit_vector);
        assert(crate::flattener::spec_first_canvas_char(apps, i, 7) == Some(lk));
    }
}

/// The raw keystrokes of the first `n` plain letters are those letters.
proof fn lemma_break_letters(keys: Seq<char>, n: int)
    requires
        0 <= n <= keys.len() <= MAX_ACTIVE_TRANS,
        forall|i: int| 0 <= i < keys.len() ==> spec_is_ascii_alpha(#[trigger] keys[i]),
    ensures
        break_upto(letter_apps(keys), n) == letter_apps(keys).take(n),
    decreases n,
{
    if n > 0 {
        lemma_break_letters(keys, n - 1);
        lemma_ascii_letter_lower(keys[n - 1]);
        assert(letter_apps(keys).take(n) =~= letter_apps(keys).take(n - 1).push(letter_apps(keys)[n - 1]));
    } else {
        assert(letter_apps(keys).take(0) =~= Seq::<TransModel>::empty());
    }
}

/// Restoring a word to Vietnamese types each of its keystrokes again through
/// the rules, in its own case: on a new engine, ASCII letters typed in
/// English mode (at most [`MAX_ACTIVE_TRANS`] of them) and then restored to
/// Vietnamese give the composition the same letters give when typed in
/// Vietnamese mode (so `Vieetj` restored gives `Việt`, capital kept).
/// Restored to its keystrokes as typed, such a word stays as it is.
pub proof fn lemma_restore_retypes(im: InputMethodModel, config: Config, keys: Seq<char>)
    requires
        keys.len() <= MAX_ACTIVE_TRANS,
        forall|i: int| 0 <= i < keys.len() ==> spec_is_ascii_alpha(#[trigger] keys[i]),
    ensures
        spec_restore_last_word(spec_run(fresh_engine(im, config), keys, Mode::English), true).active
            == spec_run(fresh_engine(im, config), keys, Mode::Vietnamese).active,
        spec_restore_last_word(spec_run(fresh_engine(im, config), keys, Mode::English), false).active
            == spec_run(fresh_engine(im, config), keys, Mode::English).active,
{
    let f = fresh_engine(im, config);
    let flags = spec_to_flags(config);
    lemma_fresh_run_transparent(im, config, keys, Mode::English);
    lemma_fresh_run_transparent(im, config, keys, Mode::Vietnamese);
    lemma_run_transparent(f, keys, Mode::English);
    let e = spec_run(f, keys, Mode::English);
    lemma_english_letters_run(im, flags, keys);
    let apps = letter_apps(keys);
    assert(e.active == apps);
    lemma_vietnamese_letters_run(im, flags, keys, keys.len() as int);
    assert(keys.take(keys.len() as int) =~= keys);
    let v = replay(apps, im, flags, keys.len() as int);
    assert(spec_run(f, keys, Mode::Vietnamese).active == v);
    lemma_letters_one_word(keys, Some(im.keys), keys.len() as int);
    assert(apps.skip(0) =~= apps);
    assert(apps.take(0) =~= Seq::<TransModel>::empty());
    lemma_replay_len(apps, im, flags, keys.len() as int);
    assert(Seq::<TransModel>::empty() + v =~= v);
    lemma_break_letters(keys, keys.len() as int);
    assert(apps.take(keys.len() as int) =~= apps);
    assert(Seq::<TransModel>::empty() + apps =~= apps);
    if keys.len() == 0 {
        assert(v =~= Seq::<TransModel>::empty());
    }
}

/// Whether key `c`, lowercased, breaks words.
pub open spec fn breaks_word(c: char) -> bool {
    spec_is_word_break(spec_lower(c))
}

/// How many keys at the end of `s` follow its last word break.
pub open spec fn trailing_run(s: Seq<char>) -> nat
    decreases s.len(),
{
    if s.len() == 0 {
        0
    } else if breaks_word(s.last()) {
        0
    } else {
        trailing_run(s.drop_last()) + 1
    }
}

/// An ASCII key lowercased and shown in its case is the key itself.
proof fn lemma_ascii_case_round_trip(key: char)
    requires
        is_ascii_char(key),
    ensures
        (if spec_is_upper(key) { crate::utils::spec_upper(spec_lower(key)) } else { spec_lower(key) }) == key,
        key != '\0' ==> spec_lower(key) != '\0',
{
    let lk = spec_lower(key);
    vstd::utf8::char_u32_cast(key, key as u32);
    if 'A' <= key && key <= 'Z' {
        let l = ((key as u32) + 32) as char;
        assert(lk == l);
        vstd::utf8::char_u32_cast(l, l as u32);
        assert(((l as u32) - 32) as char == key);
    }
}

proof fn lemma_english_rules_run(im: InputMethodModel, flags: u32, keys: Seq<char>)
    requires
        forall|i: int| 0 <= i < keys.len() ==> is_ascii_char(#[trigger] keys[i]) && keys[i] != '\0',
        forall|i: int| 0 <= i <= keys.len() ==> #[trigger] trailing_run(keys.take(i)) <= MAX_ACTIVE_TRANS,
    ensures
        ({
            let (c, a) = rules_run(Seq::empty(), Seq::empty(), im, flags, keys, Mode::English);
            &&& c + spec_flatten(a, 0) == keys
            &&& a.len() == trailing_run(keys)
            &&& forall|j: int| 0 <= j < a.len() ==> (#[trigger] a[j]).target is None
        }),
    decreases keys.len(),
{
    if keys.len() == 0 {
        assert(spec_flatten(Seq::<TransModel>::empty(), 0) =~= Seq::<char>::empty());
        assert(Seq::<char>::empty() + Seq::<char>::empty() =~= keys);
    } else {
        let ks = keys.drop_last();
        let k = keys.last();
        assert forall|i: int| 0 <= i < ks.len() implies is_ascii_char(#[trigger] ks[i]) && ks[i] != '\0' by {
            assert(ks[i] == keys[i]);
        }
        assert forall|i: int| 0 <= i <= ks.len() implies #[trigger] trailing_run(ks.take(i)) <= MAX_ACTIVE_TRANS by {
            assert(ks.take(i) =~= keys.take(i));
        }
        lemma_english_rules_run(im, flags, ks);
        let (c, a) = rules_run(Seq::empty(), Seq::empty(), im, flags, ks, Mode::English);
        assert(keys.take(keys.len() as int) =~= keys);
        assert(trailing_run(keys) <= MAX_ACTIVE_TRANS);
        assert(keys.drop_last() == ks);
        assert(is_ascii_char(k) && k != '\0');
        lemma_ascii_case_round_trip(k);
        let lk = spec_lower(k);
        let up = spec_is_upper(k);
        let t = new_app(lk, up);
        let empty = Seq::<TransModel>::empty();
        assert(keys =~= ks.push(k));
        if breaks_word(k) {
            let c1 = if a.len() > 0 { c + spec_flatten(a, 0) } else { c };
            if a.len() == 0 {
                assert(a =~= empty);
                assert(spec_flatten(a, 0) =~= Seq::<char>::empty());
            }
            assert(c1 == c + spec_flatten(a, 0));
            lemma_flatten_push_key(empty, lk, up);
            assert(spec_flatten(empty, 0) =~= Seq::<char>::empty());
            assert(empty.push(t) =~= seq![t]);
            assert(spec_flatten(seq![t], 0) =~= seq![k]);
            assert(spec_flatten(empty, 0) =~= Seq::<char>::empty());
            assert(c1 + spec_flatten(seq![t], 0) + spec_flatten(empty, 0) =~= keys);
        } else {
            assert(a.len() < MAX_ACTIVE_TRANS);
            assert forall|j: int| 0 <= j < a.len() implies #[trigger] a[j].target != Some(a.len() as usize) by {}
            lemma_flatten_push_key(a, lk, up);
            assert(c + spec_flatten(a.push(t), 0) =~= keys);
            assert forall|j: int| 0 <= j < a.push(t).len() implies (#[trigger] a.push(t)[j]).target is None by {
                if j < a.len() {
                    assert(a.push(t)[j] == a[j]);
                }
            }
        }
    }
}

/// English mode passes text through: on a new engine, ASCII keys (no NUL)
/// typed in English mode, with at most [`MAX_ACTIVE_TRANS`] keys between
/// word breaks, give exactly those keys as the full text.
pub proof fn lemma_english_text(im: InputMethodModel, config: Config, keys: Seq<char>)
    requires
        forall|i: int| 0 <= i < keys.len() ==> is_ascii_char(#[trigger] keys[i]) && keys[i] != '\0',
        forall|i: int| 0 <= i <= keys.len() ==> #[trigger] trailing_run(keys.take(i)) <= MAX_ACTIVE_TRANS,
    ensures
        full_text(spec_run(fresh_engine(im, config), keys, Mode::English)) == keys,
{
    lemma_fresh_run_transparent(im, config, keys, Mode::English);
    lemma_english_rules_run(im, spec_to_flags(config), keys);
    lemma_full_text_is_committed_and_output(spec_run(fresh_engine(im, config), keys, Mode::English));
}

/// The full text is the committed text followed by the output of the
/// composition being typed.
pub proof fn lemma_full_text_is_committed_and_output(e: EngineModel)
    ensures
        full_text(e) == e.committed + spec_flatten(e.active, 0),
{
    assert(has(FULL_TEXT, FULL_TEXT)) by (bit_vector);
    lemma_flatten_full_text_options(e.active);
}

/// The full-text flag changes nothing of how a composition is rendered.
proof fn lemma_flatten_full_text_options(comp: Seq<TransModel>)
    ensures
        spec_flatten(comp, FULL_TEXT) == spec_flatten(comp, 0),
{
    lemma_flatten_upto_options(comp, comp.len() as int);
}

proof fn lemma_flatten_upto_options(comp: Seq<TransModel>, n: int)
    ensures
        flatten_upto(comp, FULL_TEXT, n) == flatten_upto(comp, 0, n),
    decreases n,
{
    assert(has(FULL_TEXT, crate::output_options::RAW) == false && has(FULL_TEXT, crate::output_options::TONE_LESS) == false
        && has(FULL_TEXT, crate::output_options::MARK_LESS) == false && has(FULL_TEXT, crate::output_options::LOWER_CASE) == false
        && has(0, crate::output_options::RAW) == false && has(0, crate::output_options::TONE_LESS) == false
        && has(0, crate::output_options::MARK_LESS) == false && has(0, crate::output_options::LOWER_CASE) == false) by (bit_vector);
    if n > 0 && n <= comp.len() {
        lemma_flatten_upto_options(comp, n - 1);
    }
}

// ---------------------------------------------------------------------------
// Precompiling common syllables
// ---------------------------------------------------------------------------

/// The flag word an engine configured from `flags` works with: its three
/// known bits.
pub open spec fn compile_flags(flags: u32) -> u32 {
    spec_to_flags(spec_from_flags(flags))
}

/// A new engine, configured from `flags`, typing over DFA `d`.
pub open spec fn compile_engine(im: InputMethodModel, flags: u32, d: DfaModel) -> EngineModel {
    EngineModel { dfa: d, ..fresh_engine(im, spec_from_flags(flags)) }
}

/// The composition the rules give for `keys` typed from nothing.
pub open spec fn simulated(im: InputMethodModel, flags: u32, keys: Seq<char>) -> Seq<TransModel> {
    rules_run(Seq::empty(), Seq::empty(), im, compile_flags(flags), keys, Mode::Vietnamese).1
}

/// `d` after `keys` are typed on it from the empty composition (learning the
/// transitions they take), with a state for the composition they give.
#[verifier::opaque]
pub open spec fn run_input(d: DfaModel, im: InputMethodModel, flags: u32, keys: Seq<char>) -> DfaModel {
    spec_add_state(
        spec_run(compile_engine(im, flags, d), keys, Mode::Vietnamese).dfa,
        simulated(im, flags, keys),
    ).0
}

/// `d` after each input, in order, is typed on it (see [`run_input`]).
pub open spec fn add_runs(d: DfaModel, im: InputMethodModel, flags: u32, inputs: Seq<Seq<char>>) -> DfaModel
    decreases inputs.len(),
{
    if inputs.len() == 0 {
        d
    } else {
        run_input(add_runs(d, im, flags, inputs.drop_last()), im, flags, inputs.last())
    }
}

proof fn lemma_add_runs_push(d: DfaModel, im: InputMethodModel, flags: u32, a: Seq<Seq<char>>, x: Seq<char>)
    ensures
        add_runs(d, im, flags, a.push(x)) == run_input(add_runs(d, im, flags, a), im, flags, x),
{
    assert(a.push(x).drop_last() =~= a);
}

pub proof fn lemma_add_runs_concat(d: DfaModel, im: InputMethodModel, flags: u32, a: Seq<Seq<char>>, b: Seq<Seq<char>>)
    ensures
        add_runs(d, im, flags, a + b) == add_runs(add_runs(d, im, flags, a), im, flags, b),
    decreases b.len(),
{
    if b.len() == 0 {
        assert(a + b =~= a);
    } else {
        assert((a + b).drop_last() =~= a + b.drop_last());
        assert((a + b).last() == b.last());
        lemma_add_runs_concat(d, im, flags, a, b.drop_last());
    }
}

/// A compiler can type over its DFA: the DFA is one an engine can use, and
/// sound for the compiler's input method and flags.
pub open spec fn compiler_ready(d: DfaModel, im: InputMethodModel, flags: u32) -> bool {
    dfa_bounded(d) && dfa_sound_for(d, im, compile_flags(flags))
}

/// A vowel alone and followed by each Telex tone key.
pub open spec fn vowel_inputs(v: char) -> Seq<Seq<char>> {
    seq![seq![v], seq![v, 's'], seq![v, 'f'], seq![v, 'r'], seq![v, 'x'], seq![v, 'j']]
}

/// The common double vowels.
pub open spec fn double_vowel_inputs() -> Seq<Seq<char>> {
    seq![seq!['a', 'a'], seq!['e', 'e'], seq!['o', 'o'], seq!['a', 'w'], seq!['o', 'w'], seq!['u', 'w']]
}

/// The inputs compiled by [`DfaCompiler::compile_common`], in order.
pub open spec fn common_inputs() -> Seq<Seq<char>> {
    vowel_inputs('a') + vowel_inputs('e') + vowel_inputs('i') + vowel_inputs('o') + vowel_inputs('u')
        + vowel_inputs('y') + double_vowel_inputs()
}

// ---------------------------------------------------------------------------
// Warm-up makes the common syllables reachable
// ---------------------------------------------------------------------------

proof fn lemma_fallback_upto_nonempty(t: TransModel, up: bool, n: int)
    ensures
        crate::bamboo_util::fallback_upto(t, up, n).len() >= 1,
    decreases n,
{
    if n > 0 && n <= t.rule.appended.len() {
        lemma_fallback_upto_nonempty(t, up, n - 1);
    }
}

proof fn lemma_key_transformations_nonempty(comp: Seq<TransModel>, im: InputMethodModel, flags: u32, key: char, up: bool)
    ensures
        key_transformations(comp, im, flags, key, up).len() >= 1,
{
    let lk = spec_lower(key);
    let rules = applicable(im.rules, spec_lower(lk));
    let t = crate::bamboo_util::spec_appending_trans(rules, lk, up);
    lemma_fallback_upto_nonempty(t, up, t.rule.appended.len() as int);
}

/// A keystroke the rules act on never leaves an empty composition.
proof fn lemma_new_composition_nonempty(comp: Seq<TransModel>, im: InputMethodModel, flags: u32, key: char, up: bool)
    ensures
        new_composition(comp, im, flags, key, up).len() >= 1,
{
    let s = syllable_start(comp);
    lemma_syllable_scan_bounds(comp, comp.len() as int, false, false);
    let tail = shift_down(comp.skip(s), s as usize);
    lemma_key_transformations_nonempty(tail, im, flags, key, up);
    let g = engine_generate(tail, im, flags, key, up);
    assert(g.len() >= 1);
    assert(shift_up(g, s as usize).len() == g.len());
}

/// The state reached from `s` by the transitions of `keys`, one after the
/// other, when every one of them is known.
pub open spec fn walk(d: DfaModel, s: int, keys: Seq<char>) -> Option<int>
    decreases keys.len(),
{
    if keys.len() == 0 {
        Some(s)
    } else {
        match walk(d, s, keys.drop_last()) {
            Some(t) => if 0 <= t < d.states.len() && d.states[t].transitions[key_index(keys.last())] != 0 {
                Some(d.states[t].transitions[key_index(keys.last())] as int)
            } else {
                None
            },
            None => None,
        }
    }
}

/// `d2` keeps the states of `d1`, their compositions and the transitions `d1`
/// knows.
pub open spec fn dfa_extends(d1: DfaModel, d2: DfaModel) -> bool {
    &&& d1.states.len() <= d2.states.len()
    &&& forall|s: int| 0 <= s < d1.states.len() ==> #[trigger] d2.states[s].composition == d1.states[s].composition
    &&& forall|s: int, k: int|
        0 <= s < d1.states.len() && 0 <= k < 128 && #[trigger] d1.states[s].transitions[k] != 0
            ==> d2.states[s].transitions[k] == d1.states[s].transitions[k]
}

proof fn lemma_extends_trans(d1: DfaModel, d2: DfaModel, d3: DfaModel)
    requires
        dfa_extends(d1, d2),
        dfa_extends(d2, d3),
    ensures
        dfa_extends(d1, d3),
{
    assert forall|s: int, k: int|
        0 <= s < d1.states.len() && 0 <= k < 128 && #[trigger] d1.states[s].transitions[k] != 0
        implies d3.states[s].transitions[k] == d1.states[s].transitions[k] by {
        assert(d2.states[s].transitions[k] == d1.states[s].transitions[k]);
    }
}

proof fn lemma_walk_extends(d1: DfaModel, d2: DfaModel, s: int, keys: Seq<char>)
    requires
        dfa_wf(d1),
        dfa_extends(d1, d2),
        0 <= s < d1.states.len(),
        walk(d1, s, keys) is Some,
        forall|i: int| 0 <= i < keys.len() ==> is_ascii_char(#[trigger] keys[i]),
    ensures
        walk(d2, s, keys) == walk(d1, s, keys),
        0 <= walk(d1, s, keys)->0 < d1.states.len(),
    decreases keys.len(),
{
    if keys.len() > 0 {
        let ks = keys.drop_last();
        assert forall|i: int| 0 <= i < ks.len() implies is_ascii_char(#[trigger] ks[i]) by {
            assert(ks[i] == keys[i]);
        }
        lemma_walk_extends(d1, d2, s, ks);
        let t = walk(d1, s, ks)->0;
        let k = key_index(keys.last());
        assert(is_ascii_char(keys.last()));
        assert(0 <= k < 128);
        assert(d1.states[t].transitions[k] != 0);
        assert(d2.states[t].transitions[k] == d1.states[t].transitions[k]);
    }
}

proof fn lemma_add_state_extends(d: DfaModel, comp: Seq<TransModel>)
    requires
        dfa_wf(d),
    ensures
        dfa_extends(d, spec_add_state(d, comp).0),
{
    let d1 = spec_add_state(d, comp).0;
    assert forall|s: int| 0 <= s < d.states.len() implies #[trigger] d1.states[s].composition == d.states[s].composition by {
        assert(d1.states[s] == d.states[s]);
    }
    assert forall|s: int, k: int|
        0 <= s < d.states.len() && 0 <= k < 128 && #[trigger] d.states[s].transitions[k] != 0
        implies d1.states[s].transitions[k] == d.states[s].transitions[k] by {
        assert(d1.states[s] == d.states[s]);
    }
}

/// A keystroke only adds to the DFA: it adds states and learns transitions
/// that were not known.
proof fn lemma_step_extends(e: EngineModel, key: char, mode: Mode)
    requires
        engine_wf(e),
    ensures
        dfa_extends(e.dfa, spec_process_key(e, key, mode).dfa),
{
    let lk = spec_lower(key);
    let up = spec_is_upper(key);
    let d = e.dfa;
    let e2 = spec_process_key(e, key, mode);
    if mode == Mode::English || !spec_can_process(e.im, lk) {
        assert(e2.dfa == d);
    } else if dfa_key(lk, up) && synced(e) && d.states[e.state as int].transitions[key_index(lk)] != 0 {
        assert(e2.dfa == d);
    } else if dfa_key(lk, up) && synced(e) {
        let work = new_composition(e.active, e.im, engine_flags(e), lk, up);
        lemma_add_state_extends(d, work);
        let (d1, id) = spec_add_state(d, work);
        let d2 = spec_set_transition(d1, e.state as int, key_index(lk), id);
        assert(e2.dfa == d2);
        assert(forall|i: int| 0 <= i < d.states.len() ==> d1.states[i] == d.states[i]);
        assert forall|s: int| 0 <= s < d.states.len() implies #[trigger] d2.states[s].composition == d.states[s].composition by {
            assert(d2.states[s].composition == d1.states[s].composition);
        }
        assert forall|s: int, k: int|
            0 <= s < d.states.len() && 0 <= k < 128 && #[trigger] d.states[s].transitions[k] != 0
            implies d2.states[s].transitions[k] == d.states[s].transitions[k] by {
            if s == e.state as int && k == key_index(lk) {
            } else {
                assert(d2.states[s].transitions[k] == d1.states[s].transitions[k]);
            }
        }
    } else {
        assert(e2.dfa == d);
    }
}

/// Lowercase letters typed on an engine in sync follow transitions from its
/// state to the state it ends in, and keep it in sync.
proof fn lemma_run_walks(e: EngineModel, keys: Seq<char>)
    requires
        engine_wf(e),
        synced(e),
        forall|i: int| 0 <= i < keys.len() ==> 'a' <= #[trigger] keys[i] <= 'z',
        e.dfa.states.len() + keys.len() < u32::MAX,
    ensures
        walk(spec_run(e, keys, Mode::Vietnamese).dfa, e.state as int, keys) == Some(
            spec_run(e, keys, Mode::Vietnamese).state as int,
        ),
        synced(spec_run(e, keys, Mode::Vietnamese)),
        dfa_extends(e.dfa, spec_run(e, keys, Mode::Vietnamese).dfa),
        spec_run(e, keys, Mode::Vietnamese).dfa.states.len() <= e.dfa.states.len() + keys.len(),
    decreases keys.len(),
{
    let d = e.dfa;
    if keys.len() == 0 {
        assert forall|s: int| 0 <= s < d.states.len() implies #[trigger] d.states[s].composition == d.states[s].composition by {}
    } else {
        let ks = keys.drop_last();
        let k = keys.last();
        assert forall|i: int| 0 <= i < ks.len() implies 'a' <= #[trigger] ks[i] <= 'z' by {
            assert(ks[i] == keys[i]);
        }
        lemma_run_walks(e, ks);
        lemma_run_transparent(e, ks, Mode::Vietnamese);
        let e1 = spec_run(e, ks, Mode::Vietnamese);
        let e2 = spec_process_key(e1, k, Mode::Vietnamese);
        assert('a' <= k <= 'z');
        assert(spec_lower(k) == k && !spec_is_upper(k));
        assert(spec_can_process(e1.im, k));
        lemma_process_key_wf(e1, k, Mode::Vietnamese);
        lemma_dfa_transparent(e1, k);
        lemma_step_extends(e1, k, Mode::Vietnamese);
        lemma_extends_trans(d, e1.dfa, e2.dfa);
        assert forall|i: int| 0 <= i < ks.len() implies is_ascii_char(#[trigger] ks[i]) by {
            assert('a' <= ks[i] <= 'z');
        }
        lemma_walk_extends(e1.dfa, e2.dfa, e.state as int, ks);
        let t = e1.state as int;
        let ki = key_index(k);
        if e1.dfa.states[t].transitions[ki] != 0 {
            assert(e2.state == e1.dfa.states[t].transitions[ki]);
        } else {
            let work = new_composition(e1.active, e1.im, engine_flags(e1), k, false);
            lemma_new_composition_nonempty(e1.active, e1.im, engine_flags(e1), k, false);
            lemma_find_state_bounds(e1.dfa, work);
            let (d1, id) = spec_add_state(e1.dfa, work);
            assert(d1.states[id as int].composition == work);
            assert(id != 0);
            assert(e2.dfa.states[t].transitions[ki] == id);
        }
    }
}

/// Typing `keys` on `d` (see [`run_input`]) keeps what `d` knows and makes
/// the composition of `keys` reachable from state 0.
#[verifier::spinoff_prover]
#[verifier::rlimit(40)]
proof fn lemma_run_input_walks(d: DfaModel, im: InputMethodModel, flags: u32, keys: Seq<char>)
    requires
        compiler_ready(d, im, flags),
        forall|i: int| 0 <= i < keys.len() ==> 'a' <= #[trigger] keys[i] <= 'z',
        d.states.len() + keys.len() + 1 < u32::MAX,
    ensures
        walk(run_input(d, im, flags, keys), 0, keys) matches Some(t)
            && run_input(d, im, flags, keys).states[t].composition == simulated(im, flags, keys),
        dfa_extends(d, run_input(d, im, flags, keys)),
        compiler_ready(run_input(d, im, flags, keys), im, flags),
        run_input(d, im, flags, keys).states.len() <= d.states.len() + keys.len() + 1,
{
    reveal(run_input);
    let e = compile_engine(im, flags, d);
    assert(engine_wf(e));
    assert(synced(e));
    lemma_run_walks(e, keys);
    lemma_run_transparent(e, keys, Mode::Vietnamese);
    let e2 = spec_run(e, keys, Mode::Vietnamese);
    let comp = simulated(im, flags, keys);
    assert(e2.active == comp);
    let d3 = spec_add_state(e2.dfa, comp).0;
    lemma_add_state_extends(e2.dfa, comp);
    lemma_extends_trans(d, e2.dfa, d3);
    lemma_add_state_sound(e2.dfa, im, compile_flags(flags), comp);
    assert forall|i: int| 0 <= i < keys.len() implies is_ascii_char(#[trigger] keys[i]) by {
        assert('a' <= keys[i] <= 'z');
    }
    lemma_walk_extends(e2.dfa, d3, 0, keys);
    lemma_find_state_bounds(e2.dfa, comp);
    assert forall|i: int| 0 <= i < d3.states.len() implies (#[trigger] d3.states[i]).composition.len() <= MAX_ACTIVE_TRANS by {
        if i < e2.dfa.states.len() {
            assert(d3.states[i] == e2.dfa.states[i]);
        }
    }
    assert(d3.states[0] == e2.dfa.states[0]);
}

/// Inputs of at most two lowercase letters each.
pub open spec fn short_lowercase_inputs(inputs: Seq<Seq<char>>) -> bool {
    forall|j: int, i: int|
        0 <= j < inputs.len() && 0 <= i < inputs[j].len() ==> 'a' <= #[trigger] inputs[j][i] <= 'z' && inputs[j].len() <= 2
}

proof fn lemma_add_runs_walks(d: DfaModel, im: InputMethodModel, flags: u32, inputs: Seq<Seq<char>>)
    requires
        compiler_ready(d, im, flags),
        short_lowercase_inputs(inputs),
        forall|j: int| 0 <= j < inputs.len() ==> (#[trigger] inputs[j]).len() <= 2,
        d.states.len() + 3 * inputs.len() + 1 < u32::MAX,
    ensures
        forall|j: int| 0 <= j < inputs.len() ==> (walk(add_runs(d, im, flags, inputs), 0, #[trigger] inputs[j]) matches Some(t)
            && add_runs(d, im, flags, inputs).states[t].composition == simulated(im, flags, inputs[j])),
        compiler_ready(add_runs(d, im, flags, inputs), im, flags),
        dfa_extends(d, add_runs(d, im, flags, inputs)),
        add_runs(d, im, flags, inputs).states.len() <= d.states.len() + 3 * inputs.len(),
    decreases inputs.len(),
{
    if inputs.len() == 0 {
        assert forall|s: int| 0 <= s < d.states.len() implies #[trigger] d.states[s].composition == d.states[s].composition by {}
    } else {
        let xs = inputs.drop_last();
        let x = inputs.last();
        assert(short_lowercase_inputs(xs)) by {
            assert forall|j: int, i: int| 0 <= j < xs.len() && 0 <= i < xs[j].len() implies 'a' <= #[trigger] xs[j][i] <= 'z'
                && xs[j].len() <= 2 by {
                assert(xs[j] == inputs[j]);
                assert(inputs[j][i] == xs[j][i]);
            }
        }
        assert forall|j: int| 0 <= j < xs.len() implies (#[trigger] xs[j]).len() <= 2 by {
            assert(xs[j] == inputs[j]);
        }
        lemma_add_runs_walks(d, im, flags, xs);
        let d1 = add_runs(d, im, flags, xs);
        assert(x == inputs[inputs.len() - 1]);
        assert(x.len() <= 2);
        assert forall|i: int| 0 <= i < x.len() implies 'a' <= #[trigger] x[i] <= 'z' by {
            assert(inputs[inputs.len() - 1][i] == x[i]);
        }
        lemma_run_input_walks(d1, im, flags, x);
        let d2 = run_input(d1, im, flags, x);
        assert(add_runs(d, im, flags, inputs) == d2);
        lemma_extends_trans(d, d1, d2);
        assert forall|j: int| 0 <= j < inputs.len() implies (walk(d2, 0, #[trigger] inputs[j]) matches Some(t)
            && d2.states[t].composition == simulated(im, flags, inputs[j])) by {
            if j < xs.len() {
                assert(xs[j] == inputs[j]);
                let w = inputs[j];
                assert forall|i: int| 0 <= i < w.len() implies is_ascii_char(#[trigger] w[i]) by {
                    assert('a' <= inputs[j][i] <= 'z');
                }
                lemma_walk_extends(d1, d2, 0, w);
                let t = walk(d1, 0, w)->0;
                assert(d2.states[t].composition == d1.states[t].composition);
            }
        }
    }
}

proof fn lemma_vowel_inputs_short(v: char)
    requires
        'a' <= v <= 'z',
    ensures
        short_lowercase_inputs(vowel_inputs(v)),
        vowel_inputs(v).len() == 6,
{
    let vi = vowel_inputs(v);
    assert forall|j: int, i: int| 0 <= j < vi.len() && 0 <= i < vi[j].len() implies 'a' <= #[trigger] vi[j][i] <= 'z'
        && vi[j].len() <= 2 by {
        if j == 0 {} else if j == 1 {} else if j == 2 {} else if j == 3 {} else if j == 4 {} else {}
    }
}

proof fn lemma_short_concat(a: Seq<Seq<char>>, b: Seq<Seq<char>>)
    requires
        short_lowercase_inputs(a),
        short_lowercase_inputs(b),
    ensures
        short_lowercase_inputs(a + b),
{
    let c = a + b;
    assert forall|j: int, i: int| 0 <= j < c.len() && 0 <= i < c[j].len() implies 'a' <= #[trigger] c[j][i] <= 'z'
        && c[j].len() <= 2 by {
        if j < a.len() {
            assert(c[j] == a[j]);
            assert(a[j][i] == c[j][i]);
        } else {
            assert(c[j] == b[j - a.len()]);
            assert(b[j - a.len()][i] == c[j][i]);
        }
    }
}

/// After warming up (or [`DfaCompiler::compile_common`] on a new DFA), every
/// common syllable is reachable: its keys, followed from state 0 through
/// known transitions, lead to the state holding the composition the rules
/// give for them.
pub proof fn lemma_common_syllables_reachable(im: InputMethodModel, flags: u32)
    ensures
        forall|j: int| 0 <= j < common_inputs().len() ==> (walk(
            add_runs(initial_dfa(), im, flags, common_inputs()),
            0,
            #[trigger] common_inputs()[j],
        ) matches Some(t) && add_runs(initial_dfa(), im, flags, common_inputs()).states[t].composition == simulated(
            im,
            flags,
            common_inputs()[j],
        )),
{
    let ci = common_inputs();
    lemma_vowel_inputs_short('a');
    lemma_vowel_inputs_short('e');
    lemma_vowel_inputs_short('i');
    lemma_vowel_inputs_short('o');
    lemma_vowel_inputs_short('u');
    lemma_vowel_inputs_short('y');
    let dv = double_vowel_inputs();
    assert(short_lowercase_inputs(dv)) by {
        assert forall|j: int, i: int| 0 <= j < dv.len() && 0 <= i < dv[j].len() implies 'a' <= #[trigger] dv[j][i] <= 'z'
            && dv[j].len() <= 2 by {
            if j == 0 {} else if j == 1 {} else if j == 2 {} else if j == 3 {} else if j == 4 {} else {}
        }
    }
    let a1 = vowel_inputs('a') + vowel_inputs('e');
    lemma_short_concat(vowel_inputs('a'), vowel_inputs('e'));
    let a2 = a1 + vowel_inputs('i');
    lemma_short_concat(a1, vowel_inputs('i'));
    let a3 = a2 + vowel_inputs('o');
    lemma_short_concat(a2, vowel_inputs('o'));
    let a4 = a3 + vowel_inputs('u');
    lemma_short_concat(a3, vowel_inputs('u'));
    let a5 = a4 + vowel_inputs('y');
    lemma_short_concat(a4, vowel_inputs('y'));
    lemma_short_concat(a5, dv);
    assert(ci == a5 + dv);
    assert(ci.len() == 42);
    assert forall|j: int| 0 <= j < ci.len() implies (#[trigger] ci[j]).len() <= 2 by {
        if ci[j].len() > 0 {
            assert('a' <= ci[j][0] <= 'z');
        }
    }
    let d0 = initial_dfa();
    lemma_fresh_sound(im, spec_from_flags(flags));
    assert(d0 == fresh_engine(im, spec_from_flags(flags)).dfa);
    assert(compiler_ready(d0, im, flags));
    lemma_add_runs_walks(d0, im, flags, ci);
}

/// A DFA compiler that pre-adds the states of common syllables.
pub struct DfaCompiler<'a> {
    pub input_method: &'a InputMethod,
    pub flags: u32,
    pub dfa: Dfa,
}

impl<'a> DfaCompiler<'a> {
    /// A compiler for input method `im` and flag word `flags`, with a new DFA.
    pub fn new(im: &'a InputMethod, flags: u32) -> (r: Self)
        ensures
            r.input_method == im,
            r.flags == flags,
            r.dfa@ == initial_dfa(),
            compiler_ready(r.dfa@, r.input_method@, r.flags),
    {
        let r = DfaCompiler { input_method: im, flags, dfa: Dfa::new() };
        proof { lemma_fresh_sound(im@, spec_from_flags(flags)); }
        assert(r.dfa@ == fresh_engine(im@, spec_from_flags(flags)).dfa);
        r
    }

    /// Types the common syllables over the DFA, each from the empty
    /// composition: each vowel alone and with each Telex tone key, then the
    /// common double vowels. The transitions they take are learned, so typing
    /// them later follows the DFA.
    pub fn compile_common(&mut self)
        requires
            compiler_ready(old(self).dfa@, old(self).input_method@, old(self).flags),
        ensures
            final(self).input_method == old(self).input_method,
            final(self).flags == old(self).flags,
            final(self).dfa@ == add_runs(old(self).dfa@, old(self).input_method@, old(self).flags, common_inputs()),
            compiler_ready(final(self).dfa@, final(self).input_method@, final(self).flags),
    {
        let ghost d0 = self.dfa@;
        let ghost im = self.input_method@;
        let ghost flags = self.flags;
        self.compile_vowel('a');
        proof { lemma_add_runs_concat(d0, im, flags, vowel_inputs('a'), vowel_inputs('e')); }
        self.compile_vowel('e');
        let ghost done = vowel_inputs('a') + vowel_inputs('e');
        proof { lemma_add_runs_concat(d0, im, flags, done, vowel_inputs('i')); }
        self.compile_vowel('i');
        let ghost done = done + vowel_inputs('i');
        proof { lemma_add_runs_concat(d0, im, flags, done, vowel_inputs('o')); }
        self.compile_vowel('o');
        let ghost done = done + vowel_inputs('o');
        proof { lemma_add_runs_concat(d0, im, flags, done, vowel_inputs('u')); }
        self.compile_vowel('u');
        let ghost done = done + vowel_inputs('u');
        proof { lemma_add_runs_concat(d0, im, flags, done, vowel_inputs('y')); }
        self.compile_vowel('y');
        let ghost done = done + vowel_inputs('y');
        proof { lemma_add_runs_concat(d0, im, flags, done, double_vowel_inputs()); }
        let ghost d1 = self.dfa@;
        assert(d1 == add_runs(d0, im, flags, done));
        assert(common_inputs() == done + double_vowel_inputs());
        let ghost done: Seq<Seq<char>> = Seq::empty();
        proof { reveal_strlit("aa"); }
        self.simulate_str("aa");
        proof {
            assert("aa"@ =~= seq!['a', 'a']);
            lemma_add_runs_push(d1, im, flags, done, seq!['a', 'a']);
            done = done.push(seq!['a', 'a']);
            assert(self.dfa@ == add_runs(d1, im, flags, done));
        }
        proof { reveal_strlit("ee"); }
        self.simulate_str("ee");
        proof {
            assert("ee"@ =~= seq!['e', 'e']);
            lemma_add_runs_push(d1, im, flags, done, seq!['e', 'e']);
            done = done.push(seq!['e', 'e']);
            assert(self.dfa@ == add_runs(d1, im, flags, done));
        }
        proof { reveal_strlit("oo"); }
        self.simulate_str("oo");
        proof {
            assert("oo"@ =~= seq!['o', 'o']);
            lemma_add_runs_push(d1, im, flags, done, seq!['o', 'o']);
            done = done.push(seq!['o', 'o']);
            assert(self.dfa@ == add_runs(d1, im, flags, done));
        }
        proof { reveal_strlit("aw"); }
        self.simulate_str("aw");
        proof {
            assert("aw"@ =~= seq!['a', 'w']);
            lemma_add_runs_push(d1, im, flags, done, seq!['a', 'w']);
            done = done.push(seq!['a', 'w']);
            assert(self.dfa@ == add_runs(d1, im, flags, done));
        }
        proof { reveal_strlit("ow"); }
        self.simulate_str("ow");
        proof {
            assert("ow"@ =~= seq!['o', 'w']);
            lemma_add_runs_push(d1, im, flags, done, seq!['o', 'w']);
            done = done.push(seq!['o', 'w']);
            assert(self.dfa@ == add_runs(d1, im, flags, done));
        }
        proof { reveal_strlit("uw"); }
        self.simulate_str("uw");
        proof {
            assert("uw"@ =~= seq!['u', 'w']);
            lemma_add_runs_push(d1, im, flags, done, seq!['u', 'w']);
            done = done.push(seq!['u', 'w']);
            assert(self.dfa@ == add_runs(d1, im, flags, done));
            assert(done =~= double_vowel_inputs());
            assert(self.dfa@ == add_runs(d1, im, flags, double_vowel_inputs()));
        }
    }

    fn compile_vowel(&mut self, v: char)
        requires
            compiler_ready(old(self).dfa@, old(self).input_method@, old(self).flags),
        ensures
            final(self).input_method == old(self).input_method,
            final(self).flags == old(self).flags,
            final(self).dfa@ == add_runs(old(self).dfa@, old(self).input_method@, old(self).flags, vowel_inputs(v)),
            compiler_ready(final(self).dfa@, final(self).input_method@, final(self).flags),
    {
        let ghost d0 = self.dfa@;
        let ghost im = self.input_method@;
        let ghost f = self.flags;
        let ghost done: Seq<Seq<char>> = Seq::empty();
        self.simulate_key(v);
        proof { lemma_add_runs_push(d0, im, f, done, seq![v]); done = done.push(seq![v]); }
        let a1 = [v, 's'];
        self.simulate_sequence(&a1);
        proof { assert(a1@ =~= seq![v, 's']); lemma_add_runs_push(d0, im, f, done, seq![v, 's']); done = done.push(seq![v, 's']); }
        let a2 = [v, 'f'];
        self.simulate_sequence(&a2);
        proof { assert(a2@ =~= seq![v, 'f']); lemma_add_runs_push(d0, im, f, done, seq![v, 'f']); done = done.push(seq![v, 'f']); }
        let a3 = [v, 'r'];
        self.simulate_sequence(&a3);
        proof { assert(a3@ =~= seq![v, 'r']); lemma_add_runs_push(d0, im, f, done, seq![v, 'r']); done = done.push(seq![v, 'r']); }
        let a4 = [v, 'x'];
        self.simulate_sequence(&a4);
        proof { assert(a4@ =~= seq![v, 'x']); lemma_add_runs_push(d0, im, f, done, seq![v, 'x']); done = done.push(seq![v, 'x']); }
        let a5 = [v, 'j'];
        self.simulate_sequence(&a5);
        proof {
            assert(a5@ =~= seq![v, 'j']);
            lemma_add_runs_push(d0, im, f, done, seq![v, 'j']);
            done = done.push(seq![v, 'j']);
            assert(done =~= vowel_inputs(v));
        }
    }

    fn add_run(&mut self, comp: &[Transformation]) -> (r: u32)
        requires
            compiler_ready(old(self).dfa@, old(self).input_method@, old(self).flags),
            comp@.len() <= MAX_ACTIVE_TRANS,
        ensures
            final(self).input_method == old(self).input_method,
            final(self).flags == old(self).flags,
            (final(self).dfa@, r) == spec_add_state(old(self).dfa@, comp_model(comp@)),
            compiler_ready(final(self).dfa@, final(self).input_method@, final(self).flags),
    {
        let ghost d0 = self.dfa@;
        proof { lemma_add_state_sound(d0, self.input_method@, compile_flags(self.flags), comp_model(comp@)); }
        let r = self.dfa.add_state(comp);
        let ghost d1 = self.dfa@;
        proof { lemma_find_state_bounds(d0, comp_model(comp@)); }
        assert forall|i: int| 0 <= i < d1.states.len() implies (#[trigger] d1.states[i]).composition.len()
            <= MAX_ACTIVE_TRANS by {
            if i < d0.states.len() {
                assert(d1.states[i] == d0.states[i]);
            }
        }
        assert(d1.states[0] == d0.states[0]);
        r
    }

    fn simulate_key(&mut self, key: char) -> (r: u32)
        requires
            compiler_ready(old(self).dfa@, old(self).input_method@, old(self).flags),
        ensures
            final(self).input_method == old(self).input_method,
            final(self).flags == old(self).flags,
            final(self).dfa@ == run_input(old(self).dfa@, old(self).input_method@, old(self).flags, seq![key]),
            compiler_ready(final(self).dfa@, final(self).input_method@, final(self).flags),
    {
        let keys = [key];
        assert(keys@ =~= seq![key]);
        self.simulate_sequence(&keys)
    }

    /// Types `keys` over the DFA from the empty composition, then adds a state
    /// for the composition they give; returns that state.
    #[verifier::spinoff_prover]
    #[verifier::rlimit(40)]
    fn simulate_sequence(&mut self, keys: &[char]) -> (r: u32)
        requires
            compiler_ready(old(self).dfa@, old(self).input_method@, old(self).flags),
        ensures
            final(self).input_method == old(self).input_method,
            final(self).flags == old(self).flags,
            final(self).dfa@ == run_input(old(self).dfa@, old(self).input_method@, old(self).flags, keys@),
            compiler_ready(final(self).dfa@, final(self).input_method@, final(self).flags),
    {
        let ghost im = self.input_method@;
        let ghost flags = self.flags;
        let mut d = Dfa::new();
        std::mem::swap(&mut d, &mut self.dfa);
        let mut engine = Engine::with_config(self.input_method.clone(), Config::from_flags(self.flags));
        engine.dfa = d;
        let ghost e0 = engine@;
        assert(e0 == compile_engine(im, flags, d@));
        assert(engine.wf());
        let mut i: usize = 0;
        while i < keys.len()
            invariant
                i <= keys@.len(),
                engine.wf(),
                engine@ == spec_run(e0, keys@.take(i as int), Mode::Vietnamese),
            decreases keys@.len() - i,
        {
            assert(keys@.take(i + 1).drop_last() =~= keys@.take(i as int));
            engine.process_key(keys[i], Mode::Vietnamese);
            i = i + 1;
        }
        assert(keys@.take(keys@.len() as int) =~= keys@);
        proof {
            lemma_run_transparent(e0, keys@, Mode::Vietnamese);
            reveal(run_input);
        }
        let comp = clone_comp(engine.active_slice());
        self.dfa = engine.dfa;
        self.add_run(comp.as_slice())
    }

    fn simulate_str(&mut self, s: &str)
        requires
            compiler_ready(old(self).dfa@, old(self).input_method@, old(self).flags),
        ensures
            final(self).input_method == old(self).input_method,
            final(self).flags == old(self).flags,
            final(self).dfa@ == run_input(old(self).dfa@, old(self).input_method@, old(self).flags, s@),
            compiler_ready(final(self).dfa@, final(self).input_method@, final(self).flags),
    {
        let keys = crate::text::str_chars(s);
        self.simulate_sequence(keys.as_slice());
    }
}

} // verus!
