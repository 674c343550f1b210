//! Turning a composition into text.
//!
//! Each transformation that produces a character (an appending one, or in raw
//! mode any one with a key) yields one character: its letter with the marks
//! and tones that target it applied in order, then adjusted by the output
//! options.
use vstd::prelude::*;
use crate::input_method::{lemma_rule_model_unfold, EffectType, Rule, RuleModel};
use crate::output_options::{contains, has, LOWER_CASE, MARK_LESS, RAW, TONE_LESS};
use crate::text::string_push;
use crate::transformation::{clone_trans, comp_model, lemma_comp_model_push, TransModel, Transformation};
use crate::utils::{add_mark_to_char, add_tone_to_char, lower, spec_add_mark, spec_add_tone, spec_lower, spec_upper, upper};

verus! {

broadcast use lemma_rule_model_unfold;

/// At most this many of the latest effects on a character are applied by [`flatten_slice`].
pub const MAX_EFFECTS_PER_CHAR: usize = 8;

/// Whether transformation `t` produces a character of the output.
pub open spec fn is_output(t: TransModel, raw: bool) -> bool {
    (raw || t.rule.effect_type == EffectType::Appending) && t.rule.key != '\0'
}

/// Applies the effect of rule `r` to `c`; a raw mark restores `app_key`.
pub open spec fn apply_rule_effect(c: char, r: RuleModel, app_key: char) -> char {
    match r.effect_type {
        EffectType::MarkTransformation => {
            if r.effect == 5 {
                app_key
            } else {
                spec_add_mark(c, r.effect)
            }
        },
        EffectType::ToneTransformation => spec_add_tone(c, r.effect),
        _ => c,
    }
}

/// Applies the effect of `t` to `c`; a raw mark restores `app_key`.
pub open spec fn apply_effect(c: char, t: TransModel, app_key: char) -> char {
    apply_rule_effect(c, t.rule, app_key)
}

/// The options applied to a finished character of transformation `t`.
pub open spec fn post_process(c: char, t: TransModel, options: u32) -> char {
    let c1 = if has(options, TONE_LESS) { spec_add_tone(c, 0) } else { c };
    let c2 = if has(options, MARK_LESS) { spec_add_mark(c1, 0) } else { c1 };
    if has(options, LOWER_CASE) {
        spec_lower(c2)
    } else if t.is_upper_case {
        spec_upper(c2)
    } else {
        c2
    }
}

/// Indices, among the first `n`, of the non-output transformations that target `a`.
pub open spec fn effects_on(comp: Seq<TransModel>, a: int, raw: bool, n: int) -> Seq<int>
    decreases n,
{
    if n <= 0 || n > comp.len() {
        Seq::empty()
    } else if !is_output(comp[n - 1], raw) && comp[n - 1].target == Some(a as usize) {
        effects_on(comp, a, raw, n - 1).push(n - 1)
    } else {
        effects_on(comp, a, raw, n - 1)
    }
}

/// The latest (at most eight) entries of `s`, in order.
pub open spec fn last_effects(s: Seq<int>) -> Seq<int> {
    if s.len() <= 8 { s } else { s.skip(s.len() - 8) }
}

/// Applies the effects at the first `n` indices `idxs` of `comp` to `c`, in order.
pub open spec fn apply_all(c: char, comp: Seq<TransModel>, idxs: Seq<int>, app_key: char, n: int) -> char
    decreases n,
{
    if n <= 0 || n > idxs.len() {
        c
    } else {
        apply_effect(apply_all(c, comp, idxs, app_key, n - 1), comp[idxs[n - 1]], app_key)
    }
}

/// The output character of the transformation at `a`.
pub open spec fn canvas_char(comp: Seq<TransModel>, a: int, options: u32) -> char {
    let t = comp[a];
    let raw = has(options, RAW);
    let base = if raw {
        t.rule.key
    } else {
        let idxs = last_effects(effects_on(comp, a, raw, comp.len() as int));
        apply_all(t.rule.effect_on, comp, idxs, t.rule.key, idxs.len() as int)
    };
    post_process(base, t, options)
}

/// The text of the first `n` transformations of `comp`.
pub open spec fn flatten_upto(comp: Seq<TransModel>, options: u32, n: int) -> Seq<char>
    decreases n,
{
    if n <= 0 || n > comp.len() {
        Seq::empty()
    } else if is_output(comp[n - 1], has(options, RAW)) {
        flatten_upto(comp, options, n - 1).push(canvas_char(comp, n - 1, options))
    } else {
        flatten_upto(comp, options, n - 1)
    }
}

/// The text of a composition under the given options.
pub open spec fn spec_flatten(comp: Seq<TransModel>, options: u32) -> Seq<char> {
    flatten_upto(comp, options, comp.len() as int)
}

pub fn apply_rule_effect_exec(c: char, r: &Rule, app_key: char) -> (res: char)
    ensures
        res == apply_rule_effect(c, r@, app_key),
{
    match r.effect_type {
        EffectType::MarkTransformation => {
            if r.effect == 5 {
                app_key
            } else {
                add_mark_to_char(c, r.effect)
            }
        },
        EffectType::ToneTransformation => add_tone_to_char(c, r.effect),
        _ => c,
    }
}

pub fn apply_effect_exec(c: char, t: &Transformation, app_key: char) -> (r: char)
    ensures
        r == apply_effect(c, t@, app_key),
{
    apply_rule_effect_exec(c, &t.rule, app_key)
}

pub fn post_process_exec(c: char, is_upper_case: bool, options: u32) -> (r: char)
    ensures
        forall|t: TransModel| t.is_upper_case == is_upper_case ==> r == #[trigger] post_process(c, t, options),
{
    let mut chr = c;
    if contains(options, TONE_LESS) {
        chr = add_tone_to_char(chr, 0);
    }
    if contains(options, MARK_LESS) {
        chr = add_mark_to_char(chr, 0);
    }
    if contains(options, LOWER_CASE) {
        chr = lower(chr);
    } else if is_upper_case {
        chr = upper(chr);
    }
    chr
}

pub fn is_output_exec(t: &Transformation, raw: bool) -> (r: bool)
    ensures
        r == is_output(t@, raw),
{
    (raw || t.rule.effect_type == EffectType::Appending) && t.rule.key != '\0'
}

proof fn lemma_effects_on_bounds(comp: Seq<TransModel>, a: int, raw: bool, n: int)
    requires
        0 <= n <= comp.len(),
    ensures
        forall|k: int| 0 <= k < effects_on(comp, a, raw, n).len() ==> 0 <= #[trigger] effects_on(comp, a, raw, n)[k] < n,
    decreases n,
{
    if n > 0 {
        lemma_effects_on_bounds(comp, a, raw, n - 1);
        let prev = effects_on(comp, a, raw, n - 1);
        if !is_output(comp[n - 1], raw) && comp[n - 1].target == Some(a as usize) {
            assert(effects_on(comp, a, raw, n) == prev.push(n - 1));
            assert forall|k: int| 0 <= k < prev.len() + 1 implies 0 <= #[trigger] prev.push(n - 1)[k] < n by {
                if k < prev.len() {
                    assert(prev.push(n - 1)[k] == prev[k]);
                }
            }
        }
    }
}

/// The output character of the transformation at `a`.
fn canvas_char_exec(comp: &[Transformation], a: usize, options: u32) -> (r: char)
    requires
        a < comp@.len(),
    ensures
        r == canvas_char(comp_model(comp@), a as int, options),
{
    let ghost cm = comp_model(comp@);
    let t = &comp[a];
    let raw = contains(options, RAW);
    if raw {
        return post_process_exec(t.rule.key, t.is_upper_case, options);
    }
    let mut idxs: Vec<usize> = Vec::new();
    let mut j: usize = 0;
    while j < comp.len()
        invariant
            cm == comp_model(comp@),
            j <= comp@.len(),
            a < comp@.len(),
            !raw,
            idxs@.map_values(|x: usize| x as int) == effects_on(cm, a as int, raw, j as int),
        decreases comp@.len() - j,
    {
        if !is_output_exec(&comp[j], raw) && comp[j].target == Some(a) {
            let ghost before = idxs@;
            idxs.push(j);
            assert(idxs@.map_values(|x: usize| x as int) =~= before.map_values(|x: usize| x as int).push(j as int));
        }
        j = j + 1;
    }
    let ghost all = effects_on(cm, a as int, raw, cm.len() as int);
    let ghost sel = last_effects(all);
    proof { lemma_effects_on_bounds(cm, a as int, raw, cm.len() as int); }
    let skip: usize = if idxs.len() <= MAX_EFFECTS_PER_CHAR { 0 } else { idxs.len() - MAX_EFFECTS_PER_CHAR };
    assert(sel =~= all.skip(skip as int));
    let mut chr = t.rule.effect_on;
    let mut k = skip;
    while k < idxs.len()
        invariant
            cm == comp_model(comp@),
            a < comp@.len(),
            skip <= k <= idxs@.len(),
            idxs@.len() == all.len(),
            all == effects_on(cm, a as int, raw, cm.len() as int),
            idxs@.map_values(|x: usize| x as int) == all,
            sel == all.skip(skip as int),
            *t == comp@[a as int],
            forall|q: int| 0 <= q < all.len() ==> 0 <= #[trigger] all[q] < cm.len(),
            chr == apply_all(cm[a as int].rule.effect_on, cm, sel, cm[a as int].rule.key, k - skip),
        decreases idxs@.len() - k,
    {
        let e = idxs[k];
        assert(all[k as int] == e as int);
        assert(sel[k - skip] == e as int);
        assert(cm[e as int] == comp@[e as int]@);
        chr = apply_effect_exec(chr, &comp[e], t.rule.key);
        k = k + 1;
    }
    post_process_exec(chr, t.is_upper_case, options)
}

/// The text of `composition` under `options`.
pub fn flatten_slice(composition: &[Transformation], options: u32) -> (r: String)
    ensures
        r@ == spec_flatten(comp_model(composition@), options),
{
    let ghost cm = comp_model(composition@);
    let raw = contains(options, RAW);
    let mut out = String::new();
    let mut i: usize = 0;
    while i < composition.len()
        invariant
            cm == comp_model(composition@),
            raw == has(options, RAW),
            i <= composition@.len(),
            out@ == flatten_upto(cm, options, i as int),
        decreases composition@.len() - i,
    {
        if is_output_exec(&composition[i], raw) {
            let c = canvas_char_exec(composition, i, options);
            string_push(&mut out, c);
        }
        i = i + 1;
    }
    out
}

/// The text of a composition given by references.
pub fn flatten(composition: &[&Transformation], options: u32) -> (r: String)
    ensures
        r@ == spec_flatten(composition@.map_values(|t: &Transformation| t@), options),
{
    let mut owned: Vec<Transformation> = Vec::new();
    let mut i: usize = 0;
    while i < composition.len()
        invariant
            i <= composition@.len(),
            comp_model(owned@) == composition@.map_values(|t: &Transformation| t@).take(i as int),
        decreases composition@.len() - i,
    {
        let c = clone_trans(composition[i]);
        proof { lemma_comp_model_push(owned@, c); }
        owned.push(c);
        assert(composition@.map_values(|t: &Transformation| t@).take(i + 1) =~= composition@.map_values(
            |t: &Transformation| t@,
        ).take(i as int).push(composition@[i as int]@));
        i = i + 1;
    }
    assert(composition@.map_values(|t: &Transformation| t@).take(composition@.len() as int) =~= composition@.map_values(
        |t: &Transformation| t@,
    ));
    flatten_slice(owned.as_slice(), options)
}

/// Index of the first character-producing transformation at or after `i`, if any.
pub open spec fn first_output_from(comp: Seq<TransModel>, raw: bool, i: int) -> Option<int>
    decreases comp.len() - i,
{
    if i < 0 || i >= comp.len() {
        None
    } else if is_output(comp[i], raw) {
        Some(i)
    } else {
        first_output_from(comp, raw, i + 1)
    }
}

/// `c` with the effects of `comp[start..n]` that target `a` applied in order.
pub open spec fn apply_suffix(c: char, comp: Seq<TransModel>, a: int, app_key: char, start: int, n: int) -> char
    decreases n - start,
{
    if n <= start || n > comp.len() {
        c
    } else if comp[n - 1].target == Some(a as usize) {
        apply_effect(apply_suffix(c, comp, a, app_key, start, n - 1), comp[n - 1], app_key)
    } else {
        apply_suffix(c, comp, a, app_key, start, n - 1)
    }
}

/// The first character of the text of `comp[start..]`, where the effects that
/// count are those of `comp[start..]` (targets are indices into `comp`).
pub open spec fn spec_first_canvas_char(comp: Seq<TransModel>, start: int, options: u32) -> Option<char> {
    let raw = has(options, RAW);
    match first_output_from(comp, raw, start) {
        Some(f) => {
            let t = comp[f];
            let base = if raw {
                t.rule.key
            } else {
                apply_suffix(t.rule.effect_on, comp, f, t.rule.key, start, comp.len() as int)
            };
            Some(post_process(base, t, options))
        },
        None => None,
    }
}

proof fn lemma_first_output_bounds(comp: Seq<TransModel>, raw: bool, i: int)
    requires
        0 <= i,
    ensures
        first_output_from(comp, raw, i) matches Some(f) ==> i <= f < comp.len() && is_output(comp[f], raw),
    decreases comp.len() - i,
{
    if i < comp.len() && !is_output(comp[i], raw) {
        lemma_first_output_bounds(comp, raw, i + 1);
    }
}

/// The first visible character of the text of `composition[start..]`.
pub fn first_canvas_char_in_suffix(composition: &[Transformation], start: usize, options: u32) -> (r: Option<char>)
    requires
        start <= composition@.len(),
    ensures
        r == spec_first_canvas_char(comp_model(composition@), start as int, options),
{
    let ghost cm = comp_model(composition@);
    let raw = contains(options, RAW);
    let mut f = start;
    while f < composition.len() && !is_output_exec(&composition[f], raw)
        invariant
            cm == comp_model(composition@),
            start <= f <= composition@.len(),
            raw == has(options, RAW),
            first_output_from(cm, raw, start as int) == first_output_from(cm, raw, f as int),
        decreases composition@.len() - f,
    {
        f = f + 1;
    }
    if f >= composition.len() {
        return None;
    }
    let t = &composition[f];
    if raw {
        return Some(post_process_exec(t.rule.key, t.is_upper_case, options));
    }
    let mut c = t.rule.effect_on;
    let mut j = start;
    while j < composition.len()
        invariant
            cm == comp_model(composition@),
            start <= j <= composition@.len(),
            f < composition@.len(),
            *t == composition@[f as int],
            c == apply_suffix(cm[f as int].rule.effect_on, cm, f as int, cm[f as int].rule.key, start as int, j as int),
        decreases composition@.len() - j,
    {
        assert(cm[j as int] == composition@[j as int]@);
        if composition[j].target == Some(f) {
            c = apply_effect_exec(c, &composition[j], t.rule.key);
        }
        j = j + 1;
    }
    Some(post_process_exec(c, t.is_upper_case, options))
}

} // verus!
