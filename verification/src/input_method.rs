//! Rules, input methods, and the parser of the rule definition language.
use vstd::prelude::*;
use crate::input_method_def::{entries_view, get_input_method_entries, spec_input_method_entries};
use crate::text::{
    spec_ascii_lower, std_is_alphabetic, std_lower_first,
    std_str_to_lowercase, str_chars, str_eq, unicode_alphabetic, unicode_lower_first,
    unicode_lower_str, ascii_lower,
};
use crate::utils::{
    add_mark_to_toneless_char, add_tone_to_char, in_vowel_table, spec_add_mark_toneless, spec_add_tone,
    spec_is_ascii_alpha, spec_in_vowel_table, is_alpha,
};

verus! {

/// The six Vietnamese tones.
#[derive(Clone, Copy, Debug, PartialEq, Eq, Structural)]
pub enum Tone {
    /// No tone mark (the level tone).
    Unmarked,
    Grave,
    Acute,
    Hook,
    Tilde,
    Dot,
}

/// The diacritic marks.
#[derive(Clone, Copy, Debug, PartialEq, Eq, Structural)]
pub enum Mark {
    /// No diacritic.
    Unmarked,
    Hat,
    Breve,
    Horn,
    Dash,
    /// Restores the raw key of the character it targets.
    Raw,
}

/// What a rule does to the composition.
#[derive(Clone, Copy, Debug, PartialEq, Eq, Structural)]
pub enum EffectType {
    Appending,
    MarkTransformation,
    ToneTransformation,
    Replacing,
}

pub open spec fn tone_value(t: Tone) -> u8 {
    match t {
        Tone::Unmarked => 0,
        Tone::Grave => 1,
        Tone::Acute => 2,
        Tone::Hook => 3,
        Tone::Tilde => 4,
        Tone::Dot => 5,
    }
}

pub open spec fn tone_from_value(v: u8) -> Tone {
    if v == 1 {
        Tone::Grave
    } else if v == 2 {
        Tone::Acute
    } else if v == 3 {
        Tone::Hook
    } else if v == 4 {
        Tone::Tilde
    } else if v == 5 {
        Tone::Dot
    } else {
        Tone::Unmarked
    }
}

pub open spec fn mark_value(m: Mark) -> u8 {
    match m {
        Mark::Unmarked => 0,
        Mark::Hat => 1,
        Mark::Breve => 2,
        Mark::Horn => 3,
        Mark::Dash => 4,
        Mark::Raw => 5,
    }
}

pub open spec fn mark_from_value(v: u8) -> Mark {
    if v == 1 {
        Mark::Hat
    } else if v == 2 {
        Mark::Breve
    } else if v == 3 {
        Mark::Horn
    } else if v == 4 {
        Mark::Dash
    } else if v == 5 {
        Mark::Raw
    } else {
        Mark::Unmarked
    }
}

/// The numeric value of a tone (its position in declaration order).
pub fn tone_to_u8(t: Tone) -> (r: u8)
    ensures
        r == tone_value(t),
{
    match t {
        Tone::Unmarked => 0,
        Tone::Grave => 1,
        Tone::Acute => 2,
        Tone::Hook => 3,
        Tone::Tilde => 4,
        Tone::Dot => 5,
    }
}

/// The numeric value of a mark (its position in declaration order).
pub fn mark_to_u8(m: Mark) -> (r: u8)
    ensures
        r == mark_value(m),
{
    match m {
        Mark::Unmarked => 0,
        Mark::Hat => 1,
        Mark::Breve => 2,
        Mark::Horn => 3,
        Mark::Dash => 4,
        Mark::Raw => 5,
    }
}

/// Reading a tone back from its value gives the same tone.
pub proof fn lemma_tone_round_trip(t: Tone)
    ensures
        tone_from_value(tone_value(t)) == t,
{
}

/// Reading a mark back from its value gives the same mark.
pub proof fn lemma_mark_round_trip(m: Mark)
    ensures
        mark_from_value(mark_value(m)) == m,
{
}

/// The mathematical content of a [`Rule`].
pub struct RuleModel {
    pub key: char,
    pub effect: u8,
    pub effect_type: EffectType,
    pub effect_on: char,
    pub result: char,
    pub appended: Seq<RuleModel>,
}

/// A transformation rule: what pressing `key` does.
#[derive(Debug)]
pub struct Rule {
    pub key: char,
    /// For a tone rule the tone's value, for a mark rule the mark's value.
    pub effect: u8,
    pub effect_type: EffectType,
    pub effect_on: char,
    pub result: char,
    pub appended_rules: Vec<Rule>,
}

pub open spec fn rule_model(r: Rule) -> RuleModel
    decreases r,
{
    RuleModel {
        key: r.key,
        effect: r.effect,
        effect_type: r.effect_type,
        effect_on: r.effect_on,
        result: r.result,
        appended: rules_model(r.appended_rules@),
    }
}

pub open spec fn rules_model(s: Seq<Rule>) -> Seq<RuleModel>
    decreases s,
{
    if s.len() == 0 {
        Seq::empty()
    } else {
        rules_model(s.drop_last()).push(rule_model(s.last()))
    }
}

impl View for Rule {
    type V = RuleModel;

    open spec fn view(&self) -> RuleModel {
        rule_model(*self)
    }
}

pub broadcast proof fn lemma_rule_model_unfold(r: Rule)
    ensures
        #[trigger] rule_model(r) == (RuleModel {
            key: r.key,
            effect: r.effect,
            effect_type: r.effect_type,
            effect_on: r.effect_on,
            result: r.result,
            appended: rules_model(r.appended_rules@),
        }),
{
}

pub proof fn lemma_rules_model_push(s: Seq<Rule>, r: Rule)
    ensures
        rules_model(s.push(r)) == rules_model(s).push(rule_model(r)),
{
    assert(s.push(r).drop_last() =~= s);
}

pub proof fn lemma_rules_model_index(s: Seq<Rule>)
    ensures
        rules_model(s).len() == s.len(),
        forall|i: int| 0 <= i < s.len() ==> #[trigger] rules_model(s)[i] == rule_model(s[i]),
    decreases s.len(),
{
    if s.len() > 0 {
        lemma_rules_model_index(s.drop_last());
    }
}

pub proof fn lemma_rules_model_concat(a: Seq<Rule>, b: Seq<Rule>)
    ensures
        rules_model(a + b) == rules_model(a) + rules_model(b),
    decreases b.len(),
{
    if b.len() == 0 {
        assert(a + b =~= a);
        assert(rules_model(a) + rules_model(b) =~= rules_model(a));
    } else {
        lemma_rules_model_concat(a, b.drop_last());
        assert((a + b).drop_last() =~= a + b.drop_last());
        assert(rules_model(b) == rules_model(b.drop_last()).push(rule_model(b.last())));
        assert(rules_model(a) + rules_model(b) =~= (rules_model(a) + rules_model(b.drop_last())).push(
            rule_model(b.last()),
        ));
    }
}

/// A copy of `r`, appended rules included.
pub fn clone_rule(r: &Rule) -> (res: Rule)
    ensures
        res@ == r@,
    decreases r,
{
    let mut ap: Vec<Rule> = Vec::new();
    let n = r.appended_rules.len();
    let mut i: usize = 0;
    while i < n
        invariant
            n == r.appended_rules@.len(),
            i <= n,
            rules_model(ap@) == rules_model(r.appended_rules@.take(i as int)),
        decreases n - i,
    {
        assert(decreases_to!(r => r.appended_rules@[i as int]));
        let ghost old_ap = ap@;
        let c = clone_rule(&r.appended_rules[i]);
        ap.push(c);
        proof {
            lemma_rules_model_push(old_ap, c);
            lemma_rules_model_push(r.appended_rules@.take(i as int), r.appended_rules@[i as int]);
            assert(r.appended_rules@.take(i + 1) =~= r.appended_rules@.take(i as int).push(
                r.appended_rules@[i as int],
            ));
        }
        i = i + 1;
    }
    assert(r.appended_rules@.take(n as int) =~= r.appended_rules@);
    Rule {
        key: r.key,
        effect: r.effect,
        effect_type: r.effect_type,
        effect_on: r.effect_on,
        result: r.result,
        appended_rules: ap,
    }
}

impl Clone for Rule {
    fn clone(&self) -> (res: Self)
        ensures
            res@ == self@,
    {
        clone_rule(self)
    }
}

/// Whether two rules are equal in every field, appended rules included.
pub fn rule_eq(a: &Rule, b: &Rule) -> (res: bool)
    ensures
        res == (a@ == b@),
    decreases a,
{
    proof {
        lemma_rules_model_index(a.appended_rules@);
        lemma_rules_model_index(b.appended_rules@);
    }
    if a.key != b.key || a.effect != b.effect || a.effect_type != b.effect_type || a.effect_on
        != b.effect_on || a.result != b.result || a.appended_rules.len() != b.appended_rules.len() {
        return false;
    }
    let n = a.appended_rules.len();
    let mut i: usize = 0;
    while i < n
        invariant
            n == a.appended_rules@.len(),
            n == b.appended_rules@.len(),
            i <= n,
            rules_model(a.appended_rules@).len() == n,
            rules_model(b.appended_rules@).len() == n,
            forall|j: int| 0 <= j < n ==> #[trigger] rules_model(a.appended_rules@)[j] == rule_model(a.appended_rules@[j]),
            forall|j: int| 0 <= j < n ==> #[trigger] rules_model(b.appended_rules@)[j] == rule_model(b.appended_rules@[j]),
            forall|j: int| 0 <= j < i ==> rule_model(a.appended_rules@[j]) == rule_model(b.appended_rules@[j]),
        decreases n - i,
    {
        assert(decreases_to!(a => a.appended_rules@[i as int]));
        if !rule_eq(&a.appended_rules[i], &b.appended_rules[i]) {
            assert(rules_model(a.appended_rules@)[i as int] != rules_model(b.appended_rules@)[i as int]);
            return false;
        }
        i = i + 1;
    }
    assert(rules_model(a.appended_rules@) =~= rules_model(b.appended_rules@));
    true
}

impl Rule {
    /// Sets the effect to the value of `tone`.
    pub fn set_tone(&mut self, tone: Tone)
        ensures
            final(self).effect == tone_value(tone),
            final(self).key == old(self).key,
            final(self).effect_type == old(self).effect_type,
            final(self).effect_on == old(self).effect_on,
            final(self).result == old(self).result,
            final(self).appended_rules == old(self).appended_rules,
    {
        self.effect = tone_to_u8(tone);
    }

    /// Sets the effect to the value of `mark`.
    pub fn set_mark(&mut self, mark: Mark)
        ensures
            final(self).effect == mark_value(mark),
            final(self).key == old(self).key,
            final(self).effect_type == old(self).effect_type,
            final(self).effect_on == old(self).effect_on,
            final(self).result == old(self).result,
            final(self).appended_rules == old(self).appended_rules,
    {
        self.effect = mark_to_u8(mark);
    }

    /// The effect read as a tone (values outside 1..=5 read as `Tone::Unmarked`).
    pub fn get_tone(&self) -> (r: Tone)
        ensures
            r == tone_from_value(self.effect),
    {
        match self.effect {
            1 => Tone::Grave,
            2 => Tone::Acute,
            3 => Tone::Hook,
            4 => Tone::Tilde,
            5 => Tone::Dot,
            _ => Tone::Unmarked,
        }
    }

    /// The effect read as a mark (values outside 1..=5 read as `Mark::Unmarked`).
    pub fn get_mark(&self) -> (r: Mark)
        ensures
            r == mark_from_value(self.effect),
    {
        match self.effect {
            1 => Mark::Hat,
            2 => Mark::Breve,
            3 => Mark::Horn,
            4 => Mark::Dash,
            5 => Mark::Raw,
            _ => Mark::Unmarked,
        }
    }
}

/// A rule with no appended rules.
pub open spec fn rule_m(key: char, effect: u8, et: EffectType, eo: char, res: char) -> RuleModel {
    RuleModel { key, effect, effect_type: et, effect_on: eo, result: res, appended: Seq::empty() }
}

pub fn make_rule(key: char, effect: u8, et: EffectType, eo: char, res: char) -> (r: Rule)
    ensures
        r@ == rule_m(key, effect, et, eo, res),
{
    let r = Rule {
        key,
        effect,
        effect_type: et,
        effect_on: eo,
        result: res,
        appended_rules: Vec::new(),
    };
    assert(rules_model(r.appended_rules@) =~= Seq::<RuleModel>::empty());
    r
}


// ---------------------------------------------------------------------------
// The rule definition language
// ---------------------------------------------------------------------------

/// The tone named by a definition line, if the line is a tone name.
pub open spec fn spec_tone_name(line: Seq<char>) -> Option<u8> {
    if line == "XoaDauThanh"@ {
        Some(0u8)
    } else if line == "DauSac"@ {
        Some(2u8)
    } else if line == "DauHuyen"@ {
        Some(1u8)
    } else if line == "DauNga"@ {
        Some(4u8)
    } else if line == "DauNang"@ {
        Some(5u8)
    } else if line == "DauHoi"@ {
        Some(3u8)
    } else {
        None
    }
}

fn tone_name(line: &str) -> (r: Option<u8>)
    ensures
        r == spec_tone_name(line@),
{
    if str_eq(line, "XoaDauThanh") {
        Some(0)
    } else if str_eq(line, "DauSac") {
        Some(2)
    } else if str_eq(line, "DauHuyen") {
        Some(1)
    } else if str_eq(line, "DauNga") {
        Some(4)
    } else if str_eq(line, "DauNang") {
        Some(5)
    } else if str_eq(line, "DauHoi") {
        Some(3)
    } else {
        None
    }
}

/// Whether `s` holds `u` directly followed by `o`, ignoring ASCII case.
pub open spec fn spec_contains_uo(s: Seq<char>) -> bool {
    exists|i: int|
        0 <= i < s.len() - 1 && spec_ascii_lower(#[trigger] s[i]) == 'u' && spec_ascii_lower(s[i + 1])
            == 'o'
}

fn contains_uo_case_insensitive(s: &str) -> (r: bool)
    ensures
        r == spec_contains_uo(s@),
{
    let cs = str_chars(s);
    let mut prev_u = false;
    let mut i: usize = 0;
    while i < cs.len()
        invariant
            cs@ == s@,
            i <= cs@.len(),
            prev_u == (i > 0 && spec_ascii_lower(cs@[i - 1]) == 'u'),
            forall|j: int|
                0 <= j < i - 1 ==> !(spec_ascii_lower(#[trigger] cs@[j]) == 'u' && spec_ascii_lower(cs@[j + 1])
                    == 'o'),
        decreases cs@.len() - i,
    {
        let lc = ascii_lower(cs[i]);
        if prev_u && lc == 'o' {
            assert(spec_ascii_lower(cs@[i - 1]) == 'u' && spec_ascii_lower(cs@[(i - 1) + 1]) == 'o');
            return true;
        }
        prev_u = lc == 'u';
        i = i + 1;
    }
    false
}

/// Index of the first `c` in `s` at or after `i`, or `s.len()` when there is none.
pub open spec fn index_of_from(s: Seq<char>, c: char, i: int) -> int
    decreases s.len() - i,
{
    if i < 0 || i >= s.len() {
        s.len() as int
    } else if s[i] == c {
        i
    } else {
        index_of_from(s, c, i + 1)
    }
}

/// The end of the run of alphabetic characters of `s` that starts at `i`.
pub open spec fn alpha_run(s: Seq<char>, i: int) -> int
    decreases s.len() - i,
{
    if i < 0 || i >= s.len() {
        i
    } else if unicode_alphabetic(s[i]) {
        alpha_run(s, i + 1)
    } else {
        i
    }
}

proof fn lemma_alpha_run_bounds(s: Seq<char>, i: int)
    requires
        0 <= i <= s.len(),
    ensures
        i <= alpha_run(s, i) <= s.len(),
        forall|j: int| i <= j < alpha_run(s, i) ==> unicode_alphabetic(#[trigger] s[j]),
    decreases s.len() - i,
{
    if i < s.len() && unicode_alphabetic(s[i]) {
        lemma_alpha_run_bounds(s, i + 1);
    }
}

fn alpha_run_exec(s: &[char], start: usize) -> (r: usize)
    requires
        start <= s@.len(),
    ensures
        r == alpha_run(s@, start as int),
{
    let mut i = start;
    while i < s.len() && std_is_alphabetic(s[i])
        invariant
            start <= i <= s@.len(),
            alpha_run(s@, start as int) == alpha_run(s@, i as int),
        decreases s@.len() - i,
    {
        i = i + 1;
    }
    i
}

/// Splits `s` as `LETTERS_RESULTS REST`: `LETTERS` is the non-empty ASCII-letter
/// text before the first `_`, `RESULTS` the non-empty run of letters after it.
pub open spec fn spec_parse_dsl(s: Seq<char>) -> Option<(Seq<char>, Seq<char>, Seq<char>)> {
    let u = index_of_from(s, '_', 0);
    if u >= s.len() {
        None
    } else {
        let left = s.take(u);
        let right = s.skip(u + 1);
        if left.len() == 0 || !(forall|j: int| 0 <= j < left.len() ==> spec_is_ascii_alpha(#[trigger] left[j])) {
            None
        } else {
            let n = alpha_run(right, 0);
            if n == 0 {
                None
            } else {
                Some((left, right.take(n), right.skip(n)))
            }
        }
    }
}

fn parse_dsl(s: &[char]) -> (r: Option<(Vec<char>, Vec<char>, Vec<char>)>)
    ensures
        match r {
            Some((a, b, c)) => spec_parse_dsl(s@) == Some((a@, b@, c@)),
            None => spec_parse_dsl(s@) is None,
        },
{
    let mut u: usize = 0;
    while u < s.len() && s[u] != '_'
        invariant
            u <= s@.len(),
            index_of_from(s@, '_', 0) == index_of_from(s@, '_', u as int),
        decreases s@.len() - u,
    {
        u = u + 1;
    }
    if u >= s.len() {
        return None;
    }
    if u == 0 {
        return None;
    }
    let mut left: Vec<char> = Vec::new();
    let mut j: usize = 0;
    while j < u
        invariant
            u < s@.len(),
            j <= u,
            left@ == s@.take(j as int),
            index_of_from(s@, '_', 0) == u as int,
            forall|k: int| 0 <= k < j ==> spec_is_ascii_alpha(#[trigger] s@[k]),
        decreases u - j,
    {
        if !is_alpha(s[j]) {
            assert(!spec_is_ascii_alpha(s@.take(u as int)[j as int]));
            return None;
        }
        left.push(s[j]);
        assert(s@.take(j + 1) =~= s@.take(j as int).push(s@[j as int]));
        j = j + 1;
    }
    let mut right: Vec<char> = Vec::new();
    let mut k: usize = u + 1;
    while k < s.len()
        invariant
            u < s@.len(),
            u + 1 <= k <= s@.len(),
            right@ == s@.subrange(u + 1, k as int),
        decreases s@.len() - k,
    {
        right.push(s[k]);
        assert(s@.subrange(u + 1, k + 1) =~= s@.subrange(u + 1, k as int).push(s@[k as int]));
        k = k + 1;
    }
    assert(right@ =~= s@.skip(u + 1));
    let n = alpha_run_exec(right.as_slice(), 0);
    if n == 0 {
        return None;
    }
    proof {
        lemma_alpha_run_bounds(right@, 0);
    }
    let mut results: Vec<char> = Vec::new();
    let mut rest: Vec<char> = Vec::new();
    let mut m: usize = 0;
    while m < right.len()
        invariant
            n <= right@.len(),
            m <= right@.len(),
            m <= n ==> results@ == right@.take(m as int) && rest@.len() == 0,
            m > n ==> results@ == right@.take(n as int) && rest@ == right@.subrange(n as int, m as int),
        decreases right@.len() - m,
    {
        if m < n {
            results.push(right[m]);
            assert(right@.take(m + 1) =~= right@.take(m as int).push(right@[m as int]));
        } else {
            rest.push(right[m]);
            assert(right@.subrange(n as int, m + 1) =~= right@.subrange(n as int, m as int).push(
                right@[m as int],
            ));
        }
        m = m + 1;
    }
    assert(left@ =~= s@.take(u as int));
    assert(rest@ =~= right@.skip(n as int));
    Some((left, results, rest))
}

/// The appending rule of a value `_X...` or `__X...`: it appends the first
/// letter of the run `X...` and carries the other letters as appended rules.
pub open spec fn spec_appending_rule(key: char, v: Seq<char>) -> Option<RuleModel> {
    if v.len() == 0 || v[0] != '_' {
        None
    } else {
        let start: int = if v.len() >= 2 && v[1] == '_' { 2 } else { 1 };
        let tail = v.skip(start);
        let n = alpha_run(tail, 0);
        if n == 0 {
            None
        } else {
            Some(
                RuleModel {
                    key,
                    effect: 0,
                    effect_type: EffectType::Appending,
                    effect_on: tail[0],
                    result: tail[0],
                    appended: Seq::new(
                        (n - 1) as nat,
                        |i: int| rule_m(key, 0, EffectType::Appending, tail[i + 1], tail[i + 1]),
                    ),
                },
            )
        }
    }
}

fn get_appending_rule(key: char, v: &[char]) -> (r: Option<Rule>)
    ensures
        match r {
            Some(rule) => spec_appending_rule(key, v@) == Some(rule@),
            None => spec_appending_rule(key, v@) is None,
        },
{
    if v.len() == 0 || v[0] != '_' {
        return None;
    }
    let start: usize = if v.len() >= 2 && v[1] == '_' { 2 } else { 1 };
    let mut tail: Vec<char> = Vec::new();
    let mut k: usize = start;
    while k < v.len()
        invariant
            start <= k <= v@.len(),
            1 <= start <= 2,
            start <= v@.len(),
            tail@ == v@.subrange(start as int, k as int),
        decreases v@.len() - k,
    {
        tail.push(v[k]);
        assert(v@.subrange(start as int, k + 1) =~= v@.subrange(start as int, k as int).push(v@[k as int]));
        k = k + 1;
    }
    assert(tail@ =~= v@.skip(start as int));
    let n = alpha_run_exec(tail.as_slice(), 0);
    if n == 0 {
        return None;
    }
    proof {
        lemma_alpha_run_bounds(tail@, 0);
    }
    let ghost ap_spec = Seq::new(
        (n - 1) as nat,
        |i: int| rule_m(key, 0, EffectType::Appending, tail@[i + 1], tail@[i + 1]),
    );
    let mut appended: Vec<Rule> = Vec::new();
    let mut i: usize = 1;
    while i < n
        invariant
            1 <= i <= n,
            n <= tail@.len(),
            ap_spec == Seq::new(
                (n - 1) as nat,
                |i: int| rule_m(key, 0, EffectType::Appending, tail@[i + 1], tail@[i + 1]),
            ),
            rules_model(appended@) == ap_spec.take(i - 1),
        decreases n - i,
    {
        let ghost old_ap = appended@;
        let ch = tail[i];
        let rr = make_rule(key, 0, EffectType::Appending, ch, ch);
        appended.push(rr);
        proof {
            lemma_rules_model_push(old_ap, rr);
            assert(ap_spec.take(i as int) =~= ap_spec.take(i - 1).push(ap_spec[i - 1]));
        }
        i = i + 1;
    }
    assert(ap_spec.take(n - 1) =~= ap_spec);
    let first = tail[0];
    let ghost apv = appended@;
    assert(rules_model(apv) == ap_spec);
    let rule = Rule {
        key,
        effect: 0,
        effect_type: EffectType::Appending,
        effect_on: first,
        result: first,
        appended_rules: appended,
    };
    assert(rule.appended_rules@ == apv);
    proof { lemma_rule_model_unfold(rule); }
    assert(rule@.appended == rules_model(apv));
    assert(spec_appending_rule(key, v@) == Some(rule@));
    Some(rule)
}

/// Inserts `x` into the increasing sequence `s` unless it is already there.
pub open spec fn insert_pos(s: Seq<char>, x: char, i: int) -> int
    decreases s.len() - i,
{
    if i < 0 || i >= s.len() {
        s.len() as int
    } else if s[i] < x {
        insert_pos(s, x, i + 1)
    } else {
        i
    }
}

pub open spec fn insert_sorted(s: Seq<char>, x: char) -> Seq<char> {
    let p = insert_pos(s, x, 0);
    if p < s.len() && s[p] == x {
        s
    } else {
        s.insert(p, x)
    }
}

/// The forms of the base letter of `c` under marks `0..m`, inserted in order
/// into an increasing duplicate-free sequence.
pub open spec fn family_upto(canon: char, m: nat) -> Seq<char>
    decreases m,
{
    if m == 0 {
        Seq::empty()
    } else {
        insert_sorted(family_upto(canon, (m - 1) as nat), spec_add_mark_toneless(canon, (m - 1) as u8))
    }
}

/// The letters that share a base letter with `c`, in increasing order without repetition.
pub open spec fn spec_mark_family(c: char) -> Seq<char> {
    family_upto(spec_add_mark_toneless(spec_add_tone(c, 0), 0), 5)
}

proof fn lemma_insert_pos_bounds(s: Seq<char>, x: char, i: int)
    requires
        0 <= i <= s.len(),
    ensures
        i <= insert_pos(s, x, i) <= s.len(),
    decreases s.len() - i,
{
    if i < s.len() && s[i] < x {
        lemma_insert_pos_bounds(s, x, i + 1);
    }
}

fn insert_sorted_exec(v: &mut Vec<char>, x: char)
    ensures
        final(v)@ == insert_sorted(old(v)@, x),
{
    let mut p: usize = 0;
    while p < v.len() && v[p] < x
        invariant
            p <= v@.len(),
            v@ == old(v)@,
            insert_pos(v@, x, 0) == insert_pos(v@, x, p as int),
        decreases v@.len() - p,
    {
        p = p + 1;
    }
    if p < v.len() && v[p] == x {
        return;
    }
    v.insert(p, x);
}

fn get_mark_family(c: char) -> (r: Vec<char>)
    ensures
        r@ == spec_mark_family(c),
{
    let base = add_tone_to_char(c, 0);
    let canonical = add_mark_to_toneless_char(base, 0);
    let mut family: Vec<char> = Vec::new();
    let mut m: u8 = 0;
    while m < 5
        invariant
            m <= 5,
            canonical == spec_add_mark_toneless(spec_add_tone(c, 0), 0),
            family@ == family_upto(canonical, m as nat),
        decreases 5 - m,
    {
        let form = add_mark_to_toneless_char(canonical, m);
        insert_sorted_exec(&mut family, form);
        m = m + 1;
    }
    family
}

/// The first mark `m` in `from..5` under which `base` becomes `toneless`.
pub open spec fn find_mark_from(base: char, toneless: char, from: int) -> Option<Mark>
    decreases 5 - from,
{
    if from < 0 || from >= 5 {
        None
    } else if spec_add_mark_toneless(base, from as u8) == toneless {
        Some(mark_from_value(from as u8))
    } else {
        find_mark_from(base, toneless, from + 1)
    }
}

/// The mark that turns the base letter of `c` into `c` (tone ignored).
pub open spec fn spec_find_mark_from_char(c: char) -> Option<Mark> {
    let lc = unicode_lower_first(c);
    let toneless = spec_add_tone(lc, 0);
    let base = spec_add_mark_toneless(toneless, 0);
    find_mark_from(base, toneless, 0)
}

fn find_mark_from_char(c: char) -> (r: Option<Mark>)
    ensures
        r == spec_find_mark_from_char(c),
{
    let lc = std_lower_first(c);
    let toneless = add_tone_to_char(lc, 0);
    let base = add_mark_to_toneless_char(toneless, 0);
    let mut m: u8 = 0;
    while m < 5
        invariant
            m <= 5,
            toneless == spec_add_tone(unicode_lower_first(c), 0),
            base == spec_add_mark_toneless(toneless, 0),
            spec_find_mark_from_char(c) == find_mark_from(base, toneless, m as int),
        decreases 5 - m,
    {
        if add_mark_to_toneless_char(base, m) == toneless {
            return Some(
                if m == 1 {
                    Mark::Hat
                } else if m == 2 {
                    Mark::Breve
                } else if m == 3 {
                    Mark::Horn
                } else if m == 4 {
                    Mark::Dash
                } else {
                    Mark::Unmarked
                },
            );
        }
        m = m + 1;
    }
    None
}

/// The rules that one letter of a mark family yields.
pub open spec fn chr_rules(key: char, chr: char, effective_on: char, result: char, effect: Mark) -> Seq<RuleModel> {
    if chr == result {
        seq![rule_m(key, 0, EffectType::MarkTransformation, result, effective_on)]
    } else if spec_in_vowel_table(chr) {
        Seq::new(
            6,
            |t: int|
                rule_m(
                    key,
                    mark_value(effect),
                    EffectType::MarkTransformation,
                    spec_add_tone(chr, t as u8),
                    spec_add_tone(result, t as u8),
                ),
        )
    } else {
        seq![rule_m(key, mark_value(effect), EffectType::MarkTransformation, chr, result)]
    }
}

pub open spec fn family_rules(key: char, fam: Seq<char>, effective_on: char, result: char, effect: Mark, n: int) -> Seq<RuleModel>
    decreases n,
{
    if n <= 0 || n > fam.len() {
        Seq::empty()
    } else {
        family_rules(key, fam, effective_on, result, effect, n - 1) + chr_rules(
            key,
            fam[n - 1],
            effective_on,
            result,
            effect,
        )
    }
}

/// The mark rules of key `key` for one letter of a definition: every letter
/// of the family of `effective_on` (with each of its tones, for vowels) turns
/// into `result`; `result` itself turns back into `effective_on`.
pub open spec fn spec_toneless_rule(key: char, effective_on: char, result: char, effect: Mark) -> Seq<RuleModel> {
    let fam = spec_mark_family(effective_on);
    family_rules(key, fam, effective_on, result, effect, fam.len() as int)
}

fn chr_rules_exec(key: char, chr: char, effective_on: char, result: char, effect: Mark, out: &mut Vec<Rule>)
    ensures
        rules_model(final(out)@) == rules_model(old(out)@) + chr_rules(key, chr, effective_on, result, effect),
{
    let ghost start = rules_model(out@);
    if chr == result {
        let r = make_rule(key, 0, EffectType::MarkTransformation, result, effective_on);
        proof { lemma_rules_model_push(out@, r); }
        out.push(r);
        assert(start.push(r@) =~= start + chr_rules(key, chr, effective_on, result, effect));
        return;
    }
    let ev = mark_to_u8(effect);
    if in_vowel_table(chr) {
        let ghost target = chr_rules(key, chr, effective_on, result, effect);
        let mut t: u8 = 0;
        while t <= 5
            invariant
                t <= 6,
                ev == mark_value(effect),
                chr != result,
                spec_in_vowel_table(chr),
                target == chr_rules(key, chr, effective_on, result, effect),
                rules_model(out@) == start + target.take(t as int),
            decreases 6 - t,
        {
            let r = make_rule(
                key,
                ev,
                EffectType::MarkTransformation,
                add_tone_to_char(chr, t),
                add_tone_to_char(result, t),
            );
            proof { lemma_rules_model_push(out@, r); }
            out.push(r);
            assert(target.take(t + 1) =~= target.take(t as int).push(target[t as int]));
            assert(start + target.take(t + 1) =~= (start + target.take(t as int)).push(target[t as int]));
            t = t + 1;
        }
        assert(target.take(6) =~= target);
    } else {
        let r = make_rule(key, ev, EffectType::MarkTransformation, chr, result);
        proof { lemma_rules_model_push(out@, r); }
        out.push(r);
        assert(start.push(r@) =~= start + chr_rules(key, chr, effective_on, result, effect));
    }
}

fn parse_toneless_rule(key: char, effective_on: char, result: char, effect: Mark) -> (r: Vec<Rule>)
    ensures
        rules_model(r@) == spec_toneless_rule(key, effective_on, result, effect),
{
    let fam = get_mark_family(effective_on);
    let mut rules: Vec<Rule> = Vec::new();
    let mut i: usize = 0;
    while i < fam.len()
        invariant
            fam@ == spec_mark_family(effective_on),
            i <= fam@.len(),
            rules_model(rules@) == family_rules(key, fam@, effective_on, result, effect, i as int),
        decreases fam@.len() - i,
    {
        chr_rules_exec(key, fam[i], effective_on, result, effect, &mut rules);
        i = i + 1;
    }
    rules
}

/// The mark rules of the `LETTERS_RESULTS` part, pair by pair, over the first `n` pairs.
pub open spec fn dsl_rules(key: char, eos: Seq<char>, results: Seq<char>, n: int) -> Seq<RuleModel>
    decreases n,
{
    if n <= 0 || n > eos.len() || n > results.len() {
        Seq::empty()
    } else {
        dsl_rules(key, eos, results, n - 1) + match spec_find_mark_from_char(results[n - 1]) {
            Some(m) => spec_toneless_rule(key, eos[n - 1], results[n - 1], m),
            None => Seq::empty(),
        }
    }
}

pub open spec fn min_len(a: Seq<char>, b: Seq<char>) -> int {
    if a.len() < b.len() { a.len() as int } else { b.len() as int }
}

/// The rules of a non-tone definition line, given the line and its lowercase form.
pub open spec fn spec_parse_toneless_lowered(key: char, line: Seq<char>, lowered: Seq<char>) -> Seq<RuleModel> {
    match spec_parse_dsl(lowered) {
        Some((eos, results, rest)) => {
            let base = dsl_rules(key, eos, results, min_len(eos, results));
            match spec_appending_rule(key, rest) {
                Some(r) => base.push(r),
                None => base,
            }
        },
        None => match spec_appending_rule(key, line) {
            Some(r) => seq![r],
            None => Seq::empty(),
        },
    }
}

/// The rules of a non-tone definition line.
pub open spec fn spec_parse_toneless_rules(key: char, line: Seq<char>) -> Seq<RuleModel> {
    spec_parse_toneless_lowered(key, line, unicode_lower_str(line))
}

/// The rules of a definition line for key `key`.
pub open spec fn spec_parse_rules(key: char, line: Seq<char>) -> Seq<RuleModel> {
    match spec_tone_name(line) {
        Some(t) => seq![rule_m(key, t, EffectType::ToneTransformation, '\0', '\0')],
        None => spec_parse_toneless_rules(key, line),
    }
}

/// The rules of a non-tone definition line `line` whose lowercase form is `lowered`.
pub fn parse_toneless_rules_lowered(key: char, line: &str, lowered: &str) -> (r: Vec<Rule>)
    ensures
        rules_model(r@) == spec_parse_toneless_lowered(key, line@, lowered@),
{
    let low = str_chars(lowered);
    match parse_dsl(low.as_slice()) {
        Some((eos, results, rest)) => {
            let n = if eos.len() < results.len() { eos.len() } else { results.len() };
            let mut rules: Vec<Rule> = Vec::new();
            let mut i: usize = 0;
            while i < n
                invariant
                    n as int == min_len(eos@, results@),
                    i <= n,
                    rules_model(rules@) == dsl_rules(key, eos@, results@, i as int),
                decreases n - i,
            {
                let ghost before = rules@;
                match find_mark_from_char(results[i]) {
                    Some(effect) => {
                        let mut more = parse_toneless_rule(key, eos[i], results[i], effect);
                        let ghost added = more@;
                        rules.append(&mut more);
                        proof {
                            lemma_rules_model_concat(before, added);
                        }
                    },
                    None => {
                        assert(dsl_rules(key, eos@, results@, i + 1) =~= dsl_rules(key, eos@, results@, i as int));
                    },
                }
                i = i + 1;
            }
            match get_appending_rule(key, rest.as_slice()) {
                Some(r) => {
                    proof { lemma_rules_model_push(rules@, r); }
                    rules.push(r);
                },
                None => {},
            }
            rules
        },
        None => {
            let cs = str_chars(line);
            match get_appending_rule(key, cs.as_slice()) {
                Some(r) => {
                    let mut v: Vec<Rule> = Vec::new();
                    proof { lemma_rules_model_push(v@, r); }
                    v.push(r);
                    assert(rules_model(Seq::<Rule>::empty()) =~= Seq::<RuleModel>::empty());
                    assert(Seq::<RuleModel>::empty().push(r@) =~= seq![r@]);
                    v
                },
                None => {
                    let v: Vec<Rule> = Vec::new();
                    assert(rules_model(v@) =~= Seq::<RuleModel>::empty());
                    v
                },
            }
        },
    }
}

/// The rules of a non-tone definition line: `LETTERS_RESULTS` mark rules
/// (matched on the lowercase line) and an optional `_X`/`__X` appending rule.
pub fn parse_toneless_rules(key: char, line: &str) -> (r: Vec<Rule>)
    ensures
        rules_model(r@) == spec_parse_toneless_rules(key, line@),
{
    let lowered = std_str_to_lowercase(line);
    parse_toneless_rules_lowered(key, line, lowered.as_str())
}

/// The rules of a definition line: a tone rule for a tone name, otherwise the
/// mark and appending rules of the line.
pub fn parse_rules(key: char, line: &str) -> (r: Vec<Rule>)
    ensures
        rules_model(r@) == spec_parse_rules(key, line@),
{
    match tone_name(line) {
        Some(t) => {
            let rule = make_rule(key, t, EffectType::ToneTransformation, '\0', '\0');
            let mut v: Vec<Rule> = Vec::new();
            proof { lemma_rules_model_push(v@, rule); }
            v.push(rule);
            assert(rules_model(Seq::<Rule>::empty()) =~= Seq::<RuleModel>::empty());
            assert(Seq::<RuleModel>::empty().push(rule@) =~= seq![rule@]);
            v
        },
        None => parse_toneless_rules(key, line),
    }
}


// ---------------------------------------------------------------------------
// Input methods
// ---------------------------------------------------------------------------

/// The mathematical content of an [`InputMethod`].
pub struct InputMethodModel {
    pub name: Seq<char>,
    pub rules: Seq<RuleModel>,
    pub super_keys: Seq<char>,
    pub tone_keys: Seq<char>,
    pub appending_keys: Seq<char>,
    pub keys: Seq<char>,
}

/// An input method: its rules and the keys that trigger them.
#[derive(Debug)]
pub struct InputMethod {
    pub name: String,
    pub rules: Vec<Rule>,
    /// Keys whose definition mentions `uo`; they may turn `uo` into `ươ`.
    pub super_keys: Vec<char>,
    pub tone_keys: Vec<char>,
    pub appending_keys: Vec<char>,
    pub keys: Vec<char>,
}

impl View for InputMethod {
    type V = InputMethodModel;

    open spec fn view(&self) -> InputMethodModel {
        InputMethodModel {
            name: self.name@,
            rules: rules_model(self.rules@),
            super_keys: self.super_keys@,
            tone_keys: self.tone_keys@,
            appending_keys: self.appending_keys@,
            keys: self.keys@,
        }
    }
}

/// The input method with no name and no rules.
pub open spec fn spec_empty_input_method() -> InputMethodModel {
    InputMethodModel {
        name: Seq::empty(),
        rules: Seq::empty(),
        super_keys: Seq::empty(),
        tone_keys: Seq::empty(),
        appending_keys: Seq::empty(),
        keys: Seq::empty(),
    }
}

/// A copy of a character vector.
pub fn clone_chars(v: &Vec<char>) -> (r: Vec<char>)
    ensures
        r@ == v@,
{
    let mut out: Vec<char> = Vec::new();
    let mut i: usize = 0;
    while i < v.len()
        invariant
            i <= v@.len(),
            out@ == v@.take(i as int),
        decreases v@.len() - i,
    {
        out.push(v[i]);
        assert(v@.take(i + 1) =~= v@.take(i as int).push(v@[i as int]));
        i = i + 1;
    }
    assert(v@.take(v@.len() as int) =~= v@);
    out
}

/// Copies of a sequence of rules.
pub fn clone_rules(v: &[Rule]) -> (r: Vec<Rule>)
    ensures
        rules_model(r@) == rules_model(v@),
{
    let mut out: Vec<Rule> = Vec::new();
    let mut i: usize = 0;
    while i < v.len()
        invariant
            i <= v@.len(),
            rules_model(out@) == rules_model(v@.take(i as int)),
        decreases v@.len() - i,
    {
        let c = clone_rule(&v[i]);
        proof {
            lemma_rules_model_push(out@, c);
            lemma_rules_model_push(v@.take(i as int), v@[i as int]);
            assert(v@.take(i + 1) =~= v@.take(i as int).push(v@[i as int]));
        }
        out.push(c);
        i = i + 1;
    }
    assert(v@.take(v@.len() as int) =~= v@);
    out
}

impl Clone for InputMethod {
    fn clone(&self) -> (r: Self)
        ensures
            r@ == self@,
    {
        InputMethod {
            name: self.name.clone(),
            rules: clone_rules(self.rules.as_slice()),
            super_keys: clone_chars(&self.super_keys),
            tone_keys: clone_chars(&self.tone_keys),
            appending_keys: clone_chars(&self.appending_keys),
            keys: clone_chars(&self.keys),
        }
    }
}

impl Default for InputMethod {
    fn default() -> (r: Self)
        ensures
            r@ == spec_empty_input_method(),
    {
        let r = InputMethod {
            name: String::new(),
            rules: Vec::new(),
            super_keys: Vec::new(),
            tone_keys: Vec::new(),
            appending_keys: Vec::new(),
            keys: Vec::new(),
        };
        assert(rules_model(r.rules@) =~= Seq::<RuleModel>::empty());
        r
    }
}

/// The rules of the first `n` entries of a definition, in order.
pub open spec fn entry_rules(entries: Seq<(Seq<char>, Seq<char>)>, n: int) -> Seq<RuleModel>
    decreases n,
{
    if n <= 0 || n > entries.len() {
        Seq::empty()
    } else {
        entry_rules(entries, n - 1) + if entries[n - 1].0.len() > 0 {
            spec_parse_rules(entries[n - 1].0[0], entries[n - 1].1)
        } else {
            Seq::empty()
        }
    }
}

/// The keys (first character of the key text) of the first `n` entries with a non-empty key.
pub open spec fn entry_keys(entries: Seq<(Seq<char>, Seq<char>)>, n: int) -> Seq<char>
    decreases n,
{
    if n <= 0 || n > entries.len() {
        Seq::empty()
    } else if entries[n - 1].0.len() > 0 {
        entry_keys(entries, n - 1).push(entries[n - 1].0[0])
    } else {
        entry_keys(entries, n - 1)
    }
}

/// The keys of those first `n` entries whose line holds `uo` (ASCII case ignored).
pub open spec fn entry_super_keys(entries: Seq<(Seq<char>, Seq<char>)>, n: int) -> Seq<char>
    decreases n,
{
    if n <= 0 || n > entries.len() {
        Seq::empty()
    } else if entries[n - 1].0.len() > 0 && spec_contains_uo(entries[n - 1].1) {
        entry_super_keys(entries, n - 1).push(entries[n - 1].0[0])
    } else {
        entry_super_keys(entries, n - 1)
    }
}

/// The keys of the rules of effect type `et` among the first `n` rules, in order.
pub open spec fn keys_of_type(rules: Seq<RuleModel>, et: EffectType, n: int) -> Seq<char>
    decreases n,
{
    if n <= 0 || n > rules.len() {
        Seq::empty()
    } else if rules[n - 1].effect_type == et {
        keys_of_type(rules, et, n - 1).push(rules[n - 1].key)
    } else {
        keys_of_type(rules, et, n - 1)
    }
}

/// The input method a definition describes.
pub open spec fn spec_parse_input_method_def(name: Seq<char>, entries: Seq<(Seq<char>, Seq<char>)>) -> InputMethodModel {
    let rules = entry_rules(entries, entries.len() as int);
    InputMethodModel {
        name,
        rules,
        super_keys: entry_super_keys(entries, entries.len() as int),
        tone_keys: keys_of_type(rules, EffectType::ToneTransformation, rules.len() as int),
        appending_keys: keys_of_type(rules, EffectType::Appending, rules.len() as int),
        keys: entry_keys(entries, entries.len() as int),
    }
}

/// The built-in input method called `name`, or the empty one when there is none.
pub open spec fn spec_parse_input_method(name: Seq<char>) -> InputMethodModel {
    match spec_input_method_entries(name) {
        Some(entries) => spec_parse_input_method_def(name, entries),
        None => spec_empty_input_method(),
    }
}

/// Builds the input method described by a definition: the rules of every
/// entry in order, the keys, the keys whose line holds `uo`, and the keys of
/// the tone and of the appending rules.
pub fn parse_input_method_def(im_name: &str, im_def: &[(&str, &str)]) -> (r: InputMethod)
    ensures
        r@ == spec_parse_input_method_def(im_name@, entries_view(im_def@)),
{
    let ghost ev = entries_view(im_def@);
    let mut rules: Vec<Rule> = Vec::new();
    let mut super_keys: Vec<char> = Vec::new();
    let mut keys: Vec<char> = Vec::new();
    let mut i: usize = 0;
    while i < im_def.len()
        invariant
            ev == entries_view(im_def@),
            i <= im_def@.len(),
            rules_model(rules@) == entry_rules(ev, i as int),
            super_keys@ == entry_super_keys(ev, i as int),
            keys@ == entry_keys(ev, i as int),
        decreases im_def@.len() - i,
    {
        let (key_str, line) = im_def[i];
        assert(ev[i as int] == (key_str@, line@));
        let kc = str_chars(key_str);
        if kc.len() > 0 {
            let key = kc[0];
            let ghost before = rules@;
            let mut more = parse_rules(key, line);
            let ghost added = more@;
            rules.append(&mut more);
            proof { lemma_rules_model_concat(before, added); }
            if contains_uo_case_insensitive(line) {
                super_keys.push(key);
            }
            keys.push(key);
        } else {
            assert(entry_rules(ev, i + 1) =~= entry_rules(ev, i as int));
        }
        i = i + 1;
    }
    let ghost rm = rules_model(rules@);
    proof { lemma_rules_model_index(rules@); }
    let mut tone_keys: Vec<char> = Vec::new();
    let mut appending_keys: Vec<char> = Vec::new();
    let mut j: usize = 0;
    while j < rules.len()
        invariant
            j <= rules@.len(),
            rm == rules_model(rules@),
            rm.len() == rules@.len(),
            forall|k: int| 0 <= k < rules@.len() ==> #[trigger] rm[k] == rule_model(rules@[k]),
            tone_keys@ == keys_of_type(rm, EffectType::ToneTransformation, j as int),
            appending_keys@ == keys_of_type(rm, EffectType::Appending, j as int),
        decreases rules@.len() - j,
    {
        proof { lemma_rule_model_unfold(rules@[j as int]); }
        if rules[j].effect_type == EffectType::Appending {
            appending_keys.push(rules[j].key);
        }
        if rules[j].effect_type == EffectType::ToneTransformation {
            tone_keys.push(rules[j].key);
        }
        j = j + 1;
    }
    let name = String::from_str(im_name);
    InputMethod { name, rules, super_keys, tone_keys, appending_keys, keys }
}

/// The built-in input method called `im_name` (the empty input method for an unknown name).
pub fn parse_input_method(im_name: &str) -> (r: InputMethod)
    ensures
        r@ == spec_parse_input_method(im_name@),
{
    match get_input_method_entries(im_name) {
        Some(def) => parse_input_method_def(im_name, def.as_slice()),
        None => InputMethod::default(),
    }
}

impl InputMethod {
    pub fn telex() -> (r: Self)
        ensures
            r@ == spec_parse_input_method("Telex"@),
    {
        parse_input_method("Telex")
    }

    pub fn vni() -> (r: Self)
        ensures
            r@ == spec_parse_input_method("VNI"@),
    {
        parse_input_method("VNI")
    }

    pub fn viqr() -> (r: Self)
        ensures
            r@ == spec_parse_input_method("VIQR"@),
    {
        parse_input_method("VIQR")
    }

    pub fn microsoft_layout() -> (r: Self)
        ensures
            r@ == spec_parse_input_method("Microsoft layout"@),
    {
        parse_input_method("Microsoft layout")
    }

    pub fn telex_2() -> (r: Self)
        ensures
            r@ == spec_parse_input_method("Telex 2"@),
    {
        parse_input_method("Telex 2")
    }

    pub fn telex_vni() -> (r: Self)
        ensures
            r@ == spec_parse_input_method("Telex + VNI"@),
    {
        parse_input_method("Telex + VNI")
    }

    pub fn telex_vni_viqr() -> (r: Self)
        ensures
            r@ == spec_parse_input_method("Telex + VNI + VIQR"@),
    {
        parse_input_method("Telex + VNI + VIQR")
    }

    pub fn vni_french_layout() -> (r: Self)
        ensures
            r@ == spec_parse_input_method("VNI Bàn phím tiếng Pháp"@),
    {
        parse_input_method("VNI Bàn phím tiếng Pháp")
    }

    pub fn telex_w() -> (r: Self)
        ensures
            r@ == spec_parse_input_method("Telex W"@),
    {
        parse_input_method("Telex W")
    }
}

} // verus!
