//! Spelling check of Vietnamese syllables by their structure: first
//! consonant, vowel cluster, last consonant.
//!
//! Each part is looked up in a table whose rows group spellings that combine
//! alike; two tables of allowed combinations then say which rows of adjacent
//! parts may follow each other.
use vstd::prelude::*;
use crate::text::str_chars;
use crate::utils::{add_mark_to_toneless_char, spec_add_mark_toneless};

verus! {

/// A table as (row, spelling) pairs.
pub open spec fn table_view(v: Seq<(usize, &str)>) -> Seq<(int, Seq<char>)> {
    v.map_values(|e: (usize, &str)| (e.0 as int, e.1@))
}

/// First consonants.
pub open spec fn fc_table() -> Seq<(int, Seq<char>)> {
    seq![
        (0int, "b"@),
        (0int, "d"@),
        (0int, "đ"@),
        (0int, "g"@),
        (0int, "gh"@),
        (0int, "m"@),
        (0int, "n"@),
        (0int, "nh"@),
        (0int, "p"@),
        (0int, "ph"@),
        (0int, "r"@),
        (0int, "s"@),
        (0int, "t"@),
        (0int, "tr"@),
        (0int, "v"@),
        (0int, "z"@),
        (1int, "c"@),
        (1int, "h"@),
        (1int, "k"@),
        (1int, "kh"@),
        (1int, "qu"@),
        (1int, "th"@),
        (2int, "ch"@),
        (2int, "gi"@),
        (2int, "l"@),
        (2int, "ng"@),
        (2int, "ngh"@),
        (2int, "x"@),
        (3int, "đ"@),
        (3int, "l"@),
        (4int, "h"@),
    ]
}

/// Vowel clusters.
pub open spec fn vo_table() -> Seq<(int, Seq<char>)> {
    seq![
        (0int, "ê"@),
        (0int, "i"@),
        (0int, "ua"@),
        (0int, "uê"@),
        (0int, "uy"@),
        (0int, "y"@),
        (1int, "a"@),
        (1int, "iê"@),
        (1int, "oa"@),
        (1int, "uyê"@),
        (1int, "yê"@),
        (2int, "â"@),
        (2int, "ă"@),
        (2int, "e"@),
        (2int, "o"@),
        (2int, "oo"@),
        (2int, "ô"@),
        (2int, "ơ"@),
        (2int, "oe"@),
        (2int, "u"@),
        (2int, "ư"@),
        (2int, "uâ"@),
        (2int, "uô"@),
        (2int, "ươ"@),
        (3int, "oă"@),
        (4int, "uơ"@),
        (5int, "ai"@),
        (5int, "ao"@),
        (5int, "au"@),
        (5int, "âu"@),
        (5int, "ay"@),
        (5int, "ây"@),
        (5int, "eo"@),
        (5int, "êu"@),
        (5int, "ia"@),
        (5int, "iêu"@),
        (5int, "iu"@),
        (5int, "oai"@),
        (5int, "oao"@),
        (5int, "oay"@),
        (5int, "oeo"@),
        (5int, "oi"@),
        (5int, "ôi"@),
        (5int, "ơi"@),
        (5int, "ưa"@),
        (5int, "uây"@),
        (5int, "ui"@),
        (5int, "ưi"@),
        (5int, "uôi"@),
        (5int, "ươi"@),
        (5int, "ươu"@),
        (5int, "ưu"@),
        (5int, "uya"@),
        (5int, "uyu"@),
        (5int, "yêu"@),
        (6int, "ă"@),
        (7int, "i"@),
    ]
}

/// Last consonants.
pub open spec fn lc_table() -> Seq<(int, Seq<char>)> {
    seq![
        (0int, "ch"@),
        (0int, "nh"@),
        (1int, "c"@),
        (1int, "ng"@),
        (2int, "m"@),
        (2int, "n"@),
        (2int, "p"@),
        (2int, "t"@),
        (3int, "k"@),
        (4int, "c"@),
    ]
}

fn fc_table_exec() -> (r: Vec<(usize, &'static str)>)
    ensures
        table_view(r@) == fc_table(),
{
    let r = vec![
        (0, "b"),
        (0, "d"),
        (0, "đ"),
        (0, "g"),
        (0, "gh"),
        (0, "m"),
        (0, "n"),
        (0, "nh"),
        (0, "p"),
        (0, "ph"),
        (0, "r"),
        (0, "s"),
        (0, "t"),
        (0, "tr"),
        (0, "v"),
        (0, "z"),
        (1, "c"),
        (1, "h"),
        (1, "k"),
        (1, "kh"),
        (1, "qu"),
        (1, "th"),
        (2, "ch"),
        (2, "gi"),
        (2, "l"),
        (2, "ng"),
        (2, "ngh"),
        (2, "x"),
        (3, "đ"),
        (3, "l"),
        (4, "h"),
    ];
    assert(table_view(r@) =~= fc_table());
    r
}

fn vo_table_exec() -> (r: Vec<(usize, &'static str)>)
    ensures
        table_view(r@) == vo_table(),
{
    let r = vec![
        (0, "ê"),
        (0, "i"),
        (0, "ua"),
        (0, "uê"),
        (0, "uy"),
        (0, "y"),
        (1, "a"),
        (1, "iê"),
        (1, "oa"),
        (1, "uyê"),
        (1, "yê"),
        (2, "â"),
        (2, "ă"),
        (2, "e"),
        (2, "o"),
        (2, "oo"),
        (2, "ô"),
        (2, "ơ"),
        (2, "oe"),
        (2, "u"),
        (2, "ư"),
        (2, "uâ"),
        (2, "uô"),
        (2, "ươ"),
        (3, "oă"),
        (4, "uơ"),
        (5, "ai"),
        (5, "ao"),
        (5, "au"),
        (5, "âu"),
        (5, "ay"),
        (5, "ây"),
        (5, "eo"),
        (5, "êu"),
        (5, "ia"),
        (5, "iêu"),
        (5, "iu"),
        (5, "oai"),
        (5, "oao"),
        (5, "oay"),
        (5, "oeo"),
        (5, "oi"),
        (5, "ôi"),
        (5, "ơi"),
        (5, "ưa"),
        (5, "uây"),
        (5, "ui"),
        (5, "ưi"),
        (5, "uôi"),
        (5, "ươi"),
        (5, "ươu"),
        (5, "ưu"),
        (5, "uya"),
        (5, "uyu"),
        (5, "yêu"),
        (6, "ă"),
        (7, "i"),
    ];
    assert(table_view(r@) =~= vo_table());
    r
}

fn lc_table_exec() -> (r: Vec<(usize, &'static str)>)
    ensures
        table_view(r@) == lc_table(),
{
    let r = vec![
        (0, "ch"),
        (0, "nh"),
        (1, "c"),
        (1, "ng"),
        (2, "m"),
        (2, "n"),
        (2, "p"),
        (2, "t"),
        (3, "k"),
        (4, "c"),
    ];
    assert(table_view(r@) =~= lc_table());
    r
}

/// Which vowel rows may follow first-consonant row `f`.
pub open spec fn cv_allowed(f: int, v: int) -> bool {
    if f == 0 {
        v == 0 || v == 1 || v == 2 || v == 5
    } else if f == 1 {
        0 <= v <= 5
    } else if f == 2 {
        v == 0 || v == 1 || v == 2 || v == 3 || v == 5
    } else if f == 3 {
        v == 6
    } else if f == 4 {
        v == 7
    } else {
        false
    }
}

/// Which last-consonant rows may follow vowel row `v`.
pub open spec fn vc_allowed(v: int, l: int) -> bool {
    if v == 0 {
        l == 0 || l == 2
    } else if v == 1 {
        l == 0 || l == 1 || l == 2
    } else if v == 2 || v == 3 {
        l == 1 || l == 2
    } else if v == 6 {
        l == 3
    } else if v == 7 {
        l == 4
    } else {
        false
    }
}

fn cv_allowed_exec(f: usize, v: usize) -> (r: bool)
    ensures
        r == cv_allowed(f as int, v as int),
{
    if f == 0 {
        v == 0 || v == 1 || v == 2 || v == 5
    } else if f == 1 {
        v <= 5
    } else if f == 2 {
        v == 0 || v == 1 || v == 2 || v == 3 || v == 5
    } else if f == 3 {
        v == 6
    } else if f == 4 {
        v == 7
    } else {
        false
    }
}

fn vc_allowed_exec(v: usize, l: usize) -> (r: bool)
    ensures
        r == vc_allowed(v as int, l as int),
{
    if v == 0 {
        l == 0 || l == 2
    } else if v == 1 {
        l == 0 || l == 1 || l == 2
    } else if v == 2 || v == 3 {
        l == 1 || l == 2
    } else if v == 6 {
        l == 3
    } else if v == 7 {
        l == 4
    } else {
        false
    }
}

/// Whether spelling `t` matches `input`: `t` is at least as long (exactly as
/// long when `full`), and each input character equals the spelling's, or,
/// when not `complete`, its form without diacritic.
pub open spec fn token_match(t: Seq<char>, input: Seq<char>, full: bool, complete: bool) -> bool {
    &&& t.len() >= input.len()
    &&& !(full && t.len() > input.len())
    &&& forall|i: int|
        0 <= i < input.len() ==> (#[trigger] input[i] == t[i] || (!complete
            && spec_add_mark_toneless(t[i], 0) == input[i]))
}

/// Whether some spelling of row `r` of `table` matches `input`.
pub open spec fn row_match(table: Seq<(int, Seq<char>)>, r: int, input: Seq<char>, full: bool, complete: bool) -> bool {
    exists|k: int| 0 <= k < table.len() && (#[trigger] table[k]).0 == r && token_match(table[k].1, input, full, complete)
}

fn token_match_exec(t: &str, input: &[char], full: bool, complete: bool) -> (r: bool)
    ensures
        r == token_match(t@, input@, full, complete),
{
    let tc = str_chars(t);
    if tc.len() < input.len() {
        return false;
    }
    if full && tc.len() > input.len() {
        return false;
    }
    let mut i: usize = 0;
    while i < input.len()
        invariant
            tc@ == t@,
            tc@.len() >= input@.len(),
            i <= input@.len(),
            forall|j: int|
                0 <= j < i ==> (#[trigger] input@[j] == tc@[j] || (!complete
                    && spec_add_mark_toneless(tc@[j], 0) == input@[j])),
        decreases input@.len() - i,
    {
        let ic = input[i];
        let c = tc[i];
        if ic != c && (complete || add_mark_to_toneless_char(c, 0) != ic) {
            return false;
        }
        i = i + 1;
    }
    true
}

/// For each of the `nrows` rows of `table`, whether one of its spellings matches `input`.
fn lookup_rows(table: &Vec<(usize, &str)>, nrows: usize, input: &[char], full: bool, complete: bool) -> (r: Vec<bool>)
    ensures
        r@.len() == nrows,
        forall|row: int| 0 <= row < nrows ==> #[trigger] r@[row] == row_match(table_view(table@), row, input@, full, complete),
{
    let ghost tv = table_view(table@);
    let mut mask: Vec<bool> = Vec::new();
    let mut j: usize = 0;
    while j < nrows
        invariant
            j <= nrows,
            mask@.len() == j,
            forall|row: int| 0 <= row < j ==> !#[trigger] mask@[row],
        decreases nrows - j,
    {
        mask.push(false);
        j = j + 1;
    }
    let mut i: usize = 0;
    while i < table.len()
        invariant
            tv == table_view(table@),
            i <= table@.len(),
            mask@.len() == nrows,
            forall|row: int|
                0 <= row < nrows ==> (#[trigger] mask@[row] == exists|k: int|
                    0 <= k < i && (#[trigger] tv[k]).0 == row && token_match(tv[k].1, input@, full, complete)),
        decreases table@.len() - i,
    {
        let (row, tok) = table[i];
        assert(tv[i as int] == (row as int, tok@));
        if row < nrows && !mask[row] && token_match_exec(tok, input, full, complete) {
            mask.set(row, true);
        }
        assert forall|r: int| 0 <= r < nrows implies (#[trigger] mask@[r] == exists|k: int|
            0 <= k < i + 1 && (#[trigger] tv[k]).0 == r && token_match(tv[k].1, input@, full, complete)) by {
            if r == row as int && token_match(tok@, input@, full, complete) {
                assert(tv[i as int].0 == r);
            }
        }
        i = i + 1;
    }
    mask
}

pub open spec fn fc_ok(fc: Seq<char>, vo: Seq<char>, full: bool, r: int) -> bool {
    row_match(fc_table(), r, fc, full || vo.len() > 0, true)
}

pub open spec fn vo_ok(vo: Seq<char>, lc: Seq<char>, full: bool, r: int) -> bool {
    row_match(vo_table(), r, vo, full || lc.len() > 0, full)
}

pub open spec fn lc_ok(lc: Seq<char>, full: bool, r: int) -> bool {
    row_match(lc_table(), r, lc, full, true)
}

/// Whether a syllable split into first consonant `fc`, vowel cluster `vo` and
/// last consonant `lc` is valid Vietnamese spelling; `full` asks that the
/// syllable be complete rather than a prefix being typed.
pub open spec fn spec_is_valid_cvc_chars(fc: Seq<char>, vo: Seq<char>, lc: Seq<char>, full: bool) -> bool {
    if fc.len() > 0 && !(exists|r: int| 0 <= r < 5 && #[trigger] fc_ok(fc, vo, full, r)) {
        false
    } else if vo.len() > 0 && !(exists|r: int| 0 <= r < 8 && #[trigger] vo_ok(vo, lc, full, r)) {
        false
    } else if lc.len() > 0 && !(exists|r: int| 0 <= r < 5 && #[trigger] lc_ok(lc, full, r)) {
        false
    } else if vo.len() == 0 {
        fc.len() > 0
    } else {
        let valid_cv = exists|f: int, v: int|
            0 <= f < 5 && 0 <= v < 8 && #[trigger] fc_ok(fc, vo, full, f) && #[trigger] vo_ok(vo, lc, full, v)
                && cv_allowed(f, v);
        if fc.len() > 0 && (!valid_cv || lc.len() == 0) {
            valid_cv
        } else if lc.len() > 0 {
            exists|v: int, l: int|
                0 <= v < 8 && 0 <= l < 5 && #[trigger] vo_ok(vo, lc, full, v) && #[trigger] lc_ok(lc, full, l)
                    && vc_allowed(v, l)
        } else {
            true
        }
    }
}

fn any_true(m: &Vec<bool>) -> (r: bool)
    ensures
        r == exists|i: int| 0 <= i < m@.len() && #[trigger] m@[i],
{
    let mut i: usize = 0;
    while i < m.len()
        invariant
            i <= m@.len(),
            forall|j: int| 0 <= j < i ==> !#[trigger] m@[j],
        decreases m@.len() - i,
    {
        if m[i] {
            return true;
        }
        i = i + 1;
    }
    false
}

/// Validates a syllable given as its first consonant, vowel cluster and last
/// consonant characters.
pub fn is_valid_cvc_chars(fc: &[char], vo: &[char], lc: &[char], full: bool) -> (r: bool)
    ensures
        r == spec_is_valid_cvc_chars(fc@, vo@, lc@, full),
{
    let fct = fc_table_exec();
    let vot = vo_table_exec();
    let lct = lc_table_exec();
    let fm = lookup_rows(&fct, 5, fc, full || vo.len() > 0, true);
    let vm = lookup_rows(&vot, 8, vo, full || lc.len() > 0, full);
    let lm = lookup_rows(&lct, 5, lc, full, true);
    assert(forall|r: int| 0 <= r < 5 ==> #[trigger] fm@[r] == fc_ok(fc@, vo@, full, r));
    assert(forall|r: int| 0 <= r < 8 ==> #[trigger] vm@[r] == vo_ok(vo@, lc@, full, r));
    assert(forall|r: int| 0 <= r < 5 ==> #[trigger] lm@[r] == lc_ok(lc@, full, r));
    let fc_any = any_true(&fm);
    let vo_any = any_true(&vm);
    let lc_any = any_true(&lm);
    assert(fc_any == exists|r: int| 0 <= r < 5 && #[trigger] fc_ok(fc@, vo@, full, r)) by {
        if fc_any {
            let i = choose|i: int| 0 <= i < fm@.len() && #[trigger] fm@[i];
            assert(fc_ok(fc@, vo@, full, i));
        } else {
            assert forall|r: int| 0 <= r < 5 implies !#[trigger] fc_ok(fc@, vo@, full, r) by {
                assert(!fm@[r]);
            }
        }
    }
    assert(vo_any == exists|r: int| 0 <= r < 8 && #[trigger] vo_ok(vo@, lc@, full, r)) by {
        if vo_any {
            let i = choose|i: int| 0 <= i < vm@.len() && #[trigger] vm@[i];
            assert(vo_ok(vo@, lc@, full, i));
        } else {
            assert forall|r: int| 0 <= r < 8 implies !#[trigger] vo_ok(vo@, lc@, full, r) by {
                assert(!vm@[r]);
            }
        }
    }
    assert(lc_any == exists|r: int| 0 <= r < 5 && #[trigger] lc_ok(lc@, full, r)) by {
        if lc_any {
            let i = choose|i: int| 0 <= i < lm@.len() && #[trigger] lm@[i];
            assert(lc_ok(lc@, full, i));
        } else {
            assert forall|r: int| 0 <= r < 5 implies !#[trigger] lc_ok(lc@, full, r) by {
                assert(!lm@[r]);
            }
        }
    }
    if fc.len() > 0 && !fc_any {
        return false;
    }
    if vo.len() > 0 && !vo_any {
        return false;
    }
    if lc.len() > 0 && !lc_any {
        return false;
    }
    if vo.len() == 0 {
        return fc.len() > 0;
    }
    let mut valid_cv = false;
    let mut f: usize = 0;
    while f < 5
        invariant
            f <= 5,
            fm@.len() == 5,
            vm@.len() == 8,
            forall|r: int| 0 <= r < 5 ==> #[trigger] fm@[r] == fc_ok(fc@, vo@, full, r),
            forall|r: int| 0 <= r < 8 ==> #[trigger] vm@[r] == vo_ok(vo@, lc@, full, r),
            valid_cv == exists|a: int, b: int|
                0 <= a < f && 0 <= b < 8 && #[trigger] fc_ok(fc@, vo@, full, a) && #[trigger] vo_ok(vo@, lc@, full, b)
                    && cv_allowed(a, b),
        decreases 5 - f,
    {
        let mut v: usize = 0;
        while v < 8
            invariant
                f < 5,
                v <= 8,
                fm@.len() == 5,
                vm@.len() == 8,
                forall|r: int| 0 <= r < 5 ==> #[trigger] fm@[r] == fc_ok(fc@, vo@, full, r),
                forall|r: int| 0 <= r < 8 ==> #[trigger] vm@[r] == vo_ok(vo@, lc@, full, r),
                valid_cv == exists|a: int, b: int|
                    0 <= a <= f && 0 <= b < 8 && (a < f || b < v) && #[trigger] fc_ok(fc@, vo@, full, a) && #[trigger] vo_ok(vo@, lc@, full, b)
                        && cv_allowed(a, b),
            decreases 8 - v,
        {
            if fm[f] && vm[v] && cv_allowed_exec(f, v) {
                valid_cv = true;
            }
            v = v + 1;
        }
        f = f + 1;
    }
    if fc.len() > 0 && (!valid_cv || lc.len() == 0) {
        return valid_cv;
    }
    if lc.len() > 0 {
        let mut valid_vc = false;
        let mut v: usize = 0;
        while v < 8
            invariant
                v <= 8,
                lm@.len() == 5,
                vm@.len() == 8,
                forall|r: int| 0 <= r < 5 ==> #[trigger] lm@[r] == lc_ok(lc@, full, r),
                forall|r: int| 0 <= r < 8 ==> #[trigger] vm@[r] == vo_ok(vo@, lc@, full, r),
                valid_vc == exists|a: int, b: int|
                    0 <= a < v && 0 <= b < 5 && #[trigger] vo_ok(vo@, lc@, full, a) && #[trigger] lc_ok(lc@, full, b)
                        && vc_allowed(a, b),
            decreases 8 - v,
        {
            let mut l: usize = 0;
            while l < 5
                invariant
                    v < 8,
                    l <= 5,
                    lm@.len() == 5,
                    vm@.len() == 8,
                    forall|r: int| 0 <= r < 5 ==> #[trigger] lm@[r] == lc_ok(lc@, full, r),
                    forall|r: int| 0 <= r < 8 ==> #[trigger] vm@[r] == vo_ok(vo@, lc@, full, r),
                    valid_vc == exists|a: int, b: int|
                        0 <= a <= v && 0 <= b < 5 && (a < v || b < l) && #[trigger] vo_ok(vo@, lc@, full, a) && #[trigger] lc_ok(lc@, full, b)
                            && vc_allowed(a, b),
                decreases 5 - l,
            {
                if vm[v] && lm[l] && vc_allowed_exec(v, l) {
                    valid_vc = true;
                }
                l = l + 1;
            }
            v = v + 1;
        }
        return valid_vc;
    }
    true
}

/// The first eight characters of `s` (all of them when it is shorter).
pub open spec fn first8(s: Seq<char>) -> Seq<char> {
    if s.len() <= 8 { s } else { s.take(8) }
}

fn first8_exec(s: &str) -> (r: Vec<char>)
    ensures
        r@ == first8(s@),
{
    let cs = str_chars(s);
    let mut out: Vec<char> = Vec::new();
    let mut i: usize = 0;
    while i < cs.len() && i < 8
        invariant
            cs@ == s@,
            i <= cs@.len(),
            i <= 8,
            out@ == cs@.take(i as int),
        decreases cs@.len() - i,
    {
        out.push(cs[i]);
        assert(cs@.take(i + 1) =~= cs@.take(i as int).push(cs@[i as int]));
        i = i + 1;
    }
    assert(cs@.len() <= 8 ==> cs@.take(cs@.len() as int) =~= cs@);
    out
}

/// Validates a Vietnamese syllable given as its first consonant(s), vowel(s)
/// and last consonant(s); only the first eight characters of each part count.
pub fn is_valid_cvc(fc: &str, vo: &str, lc: &str, full: bool) -> (r: bool)
    ensures
        r == spec_is_valid_cvc_chars(first8(fc@), first8(vo@), first8(lc@), full),
{
    let f = first8_exec(fc);
    let v = first8_exec(vo);
    let l = first8_exec(lc);
    is_valid_cvc_chars(f.as_slice(), v.as_slice(), l.as_slice(), full)
}

/// Every spelling matches itself.
proof fn lemma_token_match_self(t: Seq<char>, full: bool, complete: bool)
    ensures
        token_match(t, t, full, complete),
{
}

/// Vowel clusters that may end in `ch` and `nh` as well as in `m`, `n`, `p`
/// and `t`: ê, i, ua, uê, uy, y.
pub open spec fn front_vowels(v: Seq<char>) -> bool {
    v == "ê"@ || v == "i"@ || v == "ua"@ || v == "uê"@ || v == "uy"@ || v == "y"@
}

/// Vowel clusters that may end in any of `ch`, `nh`, `c`, `ng`, `m`, `n`, `p`
/// and `t`: a, iê, oa, uyê, yê.
pub open spec fn open_vowels(v: Seq<char>) -> bool {
    v == "a"@ || v == "iê"@ || v == "oa"@ || v == "uyê"@ || v == "yê"@
}

/// Vowel clusters that may end in `c`, `ng`, `m`, `n`, `p` and `t`.
pub open spec fn back_vowels(v: Seq<char>) -> bool {
    v == "â"@ || v == "ă"@ || v == "e"@ || v == "o"@ || v == "oo"@ || v == "ô"@ || v == "ơ"@ || v == "oe"@ || v == "u"@ || v == "ư"@ || v == "uâ"@ || v == "uô"@ || v == "ươ"@
}

/// `ch` and `nh`.
pub open spec fn palatal_endings(l: Seq<char>) -> bool {
    l == "ch"@ || l == "nh"@
}

/// `c` and `ng`.
pub open spec fn velar_endings(l: Seq<char>) -> bool {
    l == "c"@ || l == "ng"@
}

/// `m`, `n`, `p` and `t`.
pub open spec fn other_endings(l: Seq<char>) -> bool {
    l == "m"@ || l == "n"@ || l == "p"@ || l == "t"@
}

/// Which last consonants each vowel cluster takes: ê, i, ua, uê, uy and y
/// take `ch`, `nh`, `m`, `n`, `p` and `t` (as in `minh`, `bệnh`, `lịch`);
/// a, iê, oa, uyê and yê take these and `c` and `ng` too (`sách`, `tiếng`);
/// â, ă, e, o, oo, ô, ơ, oe, u, ư, uâ, uô and ươ take `c`, `ng`, `m`, `n`,
/// `p` and `t` (`không`). With no first consonant, or with any first consonant
/// of the first three rows of the table (b, m, t, l, ch, ng, ...), such a
/// syllable is valid, whether it is checked as complete or as being typed.
pub proof fn lemma_vowel_endings(fc: Seq<char>, vo: Seq<char>, lc: Seq<char>, full: bool)
    requires
        fc.len() == 0 || exists|k: int| 0 <= k < fc_table().len() && fc_table()[k].0 < 3 && fc_table()[k].1 == fc,
        front_vowels(vo) || open_vowels(vo) || back_vowels(vo),
        palatal_endings(lc) || velar_endings(lc) || other_endings(lc),
        front_vowels(vo) ==> !velar_endings(lc),
        back_vowels(vo) ==> !palatal_endings(lc),
    ensures
        spec_is_valid_cvc_chars(fc, vo, lc, full),
{
    reveal_strlit("ê");
    reveal_strlit("i");
    reveal_strlit("ua");
    reveal_strlit("uê");
    reveal_strlit("uy");
    reveal_strlit("y");
    reveal_strlit("a");
    reveal_strlit("iê");
    reveal_strlit("oa");
    reveal_strlit("uyê");
    reveal_strlit("yê");
    reveal_strlit("â");
    reveal_strlit("ă");
    reveal_strlit("e");
    reveal_strlit("o");
    reveal_strlit("oo");
    reveal_strlit("ô");
    reveal_strlit("ơ");
    reveal_strlit("oe");
    reveal_strlit("u");
    reveal_strlit("ư");
    reveal_strlit("uâ");
    reveal_strlit("uô");
    reveal_strlit("ươ");
    reveal_strlit("ch");
    reveal_strlit("nh");
    reveal_strlit("c");
    reveal_strlit("ng");
    reveal_strlit("m");
    reveal_strlit("n");
    reveal_strlit("p");
    reveal_strlit("t");
    let vt = vo_table();
    let lt = lc_table();
    let vk: int = if vo == "ê"@ { 0 } else if vo == "i"@ { 1 } else if vo == "ua"@ { 2 } else if vo == "uê"@ { 3 } else if vo == "uy"@ { 4 } else if vo == "y"@ { 5 } else if vo == "a"@ { 6 } else if vo == "iê"@ { 7 } else if vo == "oa"@ { 8 } else if vo == "uyê"@ { 9 } else if vo == "yê"@ { 10 } else if vo == "â"@ { 11 } else if vo == "ă"@ { 12 } else if vo == "e"@ { 13 } else if vo == "o"@ { 14 } else if vo == "oo"@ { 15 } else if vo == "ô"@ { 16 } else if vo == "ơ"@ { 17 } else if vo == "oe"@ { 18 } else if vo == "u"@ { 19 } else if vo == "ư"@ { 20 } else if vo == "uâ"@ { 21 } else if vo == "uô"@ { 22 } else { 23 };
    assert(vt[vk].1 == vo);
    let v = vt[vk].0;
    lemma_token_match_self(vo, full || lc.len() > 0, full);
    assert(vo_ok(vo, lc, full, v));
    let lk: int = if lc == "ch"@ { 0 } else if lc == "nh"@ { 1 } else if lc == "c"@ { 2 } else if lc == "ng"@ { 3 } else if lc == "m"@ { 4 } else if lc == "n"@ { 5 } else if lc == "p"@ { 6 } else { 7 };
    assert(lt[lk].1 == lc);
    let l = lt[lk].0;
    lemma_token_match_self(lc, full, true);
    assert(lc_ok(lc, full, l));
    if palatal_endings(lc) {
        assert(l == 0);
    } else if velar_endings(lc) {
        assert(l == 1);
    } else {
        assert(l == 2);
    }
    if front_vowels(vo) {
        assert(v == 0);
        assert(!velar_endings(lc));
    } else if open_vowels(vo) {
        assert(v == 1);
    } else {
        assert(v == 2);
        assert(!palatal_endings(lc));
    }
    assert(vc_allowed(v, l));
    if fc.len() > 0 {
        let k = choose|k: int| 0 <= k < fc_table().len() && fc_table()[k].0 < 3 && fc_table()[k].1 == fc;
        let f = fc_table()[k].0;
        lemma_token_match_self(fc, full || vo.len() > 0, true);
        assert(fc_ok(fc, vo, full, f));
        assert(cv_allowed(f, v));
    }
}

/// A spelling matched in full is the spelling itself.
proof fn lemma_full_match_is_spelling(table: Seq<(int, Seq<char>)>, r: int, input: Seq<char>)
    requires
        row_match(table, r, input, true, true),
    ensures
        exists|k: int| 0 <= k < table.len() && #[trigger] table[k] == (r, input),
{
    let k = choose|k: int| 0 <= k < table.len() && (#[trigger] table[k]).0 == r && token_match(table[k].1, input, true, true);
    assert(table[k].1 =~= input);
    assert(table[k] == (r, input));
}

/// A complete syllable whose vowel is one of â, ă, e, o, ô, ơ, u and ư
/// cannot end in `ch` or `nh` (`ech` and `ônh` are no words).
pub proof fn lemma_back_vowels_refuse_palatal(fc: Seq<char>, vo: Seq<char>, lc: Seq<char>)
    requires
        vo.len() == 1,
        vo[0] == 'â' || vo[0] == 'ă' || vo[0] == 'e' || vo[0] == 'o' || vo[0] == 'ô' || vo[0] == 'ơ' || vo[0] == 'u' || vo[0] == 'ư',
        palatal_endings(lc),
    ensures
        !spec_is_valid_cvc_chars(fc, vo, lc, true),
{
    let vt = vo_table();
    let lt = lc_table();
    reveal_strlit("ch");
    reveal_strlit("nh");
    assert("ch"@[1] == 'h');
    assert("nh"@[1] == 'h');
    assert forall|v: int, l: int| #[trigger] vo_ok(vo, lc, true, v) && #[trigger] lc_ok(lc, true, l) implies !vc_allowed(v, l) by {
        lemma_full_match_is_spelling(vt, v, vo);
        lemma_full_match_is_spelling(lt, l, lc);
        let k = choose|k: int| 0 <= k < vt.len() && #[trigger] vt[k] == (v, vo);
        let j = choose|j: int| 0 <= j < lt.len() && #[trigger] lt[j] == (l, lc);
        if k == 0 {
            assert(vt[0] == (0int, "ê"@));
            reveal_strlit("ê");
            assert("ê"@[0] == 'ê');
        } else if k == 1 {
            assert(vt[1] == (0int, "i"@));
            reveal_strlit("i");
            assert("i"@[0] == 'i');
        } else if k == 2 {
            assert(vt[2] == (0int, "ua"@));
            reveal_strlit("ua");
        } else if k == 3 {
            assert(vt[3] == (0int, "uê"@));
            reveal_strlit("uê");
        } else if k == 4 {
            assert(vt[4] == (0int, "uy"@));
            reveal_strlit("uy");
        } else if k == 5 {
            assert(vt[5] == (0int, "y"@));
            reveal_strlit("y");
            assert("y"@[0] == 'y');
        } else if k == 6 {
            assert(vt[6] == (1int, "a"@));
            reveal_strlit("a");
            assert("a"@[0] == 'a');
        } else if k == 7 {
            assert(vt[7] == (1int, "iê"@));
            reveal_strlit("iê");
        } else if k == 8 {
            assert(vt[8] == (1int, "oa"@));
            reveal_strlit("oa");
        } else if k == 9 {
            assert(vt[9] == (1int, "uyê"@));
            reveal_strlit("uyê");
        } else if k == 10 {
            assert(vt[10] == (1int, "yê"@));
            reveal_strlit("yê");
        } else if k == 11 {
            assert(vt[11] == (2int, "â"@));
        } else if k == 12 {
            assert(vt[12] == (2int, "ă"@));
        } else if k == 13 {
            assert(vt[13] == (2int, "e"@));
        } else if k == 14 {
            assert(vt[14] == (2int, "o"@));
        } else if k == 15 {
            assert(vt[15] == (2int, "oo"@));
        } else if k == 16 {
            assert(vt[16] == (2int, "ô"@));
        } else if k == 17 {
            assert(vt[17] == (2int, "ơ"@));
        } else if k == 18 {
            assert(vt[18] == (2int, "oe"@));
        } else if k == 19 {
            assert(vt[19] == (2int, "u"@));
        } else if k == 20 {
            assert(vt[20] == (2int, "ư"@));
        } else if k == 21 {
            assert(vt[21] == (2int, "uâ"@));
        } else if k == 22 {
            assert(vt[22] == (2int, "uô"@));
        } else if k == 23 {
            assert(vt[23] == (2int, "ươ"@));
        } else if k == 24 {
            assert(vt[24] == (3int, "oă"@));
            reveal_strlit("oă");
        } else if k == 25 {
            assert(vt[25] == (4int, "uơ"@));
            reveal_strlit("uơ");
        } else if k == 26 {
            assert(vt[26] == (5int, "ai"@));
            reveal_strlit("ai");
        } else if k == 27 {
            assert(vt[27] == (5int, "ao"@));
            reveal_strlit("ao");
        } else if k == 28 {
            assert(vt[28] == (5int, "au"@));
            reveal_strlit("au");
        } else if k == 29 {
            assert(vt[29] == (5int, "âu"@));
            reveal_strlit("âu");
        } else if k == 30 {
            assert(vt[30] == (5int, "ay"@));
            reveal_strlit("ay");
        } else if k == 31 {
            assert(vt[31] == (5int, "ây"@));
            reveal_strlit("ây");
        } else if k == 32 {
            assert(vt[32] == (5int, "eo"@));
            reveal_strlit("eo");
        } else if k == 33 {
            assert(vt[33] == (5int, "êu"@));
            reveal_strlit("êu");
        } else if k == 34 {
            assert(vt[34] == (5int, "ia"@));
            reveal_strlit("ia");
        } else if k == 35 {
            assert(vt[35] == (5int, "iêu"@));
            reveal_strlit("iêu");
        } else if k == 36 {
            assert(vt[36] == (5int, "iu"@));
            reveal_strlit("iu");
        } else if k == 37 {
            assert(vt[37] == (5int, "oai"@));
            reveal_strlit("oai");
        } else if k == 38 {
            assert(vt[38] == (5int, "oao"@));
            reveal_strlit("oao");
        } else if k == 39 {
            assert(vt[39] == (5int, "oay"@));
            reveal_strlit("oay");
        } else if k == 40 {
            assert(vt[40] == (5int, "oeo"@));
            reveal_strlit("oeo");
        } else if k == 41 {
            assert(vt[41] == (5int, "oi"@));
            reveal_strlit("oi");
        } else if k == 42 {
            assert(vt[42] == (5int, "ôi"@));
            reveal_strlit("ôi");
        } else if k == 43 {
            assert(vt[43] == (5int, "ơi"@));
            reveal_strlit("ơi");
        } else if k == 44 {
            assert(vt[44] == (5int, "ưa"@));
            reveal_strlit("ưa");
        } else if k == 45 {
            assert(vt[45] == (5int, "uây"@));
            reveal_strlit("uây");
        } else if k == 46 {
            assert(vt[46] == (5int, "ui"@));
            reveal_strlit("ui");
        } else if k == 47 {
            assert(vt[47] == (5int, "ưi"@));
            reveal_strlit("ưi");
        } else if k == 48 {
            assert(vt[48] == (5int, "uôi"@));
            reveal_strlit("uôi");
        } else if k == 49 {
            assert(vt[49] == (5int, "ươi"@));
            reveal_strlit("ươi");
        } else if k == 50 {
            assert(vt[50] == (5int, "ươu"@));
            reveal_strlit("ươu");
        } else if k == 51 {
            assert(vt[51] == (5int, "ưu"@));
            reveal_strlit("ưu");
        } else if k == 52 {
            assert(vt[52] == (5int, "uya"@));
            reveal_strlit("uya");
        } else if k == 53 {
            assert(vt[53] == (5int, "uyu"@));
            reveal_strlit("uyu");
        } else if k == 54 {
            assert(vt[54] == (5int, "yêu"@));
            reveal_strlit("yêu");
        } else if k == 55 {
            assert(vt[55] == (6int, "ă"@));
        } else if k == 56 {
            assert(vt[56] == (7int, "i"@));
            reveal_strlit("i");
            assert("i"@[0] == 'i');
        }
        if j == 0 {
            assert(lt[0] == (0int, "ch"@));
            reveal_strlit("ch");
            assert("ch"@[1] == 'h');
        } else if j == 1 {
            assert(lt[1] == (0int, "nh"@));
            reveal_strlit("nh");
            assert("nh"@[1] == 'h');
        } else if j == 2 {
            assert(lt[2] == (1int, "c"@));
            reveal_strlit("c");
        } else if j == 3 {
            assert(lt[3] == (1int, "ng"@));
            reveal_strlit("ng");
            assert("ng"@[1] == 'g');
        } else if j == 4 {
            assert(lt[4] == (2int, "m"@));
            reveal_strlit("m");
        } else if j == 5 {
            assert(lt[5] == (2int, "n"@));
            reveal_strlit("n");
        } else if j == 6 {
            assert(lt[6] == (2int, "p"@));
            reveal_strlit("p");
        } else if j == 7 {
            assert(lt[7] == (2int, "t"@));
            reveal_strlit("t");
        } else if j == 8 {
            assert(lt[8] == (3int, "k"@));
            reveal_strlit("k");
        } else if j == 9 {
            assert(lt[9] == (4int, "c"@));
            reveal_strlit("c");
        }
        assert(v == 2 || v == 6);
        assert(l == 0);
    }
}

/// A complete syllable whose vowel is ê or y cannot end in `c` or `ng`
/// (`êng` and `yc` are no words).
pub proof fn lemma_front_vowels_refuse_velar(fc: Seq<char>, vo: Seq<char>, lc: Seq<char>)
    requires
        vo.len() == 1,
        vo[0] == 'ê' || vo[0] == 'y',
        velar_endings(lc),
    ensures
        !spec_is_valid_cvc_chars(fc, vo, lc, true),
{
    let vt = vo_table();
    let lt = lc_table();
    reveal_strlit("c");
    reveal_strlit("ng");
    assert("c"@[0] == 'c');
    assert("ng"@[1] == 'g');
    assert forall|v: int, l: int| #[trigger] vo_ok(vo, lc, true, v) && #[trigger] lc_ok(lc, true, l) implies !vc_allowed(v, l) by {
        lemma_full_match_is_spelling(vt, v, vo);
        lemma_full_match_is_spelling(lt, l, lc);
        let k = choose|k: int| 0 <= k < vt.len() && #[trigger] vt[k] == (v, vo);
        let j = choose|j: int| 0 <= j < lt.len() && #[trigger] lt[j] == (l, lc);
        if k == 0 {
            assert(vt[0] == (0int, "ê"@));
        } else if k == 1 {
            assert(vt[1] == (0int, "i"@));
        } else if k == 2 {
            assert(vt[2] == (0int, "ua"@));
        } else if k == 3 {
            assert(vt[3] == (0int, "uê"@));
        } else if k == 4 {
            assert(vt[4] == (0int, "uy"@));
        } else if k == 5 {
            assert(vt[5] == (0int, "y"@));
        } else if k == 6 {
            assert(vt[6] == (1int, "a"@));
            reveal_strlit("a");
            assert("a"@[0] == 'a');
        } else if k == 7 {
            assert(vt[7] == (1int, "iê"@));
            reveal_strlit("iê");
        } else if k == 8 {
            assert(vt[8] == (1int, "oa"@));
            reveal_strlit("oa");
        } else if k == 9 {
            assert(vt[9] == (1int, "uyê"@));
            reveal_strlit("uyê");
        } else if k == 10 {
            assert(vt[10] == (1int, "yê"@));
            reveal_strlit("yê");
        } else if k == 11 {
            assert(vt[11] == (2int, "â"@));
            reveal_strlit("â");
            assert("â"@[0] == 'â');
        } else if k == 12 {
            assert(vt[12] == (2int, "ă"@));
            reveal_strlit("ă");
            assert("ă"@[0] == 'ă');
        } else if k == 13 {
            assert(vt[13] == (2int, "e"@));
            reveal_strlit("e");
            assert("e"@[0] == 'e');
        } else if k == 14 {
            assert(vt[14] == (2int, "o"@));
            reveal_strlit("o");
            assert("o"@[0] == 'o');
        } else if k == 15 {
            assert(vt[15] == (2int, "oo"@));
            reveal_strlit("oo");
        } else if k == 16 {
            assert(vt[16] == (2int, "ô"@));
            reveal_strlit("ô");
            assert("ô"@[0] == 'ô');
        } else if k == 17 {
            assert(vt[17] == (2int, "ơ"@));
            reveal_strlit("ơ");
            assert("ơ"@[0] == 'ơ');
        } else if k == 18 {
            assert(vt[18] == (2int, "oe"@));
            reveal_strlit("oe");
        } else if k == 19 {
            assert(vt[19] == (2int, "u"@));
            reveal_strlit("u");
            assert("u"@[0] == 'u');
        } else if k == 20 {
            assert(vt[20] == (2int, "ư"@));
            reveal_strlit("ư");
            assert("ư"@[0] == 'ư');
        } else if k == 21 {
            assert(vt[21] == (2int, "uâ"@));
            reveal_strlit("uâ");
        } else if k == 22 {
            assert(vt[22] == (2int, "uô"@));
            reveal_strlit("uô");
        } else if k == 23 {
            assert(vt[23] == (2int, "ươ"@));
            reveal_strlit("ươ");
        } else if k == 24 {
            assert(vt[24] == (3int, "oă"@));
            reveal_strlit("oă");
        } else if k == 25 {
            assert(vt[25] == (4int, "uơ"@));
            reveal_strlit("uơ");
        } else if k == 26 {
            assert(vt[26] == (5int, "ai"@));
            reveal_strlit("ai");
        } else if k == 27 {
            assert(vt[27] == (5int, "ao"@));
            reveal_strlit("ao");
        } else if k == 28 {
            assert(vt[28] == (5int, "au"@));
            reveal_strlit("au");
        } else if k == 29 {
            assert(vt[29] == (5int, "âu"@));
            reveal_strlit("âu");
        } else if k == 30 {
            assert(vt[30] == (5int, "ay"@));
            reveal_strlit("ay");
        } else if k == 31 {
            assert(vt[31] == (5int, "ây"@));
            reveal_strlit("ây");
        } else if k == 32 {
            assert(vt[32] == (5int, "eo"@));
            reveal_strlit("eo");
        } else if k == 33 {
            assert(vt[33] == (5int, "êu"@));
            reveal_strlit("êu");
        } else if k == 34 {
            assert(vt[34] == (5int, "ia"@));
            reveal_strlit("ia");
        } else if k == 35 {
            assert(vt[35] == (5int, "iêu"@));
            reveal_strlit("iêu");
        } else if k == 36 {
            assert(vt[36] == (5int, "iu"@));
            reveal_strlit("iu");
        } else if k == 37 {
            assert(vt[37] == (5int, "oai"@));
            reveal_strlit("oai");
        } else if k == 38 {
            assert(vt[38] == (5int, "oao"@));
            reveal_strlit("oao");
        } else if k == 39 {
            assert(vt[39] == (5int, "oay"@));
            reveal_strlit("oay");
        } else if k == 40 {
            assert(vt[40] == (5int, "oeo"@));
            reveal_strlit("oeo");
        } else if k == 41 {
            assert(vt[41] == (5int, "oi"@));
            reveal_strlit("oi");
        } else if k == 42 {
            assert(vt[42] == (5int, "ôi"@));
            reveal_strlit("ôi");
        } else if k == 43 {
            assert(vt[43] == (5int, "ơi"@));
            reveal_strlit("ơi");
        } else if k == 44 {
            assert(vt[44] == (5int, "ưa"@));
            reveal_strlit("ưa");
        } else if k == 45 {
            assert(vt[45] == (5int, "uây"@));
            reveal_strlit("uây");
        } else if k == 46 {
            assert(vt[46] == (5int, "ui"@));
            reveal_strlit("ui");
        } else if k == 47 {
            assert(vt[47] == (5int, "ưi"@));
            reveal_strlit("ưi");
        } else if k == 48 {
            assert(vt[48] == (5int, "uôi"@));
            reveal_strlit("uôi");
        } else if k == 49 {
            assert(vt[49] == (5int, "ươi"@));
            reveal_strlit("ươi");
        } else if k == 50 {
            assert(vt[50] == (5int, "ươu"@));
            reveal_strlit("ươu");
        } else if k == 51 {
            assert(vt[51] == (5int, "ưu"@));
            reveal_strlit("ưu");
        } else if k == 52 {
            assert(vt[52] == (5int, "uya"@));
            reveal_strlit("uya");
        } else if k == 53 {
            assert(vt[53] == (5int, "uyu"@));
            reveal_strlit("uyu");
        } else if k == 54 {
            assert(vt[54] == (5int, "yêu"@));
            reveal_strlit("yêu");
        } else if k == 55 {
            assert(vt[55] == (6int, "ă"@));
            reveal_strlit("ă");
            assert("ă"@[0] == 'ă');
        } else if k == 56 {
            assert(vt[56] == (7int, "i"@));
            reveal_strlit("i");
            assert("i"@[0] == 'i');
        }
        if j == 0 {
            assert(lt[0] == (0int, "ch"@));
            reveal_strlit("ch");
            assert("ch"@[1] == 'h');
        } else if j == 1 {
            assert(lt[1] == (0int, "nh"@));
            reveal_strlit("nh");
            assert("nh"@[1] == 'h');
        } else if j == 2 {
            assert(lt[2] == (1int, "c"@));
            reveal_strlit("c");
            assert("c"@[0] == 'c');
        } else if j == 3 {
            assert(lt[3] == (1int, "ng"@));
            reveal_strlit("ng");
            assert("ng"@[1] == 'g');
        } else if j == 4 {
            assert(lt[4] == (2int, "m"@));
            reveal_strlit("m");
            assert("m"@[0] == 'm');
        } else if j == 5 {
            assert(lt[5] == (2int, "n"@));
            reveal_strlit("n");
            assert("n"@[0] == 'n');
        } else if j == 6 {
            assert(lt[6] == (2int, "p"@));
            reveal_strlit("p");
            assert("p"@[0] == 'p');
        } else if j == 7 {
            assert(lt[7] == (2int, "t"@));
            reveal_strlit("t");
            assert("t"@[0] == 't');
        } else if j == 8 {
            assert(lt[8] == (3int, "k"@));
            reveal_strlit("k");
            assert("k"@[0] == 'k');
        } else if j == 9 {
            assert(lt[9] == (4int, "c"@));
            reveal_strlit("c");
            assert("c"@[0] == 'c');
        }
        assert(v == 0);
        assert(l == 1 || l == 4);
    }
}

/// Which vowel rows may follow which first-consonant rows: a first consonant
/// of rows 0 to 2 takes vowels of rows 0, 1, 2 and 5; of rows 1 and 2, row 3
/// too (`oă`); of row 1, row 4 too (`uơ`); of row 3 (đ, l) the `ă` of row 6;
/// of row 4 (h) the `i` of row 7. Such an open syllable is valid, whether it
/// is checked as complete or as being typed.
pub proof fn lemma_consonant_vowel_rows(fc: Seq<char>, vo: Seq<char>, full: bool, f: int, v: int)
    requires
        exists|k: int| 0 <= k < fc_table().len() && fc_table()[k] == (f, fc),
        exists|k: int| 0 <= k < vo_table().len() && vo_table()[k] == (v, vo),
        fc.len() > 0,
        vo.len() > 0,
        (f < 3 && (v <= 2 || v == 5)) || ((f == 1 || f == 2) && v == 3) || (f == 1 && v == 4) || (f == 3 && v == 6)
            || (f == 4 && v == 7),
    ensures
        spec_is_valid_cvc_chars(fc, vo, Seq::empty(), full),
{
    let ft = fc_table();
    let vt = vo_table();
    let i = choose|k: int| 0 <= k < ft.len() && ft[k] == (f, fc);
    let j = choose|k: int| 0 <= k < vt.len() && vt[k] == (v, vo);
    lemma_token_match_self(fc, true, true);
    lemma_token_match_self(vo, full, full);
    assert(ft[i].0 == f && ft[i].1 == fc);
    assert(vt[j].0 == v && vt[j].1 == vo);
    assert(0 <= f < 5) by {
        assert(forall|k: int| 0 <= k < ft.len() ==> 0 <= #[trigger] ft[k].0 < 5);
    }
    assert(0 <= v < 8) by {
        assert(forall|k: int| 0 <= k < vt.len() ==> 0 <= #[trigger] vt[k].0 < 8);
    }
    assert(fc_ok(fc, vo, full, f));
    assert(vo_ok(vo, Seq::empty(), full, v));
    assert(cv_allowed(f, v));
}

/// Which last-consonant rows may follow which vowel rows: vowels of row 0
/// take rows 0 (`ch`, `nh`) and 2 (`m`, `n`, `p`, `t`); of row 1, rows 0 to 2
/// (row 1 being `c`, `ng`); of rows 2 and 3, rows 1 and 2; the `ă` of row 6
/// takes the `k` of row 3 (`Đắk`), the `i` of row 7 the `c` of row 4. Such a
/// syllable with no first consonant is valid, whether it is checked as
/// complete or as being typed.
pub proof fn lemma_vowel_consonant_rows(vo: Seq<char>, lc: Seq<char>, full: bool, v: int, l: int)
    requires
        exists|k: int| 0 <= k < vo_table().len() && vo_table()[k] == (v, vo),
        exists|k: int| 0 <= k < lc_table().len() && lc_table()[k] == (l, lc),
        vo.len() > 0,
        lc.len() > 0,
        (v == 0 && (l == 0 || l == 2)) || (v == 1 && l <= 2) || ((v == 2 || v == 3) && (l == 1 || l == 2))
            || (v == 6 && l == 3) || (v == 7 && l == 4),
    ensures
        spec_is_valid_cvc_chars(Seq::empty(), vo, lc, full),
{
    let vt = vo_table();
    let lt = lc_table();
    let i = choose|k: int| 0 <= k < vt.len() && vt[k] == (v, vo);
    let j = choose|k: int| 0 <= k < lt.len() && lt[k] == (l, lc);
    lemma_token_match_self(vo, true, full);
    lemma_token_match_self(lc, full, true);
    assert(vt[i].0 == v && vt[i].1 == vo);
    assert(lt[j].0 == l && lt[j].1 == lc);
    assert(0 <= v < 8) by {
        assert(forall|k: int| 0 <= k < vt.len() ==> 0 <= #[trigger] vt[k].0 < 8);
    }
    assert(0 <= l < 5) by {
        assert(forall|k: int| 0 <= k < lt.len() ==> 0 <= #[trigger] lt[k].0 < 5);
    }
    assert(vo_ok(vo, lc, full, v));
    assert(lc_ok(lc, full, l));
    assert(vc_allowed(v, l));
}

/// The string and character variants of the check agree on parts of at
/// most eight characters.
pub proof fn lemma_cvc_variants_agree(fc: Seq<char>, vo: Seq<char>, lc: Seq<char>, full: bool)
    requires
        fc.len() <= 8,
        vo.len() <= 8,
        lc.len() <= 8,
    ensures
        spec_is_valid_cvc_chars(first8(fc), first8(vo), first8(lc), full) == spec_is_valid_cvc_chars(fc, vo, lc, full),
{
}

} // verus!
