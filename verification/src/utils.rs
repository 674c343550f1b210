//! Vietnamese letters: vowels with their tones, diacritic marks, and the
//! character classes that drive the engine.
use vstd::prelude::*;
use crate::text::{ascii_lower, ascii_upper, is_ascii, is_ascii_char, spec_ascii_lower, spec_ascii_upper, std_lower_first, std_upper_first, str_chars, unicode_lower_first, unicode_upper_first};

verus! {

/// Number of entries in the vowel table: 12 base vowels times 6 tones.
pub const VOWEL_COUNT: usize = 72;

/// The vowel table: entry `6 * b + t` is base vowel `b` carrying tone `t`
/// (0 none, 1 grave, 2 acute, 3 hook, 4 tilde, 5 dot).
pub open spec fn vowel_at(i: int) -> char {
    if i == 0 {
        'a'
    } else if i == 1 {
        'à'
    } else if i == 2 {
        'á'
    } else if i == 3 {
        'ả'
    } else if i == 4 {
        'ã'
    } else if i == 5 {
        'ạ'
    } else if i == 6 {
        'ă'
    } else if i == 7 {
        'ằ'
    } else if i == 8 {
        'ắ'
    } else if i == 9 {
        'ẳ'
    } else if i == 10 {
        'ẵ'
    } else if i == 11 {
        'ặ'
    } else if i == 12 {
        'â'
    } else if i == 13 {
        'ầ'
    } else if i == 14 {
        'ấ'
    } else if i == 15 {
        'ẩ'
    } else if i == 16 {
        'ẫ'
    } else if i == 17 {
        'ậ'
    } else if i == 18 {
        'e'
    } else if i == 19 {
        'è'
    } else if i == 20 {
        'é'
    } else if i == 21 {
        'ẻ'
    } else if i == 22 {
        'ẽ'
    } else if i == 23 {
        'ẹ'
    } else if i == 24 {
        'ê'
    } else if i == 25 {
        'ề'
    } else if i == 26 {
        'ế'
    } else if i == 27 {
        'ể'
    } else if i == 28 {
        'ễ'
    } else if i == 29 {
        'ệ'
    } else if i == 30 {
        'i'
    } else if i == 31 {
        'ì'
    } else if i == 32 {
        'í'
    } else if i == 33 {
        'ỉ'
    } else if i == 34 {
        'ĩ'
    } else if i == 35 {
        'ị'
    } else if i == 36 {
        'o'
    } else if i == 37 {
        'ò'
    } else if i == 38 {
        'ó'
    } else if i == 39 {
        'ỏ'
    } else if i == 40 {
        'õ'
    } else if i == 41 {
        'ọ'
    } else if i == 42 {
        'ô'
    } else if i == 43 {
        'ồ'
    } else if i == 44 {
        'ố'
    } else if i == 45 {
        'ổ'
    } else if i == 46 {
        'ỗ'
    } else if i == 47 {
        'ộ'
    } else if i == 48 {
        'ơ'
    } else if i == 49 {
        'ờ'
    } else if i == 50 {
        'ớ'
    } else if i == 51 {
        'ở'
    } else if i == 52 {
        'ỡ'
    } else if i == 53 {
        'ợ'
    } else if i == 54 {
        'u'
    } else if i == 55 {
        'ù'
    } else if i == 56 {
        'ú'
    } else if i == 57 {
        'ủ'
    } else if i == 58 {
        'ũ'
    } else if i == 59 {
        'ụ'
    } else if i == 60 {
        'ư'
    } else if i == 61 {
        'ừ'
    } else if i == 62 {
        'ứ'
    } else if i == 63 {
        'ử'
    } else if i == 64 {
        'ữ'
    } else if i == 65 {
        'ự'
    } else if i == 66 {
        'y'
    } else if i == 67 {
        'ỳ'
    } else if i == 68 {
        'ý'
    } else if i == 69 {
        'ỷ'
    } else if i == 70 {
        'ỹ'
    } else if i == 71 {
        'ỵ'
    } else {
        '\0'
    }
}

/// Position of `c` in the vowel table, if it is a (lowercase) Vietnamese vowel.
pub open spec fn vowel_pos(c: char) -> Option<nat> {
    match c {
        'a' => Some(0nat),
        'à' => Some(1nat),
        'á' => Some(2nat),
        'ả' => Some(3nat),
        'ã' => Some(4nat),
        'ạ' => Some(5nat),
        'ă' => Some(6nat),
        'ằ' => Some(7nat),
        'ắ' => Some(8nat),
        'ẳ' => Some(9nat),
        'ẵ' => Some(10nat),
        'ặ' => Some(11nat),
        'â' => Some(12nat),
        'ầ' => Some(13nat),
        'ấ' => Some(14nat),
        'ẩ' => Some(15nat),
        'ẫ' => Some(16nat),
        'ậ' => Some(17nat),
        'e' => Some(18nat),
        'è' => Some(19nat),
        'é' => Some(20nat),
        'ẻ' => Some(21nat),
        'ẽ' => Some(22nat),
        'ẹ' => Some(23nat),
        'ê' => Some(24nat),
        'ề' => Some(25nat),
        'ế' => Some(26nat),
        'ể' => Some(27nat),
        'ễ' => Some(28nat),
        'ệ' => Some(29nat),
        'i' => Some(30nat),
        'ì' => Some(31nat),
        'í' => Some(32nat),
        'ỉ' => Some(33nat),
        'ĩ' => Some(34nat),
        'ị' => Some(35nat),
        'o' => Some(36nat),
        'ò' => Some(37nat),
        'ó' => Some(38nat),
        'ỏ' => Some(39nat),
        'õ' => Some(40nat),
        'ọ' => Some(41nat),
        'ô' => Some(42nat),
        'ồ' => Some(43nat),
        'ố' => Some(44nat),
        'ổ' => Some(45nat),
        'ỗ' => Some(46nat),
        'ộ' => Some(47nat),
        'ơ' => Some(48nat),
        'ờ' => Some(49nat),
        'ớ' => Some(50nat),
        'ở' => Some(51nat),
        'ỡ' => Some(52nat),
        'ợ' => Some(53nat),
        'u' => Some(54nat),
        'ù' => Some(55nat),
        'ú' => Some(56nat),
        'ủ' => Some(57nat),
        'ũ' => Some(58nat),
        'ụ' => Some(59nat),
        'ư' => Some(60nat),
        'ừ' => Some(61nat),
        'ứ' => Some(62nat),
        'ử' => Some(63nat),
        'ữ' => Some(64nat),
        'ự' => Some(65nat),
        'y' => Some(66nat),
        'ỳ' => Some(67nat),
        'ý' => Some(68nat),
        'ỷ' => Some(69nat),
        'ỹ' => Some(70nat),
        'ỵ' => Some(71nat),
        _ => None,
    }
}

/// The row of the diacritic table for `c`: the forms of its base letter
/// under mark 0 (none), 1 (hat), 2 (breve), 3 (horn), 4 (dash); `'_'` where
/// the mark does not apply.
pub open spec fn mark_row(c: char) -> Option<(char, char, char, char, char)> {
    match c {
        'a' => Some(('a','â','ă','_','_')),
        'â' => Some(('a','â','ă','_','_')),
        'ă' => Some(('a','â','ă','_','_')),
        'e' => Some(('e','ê','_','_','_')),
        'ê' => Some(('e','ê','_','_','_')),
        'o' => Some(('o','ô','_','ơ','_')),
        'ô' => Some(('o','ô','_','ơ','_')),
        'ơ' => Some(('o','ô','_','ơ','_')),
        'u' => Some(('u','_','_','ư','_')),
        'ư' => Some(('u','_','_','ư','_')),
        'd' => Some(('d','_','_','_','đ')),
        'đ' => Some(('d','_','_','_','đ')),
        _ => None,
    }
}

pub open spec fn row_get(row: (char, char, char, char, char), m: int) -> char {
    if m == 0 {
        row.0
    } else if m == 1 {
        row.1
    } else if m == 2 {
        row.2
    } else if m == 3 {
        row.3
    } else {
        row.4
    }
}

/// The tone index (0..=5) carried by `c`, 0 when `c` is not a vowel.
pub open spec fn tone_of(c: char) -> u8 {
    match vowel_pos(c) {
        Some(p) => (p % 6) as u8,
        None => 0,
    }
}

/// `c` with its tone replaced by `tone`: the table entry at
/// `p - p % 6 + tone`, or `c` unchanged when `c` is not a vowel or that
/// entry is past the end of the table.
pub open spec fn spec_add_tone(c: char, tone: u8) -> char {
    match vowel_pos(c) {
        Some(p) => {
            let np = p - p % 6 + tone;
            if np < 72 {
                vowel_at(np)
            } else {
                c
            }
        },
        None => c,
    }
}

/// `c` (taken as toneless) with diacritic `mark` applied, or `c` unchanged
/// when the table has no such form.
pub open spec fn spec_add_mark_toneless(c: char, mark: u8) -> char {
    match mark_row(c) {
        Some(row) => {
            if mark < 5 && row_get(row, mark as int) != '_' {
                row_get(row, mark as int)
            } else {
                c
            }
        },
        None => c,
    }
}

/// `c` with diacritic `mark`, keeping the tone it carried.
pub open spec fn spec_add_mark(c: char, mark: u8) -> char {
    spec_add_tone(spec_add_mark_toneless(spec_add_tone(c, 0), mark), tone_of(c))
}

pub open spec fn spec_lower(c: char) -> char {
    if is_ascii_char(c) {
        spec_ascii_lower(c)
    } else {
        unicode_lower_first(c)
    }
}

pub open spec fn spec_upper(c: char) -> char {
    if is_ascii_char(c) {
        spec_ascii_upper(c)
    } else {
        unicode_upper_first(c)
    }
}

pub open spec fn spec_is_upper(c: char) -> bool {
    if is_ascii_char(c) {
        'A' <= c && c <= 'Z'
    } else {
        spec_lower(c) != c
    }
}

pub open spec fn spec_is_ascii_alpha(c: char) -> bool {
    ('a' <= c && c <= 'z') || ('A' <= c && c <= 'Z')
}

/// ASCII punctuation as the engine counts it: the four ASCII punctuation
/// ranges plus the space.
pub open spec fn spec_is_punctuation(c: char) -> bool {
    ('!' <= c && c <= '/') || (':' <= c && c <= '@') || ('[' <= c && c <= '`')
        || ('{' <= c && c <= '~') || c == ' '
}

pub open spec fn spec_is_digit(c: char) -> bool {
    '0' <= c && c <= '9'
}

pub open spec fn spec_is_word_break(c: char) -> bool {
    spec_is_punctuation(c) || spec_is_digit(c)
}

/// The twelve ASCII vowel letters `aeiouy` in either case, or any entry of
/// the (lowercase) vowel table: the vowels the tone and mark tables work on.
pub open spec fn spec_in_vowel_table(c: char) -> bool {
    if is_ascii_char(c) {
        c == 'a' || c == 'e' || c == 'i' || c == 'o' || c == 'u' || c == 'y' || c == 'A' || c
            == 'E' || c == 'I' || c == 'O' || c == 'U' || c == 'Y'
    } else {
        vowel_pos(c) is Some
    }
}

/// Position of `c` among the uppercase forms of the vowel table (same order).
pub open spec fn upper_vowel_pos(c: char) -> Option<nat> {
    match c {
        'A' => Some(0nat),
        'À' => Some(1nat),
        'Á' => Some(2nat),
        'Ả' => Some(3nat),
        'Ã' => Some(4nat),
        'Ạ' => Some(5nat),
        'Ă' => Some(6nat),
        'Ằ' => Some(7nat),
        'Ắ' => Some(8nat),
        'Ẳ' => Some(9nat),
        'Ẵ' => Some(10nat),
        'Ặ' => Some(11nat),
        'Â' => Some(12nat),
        'Ầ' => Some(13nat),
        'Ấ' => Some(14nat),
        'Ẩ' => Some(15nat),
        'Ẫ' => Some(16nat),
        'Ậ' => Some(17nat),
        'E' => Some(18nat),
        'È' => Some(19nat),
        'É' => Some(20nat),
        'Ẻ' => Some(21nat),
        'Ẽ' => Some(22nat),
        'Ẹ' => Some(23nat),
        'Ê' => Some(24nat),
        'Ề' => Some(25nat),
        'Ế' => Some(26nat),
        'Ể' => Some(27nat),
        'Ễ' => Some(28nat),
        'Ệ' => Some(29nat),
        'I' => Some(30nat),
        'Ì' => Some(31nat),
        'Í' => Some(32nat),
        'Ỉ' => Some(33nat),
        'Ĩ' => Some(34nat),
        'Ị' => Some(35nat),
        'O' => Some(36nat),
        'Ò' => Some(37nat),
        'Ó' => Some(38nat),
        'Ỏ' => Some(39nat),
        'Õ' => Some(40nat),
        'Ọ' => Some(41nat),
        'Ô' => Some(42nat),
        'Ồ' => Some(43nat),
        'Ố' => Some(44nat),
        'Ổ' => Some(45nat),
        'Ỗ' => Some(46nat),
        'Ộ' => Some(47nat),
        'Ơ' => Some(48nat),
        'Ờ' => Some(49nat),
        'Ớ' => Some(50nat),
        'Ở' => Some(51nat),
        'Ỡ' => Some(52nat),
        'Ợ' => Some(53nat),
        'U' => Some(54nat),
        'Ù' => Some(55nat),
        'Ú' => Some(56nat),
        'Ủ' => Some(57nat),
        'Ũ' => Some(58nat),
        'Ụ' => Some(59nat),
        'Ư' => Some(60nat),
        'Ừ' => Some(61nat),
        'Ứ' => Some(62nat),
        'Ử' => Some(63nat),
        'Ữ' => Some(64nat),
        'Ự' => Some(65nat),
        'Y' => Some(66nat),
        'Ỳ' => Some(67nat),
        'Ý' => Some(68nat),
        'Ỷ' => Some(69nat),
        'Ỹ' => Some(70nat),
        'Ỵ' => Some(71nat),
        _ => None,
    }
}

/// Whether `c` is a Vietnamese vowel, with or without tone or diacritic, in
/// either case.
pub open spec fn spec_is_vowel(c: char) -> bool {
    spec_in_vowel_table(c) || upper_vowel_pos(c) is Some
}

/// Whether `c` is a (lowercase) Vietnamese letter that carries a tone or a
/// diacritic mark.
pub open spec fn spec_is_vietnamese_rune(c: char) -> bool {
    tone_of(c) != 0 || c != spec_add_mark_toneless(c, 0)
}

/// Lowercase: ASCII letters directly, other characters by their Unicode mapping.
pub fn lower(c: char) -> (r: char)
    ensures
        r == spec_lower(c),
{
    if is_ascii(c) {
        ascii_lower(c)
    } else {
        std_lower_first(c)
    }
}

/// Uppercase: ASCII letters directly, other characters by their Unicode mapping.
pub fn upper(c: char) -> (r: char)
    ensures
        r == spec_upper(c),
{
    if is_ascii(c) {
        ascii_upper(c)
    } else {
        std_upper_first(c)
    }
}

/// Whether `c` is uppercase: `A..=Z` for ASCII, otherwise whether lowering changes it.
pub fn is_upper(c: char) -> (r: bool)
    ensures
        r == spec_is_upper(c),
{
    if is_ascii(c) {
        'A' <= c && c <= 'Z'
    } else {
        lower(c) != c
    }
}

/// Whether `c` is the space character.
pub fn is_space(c: char) -> (r: bool)
    ensures
        r == (c == ' '),
{
    c == ' '
}

/// Whether `c` is ASCII punctuation or the space; no non-ASCII character is.
pub fn is_punctuation(c: char) -> (r: bool)
    ensures
        r == spec_is_punctuation(c),
{
    ('!' <= c && c <= '/') || (':' <= c && c <= '@') || ('[' <= c && c <= '`') || ('{' <= c
        && c <= '~') || c == ' '
}

/// Whether `c` ends a word: punctuation, the space, or an ASCII digit.
pub fn is_word_break_symbol(c: char) -> (r: bool)
    ensures
        r == spec_is_word_break(c),
{
    is_punctuation(c) || ('0' <= c && c <= '9')
}

/// Whether `c` is an ASCII vowel letter of either case or a lowercase
/// vowel of the table.
pub fn in_vowel_table(c: char) -> (r: bool)
    ensures
        r == spec_in_vowel_table(c),
{
    if is_ascii(c) {
        c == 'a' || c == 'e' || c == 'i' || c == 'o' || c == 'u' || c == 'y' || c == 'A' || c
            == 'E' || c == 'I' || c == 'O' || c == 'U' || c == 'Y'
    } else {
        find_vowel_position(c).is_some()
    }
}

/// Position of `c` among the uppercase forms of the vowel table.
pub fn find_upper_vowel_position(c: char) -> (r: Option<usize>)
    ensures
        match r {
            Some(p) => upper_vowel_pos(c) == Some(p as nat),
            None => upper_vowel_pos(c) is None,
        },
{
    match c {
        'A' => Some(0),
        'À' => Some(1),
        'Á' => Some(2),
        'Ả' => Some(3),
        'Ã' => Some(4),
        'Ạ' => Some(5),
        'Ă' => Some(6),
        'Ằ' => Some(7),
        'Ắ' => Some(8),
        'Ẳ' => Some(9),
        'Ẵ' => Some(10),
        'Ặ' => Some(11),
        'Â' => Some(12),
        'Ầ' => Some(13),
        'Ấ' => Some(14),
        'Ẩ' => Some(15),
        'Ẫ' => Some(16),
        'Ậ' => Some(17),
        'E' => Some(18),
        'È' => Some(19),
        'É' => Some(20),
        'Ẻ' => Some(21),
        'Ẽ' => Some(22),
        'Ẹ' => Some(23),
        'Ê' => Some(24),
        'Ề' => Some(25),
        'Ế' => Some(26),
        'Ể' => Some(27),
        'Ễ' => Some(28),
        'Ệ' => Some(29),
        'I' => Some(30),
        'Ì' => Some(31),
        'Í' => Some(32),
        'Ỉ' => Some(33),
        'Ĩ' => Some(34),
        'Ị' => Some(35),
        'O' => Some(36),
        'Ò' => Some(37),
        'Ó' => Some(38),
        'Ỏ' => Some(39),
        'Õ' => Some(40),
        'Ọ' => Some(41),
        'Ô' => Some(42),
        'Ồ' => Some(43),
        'Ố' => Some(44),
        'Ổ' => Some(45),
        'Ỗ' => Some(46),
        'Ộ' => Some(47),
        'Ơ' => Some(48),
        'Ờ' => Some(49),
        'Ớ' => Some(50),
        'Ở' => Some(51),
        'Ỡ' => Some(52),
        'Ợ' => Some(53),
        'U' => Some(54),
        'Ù' => Some(55),
        'Ú' => Some(56),
        'Ủ' => Some(57),
        'Ũ' => Some(58),
        'Ụ' => Some(59),
        'Ư' => Some(60),
        'Ừ' => Some(61),
        'Ứ' => Some(62),
        'Ử' => Some(63),
        'Ữ' => Some(64),
        'Ự' => Some(65),
        'Y' => Some(66),
        'Ỳ' => Some(67),
        'Ý' => Some(68),
        'Ỷ' => Some(69),
        'Ỹ' => Some(70),
        'Ỵ' => Some(71),
        _ => None,
    }
}

/// Whether `c` is a Vietnamese vowel (with or without tone or diacritic, in
/// either case).
pub fn is_vowel(c: char) -> (r: bool)
    ensures
        r == spec_is_vowel(c),
{
    in_vowel_table(c) || find_upper_vowel_position(c).is_some()
}

/// Whether `c` is an ASCII letter.
pub fn is_alpha(c: char) -> (r: bool)
    ensures
        r == spec_is_ascii_alpha(c),
{
    ('a' <= c && c <= 'z') || ('A' <= c && c <= 'Z')
}

/// Position of `c` in the vowel table.
pub fn find_vowel_position(c: char) -> (r: Option<usize>)
    ensures
        match r {
            Some(p) => vowel_pos(c) == Some(p as nat),
            None => vowel_pos(c) is None,
        },
{
    match c {
        'a' => Some(0),
        'à' => Some(1),
        'á' => Some(2),
        'ả' => Some(3),
        'ã' => Some(4),
        'ạ' => Some(5),
        'ă' => Some(6),
        'ằ' => Some(7),
        'ắ' => Some(8),
        'ẳ' => Some(9),
        'ẵ' => Some(10),
        'ặ' => Some(11),
        'â' => Some(12),
        'ầ' => Some(13),
        'ấ' => Some(14),
        'ẩ' => Some(15),
        'ẫ' => Some(16),
        'ậ' => Some(17),
        'e' => Some(18),
        'è' => Some(19),
        'é' => Some(20),
        'ẻ' => Some(21),
        'ẽ' => Some(22),
        'ẹ' => Some(23),
        'ê' => Some(24),
        'ề' => Some(25),
        'ế' => Some(26),
        'ể' => Some(27),
        'ễ' => Some(28),
        'ệ' => Some(29),
        'i' => Some(30),
        'ì' => Some(31),
        'í' => Some(32),
        'ỉ' => Some(33),
        'ĩ' => Some(34),
        'ị' => Some(35),
        'o' => Some(36),
        'ò' => Some(37),
        'ó' => Some(38),
        'ỏ' => Some(39),
        'õ' => Some(40),
        'ọ' => Some(41),
        'ô' => Some(42),
        'ồ' => Some(43),
        'ố' => Some(44),
        'ổ' => Some(45),
        'ỗ' => Some(46),
        'ộ' => Some(47),
        'ơ' => Some(48),
        'ờ' => Some(49),
        'ớ' => Some(50),
        'ở' => Some(51),
        'ỡ' => Some(52),
        'ợ' => Some(53),
        'u' => Some(54),
        'ù' => Some(55),
        'ú' => Some(56),
        'ủ' => Some(57),
        'ũ' => Some(58),
        'ụ' => Some(59),
        'ư' => Some(60),
        'ừ' => Some(61),
        'ứ' => Some(62),
        'ử' => Some(63),
        'ữ' => Some(64),
        'ự' => Some(65),
        'y' => Some(66),
        'ỳ' => Some(67),
        'ý' => Some(68),
        'ỷ' => Some(69),
        'ỹ' => Some(70),
        'ỵ' => Some(71),
        _ => None,
    }
}

/// The entry of the vowel table at `i`, if `i` is in range.
pub fn vowel_entry(i: usize) -> (r: Option<char>)
    ensures
        i < 72 ==> r == Some(vowel_at(i as int)),
        i >= 72 ==> r is None,
{
    match i {
        0 => Some('a'),
        1 => Some('à'),
        2 => Some('á'),
        3 => Some('ả'),
        4 => Some('ã'),
        5 => Some('ạ'),
        6 => Some('ă'),
        7 => Some('ằ'),
        8 => Some('ắ'),
        9 => Some('ẳ'),
        10 => Some('ẵ'),
        11 => Some('ặ'),
        12 => Some('â'),
        13 => Some('ầ'),
        14 => Some('ấ'),
        15 => Some('ẩ'),
        16 => Some('ẫ'),
        17 => Some('ậ'),
        18 => Some('e'),
        19 => Some('è'),
        20 => Some('é'),
        21 => Some('ẻ'),
        22 => Some('ẽ'),
        23 => Some('ẹ'),
        24 => Some('ê'),
        25 => Some('ề'),
        26 => Some('ế'),
        27 => Some('ể'),
        28 => Some('ễ'),
        29 => Some('ệ'),
        30 => Some('i'),
        31 => Some('ì'),
        32 => Some('í'),
        33 => Some('ỉ'),
        34 => Some('ĩ'),
        35 => Some('ị'),
        36 => Some('o'),
        37 => Some('ò'),
        38 => Some('ó'),
        39 => Some('ỏ'),
        40 => Some('õ'),
        41 => Some('ọ'),
        42 => Some('ô'),
        43 => Some('ồ'),
        44 => Some('ố'),
        45 => Some('ổ'),
        46 => Some('ỗ'),
        47 => Some('ộ'),
        48 => Some('ơ'),
        49 => Some('ờ'),
        50 => Some('ớ'),
        51 => Some('ở'),
        52 => Some('ỡ'),
        53 => Some('ợ'),
        54 => Some('u'),
        55 => Some('ù'),
        56 => Some('ú'),
        57 => Some('ủ'),
        58 => Some('ũ'),
        59 => Some('ụ'),
        60 => Some('ư'),
        61 => Some('ừ'),
        62 => Some('ứ'),
        63 => Some('ử'),
        64 => Some('ữ'),
        65 => Some('ự'),
        66 => Some('y'),
        67 => Some('ỳ'),
        68 => Some('ý'),
        69 => Some('ỷ'),
        70 => Some('ỹ'),
        71 => Some('ỵ'),
        _ => None,
    }
}

/// The tone index carried by `c` (0 when it is not a vowel).
pub fn find_tone_from_char(c: char) -> (r: u8)
    ensures
        r == tone_of(c),
{
    match find_vowel_position(c) {
        Some(pos) => (pos % 6) as u8,
        None => 0,
    }
}

/// Adds or changes the tone of a Vietnamese vowel (`tone` 0..=5 for the six tones).
pub fn add_tone_to_char(c: char, tone: u8) -> (r: char)
    ensures
        r == spec_add_tone(c, tone),
{
    match find_vowel_position(c) {
        Some(pos) => {
            let np: usize = pos - pos % 6 + tone as usize;
            match vowel_entry(np) {
                Some(v) => v,
                None => c,
            }
        },
        None => c,
    }
}

fn mark_row_exec(c: char) -> (r: Option<(char, char, char, char, char)>)
    ensures
        r == mark_row(c),
{
    match c {
        'a' => Some(('a','â','ă','_','_')),
        'â' => Some(('a','â','ă','_','_')),
        'ă' => Some(('a','â','ă','_','_')),
        'e' => Some(('e','ê','_','_','_')),
        'ê' => Some(('e','ê','_','_','_')),
        'o' => Some(('o','ô','_','ơ','_')),
        'ô' => Some(('o','ô','_','ơ','_')),
        'ơ' => Some(('o','ô','_','ơ','_')),
        'u' => Some(('u','_','_','ư','_')),
        'ư' => Some(('u','_','_','ư','_')),
        'd' => Some(('d','_','_','_','đ')),
        'đ' => Some(('d','_','_','_','đ')),
        _ => None,
    }
}

/// Adds a diacritic mark (0 none, 1 hat, 2 breve, 3 horn, 4 dash) to a toneless character.
pub fn add_mark_to_toneless_char(c: char, mark: u8) -> (r: char)
    ensures
        r == spec_add_mark_toneless(c, mark),
{
    match mark_row_exec(c) {
        Some(row) => {
            if mark < 5 {
                let ch = if mark == 0 {
                    row.0
                } else if mark == 1 {
                    row.1
                } else if mark == 2 {
                    row.2
                } else if mark == 3 {
                    row.3
                } else {
                    row.4
                };
                if ch != '_' {
                    ch
                } else {
                    c
                }
            } else {
                c
            }
        },
        None => c,
    }
}

/// Adds a diacritic mark to a character while keeping its tone.
pub fn add_mark_to_char(c: char, mark: u8) -> (r: char)
    ensures
        r == spec_add_mark(c, mark),
{
    let tone = find_tone_from_char(c);
    let base = add_tone_to_char(c, 0);
    let marked = add_mark_to_toneless_char(base, mark);
    add_tone_to_char(marked, tone)
}

/// Whether `c` is a (lowercase) Vietnamese letter that carries a tone or a
/// diacritic mark; callers lowercase first.
pub fn is_vietnamese_rune(c: char) -> (r: bool)
    ensures
        r == spec_is_vietnamese_rune(c),
{
    find_tone_from_char(c) != 0 || c != add_mark_to_toneless_char(c, 0)
}

/// Whether some character of `word`, lowercased, carries a tone or a diacritic mark.
pub fn has_any_vietnamese_rune(word: &str) -> (r: bool)
    ensures
        r == exists|i: int| 0 <= i < word@.len() && spec_is_vietnamese_rune(#[trigger] spec_lower(word@[i])),
{
    let cs = str_chars(word);
    let mut i: usize = 0;
    while i < cs.len()
        invariant
            cs@ == word@,
            i <= cs@.len(),
            forall|j: int| 0 <= j < i ==> !spec_is_vietnamese_rune(#[trigger] spec_lower(cs@[j])),
        decreases cs@.len() - i,
    {
        if is_vietnamese_rune(lower(cs[i])) {
            return true;
        }
        i = i + 1;
    }
    false
}

/// Whether some character of `word`, lowercased, is a Vietnamese vowel.
pub fn has_any_vietnamese_vowel(word: &str) -> (r: bool)
    ensures
        r == exists|i: int| 0 <= i < word@.len() && spec_is_vowel(#[trigger] spec_lower(word@[i])),
{
    let cs = str_chars(word);
    let mut i: usize = 0;
    while i < cs.len()
        invariant
            cs@ == word@,
            i <= cs@.len(),
            forall|j: int| 0 <= j < i ==> !spec_is_vowel(#[trigger] spec_lower(cs@[j])),
        decreases cs@.len() - i,
    {
        if is_vowel(lower(cs[i])) {
            return true;
        }
        i = i + 1;
    }
    false
}

proof fn lemma_vowel_table(i: int)
    requires
        0 <= i < VOWEL_COUNT,
    ensures
        vowel_pos(vowel_at(i)) == Some(i as nat),
{
    if i == 0 {
        assert(vowel_pos(vowel_at(0)) == Some(0nat));
    } else if i == 1 {
        assert(vowel_pos(vowel_at(1)) == Some(1nat));
    } else if i == 2 {
        assert(vowel_pos(vowel_at(2)) == Some(2nat));
    } else if i == 3 {
        assert(vowel_pos(vowel_at(3)) == Some(3nat));
    } else if i == 4 {
        assert(vowel_pos(vowel_at(4)) == Some(4nat));
    } else if i == 5 {
        assert(vowel_pos(vowel_at(5)) == Some(5nat));
    } else if i == 6 {
        assert(vowel_pos(vowel_at(6)) == Some(6nat));
    } else if i == 7 {
        assert(vowel_pos(vowel_at(7)) == Some(7nat));
    } else if i == 8 {
        assert(vowel_pos(vowel_at(8)) == Some(8nat));
    } else if i == 9 {
        assert(vowel_pos(vowel_at(9)) == Some(9nat));
    } else if i == 10 {
        assert(vowel_pos(vowel_at(10)) == Some(10nat));
    } else if i == 11 {
        assert(vowel_pos(vowel_at(11)) == Some(11nat));
    } else if i == 12 {
        assert(vowel_pos(vowel_at(12)) == Some(12nat));
    } else if i == 13 {
        assert(vowel_pos(vowel_at(13)) == Some(13nat));
    } else if i == 14 {
        assert(vowel_pos(vowel_at(14)) == Some(14nat));
    } else if i == 15 {
        assert(vowel_pos(vowel_at(15)) == Some(15nat));
    } else if i == 16 {
        assert(vowel_pos(vowel_at(16)) == Some(16nat));
    } else if i == 17 {
        assert(vowel_pos(vowel_at(17)) == Some(17nat));
    } else if i == 18 {
        assert(vowel_pos(vowel_at(18)) == Some(18nat));
    } else if i == 19 {
        assert(vowel_pos(vowel_at(19)) == Some(19nat));
    } else if i == 20 {
        assert(vowel_pos(vowel_at(20)) == Some(20nat));
    } else if i == 21 {
        assert(vowel_pos(vowel_at(21)) == Some(21nat));
    } else if i == 22 {
        assert(vowel_pos(vowel_at(22)) == Some(22nat));
    } else if i == 23 {
        assert(vowel_pos(vowel_at(23)) == Some(23nat));
    } else if i == 24 {
        assert(vowel_pos(vowel_at(24)) == Some(24nat));
    } else if i == 25 {
        assert(vowel_pos(vowel_at(25)) == Some(25nat));
    } else if i == 26 {
        assert(vowel_pos(vowel_at(26)) == Some(26nat));
    } else if i == 27 {
        assert(vowel_pos(vowel_at(27)) == Some(27nat));
    } else if i == 28 {
        assert(vowel_pos(vowel_at(28)) == Some(28nat));
    } else if i == 29 {
        assert(vowel_pos(vowel_at(29)) == Some(29nat));
    } else if i == 30 {
        assert(vowel_pos(vowel_at(30)) == Some(30nat));
    } else if i == 31 {
        assert(vowel_pos(vowel_at(31)) == Some(31nat));
    } else if i == 32 {
        assert(vowel_pos(vowel_at(32)) == Some(32nat));
    } else if i == 33 {
        assert(vowel_pos(vowel_at(33)) == Some(33nat));
    } else if i == 34 {
        assert(vowel_pos(vowel_at(34)) == Some(34nat));
    } else if i == 35 {
        assert(vowel_pos(vowel_at(35)) == Some(35nat));
    } else if i == 36 {
        assert(vowel_pos(vowel_at(36)) == Some(36nat));
    } else if i == 37 {
        assert(vowel_pos(vowel_at(37)) == Some(37nat));
    } else if i == 38 {
        assert(vowel_pos(vowel_at(38)) == Some(38nat));
    } else if i == 39 {
        assert(vowel_pos(vowel_at(39)) == Some(39nat));
    } else if i == 40 {
        assert(vowel_pos(vowel_at(40)) == Some(40nat));
    } else if i == 41 {
        assert(vowel_pos(vowel_at(41)) == Some(41nat));
    } else if i == 42 {
        assert(vowel_pos(vowel_at(42)) == Some(42nat));
    } else if i == 43 {
        assert(vowel_pos(vowel_at(43)) == Some(43nat));
    } else if i == 44 {
        assert(vowel_pos(vowel_at(44)) == Some(44nat));
    } else if i == 45 {
        assert(vowel_pos(vowel_at(45)) == Some(45nat));
    } else if i == 46 {
        assert(vowel_pos(vowel_at(46)) == Some(46nat));
    } else if i == 47 {
        assert(vowel_pos(vowel_at(47)) == Some(47nat));
    } else if i == 48 {
        assert(vowel_pos(vowel_at(48)) == Some(48nat));
    } else if i == 49 {
        assert(vowel_pos(vowel_at(49)) == Some(49nat));
    } else if i == 50 {
        assert(vowel_pos(vowel_at(50)) == Some(50nat));
    } else if i == 51 {
        assert(vowel_pos(vowel_at(51)) == Some(51nat));
    } else if i == 52 {
        assert(vowel_pos(vowel_at(52)) == Some(52nat));
    } else if i == 53 {
        assert(vowel_pos(vowel_at(53)) == Some(53nat));
    } else if i == 54 {
        assert(vowel_pos(vowel_at(54)) == Some(54nat));
    } else if i == 55 {
        assert(vowel_pos(vowel_at(55)) == Some(55nat));
    } else if i == 56 {
        assert(vowel_pos(vowel_at(56)) == Some(56nat));
    } else if i == 57 {
        assert(vowel_pos(vowel_at(57)) == Some(57nat));
    } else if i == 58 {
        assert(vowel_pos(vowel_at(58)) == Some(58nat));
    } else if i == 59 {
        assert(vowel_pos(vowel_at(59)) == Some(59nat));
    } else if i == 60 {
        assert(vowel_pos(vowel_at(60)) == Some(60nat));
    } else if i == 61 {
        assert(vowel_pos(vowel_at(61)) == Some(61nat));
    } else if i == 62 {
        assert(vowel_pos(vowel_at(62)) == Some(62nat));
    } else if i == 63 {
        assert(vowel_pos(vowel_at(63)) == Some(63nat));
    } else if i == 64 {
        assert(vowel_pos(vowel_at(64)) == Some(64nat));
    } else if i == 65 {
        assert(vowel_pos(vowel_at(65)) == Some(65nat));
    } else if i == 66 {
        assert(vowel_pos(vowel_at(66)) == Some(66nat));
    } else if i == 67 {
        assert(vowel_pos(vowel_at(67)) == Some(67nat));
    } else if i == 68 {
        assert(vowel_pos(vowel_at(68)) == Some(68nat));
    } else if i == 69 {
        assert(vowel_pos(vowel_at(69)) == Some(69nat));
    } else if i == 70 {
        assert(vowel_pos(vowel_at(70)) == Some(70nat));
    } else if i == 71 {
        assert(vowel_pos(vowel_at(71)) == Some(71nat));
    }
}

/// The tone put last is the one a vowel carries: adding tone `t2` to a letter
/// that was given tone `t1` is adding `t2` to the letter itself.
pub proof fn lemma_add_tone_last_wins(c: char, t1: u8, t2: u8)
    requires
        t1 <= 5,
        t2 <= 5,
    ensures
        spec_add_tone(spec_add_tone(c, t1), t2) == spec_add_tone(c, t2),
{
    if let Some(p) = vowel_pos(c) {
        let np = p - p % 6 + t1;
        assert(np < 72);
        lemma_vowel_table(np);
        assert(np % 6 == t1 as int);
        assert(np - np % 6 + t2 == p - p % 6 + t2);
    }
}

/// A vowel given tone `t` carries tone `t`; a non-vowel is left alone.
pub proof fn lemma_add_tone_sets_tone(c: char, t: u8)
    requires
        t <= 5,
    ensures
        vowel_pos(c) is Some ==> tone_of(spec_add_tone(c, t)) == t,
        vowel_pos(c) is None ==> spec_add_tone(c, t) == c,
{
    if let Some(p) = vowel_pos(c) {
        let np = p - p % 6 + t;
        lemma_vowel_table(np);
        assert(np % 6 == t as int);
    }
}

proof fn lemma_mark_keeps_vowel(k: int, m: u8)
    requires
        0 <= k < 12,
    ensures
        vowel_pos(spec_add_mark_toneless(vowel_at(6 * k), m)) is Some,
{
    if m >= 5 {
        lemma_vowel_table(6 * k);
    }
    if k == 0 && m == 0 {
        assert(vowel_pos(spec_add_mark_toneless(vowel_at(0), 0u8)) is Some);
    } else if k == 0 && m == 1 {
        assert(vowel_pos(spec_add_mark_toneless(vowel_at(0), 1u8)) is Some);
    } else if k == 0 && m == 2 {
        assert(vowel_pos(spec_add_mark_toneless(vowel_at(0), 2u8)) is Some);
    } else if k == 0 && m == 3 {
        assert(vowel_pos(spec_add_mark_toneless(vowel_at(0), 3u8)) is Some);
    } else if k == 0 && m == 4 {
        assert(vowel_pos(spec_add_mark_toneless(vowel_at(0), 4u8)) is Some);
    } else if k == 1 && m == 0 {
        assert(vowel_pos(spec_add_mark_toneless(vowel_at(6), 0u8)) is Some);
    } else if k == 1 && m == 1 {
        assert(vowel_pos(spec_add_mark_toneless(vowel_at(6), 1u8)) is Some);
    } else if k == 1 && m == 2 {
        assert(vowel_pos(spec_add_mark_toneless(vowel_at(6), 2u8)) is Some);
    } else if k == 1 && m == 3 {
        assert(vowel_pos(spec_add_mark_toneless(vowel_at(6), 3u8)) is Some);
    } else if k == 1 && m == 4 {
        assert(vowel_pos(spec_add_mark_toneless(vowel_at(6), 4u8)) is Some);
    } else if k == 2 && m == 0 {
        assert(vowel_pos(spec_add_mark_toneless(vowel_at(12), 0u8)) is Some);
    } else if k == 2 && m == 1 {
        assert(vowel_pos(spec_add_mark_toneless(vowel_at(12), 1u8)) is Some);
    } else if k == 2 && m == 2 {
        assert(vowel_pos(spec_add_mark_toneless(vowel_at(12), 2u8)) is Some);
    } else if k == 2 && m == 3 {
        assert(vowel_pos(spec_add_mark_toneless(vowel_at(12), 3u8)) is Some);
    } else if k == 2 && m == 4 {
        assert(vowel_pos(spec_add_mark_toneless(vowel_at(12), 4u8)) is Some);
    } else if k == 3 && m == 0 {
        assert(vowel_pos(spec_add_mark_toneless(vowel_at(18), 0u8)) is Some);
    } else if k == 3 && m == 1 {
        assert(vowel_pos(spec_add_mark_toneless(vowel_at(18), 1u8)) is Some);
    } else if k == 3 && m == 2 {
        assert(vowel_pos(spec_add_mark_toneless(vowel_at(18), 2u8)) is Some);
    } else if k == 3 && m == 3 {
        assert(vowel_pos(spec_add_mark_toneless(vowel_at(18), 3u8)) is Some);
    } else if k == 3 && m == 4 {
        assert(vowel_pos(spec_add_mark_toneless(vowel_at(18), 4u8)) is Some);
    } else if k == 4 && m == 0 {
        assert(vowel_pos(spec_add_mark_toneless(vowel_at(24), 0u8)) is Some);
    } else if k == 4 && m == 1 {
        assert(vowel_pos(spec_add_mark_toneless(vowel_at(24), 1u8)) is Some);
    } else if k == 4 && m == 2 {
        assert(vowel_pos(spec_add_mark_toneless(vowel_at(24), 2u8)) is Some);
    } else if k == 4 && m == 3 {
        assert(vowel_pos(spec_add_mark_toneless(vowel_at(24), 3u8)) is Some);
    } else if k == 4 && m == 4 {
        assert(vowel_pos(spec_add_mark_toneless(vowel_at(24), 4u8)) is Some);
    } else if k == 5 && m == 0 {
        assert(vowel_pos(spec_add_mark_toneless(vowel_at(30), 0u8)) is Some);
    } else if k == 5 && m == 1 {
        assert(vowel_pos(spec_add_mark_toneless(vowel_at(30), 1u8)) is Some);
    } else if k == 5 && m == 2 {
        assert(vowel_pos(spec_add_mark_toneless(vowel_at(30), 2u8)) is Some);
    } else if k == 5 && m == 3 {
        assert(vowel_pos(spec_add_mark_toneless(vowel_at(30), 3u8)) is Some);
    } else if k == 5 && m == 4 {
        assert(vowel_pos(spec_add_mark_toneless(vowel_at(30), 4u8)) is Some);
    } else if k == 6 && m == 0 {
        assert(vowel_pos(spec_add_mark_toneless(vowel_at(36), 0u8)) is Some);
    } else if k == 6 && m == 1 {
        assert(vowel_pos(spec_add_mark_toneless(vowel_at(36), 1u8)) is Some);
    } else if k == 6 && m == 2 {
        assert(vowel_pos(spec_add_mark_toneless(vowel_at(36), 2u8)) is Some);
    } else if k == 6 && m == 3 {
        assert(vowel_pos(spec_add_mark_toneless(vowel_at(36), 3u8)) is Some);
    } else if k == 6 && m == 4 {
        assert(vowel_pos(spec_add_mark_toneless(vowel_at(36), 4u8)) is Some);
    } else if k == 7 && m == 0 {
        assert(vowel_pos(spec_add_mark_toneless(vowel_at(42), 0u8)) is Some);
    } else if k == 7 && m == 1 {
        assert(vowel_pos(spec_add_mark_toneless(vowel_at(42), 1u8)) is Some);
    } else if k == 7 && m == 2 {
        assert(vowel_pos(spec_add_mark_toneless(vowel_at(42), 2u8)) is Some);
    } else if k == 7 && m == 3 {
        assert(vowel_pos(spec_add_mark_toneless(vowel_at(42), 3u8)) is Some);
    } else if k == 7 && m == 4 {
        assert(vowel_pos(spec_add_mark_toneless(vowel_at(42), 4u8)) is Some);
    } else if k == 8 && m == 0 {
        assert(vowel_pos(spec_add_mark_toneless(vowel_at(48), 0u8)) is Some);
    } else if k == 8 && m == 1 {
        assert(vowel_pos(spec_add_mark_toneless(vowel_at(48), 1u8)) is Some);
    } else if k == 8 && m == 2 {
        assert(vowel_pos(spec_add_mark_toneless(vowel_at(48), 2u8)) is Some);
    } else if k == 8 && m == 3 {
        assert(vowel_pos(spec_add_mark_toneless(vowel_at(48), 3u8)) is Some);
    } else if k == 8 && m == 4 {
        assert(vowel_pos(spec_add_mark_toneless(vowel_at(48), 4u8)) is Some);
    } else if k == 9 && m == 0 {
        assert(vowel_pos(spec_add_mark_toneless(vowel_at(54), 0u8)) is Some);
    } else if k == 9 && m == 1 {
        assert(vowel_pos(spec_add_mark_toneless(vowel_at(54), 1u8)) is Some);
    } else if k == 9 && m == 2 {
        assert(vowel_pos(spec_add_mark_toneless(vowel_at(54), 2u8)) is Some);
    } else if k == 9 && m == 3 {
        assert(vowel_pos(spec_add_mark_toneless(vowel_at(54), 3u8)) is Some);
    } else if k == 9 && m == 4 {
        assert(vowel_pos(spec_add_mark_toneless(vowel_at(54), 4u8)) is Some);
    } else if k == 10 && m == 0 {
        assert(vowel_pos(spec_add_mark_toneless(vowel_at(60), 0u8)) is Some);
    } else if k == 10 && m == 1 {
        assert(vowel_pos(spec_add_mark_toneless(vowel_at(60), 1u8)) is Some);
    } else if k == 10 && m == 2 {
        assert(vowel_pos(spec_add_mark_toneless(vowel_at(60), 2u8)) is Some);
    } else if k == 10 && m == 3 {
        assert(vowel_pos(spec_add_mark_toneless(vowel_at(60), 3u8)) is Some);
    } else if k == 10 && m == 4 {
        assert(vowel_pos(spec_add_mark_toneless(vowel_at(60), 4u8)) is Some);
    } else if k == 11 && m == 0 {
        assert(vowel_pos(spec_add_mark_toneless(vowel_at(66), 0u8)) is Some);
    } else if k == 11 && m == 1 {
        assert(vowel_pos(spec_add_mark_toneless(vowel_at(66), 1u8)) is Some);
    } else if k == 11 && m == 2 {
        assert(vowel_pos(spec_add_mark_toneless(vowel_at(66), 2u8)) is Some);
    } else if k == 11 && m == 3 {
        assert(vowel_pos(spec_add_mark_toneless(vowel_at(66), 3u8)) is Some);
    } else if k == 11 && m == 4 {
        assert(vowel_pos(spec_add_mark_toneless(vowel_at(66), 4u8)) is Some);
    }
}

/// A diacritic mark never changes the tone a letter carries.
pub proof fn lemma_add_mark_keeps_tone(c: char, m: u8)
    ensures
        tone_of(spec_add_mark(c, m)) == tone_of(c),
{
    match vowel_pos(c) {
        Some(p) => {
            let k = (p / 6) as int;
            assert(p - p % 6 == 6 * k);
            assert(tone_of(c) <= 5);
            lemma_mark_keeps_vowel(k, m);
            lemma_add_tone_sets_tone(spec_add_mark_toneless(vowel_at(6 * k), m), tone_of(c));
        },
        None => {
            let marked = spec_add_mark_toneless(c, m);
            lemma_add_tone_sets_tone(marked, 0);
        },
    }
}

/// A plain lowercase ASCII letter carries no tone and no mark.
pub proof fn lemma_ascii_letter_plain(c: char)
    requires
        'a' <= c <= 'z',
    ensures
        spec_add_tone(c, 0) == c,
        spec_add_mark(c, 0) == c,
{
    if c == 'a' {
        assert(spec_add_tone('a', 0) == 'a' && spec_add_mark('a', 0) == 'a');
    } else if c == 'b' {
        assert(spec_add_tone('b', 0) == 'b' && spec_add_mark('b', 0) == 'b');
    } else if c == 'c' {
        assert(spec_add_tone('c', 0) == 'c' && spec_add_mark('c', 0) == 'c');
    } else if c == 'd' {
        assert(spec_add_tone('d', 0) == 'd' && spec_add_mark('d', 0) == 'd');
    } else if c == 'e' {
        assert(spec_add_tone('e', 0) == 'e' && spec_add_mark('e', 0) == 'e');
    } else if c == 'f' {
        assert(spec_add_tone('f', 0) == 'f' && spec_add_mark('f', 0) == 'f');
    } else if c == 'g' {
        assert(spec_add_tone('g', 0) == 'g' && spec_add_mark('g', 0) == 'g');
    } else if c == 'h' {
        assert(spec_add_tone('h', 0) == 'h' && spec_add_mark('h', 0) == 'h');
    } else if c == 'i' {
        assert(spec_add_tone('i', 0) == 'i' && spec_add_mark('i', 0) == 'i');
    } else if c == 'j' {
        assert(spec_add_tone('j', 0) == 'j' && spec_add_mark('j', 0) == 'j');
    } else if c == 'k' {
        assert(spec_add_tone('k', 0) == 'k' && spec_add_mark('k', 0) == 'k');
    } else if c == 'l' {
        assert(spec_add_tone('l', 0) == 'l' && spec_add_mark('l', 0) == 'l');
    } else if c == 'm' {
        assert(spec_add_tone('m', 0) == 'm' && spec_add_mark('m', 0) == 'm');
    } else if c == 'n' {
        assert(spec_add_tone('n', 0) == 'n' && spec_add_mark('n', 0) == 'n');
    } else if c == 'o' {
        assert(spec_add_tone('o', 0) == 'o' && spec_add_mark('o', 0) == 'o');
    } else if c == 'p' {
        assert(spec_add_tone('p', 0) == 'p' && spec_add_mark('p', 0) == 'p');
    } else if c == 'q' {
        assert(spec_add_tone('q', 0) == 'q' && spec_add_mark('q', 0) == 'q');
    } else if c == 'r' {
        assert(spec_add_tone('r', 0) == 'r' && spec_add_mark('r', 0) == 'r');
    } else if c == 's' {
        assert(spec_add_tone('s', 0) == 's' && spec_add_mark('s', 0) == 's');
    } else if c == 't' {
        assert(spec_add_tone('t', 0) == 't' && spec_add_mark('t', 0) == 't');
    } else if c == 'u' {
        assert(spec_add_tone('u', 0) == 'u' && spec_add_mark('u', 0) == 'u');
    } else if c == 'v' {
        assert(spec_add_tone('v', 0) == 'v' && spec_add_mark('v', 0) == 'v');
    } else if c == 'w' {
        assert(spec_add_tone('w', 0) == 'w' && spec_add_mark('w', 0) == 'w');
    } else if c == 'x' {
        assert(spec_add_tone('x', 0) == 'x' && spec_add_mark('x', 0) == 'x');
    } else if c == 'y' {
        assert(spec_add_tone('y', 0) == 'y' && spec_add_mark('y', 0) == 'y');
    } else if c == 'z' {
        assert(spec_add_tone('z', 0) == 'z' && spec_add_mark('z', 0) == 'z');
    }
}

} // verus!
