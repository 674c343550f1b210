//! The built-in input methods: for each one, its keys and what each key does.
//!
//! A definition line is either a tone name (`DauSac`, ...), or a rule of the
//! form `LETTERS_RESULTS` (each letter turns into the result at the same
//! position), optionally followed by `_X`/`__X` (the key appends `X`).
use vstd::prelude::*;
use crate::text::str_eq;

verus! {

/// A definition as character sequences: (key, rule line) pairs in order.
pub open spec fn entries_view(v: Seq<(&str, &str)>) -> Seq<(Seq<char>, Seq<char>)> {
    v.map_values(|e: (&str, &str)| (e.0@, e.1@))
}

/// The `Telex` input method.
pub open spec fn telex_entries() -> Seq<(Seq<char>, Seq<char>)> {
    seq![
        ("z"@, "XoaDauThanh"@),
        ("s"@, "DauSac"@),
        ("f"@, "DauHuyen"@),
        ("r"@, "DauHoi"@),
        ("x"@, "DauNga"@),
        ("j"@, "DauNang"@),
        ("a"@, "A_Â"@),
        ("e"@, "E_Ê"@),
        ("o"@, "O_Ô"@),
        ("w"@, "UOA_ƯƠĂ"@),
        ("d"@, "D_Đ"@),
    ]
}

fn telex_entries_exec() -> (r: Vec<(&'static str, &'static str)>)
    ensures
        entries_view(r@) == telex_entries(),
{
    let r = vec![
        ("z", "XoaDauThanh"),
        ("s", "DauSac"),
        ("f", "DauHuyen"),
        ("r", "DauHoi"),
        ("x", "DauNga"),
        ("j", "DauNang"),
        ("a", "A_Â"),
        ("e", "E_Ê"),
        ("o", "O_Ô"),
        ("w", "UOA_ƯƠĂ"),
        ("d", "D_Đ"),
    ];
    assert(entries_view(r@) =~= telex_entries());
    r
}

/// The `VNI` input method.
pub open spec fn vni_entries() -> Seq<(Seq<char>, Seq<char>)> {
    seq![
        ("0"@, "XoaDauThanh"@),
        ("1"@, "DauSac"@),
        ("2"@, "DauHuyen"@),
        ("3"@, "DauHoi"@),
        ("4"@, "DauNga"@),
        ("5"@, "DauNang"@),
        ("6"@, "AEO_ÂÊÔ"@),
        ("7"@, "UO_ƯƠ"@),
        ("8"@, "A_Ă"@),
        ("9"@, "D_Đ"@),
    ]
}

fn vni_entries_exec() -> (r: Vec<(&'static str, &'static str)>)
    ensures
        entries_view(r@) == vni_entries(),
{
    let r = vec![
        ("0", "XoaDauThanh"),
        ("1", "DauSac"),
        ("2", "DauHuyen"),
        ("3", "DauHoi"),
        ("4", "DauNga"),
        ("5", "DauNang"),
        ("6", "AEO_ÂÊÔ"),
        ("7", "UO_ƯƠ"),
        ("8", "A_Ă"),
        ("9", "D_Đ"),
    ];
    assert(entries_view(r@) =~= vni_entries());
    r
}

/// The `VIQR` input method.
pub open spec fn viqr_entries() -> Seq<(Seq<char>, Seq<char>)> {
    seq![
        ("0"@, "XoaDauThanh"@),
        ("'"@, "DauSac"@),
        ("`"@, "DauHuyen"@),
        ("?"@, "DauHoi"@),
        ("~"@, "DauNga"@),
        ("."@, "DauNang"@),
        ("^"@, "AEO_ÂÊÔ"@),
        ("+"@, "UO_ƯƠ"@),
        ("*"@, "UO_ƯƠ"@),
        ("("@, "A_Ă"@),
        ("d"@, "D_Đ"@),
    ]
}

fn viqr_entries_exec() -> (r: Vec<(&'static str, &'static str)>)
    ensures
        entries_view(r@) == viqr_entries(),
{
    let r = vec![
        ("0", "XoaDauThanh"),
        ("'", "DauSac"),
        ("`", "DauHuyen"),
        ("?", "DauHoi"),
        ("~", "DauNga"),
        (".", "DauNang"),
        ("^", "AEO_ÂÊÔ"),
        ("+", "UO_ƯƠ"),
        ("*", "UO_ƯƠ"),
        ("(", "A_Ă"),
        ("d", "D_Đ"),
    ];
    assert(entries_view(r@) =~= viqr_entries());
    r
}

/// The `Microsoft layout` input method.
pub open spec fn microsoft_layout_entries() -> Seq<(Seq<char>, Seq<char>)> {
    seq![
        ("8"@, "DauSac"@),
        ("5"@, "DauHuyen"@),
        ("6"@, "DauHoi"@),
        ("7"@, "DauNga"@),
        ("9"@, "DauNang"@),
        ("1"@, "__ă"@),
        ("!"@, "_Ă"@),
        ("2"@, "__â"@),
        ("@"@, "_Â"@),
        ("3"@, "__ê"@),
        ("#"@, "_Ê"@),
        ("4"@, "__ô"@),
        ("$"@, "_Ô"@),
        ("0"@, "__đ"@),
        (")"@, "_Đ"@),
        ("["@, "__ư"@),
        ("{"@, "_Ư"@),
        ("]"@, "__ơ"@),
        ("}"@, "_Ơ"@),
    ]
}

fn microsoft_layout_entries_exec() -> (r: Vec<(&'static str, &'static str)>)
    ensures
        entries_view(r@) == microsoft_layout_entries(),
{
    let r = vec![
        ("8", "DauSac"),
        ("5", "DauHuyen"),
        ("6", "DauHoi"),
        ("7", "DauNga"),
        ("9", "DauNang"),
        ("1", "__ă"),
        ("!", "_Ă"),
        ("2", "__â"),
        ("@", "_Â"),
        ("3", "__ê"),
        ("#", "_Ê"),
        ("4", "__ô"),
        ("$", "_Ô"),
        ("0", "__đ"),
        (")", "_Đ"),
        ("[", "__ư"),
        ("{", "_Ư"),
        ("]", "__ơ"),
        ("}", "_Ơ"),
    ];
    assert(entries_view(r@) =~= microsoft_layout_entries());
    r
}

/// The `Telex 2` input method.
pub open spec fn telex_2_entries() -> Seq<(Seq<char>, Seq<char>)> {
    seq![
        ("z"@, "XoaDauThanh"@),
        ("s"@, "DauSac"@),
        ("f"@, "DauHuyen"@),
        ("r"@, "DauHoi"@),
        ("x"@, "DauNga"@),
        ("j"@, "DauNang"@),
        ("a"@, "A_Â"@),
        ("e"@, "E_Ê"@),
        ("o"@, "O_Ô"@),
        ("w"@, "UOA_ƯƠĂ__Ư"@),
        ("d"@, "D_Đ"@),
        ("]"@, "__ư"@),
        ("["@, "__ơ"@),
        ("}"@, "_Ư"@),
        ("{"@, "_Ơ"@),
    ]
}

fn telex_2_entries_exec() -> (r: Vec<(&'static str, &'static str)>)
    ensures
        entries_view(r@) == telex_2_entries(),
{
    let r = vec![
        ("z", "XoaDauThanh"),
        ("s", "DauSac"),
        ("f", "DauHuyen"),
        ("r", "DauHoi"),
        ("x", "DauNga"),
        ("j", "DauNang"),
        ("a", "A_Â"),
        ("e", "E_Ê"),
        ("o", "O_Ô"),
        ("w", "UOA_ƯƠĂ__Ư"),
        ("d", "D_Đ"),
        ("]", "__ư"),
        ("[", "__ơ"),
        ("}", "_Ư"),
        ("{", "_Ơ"),
    ];
    assert(entries_view(r@) =~= telex_2_entries());
    r
}

/// The `Telex + VNI` input method.
pub open spec fn telex_vni_entries() -> Seq<(Seq<char>, Seq<char>)> {
    seq![
        ("z"@, "XoaDauThanh"@),
        ("s"@, "DauSac"@),
        ("f"@, "DauHuyen"@),
        ("r"@, "DauHoi"@),
        ("x"@, "DauNga"@),
        ("j"@, "DauNang"@),
        ("a"@, "A_Â"@),
        ("e"@, "E_Ê"@),
        ("o"@, "O_Ô"@),
        ("w"@, "UOA_ƯƠĂ"@),
        ("d"@, "D_Đ"@),
        ("0"@, "XoaDauThanh"@),
        ("1"@, "DauSac"@),
        ("2"@, "DauHuyen"@),
        ("3"@, "DauHoi"@),
        ("4"@, "DauNga"@),
        ("5"@, "DauNang"@),
        ("6"@, "AEO_ÂÊÔ"@),
        ("7"@, "UO_ƯƠ"@),
        ("8"@, "A_Ă"@),
        ("9"@, "D_Đ"@),
    ]
}

fn telex_vni_entries_exec() -> (r: Vec<(&'static str, &'static str)>)
    ensures
        entries_view(r@) == telex_vni_entries(),
{
    let r = vec![
        ("z", "XoaDauThanh"),
        ("s", "DauSac"),
        ("f", "DauHuyen"),
        ("r", "DauHoi"),
        ("x", "DauNga"),
        ("j", "DauNang"),
        ("a", "A_Â"),
        ("e", "E_Ê"),
        ("o", "O_Ô"),
        ("w", "UOA_ƯƠĂ"),
        ("d", "D_Đ"),
        ("0", "XoaDauThanh"),
        ("1", "DauSac"),
        ("2", "DauHuyen"),
        ("3", "DauHoi"),
        ("4", "DauNga"),
        ("5", "DauNang"),
        ("6", "AEO_ÂÊÔ"),
        ("7", "UO_ƯƠ"),
        ("8", "A_Ă"),
        ("9", "D_Đ"),
    ];
    assert(entries_view(r@) =~= telex_vni_entries());
    r
}

/// The `Telex + VNI + VIQR` input method.
pub open spec fn telex_vni_viqr_entries() -> Seq<(Seq<char>, Seq<char>)> {
    seq![
        ("z"@, "XoaDauThanh"@),
        ("s"@, "DauSac"@),
        ("f"@, "DauHuyen"@),
        ("r"@, "DauHoi"@),
        ("x"@, "DauNga"@),
        ("j"@, "DauNang"@),
        ("a"@, "A_Â"@),
        ("e"@, "E_Ê"@),
        ("o"@, "O_Ô"@),
        ("w"@, "UOA_ƯƠĂ"@),
        ("d"@, "D_Đ"@),
        ("0"@, "XoaDauThanh"@),
        ("1"@, "DauSac"@),
        ("2"@, "DauHuyen"@),
        ("3"@, "DauHoi"@),
        ("4"@, "DauNga"@),
        ("5"@, "DauNang"@),
        ("6"@, "AEO_ÂÊÔ"@),
        ("7"@, "UO_ƯƠ"@),
        ("8"@, "A_Ă"@),
        ("9"@, "D_Đ"@),
        ("'"@, "DauSac"@),
        ("`"@, "DauHuyen"@),
        ("?"@, "DauHoi"@),
        ("~"@, "DauNga"@),
        ("."@, "DauNang"@),
        ("^"@, "AEO_ÂÊÔ"@),
        ("+"@, "UO_ƯƠ"@),
        ("*"@, "UO_ƯƠ"@),
        ("("@, "A_Ă"@),
        ("\\"@, "D_Đ"@),
    ]
}

fn telex_vni_viqr_entries_exec() -> (r: Vec<(&'static str, &'static str)>)
    ensures
        entries_view(r@) == telex_vni_viqr_entries(),
{
    let r = vec![
        ("z", "XoaDauThanh"),
        ("s", "DauSac"),
        ("f", "DauHuyen"),
        ("r", "DauHoi"),
        ("x", "DauNga"),
        ("j", "DauNang"),
        ("a", "A_Â"),
        ("e", "E_Ê"),
        ("o", "O_Ô"),
        ("w", "UOA_ƯƠĂ"),
        ("d", "D_Đ"),
        ("0", "XoaDauThanh"),
        ("1", "DauSac"),
        ("2", "DauHuyen"),
        ("3", "DauHoi"),
        ("4", "DauNga"),
        ("5", "DauNang"),
        ("6", "AEO_ÂÊÔ"),
        ("7", "UO_ƯƠ"),
        ("8", "A_Ă"),
        ("9", "D_Đ"),
        ("'", "DauSac"),
        ("`", "DauHuyen"),
        ("?", "DauHoi"),
        ("~", "DauNga"),
        (".", "DauNang"),
        ("^", "AEO_ÂÊÔ"),
        ("+", "UO_ƯƠ"),
        ("*", "UO_ƯƠ"),
        ("(", "A_Ă"),
        ("\\", "D_Đ"),
    ];
    assert(entries_view(r@) =~= telex_vni_viqr_entries());
    r
}

/// The `VNI Bàn phím tiếng Pháp` input method.
pub open spec fn vni_french_layout_entries() -> Seq<(Seq<char>, Seq<char>)> {
    seq![
        ("&"@, "XoaDauThanh"@),
        ("é"@, "DauSac"@),
        ("\""@, "DauHuyen"@),
        ("'"@, "DauHoi"@),
        ("("@, "DauNga"@),
        ("-"@, "DauNang"@),
        ("è"@, "AEO_ÂÊÔ"@),
        ("_"@, "UO_ƯƠ"@),
        ("ç"@, "A_Ă"@),
        ("à"@, "D_Đ"@),
    ]
}

fn vni_french_layout_entries_exec() -> (r: Vec<(&'static str, &'static str)>)
    ensures
        entries_view(r@) == vni_french_layout_entries(),
{
    let r = vec![
        ("&", "XoaDauThanh"),
        ("é", "DauSac"),
        ("\"", "DauHuyen"),
        ("'", "DauHoi"),
        ("(", "DauNga"),
        ("-", "DauNang"),
        ("è", "AEO_ÂÊÔ"),
        ("_", "UO_ƯƠ"),
        ("ç", "A_Ă"),
        ("à", "D_Đ"),
    ];
    assert(entries_view(r@) =~= vni_french_layout_entries());
    r
}

/// The `Telex W` input method.
pub open spec fn telex_w_entries() -> Seq<(Seq<char>, Seq<char>)> {
    seq![
        ("z"@, "XoaDauThanh"@),
        ("s"@, "DauSac"@),
        ("f"@, "DauHuyen"@),
        ("r"@, "DauHoi"@),
        ("x"@, "DauNga"@),
        ("j"@, "DauNang"@),
        ("a"@, "A_Â"@),
        ("e"@, "E_Ê"@),
        ("o"@, "O_Ô"@),
        ("w"@, "UOA_ƯƠĂ__Ư"@),
        ("d"@, "D_Đ"@),
    ]
}

fn telex_w_entries_exec() -> (r: Vec<(&'static str, &'static str)>)
    ensures
        entries_view(r@) == telex_w_entries(),
{
    let r = vec![
        ("z", "XoaDauThanh"),
        ("s", "DauSac"),
        ("f", "DauHuyen"),
        ("r", "DauHoi"),
        ("x", "DauNga"),
        ("j", "DauNang"),
        ("a", "A_Â"),
        ("e", "E_Ê"),
        ("o", "O_Ô"),
        ("w", "UOA_ƯƠĂ__Ư"),
        ("d", "D_Đ"),
    ];
    assert(entries_view(r@) =~= telex_w_entries());
    r
}

/// The definition of the input method called `name`, if it is built in.
pub open spec fn spec_input_method_entries(name: Seq<char>) -> Option<Seq<(Seq<char>, Seq<char>)>> {
    if name == "Telex"@ {
        Some(telex_entries())
    } else     if name == "VNI"@ {
        Some(vni_entries())
    } else     if name == "VIQR"@ {
        Some(viqr_entries())
    } else     if name == "Microsoft layout"@ {
        Some(microsoft_layout_entries())
    } else     if name == "Telex 2"@ {
        Some(telex_2_entries())
    } else     if name == "Telex + VNI"@ {
        Some(telex_vni_entries())
    } else     if name == "Telex + VNI + VIQR"@ {
        Some(telex_vni_viqr_entries())
    } else     if name == "VNI Bàn phím tiếng Pháp"@ {
        Some(vni_french_layout_entries())
    } else     if name == "Telex W"@ {
        Some(telex_w_entries())
    } else {
        None
    }
}

/// The definition of the built-in input method called `name`.
pub fn get_input_method_entries(name: &str) -> (r: Option<Vec<(&'static str, &'static str)>>)
    ensures
        match r {
            Some(v) => spec_input_method_entries(name@) == Some(entries_view(v@)),
            None => spec_input_method_entries(name@) is None,
        },
{
    if str_eq(name, "Telex") {
        Some(telex_entries_exec())
    } else     if str_eq(name, "VNI") {
        Some(vni_entries_exec())
    } else     if str_eq(name, "VIQR") {
        Some(viqr_entries_exec())
    } else     if str_eq(name, "Microsoft layout") {
        Some(microsoft_layout_entries_exec())
    } else     if str_eq(name, "Telex 2") {
        Some(telex_2_entries_exec())
    } else     if str_eq(name, "Telex + VNI") {
        Some(telex_vni_entries_exec())
    } else     if str_eq(name, "Telex + VNI + VIQR") {
        Some(telex_vni_viqr_entries_exec())
    } else     if str_eq(name, "VNI Bàn phím tiếng Pháp") {
        Some(vni_french_layout_entries_exec())
    } else     if str_eq(name, "Telex W") {
        Some(telex_w_entries_exec())
    } else {
        None
    }
}

/// The names of the built-in input methods.
pub open spec fn spec_input_method_names() -> Seq<Seq<char>> {
    seq!["Telex"@, "VNI"@, "VIQR"@, "Microsoft layout"@, "Telex 2"@, "Telex + VNI"@, "Telex + VNI + VIQR"@, "VNI Bàn phím tiếng Pháp"@, "Telex W"@]
}

/// The names of the built-in input methods.
pub fn get_input_method_names() -> (r: Vec<&'static str>)
    ensures
        r@.map_values(|s: &str| s@) == spec_input_method_names(),
{
    let r = vec!["Telex", "VNI", "VIQR", "Microsoft layout", "Telex 2", "Telex + VNI", "Telex + VNI + VIQR", "VNI Bàn phím tiếng Pháp", "Telex W"];
    assert(r@.map_values(|s: &str| s@) =~= spec_input_method_names());
    r
}

/// The line of the first entry whose key is `key`, scanning from entry `i`.
pub open spec fn spec_find_line(entries: Seq<(Seq<char>, Seq<char>)>, key: Seq<char>, i: int) -> Option<Seq<char>>
    decreases entries.len() - i,
{
    if i < 0 || i >= entries.len() {
        None
    } else if entries[i].0 == key {
        Some(entries[i].1)
    } else {
        spec_find_line(entries, key, i + 1)
    }
}

pub open spec fn spec_lookup_key(method: Seq<char>, key: Seq<char>) -> Option<Seq<char>> {
    match spec_input_method_entries(method) {
        Some(entries) => spec_find_line(entries, key, 0),
        None => None,
    }
}

/// The definition line of `key` in the built-in input method `method`.
pub fn lookup_key(method: &str, key: &str) -> (r: Option<&'static str>)
    ensures
        match r {
            Some(line) => spec_lookup_key(method@, key@) == Some(line@),
            None => spec_lookup_key(method@, key@) is None,
        },
{
    match get_input_method_entries(method) {
        Some(entries) => {
            let ghost ev = entries_view(entries@);
            let mut i: usize = 0;
            while i < entries.len()
                invariant
                    ev == entries_view(entries@),
                    spec_input_method_entries(method@) == Some(ev),
                    i <= entries@.len(),
                    spec_find_line(ev, key@, 0) == spec_find_line(ev, key@, i as int),
                decreases entries@.len() - i,
            {
                let (k, line) = entries[i];
                assert(ev[i as int] == (k@, line@));
                if str_eq(k, key) {
                    return Some(line);
                }
                i = i + 1;
            }
            None
        },
        None => None,
    }
}

} // verus!
