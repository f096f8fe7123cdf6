//! Choosing system fonts: the first available of a list of preferred
//! families, and a search for any CJK family.

use vstd::prelude::*;
use crate::git::strs;
use crate::text::{chars_of, contains_char, contains_chars, contains_seq};

verus! {

/// Preferred Japanese font families, in order.
pub open spec fn japanese_families() -> Seq<Seq<char>> {
    seq![
        "MS Gothic"@, "Meiryo"@, "Yu Gothic"@, "BIZ UDGothic"@, "Hiragino Sans"@,
        "Hiragino Kaku Gothic ProN"@, "Noto Sans CJK JP"@, "Noto Sans JP"@, "IPAGothic"@,
        "VL Gothic"@, "Takao Gothic"@,
    ]
}

/// Preferred monospace font families, in order.
pub open spec fn monospace_families() -> Seq<Seq<char>> {
    seq![
        "JetBrains Mono"@, "Fira Code"@, "Source Code Pro"@, "Consolas"@, "Cascadia Code"@,
        "SF Mono"@, "Menlo"@, "Monaco"@, "DejaVu Sans Mono"@, "Ubuntu Mono"@, "Liberation Mono"@,
    ]
}

/// The data of the system font that best matches `family` at normal weight,
/// when there is one. What is installed is up to the machine, so nothing is
/// stated of the result. font-kit turns the name into a C string and panics
/// on a NUL character, so such names are left out.
#[verifier::external_body]
fn system_font_data(family: &str) -> (r: Option<Vec<u8>>)
    requires
        !family@.contains('\0'),
{
    let source = font_kit::source::SystemSource::new();
    let properties = *font_kit::properties::Properties::new().weight(font_kit::properties::Weight::NORMAL);
    let handle = source
        .select_best_match(&[font_kit::family_name::FamilyName::Title(family.to_string())], &properties)
        .ok()?;
    let font = handle.load().ok()?;
    Some(font.copy_font_data()?.to_vec())
}

/// The names of all font families installed, or none when they cannot be
/// listed; up to the machine.
#[verifier::external_body]
fn system_families() -> (r: Vec<String>) {
    font_kit::source::SystemSource::new().all_families().unwrap_or_default()
}

/// The Unicode lower case of a text, as `str::to_lowercase` computes it.
pub uninterp spec fn lowercase(s: Seq<char>) -> Seq<char>;

/// `str::to_lowercase`.
#[verifier::external_body]
fn to_lowercase(s: &str) -> (r: String)
    ensures
        r@ == lowercase(s@),
{
    s.to_lowercase()
}

/// Loads the font data of a family from the system fonts. A name holding a
/// NUL character names no font and gives none; for any other name, whether
/// it loads, and what bytes come back, is up to the fonts installed on the
/// machine.
pub fn load_font_by_name(family_name: &str) -> (r: Option<Vec<u8>>)
    ensures
        family_name@.contains('\0') ==> r is None,
{
    let c = chars_of(family_name);
    if contains_char(&c, '\0') {
        return None;
    }
    system_font_data(family_name)
}

/// The families to try in order.
fn family_list(japanese: bool) -> (v: Vec<String>)
    ensures
        strs(v@) == (if japanese { japanese_families() } else { monospace_families() }),
{
    let names: Vec<&'static str> = if japanese {
        vec![
            "MS Gothic", "Meiryo", "Yu Gothic", "BIZ UDGothic", "Hiragino Sans",
            "Hiragino Kaku Gothic ProN", "Noto Sans CJK JP", "Noto Sans JP", "IPAGothic", "VL Gothic",
            "Takao Gothic",
        ]
    } else {
        vec![
            "JetBrains Mono", "Fira Code", "Source Code Pro", "Consolas", "Cascadia Code", "SF Mono",
            "Menlo", "Monaco", "DejaVu Sans Mono", "Ubuntu Mono", "Liberation Mono",
        ]
    };
    let ghost want = if japanese { japanese_families() } else { monospace_families() };
    assert(names@.len() == want.len());
    assert(forall|k: int| 0 <= k < names@.len() ==> #[trigger] names@[k]@ == want[k]);
    let mut v: Vec<String> = Vec::new();
    let mut k: usize = 0;
    while k < names.len()
        invariant
            k <= names@.len(),
            names@.len() == want.len(),
            forall|j: int| 0 <= j < names@.len() ==> #[trigger] names@[j]@ == want[j],
            strs(v@) == want.take(k as int),
        decreases names@.len() - k,
    {
        let name = names[k].to_owned();
        assert(name@ == names@[k as int]@);
        assert(names@[k as int]@ == want[k as int]);
        let ghost old_v = v@;
        v.push(name);
        assert(strs(v@) =~= strs(old_v).push(want[k as int]));
        assert(want.take(k + 1) =~= want.take(k as int).push(want[k as int]));
        k += 1;
    }
    assert(want.take(k as int) =~= want);
    v
}

/// Of the outcomes of loading each family in turn, the first that loaded.
pub fn first_loaded(loaded: &[bool]) -> (r: Option<usize>)
    ensures
        match r {
            Some(i) => i < loaded@.len() && loaded@[i as int] && forall|j: int| 0 <= j < i ==> !loaded@[j],
            None => forall|j: int| 0 <= j < loaded@.len() ==> !loaded@[j],
        },
{
    let mut i: usize = 0;
    while i < loaded.len()
        invariant
            i <= loaded@.len(),
            forall|j: int| 0 <= j < i ==> !loaded@[j],
        decreases loaded@.len() - i,
    {
        if loaded[i] {
            return Some(i);
        }
        i += 1;
    }
    None
}

/// The family names that look like CJK families, in their order.
pub open spec fn cjk_names(names: Seq<Seq<char>>) -> Seq<Seq<char>> {
    names.filter(|f: Seq<char>| looks_cjk(lowercase(f)))
}

/// The installed families that look like CJK families, in their order.
pub fn cjk_candidates(all: &[String]) -> (v: Vec<String>)
    ensures
        strs(v@) == cjk_names(strs(all@)),
{
    let mut v: Vec<String> = Vec::new();
    let mut i: usize = 0;
    while i < all.len()
        invariant
            i <= all@.len(),
            strs(v@) == cjk_names(strs(all@).take(i as int)),
        decreases all@.len() - i,
    {
        proof {
            reveal(Seq::filter);
            assert(strs(all@).take(i + 1).drop_last() =~= strs(all@).take(i as int));
            assert(strs(all@).take(i + 1).last() == all@[i as int]@);
        }
        if is_cjk_family(all[i].as_str()) {
            let f = all[i].clone();
            v.push(f);
            assert(strs(v@) =~= cjk_names(strs(all@).take(i as int)).push(all@[i as int]@));
        } else {
            assert(strs(v@) =~= cjk_names(strs(all@).take(i as int)));
        }
        i += 1;
    }
    assert(strs(all@).take(all@.len() as int) =~= strs(all@));
    v
}

/// Loads the families in order and stops at the first that loads; the
/// outcomes so far decide, through `first_loaded`, which one is returned.
/// Which family loads is up to the machine; the name returned is always one
/// of `families`.
fn first_loadable(families: &[String]) -> (r: Option<(String, Vec<u8>)>)
    ensures
        r matches Some((name, _)) ==> strs(families@).contains(name@),
{
    let mut loaded: Vec<bool> = Vec::new();
    let mut data: Option<Vec<u8>> = None;
    while loaded.len() < families.len()
        invariant_except_break
            forall|j: int| 0 <= j < loaded@.len() ==> !loaded@[j],
        invariant
            loaded@.len() <= families@.len(),
        decreases families@.len() - loaded@.len(),
    {
        let i = loaded.len();
        match load_font_by_name(families[i].as_str()) {
            Some(d) => {
                data = Some(d);
                loaded.push(true);
                break;
            },
            None => {
                loaded.push(false);
            },
        }
    }
    match first_loaded(&loaded) {
        Some(i) => match data {
            Some(d) => {
                let name = families[i].clone();
                assert(strs(families@)[i as int] == name@);
                Some((name, d))
            },
            None => None,
        },
        None => None,
    }
}

/// The first preferred monospace family installed, with its font data.
/// Whether any is installed is up to the machine.
pub fn find_monospace_font() -> (r: Option<(String, Vec<u8>)>)
    ensures
        r matches Some((name, _)) ==> monospace_families().contains(name@),
{
    let families = family_list(false);
    first_loadable(&families)
}

/// Whether a family name (in lower case) looks like a CJK family.
pub open spec fn looks_cjk(lower: Seq<char>) -> bool {
    contains_seq(lower, "cjk"@) || contains_seq(lower, "japanese"@) || contains_seq(lower, "gothic"@)
        || contains_seq(lower, "mincho"@)
}

/// Whether a family name looks like a CJK family, ignoring case.
pub fn is_cjk_family(family: &str) -> (r: bool)
    ensures
        r == looks_cjk(lowercase(family@)),
{
    let l = chars_of(to_lowercase(family).as_str());
    contains_chars(&l, &chars_of("cjk")) || contains_chars(&l, &chars_of("japanese"))
        || contains_chars(&l, &chars_of("gothic")) || contains_chars(&l, &chars_of("mincho"))
}

/// The first preferred Japanese family installed, else the first installed
/// family that looks CJK and loads, with its font data. Whether any is
/// installed is up to the machine.
pub fn find_japanese_font() -> (r: Option<(String, Vec<u8>)>)
    ensures
        r matches Some((name, _)) ==> japanese_families().contains(name@) || looks_cjk(lowercase(name@)),
{
    let families = family_list(true);
    match first_loadable(&families) {
        Some(found) => {
            return Some(found);
        },
        None => {},
    }
    let all = system_families();
    let candidates = cjk_candidates(&all);
    let r = first_loadable(&candidates);
    proof {
        if r is Some {
            let pair = r->0;
            let name = pair.0;
            let s = strs(all@);
            broadcast use vstd::seq_lib::group_filter_ensures;
            let k = choose|k: int| 0 <= k < cjk_names(s).len() && cjk_names(s)[k] == name@;
            assert(looks_cjk(lowercase(cjk_names(s)[k])));
        }
    }
    r
}

/// All installed font families.
pub fn list_all_fonts() -> (r: Vec<String>) {
    system_families()
}

} // verus!
