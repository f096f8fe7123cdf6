//! Syntax highlighting: the style of each capture name, the capture names a
//! language uses, and which language a file is in.

use vstd::prelude::*;
use crate::lsp::{eq_ignore_ascii_case, LspServerSpec};
use crate::path::file_name_of;
use crate::theme;

verus! {

/// How a highlighted token is drawn.
#[derive(Debug, Clone, Copy, PartialEq, Eq, Structural)]
pub struct TokenStyle {
    pub color: u32,
    pub bold: bool,
    pub italic: bool,
}

/// A plain style.
pub open spec fn plain(color: u32) -> TokenStyle {
    TokenStyle { color, bold: false, italic: false }
}

/// A bold style.
pub open spec fn bold(color: u32) -> TokenStyle {
    TokenStyle { color, bold: true, italic: false }
}

/// An italic style.
pub open spec fn italic(color: u32) -> TokenStyle {
    TokenStyle { color, bold: false, italic: true }
}

/// The styles of the capture names that have one.
pub open spec fn capture_styles() -> Seq<(Seq<char>, TokenStyle)> {
    seq![
        ("comment"@, italic(theme::TEXT_MUTED)),
        ("comment.documentation"@, italic(theme::TEXT_SECONDARY)),
        ("keyword"@, bold(theme::BLUE)),
        ("string"@, plain(theme::GREEN)),
        ("string.special"@, plain(theme::TEAL)),
        ("string.special.key"@, plain(theme::SAPPHIRE)),
        ("number"@, plain(theme::PEACH)),
        ("boolean"@, bold(theme::BLUE)),
        ("escape"@, plain(theme::PEACH)),
        ("type"@, plain(theme::TEAL)),
        ("type.builtin"@, bold(theme::TEAL)),
        ("function"@, plain(theme::YELLOW)),
        ("function.builtin"@, bold(theme::YELLOW)),
        ("function.method"@, plain(theme::YELLOW)),
        ("function.macro"@, bold(theme::TEAL)),
        ("variable"@, plain(theme::SAPPHIRE)),
        ("variable.builtin"@, italic(theme::RED)),
        ("variable.parameter"@, plain(theme::MAROON)),
        ("operator"@, plain(theme::PINK)),
        ("punctuation"@, plain(theme::TEXT_SECONDARY)),
        ("punctuation.bracket"@, plain(theme::TEXT_SECONDARY)),
        ("punctuation.delimiter"@, plain(theme::TEXT_SECONDARY)),
        ("punctuation.special"@, plain(theme::TEAL)),
        ("property"@, plain(theme::SKY)),
        ("constant"@, bold(theme::PEACH)),
        ("constant.builtin"@, bold(theme::PEACH)),
        ("constructor"@, bold(theme::TEAL)),
        ("attribute"@, italic(theme::YELLOW)),
        ("tag"@, plain(theme::RED)),
        ("tag.error"@, plain(theme::RED)),
        ("label"@, italic(theme::SAPPHIRE)),
        ("namespace"@, plain(theme::PINK)),
        ("embedded"@, plain(theme::TEXT)),
    ]
}

/// The style of the first entry of `table` named `name`, else plain text.
pub open spec fn style_in(table: Seq<(Seq<char>, TokenStyle)>, name: Seq<char>) -> TokenStyle
    decreases table.len(),
{
    if table.len() == 0 {
        plain(theme::TEXT)
    } else if table[0].0 == name {
        table[0].1
    } else {
        style_in(table.drop_first(), name)
    }
}

/// The style of a capture: by its name, or plain text for an unknown name
/// or an index with no name.
pub open spec fn capture_style(names: Seq<String>, index: int) -> TokenStyle {
    if 0 <= index < names.len() {
        style_in(capture_styles(), names[index]@)
    } else {
        plain(theme::TEXT)
    }
}

/// The capture styles as a table.
fn style_table() -> (t: Vec<(&'static str, TokenStyle)>)
    ensures
        t@.len() == capture_styles().len(),
        forall|i: int| 0 <= i < t@.len() ==> (#[trigger] t@[i]).0@ == capture_styles()[i].0
            && t@[i].1 == capture_styles()[i].1,
{
    let p = |c: u32| -> (s: TokenStyle)
        ensures
            s == plain(c),
        { TokenStyle { color: c, bold: false, italic: false } };
    let b = |c: u32| -> (s: TokenStyle)
        ensures
            s == bold(c),
        { TokenStyle { color: c, bold: true, italic: false } };
    let i = |c: u32| -> (s: TokenStyle)
        ensures
            s == italic(c),
        { TokenStyle { color: c, bold: false, italic: true } };
    vec![
        ("comment", i(theme::TEXT_MUTED)),
        ("comment.documentation", i(theme::TEXT_SECONDARY)),
        ("keyword", b(theme::BLUE)),
        ("string", p(theme::GREEN)),
        ("string.special", p(theme::TEAL)),
        ("string.special.key", p(theme::SAPPHIRE)),
        ("number", p(theme::PEACH)),
        ("boolean", b(theme::BLUE)),
        ("escape", p(theme::PEACH)),
        ("type", p(theme::TEAL)),
        ("type.builtin", b(theme::TEAL)),
        ("function", p(theme::YELLOW)),
        ("function.builtin", b(theme::YELLOW)),
        ("function.method", p(theme::YELLOW)),
        ("function.macro", b(theme::TEAL)),
        ("variable", p(theme::SAPPHIRE)),
        ("variable.builtin", i(theme::RED)),
        ("variable.parameter", p(theme::MAROON)),
        ("operator", p(theme::PINK)),
        ("punctuation", p(theme::TEXT_SECONDARY)),
        ("punctuation.bracket", p(theme::TEXT_SECONDARY)),
        ("punctuation.delimiter", p(theme::TEXT_SECONDARY)),
        ("punctuation.special", p(theme::TEAL)),
        ("property", p(theme::SKY)),
        ("constant", b(theme::PEACH)),
        ("constant.builtin", b(theme::PEACH)),
        ("constructor", b(theme::TEAL)),
        ("attribute", i(theme::YELLOW)),
        ("tag", p(theme::RED)),
        ("tag.error", p(theme::RED)),
        ("label", i(theme::SAPPHIRE)),
        ("namespace", p(theme::PINK)),
        ("embedded", p(theme::TEXT)),
    ]
}

/// The style of the capture at `index` of `capture_names`.
pub fn highlight_style_for_capture(index: usize, capture_names: &[String]) -> (s: TokenStyle)
    ensures
        s == capture_style(capture_names@, index as int),
{
    if index >= capture_names.len() {
        return TokenStyle { color: theme::TEXT, bold: false, italic: false };
    }
    let name = crate::text::chars_of(capture_names[index].as_str());
    let table = style_table();
    let mut k: usize = 0;
    assert(capture_styles().skip(0) =~= capture_styles());
    while k < table.len()
        invariant
            index < capture_names@.len(),
            name@ == capture_names@[index as int]@,
            k <= table@.len(),
            table@.len() == capture_styles().len(),
            forall|j: int| 0 <= j < table@.len() ==> (#[trigger] table@[j]).0@ == capture_styles()[j].0
                && table@[j].1 == capture_styles()[j].1,
            style_in(capture_styles(), name@) == style_in(capture_styles().skip(k as int), name@),
        decreases table@.len() - k,
    {
        assert(capture_styles().skip(k as int).drop_first() =~= capture_styles().skip(k + 1));
        let entry = table[k];
        if crate::text::chars_eq(&crate::text::chars_of(entry.0), &name) {
            return entry.1;
        }
        k += 1;
    }
    TokenStyle { color: theme::TEXT, bold: false, italic: false }
}

/// The capture names every language is configured with.
pub open spec fn common_capture_names() -> Seq<Seq<char>> {
    seq![
        "attribute"@, "boolean"@, "comment"@, "comment.documentation"@, "constant"@,
        "constant.builtin"@, "constructor"@, "embedded"@, "escape"@, "function"@,
        "function.builtin"@, "function.macro"@, "function.method"@, "keyword"@, "label"@,
        "namespace"@, "number"@, "operator"@, "property"@, "punctuation"@, "punctuation.bracket"@,
        "punctuation.delimiter"@, "punctuation.special"@, "string"@, "string.special"@,
        "string.special.key"@, "tag"@, "type"@, "type.builtin"@, "variable"@, "variable.builtin"@,
        "variable.parameter"@,
    ]
}

/// The views of a list of static strings.
pub open spec fn str_views(v: Seq<&'static str>) -> Seq<Seq<char>> {
    Seq::new(v.len(), |i: int| v[i]@)
}

/// The views of a list of strings.
pub open spec fn string_views(v: Seq<String>) -> Seq<Seq<char>> {
    Seq::new(v.len(), |i: int| v[i]@)
}

/// What a language is, apart from its grammar: its id, the file extensions
/// it is used for, the capture names its grammar adds, and its language
/// server.
#[derive(Debug, Clone, Copy)]
pub struct LanguageInfo {
    pub id: &'static str,
    pub extensions: &'static [&'static str],
    pub extra_capture_names: &'static [&'static str],
    pub lsp: Option<LspServerSpec>,
}

/// The capture names of a language: the common ones, then its own.
pub fn capture_names_for(config: &LanguageInfo) -> (names: Vec<String>)
    ensures
        string_views(names@) == common_capture_names() + str_views(config.extra_capture_names@),
{
    let common: Vec<&'static str> = vec![
        "attribute", "boolean", "comment", "comment.documentation", "constant", "constant.builtin",
        "constructor", "embedded", "escape", "function", "function.builtin", "function.macro",
        "function.method", "keyword", "label", "namespace", "number", "operator", "property",
        "punctuation", "punctuation.bracket", "punctuation.delimiter", "punctuation.special", "string",
        "string.special", "string.special.key", "tag", "type", "type.builtin", "variable",
        "variable.builtin", "variable.parameter",
    ];
    assert(str_views(common@) =~= common_capture_names());
    let mut names: Vec<String> = Vec::new();
    let mut i: usize = 0;
    while i < common.len()
        invariant
            i <= common@.len(),
            string_views(names@) == str_views(common@).take(i as int),
        decreases common@.len() - i,
    {
        let ghost prev = names@;
        assert(string_views(prev).len() == prev.len());
        let s = common[i].to_owned();
        names.push(s);
        i += 1;
        assert forall|j: int| 0 <= j < i implies string_views(names@)[j] == str_views(common@).take(i as int)[j] by {
            if j < i - 1 {
                assert(names@[j] == prev[j]);
                assert(string_views(prev)[j] == str_views(common@).take(i - 1)[j]);
            }
        }
        assert(string_views(names@) =~= str_views(common@).take(i as int));
    }
    assert(str_views(common@).take(i as int) =~= common_capture_names());
    let extra = config.extra_capture_names;
    let mut k: usize = 0;
    while k < extra.len()
        invariant
            k <= extra@.len(),
            extra@ == config.extra_capture_names@,
            string_views(names@) == common_capture_names() + str_views(extra@).take(k as int),
        decreases extra@.len() - k,
    {
        let ghost prev = names@;
        assert(string_views(prev).len() == prev.len());
        let s = extra[k].to_owned();
        names.push(s);
        k += 1;
        assert forall|j: int| 0 <= j < names@.len() implies string_views(names@)[j]
            == (common_capture_names() + str_views(extra@).take(k as int))[j] by {
            if j < names@.len() - 1 {
                assert(names@[j] == prev[j]);
                assert(string_views(prev)[j] == (common_capture_names() + str_views(extra@).take(k - 1))[j]);
            }
        }
        assert(string_views(names@) =~= common_capture_names() + str_views(extra@).take(k as int));
    }
    assert(str_views(extra@).take(k as int) =~= str_views(extra@));
    names
}

/// A language's id, extensions, extra capture names and language server
/// command, as values.
pub open spec fn language_row(l: LanguageInfo) -> (Seq<char>, Seq<Seq<char>>, Seq<Seq<char>>, Option<Seq<char>>) {
    (l.id@, str_views(l.extensions@), str_views(l.extra_capture_names@), match l.lsp {
        Some(s) => Some(s.command@),
        None => None,
    })
}

/// The rows of some languages.
pub open spec fn language_rows(v: Seq<LanguageInfo>) -> Seq<(Seq<char>, Seq<Seq<char>>, Seq<Seq<char>>, Option<Seq<char>>)> {
    Seq::new(v.len(), |i: int| language_row(v[i]))
}

/// The built-in languages in the order they are tried: id, extensions,
/// extra capture names, and the command of the language server.
pub open spec fn builtin_language_rows() -> Seq<(Seq<char>, Seq<Seq<char>>, Seq<Seq<char>>, Option<Seq<char>>)> {
    seq![
        ("rust"@, seq!["rs"@], Seq::empty(), Some("rust-analyzer"@)),
        ("typescript"@, seq!["ts"@, "mts"@, "cts"@], Seq::empty(), Some("typescript-language-server"@)),
        ("typescriptreact"@, seq!["tsx"@], Seq::empty(), Some("typescript-language-server"@)),
        ("javascriptreact"@, seq!["jsx"@], Seq::empty(), Some("typescript-language-server"@)),
        ("javascript"@, seq!["js"@, "mjs"@, "cjs"@], Seq::empty(), Some("typescript-language-server"@)),
        ("python"@, seq!["py"@], Seq::empty(), Some("pyright-langserver"@)),
        ("bash"@, seq!["sh"@, "bash"@], Seq::empty(), None),
        ("toml"@, seq!["toml"@], Seq::empty(), None),
        ("css"@, seq!["css"@, "scss"@], Seq::empty(), None),
        ("html"@, seq!["html"@, "htm"@], seq!["tag.error"@], None),
    ]
}

/// The language server used for TypeScript and JavaScript.
fn typescript_server() -> (s: LspServerSpec)
    ensures
        s.command@ == "typescript-language-server"@,
{
    LspServerSpec {
        server_id: "typescript-language-server",
        command: "typescript-language-server",
        args: &["--stdio"],
        language_id: None,
    }
}

/// A language without extra capture names.
fn language(
    id: &'static str,
    extensions: &'static [&'static str],
    lsp: Option<LspServerSpec>,
) -> (l: LanguageInfo)
    ensures
        l.id == id,
        l.extensions == extensions,
        l.extra_capture_names@.len() == 0,
        l.lsp == lsp,
{
    let none: &'static [&'static str] = &[];
    LanguageInfo { id, extensions, extra_capture_names: none, lsp }
}

/// The built-in languages, in the order they are tried.
pub fn builtin_languages() -> (v: Vec<LanguageInfo>)
    ensures
        language_rows(v@) == builtin_language_rows(),
{
    let rust_server = LspServerSpec { server_id: "rust-analyzer", command: "rust-analyzer", args: &[], language_id: None };
    let python_server = LspServerSpec { server_id: "pyright", command: "pyright-langserver", args: &["--stdio"], language_id: None };
    let v = vec![
        language("rust", &["rs"], Some(rust_server)),
        language("typescript", &["ts", "mts", "cts"], Some(typescript_server())),
        language("typescriptreact", &["tsx"], Some(typescript_server())),
        language("javascriptreact", &["jsx"], Some(typescript_server())),
        language("javascript", &["js", "mjs", "cjs"], Some(typescript_server())),
        language("python", &["py"], Some(python_server)),
        language("bash", &["sh", "bash"], None),
        language("toml", &["toml"], None),
        language("css", &["css", "scss"], None),
        LanguageInfo { id: "html", extensions: &["html", "htm"], extra_capture_names: &["tag.error"], lsp: None },
    ];
    proof {
        assert(str_views(v@[0].extensions@) =~= seq!["rs"@]);
        assert(str_views(v@[0].extra_capture_names@) =~= Seq::<Seq<char>>::empty());
        assert(language_row(v@[0]) == builtin_language_rows()[0]);
        assert(str_views(v@[1].extensions@) =~= seq!["ts"@, "mts"@, "cts"@]);
        assert(str_views(v@[1].extra_capture_names@) =~= Seq::<Seq<char>>::empty());
        assert(language_row(v@[1]) == builtin_language_rows()[1]);
        assert(str_views(v@[2].extensions@) =~= seq!["tsx"@]);
        assert(str_views(v@[2].extra_capture_names@) =~= Seq::<Seq<char>>::empty());
        assert(language_row(v@[2]) == builtin_language_rows()[2]);
        assert(str_views(v@[3].extensions@) =~= seq!["jsx"@]);
        assert(str_views(v@[3].extra_capture_names@) =~= Seq::<Seq<char>>::empty());
        assert(language_row(v@[3]) == builtin_language_rows()[3]);
        assert(str_views(v@[4].extensions@) =~= seq!["js"@, "mjs"@, "cjs"@]);
        assert(str_views(v@[4].extra_capture_names@) =~= Seq::<Seq<char>>::empty());
        assert(language_row(v@[4]) == builtin_language_rows()[4]);
        assert(str_views(v@[5].extensions@) =~= seq!["py"@]);
        assert(str_views(v@[5].extra_capture_names@) =~= Seq::<Seq<char>>::empty());
        assert(language_row(v@[5]) == builtin_language_rows()[5]);
        assert(str_views(v@[6].extensions@) =~= seq!["sh"@, "bash"@]);
        assert(str_views(v@[6].extra_capture_names@) =~= Seq::<Seq<char>>::empty());
        assert(language_row(v@[6]) == builtin_language_rows()[6]);
        assert(str_views(v@[7].extensions@) =~= seq!["toml"@]);
        assert(str_views(v@[7].extra_capture_names@) =~= Seq::<Seq<char>>::empty());
        assert(language_row(v@[7]) == builtin_language_rows()[7]);
        assert(str_views(v@[8].extensions@) =~= seq!["css"@, "scss"@]);
        assert(str_views(v@[8].extra_capture_names@) =~= Seq::<Seq<char>>::empty());
        assert(language_row(v@[8]) == builtin_language_rows()[8]);
        assert(str_views(v@[9].extensions@) =~= seq!["html"@, "htm"@]);
        assert(str_views(v@[9].extra_capture_names@) =~= seq!["tag.error"@]);
        assert(language_row(v@[9]) == builtin_language_rows()[9]);
    }
    assert(language_rows(v@) =~= builtin_language_rows());
    v
}

/// The last position of `c` in `s`.
pub open spec fn last_pos(s: Seq<char>, c: char) -> Option<int>
    decreases s.len(),
{
    if s.len() == 0 {
        None
    } else if s.last() == c {
        Some(s.len() - 1)
    } else {
        last_pos(s.drop_last(), c)
    }
}

/// `Path::extension`: what follows the last `.` of the file name, unless
/// the name has no `.` or only a leading one.
pub open spec fn extension_of(path: Seq<char>) -> Option<Seq<char>> {
    match file_name_of(path) {
        None => None,
        Some(name) => match last_pos(name, '.') {
            Some(k) => if k > 0 { Some(name.skip(k + 1)) } else { None },
            None => None,
        },
    }
}

/// The extension of a path.
pub fn extension(path: &str) -> (r: Option<String>)
    ensures
        match extension_of(path@) {
            Some(e) => r is Some && r->0@ == e,
            None => r is None,
        },
{
    let name = match crate::path::file_name(&crate::text::chars_of(path)) {
        Some(n) => n,
        None => {
            return None;
        },
    };
    let mut i = name.len();
    assert(name@.take(i as int) =~= name@);
    while i > 0
        invariant
            i <= name@.len(),
            file_name_of(path@) == Some(name@),
            last_pos(name@, '.') == last_pos(name@.take(i as int), '.'),
        decreases i,
    {
        assert(name@.take(i as int).drop_last() =~= name@.take(i - 1));
        if name[i - 1] == '.' {
            assert(last_pos(name@.take(i as int), '.') == Some(i - 1));
            if i - 1 > 0 {
                assert(name@.skip(i as int) =~= name@.subrange(i as int, name@.len() as int));
                return Some(crate::text::string_from_chars(&crate::text::slice_chars(&name, i, name.len())));
            } else {
                return None;
            }
        }
        i -= 1;
    }
    None
}

/// Whether `ext` is one of `exts`, ignoring ASCII case.
pub open spec fn has_extension(exts: Seq<&'static str>, ext: Seq<char>) -> bool {
    exists|i: int| 0 <= i < exts.len() && eq_ignore_ascii_case(#[trigger] exts[i]@, ext)
}

/// The index of the first language used for files with extension `ext`.
pub open spec fn language_for(langs: Seq<LanguageInfo>, ext: Seq<char>) -> Option<int>
    decreases langs.len(),
{
    if langs.len() == 0 {
        None
    } else {
        match language_for(langs.drop_last(), ext) {
            Some(i) => Some(i),
            None => if has_extension(langs.last().extensions@, ext) { Some(langs.len() - 1) } else { None },
        }
    }
}

/// The first language is the first with the extension.
pub proof fn lemma_language_for(langs: Seq<LanguageInfo>, ext: Seq<char>)
    ensures
        match language_for(langs, ext) {
            Some(i) => 0 <= i < langs.len() && has_extension(langs[i].extensions@, ext)
                && forall|j: int| 0 <= j < i ==> !has_extension(#[trigger] langs[j].extensions@, ext),
            None => forall|j: int| 0 <= j < langs.len() ==> !has_extension(#[trigger] langs[j].extensions@, ext),
        },
    decreases langs.len(),
{
    if langs.len() > 0 {
        lemma_language_for(langs.drop_last(), ext);
        assert forall|j: int| 0 <= j < langs.len() - 1 implies langs.drop_last()[j] == langs[j] by {}
    }
}

/// The languages a file can be highlighted in.
pub struct LanguageRegistry {
    pub languages: Vec<LanguageInfo>,
}

/// Whether one of `exts` equals `ext` ignoring ASCII case.
fn extension_matches(exts: &[&'static str], ext: &[char]) -> (r: bool)
    ensures
        r == has_extension(exts@, ext@),
{
    let mut i: usize = 0;
    while i < exts.len()
        invariant
            i <= exts@.len(),
            forall|j: int| 0 <= j < i ==> !eq_ignore_ascii_case(#[trigger] exts@[j]@, ext@),
        decreases exts@.len() - i,
    {
        if crate::lsp::chars_eq_ignore_ascii_case(&crate::text::chars_of(exts[i]), ext) {
            return true;
        }
        i += 1;
    }
    false
}

impl LanguageRegistry {
    /// The registry of the built-in languages.
    pub fn new() -> (r: Self)
        ensures
            language_rows(r.languages@) == builtin_language_rows(),
    {
        LanguageRegistry { languages: builtin_languages() }
    }

    /// The language of a file: the first whose extensions include the
    /// file's extension, ignoring ASCII case.
    pub fn detect(&self, path: &str) -> (r: Option<&LanguageInfo>)
        ensures
            match extension_of(path@) {
                None => r is None,
                Some(e) => match language_for(self.languages@, e) {
                    Some(i) => r is Some && *r->0 == self.languages@[i],
                    None => r is None,
                },
            },
    {
        let ext = match extension(path) {
            Some(e) => crate::text::chars_of(e.as_str()),
            None => {
                return None;
            },
        };
        let ghost e = ext@;
        proof {
            lemma_language_for(self.languages@, e);
        }
        let mut i: usize = 0;
        while i < self.languages.len()
            invariant
                ext@ == e,
                extension_of(path@) == Some(e),
                i <= self.languages@.len(),
                forall|j: int| 0 <= j < i ==> !has_extension(#[trigger] self.languages@[j].extensions@, e),
            decreases self.languages@.len() - i,
        {
            if extension_matches(self.languages[i].extensions, &ext) {
                proof {
                    lemma_language_for(self.languages@, e);
                    match language_for(self.languages@, e) {
                        Some(k) => {
                            if k < i {
                                assert(!has_extension(self.languages@[k].extensions@, e));
                            }
                            if k > i {
                                assert(!has_extension(self.languages@[i as int].extensions@, e));
                            }
                        },
                        None => {
                            assert(!has_extension(self.languages@[i as int].extensions@, e));
                        },
                    }
                }
                return Some(&self.languages[i]);
            }
            i += 1;
        }
        None
    }
}

} // verus!
