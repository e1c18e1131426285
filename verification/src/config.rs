//! Persisted user preferences in a hand-editable TOML file.
//!
//! The file holds the editor settings (theme, format-on-save flags) plus a
//! section per language declaring its LSP server / formatter / linter commands.
//! Each language is a top-level table keyed by its name. There are no in-code
//! language fallbacks: the file is seeded once with `seed` when it doesn't
//! exist yet, and from then on the languages come only from what it declares.

use vstd::prelude::*;
use crate::chars;
use toml::Value;

verus! {

/// The theme selected out of the box.
pub open spec fn default_theme_spec() -> Seq<char> {
    "base16-ocean.dark"@
}

/// The theme selected out of the box.
pub fn default_theme() -> (r: &'static str)
    ensures
        r@ == default_theme_spec(),
{
    "base16-ocean.dark"
}

/// A language's tooling as plain text: extensions, LSP, formatter, linter.
pub type LangView = (Seq<Seq<char>>, Seq<char>, Seq<char>, Seq<char>);

/// A single language's tooling, as written in its `[<name>]` section. The
/// command fields are shell-style strings ("" = disabled).
#[derive(Debug, Clone)]
pub struct LanguageConfig {
    /// File extensions (without the dot) this language claims.
    pub extensions: Vec<String>,
    /// Language server command, e.g. "rust-analyzer" ("" = none).
    pub lsp: String,
    /// Standalone formatter command (stdin -> stdout), e.g. "black - -q".
    pub formatter: String,
    /// Standalone linter command (stdin -> stdout diagnostics).
    pub linter: String,
}

impl View for LanguageConfig {
    type V = LangView;

    open spec fn view(&self) -> LangView {
        (self.extensions.deep_view(), self.lsp@, self.formatter@, self.linter@)
    }
}

/// A language with nothing configured.
pub open spec fn empty_lang() -> LangView {
    (Seq::empty(), Seq::empty(), Seq::empty(), Seq::empty())
}

impl Default for LanguageConfig {
    fn default() -> (r: Self)
        ensures
            r@ == empty_lang(),
    {
        let r = LanguageConfig {
            extensions: Vec::new(),
            lsp: String::new(),
            formatter: String::new(),
            linter: String::new(),
        };
        assert(r.extensions.deep_view() =~= Seq::<Seq<char>>::empty());
        r
    }
}

/// User preferences serialized to the config file.
#[derive(Debug, Clone)]
pub struct Config {
    /// Selected theme name.
    pub theme: String,
    /// Run the enabled format actions when saving.
    pub format_on_save: bool,
    /// Run the language formatter after a paste (off by default).
    pub format_on_paste: bool,
    /// Strip trailing whitespace on save.
    pub trim_trailing_whitespace: bool,
    /// Ensure a single final newline on save.
    pub insert_final_newline: bool,
    /// Append LSP error/warning messages at the end of their line.
    pub inline_diagnostics: bool,
    /// Use plain ASCII glyphs instead of Nerd Font / Codicon icons.
    pub ascii_icons: bool,
    /// Language tooling, keyed by language name (the `[<name>]` section); no
    /// name occurs twice.
    pub languages: Vec<(String, LanguageConfig)>,
}

/// The languages of a config as plain text, in order.
pub open spec fn langs_of(c: Config) -> Seq<(Seq<char>, LangView)> {
    c.languages@.map_values(|p: (String, LanguageConfig)| (p.0@, p.1@))
}

/// Index of the first language named `name`.
pub open spec fn key_index(langs: Seq<(Seq<char>, LangView)>, name: Seq<char>, i: int) -> Option<int>
    decreases langs.len() - i,
{
    if i < 0 || i >= langs.len() {
        None
    } else if langs[i].0 == name {
        Some(i)
    } else {
        key_index(langs, name, i + 1)
    }
}

/// No language name occurs twice.
pub open spec fn keys_unique(langs: Seq<(Seq<char>, LangView)>) -> bool {
    forall|i: int, j: int| 0 <= i < j < langs.len() ==> langs[i].0 != langs[j].0
}

/// The settings a fresh config has (the languages aside).
pub open spec fn default_settings(c: Config) -> bool {
    &&& c.theme@ == default_theme_spec()
    &&& !c.format_on_save
    &&& !c.format_on_paste
    &&& c.trim_trailing_whitespace
    &&& c.insert_final_newline
    &&& c.inline_diagnostics
    &&& !c.ascii_icons
}

impl Default for Config {
    fn default() -> (r: Self)
        ensures
            default_settings(r),
            langs_of(r).len() == 0,
            keys_unique(langs_of(r)),
    {
        Config {
            theme: chars::str_to_string(default_theme()),
            format_on_save: false,
            format_on_paste: false,
            trim_trailing_whitespace: true,
            insert_final_newline: true,
            inline_diagnostics: true,
            ascii_icons: false,
            // No languages by default; they live in the file (see `seed`).
            languages: Vec::new(),
        }
    }
}

impl Config {
    /// The tooling configured for language `name`.
    pub fn language(&self, name: &str) -> (r: Option<&LanguageConfig>)
        ensures
            match key_index(langs_of(*self), name@, 0) {
                None => r is None,
                Some(i) => r matches Some(l) && *l == self.languages@[i].1,
            },
    {
        let ghost ls = langs_of(*self);
        let mut i: usize = 0;
        while i < self.languages.len()
            invariant
                ls == langs_of(*self),
                i <= self.languages@.len(),
                key_index(ls, name@, i as int) == key_index(ls, name@, 0),
            decreases self.languages.len() - i,
        {
            if chars::same_text(self.languages[i].0.as_str(), name) {
                return Some(&self.languages[i].1);
            }
            i += 1;
        }
        None
    }

    /// Whether a language named `name` is configured.
    pub fn has_language(&self, name: &str) -> (r: bool)
        ensures
            r == key_index(langs_of(*self), name@, 0) is Some,
    {
        self.language(name).is_some()
    }
}

/// The starter languages the config file is seeded with.
pub open spec fn seed_langs() -> Seq<(Seq<char>, LangView)> {
    seq![
        ("python"@, (seq!["py"@, "pyi"@], "ruff server"@, "ruff format -"@, Seq::<char>::empty())),
        ("rust"@, (seq!["rs"@], "rust-analyzer"@, "rustfmt --edition 2021"@, Seq::<char>::empty())),
    ]
}

/// A language with the given extensions, LSP and formatter, and no linter.
fn lang(exts: Vec<String>, lsp: &str, formatter: &str) -> (r: LanguageConfig)
    ensures
        r@ == (exts.deep_view(), lsp@, formatter@, Seq::<char>::empty()),
{
    LanguageConfig {
        extensions: exts,
        lsp: chars::str_to_string(lsp),
        formatter: chars::str_to_string(formatter),
        linter: String::new(),
    }
}

/// The config written to disk the first time it is missing: editor defaults
/// plus starter language sections. This is the only place language tooling is
/// hardcoded, and only to materialize an editable file — never a live fallback.
pub fn seed() -> (r: Config)
    ensures
        default_settings(r),
        langs_of(r) == seed_langs(),
        keys_unique(langs_of(r)),
{
    proof {
        reveal_strlit("python");
        reveal_strlit("rust");
        assert("python"@.len() != "rust"@.len());
    }
    let py_exts = vec![chars::str_to_string("py"), chars::str_to_string("pyi")];
    let rs_exts = vec![chars::str_to_string("rs")];
    assert(py_exts.deep_view() =~= seq!["py"@, "pyi"@]);
    assert(rs_exts.deep_view() =~= seq!["rs"@]);
    let python = lang(py_exts, "ruff server", "ruff format -");
    let rust = lang(rs_exts, "rust-analyzer", "rustfmt --edition 2021");
    let mut cfg = Config::default();
    cfg.languages.push((chars::str_to_string("python"), python));
    cfg.languages.push((chars::str_to_string("rust"), rust));
    assert(langs_of(cfg) =~= seed_langs());
    cfg
}

// ----- reading the file -----

/// One entry of a language section as the file reader sees it: its name, its
/// text when it is a string, and its items (each its text when a string) when
/// it is an array.
pub type TomlField = (String, Option<String>, Option<Vec<Option<String>>>);

/// One top-level entry: its key, its text when it is a string, its value when
/// it is a boolean, its entries when it is a table, and the whole value as
/// text (its `Debug` form).
pub type TomlEntry = (String, Option<String>, Option<bool>, Option<Vec<TomlField>>, String);

pub type TomlFieldView = (Seq<char>, Option<Seq<char>>, Option<Seq<Option<Seq<char>>>>);

pub type TomlEntryView = (Seq<char>, Option<Seq<char>>, Option<bool>, Option<Seq<TomlFieldView>>, Seq<char>);

/// What a setting reads as: an entry without the text of its value.
pub type TomlReading = (Seq<char>, Option<Seq<char>>, Option<bool>, Option<Seq<TomlFieldView>>);

/// An entry as a setting reads it.
pub open spec fn reading(e: TomlEntryView) -> TomlReading {
    (e.0, e.1, e.2, e.3)
}

/// The top-level entries of a TOML document, reduced as `TomlEntry` says, in
/// the parser's order; `None` when `toml` does not accept the text. Both
/// settings files (config and shortcuts) are read through it.
pub uninterp spec fn toml_config_of(text: Seq<char>) -> Option<Seq<TomlEntryView>>;

/// `str::parse::<toml::Table>`, each value reduced to what the settings
/// files are read for. The result is named `toml_config_of`.
#[verifier::external_body]
pub(crate) fn toml_config_entries(text: &str) -> (r: Option<Vec<TomlEntry>>)
    ensures
        r.deep_view() == toml_config_of(text@),
{
    let table = text.parse::<toml::Table>().ok()?;
    let text_of = |v: &toml::Value| v.as_str().map(|s| s.to_string());
    Some(table.iter().map(|(k, v)| (k.clone(), text_of(v), v.as_bool(), v.as_table().map(|t| {
        t.iter().map(|(n, f)| (n.clone(), text_of(f), f.as_array().map(|a| a.iter().map(text_of).collect()))).collect()
    }), format!("{v:?}"))).collect())
}

/// The texts of `items` when every item is a string.
pub open spec fn all_texts(items: Seq<Option<Seq<char>>>) -> Option<Seq<Seq<char>>>
    decreases items.len(),
{
    if items.len() == 0 {
        Some(Seq::empty())
    } else {
        match (all_texts(items.drop_last()), items.last()) {
            (Some(xs), Some(x)) => Some(xs.push(x)),
            _ => None,
        }
    }
}

/// Reading one field of a language section: `extensions` must be an array of
/// strings and `lsp` / `formatter` / `linter` strings (else the section is
/// rejected); other fields are ignored.
pub open spec fn apply_field(l: Option<LangView>, f: TomlFieldView) -> Option<LangView> {
    match l {
        None => None,
        Some((e, lsp, fm, li)) => {
            let (name, text, items) = f;
            if name == "extensions"@ {
                match items {
                    Some(xs) => match all_texts(xs) {
                        Some(ts) => Some((ts, lsp, fm, li)),
                        None => None,
                    },
                    None => None,
                }
            } else if name == "lsp"@ {
                match text {
                    Some(x) => Some((e, x, fm, li)),
                    None => None,
                }
            } else if name == "formatter"@ {
                match text {
                    Some(x) => Some((e, lsp, x, li)),
                    None => None,
                }
            } else if name == "linter"@ {
                match text {
                    Some(x) => Some((e, lsp, fm, x)),
                    None => None,
                }
            } else {
                Some((e, lsp, fm, li))
            }
        },
    }
}

/// A language section read field by field from the empty language; `None`
/// when a field has the wrong type.
pub open spec fn lang_from_fields(fs: Seq<TomlFieldView>) -> Option<LangView>
    decreases fs.len(),
{
    if fs.len() == 0 {
        Some(empty_lang())
    } else {
        apply_field(lang_from_fields(fs.drop_last()), fs.last())
    }
}

/// The top-level keys that are editor settings, not language sections.
pub open spec fn is_setting_key(k: Seq<char>) -> bool {
    k == "theme"@ || k == "format_on_save"@ || k == "format_on_paste"@ || k
        == "trim_trailing_whitespace"@ || k == "insert_final_newline"@ || k == "inline_diagnostics"@
        || k == "ascii_icons"@
}

/// `langs` with `name` set to `l`: replaced where present, else appended.
pub open spec fn map_insert(langs: Seq<(Seq<char>, LangView)>, name: Seq<char>, l: LangView) -> Seq<(Seq<char>, LangView)> {
    match key_index(langs, name, 0) {
        Some(i) => langs.update(i, (name, l)),
        None => langs.push((name, l)),
    }
}

/// The languages a document declares: every table that is not a setting and
/// reads as a language, in order.
pub open spec fn langs_from(entries: Seq<TomlEntryView>) -> Seq<(Seq<char>, LangView)>
    decreases entries.len(),
{
    if entries.len() == 0 {
        Seq::empty()
    } else {
        let prev = langs_from(entries.drop_last());
        let (k, _, _, table, _) = entries.last();
        if is_setting_key(k) {
            prev
        } else {
            match table {
                Some(fs) => match lang_from_fields(fs) {
                    Some(l) => map_insert(prev, k, l),
                    None => prev,
                },
                None => prev,
            }
        }
    }
}

proof fn lemma_key_index(langs: Seq<(Seq<char>, LangView)>, name: Seq<char>, i: int)
    requires
        0 <= i <= langs.len(),
    ensures
        match key_index(langs, name, i) {
            Some(k) => i <= k < langs.len() && langs[k].0 == name,
            None => forall|j: int| i <= j < langs.len() ==> langs[j].0 != name,
        },
    decreases langs.len() - i,
{
    if i < langs.len() {
        lemma_key_index(langs, name, i + 1);
    }
}

/// Setting a language keeps the names distinct, and names only what was
/// named before plus `name`.
proof fn lemma_map_insert(langs: Seq<(Seq<char>, LangView)>, name: Seq<char>, l: LangView)
    requires
        keys_unique(langs),
    ensures
        keys_unique(map_insert(langs, name, l)),
        forall|i: int| 0 <= i < map_insert(langs, name, l).len() ==> (#[trigger] map_insert(langs, name, l)[i]).0
            == name || exists|j: int| 0 <= j < langs.len() && langs[j].0 == map_insert(langs, name, l)[i].0,
{
    lemma_key_index(langs, name, 0);
    let r = map_insert(langs, name, l);
    assert forall|i: int| 0 <= i < r.len() implies (#[trigger] r[i]).0 == name || exists|j: int|
        0 <= j < langs.len() && langs[j].0 == r[i].0 by {
        if r[i].0 != name {
            assert(langs[i].0 == r[i].0);
        }
    }
}

/// The languages a document declares all come from its own tables, each name
/// once: a file with no language sections yields no languages.
pub proof fn law_languages_come_from_the_file(es: Seq<TomlEntryView>)
    ensures
        keys_unique(langs_from(es)),
        forall|i: int| 0 <= i < langs_from(es).len() ==> exists|j: int| 0 <= j < es.len()
            && es[j].0 == (#[trigger] langs_from(es)[i]).0 && !is_setting_key(es[j].0) && es[j].3 is Some,
        (forall|j: int| 0 <= j < es.len() ==> (#[trigger] es[j]).3 is None) ==> langs_from(es).len() == 0,
    decreases es.len(),
{
    if es.len() > 0 {
        let prev_es = es.drop_last();
        law_languages_come_from_the_file(prev_es);
        let prev = langs_from(prev_es);
        let (k, _, _, table, _) = es.last();
        assert forall|j: int| 0 <= j < prev_es.len() implies #[trigger] prev_es[j] == es[j] by {}
        if !is_setting_key(k) && table is Some && lang_from_fields(table->0) is Some {
            let l = lang_from_fields(table->0)->0;
            lemma_map_insert(prev, k, l);
            let r = langs_from(es);
            assert(r == map_insert(prev, k, l));
            assert forall|i: int| 0 <= i < r.len() implies exists|j: int| 0 <= j < es.len() && es[j].0
                == (#[trigger] r[i]).0 && !is_setting_key(es[j].0) && es[j].3 is Some by {
                if r[i].0 == k {
                    assert(es[es.len() - 1].0 == r[i].0);
                } else {
                    let j0 = choose|j: int| 0 <= j < prev.len() && prev[j].0 == r[i].0;
                    let j1 = choose|j: int| 0 <= j < prev_es.len() && prev_es[j].0 == (#[trigger] prev[j0]).0
                        && !is_setting_key(prev_es[j].0) && prev_es[j].3 is Some;
                    assert(es[j1] == prev_es[j1]);
                }
            }
        } else {
            assert(langs_from(es) == prev);
            assert forall|i: int| 0 <= i < prev.len() implies exists|j: int| 0 <= j < es.len() && es[j].0
                == (#[trigger] prev[i]).0 && !is_setting_key(es[j].0) && es[j].3 is Some by {
                let j1 = choose|j: int| 0 <= j < prev_es.len() && prev_es[j].0 == prev[i].0 && !is_setting_key(
                    prev_es[j].0,
                ) && prev_es[j].3 is Some;
                assert(es[j1] == prev_es[j1]);
            }
        }
        if forall|j: int| 0 <= j < es.len() ==> (#[trigger] es[j]).3 is None {
            assert forall|j: int| 0 <= j < prev_es.len() implies (#[trigger] prev_es[j]).3 is None by {
                assert(es[j] == prev_es[j]);
            }
            assert(es[es.len() - 1].3 is None);
        }
    }
}

/// Index of the first entry keyed `key`.
pub open spec fn entry_index(entries: Seq<TomlEntryView>, key: Seq<char>, i: int) -> Option<int>
    decreases entries.len() - i,
{
    if i < 0 || i >= entries.len() {
        None
    } else if entries[i].0 == key {
        Some(i)
    } else {
        entry_index(entries, key, i + 1)
    }
}

/// The boolean setting `key`, or `dflt` when absent or not a boolean.
pub open spec fn bool_setting(entries: Seq<TomlEntryView>, key: Seq<char>, dflt: bool) -> bool {
    match entry_index(entries, key, 0) {
        Some(i) => match entries[i].2 {
            Some(b) => b,
            None => dflt,
        },
        None => dflt,
    }
}

/// The theme setting, or the default when absent or not a string.
pub open spec fn theme_setting(entries: Seq<TomlEntryView>) -> Seq<char> {
    match entry_index(entries, "theme"@, 0) {
        Some(i) => match entries[i].1 {
            Some(t) => t,
            None => default_theme_spec(),
        },
        None => default_theme_spec(),
    }
}

/// `c` is what the entries of a parsed document give: each setting read with
/// its default as fallback, and the languages the document declares.
pub open spec fn config_from(c: Config, entries: Seq<TomlEntryView>) -> bool {
    &&& c.theme@ == theme_setting(entries)
    &&& c.format_on_save == bool_setting(entries, "format_on_save"@, false)
    &&& c.format_on_paste == bool_setting(entries, "format_on_paste"@, false)
    &&& c.trim_trailing_whitespace == bool_setting(entries, "trim_trailing_whitespace"@, true)
    &&& c.insert_final_newline == bool_setting(entries, "insert_final_newline"@, true)
    &&& c.inline_diagnostics == bool_setting(entries, "inline_diagnostics"@, true)
    &&& c.ascii_icons == bool_setting(entries, "ascii_icons"@, false)
    &&& langs_of(c) == langs_from(entries)
}

/// Index of the entry keyed `key`.
fn find_key(entries: &Vec<TomlEntry>, key: &str) -> (r: Option<usize>)
    ensures
        r is None <==> entry_index(entries.deep_view(), key@, 0) is None,
        r matches Some(i) ==> entry_index(entries.deep_view(), key@, 0) == Some(i as int) && i
            < entries@.len(),
{
    let ghost es = entries.deep_view();
    let mut i: usize = 0;
    while i < entries.len()
        invariant
            es == entries.deep_view(),
            i <= entries@.len(),
            entry_index(es, key@, i as int) == entry_index(es, key@, 0),
        decreases entries.len() - i,
    {
        assert(es[i as int].0 == entries@[i as int].0@);
        if chars::same_text(entries[i].0.as_str(), key) {
            return Some(i);
        }
        i += 1;
    }
    None
}

fn bool_setting_of(entries: &Vec<TomlEntry>, key: &str, dflt: bool) -> (r: bool)
    ensures
        r == bool_setting(entries.deep_view(), key@, dflt),
{
    match find_key(entries, key) {
        Some(i) => {
            assert(entries.deep_view()[i as int].2 == entries@[i as int].2);
            match entries[i].2 {
                Some(b) => b,
                None => dflt,
            }
        },
        None => dflt,
    }
}

fn setting_key(k: &str) -> (r: bool)
    ensures
        r == is_setting_key(k@),
{
    chars::same_text(k, "theme") || chars::same_text(k, "format_on_save") || chars::same_text(
        k,
        "format_on_paste",
    ) || chars::same_text(k, "trim_trailing_whitespace") || chars::same_text(k, "insert_final_newline")
        || chars::same_text(k, "inline_diagnostics") || chars::same_text(k, "ascii_icons")
}

/// The texts of `items` when every item is a string.
fn texts_of(items: &Vec<Option<String>>) -> (r: Option<Vec<String>>)
    ensures
        match all_texts(items.deep_view()) {
            None => r is None,
            Some(ts) => r matches Some(v) && v.deep_view() == ts,
        },
{
    let ghost its = items.deep_view();
    let mut out: Vec<String> = Vec::new();
    let mut i: usize = 0;
    assert(its.take(0) =~= Seq::<Option<Seq<char>>>::empty());
    assert(out.deep_view() =~= Seq::<Seq<char>>::empty());
    while i < items.len()
        invariant
            its == items.deep_view(),
            i <= items@.len(),
            all_texts(its.take(i as int)) == Some(out.deep_view()),
        decreases items.len() - i,
    {
        assert(its.take(i + 1).drop_last() =~= its.take(i as int));
        match &items[i] {
            Some(s) => {
                assert(its[i as int] == Some(s@));
                let ghost before = out.deep_view();
                out.push(s.clone());
                assert(out.deep_view() =~= before.push(s@));
            },
            None => {
                assert(its[i as int] is None);
                proof {
                    lemma_all_texts_none(its, i as int + 1);
                }
                return None;
            },
        }
        i += 1;
    }
    assert(its.take(its.len() as int) =~= its);
    Some(out)
}

proof fn lemma_all_texts_none(items: Seq<Option<Seq<char>>>, k: int)
    requires
        0 <= k <= items.len(),
        all_texts(items.take(k)) is None,
    ensures
        all_texts(items) is None,
    decreases items.len() - k,
{
    if k < items.len() {
        assert(items.take(k + 1).drop_last() =~= items.take(k));
        lemma_all_texts_none(items, k + 1);
    } else {
        assert(items.take(k) =~= items);
    }
}

proof fn lemma_lang_none(fs: Seq<TomlFieldView>, k: int)
    requires
        0 <= k <= fs.len(),
        lang_from_fields(fs.take(k)) is None,
    ensures
        lang_from_fields(fs) is None,
    decreases fs.len() - k,
{
    if k < fs.len() {
        assert(fs.take(k + 1).drop_last() =~= fs.take(k));
        lemma_lang_none(fs, k + 1);
    } else {
        assert(fs.take(k) =~= fs);
    }
}

/// A language section read into a `LanguageConfig`; `None` when a field has
/// the wrong type.
fn lang_of_fields(fields: &Vec<TomlField>) -> (r: Option<LanguageConfig>)
    ensures
        match lang_from_fields(fields.deep_view()) {
            None => r is None,
            Some(l) => r matches Some(x) && x@ == l,
        },
{
    let ghost fs = fields.deep_view();
    let mut cur = LanguageConfig::default();
    let mut i: usize = 0;
    assert(fs.take(0) =~= Seq::<TomlFieldView>::empty());
    while i < fields.len()
        invariant
            fs == fields.deep_view(),
            i <= fields@.len(),
            lang_from_fields(fs.take(i as int)) == Some(cur@),
        decreases fields.len() - i,
    {
        assert(fs.take(i + 1).drop_last() =~= fs.take(i as int));
        let f = &fields[i];
        assert(fs[i as int] == (f.0@, f.1.deep_view(), f.2.deep_view()));
        let name = f.0.as_str();
        let mut ok = true;
        if chars::same_text(name, "extensions") {
            match &f.2 {
                Some(items) => match texts_of(items) {
                    Some(ts) => {
                        cur.extensions = ts;
                    },
                    None => {
                        ok = false;
                    },
                },
                None => {
                    ok = false;
                },
            }
        } else if chars::same_text(name, "lsp") {
            match &f.1 {
                Some(t) => {
                    cur.lsp = t.clone();
                },
                None => {
                    ok = false;
                },
            }
        } else if chars::same_text(name, "formatter") {
            match &f.1 {
                Some(t) => {
                    cur.formatter = t.clone();
                },
                None => {
                    ok = false;
                },
            }
        } else if chars::same_text(name, "linter") {
            match &f.1 {
                Some(t) => {
                    cur.linter = t.clone();
                },
                None => {
                    ok = false;
                },
            }
        }
        if !ok {
            proof {
                lemma_lang_none(fs, i as int + 1);
            }
            return None;
        }
        i += 1;
    }
    assert(fs.take(fs.len() as int) =~= fs);
    Some(cur)
}

/// Sets language `name` in `langs`: replaced where present, else appended.
fn insert_language(langs: &mut Vec<(String, LanguageConfig)>, name: String, l: LanguageConfig)
    ensures
        final(langs)@.map_values(|p: (String, LanguageConfig)| (p.0@, p.1@)) == map_insert(
            old(langs)@.map_values(|p: (String, LanguageConfig)| (p.0@, p.1@)),
            name@,
            l@,
        ),
{
    let ghost ls = old(langs)@.map_values(|p: (String, LanguageConfig)| (p.0@, p.1@));
    let mut i: usize = 0;
    while i < langs.len()
        invariant
            langs@ == old(langs)@,
            ls == old(langs)@.map_values(|p: (String, LanguageConfig)| (p.0@, p.1@)),
            i <= langs@.len(),
            key_index(ls, name@, i as int) == key_index(ls, name@, 0),
        decreases langs.len() - i,
    {
        if chars::same_text(langs[i].0.as_str(), name.as_str()) {
            let ghost nv = (name@, l@);
            langs.set(i, (name, l));
            assert(langs@.map_values(|p: (String, LanguageConfig)| (p.0@, p.1@)) =~= ls.update(i as int, nv));
            return;
        }
        i += 1;
    }
    let ghost nv = (name@, l@);
    langs.push((name, l));
    assert(langs@.map_values(|p: (String, LanguageConfig)| (p.0@, p.1@)) =~= ls.push(nv));
}

/// The config the top-level entries of a parsed document give (see `config_from`).
pub fn from_entries(entries: &Vec<TomlEntry>) -> (r: Config)
    ensures
        config_from(r, entries.deep_view()),
{
    let ghost es = entries.deep_view();
    let mut cfg = Config::default();
    if let Some(i) = find_key(entries, "theme") {
        assert(es[i as int].1 == entries@[i as int].1.deep_view());
        if let Some(t) = &entries[i].1 {
            cfg.theme = t.clone();
        }
    }
    cfg.format_on_save = bool_setting_of(entries, "format_on_save", false);
    cfg.format_on_paste = bool_setting_of(entries, "format_on_paste", false);
    cfg.trim_trailing_whitespace = bool_setting_of(entries, "trim_trailing_whitespace", true);
    cfg.insert_final_newline = bool_setting_of(entries, "insert_final_newline", true);
    cfg.inline_diagnostics = bool_setting_of(entries, "inline_diagnostics", true);
    cfg.ascii_icons = bool_setting_of(entries, "ascii_icons", false);
    let mut k: usize = 0;
    assert(es.take(0) =~= Seq::<TomlEntryView>::empty());
    assert(langs_of(cfg) =~= Seq::<(Seq<char>, LangView)>::empty());
    while k < entries.len()
        invariant
            es == entries.deep_view(),
            k <= entries@.len(),
            langs_of(cfg) == langs_from(es.take(k as int)),
            cfg.theme@ == theme_setting(es),
            cfg.format_on_save == bool_setting(es, "format_on_save"@, false),
            cfg.format_on_paste == bool_setting(es, "format_on_paste"@, false),
            cfg.trim_trailing_whitespace == bool_setting(es, "trim_trailing_whitespace"@, true),
            cfg.insert_final_newline == bool_setting(es, "insert_final_newline"@, true),
            cfg.inline_diagnostics == bool_setting(es, "inline_diagnostics"@, true),
            cfg.ascii_icons == bool_setting(es, "ascii_icons"@, false),
        decreases entries.len() - k,
    {
        assert(es.take(k + 1).drop_last() =~= es.take(k as int));
        let e = &entries[k];
        assert(es[k as int] == (e.0@, e.1.deep_view(), e.2, e.3.deep_view(), e.4@));
        if !setting_key(e.0.as_str()) {
            if let Some(fields) = &e.3 {
                if let Some(l) = lang_of_fields(fields) {
                    insert_language(&mut cfg.languages, e.0.clone(), l);
                }
            }
        }
        k += 1;
    }
    assert(es.take(es.len() as int) =~= es);
    cfg
}

/// Parses config text. Unknown scalar keys are ignored; every table becomes a
/// language section. A file with no language sections yields no languages — the
/// file is authoritative, nothing is injected. Unparseable text yields defaults.
pub fn parse(text: &str) -> (r: Config)
    ensures
        match toml_config_of(text@) {
            None => default_settings(r) && langs_of(r).len() == 0,
            Some(entries) => config_from(r, entries),
        },
        keys_unique(langs_of(r)),
{
    match toml_config_entries(text) {
        None => Config::default(),
        Some(entries) => {
            proof {
                law_languages_come_from_the_file(entries.deep_view());
            }
            from_entries(&entries)
        },
    }
}

/// The message of the error `str::parse::<toml::Table>` reports for `text`;
/// `None` exactly when the text is TOML. Nothing is stated of the message.
#[verifier::external_body]
fn toml_error_message(text: &str) -> (r: Option<String>)
    ensures
        r is None <==> toml_config_of(text@) is Some,
{
    text.parse::<toml::Table>().err().map(|e| e.message().to_string())
}

/// Reads the config file's text, or says why it cannot: `Err` with the TOML
/// parser's message exactly when the text is not TOML, else the config
/// `parse` reads.
pub fn parse_checked(text: &str) -> (r: Result<Config, String>)
    ensures
        r is Ok <==> toml_config_of(text@) is Some,
        r matches Ok(c) ==> config_from(c, toml_config_of(text@)->0) && keys_unique(langs_of(c)),
{
    match toml_config_entries(text) {
        None => Err(match toml_error_message(text) {
            Some(m) => m,
            None => chars::str_to_string("not valid TOML"),
        }),
        Some(entries) => {
            proof {
                law_languages_come_from_the_file(entries.deep_view());
            }
            Ok(from_entries(&entries))
        },
    }
}

// ----- writing the file -----

/// A value written into the config file: a string, a boolean, or a list of strings.
#[derive(Debug, Clone)]
pub enum TomlLeaf {
    Str(String),
    Bool(bool),
    List(Vec<String>),
}

/// A written value as plain text.
pub enum LeafView {
    Str(Seq<char>),
    Bool(bool),
    List(Seq<Seq<char>>),
}

impl View for TomlLeaf {
    type V = LeafView;

    open spec fn view(&self) -> LeafView {
        match self {
            TomlLeaf::Str(s) => LeafView::Str(s@),
            TomlLeaf::Bool(b) => LeafView::Bool(*b),
            TomlLeaf::List(xs) => LeafView::List(xs.deep_view()),
        }
    }
}

pub open spec fn leaves_view(v: Seq<(String, TomlLeaf)>) -> Seq<(Seq<char>, LeafView)> {
    v.map_values(|p: (String, TomlLeaf)| (p.0@, p.1@))
}

pub open spec fn tables_view(v: Seq<(String, Vec<(String, TomlLeaf)>)>) -> Seq<(Seq<char>, Seq<(Seq<char>, LeafView)>)> {
    v.map_values(|p: (String, Vec<(String, TomlLeaf)>)| (p.0@, leaves_view(p.1@)))
}

/// The text `toml::to_string_pretty` makes of a table holding the top-level
/// `scalars` and one sub-table per entry of `tables`; "" when it fails.
pub uninterp spec fn toml_pretty_text(
    scalars: Seq<(Seq<char>, LeafView)>,
    tables: Seq<(Seq<char>, Seq<(Seq<char>, LeafView)>)>,
) -> Seq<char>;

/// Builds the `toml::Table` of `scalars` and `tables` and pretty-prints it
/// (`toml::to_string_pretty`, "" on error). The result is named `toml_pretty_text`.
#[verifier::external_body]
fn toml_pretty(scalars: &Vec<(String, TomlLeaf)>, tables: &Vec<(String, Vec<(String, TomlLeaf)>)>) -> (r: String)
    ensures
        r@ == toml_pretty_text(leaves_view(scalars@), tables_view(tables@)),
{
    let leaf = |v: &TomlLeaf| match v {
        TomlLeaf::Str(s) => Value::String(s.clone()),
        TomlLeaf::Bool(b) => Value::Boolean(*b),
        TomlLeaf::List(xs) => Value::Array(xs.iter().cloned().map(Value::String).collect()),
    };
    let row = |(k, v): &(String, TomlLeaf)| (k.clone(), leaf(v));
    let mut t: toml::Table = scalars.iter().map(row).collect();
    t.extend(tables.iter().map(|(k, fs)| (k.clone(), Value::Table(fs.iter().map(row).collect()))));
    toml::to_string_pretty(&t).unwrap_or_default()
}

/// The settings of `c` as written: the theme, then the six flags in
/// declaration order.
pub open spec fn config_scalars(c: Config) -> Seq<(Seq<char>, LeafView)> {
    seq![
        ("theme"@, LeafView::Str(c.theme@)),
        ("format_on_save"@, LeafView::Bool(c.format_on_save)),
        ("format_on_paste"@, LeafView::Bool(c.format_on_paste)),
        ("trim_trailing_whitespace"@, LeafView::Bool(c.trim_trailing_whitespace)),
        ("insert_final_newline"@, LeafView::Bool(c.insert_final_newline)),
        ("inline_diagnostics"@, LeafView::Bool(c.inline_diagnostics)),
        ("ascii_icons"@, LeafView::Bool(c.ascii_icons)),
    ]
}

/// The section a language is written as.
pub open spec fn lang_fields(l: LangView) -> Seq<(Seq<char>, LeafView)> {
    seq![
        ("extensions"@, LeafView::List(l.0)),
        ("lsp"@, LeafView::Str(l.1)),
        ("formatter"@, LeafView::Str(l.2)),
        ("linter"@, LeafView::Str(l.3)),
    ]
}

/// The language sections of `c`, in order.
pub open spec fn config_tables(c: Config) -> Seq<(Seq<char>, Seq<(Seq<char>, LeafView)>)> {
    langs_of(c).map_values(|p: (Seq<char>, LangView)| (p.0, lang_fields(p.1)))
}

fn leaf_str(k: &str, v: &String) -> (r: (String, TomlLeaf))
    ensures
        r.0@ == k@,
        r.1@ == LeafView::Str(v@),
{
    (chars::str_to_string(k), TomlLeaf::Str(v.clone()))
}

fn leaf_bool(k: &str, b: bool) -> (r: (String, TomlLeaf))
    ensures
        r.0@ == k@,
        r.1@ == LeafView::Bool(b),
{
    (chars::str_to_string(k), TomlLeaf::Bool(b))
}

/// The fields of a language section.
fn lang_leaves(l: &LanguageConfig) -> (r: Vec<(String, TomlLeaf)>)
    ensures
        leaves_view(r@) == lang_fields(l@),
{
    let exts = l.extensions.clone();
    assert(exts.deep_view() =~= l.extensions.deep_view()) by {
        assert forall|i: int| 0 <= i < exts@.len() implies exts@[i]@ == l.extensions@[i]@ by {
            assert(cloned::<String>(l.extensions@[i], exts@[i]));
        }
    }
    let r = vec![
        (chars::str_to_string("extensions"), TomlLeaf::List(exts)),
        leaf_str("lsp", &l.lsp),
        leaf_str("formatter", &l.formatter),
        leaf_str("linter", &l.linter),
    ];
    assert(leaves_view(r@) =~= lang_fields(l@));
    r
}

/// Serializes the config to TOML: settings first, then a `[<name>]` table per
/// language.
pub fn to_toml(config: &Config) -> (r: String)
    ensures
        r@ == toml_pretty_text(config_scalars(*config), config_tables(*config)),
{
    let scalars = vec![
        leaf_str("theme", &config.theme),
        leaf_bool("format_on_save", config.format_on_save),
        leaf_bool("format_on_paste", config.format_on_paste),
        leaf_bool("trim_trailing_whitespace", config.trim_trailing_whitespace),
        leaf_bool("insert_final_newline", config.insert_final_newline),
        leaf_bool("inline_diagnostics", config.inline_diagnostics),
        leaf_bool("ascii_icons", config.ascii_icons),
    ];
    assert(leaves_view(scalars@) =~= config_scalars(*config));
    let mut tables: Vec<(String, Vec<(String, TomlLeaf)>)> = Vec::new();
    let mut i: usize = 0;
    while i < config.languages.len()
        invariant
            i <= config.languages@.len(),
            tables_view(tables@) == config_tables(*config).take(i as int),
        decreases config.languages.len() - i,
    {
        let (name, l) = &config.languages[i];
        let ghost before = tables_view(tables@);
        tables.push((name.clone(), lang_leaves(l)));
        assert(tables_view(tables@) =~= before.push(config_tables(*config)[i as int]));
        assert(config_tables(*config).take(i + 1) =~= config_tables(*config).take(i as int).push(
            config_tables(*config)[i as int],
        ));
        i += 1;
    }
    assert(config_tables(*config).take(config.languages@.len() as int) =~= config_tables(*config));
    toml_pretty(&scalars, &tables)
}


// ----- saving over an existing file -----

/// `toml::map::Map`, an opaque table of a TOML document.
#[verifier::external_type_specification]
#[verifier::external_body]
#[verifier::reject_recursive_types(K)]
#[verifier::reject_recursive_types(V)]
pub struct ExTomlMap<K, V>(toml::map::Map<K, V>);

/// `toml::Value`, an opaque TOML value (the value type of `toml::Table`).
#[verifier::external_type_specification]
#[verifier::external_body]
pub struct ExTomlValue(toml::Value);

/// What a table holds: each key with its value as text (the value's `Debug`
/// form, as `TomlEntry` holds it).
pub uninterp spec fn table_contents(t: toml::Table) -> Map<Seq<char>, Seq<char>>;

/// The entries read from a document as a table holds them: each key with the
/// text of its value.
pub open spec fn entries_contents(es: Seq<TomlEntryView>) -> Map<Seq<char>, Seq<char>>
    decreases es.len(),
{
    if es.len() == 0 {
        Map::empty()
    } else {
        entries_contents(es.drop_last()).insert(es.last().0, es.last().4)
    }
}

/// What a document holds, key by key; `None` when it is not TOML.
pub open spec fn document_contents(text: Seq<char>) -> Option<Map<Seq<char>, Seq<char>>> {
    match toml_config_of(text) {
        Some(es) => Some(entries_contents(es)),
        None => None,
    }
}

/// `str::parse::<toml::Table>`: `Some` exactly when the text is TOML (when
/// `toml_config_of` is), the table holding, key by key, what `toml_config_of`
/// reads of the same parse.
#[verifier::external_body]
fn toml_table_parse(text: &str) -> (r: Option<toml::Table>)
    ensures
        match r {
            Some(t) => document_contents(text@) == Some(table_contents(t)),
            None => document_contents(text@) is None,
        },
{
    text.parse::<toml::Table>().ok()
}

/// `Map::contains_key`: whether `key` is a key of the table.
#[verifier::external_body]
fn toml_table_contains(t: &toml::Table, key: &str) -> (b: bool)
    ensures
        b == table_contents(*t).dom().contains(key@),
{
    t.contains_key(key)
}

/// `Map::keys`, collected: every key of the table, each once.
#[verifier::external_body]
fn toml_table_keys(t: &toml::Table) -> (r: Vec<String>)
    ensures
        r.deep_view().to_set() == table_contents(*t).dom(),
        r.deep_view().no_duplicates(),
{
    t.keys().cloned().collect()
}

/// `Map::insert` of a clone of `src[key]`: `dst` then holds `src`'s entry for
/// `key`, and its other entries as they were.
#[verifier::external_body]
fn toml_table_copy(dst: &mut toml::Table, src: &toml::Table, key: &str)
    requires
        table_contents(*src).dom().contains(key@),
    ensures
        table_contents(*final(dst)) == table_contents(*old(dst)).insert(key@, table_contents(*src)[key@]),
{
    dst.insert(key.to_string(), src[key].clone());
}

/// `Map::new`: an empty table.
#[verifier::external_body]
fn toml_table_new() -> (t: toml::Table)
    ensures
        table_contents(t).dom() == Set::<Seq<char>>::empty(),
{
    toml::Table::new()
}

/// `Value::is_table` of the table's entry for `key`. Nothing is stated of the
/// answer: the value is opaque.
#[verifier::external_body]
fn toml_entry_is_table(t: &toml::Table, key: &str) -> bool
    requires
        table_contents(*t).dom().contains(key@),
{
    t[key].is_table()
}

/// What `toml::to_string_pretty` writes of a table (`None` on a serializer
/// error).
pub uninterp spec fn table_pretty_text(t: toml::Table) -> Option<Seq<char>>;

/// `toml::to_string_pretty` of a table, named `table_pretty_text`.
#[verifier::external_body]
fn toml_table_pretty(t: &toml::Table) -> (r: Option<String>)
    ensures
        match r {
            Some(x) => table_pretty_text(*t) == Some(x@),
            None => table_pretty_text(*t) is None,
        },
{
    toml::to_string_pretty(t).ok()
}

/// The plain serialization of a config.
pub open spec fn fresh_text(c: Config) -> Seq<char> {
    toml_pretty_text(config_scalars(c), config_tables(c))
}

/// What is written over a file that holds keys the config lacks: the file's
/// entries, every key the config writes holding the config's value.
pub open spec fn merged_contents(
    fresh: Map<Seq<char>, Seq<char>>,
    file: Map<Seq<char>, Seq<char>>,
) -> Map<Seq<char>, Seq<char>> {
    file.union_prefer_right(fresh)
}

/// The text saving `config` writes over a file that holds `existing` (or no
/// file): the plain serialization when there is no file or the file holds no
/// key the config lacks; with such keys, a table holding the config's entries
/// and the file's entries for the other keys. `None` — write nothing — when
/// the existing text is not TOML: a typo never costs the user what the file
/// holds.
pub fn merged_config_text(config: &Config, existing: Option<&str>) -> (r: Option<String>)
    ensures
        match existing {
            None => r is Some && r->0@ == fresh_text(*config),
            Some(e) => match (document_contents(e@), document_contents(fresh_text(*config))) {
                (None, _) => r is None,
                (Some(_), None) => r is None,
                (Some(o), Some(f)) => if o.dom().subset_of(f.dom()) {
                    r is Some && r->0@ == fresh_text(*config)
                } else {
                    exists|m: toml::Table|
                        #![trigger table_pretty_text(m)]
                        table_contents(m) == merged_contents(f, o) && match r {
                            Some(x) => table_pretty_text(m) == Some(x@),
                            None => table_pretty_text(m) is None,
                        }
                },
            },
        },
{
    let fresh = to_toml(config);
    let text = match existing {
        None => return Some(fresh),
        Some(t) => t,
    };
    let old_table = match toml_table_parse(text) {
        Some(t) => t,
        None => return None,
    };
    let mut table = match toml_table_parse(fresh.as_str()) {
        Some(t) => t,
        None => return None,
    };
    let ghost f = table_contents(table);
    let ghost o = table_contents(old_table);
    let keys = toml_table_keys(&old_table);
    let ghost ks = keys.deep_view();
    let mut extra = false;
    let mut i: usize = 0;
    assert(ks.take(0).to_set() =~= Set::<Seq<char>>::empty());
    assert(f.dom() + Set::<Seq<char>>::empty() =~= f.dom());
    while i < keys.len()
        invariant
            i <= keys.len(),
            ks == keys.deep_view(),
            ks.to_set() == o.dom(),
            o == table_contents(old_table),
            table_contents(table).dom() == f.dom() + ks.take(i as int).to_set(),
            forall|k: Seq<char>| f.dom().contains(k) ==> #[trigger] table_contents(table)[k] == f[k],
            forall|k: Seq<char>|
                #![trigger table_contents(table).dom().contains(k)]
                table_contents(table).dom().contains(k) && !f.dom().contains(k) ==> o.dom().contains(k)
                    && table_contents(table)[k] == o[k],
            extra <==> exists|j: int| 0 <= j < i && !f.dom().contains(#[trigger] ks[j]),
        decreases keys.len() - i,
    {
        let key = keys[i].as_str();
        let ghost k = key@;
        assert(k == ks[i as int]);
        assert(ks.take(i + 1) =~= ks.take(i as int).push(k));
        proof {
            ks.take(i as int).lemma_push_to_set_commute(k);
        }
        assert(ks.contains(k));
        if !toml_table_contains(&table, key) {
            toml_table_copy(&mut table, &old_table, key);
            extra = true;
        } else {
            proof {
                if !f.dom().contains(k) {
                    assert(ks.take(i as int).contains(k));
                    let j = choose|j: int| 0 <= j < ks.take(i as int).len() && ks.take(i as int)[j] == k;
                    assert(ks[j] == k);
                }
            }
        }
        assert(table_contents(table).dom() =~= f.dom() + ks.take(i + 1).to_set());
        i += 1;
    }
    assert(ks.take(ks.len() as int) =~= ks);
    if !extra {
        assert(o.dom().subset_of(f.dom())) by {
            assert forall|k: Seq<char>| o.dom().contains(k) implies f.dom().contains(k) by {
                assert(ks.contains(k));
                let j = choose|j: int| 0 <= j < ks.len() && ks[j] == k;
            }
        }
        return Some(fresh);
    }
    let ghost w = choose|j: int| 0 <= j < i && !f.dom().contains(#[trigger] ks[j]);
    assert(ks.contains(ks[w]));
    assert(!o.dom().subset_of(f.dom()));
    assert(table_contents(table) =~= merged_contents(f, o));
    // Re-serialize with the scalar settings ahead of every table, as TOML needs.
    let ordered = scalars_first(&table);
    toml_table_pretty(&ordered)
}

/// The table rebuilt from its scalar entries, then its sub-tables; it holds
/// the same entries (the map keeps its keys sorted, and the serializer writes
/// each scalar ahead of every table).
fn scalars_first(table: &toml::Table) -> (r: toml::Table)
    ensures
        table_contents(r) == table_contents(*table),
{
    let keys = toml_table_keys(table);
    let ghost ks = keys.deep_view();
    let ghost src = table_contents(*table);
    let mut flags: Vec<bool> = Vec::new();
    let mut i: usize = 0;
    while i < keys.len()
        invariant
            i <= keys.len(),
            flags.len() == i,
            ks == keys.deep_view(),
            ks.to_set() == src.dom(),
            src == table_contents(*table),
        decreases keys.len() - i,
    {
        assert(keys[i as int]@ == ks[i as int]);
        assert(ks.contains(ks[i as int]));
        flags.push(toml_entry_is_table(table, keys[i].as_str()));
        i += 1;
    }
    let mut ordered = toml_table_new();
    i = 0;
    while i < keys.len()
        invariant
            i <= keys.len(),
            flags.len() == keys.len(),
            ks == keys.deep_view(),
            ks.to_set() == src.dom(),
            src == table_contents(*table),
            forall|k: Seq<char>|
                #![trigger table_contents(ordered).dom().contains(k)]
                table_contents(ordered).dom().contains(k) ==> src.dom().contains(k) && table_contents(ordered)[k]
                    == src[k],
            forall|j: int| 0 <= j < i && !flags[j] ==> table_contents(ordered).dom().contains(#[trigger] ks[j]),
        decreases keys.len() - i,
    {
        assert(keys[i as int]@ == ks[i as int]);
        assert(ks.contains(ks[i as int]));
        if !flags[i] {
            toml_table_copy(&mut ordered, table, keys[i].as_str());
        }
        i += 1;
    }
    i = 0;
    while i < keys.len()
        invariant
            i <= keys.len(),
            flags.len() == keys.len(),
            ks == keys.deep_view(),
            ks.to_set() == src.dom(),
            src == table_contents(*table),
            forall|k: Seq<char>|
                #![trigger table_contents(ordered).dom().contains(k)]
                table_contents(ordered).dom().contains(k) ==> src.dom().contains(k) && table_contents(ordered)[k]
                    == src[k],
            forall|j: int| 0 <= j < keys.len() && !flags[j] ==> table_contents(ordered).dom().contains(#[trigger] ks[j]),
            forall|j: int| 0 <= j < i && flags[j] ==> table_contents(ordered).dom().contains(#[trigger] ks[j]),
        decreases keys.len() - i,
    {
        assert(keys[i as int]@ == ks[i as int]);
        assert(ks.contains(ks[i as int]));
        if flags[i] {
            toml_table_copy(&mut ordered, table, keys[i].as_str());
        }
        i += 1;
    }
    assert forall|k: Seq<char>| src.dom().contains(k) implies table_contents(ordered).dom().contains(k) by {
        assert(ks.contains(k));
        let j = choose|j: int| 0 <= j < ks.len() && ks[j] == k;
        if flags[j] {
        } else {
        }
    }
    assert(table_contents(ordered) =~= src);
    ordered
}

// ----- reading back what was written -----

/// The fields a language section is written with.
pub open spec fn is_lang_field(name: Seq<char>) -> bool {
    name == "extensions"@ || name == "lsp"@ || name == "formatter"@ || name == "linter"@
}

/// How the parser hands back field `name` of the section written for `l`:
/// the extensions as an array of strings, the commands as strings.
pub open spec fn written_field(l: LangView, name: Seq<char>) -> TomlFieldView {
    if name == "extensions"@ {
        (name, None, Some(l.0.map_values(|x: Seq<char>| Some(x))))
    } else if name == "lsp"@ {
        (name, Some(l.1), None)
    } else if name == "formatter"@ {
        (name, Some(l.2), None)
    } else {
        (name, Some(l.3), None)
    }
}

/// `fields` are the fields of the section written for `l`, in any order,
/// each once: the parser's reading of that section.
pub open spec fn fields_of_written(fields: Seq<TomlFieldView>, l: LangView) -> bool {
    &&& forall|m: int| 0 <= m < fields.len() ==> is_lang_field((#[trigger] fields[m]).0) && fields[m] == written_field(
        l,
        fields[m].0,
    )
    &&& forall|m: int, n: int| 0 <= m < n < fields.len() ==> fields[m].0 != fields[n].0
    &&& forall|name: Seq<char>| is_lang_field(name) ==> exists|m: int| 0 <= m < fields.len() && (#[trigger] fields[m]).0 == name
}

/// The language read so far: the fields named in `seen` taken from `l`.
spec fn lang_part(l: LangView, seen: Set<Seq<char>>) -> LangView {
    (
        if seen.contains("extensions"@) { l.0 } else { Seq::empty() },
        if seen.contains("lsp"@) { l.1 } else { Seq::empty() },
        if seen.contains("formatter"@) { l.2 } else { Seq::empty() },
        if seen.contains("linter"@) { l.3 } else { Seq::empty() },
    )
}

/// Strings written as an array read back as those strings.
proof fn lemma_all_texts(xs: Seq<Seq<char>>)
    ensures
        all_texts(xs.map_values(|x: Seq<char>| Some(x))) == Some(xs),
    decreases xs.len(),
{
    if xs.len() > 0 {
        lemma_all_texts(xs.drop_last());
        assert(xs.map_values(|x: Seq<char>| Some(x)).drop_last() =~= xs.drop_last().map_values(|x: Seq<char>| Some(x)));
        assert(xs.drop_last().push(xs.last()) =~= xs);
    }
}

proof fn lemma_lang_fields_prefix(fields: Seq<TomlFieldView>, l: LangView, k: int)
    requires
        0 <= k <= fields.len(),
        forall|m: int| 0 <= m < fields.len() ==> is_lang_field((#[trigger] fields[m]).0) && fields[m] == written_field(
            l,
            fields[m].0,
        ),
    ensures
        lang_from_fields(fields.take(k)) == Some(lang_part(l, Set::new(|name: Seq<char>| exists|m: int| 0 <= m < k && (#[trigger] fields[m]).0 == name))),
    decreases k,
{
    reveal_strlit("extensions");
    reveal_strlit("lsp");
    reveal_strlit("formatter");
    reveal_strlit("linter");
    let seen = Set::new(|name: Seq<char>| exists|m: int| 0 <= m < k && (#[trigger] fields[m]).0 == name);
    if k == 0 {
        assert(fields.take(0) =~= Seq::<TomlFieldView>::empty());
        assert(lang_part(l, seen) =~= empty_lang()) by {
            assert(!seen.contains("extensions"@));
            assert(!seen.contains("lsp"@));
            assert(!seen.contains("formatter"@));
            assert(!seen.contains("linter"@));
        }
    } else {
        lemma_lang_fields_prefix(fields, l, k - 1);
        let before = Set::new(|name: Seq<char>| exists|m: int| 0 <= m < k - 1 && (#[trigger] fields[m]).0 == name);
        assert(fields.take(k).drop_last() =~= fields.take(k - 1));
        let f = fields[k - 1];
        assert(fields.take(k).last() == f);
        assert(seen =~= before.insert(f.0)) by {
            assert forall|name: Seq<char>| seen.contains(name) == before.insert(f.0).contains(name) by {
                if seen.contains(name) {
                    let m = choose|m: int| 0 <= m < k && (#[trigger] fields[m]).0 == name;
                    if m < k - 1 {
                        assert(before.contains(name));
                    }
                }
                if before.contains(name) {
                    let m = choose|m: int| 0 <= m < k - 1 && (#[trigger] fields[m]).0 == name;
                    assert(0 <= m < k && fields[m].0 == name);
                }
                if name == f.0 {
                    assert(0 <= k - 1 < k && fields[k - 1].0 == name);
                }
            }
        }
        assert("extensions"@.len() == 10 && "lsp"@.len() == 3 && "formatter"@.len() == 9 && "linter"@.len() == 6);
        let prev = lang_part(l, before);
        let now = before.insert(f.0);
        assert(f == written_field(l, f.0));
        assert(lang_from_fields(fields.take(k)) == apply_field(Some(prev), f));
        if f.0 == "extensions"@ {
            lemma_all_texts(l.0);
            assert(apply_field(Some(prev), f) == Some((l.0, prev.1, prev.2, prev.3)));
        } else if f.0 == "lsp"@ {
            assert(apply_field(Some(prev), f) == Some((prev.0, l.1, prev.2, prev.3)));
        } else if f.0 == "formatter"@ {
            assert(apply_field(Some(prev), f) == Some((prev.0, prev.1, l.2, prev.3)));
        } else {
            assert(f.0 == "linter"@);
            assert(apply_field(Some(prev), f) == Some((prev.0, prev.1, prev.2, l.3)));
        }
        assert(lang_part(l, now) == lang_part(l, seen));
    }
}

/// A language section read back in any field order gives the language it
/// was written from.
proof fn lemma_lang_read_back(fields: Seq<TomlFieldView>, l: LangView)
    requires
        fields_of_written(fields, l),
    ensures
        lang_from_fields(fields) == Some(l),
{
    reveal_strlit("extensions");
    reveal_strlit("lsp");
    reveal_strlit("formatter");
    reveal_strlit("linter");
    lemma_lang_fields_prefix(fields, l, fields.len() as int);
    assert(fields.take(fields.len() as int) =~= fields);
    let seen = Set::new(|name: Seq<char>| exists|m: int| 0 <= m < fields.len() && (#[trigger] fields[m]).0 == name);
    assert(is_lang_field("extensions"@));
    assert(is_lang_field("lsp"@));
    assert(is_lang_field("formatter"@));
    assert(is_lang_field("linter"@));
    assert(seen.contains("extensions"@));
    assert(seen.contains("lsp"@));
    assert(seen.contains("formatter"@));
    assert(seen.contains("linter"@));
    assert(lang_part(l, seen) == l);
}

/// The boolean setting `key` of `c`.
pub open spec fn bool_of(c: Config, key: Seq<char>) -> bool {
    if key == "format_on_save"@ {
        c.format_on_save
    } else if key == "format_on_paste"@ {
        c.format_on_paste
    } else if key == "trim_trailing_whitespace"@ {
        c.trim_trailing_whitespace
    } else if key == "insert_final_newline"@ {
        c.insert_final_newline
    } else if key == "inline_diagnostics"@ {
        c.inline_diagnostics
    } else {
        c.ascii_icons
    }
}

/// How the parser hands back setting `key` as written for `c`: the theme as
/// a string, the others as booleans.
pub open spec fn written_setting(c: Config, key: Seq<char>) -> TomlReading {
    if key == "theme"@ {
        (key, Some(c.theme@), None, None)
    } else {
        (key, None, Some(bool_of(c, key)), None)
    }
}

/// A config the file can hold: each language named once, and none named
/// like a setting.
pub open spec fn writable(c: Config) -> bool {
    &&& keys_unique(langs_of(c))
    &&& forall|j: int| 0 <= j < langs_of(c).len() ==> !is_setting_key((#[trigger] langs_of(c)[j]).0)
}

/// Entry `e` is the section written for one of the languages of `c`.
pub open spec fn is_written_language(c: Config, e: TomlEntryView) -> bool {
    exists|j: int| #![trigger langs_of(c)[j]] 0 <= j < langs_of(c).len() && langs_of(c)[j].0 == e.0 && e.1 is None
        && e.2 is None && e.3 is Some && fields_of_written(e.3->0, langs_of(c)[j].1)
}

/// `es` is the parser's reading of the file written for `c`: a table (each
/// key once) in any order, holding every setting and every language section
/// as written.
#[verifier::opaque]
pub open spec fn entries_of_written(es: Seq<TomlEntryView>, c: Config) -> bool {
    &&& forall|i: int, j: int| 0 <= i < j < es.len() ==> es[i].0 != es[j].0
    &&& forall|i: int| 0 <= i < es.len() ==> if is_setting_key((#[trigger] es[i]).0) {
        reading(es[i]) == written_setting(c, es[i].0)
    } else {
        is_written_language(c, es[i])
    }
    &&& forall|key: Seq<char>| is_setting_key(key) ==> exists|i: int| 0 <= i < es.len() && (#[trigger] es[i]).0 == key
    &&& forall|j: int| 0 <= j < langs_of(c).len() ==> exists|i: int| 0 <= i < es.len() && es[i].0 == (#[trigger] langs_of(c)[j]).0
}

proof fn lemma_written_keys(es: Seq<TomlEntryView>, c: Config, i: int, j: int)
    requires
        entries_of_written(es, c),
        0 <= i < es.len(),
        0 <= j < es.len(),
        i != j,
    ensures
        es[i].0 != es[j].0,
{
    reveal(entries_of_written);
    if i > j {
        assert(es[j].0 != es[i].0);
    }
}

/// The language of `c` whose section entry `i` of a written file is.
proof fn lemma_written_language(es: Seq<TomlEntryView>, c: Config, i: int) -> (j: int)
    requires
        entries_of_written(es, c),
        0 <= i < es.len(),
        !is_setting_key(es[i].0),
    ensures
        0 <= j < langs_of(c).len(),
        langs_of(c)[j].0 == es[i].0,
        es[i].3 is Some,
        lang_from_fields(es[i].3->0) == Some(langs_of(c)[j].1),
{
    reveal(entries_of_written);
    assert(is_written_language(c, es[i]));
    let j = choose|j: int| #![trigger langs_of(c)[j]] 0 <= j < langs_of(c).len() && langs_of(c)[j].0 == es[i].0
        && es[i].1 is None && es[i].2 is None && es[i].3 is Some && fields_of_written(es[i].3->0, langs_of(c)[j].1);
    lemma_lang_read_back(es[i].3->0, langs_of(c)[j].1);
    j
}

/// The keys of the first `k` entries.
spec fn keys_before(es: Seq<TomlEntryView>, k: int) -> Set<Seq<char>> {
    Set::new(|n: Seq<char>| exists|m: int| 0 <= m < k && (#[trigger] es[m]).0 == n)
}

/// Reading the first `k` entries: every language read is one of `c`'s, named
/// by one of those entries, and every language section among them has been
/// read.
proof fn lemma_langs_read_back(es: Seq<TomlEntryView>, c: Config, k: int)
    requires
        0 <= k <= es.len(),
        writable(c),
        entries_of_written(es, c),
    ensures
        forall|x: int| 0 <= x < langs_from(es.take(k)).len() ==> exists|j: int|
            0 <= j < langs_of(c).len() && langs_of(c)[j] == #[trigger] langs_from(es.take(k))[x],
        forall|x: int| 0 <= x < langs_from(es.take(k)).len() ==> keys_before(es, k).contains(
            (#[trigger] langs_from(es.take(k))[x]).0,
        ),
        forall|m: int| 0 <= m < k && !is_setting_key(es[m].0) ==> #[trigger] key_index(langs_from(es.take(k)), es[m].0, 0) is Some,
    decreases k,
{
    let cur = es.take(k);
    let r = langs_from(cur);
    if k == 0 {
        assert(cur =~= Seq::<TomlEntryView>::empty());
    } else {
        lemma_langs_read_back(es, c, k - 1);
        let prev_es = es.take(k - 1);
        assert(cur.drop_last() =~= prev_es);
        let prev = langs_from(prev_es);
        let e = es[k - 1];
        assert(cur.last() == e);
        if is_setting_key(e.0) {
            assert(r == prev);
            assert forall|x: int| 0 <= x < r.len() implies keys_before(es, k).contains((#[trigger] r[x]).0) by {
                assert(keys_before(es, k - 1).contains(r[x].0));
                let m = choose|m: int| 0 <= m < k - 1 && (#[trigger] es[m]).0 == r[x].0;
            }
            assert forall|m: int| 0 <= m < k && !is_setting_key(es[m].0) implies #[trigger] key_index(r, es[m].0, 0) is Some by {
                assert(m < k - 1);
            }
        } else {
            let j = lemma_written_language(es, c, k - 1);
            let l = langs_of(c)[j].1;
            assert(r == map_insert(prev, e.0, l));
            lemma_key_index(prev, e.0, 0);
            assert(key_index(prev, e.0, 0) is None) by {
                if key_index(prev, e.0, 0) is Some {
                    let x = key_index(prev, e.0, 0)->0;
                    assert(keys_before(es, k - 1).contains(prev[x].0));
                    let m = choose|m: int| 0 <= m < k - 1 && (#[trigger] es[m]).0 == prev[x].0;
                    lemma_written_keys(es, c, m, k - 1);
                }
            }
            assert(r == prev.push((e.0, l)));
            assert forall|x: int| 0 <= x < r.len() implies exists|jj: int|
                0 <= jj < langs_of(c).len() && langs_of(c)[jj] == #[trigger] r[x] by {
                if x < prev.len() {
                    assert(r[x] == prev[x]);
                } else {
                    assert(r[x] == langs_of(c)[j]);
                }
            }
            assert forall|x: int| 0 <= x < r.len() implies keys_before(es, k).contains((#[trigger] r[x]).0) by {
                if x < prev.len() {
                    assert(r[x] == prev[x]);
                    assert(keys_before(es, k - 1).contains(prev[x].0));
                    let m = choose|m: int| 0 <= m < k - 1 && (#[trigger] es[m]).0 == prev[x].0;
                } else {
                    assert(es[k - 1].0 == r[x].0);
                }
            }
            assert forall|m: int| 0 <= m < k && !is_setting_key(es[m].0) implies #[trigger] key_index(r, es[m].0, 0) is Some by {
                lemma_key_index(r, es[m].0, 0);
                if m < k - 1 {
                    lemma_key_index(prev, es[m].0, 0);
                    let x = key_index(prev, es[m].0, 0)->0;
                    assert(r[x] == prev[x]);
                } else {
                    assert(r[prev.len() as int].0 == es[m].0);
                }
            }
        }
    }
}

proof fn lemma_entry_index(es: Seq<TomlEntryView>, key: Seq<char>, i: int)
    requires
        0 <= i <= es.len(),
    ensures
        match entry_index(es, key, i) {
            Some(k) => i <= k < es.len() && es[k].0 == key,
            None => forall|j: int| i <= j < es.len() ==> es[j].0 != key,
        },
    decreases es.len() - i,
{
    if i < es.len() {
        lemma_entry_index(es, key, i + 1);
    }
}

/// A setting of a written file reads back as written.
proof fn lemma_setting_read_back(es: Seq<TomlEntryView>, c: Config, key: Seq<char>)
    requires
        entries_of_written(es, c),
        is_setting_key(key),
    ensures
        entry_index(es, key, 0) matches Some(i) && reading(es[i]) == written_setting(c, key),
{
    reveal(entries_of_written);
    let i0 = choose|i: int| 0 <= i < es.len() && (#[trigger] es[i]).0 == key;
    lemma_entry_index(es, key, 0);
    let i = entry_index(es, key, 0)->0;
    assert(es[i].0 == key);
}

/// A boolean setting of a written file reads back as written.
proof fn lemma_bool_read_back(es: Seq<TomlEntryView>, c: Config, key: Seq<char>, dflt: bool)
    requires
        entries_of_written(es, c),
        is_setting_key(key),
        key.len() != 5,
    ensures
        bool_setting(es, key, dflt) == bool_of(c, key),
{
    reveal_strlit("theme");
    lemma_setting_read_back(es, c, key);
    let i = entry_index(es, key, 0)->0;
    assert(key != "theme"@);
    assert(reading(es[i]) == written_setting(c, key));
    assert(es[i].2 == Some(bool_of(c, key)));
}

/// The entry of a written file that holds language `j` of `c`.
proof fn lemma_language_written(es: Seq<TomlEntryView>, c: Config, j: int) -> (i: int)
    requires
        entries_of_written(es, c),
        0 <= j < langs_of(c).len(),
    ensures
        0 <= i < es.len(),
        es[i].0 == langs_of(c)[j].0,
{
    reveal(entries_of_written);
    choose|i: int| 0 <= i < es.len() && es[i].0 == langs_of(c)[j].0
}

/// Law: reading back the config file restores the config. Whatever order the
/// parser hands the settings, the sections and their fields over in, the
/// config read from what was written for `c` has `c`'s settings and exactly
/// `c`'s languages (each name once, with the same tooling) — for every
/// config the file can hold (`writable`).
#[verifier::spinoff_prover]
#[verifier::rlimit(30)]
pub proof fn law_config_file_restores(c: Config, es: Seq<TomlEntryView>, r: Config)
    requires
        writable(c),
        entries_of_written(es, c),
        config_from(r, es),
    ensures
        r.theme@ == c.theme@,
        r.format_on_save == c.format_on_save,
        r.format_on_paste == c.format_on_paste,
        r.trim_trailing_whitespace == c.trim_trailing_whitespace,
        r.insert_final_newline == c.insert_final_newline,
        r.inline_diagnostics == c.inline_diagnostics,
        r.ascii_icons == c.ascii_icons,
        keys_unique(langs_of(r)),
        forall|x: int| 0 <= x < langs_of(r).len() ==> exists|j: int|
            0 <= j < langs_of(c).len() && langs_of(c)[j] == #[trigger] langs_of(r)[x],
        forall|j: int| 0 <= j < langs_of(c).len() ==> exists|x: int|
            0 <= x < langs_of(r).len() && langs_of(r)[x] == #[trigger] langs_of(c)[j],
{
    reveal_strlit("theme");
    reveal_strlit("format_on_save");
    reveal_strlit("format_on_paste");
    reveal_strlit("trim_trailing_whitespace");
    reveal_strlit("insert_final_newline");
    reveal_strlit("inline_diagnostics");
    reveal_strlit("ascii_icons");
    lemma_setting_read_back(es, c, "theme"@);
    lemma_bool_read_back(es, c, "format_on_save"@, false);
    lemma_bool_read_back(es, c, "format_on_paste"@, false);
    lemma_bool_read_back(es, c, "trim_trailing_whitespace"@, true);
    lemma_bool_read_back(es, c, "insert_final_newline"@, true);
    lemma_bool_read_back(es, c, "inline_diagnostics"@, true);
    lemma_bool_read_back(es, c, "ascii_icons"@, false);
    let (a, b, d, e, f) = ("format_on_save"@, "format_on_paste"@, "trim_trailing_whitespace"@, "insert_final_newline"@, "inline_diagnostics"@);
    assert(a.len() == 14 && b.len() == 15 && d.len() == 24 && e.len() == 20 && f.len() == 18);
    assert(bool_of(c, d) == c.trim_trailing_whitespace) by {
        assert(d != a);
        assert(d != b);
    }
    assert(bool_of(c, e) == c.insert_final_newline) by {
        assert(e != a);
        assert(e != b);
        assert(e != d);
    }
    assert(bool_of(c, f) == c.inline_diagnostics) by {
        assert(f != a);
        assert(f != b);
        assert(f != d);
        assert(f != e);
    }
    law_languages_come_from_the_file(es);
    lemma_langs_read_back(es, c, es.len() as int);
    assert(es.take(es.len() as int) =~= es);
    let rl = langs_of(r);
    let cl = langs_of(c);
    assert(rl == langs_from(es));
    assert forall|j: int| 0 <= j < cl.len() implies exists|x: int| 0 <= x < rl.len() && rl[x] == #[trigger] cl[j] by {
        let i = lemma_language_written(es, c, j);
        assert(!is_setting_key(cl[j].0));
        assert(key_index(langs_from(es.take(es.len() as int)), es[i].0, 0) is Some);
        lemma_key_index(rl, es[i].0, 0);
        let x = key_index(rl, es[i].0, 0)->0;
        let jj = choose|jj: int| 0 <= jj < cl.len() && cl[jj] == #[trigger] rl[x];
        if jj != j {
            if jj < j {
                assert(cl[jj].0 != cl[j].0);
            } else {
                assert(cl[j].0 != cl[jj].0);
            }
        }
    }
}

} // verus!
