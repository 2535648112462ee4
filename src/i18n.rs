use vstd::prelude::*;
use crate::task::opt_text;

verus! {

/// The language chosen by the user, if any, ahead of the system's languages.
pub struct LanguageOverride {
    pub lang: Option<String>,
}

/// The strings of one language, as (key, text) pairs.
pub struct Catalog {
    pub lang: String,
    pub entries: Vec<(String, String)>,
}

/// Why a catalog could not be read.
#[derive(Debug, PartialEq, Eq, Structural)]
pub enum CatalogError {
    /// The text is not a JSON object whose values are all strings.
    NotAStringTable,
}

/// The (key, text) pairs of a JSON object of strings, in ascending key order,
/// or `None` where the text is not such an object.
pub uninterp spec fn string_table_of(text: Seq<char>) -> Option<Seq<(Seq<char>, Seq<char>)>>;

/// Relies on serde_json::from_str into a `BTreeMap<String, String>`: it either
/// yields the object's pairs (which depend on the text alone, and come in key
/// order) or fails.
#[verifier::external_body]
fn read_string_table(text: &str) -> (r: Result<Vec<(String, String)>, serde_json::Error>)
    ensures
        match r {
            Ok(v) => string_table_of(text@) == Some(v@.map_values(|e: (String, String)| (e.0@, e.1@))),
            Err(_) => string_table_of(text@) is None,
        },
{
    let m: std::collections::BTreeMap<String, String> = serde_json::from_str(text)?;
    Ok(m.into_iter().collect())
}

#[verifier::external_type_specification]
#[verifier::external_body]
pub struct ExJsonError(serde_json::Error);

/// The pairs of a catalog as plain sequences.
pub open spec fn entries_view(entries: Seq<(String, String)>) -> Seq<(Seq<char>, Seq<char>)> {
    entries.map_values(|e: (String, String)| (e.0@, e.1@))
}

/// Reads the catalog of `lang` from a JSON object that maps keys to texts.
pub fn parse_catalog(lang: String, json: &str) -> (r: Result<Catalog, CatalogError>)
    ensures
        match r {
            Ok(c) => c.lang == lang && string_table_of(json@) == Some(entries_view(c.entries@)),
            Err(e) => e == CatalogError::NotAStringTable && string_table_of(json@) is None,
        },
{
    match read_string_table(json) {
        Ok(entries) => Ok(Catalog { lang, entries }),
        Err(_) => Err(CatalogError::NotAStringTable),
    }
}

/// Makes `lang` the language that translations are looked up in first.
pub fn set_language(setting: &mut LanguageOverride, lang: String)
    ensures
        final(setting).lang == Some(lang),
{
    setting.lang = Some(lang);
}

/// The characters that end the language code in a locale name.
pub open spec fn is_locale_separator(c: char) -> bool {
    c == '_' || c == '.'
}

/// Where the language code of a locale name ends: at its first `_` or `.`.
pub open spec fn code_end(s: Seq<char>) -> nat
    decreases s.len(),
{
    if s.len() == 0 || is_locale_separator(s[0]) {
        0
    } else {
        1 + code_end(s.drop_first())
    }
}

/// The language code of a locale name: "de_DE.UTF-8" has the code "de".
pub open spec fn base_of(s: Seq<char>) -> Seq<char> {
    s.subrange(0, code_end(s) as int)
}

proof fn lemma_code_end(s: Seq<char>, i: int)
    requires
        0 <= i <= s.len(),
        forall|j: int| 0 <= j < i ==> !is_locale_separator(#[trigger] s[j]),
        i == s.len() || is_locale_separator(s[i]),
    ensures
        code_end(s) == i,
    decreases s.len(),
{
    if s.len() > 0 && i > 0 {
        assert(!is_locale_separator(s[0]));
        let t = s.drop_first();
        assert forall|j: int| 0 <= j < i - 1 implies !is_locale_separator(#[trigger] t[j]) by {
            assert(t[j] == s[j + 1]);
        }
        if i < s.len() {
            assert(t[i - 1] == s[i]);
        }
        lemma_code_end(t, i - 1);
    }
}

/// The language code of a locale name: what precedes its first `_` or `.`.
pub fn base_language(locale: &str) -> (r: String)
    ensures
        r@ == base_of(locale@),
{
    let n = locale.unicode_len();
    let mut i: usize = 0;
    while i < n
        invariant
            n == locale@.len(),
            i <= n,
            forall|j: int| 0 <= j < i ==> !is_locale_separator(#[trigger] locale@[j]),
        ensures
            i <= n,
            forall|j: int| 0 <= j < i ==> !is_locale_separator(#[trigger] locale@[j]),
            i == n || is_locale_separator(locale@[i as int]),
        decreases n - i,
    {
        let c = locale.get_char(i);
        if c == '_' || c == '.' {
            break;
        }
        i = i + 1;
    }
    proof {
        lemma_code_end(locale@, i as int);
    }
    String::from_str(locale.substring_char(0, i))
}

/// The text of `key` in the first of `entries` that has it.
pub open spec fn entry_lookup(entries: Seq<(String, String)>, key: Seq<char>) -> Option<Seq<char>>
    decreases entries.len(),
{
    if entries.len() == 0 {
        None
    } else if entries[0].0@ == key {
        Some(entries[0].1@)
    } else {
        entry_lookup(entries.drop_first(), key)
    }
}

/// The first catalog of `lang`.
pub open spec fn catalog_for(cats: Seq<Catalog>, lang: Seq<char>) -> Option<Catalog>
    decreases cats.len(),
{
    if cats.len() == 0 {
        None
    } else if cats[0].lang@ == lang {
        Some(cats[0])
    } else {
        catalog_for(cats.drop_first(), lang)
    }
}

/// The text of `key` in the catalog of `lang`.
pub open spec fn lookup_in(cats: Seq<Catalog>, lang: Seq<char>, key: Seq<char>) -> Option<Seq<char>> {
    match catalog_for(cats, lang) {
        Some(c) => entry_lookup(c.entries@, key),
        None => None,
    }
}

/// The text of `key` for the first locale that has it, trying each locale
/// itself and then its language code.
pub open spec fn translate_from(cats: Seq<Catalog>, locales: Seq<Seq<char>>, key: Seq<char>) -> Option<Seq<char>>
    decreases locales.len(),
{
    if locales.len() == 0 {
        None
    } else if lookup_in(cats, locales[0], key) is Some {
        lookup_in(cats, locales[0], key)
    } else if lookup_in(cats, base_of(locales[0]), key) is Some {
        lookup_in(cats, base_of(locales[0]), key)
    } else {
        translate_from(cats, locales.drop_first(), key)
    }
}

/// The language whose texts stand in where no locale has one.
pub open spec fn default_language() -> Seq<char> {
    seq!['d', 'e']
}

/// The locales to try: the override alone where one is set, else the system's.
pub open spec fn active_locales(setting: LanguageOverride, system: Seq<String>) -> Seq<Seq<char>> {
    match setting.lang {
        Some(l) => seq![l@],
        None => system.map_values(|s: String| s@),
    }
}

/// What `key` reads as: the locales' text, else the default language's,
/// else the key itself.
pub open spec fn translation(cats: Seq<Catalog>, locales: Seq<Seq<char>>, key: Seq<char>) -> Seq<char> {
    match translate_from(cats, locales, key) {
        Some(v) => v,
        None => match lookup_in(cats, default_language(), key) {
            Some(v) => v,
            None => key,
        },
    }
}

fn find_entry(entries: &Vec<(String, String)>, key: &String) -> (r: Option<String>)
    ensures
        opt_text(r) == entry_lookup(entries@, key@),
{
    assert(entries@.subrange(0, entries@.len() as int) =~= entries@);
    let mut i: usize = 0;
    while i < entries.len()
        invariant
            i <= entries@.len(),
            entry_lookup(entries@, key@) == entry_lookup(entries@.subrange(i as int, entries@.len() as int), key@),
        decreases entries.len() - i,
    {
        let ghost rest = entries@.subrange(i as int, entries@.len() as int);
        assert(rest.drop_first() =~= entries@.subrange(i + 1, entries@.len() as int));
        if entries[i].0 == *key {
            return Some(entries[i].1.clone());
        }
        i = i + 1;
    }
    None
}

fn find_in(cats: &Vec<Catalog>, lang: &String, key: &String) -> (r: Option<String>)
    ensures
        opt_text(r) == lookup_in(cats@, lang@, key@),
{
    assert(cats@.subrange(0, cats@.len() as int) =~= cats@);
    let mut i: usize = 0;
    while i < cats.len()
        invariant
            i <= cats@.len(),
            catalog_for(cats@, lang@) == catalog_for(cats@.subrange(i as int, cats@.len() as int), lang@),
        decreases cats.len() - i,
    {
        let ghost rest = cats@.subrange(i as int, cats@.len() as int);
        assert(rest.drop_first() =~= cats@.subrange(i + 1, cats@.len() as int));
        if cats[i].lang == *lang {
            return find_entry(&cats[i].entries, key);
        }
        i = i + 1;
    }
    None
}

/// The text of `key`: looked up for each active locale in turn, in the locale
/// itself and then in its language code, then in the default language; where
/// none has it, the key itself.
pub fn t(setting: &LanguageOverride, cats: &Vec<Catalog>, system: &Vec<String>, key: &str) -> (r: String)
    ensures
        r@ == translation(cats@, active_locales(*setting, system@), key@),
{
    let key_s = String::from_str(key);
    assert(key_s@ == key@);
    let mut locales: Vec<String> = Vec::new();
    match &setting.lang {
        Some(l) => {
            locales.push(l.clone());
        },
        None => {
            let mut k: usize = 0;
            while k < system.len()
                invariant
                    k <= system@.len(),
                    locales@.len() == k,
                    forall|j: int| 0 <= j < k ==> #[trigger] locales@[j]@ == system@[j]@,
                decreases system.len() - k,
            {
                locales.push(system[k].clone());
                k = k + 1;
            }
        },
    }
    let ghost all = active_locales(*setting, system@);
    assert(all =~= locales@.map_values(|s: String| s@));
    assert(all.subrange(0, all.len() as int) =~= all);
    let mut i: usize = 0;
    while i < locales.len()
        invariant
            i <= locales@.len(),
            all == locales@.map_values(|s: String| s@),
            all == active_locales(*setting, system@),
            key_s@ == key@,
            translate_from(cats@, all, key_s@) == translate_from(
                cats@,
                all.subrange(i as int, all.len() as int),
                key_s@,
            ),
        decreases locales.len() - i,
    {
        let ghost rest = all.subrange(i as int, all.len() as int);
        assert(rest.drop_first() =~= all.subrange(i + 1, all.len() as int));
        assert(rest[0] == locales@[i as int]@);
        if let Some(v) = find_in(cats, &locales[i], &key_s) {
            return v;
        }
        let code = base_language(locales[i].as_str());
        if let Some(v) = find_in(cats, &code, &key_s) {
            return v;
        }
        i = i + 1;
    }
    let de = String::from_str("de");
    proof {
        reveal_strlit("de");
        assert(de@ =~= default_language());
    }
    match find_in(cats, &de, &key_s) {
        Some(v) => v,
        None => key_s,
    }
}

} // verus!
