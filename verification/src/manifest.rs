use vstd::prelude::*;

verus! {

/// A TOML value as the checks read it. Tables keep their entries in the
/// order in which the `toml` crate iterates them. Floats and date-times,
/// which the checks never read, keep only their kind.
#[derive(Debug)]
pub enum TomlValue {
    String(String),
    Integer(i64),
    Float,
    Boolean(bool),
    Datetime,
    Array(Vec<TomlValue>),
    Table(Vec<(String, TomlValue)>),
}

#[verifier::external_type_specification]
#[verifier::external_body]
pub struct ExTomlValue(toml::Value);

/// What `toml::from_str::<toml::Value>` makes of a document: the value it
/// parses, or the text of the error it reports.
pub uninterp spec fn toml_document(text: Seq<char>) -> Result<TomlValue, Seq<char>>;

/// No two entries of the table have the same key.
pub open spec fn keys_distinct(entries: Seq<(String, TomlValue)>) -> bool {
    forall|i: int, j: int| 0 <= i < j < entries.len() ==> entries[i].0@ != entries[j].0@
}

/// Every table within the value, the value itself included, holds each of
/// its keys once.
pub open spec fn keyed_once(v: TomlValue) -> bool
    decreases v,
{
    match v {
        TomlValue::Table(entries) => {
            &&& keys_distinct(entries@)
            &&& forall|i: int| 0 <= i < entries@.len() ==> keyed_once(#[trigger] entries@[i].1)
        },
        TomlValue::Array(items) => forall|i: int| 0 <= i < items@.len() ==> keyed_once(#[trigger] items@[i]),
        _ => true,
    }
}

/// Parses a TOML document.
///
/// Trusted: calls `toml::from_str::<toml::Value>` and, on success, turns
/// the value into a [`TomlValue`] one variant for one variant; on failure it
/// keeps the error's display text. The contract names that result, the TOML
/// grammar being the `toml` crate's, and states one fact of it: a table is
/// a `toml::Map`, which holds each key once, so no table of the value has
/// two entries with one key.
#[verifier::external_body]
fn parse_toml(text: &str) -> (doc: Result<TomlValue, String>)
    ensures
        match doc {
            Ok(v) => toml_document(text@) == Ok::<TomlValue, Seq<char>>(v) && keyed_once(v),
            Err(m) => toml_document(text@) == Err::<TomlValue, Seq<char>>(m@),
        },
{
    match toml::from_str::<toml::Value>(text) {
        Ok(v) => Ok(mirror_toml(v)),
        Err(e) => Err(e.to_string()),
    }
}

/// Turns a `toml::Value` into a [`TomlValue`], one variant for one variant,
/// keeping the order in which the `toml` crate iterates arrays and tables.
///
/// Trusted: reads the `toml` crate's value, which Verus cannot see into;
/// nothing is claimed of it beyond what [`parse_toml`] states.
#[verifier::external_body]
fn mirror_toml(v: toml::Value) -> TomlValue {
    match v {
        toml::Value::String(s) => TomlValue::String(s),
        toml::Value::Integer(i) => TomlValue::Integer(i),
        toml::Value::Float(_) => TomlValue::Float,
        toml::Value::Boolean(b) => TomlValue::Boolean(b),
        toml::Value::Datetime(_) => TomlValue::Datetime,
        toml::Value::Array(a) => TomlValue::Array(a.into_iter().map(mirror_toml).collect()),
        toml::Value::Table(t) => TomlValue::Table(t.into_iter().map(|(k, v)| (k, mirror_toml(v))).collect()),
    }
}

/// Parses a manifest: the document, or the text of the parse error.
pub fn parse_manifest(text: &str) -> (doc: Result<TomlValue, String>)
    ensures
        match doc {
            Ok(v) => toml_document(text@) == Ok::<TomlValue, Seq<char>>(v) && keyed_once(v),
            Err(m) => toml_document(text@) == Err::<TomlValue, Seq<char>>(m@),
        },
{
    parse_toml(text)
}

/// The value under `key` in a sequence of table entries: the first entry
/// with that key.
pub open spec fn entry_lookup(entries: Seq<(String, TomlValue)>, key: Seq<char>) -> Option<TomlValue>
    decreases entries.len(),
{
    if entries.len() == 0 {
        None
    } else if entries[0].0@ == key {
        Some(entries[0].1)
    } else {
        entry_lookup(entries.drop_first(), key)
    }
}

/// In a table that holds each key once, looking up the key of any entry
/// gives that entry's value, wherever the entry stands.
pub proof fn lemma_lookup_finds_entry(entries: Seq<(String, TomlValue)>, i: int)
    requires
        keys_distinct(entries),
        0 <= i < entries.len(),
    ensures
        entry_lookup(entries, entries[i].0@) == Some(entries[i].1),
    decreases entries.len(),
{
    if i > 0 {
        let rest = entries.drop_first();
        assert(entries[0].0@ != entries[i].0@);
        assert forall|a: int, b: int| 0 <= a < b < rest.len() implies rest[a].0@ != rest[b].0@ by {
            assert(rest[a] == entries[a + 1] && rest[b] == entries[b + 1]);
        }
        assert(rest[i - 1] == entries[i]);
        lemma_lookup_finds_entry(rest, i - 1);
    }
}

/// `value.get(key)` for a string key: the entry of a table, and nothing for
/// any other kind of value.
pub open spec fn lookup(v: TomlValue, key: Seq<char>) -> Option<TomlValue> {
    match v {
        TomlValue::Table(entries) => entry_lookup(entries@, key),
        _ => None,
    }
}

/// `value.as_str()`.
pub open spec fn text_of(v: Option<TomlValue>) -> Option<Seq<char>> {
    match v {
        Some(TomlValue::String(s)) => Some(s@),
        _ => None,
    }
}

/// `manifest.get("package").and_then(|p| p.get(field)).and_then(as_str)`.
pub open spec fn package_text(manifest: TomlValue, field: Seq<char>) -> Option<Seq<char>> {
    match lookup(manifest, "package"@) {
        Some(p) => text_of(lookup(p, field)),
        None => None,
    }
}

/// The package field is a string and is not empty.
pub open spec fn package_has(manifest: TomlValue, field: Seq<char>) -> bool {
    match package_text(manifest, field) {
        Some(s) => s.len() > 0,
        None => false,
    }
}

/// The name of the package, or the fallback when the manifest gives none.
pub open spec fn package_name_or(manifest: TomlValue, fallback: Seq<char>) -> Seq<char> {
    match package_text(manifest, "name"@) {
        Some(s) => s,
        None => fallback,
    }
}

/// A dependency given by a table with a `path` key and no `version` key.
pub open spec fn is_path_only(v: TomlValue) -> bool {
    match v {
        TomlValue::Table(entries) => entry_lookup(entries@, "path"@) is Some && entry_lookup(
            entries@,
            "version"@,
        ) is None,
        _ => false,
    }
}

/// The names of the path-only dependencies among the entries, in order.
pub open spec fn path_only_in(entries: Seq<(String, TomlValue)>) -> Seq<Seq<char>>
    decreases entries.len(),
{
    if entries.len() == 0 {
        Seq::empty()
    } else {
        let rest = path_only_in(entries.drop_last());
        if is_path_only(entries.last().1) {
            rest.push(entries.last().0@)
        } else {
            rest
        }
    }
}

/// The entries of a dependency section, when the section is a table.
pub open spec fn section_entries(manifest: TomlValue, section: Seq<char>) -> Seq<(String, TomlValue)> {
    match lookup(manifest, section) {
        Some(TomlValue::Table(entries)) => entries@,
        _ => Seq::empty(),
    }
}

/// The path-only dependencies of a manifest: those of `[dependencies]`,
/// then `[dev-dependencies]`, then `[build-dependencies]`.
pub open spec fn path_only_dependencies(manifest: TomlValue) -> Seq<Seq<char>> {
    path_only_in(section_entries(manifest, "dependencies"@)) + path_only_in(
        section_entries(manifest, "dev-dependencies"@),
    ) + path_only_in(section_entries(manifest, "build-dependencies"@))
}

/// The items joined by the separator.
pub open spec fn join(items: Seq<Seq<char>>, sep: Seq<char>) -> Seq<char>
    decreases items.len(),
{
    if items.len() == 0 {
        Seq::empty()
    } else if items.len() == 1 {
        items[0]
    } else {
        join(items.drop_last(), sep) + sep + items.last()
    }
}

proof fn lemma_entry_lookup_skip(entries: Seq<(String, TomlValue)>, key: Seq<char>, i: int)
    requires
        0 <= i <= entries.len(),
        forall|j: int| 0 <= j < i ==> (#[trigger] entries[j]).0@ != key,
    ensures
        entry_lookup(entries, key) == entry_lookup(entries.subrange(i, entries.len() as int), key),
    decreases i,
{
    if i == 0 {
        assert(entries.subrange(0, entries.len() as int) =~= entries);
    } else {
        let d = entries.drop_first();
        assert forall|j: int| 0 <= j < i - 1 implies (#[trigger] d[j]).0@ != key by {
            assert(d[j] == entries[j + 1]);
        }
        lemma_entry_lookup_skip(d, key, i - 1);
        assert(d.subrange(i - 1, d.len() as int) =~= entries.subrange(i, entries.len() as int));
    }
}

proof fn lemma_path_only_in_members(es: Seq<(String, TomlValue)>)
    ensures
        forall|i: int| 0 <= i < es.len() && is_path_only(es[i].1) ==> #[trigger] path_only_in(es).contains(es[i].0@),
        forall|n: Seq<char>| #[trigger] path_only_in(es).contains(n) ==> exists|i: int|
            0 <= i < es.len() && es[i].0@ == n && is_path_only(es[i].1),
    decreases es.len(),
{
    if es.len() > 0 {
        let d = es.drop_last();
        lemma_path_only_in_members(d);
        let rest = path_only_in(d);
        let all = path_only_in(es);
        assert forall|i: int| 0 <= i < es.len() && is_path_only(es[i].1) implies #[trigger] all.contains(es[i].0@) by {
            if i < es.len() - 1 {
                assert(d[i] == es[i]);
                assert(rest.contains(d[i].0@));
                let j = choose|j: int| 0 <= j < rest.len() && rest[j] == d[i].0@;
                assert(all[j] == rest[j]);
            } else {
                assert(all[rest.len() as int] == es.last().0@);
            }
        }
        assert forall|n: Seq<char>| #[trigger] all.contains(n) implies exists|i: int|
            0 <= i < es.len() && es[i].0@ == n && is_path_only(es[i].1) by {
            let j = choose|j: int| 0 <= j < all.len() && all[j] == n;
            if j < rest.len() {
                assert(all[j] == rest[j]);
                assert(rest.contains(n));
                let i = choose|i: int| 0 <= i < d.len() && d[i].0@ == n && is_path_only(d[i].1);
                assert(es[i] == d[i]);
            } else {
                assert(es[es.len() - 1] == es.last());
            }
        }
    }
}

/// The sections whose dependencies are checked.
pub open spec fn is_dependency_section(section: Seq<char>) -> bool {
    section == "dependencies"@ || section == "dev-dependencies"@ || section == "build-dependencies"@
}

/// The path-only dependencies of a manifest are exactly the path-only
/// entries of its `[dependencies]`, `[dev-dependencies]` and
/// `[build-dependencies]` tables: each of them is named, and every name
/// given is the key of one of them.
pub proof fn lemma_path_only_dependencies_members(m: TomlValue)
    ensures
        forall|section: Seq<char>, i: int|
            is_dependency_section(section) && 0 <= i < section_entries(m, section).len() && is_path_only(
                #[trigger] section_entries(m, section)[i].1,
            ) ==> path_only_dependencies(m).contains(section_entries(m, section)[i].0@),
        forall|n: Seq<char>| #[trigger] path_only_dependencies(m).contains(n) ==> exists|section: Seq<char>, i: int|
            is_dependency_section(section) && 0 <= i < section_entries(m, section).len() && #[trigger] section_entries(
                m,
                section,
            )[i].0@ == n && is_path_only(section_entries(m, section)[i].1),
{
    let a = path_only_in(section_entries(m, "dependencies"@));
    let b = path_only_in(section_entries(m, "dev-dependencies"@));
    let c = path_only_in(section_entries(m, "build-dependencies"@));
    let all = path_only_dependencies(m);
    assert(all == a + b + c);
    lemma_path_only_in_members(section_entries(m, "dependencies"@));
    lemma_path_only_in_members(section_entries(m, "dev-dependencies"@));
    lemma_path_only_in_members(section_entries(m, "build-dependencies"@));
    assert forall|section: Seq<char>, i: int|
        is_dependency_section(section) && 0 <= i < section_entries(m, section).len() && is_path_only(
            #[trigger] section_entries(m, section)[i].1,
        ) implies all.contains(section_entries(m, section)[i].0@) by {
        let n = section_entries(m, section)[i].0@;
        if section == "dependencies"@ {
            assert(a.contains(n));
            let j = choose|j: int| 0 <= j < a.len() && a[j] == n;
            assert(all[j] == a[j]);
        } else if section == "dev-dependencies"@ {
            assert(b.contains(n));
            let j = choose|j: int| 0 <= j < b.len() && b[j] == n;
            assert(all[a.len() + j] == b[j]);
        } else {
            assert(c.contains(n));
            let j = choose|j: int| 0 <= j < c.len() && c[j] == n;
            assert(all[a.len() + b.len() + j] == c[j]);
        }
    }
    assert forall|n: Seq<char>| #[trigger] all.contains(n) implies exists|section: Seq<char>, i: int|
        is_dependency_section(section) && 0 <= i < section_entries(m, section).len() && #[trigger] section_entries(
            m,
            section,
        )[i].0@ == n && is_path_only(section_entries(m, section)[i].1) by {
        let j = choose|j: int| 0 <= j < all.len() && all[j] == n;
        if j < a.len() {
            assert(a[j] == all[j]);
            assert(a.contains(n));
            let section = "dependencies"@;
            let i = choose|i: int| 0 <= i < section_entries(m, section).len() && section_entries(m, section)[i].0@ == n
                && is_path_only(section_entries(m, section)[i].1);
            assert(is_dependency_section(section));
        } else if j < a.len() + b.len() {
            assert(b[j - a.len()] == all[j]);
            assert(b.contains(n));
            let section = "dev-dependencies"@;
            let i = choose|i: int| 0 <= i < section_entries(m, section).len() && section_entries(m, section)[i].0@ == n
                && is_path_only(section_entries(m, section)[i].1);
            assert(is_dependency_section(section));
        } else {
            assert(c[j - a.len() - b.len()] == all[j]);
            assert(c.contains(n));
            let section = "build-dependencies"@;
            let i = choose|i: int| 0 <= i < section_entries(m, section).len() && section_entries(m, section)[i].0@ == n
                && is_path_only(section_entries(m, section)[i].1);
            assert(is_dependency_section(section));
        }
    }
}

/// Some entry has the key.
pub open spec fn has_key(entries: Seq<(String, TomlValue)>, key: Seq<char>) -> bool {
    exists|i: int| 0 <= i < entries.len() && (#[trigger] entries[i]).0@ == key
}

proof fn lemma_entry_lookup_some(entries: Seq<(String, TomlValue)>, key: Seq<char>)
    ensures
        entry_lookup(entries, key) is Some <==> has_key(entries, key),
    decreases entries.len(),
{
    if entries.len() > 0 {
        if entries[0].0@ == key {
            assert(entries[0].0@ == key);
        } else {
            let d = entries.drop_first();
            lemma_entry_lookup_some(d, key);
            if has_key(d, key) {
                let j = choose|j: int| 0 <= j < d.len() && (#[trigger] d[j]).0@ == key;
                assert(entries[j + 1] == d[j]);
            }
            if has_key(entries, key) {
                let j = choose|j: int| 0 <= j < entries.len() && (#[trigger] entries[j]).0@ == key;
                assert(d[j - 1] == entries[j]);
            }
        }
    }
}

/// A dependency is path-only exactly when it is given by a table that has
/// a `path` key and no `version` key, whatever other keys (features,
/// optional, default-features, ...) the table holds.
pub proof fn lemma_path_only_by_keys(v: TomlValue)
    ensures
        is_path_only(v) <==> match v {
            TomlValue::Table(entries) => has_key(entries@, "path"@) && !has_key(entries@, "version"@),
            _ => false,
        },
{
    if let TomlValue::Table(entries) = v {
        lemma_entry_lookup_some(entries@, "path"@);
        lemma_entry_lookup_some(entries@, "version"@);
    }
}

/// Adding to a dependency's table an entry whose key is neither `path` nor
/// `version` does not change whether the dependency is path-only.
pub proof fn lemma_path_only_ignores_other_keys(a: Vec<(String, TomlValue)>, b: Vec<(String, TomlValue)>, i: int)
    requires
        0 <= i <= a@.len(),
        b@ == a@.insert(i, b@[i]),
        b@[i].0@ != "path"@,
        b@[i].0@ != "version"@,
    ensures
        is_path_only(TomlValue::Table(b)) == is_path_only(TomlValue::Table(a)),
{
    lemma_path_only_by_keys(TomlValue::Table(a));
    lemma_path_only_by_keys(TomlValue::Table(b));
    assert forall|key: Seq<char>| key != b@[i].0@ implies has_key(b@, key) == has_key(a@, key) by {
        if has_key(a@, key) {
            let j = choose|j: int| 0 <= j < a@.len() && (#[trigger] a@[j]).0@ == key;
            if j < i {
                assert(b@[j] == a@[j]);
            } else {
                assert(b@[j + 1] == a@[j]);
            }
        }
        if has_key(b@, key) {
            let j = choose|j: int| 0 <= j < b@.len() && (#[trigger] b@[j]).0@ == key;
            if j < i {
                assert(b@[j] == a@[j]);
            } else {
                assert(j != i);
                assert(b@[j] == a@[j - 1]);
            }
        }
    }
}

/// The value under `key` in a list of entries.
fn find_entry<'a>(entries: &'a Vec<(String, TomlValue)>, key: &str) -> (found: Option<&'a TomlValue>)
    ensures
        match found {
            Some(v) => entry_lookup(entries@, key@) == Some(*v),
            None => entry_lookup(entries@, key@) is None,
        },
{
    let n = entries.len();
    let mut i: usize = 0;
    while i < n
        invariant
            n == entries.len(),
            i <= n,
            forall|j: int| 0 <= j < i ==> (#[trigger] entries@[j]).0@ != key@,
        decreases n - i,
    {
        if string_eq_str(&entries[i].0, key) {
            proof {
                lemma_entry_lookup_skip(entries@, key@, i as int);
            }
            return Some(&entries[i].1);
        }
        i = i + 1;
    }
    proof {
        lemma_entry_lookup_skip(entries@, key@, n as int);
    }
    None
}

/// Whether a string equals a string slice.
fn string_eq_str(s: &String, t: &str) -> (eq: bool)
    ensures
        eq == (s@ == t@),
{
    let a = crate::text::chars_of(s.as_str());
    let b = crate::text::chars_of(t);
    if a.len() != b.len() {
        return false;
    }
    let n = a.len();
    let mut i: usize = 0;
    while i < n
        invariant
            n == a.len(),
            n == b.len(),
            a@ == s@,
            b@ == t@,
            i <= n,
            forall|j: int| 0 <= j < i ==> a@[j] == b@[j],
        decreases n - i,
    {
        if a[i] != b[i] {
            assert(a@[i as int] != b@[i as int]);
            return false;
        }
        i = i + 1;
    }
    assert(a@ =~= b@);
    true
}

impl TomlValue {
    /// `value.get(key)`: the entry of a table under `key`.
    pub fn get(&self, key: &str) -> (found: Option<&TomlValue>)
        ensures
            match found {
                Some(v) => lookup(*self, key@) == Some(*v),
                None => lookup(*self, key@) is None,
            },
    {
        match self {
            TomlValue::Table(entries) => find_entry(entries, key),
            _ => None,
        }
    }

    /// `value.as_str()`.
    pub fn as_str(&self) -> (s: Option<&String>)
        ensures
            match s {
                Some(t) => text_of(Some(*self)) == Some(t@),
                None => text_of(Some(*self)) is None,
            },
    {
        match self {
            TomlValue::String(t) => Some(t),
            _ => None,
        }
    }
}

/// The text of a package field: `manifest.get("package")?.get(field)?.as_str()`.
pub fn package_field<'a>(manifest: &'a TomlValue, field: &str) -> (text: Option<&'a String>)
    ensures
        match text {
            Some(t) => package_text(*manifest, field@) == Some(t@),
            None => package_text(*manifest, field@) is None,
        },
{
    match manifest.get("package") {
        Some(p) => match p.get(field) {
            Some(v) => v.as_str(),
            None => None,
        },
        None => None,
    }
}

/// Whether the package field is a string that is not empty.
pub fn has_package_field(manifest: &TomlValue, field: &str) -> (present: bool)
    ensures
        present == package_has(*manifest, field@),
{
    match package_field(manifest, field) {
        Some(t) => !t.as_str().is_empty(),
        None => false,
    }
}

/// The name of the package, or `fallback` when the manifest gives none.
pub fn package_name(manifest: &TomlValue, fallback: &String) -> (name: String)
    ensures
        name@ == package_name_or(*manifest, fallback@),
{
    match package_field(manifest, "name") {
        Some(t) => t.clone(),
        None => fallback.clone(),
    }
}

/// Whether a dependency is given by a table with a `path` key and no
/// `version` key.
fn dependency_is_path_only(v: &TomlValue) -> (path_only: bool)
    ensures
        path_only == is_path_only(*v),
{
    match v {
        TomlValue::Table(entries) => find_entry(entries, "path").is_some() && find_entry(
            entries,
            "version",
        ).is_none(),
        _ => false,
    }
}

/// Appends the names of the path-only dependencies of a section.
fn collect_path_only(section: &TomlValue, names: &mut Vec<String>)
    ensures
        names_view(final(names)@) == names_view(old(names)@) + path_only_in(
            match *section {
                TomlValue::Table(entries) => entries@,
                _ => Seq::empty(),
            },
        ),
{
    match section {
        TomlValue::Table(entries) => {
            let ghost start = names_view(names@);
            let n = entries.len();
            let mut i: usize = 0;
            while i < n
                invariant
                    n == entries.len(),
                    i <= n,
                    names_view(names@) == start + path_only_in(entries@.take(i as int)),
                decreases n - i,
            {
                let ghost before = names@;
                assert(entries@.take(i + 1).drop_last() =~= entries@.take(i as int));
                if dependency_is_path_only(&entries[i].1) {
                    names.push(entries[i].0.clone());
                    assert(names_view(names@) =~= names_view(before).push(entries@[i as int].0@));
                }
                i = i + 1;
            }
            assert(entries@.take(n as int) =~= entries@);
        },
        _ => {
            assert(path_only_in(Seq::<(String, TomlValue)>::empty()) =~= Seq::<Seq<char>>::empty());
            assert(names_view(names@) + Seq::<Seq<char>>::empty() =~= names_view(names@));
        },
    }
}

/// The views of a sequence of strings.
pub open spec fn names_view(names: Seq<String>) -> Seq<Seq<char>> {
    names.map_values(|s: String| s@)
}

/// The names of the dependencies given only by a path, in the order of
/// `[dependencies]`, `[dev-dependencies]` and `[build-dependencies]`.
pub fn path_only_dependency_names(manifest: &TomlValue) -> (names: Vec<String>)
    ensures
        names_view(names@) == path_only_dependencies(*manifest),
{
    let mut names: Vec<String> = Vec::new();
    assert(names_view(names@) =~= Seq::<Seq<char>>::empty());
    let sections = ["dependencies", "dev-dependencies", "build-dependencies"];
    let mut k: usize = 0;
    while k < 3
        invariant
            sections@ == seq!["dependencies", "dev-dependencies", "build-dependencies"],
            k <= 3,
            names_view(names@) == section_prefix(*manifest, k as int),
        decreases 3 - k,
    {
        let section = sections[k];
        match manifest.get(section) {
            Some(v) => {
                match v {
                    TomlValue::Table(_) => collect_path_only(v, &mut names),
                    _ => {},
                }
            },
            None => {},
        }
        proof {
            let a = path_only_in(section_entries(*manifest, "dependencies"@));
            assert(Seq::<Seq<char>>::empty() + a =~= a);
        }
        k = k + 1;
    }
    names
}

/// The path-only dependencies of the first `k` sections.
pub open spec fn section_prefix(manifest: TomlValue, k: int) -> Seq<Seq<char>> {
    let a = path_only_in(section_entries(manifest, "dependencies"@));
    let b = path_only_in(section_entries(manifest, "dev-dependencies"@));
    let c = path_only_in(section_entries(manifest, "build-dependencies"@));
    if k <= 0 {
        Seq::empty()
    } else if k == 1 {
        a
    } else if k == 2 {
        a + b
    } else {
        a + b + c
    }
}

/// The items joined by the separator.
pub fn join_names(items: &Vec<String>, sep: &str) -> (joined: String)
    ensures
        joined@ == join(names_view(items@), sep@),
{
    let mut out = String::new();
    let n = items.len();
    let mut i: usize = 0;
    while i < n
        invariant
            n == items.len(),
            i <= n,
            out@ == join(names_view(items@).take(i as int), sep@),
        decreases n - i,
    {
        assert(names_view(items@).take(i + 1).drop_last() =~= names_view(items@).take(i as int));
        if i > 0 {
            out.append(sep);
        }
        out.append(items[i].as_str());
        proof {
            if i == 0 {
                assert(out@ =~= items@[0]@);
            }
        }
        i = i + 1;
    }
    assert(names_view(items@).take(n as int) =~= names_view(items@));
    out
}

} // verus!
