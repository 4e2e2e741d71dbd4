//! The manifest model: a package's identity, declared features, and its
//! base and per-feature dependency, define and library lists, read from a
//! manifest document.
//!
//! A document is held as plain values (`ConfigValue`): tables are ordered
//! lists of entries, and a scalar keeps its TOML rendering, which is what a
//! define's value is made of.

use vstd::prelude::*;
use crate::features::{Duplicate, names, views, table_view, platform_names, base_features};

verus! {

/// One value of a manifest document.
#[derive(Debug)]
pub enum ConfigValue {
    /// A string: its contents, and its TOML rendering.
    Text(String, String),
    /// An integer, float or boolean: its TOML rendering.
    Scalar(String),
    /// A date or time: its TOML rendering.
    Datetime(String),
    Array(Vec<ConfigValue>),
    /// A table written inline, `{ key = value, ... }`.
    InlineTable(Vec<(String, ConfigValue)>),
    /// A table written as a `[section]`.
    Table(Vec<(String, ConfigValue)>),
}

/// Why a manifest cannot be used.
#[derive(Debug, Clone, Copy, PartialEq, Eq, Structural)]
pub enum ManifestError {
    /// No manifest file at the package's path.
    Missing,
    /// Not a manifest: bad syntax, or the package section, its name or
    /// version, or the dependencies section is absent.
    Unparsable,
    /// A dependency entry that is not an inline table, or a feature's
    /// dependency section that is not a table.
    UnsupportedDependencyShape,
    /// A define whose value is not a string, integer, float or boolean.
    UnsupportedDefine,
    /// A defines or libraries section, or a feature section in one, that is not a table.
    MalformedSection,
}

/// The value under `key` in a table: the first entry with that key.
pub open spec fn get_entry(entries: Seq<(String, ConfigValue)>, key: Seq<char>) -> Option<ConfigValue>
    decreases entries.len(),
{
    if entries.len() == 0 {
        None
    } else if entries[0].0@ == key {
        Some(entries[0].1)
    } else {
        get_entry(entries.drop_first(), key)
    }
}

pub open spec fn as_text(v: Option<ConfigValue>) -> Option<Seq<char>> {
    match v {
        Some(ConfigValue::Text(s, _)) => Some(s@),
        _ => None,
    }
}

/// The string items of an array, in order; other items are skipped.
pub open spec fn text_items(items: Seq<ConfigValue>) -> Seq<Seq<char>>
    decreases items.len(),
{
    if items.len() == 0 {
        Seq::empty()
    } else {
        let prev = text_items(items.drop_last());
        match items.last() {
            ConfigValue::Text(s, _) => prev.push(s@),
            _ => prev,
        }
    }
}

/// The strings of an optional array value; nothing when it is absent or not an array.
pub open spec fn string_list(v: Option<ConfigValue>) -> Seq<Seq<char>> {
    match v {
        Some(ConfigValue::Array(items)) => text_items(items@),
        _ => Seq::empty(),
    }
}

/// The keys of a table, in order.
pub open spec fn keys(entries: Seq<(String, ConfigValue)>) -> Seq<Seq<char>> {
    entries.map_values(|e: (String, ConfigValue)| e.0@)
}

#[derive(Debug)]
pub struct Package {
    pub name: String,
    pub version: String,
    pub features: Vec<String>,
}

pub struct PackageView {
    pub name: Seq<char>,
    pub version: Seq<char>,
    pub features: Seq<Seq<char>>,
}

impl View for Package {
    type V = PackageView;

    open spec fn view(&self) -> PackageView {
        PackageView { name: self.name@, version: self.version@, features: names(self.features@) }
    }
}

/// A dependency declaration: a name, the path of the package relative to
/// the declaring manifest, and the features asked of it.
#[derive(Debug)]
pub struct Dependency {
    pub name: String,
    pub path: Option<String>,
    pub features: Vec<String>,
}

pub struct DependencyView {
    pub name: Seq<char>,
    pub path: Option<Seq<char>>,
    pub features: Seq<Seq<char>>,
}

impl View for Dependency {
    type V = DependencyView;

    open spec fn view(&self) -> DependencyView {
        DependencyView {
            name: self.name@,
            path: match self.path {
                Some(p) => Some(p@),
                None => None,
            },
            features: names(self.features@),
        }
    }
}

impl Duplicate for Dependency {
    fn duplicate(&self) -> (r: Dependency) {
        let path = match &self.path {
            Some(p) => Some(p.clone()),
            None => None,
        };
        Dependency {
            name: self.name.clone(),
            path,
            features: crate::features::duplicate_all(&self.features),
        }
    }
}

#[derive(Debug)]
pub struct Dependencies {
    pub base: Vec<Dependency>,
    pub features: Vec<(String, Vec<Dependency>)>,
}

#[derive(Debug)]
pub struct Defines {
    pub base: Vec<(String, Option<String>)>,
    pub features: Vec<(String, Vec<(String, Option<String>)>)>,
}

#[derive(Debug)]
pub struct Libraries {
    pub base: Vec<String>,
    pub features: Vec<(String, Vec<String>)>,
}

impl Default for Defines {
    fn default() -> (r: Defines)
        ensures
            r.base@.len() == 0,
            r.features@.len() == 0,
    {
        Defines { base: Vec::new(), features: Vec::new() }
    }
}

impl Default for Libraries {
    fn default() -> (r: Libraries)
        ensures
            r.base@.len() == 0,
            r.features@.len() == 0,
    {
        Libraries { base: Vec::new(), features: Vec::new() }
    }
}

/// A loaded manifest.
#[derive(Debug)]
pub struct TeaConfig {
    pub package: Package,
    pub dependencies: Dependencies,
    pub defines: Defines,
    pub libraries: Libraries,
}

/// The features a package knows: the platform names, then its declared names.
pub open spec fn universe(c: TeaConfig) -> Seq<Seq<char>> {
    platform_names() + names(c.package.features@)
}

// ---- reading a document ----

/// A package section: `name` and `version` strings, and an optional
/// `features` array whose strings are kept.
pub open spec fn package_spec(table: Seq<(String, ConfigValue)>) -> Option<PackageView> {
    match (as_text(get_entry(table, "name"@)), as_text(get_entry(table, "version"@))) {
        (Some(n), Some(v)) => Some(
            PackageView { name: n, version: v, features: string_list(get_entry(table, "features"@)) },
        ),
        _ => None,
    }
}

/// A dependency entry, when it is an inline table.
pub open spec fn dependency_spec(name: Seq<char>, v: ConfigValue) -> Result<DependencyView, ManifestError> {
    match v {
        ConfigValue::InlineTable(t) => Ok(
            DependencyView {
                name,
                path: as_text(get_entry(t@, "path"@)),
                features: string_list(get_entry(t@, "features"@)),
            },
        ),
        _ => Err(ManifestError::UnsupportedDependencyShape),
    }
}

/// A define entry: an empty string means no value; another string, an
/// integer, a float or a boolean gives its TOML rendering.
pub open spec fn define_spec(name: Seq<char>, v: ConfigValue) -> Result<
    (Seq<char>, Option<String>),
    ManifestError,
> {
    match v {
        ConfigValue::Text(s, rendered) => Ok(
            (name, if s@.len() == 0 { None } else { Some(rendered) }),
        ),
        ConfigValue::Scalar(rendered) => Ok((name, Some(rendered))),
        _ => Err(ManifestError::UnsupportedDefine),
    }
}

/// Every entry of a table read by `read`, in order; the first failure, if any.
pub open spec fn list_spec<V>(
    entries: Seq<(String, ConfigValue)>,
    read: spec_fn(Seq<char>, ConfigValue) -> Result<V, ManifestError>,
) -> Result<Seq<V>, ManifestError>
    decreases entries.len(),
{
    if entries.len() == 0 {
        Ok(Seq::empty())
    } else {
        match list_spec(entries.drop_last(), read) {
            Err(e) => Err(e),
            Ok(p) => match read(entries.last().0@, entries.last().1) {
                Ok(d) => Ok(p.push(d)),
                Err(e) => Err(e),
            },
        }
    }
}

/// The entries of a table whose keys are not feature names.
pub open spec fn base_entries(entries: Seq<(String, ConfigValue)>, features: Seq<Seq<char>>) -> Seq<
    (String, ConfigValue),
>
    decreases entries.len(),
{
    if entries.len() == 0 {
        Seq::empty()
    } else {
        let prev = base_entries(entries.drop_last(), features);
        if features.contains(entries.last().0@) {
            prev
        } else {
            prev.push(entries.last())
        }
    }
}

/// For each feature name that keys a section of the table, in the order of
/// `features`, the section read by `read`. A section that is not a
/// `[table]` gives `not_table`.
pub open spec fn sections_spec<V>(
    entries: Seq<(String, ConfigValue)>,
    features: Seq<Seq<char>>,
    read: spec_fn(Seq<char>, ConfigValue) -> Result<V, ManifestError>,
    not_table: ManifestError,
) -> Result<Seq<(Seq<char>, Seq<V>)>, ManifestError>
    decreases features.len(),
{
    if features.len() == 0 {
        Ok(Seq::empty())
    } else {
        let name = features.last();
        match sections_spec(entries, features.drop_last(), read, not_table) {
            Err(e) => Err(e),
            Ok(prev) => match get_entry(entries, name) {
                None => Ok(prev),
                Some(ConfigValue::Table(t)) => match list_spec(t@, read) {
                    Ok(l) => Ok(prev.push((name, l))),
                    Err(e) => Err(e),
                },
                Some(_) => Err(not_table),
            },
        }
    }
}

/// Values that a table entry can be read as.
pub trait ReadEntry: View + Sized {
    spec fn read_spec(name: Seq<char>, v: ConfigValue) -> Result<Self::V, ManifestError>;

    fn read_entry(name: &str, v: &ConfigValue) -> (r: Result<Self, ManifestError>)
        ensures
            match r {
                Ok(x) => Self::read_spec(name@, *v) == Ok::<Self::V, ManifestError>(x@),
                Err(e) => Self::read_spec(name@, *v) == Err::<Self::V, ManifestError>(e),
            },
    ;
}

pub open spec fn reader<T: ReadEntry>() -> spec_fn(Seq<char>, ConfigValue) -> Result<T::V, ManifestError> {
    |n: Seq<char>, v: ConfigValue| T::read_spec(n, v)
}

/// A table read as a base list (entries not keyed by a feature name) and a
/// per-feature table; the first failure, if any.
pub open spec fn gated_spec<T: ReadEntry>(
    table: Seq<(String, ConfigValue)>,
    features: Seq<Seq<char>>,
    not_table: ManifestError,
) -> Result<(Seq<T::V>, Seq<(Seq<char>, Seq<T::V>)>), ManifestError> {
    match list_spec(base_entries(table, features), reader::<T>()) {
        Err(e) => Err(e),
        Ok(b) => match sections_spec(table, features, reader::<T>(), not_table) {
            Err(e) => Err(e),
            Ok(s) => Ok((b, s)),
        },
    }
}

} // verus!

verus! {

pub open spec fn opt_value(v: Option<&ConfigValue>) -> Option<ConfigValue> {
    match v {
        Some(x) => Some(*x),
        None => None,
    }
}

proof fn lemma_get_entry_at(entries: Seq<(String, ConfigValue)>, key: Seq<char>, i: int)
    requires
        0 <= i <= entries.len(),
        forall|j: int| 0 <= j < i ==> entries[j].0@ != key,
    ensures
        i < entries.len() && entries[i].0@ == key ==> get_entry(entries, key) == Some(entries[i].1),
        i == entries.len() ==> get_entry(entries, key) is None,
    decreases i,
{
    if i > 0 {
        lemma_get_entry_at(entries.drop_first(), key, i - 1);
    }
}

proof fn lemma_base_entries_unfiltered(entries: Seq<(String, ConfigValue)>)
    ensures
        base_entries(entries, Seq::empty()) == entries,
    decreases entries.len(),
{
    if entries.len() > 0 {
        lemma_base_entries_unfiltered(entries.drop_last());
        assert(entries.drop_last().push(entries.last()) =~= entries);
    }
}

/// The value under `key` in a table.
pub fn get_value<'a>(entries: &'a Vec<(String, ConfigValue)>, key: &str) -> (r: Option<&'a ConfigValue>)
    ensures
        opt_value(r) == get_entry(entries@, key@),
{
    let mut i: usize = 0;
    while i < entries.len()
        invariant
            i <= entries@.len(),
            forall|j: int| 0 <= j < i ==> entries@[j].0@ != key@,
        decreases entries@.len() - i,
    {
        if crate::text::same_text(entries[i].0.as_str(), key) {
            proof {
                lemma_get_entry_at(entries@, key@, i as int);
            }
            return Some(&entries[i].1);
        }
        i = i + 1;
    }
    proof {
        lemma_get_entry_at(entries@, key@, i as int);
    }
    None
}

/// The strings of an optional array value.
pub fn string_items(v: Option<&ConfigValue>) -> (r: Vec<String>)
    ensures
        names(r@) == string_list(opt_value(v)),
{
    let mut r: Vec<String> = Vec::new();
    match v {
        Some(ConfigValue::Array(items)) => {
            let mut i: usize = 0;
            while i < items.len()
                invariant
                    i <= items@.len(),
                    names(r@) == text_items(items@.subrange(0, i as int)),
                decreases items@.len() - i,
            {
                let ghost prev = r@;
                assert(items@.subrange(0, i + 1).drop_last() =~= items@.subrange(0, i as int));
                match &items[i] {
                    ConfigValue::Text(s, _) => {
                        r.push(s.clone());
                        assert(names(r@) =~= names(prev).push(s@));
                    },
                    _ => {},
                }
                i = i + 1;
            }
            assert(items@.subrange(0, items@.len() as int) =~= items@);
        },
        _ => {
            assert(names(r@) =~= Seq::<Seq<char>>::empty());
        },
    }
    r
}

/// The string under `key` in a table, if it is a string.
fn text_value(entries: &Vec<(String, ConfigValue)>, key: &str) -> (r: Option<String>)
    ensures
        match r {
            Some(s) => as_text(get_entry(entries@, key@)) == Some(s@),
            None => as_text(get_entry(entries@, key@)) is None,
        },
{
    match get_value(entries, key) {
        Some(ConfigValue::Text(s, _)) => Some(s.clone()),
        _ => None,
    }
}

impl Package {
    /// Reads a package section.
    pub fn parse(table: &Vec<(String, ConfigValue)>) -> (r: Option<Package>)
        ensures
            match r {
                Some(p) => package_spec(table@) == Some(p@),
                None => package_spec(table@) is None,
            },
    {
        let name = text_value(table, "name");
        let version = text_value(table, "version");
        match (name, version) {
            (Some(name), Some(version)) => {
                let features = string_items(get_value(table, "features"));
                Some(Package { name, version, features })
            },
            _ => None,
        }
    }
}

impl ReadEntry for Dependency {
    open spec fn read_spec(name: Seq<char>, v: ConfigValue) -> Result<DependencyView, ManifestError> {
        dependency_spec(name, v)
    }

    fn read_entry(name: &str, v: &ConfigValue) -> (r: Result<Dependency, ManifestError>) {
        Dependency::parse(name, v)
    }
}

impl Dependency {
    /// Reads a dependency entry; it must be an inline table.
    pub fn parse(name: &str, value: &ConfigValue) -> (r: Result<Dependency, ManifestError>)
        ensures
            match r {
                Ok(d) => dependency_spec(name@, *value) == Ok::<DependencyView, ManifestError>(d@),
                Err(e) => dependency_spec(name@, *value) == Err::<DependencyView, ManifestError>(e),
            },
    {
        match value {
            ConfigValue::InlineTable(t) => {
                let path = text_value(t, "path");
                let features = string_items(get_value(t, "features"));
                Ok(Dependency { name: name.to_owned(), path, features })
            },
            _ => Err(ManifestError::UnsupportedDependencyShape),
        }
    }
}

/// Reads the entries of a table whose keys are not in `skip`.
fn read_list<T: ReadEntry>(entries: &Vec<(String, ConfigValue)>, skip: &Vec<String>) -> (r: Result<
    Vec<T>,
    ManifestError,
>)
    ensures
        match r {
            Ok(v) => list_spec(base_entries(entries@, names(skip@)), reader::<T>()) == Ok::<
                Seq<T::V>,
                ManifestError,
            >(views(v@)),
            Err(e) => list_spec(base_entries(entries@, names(skip@)), reader::<T>()) == Err::<
                Seq<T::V>,
                ManifestError,
            >(e),
        },
{
    let ghost f = names(skip@);
    let ghost read = reader::<T>();
    let mut out: Vec<T> = Vec::new();
    let mut err: Option<ManifestError> = None;
    let mut i: usize = 0;
    assert(entries@.subrange(0, 0) =~= Seq::<(String, ConfigValue)>::empty());
    assert(views(out@) =~= Seq::<T::V>::empty());
    while i < entries.len()
        invariant
            i <= entries@.len(),
            f == names(skip@),
            read == reader::<T>(),
            match err {
                None => list_spec(base_entries(entries@.subrange(0, i as int), f), read) == Ok::<
                    Seq<T::V>,
                    ManifestError,
                >(views(out@)),
                Some(e) => list_spec(base_entries(entries@.subrange(0, i as int), f), read) == Err::<
                    Seq<T::V>,
                    ManifestError,
                >(e),
            },
        decreases entries@.len() - i,
    {
        let ghost pre = entries@.subrange(0, i as int);
        let ghost cur = entries@.subrange(0, i + 1);
        assert(cur.drop_last() =~= pre);
        let ghost kept = base_entries(pre, f);
        assert(kept.push(entries@[i as int]).drop_last() =~= kept);
        if !crate::features::contains_name(skip, &entries[i].0) {
            let ghost prev = out@;
            match T::read_entry(entries[i].0.as_str(), &entries[i].1) {
                Ok(d) => {
                    if err.is_none() {
                        out.push(d);
                        assert(views(out@) =~= views(prev).push(out@.last()@));
                    }
                },
                Err(e) => {
                    if err.is_none() {
                        err = Some(e);
                    }
                },
            }
        }
        i = i + 1;
    }
    assert(entries@.subrange(0, entries@.len() as int) =~= entries@);
    match err {
        None => Ok(out),
        Some(e) => Err(e),
    }
}

/// Reads, for each feature name that keys a section of `table`, that section.
fn read_sections<T: ReadEntry>(
    table: &Vec<(String, ConfigValue)>,
    features: &Vec<String>,
    not_table: ManifestError,
) -> (r: Result<Vec<(String, Vec<T>)>, ManifestError>)
    ensures
        match r {
            Ok(v) => sections_spec(table@, names(features@), reader::<T>(), not_table) == Ok::<
                Seq<(Seq<char>, Seq<T::V>)>,
                ManifestError,
            >(table_view(v@)),
            Err(e) => sections_spec(table@, names(features@), reader::<T>(), not_table) == Err::<
                Seq<(Seq<char>, Seq<T::V>)>,
                ManifestError,
            >(e),
        },
{
    let ghost f = names(features@);
    let ghost read = reader::<T>();
    let no_skip: Vec<String> = Vec::new();
    let mut out: Vec<(String, Vec<T>)> = Vec::new();
    let mut err: Option<ManifestError> = None;
    let mut k: usize = 0;
    assert(f.subrange(0, 0) =~= Seq::<Seq<char>>::empty());
    assert(table_view(out@) =~= Seq::<(Seq<char>, Seq<T::V>)>::empty());
    while k < features.len()
        invariant
            k <= features@.len(),
            f == names(features@),
            read == reader::<T>(),
            no_skip@.len() == 0,
            match err {
                None => sections_spec(table@, f.subrange(0, k as int), read, not_table) == Ok::<
                    Seq<(Seq<char>, Seq<T::V>)>,
                    ManifestError,
                >(table_view(out@)),
                Some(e) => sections_spec(table@, f.subrange(0, k as int), read, not_table) == Err::<
                    Seq<(Seq<char>, Seq<T::V>)>,
                    ManifestError,
                >(e),
            },
        decreases features@.len() - k,
    {
        assert(f.subrange(0, k + 1).drop_last() =~= f.subrange(0, k as int));
        assert(f.subrange(0, k + 1).last() == features@[k as int]@);
        assert(names(no_skip@) =~= Seq::<Seq<char>>::empty());
        match get_value(table, features[k].as_str()) {
            None => {},
            Some(ConfigValue::Table(t)) => {
                proof {
                    lemma_base_entries_unfiltered(t@);
                }
                match read_list::<T>(t, &no_skip) {
                    Ok(l) => {
                        if err.is_none() {
                            let ghost prev = out@;
                            out.push((features[k].clone(), l));
                            assert(table_view(out@) =~= table_view(prev).push(
                                (features@[k as int]@, views(l@)),
                            ));
                        }
                    },
                    Err(e) => {
                        if err.is_none() {
                            err = Some(e);
                        }
                    },
                }
            },
            Some(_) => {
                if err.is_none() {
                    err = Some(not_table);
                }
            },
        }
        k = k + 1;
    }
    assert(f.subrange(0, features@.len() as int) =~= f);
    match err {
        None => Ok(out),
        Some(e) => Err(e),
    }
}

/// Reads a base list and a per-feature table out of one section.
fn read_gated<T: ReadEntry>(
    table: &Vec<(String, ConfigValue)>,
    features: &Vec<String>,
    not_table: ManifestError,
) -> (r: Result<(Vec<T>, Vec<(String, Vec<T>)>), ManifestError>)
    ensures
        match r {
            Ok((b, s)) => gated_spec::<T>(table@, names(features@), not_table) == Ok::<
                (Seq<T::V>, Seq<(Seq<char>, Seq<T::V>)>),
                ManifestError,
            >((views(b@), table_view(s@))),
            Err(e) => gated_spec::<T>(table@, names(features@), not_table) == Err::<
                (Seq<T::V>, Seq<(Seq<char>, Seq<T::V>)>),
                ManifestError,
            >(e),
        },
{
    let base = match read_list::<T>(table, features) {
        Ok(b) => b,
        Err(e) => return Err(e),
    };
    match read_sections::<T>(table, features, not_table) {
        Ok(s) => Ok((base, s)),
        Err(e) => Err(e),
    }
}

impl ReadEntry for (String, Option<String>) {
    open spec fn read_spec(name: Seq<char>, v: ConfigValue) -> Result<
        (Seq<char>, Option<String>),
        ManifestError,
    > {
        define_spec(name, v)
    }

    fn read_entry(name: &str, v: &ConfigValue) -> (r: Result<(String, Option<String>), ManifestError>) {
        Defines::parse_define(name, v)
    }
}

impl ReadEntry for String {
    open spec fn read_spec(name: Seq<char>, v: ConfigValue) -> Result<Seq<char>, ManifestError> {
        Ok(name)
    }

    fn read_entry(name: &str, v: &ConfigValue) -> (r: Result<String, ManifestError>) {
        Ok(name.to_owned())
    }
}

impl Dependencies {
    /// Reads a dependencies section: entries not keyed by a feature name
    /// are base dependencies; a `[table]` keyed by a feature name holds that
    /// feature's dependencies.
    pub fn parse(table: &Vec<(String, ConfigValue)>, feature_names: &Vec<String>) -> (r: Result<
        Dependencies,
        ManifestError,
    >)
        ensures
            match r {
                Ok(d) => gated_spec::<Dependency>(
                    table@,
                    names(feature_names@),
                    ManifestError::UnsupportedDependencyShape,
                ) == Ok::<(Seq<DependencyView>, Seq<(Seq<char>, Seq<DependencyView>)>), ManifestError>(
                    (views(d.base@), table_view(d.features@)),
                ),
                Err(e) => gated_spec::<Dependency>(
                    table@,
                    names(feature_names@),
                    ManifestError::UnsupportedDependencyShape,
                ) == Err::<(Seq<DependencyView>, Seq<(Seq<char>, Seq<DependencyView>)>), ManifestError>(
                    e,
                ),
            },
    {
        match read_gated::<Dependency>(table, feature_names, ManifestError::UnsupportedDependencyShape) {
            Ok((base, features)) => Ok(Dependencies { base, features }),
            Err(e) => Err(e),
        }
    }
}

impl Defines {
    /// Reads one define entry.
    pub fn parse_define(name: &str, item: &ConfigValue) -> (r: Result<(String, Option<String>), ManifestError>)
        ensures
            match r {
                Ok(d) => define_spec(name@, *item) == Ok::<(Seq<char>, Option<String>), ManifestError>(d@),
                Err(e) => define_spec(name@, *item) == Err::<(Seq<char>, Option<String>), ManifestError>(e),
            },
    {
        match item {
            ConfigValue::Text(s, rendered) => {
                let value = if s.as_str().unicode_len() == 0 {
                    None
                } else {
                    Some(rendered.clone())
                };
                Ok((name.to_owned(), value))
            },
            ConfigValue::Scalar(rendered) => Ok((name.to_owned(), Some(rendered.clone()))),
            _ => Err(ManifestError::UnsupportedDefine),
        }
    }

    /// Reads a defines section, shaped as a dependencies section is.
    pub fn parse(table: &Vec<(String, ConfigValue)>, feature_names: &Vec<String>) -> (r: Result<
        Defines,
        ManifestError,
    >)
        ensures
            match r {
                Ok(d) => gated_spec::<(String, Option<String>)>(
                    table@,
                    names(feature_names@),
                    ManifestError::MalformedSection,
                ) == Ok::<
                    (Seq<(Seq<char>, Option<String>)>, Seq<(Seq<char>, Seq<(Seq<char>, Option<String>)>)>),
                    ManifestError,
                >((views(d.base@), table_view(d.features@))),
                Err(e) => gated_spec::<(String, Option<String>)>(
                    table@,
                    names(feature_names@),
                    ManifestError::MalformedSection,
                ) == Err::<
                    (Seq<(Seq<char>, Option<String>)>, Seq<(Seq<char>, Seq<(Seq<char>, Option<String>)>)>),
                    ManifestError,
                >(e),
            },
    {
        match read_gated::<(String, Option<String>)>(table, feature_names, ManifestError::MalformedSection) {
            Ok((base, features)) => Ok(Defines { base, features }),
            Err(e) => Err(e),
        }
    }
}

impl Libraries {
    /// Reads a libraries section: its keys name system libraries.
    pub fn parse(table: &Vec<(String, ConfigValue)>, feature_names: &Vec<String>) -> (r: Result<
        Libraries,
        ManifestError,
    >)
        ensures
            match r {
                Ok(l) => gated_spec::<String>(
                    table@,
                    names(feature_names@),
                    ManifestError::MalformedSection,
                ) == Ok::<(Seq<Seq<char>>, Seq<(Seq<char>, Seq<Seq<char>>)>), ManifestError>(
                    (views(l.base@), table_view(l.features@)),
                ),
                Err(e) => gated_spec::<String>(
                    table@,
                    names(feature_names@),
                    ManifestError::MalformedSection,
                ) == Err::<(Seq<Seq<char>>, Seq<(Seq<char>, Seq<Seq<char>>)>), ManifestError>(e),
            },
    {
        match read_gated::<String>(table, feature_names, ManifestError::MalformedSection) {
            Ok((base, features)) => Ok(Libraries { base, features }),
            Err(e) => Err(e),
        }
    }
}

pub struct TeaConfigView {
    pub package: PackageView,
    pub dependencies: (Seq<DependencyView>, Seq<(Seq<char>, Seq<DependencyView>)>),
    pub defines: (Seq<(Seq<char>, Option<String>)>, Seq<(Seq<char>, Seq<(Seq<char>, Option<String>)>)>),
    pub libraries: (Seq<Seq<char>>, Seq<(Seq<char>, Seq<Seq<char>>)>),
}

impl View for TeaConfig {
    type V = TeaConfigView;

    open spec fn view(&self) -> TeaConfigView {
        TeaConfigView {
            package: self.package@,
            dependencies: (views(self.dependencies.base@), table_view(self.dependencies.features@)),
            defines: (views(self.defines.base@), table_view(self.defines.features@)),
            libraries: (views(self.libraries.base@), table_view(self.libraries.features@)),
        }
    }
}

/// An optional section of the document, read as `gated_spec` reads one;
/// an absent section is empty.
pub open spec fn optional_gated<T: ReadEntry>(
    doc: Seq<(String, ConfigValue)>,
    key: Seq<char>,
    features: Seq<Seq<char>>,
) -> Result<(Seq<T::V>, Seq<(Seq<char>, Seq<T::V>)>), ManifestError> {
    match get_entry(doc, key) {
        None => Ok((Seq::empty(), Seq::empty())),
        Some(ConfigValue::Table(t)) => gated_spec::<T>(t@, features, ManifestError::MalformedSection),
        Some(_) => Err(ManifestError::MalformedSection),
    }
}

/// A whole manifest document: a `[package]` table, a `[dependencies]`
/// table, and optional `[defines]` and `[libraries]` tables, whose feature
/// sections are keyed by the platform names and the declared features.
pub open spec fn config_spec(doc: Seq<(String, ConfigValue)>) -> Result<TeaConfigView, ManifestError> {
    match get_entry(doc, "package"@) {
        Some(ConfigValue::Table(p)) => match package_spec(p@) {
            None => Err(ManifestError::Unparsable),
            Some(pkg) => {
                let u = platform_names() + pkg.features;
                match get_entry(doc, "dependencies"@) {
                    Some(ConfigValue::Table(d)) => match gated_spec::<Dependency>(
                        d@,
                        u,
                        ManifestError::UnsupportedDependencyShape,
                    ) {
                        Err(e) => Err(e),
                        Ok(deps) => match optional_gated::<(String, Option<String>)>(
                            doc,
                            "defines"@,
                            u,
                        ) {
                            Err(e) => Err(e),
                            Ok(defs) => match optional_gated::<String>(doc, "libraries"@, u) {
                                Err(e) => Err(e),
                                Ok(libs) => Ok(
                                    TeaConfigView {
                                        package: pkg,
                                        dependencies: deps,
                                        defines: defs,
                                        libraries: libs,
                                    },
                                ),
                            },
                        },
                    },
                    _ => Err(ManifestError::Unparsable),
                }
            },
        },
        _ => Err(ManifestError::Unparsable),
    }
}

impl TeaConfig {
    /// Reads a manifest document.
    pub fn from_document(doc: &Vec<(String, ConfigValue)>) -> (r: Result<TeaConfig, ManifestError>)
        ensures
            match r {
                Ok(c) => config_spec(doc@) == Ok::<TeaConfigView, ManifestError>(c@),
                Err(e) => config_spec(doc@) == Err::<TeaConfigView, ManifestError>(e),
            },
    {
        let package = match get_value(doc, "package") {
            Some(ConfigValue::Table(p)) => match Package::parse(p) {
                Some(pkg) => pkg,
                None => return Err(ManifestError::Unparsable),
            },
            _ => return Err(ManifestError::Unparsable),
        };
        let mut all_features = base_features();
        let mut i: usize = 0;
        while i < package.features.len()
            invariant
                i <= package.features@.len(),
                names(all_features@) == platform_names() + names(package.features@.subrange(0, i as int)),
            decreases package.features@.len() - i,
        {
            let ghost prev = all_features@;
            all_features.push(package.features[i].clone());
            assert(names(all_features@) =~= names(prev).push(package.features@[i as int]@));
            assert(names(package.features@.subrange(0, i + 1)) =~= names(
                package.features@.subrange(0, i as int),
            ).push(package.features@[i as int]@));
            i = i + 1;
        }
        assert(package.features@.subrange(0, package.features@.len() as int) =~= package.features@);
        let dependencies = match get_value(doc, "dependencies") {
            Some(ConfigValue::Table(d)) => match Dependencies::parse(d, &all_features) {
                Ok(deps) => deps,
                Err(e) => return Err(e),
            },
            _ => return Err(ManifestError::Unparsable),
        };
        let defines = match get_value(doc, "defines") {
            None => {
                let d = Defines::default();
                assert(views(d.base@) =~= Seq::<(Seq<char>, Option<String>)>::empty());
                assert(table_view(d.features@) =~= Seq::<(Seq<char>, Seq<(Seq<char>, Option<String>)>)>::empty());
                d
            },
            Some(ConfigValue::Table(t)) => match Defines::parse(t, &all_features) {
                Ok(d) => d,
                Err(e) => return Err(e),
            },
            Some(_) => return Err(ManifestError::MalformedSection),
        };
        let libraries = match get_value(doc, "libraries") {
            None => {
                let l = Libraries::default();
                assert(views(l.base@) =~= Seq::<Seq<char>>::empty());
                assert(table_view(l.features@) =~= Seq::<(Seq<char>, Seq<Seq<char>>)>::empty());
                l
            },
            Some(ConfigValue::Table(t)) => match Libraries::parse(t, &all_features) {
                Ok(l) => l,
                Err(e) => return Err(e),
            },
            Some(_) => return Err(ManifestError::MalformedSection),
        };
        let r = TeaConfig { package, dependencies, defines, libraries };
        Ok(r)
    }
}

} // verus!
