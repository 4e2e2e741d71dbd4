//! Feature resolution and feature-gated flattening of configuration lists.

use vstd::prelude::*;

verus! {

/// The string values of a sequence of `String`s.
pub open spec fn names(v: Seq<String>) -> Seq<Seq<char>> {
    v.map_values(|s: String| s@)
}

/// The views of a sequence of values.
pub open spec fn views<T: View>(v: Seq<T>) -> Seq<T::V> {
    v.map_values(|x: T| x@)
}

/// The two platform features that every package knows, whatever it declares.
pub open spec fn platform_names() -> Seq<Seq<char>> {
    seq!["windows"@, "linux"@]
}

/// A named configuration axis of one package instance.
#[derive(Debug)]
pub struct Feature {
    pub name: String,
    pub enabled: bool,
}

pub struct FeatureView {
    pub name: Seq<char>,
    pub enabled: bool,
}

impl View for Feature {
    type V = FeatureView;

    open spec fn view(&self) -> FeatureView {
        FeatureView { name: self.name@, enabled: self.enabled }
    }
}

/// The features of a package that declares `declared`, when `requested` is
/// asked of it: one per platform name and per declared name, in that order,
/// each enabled exactly when its name was requested.
pub open spec fn resolve(declared: Seq<Seq<char>>, requested: Seq<Seq<char>>) -> Seq<FeatureView> {
    (platform_names() + declared).map_values(
        |n: Seq<char>| FeatureView { name: n, enabled: requested.contains(n) },
    )
}

/// The list filed under `name` in a per-feature table: the first entry
/// with that key, or nothing.
pub open spec fn section<V>(table: Seq<(Seq<char>, Seq<V>)>, name: Seq<char>) -> Seq<V>
    decreases table.len(),
{
    if table.len() == 0 {
        Seq::empty()
    } else if table[0].0 == name {
        table[0].1
    } else {
        section(table.drop_first(), name)
    }
}

/// The base list followed, for each enabled feature in order, by the list
/// filed under its name.
pub open spec fn flatten<V>(
    base: Seq<V>,
    table: Seq<(Seq<char>, Seq<V>)>,
    features: Seq<FeatureView>,
) -> Seq<V>
    decreases features.len(),
{
    if features.len() == 0 {
        base
    } else {
        let prev = flatten(base, table, features.drop_last());
        if features.last().enabled {
            prev + section(table, features.last().name)
        } else {
            prev
        }
    }
}

/// The view of a per-feature table.
pub open spec fn table_view<T: View>(t: Seq<(String, Vec<T>)>) -> Seq<(Seq<char>, Seq<T::V>)> {
    t.map_values(|e: (String, Vec<T>)| (e.0@, views(e.1@)))
}

/// Values that can be copied with their view kept.
pub trait Duplicate: View + Sized {
    fn duplicate(&self) -> (r: Self)
        ensures
            r@ == self@,
    ;
}

impl Duplicate for String {
    fn duplicate(&self) -> (r: String) {
        self.clone()
    }
}

impl Duplicate for (String, Option<String>) {
    fn duplicate(&self) -> (r: (String, Option<String>)) {
        let v = match &self.1 {
            Some(s) => Some(s.clone()),
            None => None,
        };
        (self.0.clone(), v)
    }
}

proof fn lemma_section_at<V>(table: Seq<(Seq<char>, Seq<V>)>, name: Seq<char>, i: int)
    requires
        0 <= i <= table.len(),
        forall|j: int| 0 <= j < i ==> table[j].0 != name,
    ensures
        i < table.len() && table[i].0 == name ==> section(table, name) == table[i].1,
        i == table.len() ==> section(table, name) == Seq::<V>::empty(),
    decreases i,
{
    if i > 0 {
        lemma_section_at(table.drop_first(), name, i - 1);
    }
}

/// A copy of `v` with every element's view kept.
pub fn duplicate_all<T: Duplicate>(v: &Vec<T>) -> (r: Vec<T>)
    ensures
        views(r@) == views(v@),
{
    let mut r: Vec<T> = Vec::new();
    let mut i: usize = 0;
    while i < v.len()
        invariant
            i <= v@.len(),
            views(r@) == views(v@.subrange(0, i as int)),
        decreases v@.len() - i,
    {
        let ghost prev = r@;
        r.push(v[i].duplicate());
        assert(views(r@) =~= views(prev).push(v@[i as int]@));
        assert(views(v@.subrange(0, i + 1)) =~= views(v@.subrange(0, i as int)).push(v@[i as int]@));
        i = i + 1;
    }
    assert(v@.subrange(0, v@.len() as int) =~= v@);
    r
}

/// Appends a copy of each element of `src` to `dst`.
pub fn append_copies<T: Duplicate>(dst: &mut Vec<T>, src: &Vec<T>)
    ensures
        views(final(dst)@) == views(old(dst)@) + views(src@),
{
    let ghost start = views(dst@);
    let mut i: usize = 0;
    while i < src.len()
        invariant
            i <= src@.len(),
            views(dst@) == start + views(src@.subrange(0, i as int)),
        decreases src@.len() - i,
    {
        let ghost prev = dst@;
        dst.push(src[i].duplicate());
        assert(views(dst@) =~= views(prev).push(src@[i as int]@));
        assert(views(src@.subrange(0, i + 1)) =~= views(src@.subrange(0, i as int)).push(src@[i as int]@));
        i = i + 1;
    }
    assert(src@.subrange(0, src@.len() as int) =~= src@);
}

/// The list filed under `name` in a per-feature table.
pub fn lookup_section<'a, T: View>(table: &'a Vec<(String, Vec<T>)>, name: &String) -> (r: Option<
    &'a Vec<T>,
>)
    ensures
        match r {
            Some(l) => views(l@) == section(table_view(table@), name@),
            None => section(table_view(table@), name@) == Seq::<T::V>::empty(),
        },
{
    let mut i: usize = 0;
    while i < table.len()
        invariant
            i <= table@.len(),
            forall|j: int| 0 <= j < i ==> table_view(table@)[j].0 != name@,
        decreases table@.len() - i,
    {
        if table[i].0 == *name {
            proof {
                lemma_section_at(table_view(table@), name@, i as int);
            }
            return Some(&table[i].1);
        }
        i = i + 1;
    }
    proof {
        lemma_section_at(table_view(table@), name@, i as int);
    }
    None
}

/// The base list followed by the lists that the enabled features select.
pub fn flatten_enabled<T: Duplicate>(
    base: &Vec<T>,
    table: &Vec<(String, Vec<T>)>,
    features: &Vec<Feature>,
) -> (r: Vec<T>)
    ensures
        views(r@) == flatten(views(base@), table_view(table@), views(features@)),
{
    let mut r = duplicate_all(base);
    let mut i: usize = 0;
    assert(views(features@).subrange(0, 0) =~= Seq::<FeatureView>::empty());
    while i < features.len()
        invariant
            i <= features@.len(),
            views(r@) == flatten(
                views(base@),
                table_view(table@),
                views(features@).subrange(0, i as int),
            ),
        decreases features@.len() - i,
    {
        let ghost before = r@;
        let ghost fs = views(features@).subrange(0, i + 1);
        assert(fs.drop_last() =~= views(features@).subrange(0, i as int));
        assert(fs.last() == features@[i as int]@);
        if features[i].enabled {
            match lookup_section(table, &features[i].name) {
                Some(list) => {
                    let mut k: usize = 0;
                    while k < list.len()
                        invariant
                            k <= list@.len(),
                            views(r@) == views(before) + views(list@.subrange(0, k as int)),
                        decreases list@.len() - k,
                    {
                        let ghost prev = r@;
                        r.push(list[k].duplicate());
                        assert(views(r@) =~= views(prev).push(list@[k as int]@));
                        assert(views(list@.subrange(0, k + 1)) =~= views(
                            list@.subrange(0, k as int),
                        ).push(list@[k as int]@));
                        assert(views(r@) =~= views(before) + views(list@.subrange(0, k + 1)));
                        k = k + 1;
                    }
                    assert(list@.subrange(0, list@.len() as int) =~= list@);
                },
                None => {
                    assert(views(r@) =~= views(before) + Seq::<T::V>::empty());
                },
            }
        }
        i = i + 1;
    }
    assert(views(features@).subrange(0, features@.len() as int) =~= views(features@));
    r
}

/// Whether `v` holds a string equal to `s`.
pub fn contains_name(v: &Vec<String>, s: &String) -> (r: bool)
    ensures
        r == names(v@).contains(s@),
{
    let mut i: usize = 0;
    while i < v.len()
        invariant
            i <= v@.len(),
            forall|j: int| 0 <= j < i ==> v@[j]@ != s@,
        decreases v@.len() - i,
    {
        if v[i] == *s {
            assert(names(v@)[i as int] == s@);
            return true;
        }
        i = i + 1;
    }
    assert(!names(v@).contains(s@)) by {
        if names(v@).contains(s@) {
            let j = choose|j: int| 0 <= j < names(v@).len() && names(v@)[j] == s@;
            assert(v@[j]@ == s@);
        }
    }
    false
}

/// The names of the two platform features.
pub fn base_features() -> (r: Vec<String>)
    ensures
        names(r@) == platform_names(),
{
    let r = vec![String::from_str("windows"), String::from_str("linux")];
    assert(names(r@) =~= platform_names());
    r
}

/// A feature request with the host platform's name added at its end.
pub fn add_default_features(features: &Vec<String>, platform: &String) -> (r: Vec<String>)
    ensures
        names(r@) == names(features@).push(platform@),
{
    let mut r = duplicate_all(features);
    r.push(platform.clone());
    assert(names(r@) =~= names(features@).push(platform@));
    r
}

/// The features of a package that declares `declared` when `requested` is
/// asked of it. Names outside the package's universe are dropped.
pub fn resolve_features(declared: &Vec<String>, requested: &Vec<String>) -> (r: Vec<Feature>)
    ensures
        views(r@) == resolve(names(declared@), names(requested@)),
{
    let mut universe = base_features();
    let mut i: usize = 0;
    while i < declared.len()
        invariant
            i <= declared@.len(),
            names(universe@) == platform_names() + names(declared@.subrange(0, i as int)),
        decreases declared@.len() - i,
    {
        let ghost prev = universe@;
        universe.push(declared[i].clone());
        assert(names(universe@) =~= names(prev).push(declared@[i as int]@));
        assert(names(declared@.subrange(0, i + 1)) =~= names(declared@.subrange(0, i as int)).push(
            declared@[i as int]@,
        ));
        assert(names(universe@) =~= platform_names() + names(declared@.subrange(0, i + 1)));
        i = i + 1;
    }
    assert(declared@.subrange(0, declared@.len() as int) =~= declared@);
    let ghost u = names(universe@);
    let mut r: Vec<Feature> = Vec::new();
    let mut k: usize = 0;
    while k < universe.len()
        invariant
            k <= universe@.len(),
            u == names(universe@),
            r@.len() == k,
            forall|j: int|
                0 <= j < k ==> #[trigger] r@[j]@ == (FeatureView {
                    name: u[j],
                    enabled: names(requested@).contains(u[j]),
                }),
        decreases universe@.len() - k,
    {
        let enabled = contains_name(requested, &universe[k]);
        r.push(Feature { name: universe[k].clone(), enabled });
        k = k + 1;
    }
    assert(views(r@) =~= resolve(names(declared@), names(requested@)));
    r
}

} // verus!
