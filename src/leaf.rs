//! The resolved build graph.
//!
//! A `Leaf` is the tree of package instances that one root package needs,
//! each with its features resolved and its dependency, define and library
//! lists flattened. Its nodes are stored dependencies first: every node's
//! dependencies stand before it, and the root stands last, so building the
//! nodes in order builds every archive before anything that links it.
//!
//! Manifests come from a store of already loaded `(path, manifest)` pairs;
//! when one is missing, resolution says which path to load.

use vstd::prelude::*;
use crate::config::{TeaConfig, Dependency, DependencyView};
use crate::features::{
    Feature, FeatureView, names, views, resolve, flatten, flatten_enabled, resolve_features,
    add_default_features,
};
use crate::text::{
    join, join_path, file_name, feature_tag, is_c_source_spec, upper_of, decimal_digits, concat,
    to_upper, path_file_name, file_tag, is_c_source,
};
use crate::compiler::{Compiler, CompilerView, archive_file, object_path, define_flag, define_flag_text};

verus! {

/// One resolved package instance.
#[derive(Debug)]
pub struct Node {
    pub name: String,
    pub path: String,
    pub features: Vec<Feature>,
    pub defines: Vec<(String, Option<String>)>,
    pub libraries: Vec<String>,
    /// Positions of the nodes of this instance's dependencies, in
    /// declaration order.
    pub dependencies: Vec<usize>,
}

/// A resolved dependency tree, dependencies before dependants, root last.
#[derive(Debug)]
pub struct Leaf {
    nodes: Vec<Node>,
}

/// Why a dependency tree cannot be resolved.
#[derive(Debug)]
pub enum GraphError {
    /// The manifest at this path has not been loaded.
    MissingManifest(String),
    /// A dependency, named here, that gives no path.
    PathlessDependency(String),
    /// The tree is deeper than the depth allowed.
    TooDeep,
}

/// The manifest stored for `path`: the first entry with that path.
pub open spec fn lookup(store: Seq<(String, TeaConfig)>, path: Seq<char>) -> Option<TeaConfig>
    decreases store.len(),
{
    if store.len() == 0 {
        None
    } else if store[0].0@ == path {
        Some(store[0].1)
    } else {
        lookup(store.drop_first(), path)
    }
}

/// The features of an instance of `c` when `requested` is asked of it.
pub open spec fn node_features(c: TeaConfig, requested: Seq<Seq<char>>) -> Seq<FeatureView> {
    resolve(names(c.package.features@), requested)
}

/// The dependencies of an instance with features `fs`.
pub open spec fn effective_deps(c: TeaConfig, fs: Seq<FeatureView>) -> Seq<DependencyView> {
    flatten(c@.dependencies.0, c@.dependencies.1, fs)
}

/// The defines of an instance with features `fs`.
pub open spec fn effective_defines(c: TeaConfig, fs: Seq<FeatureView>) -> Seq<(Seq<char>, Option<String>)> {
    flatten(c@.defines.0, c@.defines.1, fs)
}

/// The system libraries of an instance with features `fs`.
pub open spec fn effective_libraries(c: TeaConfig, fs: Seq<FeatureView>) -> Seq<Seq<char>> {
    flatten(c@.libraries.0, c@.libraries.1, fs)
}

/// What a dependency is asked for: its own feature list and the platform.
/// Nothing of the parent's features is passed on.
pub open spec fn child_request(d: DependencyView, platform: Seq<char>) -> Seq<Seq<char>> {
    d.features.push(platform)
}

/// Where a dependency lives, given its declaring package's path.
pub open spec fn child_path(path: Seq<char>, d: DependencyView) -> Seq<char> {
    join_path(path, d.path.unwrap())
}

/// A node holds what resolution gives for `c` at `path` under `requested`.
pub open spec fn node_matches(
    n: Node,
    c: TeaConfig,
    requested: Seq<Seq<char>>,
    path: Seq<char>,
) -> bool {
    let fs = node_features(c, requested);
    &&& n.name@ == c.package.name@
    &&& n.path@ == path
    &&& views(n.features@) == fs
    &&& views(n.defines@) == effective_defines(c, fs)
    &&& views(n.libraries@) == effective_libraries(c, fs)
    &&& n.dependencies@.len() == effective_deps(c, fs).len()
}

/// What stops a resolution.
pub enum GraphProblem {
    Missing(Seq<char>),
    Pathless(Seq<char>),
    TooDeep,
}

impl View for GraphError {
    type V = GraphProblem;

    open spec fn view(&self) -> GraphProblem {
        match self {
            GraphError::MissingManifest(p) => GraphProblem::Missing(p@),
            GraphError::PathlessDependency(n) => GraphProblem::Pathless(n@),
            GraphError::TooDeep => GraphProblem::TooDeep,
        }
    }
}

/// The first problem met when resolving an instance of `c` with at most
/// `depth` more levels below it: its dependencies are taken in order, and
/// each one's own dependencies before the next one.
pub open spec fn first_problem(
    store: Seq<(String, TeaConfig)>,
    c: TeaConfig,
    requested: Seq<Seq<char>>,
    path: Seq<char>,
    platform: Seq<char>,
    depth: nat,
) -> Option<GraphProblem>
    decreases depth, effective_deps(c, node_features(c, requested)).len() + 1,
{
    problem_among(
        store,
        c,
        requested,
        path,
        platform,
        depth,
        effective_deps(c, node_features(c, requested)).len() as int,
    )
}

/// The first problem met among the first `k` dependencies: one without a
/// path, one below the depth allowed, one whose manifest is not stored, or
/// the first problem of its own resolution.
pub open spec fn problem_among(
    store: Seq<(String, TeaConfig)>,
    c: TeaConfig,
    requested: Seq<Seq<char>>,
    path: Seq<char>,
    platform: Seq<char>,
    depth: nat,
    k: int,
) -> Option<GraphProblem>
    decreases depth, k,
{
    let deps = effective_deps(c, node_features(c, requested));
    if k <= 0 || k > deps.len() {
        None
    } else {
        match problem_among(store, c, requested, path, platform, depth, k - 1) {
            Some(p) => Some(p),
            None => {
                let d = deps[k - 1];
                if d.path is None {
                    Some(GraphProblem::Pathless(d.name))
                } else if depth == 0 {
                    Some(GraphProblem::TooDeep)
                } else if lookup(store, child_path(path, d)) is None {
                    Some(GraphProblem::Missing(child_path(path, d)))
                } else {
                    first_problem(
                        store,
                        lookup(store, child_path(path, d)).unwrap(),
                        child_request(d, platform),
                        child_path(path, d),
                        platform,
                        (depth - 1) as nat,
                    )
                }
            },
        }
    }
}

proof fn lemma_problem_persists(
    store: Seq<(String, TeaConfig)>,
    c: TeaConfig,
    requested: Seq<Seq<char>>,
    path: Seq<char>,
    platform: Seq<char>,
    depth: nat,
    k: int,
    m: int,
)
    requires
        0 < k <= m <= effective_deps(c, node_features(c, requested)).len(),
        problem_among(store, c, requested, path, platform, depth, k) is Some,
    ensures
        problem_among(store, c, requested, path, platform, depth, m) == problem_among(
            store,
            c,
            requested,
            path,
            platform,
            depth,
            k,
        ),
    decreases m - k,
{
    if m > k {
        lemma_problem_persists(store, c, requested, path, platform, depth, k, m - 1);
    }
}

/// Node `i` of `nodes` is the resolved instance of `c` at `path` under
/// `requested`, and its `j`th dependency is node `dependencies[j]`, an
/// earlier node, resolved in turn for the `j`th effective dependency.
pub open spec fn built(
    nodes: Seq<Node>,
    i: int,
    store: Seq<(String, TeaConfig)>,
    c: TeaConfig,
    requested: Seq<Seq<char>>,
    path: Seq<char>,
    platform: Seq<char>,
    depth: nat,
) -> bool
    decreases depth,
{
    let deps = effective_deps(c, node_features(c, requested));
    &&& 0 <= i < nodes.len()
    &&& node_matches(nodes[i], c, requested, path)
    &&& forall|j: int|
        0 <= j < deps.len() ==> {
            &&& depth > 0
            &&& (#[trigger] deps[j]).path is Some
            &&& nodes[i].dependencies@[j] < i
            &&& lookup(store, child_path(path, deps[j])) is Some
            &&& built(
                nodes,
                nodes[i].dependencies@[j] as int,
                store,
                lookup(store, child_path(path, deps[j])).unwrap(),
                child_request(deps[j], platform),
                child_path(path, deps[j]),
                platform,
                (depth - 1) as nat,
            )
        }
}

/// Every node's dependencies stand before it.
pub open spec fn ordered(nodes: Seq<Node>) -> bool {
    forall|i: int, j: int|
        0 <= i < nodes.len() && 0 <= j < nodes[i].dependencies@.len() ==> #[trigger] nodes[i].dependencies@[j]
            < i
}

pub open spec fn extends(a: Seq<Node>, b: Seq<Node>) -> bool {
    a.len() <= b.len() && forall|i: int| 0 <= i < a.len() ==> #[trigger] b[i] == a[i]
}

proof fn lemma_built_extends(
    a: Seq<Node>,
    b: Seq<Node>,
    i: int,
    store: Seq<(String, TeaConfig)>,
    c: TeaConfig,
    requested: Seq<Seq<char>>,
    path: Seq<char>,
    platform: Seq<char>,
    depth: nat,
)
    requires
        extends(a, b),
        built(a, i, store, c, requested, path, platform, depth),
    ensures
        built(b, i, store, c, requested, path, platform, depth),
    decreases depth,
{
    let deps = effective_deps(c, node_features(c, requested));
    assert(b[i] == a[i]);
    assert forall|j: int| 0 <= j < deps.len() implies {
        &&& depth > 0
        &&& (#[trigger] deps[j]).path is Some
        &&& b[i].dependencies@[j] < i
        &&& lookup(store, child_path(path, deps[j])) is Some
        &&& built(
            b,
            b[i].dependencies@[j] as int,
            store,
            lookup(store, child_path(path, deps[j])).unwrap(),
            child_request(deps[j], platform),
            child_path(path, deps[j]),
            platform,
            (depth - 1) as nat,
        )
    } by {
        lemma_built_extends(
            a,
            b,
            a[i].dependencies@[j] as int,
            store,
            lookup(store, child_path(path, deps[j])).unwrap(),
            child_request(deps[j], platform),
            child_path(path, deps[j]),
            platform,
            (depth - 1) as nat,
        );
    }
}

proof fn lemma_lookup_at(store: Seq<(String, TeaConfig)>, path: Seq<char>, i: int)
    requires
        0 <= i <= store.len(),
        forall|j: int| 0 <= j < i ==> store[j].0@ != path,
    ensures
        i < store.len() && store[i].0@ == path ==> lookup(store, path) == Some(store[i].1),
        i == store.len() ==> lookup(store, path) is None,
    decreases i,
{
    if i > 0 {
        lemma_lookup_at(store.drop_first(), path, i - 1);
    }
}

/// The position of the manifest stored for `path`.
fn find_manifest(store: &Vec<(String, TeaConfig)>, path: &String) -> (r: Option<usize>)
    ensures
        match r {
            Some(i) => i < store@.len() && lookup(store@, path@) == Some(store@[i as int].1),
            None => lookup(store@, path@) is None,
        },
{
    let mut i: usize = 0;
    while i < store.len()
        invariant
            i <= store@.len(),
            forall|j: int| 0 <= j < i ==> store@[j].0@ != path@,
        decreases store@.len() - i,
    {
        if store[i].0 == *path {
            proof {
                lemma_lookup_at(store@, path@, i as int);
            }
            return Some(i);
        }
        i = i + 1;
    }
    proof {
        lemma_lookup_at(store@, path@, i as int);
    }
    None
}

/// Resolves the instance of `config` at `path` under `requested`, with its
/// dependencies, appending the new nodes to `nodes`; the instance's node
/// comes last.
fn build(
    config: &TeaConfig,
    requested: &Vec<String>,
    path: &String,
    platform: &String,
    store: &Vec<(String, TeaConfig)>,
    depth: usize,
    nodes: &mut Vec<Node>,
) -> (r: Result<usize, GraphError>)
    requires
        ordered(old(nodes)@),
    ensures
        ordered(final(nodes)@),
        extends(old(nodes)@, final(nodes)@),
        match r {
            Ok(i) => i == final(nodes)@.len() - 1 && built(
                final(nodes)@,
                i as int,
                store@,
                *config,
                names(requested@),
                path@,
                platform@,
                depth as nat,
            ),
            Err(e) => first_problem(store@, *config, names(requested@), path@, platform@, depth as nat)
                == Some(e@),
        },
        r is Ok ==> first_problem(store@, *config, names(requested@), path@, platform@, depth as nat) is None,
    decreases depth,
{
    let ghost req = names(requested@);
    let features = resolve_features(&config.package.features, requested);
    let ghost fs = views(features@);
    let deps: Vec<Dependency> = flatten_enabled(
        &config.dependencies.base,
        &config.dependencies.features,
        &features,
    );
    let ghost edeps = views(deps@);
    assert(edeps == effective_deps(*config, fs));
    let ghost start = nodes@;
    let mut children: Vec<usize> = Vec::new();
    let mut j: usize = 0;
    while j < deps.len()
        invariant
            j <= deps@.len(),
            edeps == views(deps@),
            edeps == effective_deps(*config, node_features(*config, req)),
            req == names(requested@),
            ordered(nodes@),
            start == old(nodes)@,
            extends(start, nodes@),
            children@.len() == j,
            forall|k: int| 0 <= k < j ==> #[trigger] children@[k] < nodes@.len(),
            problem_among(store@, *config, req, path@, platform@, depth as nat, j as int) is None,
            forall|k: int|
                0 <= k < j ==> {
                    &&& depth > 0
                    &&& (#[trigger] edeps[k]).path is Some
                    &&& lookup(store@, child_path(path@, edeps[k])) is Some
                    &&& built(
                        nodes@,
                        children@[k] as int,
                        store@,
                        lookup(store@, child_path(path@, edeps[k])).unwrap(),
                        child_request(edeps[k], platform@),
                        child_path(path@, edeps[k]),
                        platform@,
                        (depth - 1) as nat,
                    )
                },
        decreases deps@.len() - j,
    {
        assert(edeps[j as int] == deps@[j as int]@);
        let ghost total = edeps.len() as int;
        let rel = match &deps[j].path {
            Some(p) => p,
            None => {
                let e = GraphError::PathlessDependency(deps[j].name.clone());
                proof {
                    assert(problem_among(store@, *config, req, path@, platform@, depth as nat, j + 1) == Some(e@));
                    lemma_problem_persists(store@, *config, req, path@, platform@, depth as nat, j + 1, total);
                }
                return Err(e);
            },
        };
        if depth == 0 {
            let e = GraphError::TooDeep;
            proof {
                assert(problem_among(store@, *config, req, path@, platform@, depth as nat, j + 1) == Some(e@));
                lemma_problem_persists(store@, *config, req, path@, platform@, depth as nat, j + 1, total);
            }
            return Err(e);
        }
        let dep_path = join(path.as_str(), rel.as_str());
        assert(dep_path@ == child_path(path@, edeps[j as int]));
        let at = match find_manifest(store, &dep_path) {
            Some(at) => at,
            None => {
                let e = GraphError::MissingManifest(dep_path);
                proof {
                    assert(problem_among(store@, *config, req, path@, platform@, depth as nat, j + 1) == Some(e@));
                    lemma_problem_persists(store@, *config, req, path@, platform@, depth as nat, j + 1, total);
                }
                return Err(e);
            },
        };
        let dep_request = add_default_features(&deps[j].features, platform);
        assert(names(dep_request@) == child_request(edeps[j as int], platform@));
        let ghost before = nodes@;
        let k = match build(&store[at].1, &dep_request, &dep_path, platform, store, depth - 1, nodes) {
            Ok(k) => k,
            Err(e) => {
                proof {
                    assert(problem_among(store@, *config, req, path@, platform@, depth as nat, j + 1) == Some(e@));
                    lemma_problem_persists(store@, *config, req, path@, platform@, depth as nat, j + 1, total);
                }
                return Err(e);
            },
        };
        assert(problem_among(store@, *config, req, path@, platform@, depth as nat, j + 1) is None);
        proof {
            assert forall|m: int| 0 <= m < j implies built(
                nodes@,
                children@[m] as int,
                store@,
                lookup(store@, child_path(path@, edeps[m])).unwrap(),
                child_request(edeps[m], platform@),
                child_path(path@, edeps[m]),
                platform@,
                (depth - 1) as nat,
            ) by {
                lemma_built_extends(
                    before,
                    nodes@,
                    children@[m] as int,
                    store@,
                    lookup(store@, child_path(path@, edeps[m])).unwrap(),
                    child_request(edeps[m], platform@),
                    child_path(path@, edeps[m]),
                    platform@,
                    (depth - 1) as nat,
                );
            }
        }
        children.push(k);
        j = j + 1;
    }
    let defines = flatten_enabled(&config.defines.base, &config.defines.features, &features);
    let libraries = flatten_enabled(&config.libraries.base, &config.libraries.features, &features);
    let ghost before = nodes@;
    let node = Node {
        name: config.package.name.clone(),
        path: path.clone(),
        features,
        defines,
        libraries,
        dependencies: children,
    };
    nodes.push(node);
    let i = nodes.len() - 1;
    proof {
        assert(extends(before, nodes@));
        assert forall|m: int| 0 <= m < edeps.len() implies built(
            nodes@,
            nodes@[i as int].dependencies@[m] as int,
            store@,
            lookup(store@, child_path(path@, edeps[m])).unwrap(),
            child_request(edeps[m], platform@),
            child_path(path@, edeps[m]),
            platform@,
            (depth - 1) as nat,
        ) by {
            lemma_built_extends(
                before,
                nodes@,
                children@[m] as int,
                store@,
                lookup(store@, child_path(path@, edeps[m])).unwrap(),
                child_request(edeps[m], platform@),
                child_path(path@, edeps[m]),
                platform@,
                (depth - 1) as nat,
            );
        }
        assert(built(nodes@, i as int, store@, *config, req, path@, platform@, depth as nat));
    }
    Ok(i)
}

/// The build profile of an invocation.
#[derive(Debug, Clone, Copy)]
pub struct BrewData {
    /// Optimise at the highest level.
    pub release: bool,
    /// Emit debug information.
    pub debug: bool,
}

/// Node `i` followed by the nodes under its first `k` dependencies, each
/// dependency's own walk in turn: a pre-order walk.
pub open spec fn walk(nodes: Seq<Node>, i: int, k: int) -> Seq<int>
    decreases i, k,
{
    if !(0 <= i < nodes.len()) || k <= 0 || k > nodes[i].dependencies@.len() {
        seq![i]
    } else {
        let c = nodes[i].dependencies@[k - 1] as int;
        walk(nodes, i, k - 1) + if 0 <= c < i {
            walk(nodes, c, nodes[c].dependencies@.len() as int)
        } else {
            Seq::empty()
        }
    }
}

/// Node `i` and every node under it, in pre-order.
pub open spec fn subtree(nodes: Seq<Node>, i: int) -> Seq<int> {
    walk(nodes, i, nodes[i].dependencies@.len() as int)
}

pub open spec fn ints(s: Seq<usize>) -> Seq<int> {
    s.map_values(|x: usize| x as int)
}

/// The package names of the nodes at `idxs`.
pub open spec fn package_names(nodes: Seq<Node>, idxs: Seq<int>) -> Seq<Seq<char>> {
    idxs.map_values(|k: int| nodes[k].name@)
}

/// The first feature named `name`.
pub open spec fn find_feature(fs: Seq<FeatureView>, name: Seq<char>) -> Option<FeatureView>
    decreases fs.len(),
{
    if fs.len() == 0 {
        None
    } else if fs[0].name == name {
        Some(fs[0])
    } else {
        find_feature(fs.drop_first(), name)
    }
}

/// A path is built for an instance with features `fs` when it names a C
/// source and either its file name carries no tag, or the tag names no
/// feature of the instance, or it names an enabled one.
pub open spec fn selected(fs: Seq<FeatureView>, p: Seq<char>) -> bool {
    &&& is_c_source_spec(p)
    &&& match feature_tag(file_name(p)) {
        None => true,
        Some(t) => match find_feature(fs, t) {
            None => true,
            Some(f) => f.enabled,
        },
    }
}

/// The paths selected for features `fs`, in order.
pub open spec fn select_spec(fs: Seq<FeatureView>, paths: Seq<Seq<char>>) -> Seq<Seq<char>>
    decreases paths.len(),
{
    if paths.len() == 0 {
        Seq::empty()
    } else {
        let prev = select_spec(fs, paths.drop_last());
        if selected(fs, paths.last()) {
            prev.push(paths.last())
        } else {
            prev
        }
    }
}

/// One define per enabled feature: `FEATURE_` and its upper-cased name, no value.
pub open spec fn feature_defines(fs: Seq<FeatureView>) -> Seq<(Seq<char>, Option<String>)>
    decreases fs.len(),
{
    if fs.len() == 0 {
        Seq::empty()
    } else {
        let prev = feature_defines(fs.drop_last());
        if fs.last().enabled {
            prev.push(("FEATURE_"@ + upper_of(fs.last().name), None))
        } else {
            prev
        }
    }
}

/// The flags a build profile adds.
pub open spec fn profile_flags(p: BrewData) -> Seq<Seq<char>> {
    (if p.release {
        seq!["-O"@ + decimal_digits(3)]
    } else {
        Seq::empty()
    }) + (if p.debug {
        seq!["-g"@]
    } else {
        Seq::empty()
    })
}

/// Include flags for the public headers of the nodes at `idxs`.
pub open spec fn include_flags(nodes: Seq<Node>, idxs: Seq<int>) -> Seq<Seq<char>> {
    idxs.map_values(|k: int| "-I"@ + join_path(nodes[k].path@, "include"@))
}

/// The compiler for node `i`: its own include and source directories, the
/// profile's flags, the include directory of every package under it, one
/// define per enabled feature and its flattened defines.
pub open spec fn node_compiler(nodes: Seq<Node>, i: int, profile: BrewData, target: Seq<char>) -> CompilerView {
    let path = nodes[i].path@;
    CompilerView {
        target,
        compile_flags: seq!["-I"@ + join_path(path, "include"@), "-I"@ + join_path(path, "src"@)]
            + profile_flags(profile) + include_flags(nodes, subtree(nodes, i).drop_first()),
        link_flags: seq!["-lm"@],
        defines: feature_defines(views(nodes[i].features@)) + views(nodes[i].defines@),
        objects: Seq::empty(),
    }
}

/// The arguments of a static analysis of the root's `sources`: the
/// sources, a separator, the root's source and include directories, the
/// include directory of each direct dependency, a flag per enabled feature
/// and one per define.
pub open spec fn lint_spec(nodes: Seq<Node>, root: int, sources: Seq<Seq<char>>) -> Seq<Seq<char>> {
    let n = nodes[root];
    sources + seq!["--"@, "-Isrc"@, "-Iinclude"@] + include_flags(nodes, ints(n.dependencies@))
        + feature_defines(views(n.features@)).map_values(|d: (Seq<char>, Option<String>)| define_flag(d))
        + views(n.defines@).map_values(|d: (Seq<char>, Option<String>)| define_flag(d))
}

/// The system libraries of the nodes at `idxs`, in order.
pub open spec fn libraries_of(nodes: Seq<Node>, idxs: Seq<int>) -> Seq<Seq<char>>
    decreases idxs.len(),
{
    if idxs.len() == 0 {
        Seq::empty()
    } else {
        libraries_of(nodes, idxs.drop_last()) + views(nodes[idxs.last()].libraries@)
    }
}

/// The compiler for the program: the profile's flags, the entry unit's
/// object, then the archive of every package of the tree, in pre-order,
/// and every system library of the tree.
pub open spec fn program_compiler(
    nodes: Seq<Node>,
    root: int,
    profile: BrewData,
    target: Seq<char>,
    entry: Seq<char>,
) -> CompilerView {
    let order = subtree(nodes, root);
    CompilerView {
        target,
        compile_flags: profile_flags(profile),
        link_flags: seq!["-lm"@] + libraries_of(nodes, order).map_values(|l: Seq<char>| "-l"@ + l),
        defines: Seq::empty(),
        objects: seq![object_path(target, entry)] + order.map_values(
            |k: int| join_path(target, archive_file(nodes[k].name@)),
        ),
    }
}

proof fn lemma_find_feature_at(fs: Seq<FeatureView>, name: Seq<char>, i: int)
    requires
        0 <= i <= fs.len(),
        forall|j: int| 0 <= j < i ==> fs[j].name != name,
    ensures
        i < fs.len() && fs[i].name == name ==> find_feature(fs, name) == Some(fs[i]),
        i == fs.len() ==> find_feature(fs, name) is None,
    decreases i,
{
    if i > 0 {
        lemma_find_feature_at(fs.drop_first(), name, i - 1);
    }
}

impl Node {
    /// The sources among `paths` that this instance builds.
    pub fn select_sources(&self, paths: &Vec<String>) -> (r: Vec<String>)
        ensures
            names(r@) == select_spec(views(self.features@), names(paths@)),
    {
        let ghost fs = views(self.features@);
        let mut r: Vec<String> = Vec::new();
        let mut i: usize = 0;
        assert(names(paths@).subrange(0, 0) =~= Seq::<Seq<char>>::empty());
        assert(names(r@) =~= Seq::<Seq<char>>::empty());
        while i < paths.len()
            invariant
                i <= paths@.len(),
                fs == views(self.features@),
                names(r@) == select_spec(fs, names(paths@).subrange(0, i as int)),
            decreases paths@.len() - i,
        {
            assert(names(paths@).subrange(0, i + 1).drop_last() =~= names(paths@).subrange(0, i as int));
            let p = paths[i].as_str();
            if self.builds(p) {
                let ghost prev = r@;
                r.push(paths[i].clone());
                assert(names(r@) =~= names(prev).push(paths@[i as int]@));
            }
            i = i + 1;
        }
        assert(names(paths@).subrange(0, paths@.len() as int) =~= names(paths@));
        r
    }

    /// Whether this instance builds the file at `p`.
    pub fn builds(&self, p: &str) -> (r: bool)
        ensures
            r == selected(views(self.features@), p@),
    {
        if !is_c_source(p) {
            return false;
        }
        let name = path_file_name(p);
        match file_tag(name.as_str()) {
            None => true,
            Some(tag) => {
                let ghost fs = views(self.features@);
                let mut i: usize = 0;
                while i < self.features.len()
                    invariant
                        i <= self.features@.len(),
                        fs == views(self.features@),
                        is_c_source_spec(p@),
                        feature_tag(file_name(p@)) == Some(tag@),
                        forall|j: int| 0 <= j < i ==> fs[j].name != tag@,
                    decreases self.features@.len() - i,
                {
                    assert(fs[i as int] == self.features@[i as int]@);
                    if self.features[i].name == tag {
                        proof {
                            lemma_find_feature_at(fs, tag@, i as int);
                        }
                        return self.features[i].enabled;
                    }
                    i = i + 1;
                }
                proof {
                    lemma_find_feature_at(fs, tag@, i as int);
                }
                true
            },
        }
    }
}

impl Leaf {
    pub closed spec fn view(&self) -> Seq<Node> {
        self.nodes@
    }

    /// Every node's dependencies stand before it, and there is a root.
    pub open spec fn wf(&self) -> bool {
        &&& self@.len() > 0
        &&& ordered(self@)
    }

    /// Resolves the dependency tree of the package `config` at `path` under
    /// the feature request `enabled_features`; every dependency is asked for
    /// its own features and `platform`. Manifests come from `store`; the
    /// tree may be at most `depth` levels below the root.
    pub fn from_config(
        config: &TeaConfig,
        enabled_features: &Vec<String>,
        path: &str,
        platform: &str,
        store: &Vec<(String, TeaConfig)>,
        depth: usize,
    ) -> (r: Result<Leaf, GraphError>)
        ensures
            match r {
                Ok(l) => l.wf() && built(
                    l@,
                    l@.len() - 1,
                    store@,
                    *config,
                    names(enabled_features@),
                    path@,
                    platform@,
                    depth as nat,
                ),
                Err(e) => first_problem(
                    store@,
                    *config,
                    names(enabled_features@),
                    path@,
                    platform@,
                    depth as nat,
                ) == Some(e@),
            },
            r is Ok <==> first_problem(
                store@,
                *config,
                names(enabled_features@),
                path@,
                platform@,
                depth as nat,
            ) is None,
    {
        let mut nodes: Vec<Node> = Vec::new();
        let path = path.to_owned();
        let platform = platform.to_owned();
        match build(config, enabled_features, &path, &platform, store, depth, &mut nodes) {
            Ok(_) => Ok(Leaf { nodes }),
            Err(e) => Err(e),
        }
    }

    /// The number of package instances in the tree.
    pub fn len(&self) -> (r: usize)
        ensures
            r == self@.len(),
    {
        self.nodes.len()
    }

    /// The position of the root: the last node.
    pub fn root(&self) -> (r: usize)
        requires
            self.wf(),
        ensures
            r == self@.len() - 1,
    {
        self.nodes.len() - 1
    }

    /// The package instance at position `i`.
    pub fn node(&self, i: usize) -> (r: &Node)
        requires
            i < self@.len(),
        ensures
            *r == self@[i as int],
    {
        &self.nodes[i]
    }

    /// Appends the pre-order walk of node `i` to `out`.
    fn collect(&self, i: usize, out: &mut Vec<usize>)
        requires
            self.wf(),
            i < self@.len(),
            forall|m: int| 0 <= m < old(out)@.len() ==> #[trigger] old(out)@[m] < self@.len(),
        ensures
            ints(final(out)@) == ints(old(out)@) + subtree(self@, i as int),
            forall|m: int| 0 <= m < final(out)@.len() ==> #[trigger] final(out)@[m] < self@.len(),
        decreases i,
    {
        let ghost nodes = self@;
        let ghost start = ints(out@);
        let ghost prev = out@;
        out.push(i);
        assert(ints(out@) =~= ints(prev).push(i as int));
        assert(walk(nodes, i as int, 0) == seq![i as int]);
        let deps = &self.nodes[i].dependencies;
        let mut k: usize = 0;
        while k < deps.len()
            invariant
                self.wf(),
                nodes == self@,
                i < nodes.len(),
                *deps == nodes[i as int].dependencies,
                k <= deps@.len(),
                ints(out@) == start + walk(nodes, i as int, k as int),
                forall|m: int| 0 <= m < out@.len() ==> #[trigger] out@[m] < nodes.len(),
            decreases deps@.len() - k,
        {
            let c = deps[k];
            assert(nodes[i as int].dependencies@[k as int] < i);
            let ghost before = ints(out@);
            self.collect(c, out);
            assert(walk(nodes, i as int, k + 1) == walk(nodes, i as int, k as int) + subtree(
                nodes,
                c as int,
            ));
            assert(ints(out@) =~= start + walk(nodes, i as int, k + 1));
            k = k + 1;
        }
    }

    /// Node `i` and the positions of every node under it, in pre-order.
    pub fn subtree(&self, i: usize) -> (r: Vec<usize>)
        requires
            self.wf(),
            i < self@.len(),
        ensures
            ints(r@) == subtree(self@, i as int),
            forall|m: int| 0 <= m < r@.len() ==> #[trigger] r@[m] < self@.len(),
    {
        let mut r: Vec<usize> = Vec::new();
        self.collect(i, &mut r);
        assert(ints(r@) =~= Seq::<int>::empty() + subtree(self@, i as int));
        r
    }

    /// The compiler that builds node `i` as a library under `target`.
    pub fn configure_compiler(&self, i: usize, profile: BrewData, target: &str) -> (r: Compiler)
        requires
            self.wf(),
            i < self@.len(),
        ensures
            r@ == node_compiler(self@, i as int, profile, target@),
    {
        proof {
            reveal_strlit("include");
            reveal_strlit("src");
        }
        let ghost nodes = self@;
        let node = &self.nodes[i];
        let ghost path = node.path@;
        let mut c = Compiler::new(target);
        let inc = join(node.path.as_str(), "include");
        c.add_include_dir(inc.as_str());
        let src = join(node.path.as_str(), "src");
        c.add_include_dir(src.as_str());
        if profile.release {
            c.set_optimization_level(3);
        }
        if profile.debug {
            c.enable_debug_info();
        }
        let ghost own = seq!["-I"@ + join_path(path, "include"@), "-I"@ + join_path(path, "src"@)]
            + profile_flags(profile);
        assert(c@.compile_flags =~= own);
        let ghost fs = views(node.features@);
        let mut k: usize = 0;
        assert(fs.subrange(0, 0) =~= Seq::<FeatureView>::empty());
        assert(c@.defines =~= feature_defines(fs.subrange(0, 0)));
        while k < node.features.len()
            invariant
                k <= node.features@.len(),
                fs == views(node.features@),
                c@ == (CompilerView {
                    target: target@,
                    compile_flags: own,
                    link_flags: seq!["-lm"@],
                    defines: feature_defines(fs.subrange(0, k as int)),
                    objects: Seq::empty(),
                }),
            decreases node.features@.len() - k,
        {
            assert(fs.subrange(0, k + 1).drop_last() =~= fs.subrange(0, k as int));
            assert(fs[k as int] == node.features@[k as int]@);
            if node.features[k].enabled {
                let up = to_upper(node.features[k].name.as_str());
                let flag = concat("FEATURE_", up.as_str());
                c.define(flag.as_str(), None);
            }
            k = k + 1;
        }
        assert(fs.subrange(0, node.features@.len() as int) =~= fs);
        let order = self.subtree(i);
        let ghost under = ints(order@).drop_first();
        assert(ints(order@)[0] == i) by {
            assert(walk(nodes, i as int, 0) == seq![i as int]);
            lemma_walk_first(nodes, i as int, nodes[i as int].dependencies@.len() as int);
        }
        let mut m: usize = 1;
        proof {
            lemma_walk_first(nodes, i as int, nodes[i as int].dependencies@.len() as int);
        }
        assert(c@.compile_flags =~= own + include_flags(nodes, under.subrange(0, 0)));
        while m < order.len()
            invariant
                1 <= m <= order@.len(),
                nodes == self@,
                under == ints(order@).drop_first(),
                forall|q: int| 0 <= q < order@.len() ==> #[trigger] order@[q] < nodes.len(),
                c@ == (CompilerView {
                    target: target@,
                    compile_flags: own + include_flags(nodes, under.subrange(0, m - 1)),
                    link_flags: seq!["-lm"@],
                    defines: feature_defines(fs),
                    objects: Seq::empty(),
                }),
            decreases order@.len() - m,
        {
            let dir = join(self.nodes[order[m]].path.as_str(), "include");
            c.add_include_dir(dir.as_str());
            assert(under[m - 1] == order@[m as int] as int);
            assert(include_flags(nodes, under.subrange(0, m as int)) =~= include_flags(
                nodes,
                under.subrange(0, m - 1),
            ).push("-I"@ + join_path(nodes[order@[m as int] as int].path@, "include"@)));
            assert(c@.compile_flags =~= own + include_flags(nodes, under.subrange(0, m as int)));
            m = m + 1;
        }
        assert(under.subrange(0, order@.len() - 1) =~= under);
        let ghost ds = views(node.defines@);
        let mut q: usize = 0;
        assert(c@.defines =~= feature_defines(fs) + ds.subrange(0, 0));
        while q < node.defines.len()
            invariant
                q <= node.defines@.len(),
                ds == views(node.defines@),
                c@ == (CompilerView {
                    target: target@,
                    compile_flags: own + include_flags(nodes, under),
                    link_flags: seq!["-lm"@],
                    defines: feature_defines(fs) + ds.subrange(0, q as int),
                    objects: Seq::empty(),
                }),
            decreases node.defines@.len() - q,
        {
            let value = match &node.defines[q].1 {
                Some(v) => Some(v.clone()),
                None => None,
            };
            c.define(node.defines[q].0.as_str(), value);
            assert(ds[q as int] == node.defines@[q as int]@);
            assert(c@.defines =~= feature_defines(fs) + ds.subrange(0, q + 1));
            q = q + 1;
        }
        assert(ds.subrange(0, node.defines@.len() as int) =~= ds);
        assert(c@ == node_compiler(self@, i as int, profile, target@));
        c
    }

    /// The compiler that links the program: the object of the entry unit
    /// at `entry`, the archives of the whole tree and its system libraries.
    pub fn program_compiler(&self, profile: BrewData, target: &str, entry: &str) -> (r: Compiler)
        requires
            self.wf(),
        ensures
            r@ == program_compiler(self@, self@.len() - 1, profile, target@, entry@),
    {
        let ghost nodes = self@;
        let mut c = Compiler::new(target);
        if profile.release {
            c.set_optimization_level(3);
        }
        if profile.debug {
            c.enable_debug_info();
        }
        let entries: Vec<String> = vec![entry.to_owned()];
        assert(names(entries@) =~= seq![entry@]);
        assert(crate::compiler::objects_of(target@, names(entries@)) =~= seq![object_path(target@, entry@)]);
        c.add_objects(&entries);
        let order = self.subtree(self.root());
        let ghost idxs = ints(order@);
        let ghost head = seq![object_path(target@, entry@)];
        let ghost archive = |k: int| join_path(target@, archive_file(nodes[k].name@));
        let ghost lib_flag = |l: Seq<char>| "-l"@ + l;
        assert(c@.compile_flags =~= profile_flags(profile));
        assert(c@.objects =~= head + idxs.subrange(0, 0).map_values(archive));
        let mut m: usize = 0;
        while m < order.len()
            invariant
                m <= order@.len(),
                nodes == self@,
                idxs == ints(order@),
                forall|q: int| 0 <= q < order@.len() ==> #[trigger] order@[q] < nodes.len(),
                archive == (|k: int| join_path(target@, archive_file(nodes[k].name@))),
                c@ == (CompilerView {
                    target: target@,
                    compile_flags: profile_flags(profile),
                    link_flags: seq!["-lm"@],
                    defines: Seq::empty(),
                    objects: head + idxs.subrange(0, m as int).map_values(archive),
                }),
            decreases order@.len() - m,
        {
            c.add_static_library(self.nodes[order[m]].name.as_str());
            assert(idxs.subrange(0, m + 1).map_values(archive) =~= idxs.subrange(0, m as int).map_values(
                archive,
            ).push(archive(idxs[m as int])));
            assert(c@.objects =~= head + idxs.subrange(0, m + 1).map_values(archive));
            m = m + 1;
        }
        assert(idxs.subrange(0, order@.len() as int) =~= idxs);
        let mut m: usize = 0;
        assert(idxs.subrange(0, 0) =~= Seq::<int>::empty());
        assert(c@.link_flags =~= seq!["-lm"@] + libraries_of(nodes, idxs.subrange(0, 0)).map_values(lib_flag));
        while m < order.len()
            invariant
                m <= order@.len(),
                nodes == self@,
                idxs == ints(order@),
                forall|q: int| 0 <= q < order@.len() ==> #[trigger] order@[q] < nodes.len(),
                lib_flag == (|l: Seq<char>| "-l"@ + l),
                c@ == (CompilerView {
                    target: target@,
                    compile_flags: profile_flags(profile),
                    link_flags: seq!["-lm"@] + libraries_of(nodes, idxs.subrange(0, m as int)).map_values(lib_flag),
                    defines: Seq::empty(),
                    objects: head + idxs.map_values(archive),
                }),
            decreases order@.len() - m,
        {
            let libs = &self.nodes[order[m]].libraries;
            let ghost done = libraries_of(nodes, idxs.subrange(0, m as int));
            let ghost ls = views(libs@);
            assert(idxs.subrange(0, m + 1).drop_last() =~= idxs.subrange(0, m as int));
            assert(libraries_of(nodes, idxs.subrange(0, m + 1)) == done + ls);
            let mut q: usize = 0;
            assert(done + ls.subrange(0, 0) =~= done);
            while q < libs.len()
                invariant
                    q <= libs@.len(),
                    ls == views(libs@),
                    lib_flag == (|l: Seq<char>| "-l"@ + l),
                    c@ == (CompilerView {
                        target: target@,
                        compile_flags: profile_flags(profile),
                        link_flags: seq!["-lm"@] + (done + ls.subrange(0, q as int)).map_values(lib_flag),
                        defines: Seq::empty(),
                        objects: head + idxs.map_values(archive),
                    }),
                decreases libs@.len() - q,
            {
                c.add_system_library(libs[q].as_str());
                assert(ls[q as int] == libs@[q as int]@);
                assert((done + ls.subrange(0, q + 1)).map_values(lib_flag) =~= (done + ls.subrange(
                    0,
                    q as int,
                )).map_values(lib_flag).push(lib_flag(ls[q as int])));
                assert(c@.link_flags =~= seq!["-lm"@] + (done + ls.subrange(0, q + 1)).map_values(lib_flag));
                q = q + 1;
            }
            assert(ls.subrange(0, libs@.len() as int) =~= ls);
            m = m + 1;
        }
        assert(idxs.subrange(0, order@.len() as int) =~= idxs);
        assert(c@ =~= program_compiler(self@, self@.len() - 1, profile, target@, entry@));
        c
    }

    /// The arguments of a static analysis of the root's `sources`.
    pub fn lint_args(&self, sources: &Vec<String>) -> (r: Vec<String>)
        requires
            self.wf(),
        ensures
            names(r@) == lint_spec(self@, self@.len() - 1, names(sources@)),
    {
        let ghost nodes = self@;
        let root = self.root();
        let n = &self.nodes[root];
        let mut r: Vec<String> = Vec::new();
        crate::features::append_copies(&mut r, sources);
        r.push(String::from_str("--"));
        r.push(String::from_str("-Isrc"));
        r.push(String::from_str("-Iinclude"));
        let ghost head = names(sources@) + seq!["--"@, "-Isrc"@, "-Iinclude"@];
        assert(names(r@) =~= head);
        let ghost deps = ints(n.dependencies@);
        let mut j: usize = 0;
        assert(names(r@) =~= head + include_flags(nodes, deps.subrange(0, 0)));
        while j < n.dependencies.len()
            invariant
                self.wf(),
                nodes == self@,
                root == nodes.len() - 1,
                *n == nodes[root as int],
                deps == ints(n.dependencies@),
                j <= n.dependencies@.len(),
                names(r@) == head + include_flags(nodes, deps.subrange(0, j as int)),
            decreases n.dependencies@.len() - j,
        {
            let c = n.dependencies[j];
            assert(nodes[root as int].dependencies@[j as int] < root);
            let dir = join(self.nodes[c].path.as_str(), "include");
            let flag = concat("-I", dir.as_str());
            let ghost prev = r@;
            r.push(flag);
            assert(names(r@) =~= names(prev).push(flag@));
            assert(include_flags(nodes, deps.subrange(0, j + 1)) =~= include_flags(
                nodes,
                deps.subrange(0, j as int),
            ).push(flag@));
            assert(names(r@) =~= head + include_flags(nodes, deps.subrange(0, j + 1)));
            j = j + 1;
        }
        assert(deps.subrange(0, n.dependencies@.len() as int) =~= deps);
        let ghost head2 = head + include_flags(nodes, deps);
        let ghost fs = views(n.features@);
        let ghost fd = feature_defines(fs).map_values(|d: (Seq<char>, Option<String>)| define_flag(d));
        let mut k: usize = 0;
        assert(fs.subrange(0, 0) =~= Seq::<FeatureView>::empty());
        assert(names(r@) =~= head2 + feature_defines(fs.subrange(0, 0)).map_values(
            |d: (Seq<char>, Option<String>)| define_flag(d),
        ));
        while k < n.features.len()
            invariant
                fs == views(n.features@),
                k <= n.features@.len(),
                names(r@) == head2 + feature_defines(fs.subrange(0, k as int)).map_values(
                    |d: (Seq<char>, Option<String>)| define_flag(d),
                ),
            decreases n.features@.len() - k,
        {
            assert(fs.subrange(0, k + 1).drop_last() =~= fs.subrange(0, k as int));
            assert(fs[k as int] == n.features@[k as int]@);
            if n.features[k].enabled {
                let up = to_upper(n.features[k].name.as_str());
                let name = concat("FEATURE_", up.as_str());
                let flag = define_flag_text(name.as_str(), &None);
                let ghost prev = r@;
                r.push(flag);
                assert(names(r@) =~= names(prev).push(flag@));
                assert(feature_defines(fs.subrange(0, k + 1)).map_values(
                    |d: (Seq<char>, Option<String>)| define_flag(d),
                ) =~= feature_defines(fs.subrange(0, k as int)).map_values(
                    |d: (Seq<char>, Option<String>)| define_flag(d),
                ).push(flag@));
            } else {
                assert(feature_defines(fs.subrange(0, k + 1)) == feature_defines(fs.subrange(0, k as int)));
            }
            k = k + 1;
        }
        assert(fs.subrange(0, n.features@.len() as int) =~= fs);
        let ghost head3 = head2 + fd;
        let ghost ds = views(n.defines@);
        let mut q: usize = 0;
        assert(names(r@) =~= head3 + ds.subrange(0, 0).map_values(
            |d: (Seq<char>, Option<String>)| define_flag(d),
        ));
        while q < n.defines.len()
            invariant
                ds == views(n.defines@),
                q <= n.defines@.len(),
                names(r@) == head3 + ds.subrange(0, q as int).map_values(
                    |d: (Seq<char>, Option<String>)| define_flag(d),
                ),
            decreases n.defines@.len() - q,
        {
            let flag = define_flag_text(n.defines[q].0.as_str(), &n.defines[q].1);
            assert(ds[q as int] == n.defines@[q as int]@);
            let ghost prev = r@;
            r.push(flag);
            assert(names(r@) =~= names(prev).push(flag@));
            assert(ds.subrange(0, q + 1).map_values(|d: (Seq<char>, Option<String>)| define_flag(d))
                =~= ds.subrange(0, q as int).map_values(
                |d: (Seq<char>, Option<String>)| define_flag(d),
            ).push(flag@));
            q = q + 1;
        }
        assert(ds.subrange(0, n.defines@.len() as int) =~= ds);
        assert(names(r@) =~= lint_spec(self@, self@.len() - 1, names(sources@)));
        r
    }

    /// The package names of the whole tree, root first, in pre-order: the
    /// archives a program links.
    pub fn get_dependencies(&self) -> (r: Vec<String>)
        requires
            self.wf(),
        ensures
            names(r@) == package_names(self@, subtree(self@, self@.len() - 1)),
    {
        let order = self.subtree(self.root());
        let mut r: Vec<String> = Vec::new();
        let mut i: usize = 0;
        while i < order.len()
            invariant
                i <= order@.len(),
                forall|m: int| 0 <= m < order@.len() ==> #[trigger] order@[m] < self@.len(),
                names(r@) == package_names(self@, ints(order@).subrange(0, i as int)),
            decreases order@.len() - i,
        {
            let ghost prev = r@;
            r.push(self.nodes[order[i]].name.clone());
            assert(names(r@) =~= names(prev).push(self@[order@[i as int] as int].name@));
            assert(package_names(self@, ints(order@).subrange(0, i + 1)) =~= package_names(
                self@,
                ints(order@).subrange(0, i as int),
            ).push(self@[order@[i as int] as int].name@));
            i = i + 1;
        }
        assert(ints(order@).subrange(0, order@.len() as int) =~= ints(order@));
        r
    }
}

proof fn lemma_walk_first(nodes: Seq<Node>, i: int, k: int)
    ensures
        walk(nodes, i, k).len() >= 1,
        walk(nodes, i, k)[0] == i,
    decreases i, k,
{
    if !(0 <= i < nodes.len()) || k <= 0 || k > nodes[i].dependencies@.len() {
    } else {
        lemma_walk_first(nodes, i, k - 1);
    }
}

/// Determinism: two instances resolved from the same manifest, request
/// and path have the same features, the same ordered define and library
/// lists, and as many dependencies, resolved from the same ordered list.
pub proof fn lemma_resolution_deterministic(
    a: Node,
    b: Node,
    c: TeaConfig,
    requested: Seq<Seq<char>>,
    path: Seq<char>,
)
    requires
        node_matches(a, c, requested, path),
        node_matches(b, c, requested, path),
    ensures
        views(a.features@) == views(b.features@),
        views(a.defines@) == views(b.defines@),
        views(a.libraries@) == views(b.libraries@),
        a.dependencies@.len() == b.dependencies@.len(),
        a.name@ == b.name@,
        a.path@ == b.path@,
{
}

/// Dependency isolation: the `j`th dependency of a resolved instance has
/// exactly those of its features enabled that the dependency declaration
/// asks for, and the platform one; nothing of the parent's own enabled
/// features reaches it otherwise.
pub proof fn lemma_dependency_isolation(
    nodes: Seq<Node>,
    i: int,
    store: Seq<(String, TeaConfig)>,
    c: TeaConfig,
    requested: Seq<Seq<char>>,
    path: Seq<char>,
    platform: Seq<char>,
    depth: nat,
    j: int,
    f: int,
)
    requires
        built(nodes, i, store, c, requested, path, platform, depth),
        0 <= j < nodes[i].dependencies@.len(),
        0 <= f < nodes[nodes[i].dependencies@[j] as int].features@.len(),
    ensures
        ({
            let d = effective_deps(c, node_features(c, requested))[j];
            let feature = nodes[nodes[i].dependencies@[j] as int].features@[f];
            feature.enabled <==> (d.features.contains(feature.name@) || feature.name@ == platform)
        }),
{
    let deps = effective_deps(c, node_features(c, requested));
    let d = deps[j];
    let k = nodes[i].dependencies@[j] as int;
    let child = lookup(store, child_path(path, d)).unwrap();
    assert(built(nodes, k, store, child, child_request(d, platform), child_path(path, d), platform, (depth - 1) as nat));
    let fs = node_features(child, child_request(d, platform));
    assert(views(nodes[k].features@)[f] == nodes[k].features@[f]@);
    let name = nodes[k].features@[f].name@;
    if d.features.contains(name) {
        let m = choose|m: int| 0 <= m < d.features.len() && d.features[m] == name;
        assert(child_request(d, platform)[m] == name);
    }
    if name == platform {
        assert(child_request(d, platform)[d.features.len() as int] == name);
    }
    if child_request(d, platform).contains(name) {
        let m = choose|m: int| 0 <= m < child_request(d, platform).len() && child_request(d, platform)[m] == name;
        if m < d.features.len() {
            assert(d.features[m] == name);
        }
    }
}

/// Every position in the walk of node `i` is at most `i`, and only the
/// first is `i` itself.
pub proof fn lemma_walk_precedes(nodes: Seq<Node>, i: int, k: int)
    requires
        ordered(nodes),
        0 <= i < nodes.len(),
    ensures
        walk(nodes, i, k)[0] == i,
        forall|m: int| 0 < m < walk(nodes, i, k).len() ==> 0 <= #[trigger] walk(nodes, i, k)[m] < i,
    decreases i, k,
{
    if k <= 0 || k > nodes[i].dependencies@.len() {
    } else {
        let c = nodes[i].dependencies@[k - 1] as int;
        assert(c < i);
        lemma_walk_precedes(nodes, i, k - 1);
        lemma_walk_first(nodes, i, k - 1);
        lemma_walk_precedes(nodes, c, nodes[c].dependencies@.len() as int);
        let w = walk(nodes, i, k - 1);
        let v = walk(nodes, c, nodes[c].dependencies@.len() as int);
        assert(walk(nodes, i, k) == w + v);
        assert forall|m: int| 0 < m < walk(nodes, i, k).len() implies 0 <= #[trigger] walk(
            nodes,
            i,
            k,
        )[m] < i by {
            if m >= w.len() {
                assert(walk(nodes, i, k)[m] == v[m - w.len()]);
            }
        }
    }
}

/// Build ordering: every package instance under node `i` of a resolved
/// tree stands before it, so building the nodes in order makes every
/// archive before any package that depends on it, directly or not, is
/// compiled.
pub proof fn lemma_dependencies_built_first(l: Leaf, i: int)
    requires
        l.wf(),
        0 <= i < l@.len(),
    ensures
        forall|j: int| 0 <= j < l@[i].dependencies@.len() ==> #[trigger] l@[i].dependencies@[j] < i,
        subtree(l@, i)[0] == i,
        forall|m: int| 0 < m < subtree(l@, i).len() ==> 0 <= #[trigger] subtree(l@, i)[m] < i,
{
    lemma_walk_precedes(l@, i, l@[i].dependencies@.len() as int);
}

} // verus!
