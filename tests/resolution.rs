use teapot::config::{
    ConfigValue, Defines, Dependencies, Dependency, Libraries, ManifestError, Package, TeaConfig,
};
use teapot::features::{add_default_features, base_features, flatten_enabled, resolve_features};
use teapot::leaf::{GraphError, Leaf};

fn s(x: &str) -> String {
    x.to_string()
}

fn strings(xs: &[&str]) -> Vec<String> {
    xs.iter().map(|x| x.to_string()).collect()
}

fn dep(name: &str, path: &str, features: &[&str]) -> Dependency {
    Dependency { name: s(name), path: Some(s(path)), features: strings(features) }
}

fn config(name: &str, features: &[&str], deps: Vec<Dependency>) -> TeaConfig {
    TeaConfig {
        package: Package { name: s(name), version: s("0.1.0"), features: strings(features) },
        dependencies: Dependencies { base: deps, features: Vec::new() },
        defines: Defines { base: Vec::new(), features: Vec::new() },
        libraries: Libraries { base: Vec::new(), features: Vec::new() },
    }
}

fn define_strings(defs: &[(String, Option<String>)]) -> Vec<String> {
    defs.iter()
        .map(|(n, v)| match v {
            Some(v) => format!("{}={}", n, v),
            None => n.clone(),
        })
        .collect()
}

#[test]
fn platform_features_come_first() {
    assert_eq!(base_features(), strings(&["windows", "linux"]));
}

#[test]
fn default_features_add_the_platform() {
    let r = add_default_features(&strings(&["a", "b"]), &s("linux"));
    assert_eq!(r, strings(&["a", "b", "linux"]));
    assert_eq!(add_default_features(&Vec::new(), &s("windows")), strings(&["windows"]));
}

#[test]
fn resolver_marks_requested_features() {
    let fs = resolve_features(&strings(&["x", "y"]), &strings(&["y", "linux", "unknown"]));
    let got: Vec<(String, bool)> = fs.iter().map(|f| (f.name.clone(), f.enabled)).collect();
    assert_eq!(
        got,
        vec![(s("windows"), false), (s("linux"), true), (s("x"), false), (s("y"), true)]
    );
}

#[test]
fn feature_gating_of_defines() {
    let base = vec![(s("A"), None)];
    let table = vec![(s("x"), vec![(s("B"), Some(s("1")))])];
    let off = resolve_features(&strings(&["x"]), &strings(&["linux"]));
    let on = resolve_features(&strings(&["x"]), &strings(&["x", "linux"]));
    assert_eq!(define_strings(&flatten_enabled(&base, &table, &off)), strings(&["A"]));
    assert_eq!(define_strings(&flatten_enabled(&base, &table, &on)), strings(&["A", "B=1"]));
}

#[test]
fn flattening_follows_declaration_order() {
    let base = strings(&["m"]);
    let table = vec![(s("y"), strings(&["y1"])), (s("x"), strings(&["x1", "x2"]))];
    let fs = resolve_features(&strings(&["x", "y"]), &strings(&["y", "x"]));
    assert_eq!(flatten_enabled(&base, &table, &fs), strings(&["m", "x1", "x2", "y1"]));
}

#[test]
fn flattening_is_deterministic() {
    let base = strings(&["m", "m"]);
    let table = vec![(s("linux"), strings(&["pthread"])), (s("x"), strings(&["m"]))];
    let fs = resolve_features(&strings(&["x"]), &strings(&["x", "linux"]));
    let a = flatten_enabled(&base, &table, &fs);
    let b = flatten_enabled(&base, &table, &fs);
    assert_eq!(a, b);
    assert_eq!(a, strings(&["m", "m", "pthread", "m"]));
}

#[test]
fn chain_builds_dependencies_first() {
    let store = vec![
        (s("b"), config("b", &[], vec![dep("c", "../c", &[])])),
        (s("b/../c"), config("c", &[], vec![])),
    ];
    let root = config("a", &[], vec![dep("b", "b", &[])]);
    let leaf = Leaf::from_config(&root, &strings(&["linux"]), "", "linux", &store, 8).unwrap();
    let order: Vec<String> = (0..leaf.len()).map(|i| leaf.node(i).name.clone()).collect();
    assert_eq!(order, strings(&["c", "b", "a"]));
    assert_eq!(leaf.root(), 2);
    assert_eq!(leaf.node(2).dependencies, vec![1]);
    assert_eq!(leaf.node(1).dependencies, vec![0]);
    assert_eq!(leaf.node(0).path, s("b/../c"));
    assert_eq!(leaf.get_dependencies(), strings(&["a", "b", "c"]));
}

#[test]
fn diamond_is_built_twice() {
    let store = vec![
        (s("l"), config("l", &[], vec![dep("d", "../d", &[])])),
        (s("r"), config("r", &[], vec![dep("d", "../d", &[])])),
        (s("l/../d"), config("d", &[], vec![])),
        (s("r/../d"), config("d", &[], vec![])),
    ];
    let root = config("top", &[], vec![dep("l", "l", &[]), dep("r", "r", &[])]);
    let leaf = Leaf::from_config(&root, &strings(&["linux"]), "", "linux", &store, 8).unwrap();
    assert_eq!(leaf.len(), 5);
    assert_eq!(leaf.get_dependencies(), strings(&["top", "l", "d", "r", "d"]));
}

#[test]
fn dependency_sees_only_its_own_request() {
    let store = vec![(s("dep"), config("dep", &["x", "z"], vec![]))];
    let root = config("app", &["x"], vec![dep("dep", "dep", &["z"])]);
    let leaf =
        Leaf::from_config(&root, &strings(&["x", "linux"]), "", "linux", &store, 8).unwrap();
    let child = leaf.node(0);
    let enabled: Vec<String> =
        child.features.iter().filter(|f| f.enabled).map(|f| f.name.clone()).collect();
    assert_eq!(enabled, strings(&["linux", "z"]));
    let parent = leaf.node(1);
    let enabled: Vec<String> =
        parent.features.iter().filter(|f| f.enabled).map(|f| f.name.clone()).collect();
    assert_eq!(enabled, strings(&["linux", "x"]));
}

#[test]
fn feature_gated_dependency_is_pulled_in_only_when_enabled() {
    let store = vec![(s("extra"), config("extra", &[], vec![]))];
    let mut root = config("app", &["net"], vec![]);
    root.dependencies.features = vec![(s("net"), vec![dep("extra", "extra", &[])])];
    let off = Leaf::from_config(&root, &strings(&["linux"]), "", "linux", &store, 8).unwrap();
    assert_eq!(off.len(), 1);
    let on =
        Leaf::from_config(&root, &strings(&["net", "linux"]), "", "linux", &store, 8).unwrap();
    assert_eq!(on.get_dependencies(), strings(&["app", "extra"]));
}

#[test]
fn missing_manifest_names_its_path() {
    let root = config("app", &[], vec![dep("b", "libs/b", &[])]);
    match Leaf::from_config(&root, &strings(&["linux"]), "proj", "linux", &Vec::new(), 8) {
        Err(GraphError::MissingManifest(p)) => assert_eq!(p, s("proj/libs/b")),
        other => panic!("unexpected {:?}", other),
    }
}

#[test]
fn pathless_dependency_is_refused() {
    let mut d = dep("b", "b", &[]);
    d.path = None;
    let root = config("app", &[], vec![d]);
    match Leaf::from_config(&root, &strings(&["linux"]), "", "linux", &Vec::new(), 8) {
        Err(GraphError::PathlessDependency(n)) => assert_eq!(n, s("b")),
        other => panic!("unexpected {:?}", other),
    }
}

#[test]
fn cycles_stop_at_the_depth_bound() {
    let store = vec![(s("a"), config("a", &[], vec![dep("a", ".", &[])]))];
    let root = config("a", &[], vec![dep("a", "a", &[])]);
    let mut st = store;
    st.push((s("a/."), config("a", &[], vec![dep("a", ".", &[])])));
    st.push((s("a/./."), config("a", &[], vec![dep("a", ".", &[])])));
    match Leaf::from_config(&root, &strings(&["linux"]), "", "linux", &st, 2) {
        Err(GraphError::TooDeep) => {}
        other => panic!("unexpected {:?}", other),
    }
}

#[test]
fn absolute_dependency_path_replaces_base() {
    let store = vec![(s("/opt/dep"), config("dep", &[], vec![]))];
    let root = config("app", &[], vec![dep("dep", "/opt/dep", &[])]);
    let leaf = Leaf::from_config(&root, &strings(&["linux"]), "proj", "linux", &store, 4).unwrap();
    assert_eq!(leaf.node(0).path, s("/opt/dep"));
}

fn text(v: &str) -> ConfigValue {
    ConfigValue::Text(s(v), format!("\"{}\"", v))
}

fn table(entries: Vec<(&str, ConfigValue)>) -> ConfigValue {
    ConfigValue::Table(entries.into_iter().map(|(k, v)| (s(k), v)).collect())
}

fn inline(entries: Vec<(&str, ConfigValue)>) -> ConfigValue {
    ConfigValue::InlineTable(entries.into_iter().map(|(k, v)| (s(k), v)).collect())
}

fn document(entries: Vec<(&str, ConfigValue)>) -> Vec<(String, ConfigValue)> {
    entries.into_iter().map(|(k, v)| (s(k), v)).collect()
}

fn package_table() -> ConfigValue {
    table(vec![
        ("name", text("app")),
        ("version", text("0.1.0")),
        ("features", ConfigValue::Array(vec![text("x"), ConfigValue::Scalar(s("3")), text("y")])),
    ])
}

#[test]
fn manifest_document_is_read() {
    let doc = document(vec![
        ("package", package_table()),
        (
            "dependencies",
            table(vec![
                ("core", inline(vec![("path", text("../core"))])),
                (
                    "x",
                    table(vec![(
                        "net",
                        inline(vec![
                            ("path", text("net")),
                            ("features", ConfigValue::Array(vec![text("tls")])),
                        ]),
                    )]),
                ),
            ]),
        ),
        (
            "defines",
            table(vec![
                ("EMPTY", text("")),
                ("NAME", text("hi")),
                ("N", ConfigValue::Scalar(s(" 4"))),
                ("linux", table(vec![("POSIX", ConfigValue::Scalar(s("true")))])),
            ]),
        ),
        ("libraries", table(vec![("m", text("")), ("y", table(vec![("ssl", text(""))]))])),
    ]);
    let c = TeaConfig::from_document(&doc).unwrap();
    assert_eq!(c.package.name, s("app"));
    assert_eq!(c.package.version, s("0.1.0"));
    assert_eq!(c.package.features, strings(&["x", "y"]));
    assert_eq!(c.dependencies.base.len(), 1);
    assert_eq!(c.dependencies.base[0].name, s("core"));
    assert_eq!(c.dependencies.base[0].path, Some(s("../core")));
    assert!(c.dependencies.base[0].features.is_empty());
    assert_eq!(c.dependencies.features.len(), 1);
    assert_eq!(c.dependencies.features[0].0, s("x"));
    assert_eq!(c.dependencies.features[0].1[0].features, strings(&["tls"]));
    assert_eq!(
        c.defines.base,
        vec![(s("EMPTY"), None), (s("NAME"), Some(s("\"hi\""))), (s("N"), Some(s(" 4")))]
    );
    assert_eq!(c.defines.features, vec![(s("linux"), vec![(s("POSIX"), Some(s("true")))])]);
    assert_eq!(c.libraries.base, strings(&["m"]));
    assert_eq!(c.libraries.features, vec![(s("y"), strings(&["ssl"]))]);
}

#[test]
fn optional_sections_may_be_absent() {
    let doc = document(vec![("package", package_table()), ("dependencies", table(vec![]))]);
    let c = TeaConfig::from_document(&doc).unwrap();
    assert!(c.defines.base.is_empty() && c.defines.features.is_empty());
    assert!(c.libraries.base.is_empty() && c.libraries.features.is_empty());
}

#[test]
fn manifest_without_dependencies_is_unparsable() {
    let doc = document(vec![("package", package_table())]);
    assert_eq!(TeaConfig::from_document(&doc).unwrap_err(), ManifestError::Unparsable);
    let doc = document(vec![("dependencies", table(vec![]))]);
    assert_eq!(TeaConfig::from_document(&doc).unwrap_err(), ManifestError::Unparsable);
}

#[test]
fn package_needs_name_and_version() {
    let t = vec![(s("name"), text("app"))];
    assert!(Package::parse(&t).is_none());
}

#[test]
fn non_table_dependency_is_refused() {
    let doc = document(vec![
        ("package", package_table()),
        ("dependencies", table(vec![("core", text("../core"))])),
    ]);
    assert_eq!(
        TeaConfig::from_document(&doc).unwrap_err(),
        ManifestError::UnsupportedDependencyShape
    );
    assert_eq!(
        Dependency::parse("core", &table(vec![])).unwrap_err(),
        ManifestError::UnsupportedDependencyShape
    );
}

#[test]
fn unsupported_define_value_is_refused() {
    let doc = document(vec![
        ("package", package_table()),
        ("dependencies", table(vec![])),
        ("defines", table(vec![("WHEN", ConfigValue::Datetime(s("1979-05-27")))])),
    ]);
    assert_eq!(TeaConfig::from_document(&doc).unwrap_err(), ManifestError::UnsupportedDefine);
}

#[test]
fn malformed_sections_are_refused() {
    let doc = document(vec![
        ("package", package_table()),
        ("dependencies", table(vec![])),
        ("libraries", text("m")),
    ]);
    assert_eq!(TeaConfig::from_document(&doc).unwrap_err(), ManifestError::MalformedSection);
    let doc = document(vec![
        ("package", package_table()),
        ("dependencies", table(vec![])),
        ("defines", table(vec![("x", text("1"))])),
    ]);
    assert_eq!(TeaConfig::from_document(&doc).unwrap_err(), ManifestError::MalformedSection);
}

#[test]
fn define_values_are_rendered() {
    assert_eq!(Defines::parse_define("A", &text("")).unwrap(), (s("A"), None));
    assert_eq!(Defines::parse_define("A", &text("v")).unwrap(), (s("A"), Some(s("\"v\""))));
    assert_eq!(
        Defines::parse_define("A", &ConfigValue::Scalar(s("1.5"))).unwrap(),
        (s("A"), Some(s("1.5")))
    );
}

#[test]
fn first_problem_in_declaration_order_is_reported() {
    let mut pathless = dep("later", "x", &[]);
    pathless.path = None;
    let store = vec![(s("mid"), config("mid", &[], vec![dep("deep", "deep", &[])]))];
    let root = config("app", &[], vec![dep("mid", "mid", &[]), pathless]);
    match Leaf::from_config(&root, &strings(&["linux"]), "", "linux", &store, 8) {
        Err(GraphError::MissingManifest(p)) => assert_eq!(p, s("mid/deep")),
        other => panic!("unexpected {:?}", other),
    }
}
