use teapot::compiler::{after_compilation, CompileOutcome, Compiler, OutputType};
use teapot::config::{Defines, Dependencies, Dependency, Libraries, Package, TeaConfig};
use teapot::leaf::{BrewData, Leaf, Node};
use teapot::features::resolve_features;
use teapot::synth::{entry_shim, test_harness, test_symbols};
use teapot::text::{is_c_source, join, with_object_extension};

fn s(x: &str) -> String {
    x.to_string()
}

fn strings(xs: &[&str]) -> Vec<String> {
    xs.iter().map(|x| x.to_string()).collect()
}

fn node_with(declared: &[&str], requested: &[&str]) -> Node {
    Node {
        name: s("p"),
        path: s("p"),
        features: resolve_features(&strings(declared), &strings(requested)),
        defines: Vec::new(),
        libraries: Vec::new(),
        dependencies: Vec::new(),
    }
}

#[test]
fn conditional_source_selection() {
    let node = node_with(&["x"], &["x", "linux"]);
    let files = strings(&["src/foo.c", "src/foo.x.c", "src/foo.y.c"]);
    assert_eq!(node.select_sources(&files), files);
}

#[test]
fn disabled_tag_excludes_file() {
    let node = node_with(&["x"], &["linux"]);
    let files = strings(&["src/foo.c", "src/foo.x.c", "src/net.windows.c", "src/net.linux.c"]);
    assert_eq!(node.select_sources(&files), strings(&["src/foo.c", "src/net.linux.c"]));
}

#[test]
fn only_c_sources_are_selected() {
    let node = node_with(&[], &["linux"]);
    let files = strings(&["src/a.h", "src/b.c", "src/.c", "src/c.cc", "src/d", "src/e.c.bak"]);
    assert_eq!(node.select_sources(&files), strings(&["src/b.c"]));
}

#[test]
fn file_named_like_a_feature_is_untagged() {
    let node = node_with(&["x"], &["linux"]);
    assert_eq!(node.select_sources(&strings(&["src/x.c"])), strings(&["src/x.c"]));
}

#[test]
fn path_helpers() {
    assert_eq!(join("", "src"), s("src"));
    assert_eq!(join("a", "b"), s("a/b"));
    assert_eq!(join("a/", "b"), s("a/b"));
    assert_eq!(join("a", "/b"), s("/b"));
    assert_eq!(with_object_extension("src/x/main.c"), s("src/x/main.o"));
    assert_eq!(with_object_extension("src.d/README"), s("src.d/README.o"));
    assert!(is_c_source("a/b.c"));
    assert!(!is_c_source("a.c/b"));
}

#[test]
fn compile_command_carries_flags_and_defines() {
    let mut c = Compiler::new("target");
    c.add_include_dir("inc");
    c.define("FEATURE_X", None);
    c.define("N", Some(s("4")));
    c.set_optimization_level(3);
    c.enable_debug_info();
    let cmd = c.compile_command("src/a.c");
    assert_eq!(cmd.program, s("tcc"));
    assert_eq!(
        cmd.args,
        strings(&[
            "-DFEATURE_X",
            "-DN=4",
            "-Iinc",
            "-O3",
            "-g",
            "-c",
            "src/a.c",
            "-o",
            "target/objects/src/a.o"
        ])
    );
    assert_eq!(c.object_path("src/a.c"), s("target/objects/src/a.o"));
    assert_eq!(c.compile_commands(&strings(&["a.c", "b.c"])).len(), 2);
}

#[test]
fn optimisation_level_is_rendered_in_decimal() {
    let mut c = Compiler::new("t");
    c.set_optimization_level(12);
    assert_eq!(c.compile_command("a.c").args[0], s("-O12"));
}

#[test]
fn archive_and_binary_link_commands() {
    let mut c = Compiler::new("target");
    c.add_objects(&strings(&["a.c", "b.c"]));
    let lib = c.link_command("pkg", OutputType::Library);
    assert_eq!(lib.program, s("ar"));
    assert_eq!(
        lib.args,
        strings(&["rcs", "target/libpkg.a", "target/objects/b.o", "target/objects/a.o"])
    );
    c.add_static_library("dep");
    c.add_system_library("ssl");
    let bin = c.link_command("app", OutputType::Binary);
    assert_eq!(bin.program, s("tcc"));
    assert_eq!(
        bin.args,
        strings(&[
            "-lm",
            "-lssl",
            "target/objects/b.o",
            "target/objects/a.o",
            "target/libdep.a",
            "-o",
            "target/app"
        ])
    );
}

#[test]
fn fail_fast_after_a_failed_compilation() {
    assert_eq!(after_compilation(&vec![true, true, true]), CompileOutcome::Link);
    assert_eq!(after_compilation(&vec![true, false, true, false]), CompileOutcome::Abort(1));
    assert_eq!(after_compilation(&Vec::new()), CompileOutcome::Link);
}

fn package(name: &str, features: &[&str], deps: Vec<Dependency>) -> TeaConfig {
    TeaConfig {
        package: Package { name: s(name), version: s("1"), features: strings(features) },
        dependencies: Dependencies { base: deps, features: Vec::new() },
        defines: Defines { base: vec![(s("A"), None)], features: Vec::new() },
        libraries: Libraries { base: strings(&[name]), features: Vec::new() },
    }
}

fn two_level_leaf() -> Leaf {
    let store = vec![(s("libs/dep"), package("dep", &[], vec![]))];
    let root = package(
        "app",
        &["fast"],
        vec![Dependency { name: s("dep"), path: Some(s("libs/dep")), features: Vec::new() }],
    );
    Leaf::from_config(&root, &strings(&["fast", "linux"]), "", "linux", &store, 4).unwrap()
}

#[test]
fn node_compiler_configuration() {
    let leaf = two_level_leaf();
    let c = leaf.configure_compiler(leaf.root(), BrewData { release: true, debug: true }, "target");
    let cmd = c.compile_command("src/main.c");
    assert_eq!(
        cmd.args,
        strings(&[
            "-DFEATURE_LINUX",
            "-DFEATURE_FAST",
            "-DA",
            "-Iinclude",
            "-Isrc",
            "-O3",
            "-g",
            "-Ilibs/dep/include",
            "-c",
            "src/main.c",
            "-o",
            "target/objects/src/main.o"
        ])
    );
    let d = leaf.configure_compiler(0, BrewData { release: false, debug: false }, "target");
    assert_eq!(
        d.compile_command("libs/dep/src/d.c").args,
        strings(&[
            "-DFEATURE_LINUX",
            "-DA",
            "-Ilibs/dep/include",
            "-Ilibs/dep/src",
            "-c",
            "libs/dep/src/d.c",
            "-o",
            "target/objects/libs/dep/src/d.o"
        ])
    );
}

#[test]
fn program_links_every_archive_and_library() {
    let leaf = two_level_leaf();
    let c = leaf.program_compiler(BrewData { release: false, debug: false }, "target", "target/main.c");
    assert_eq!(
        c.compile_command("target/main.c").args,
        strings(&["-c", "target/main.c", "-o", "target/objects/target/main.o"])
    );
    assert_eq!(
        c.link_command("app", OutputType::Binary).args,
        strings(&[
            "-lm",
            "-lapp",
            "-ldep",
            "target/objects/target/main.o",
            "target/libapp.a",
            "target/libdep.a",
            "-o",
            "target/app"
        ])
    );
}

#[test]
fn entry_shim_calls_the_entry_function_once() {
    let shim = entry_shim("app");
    assert_eq!(shim, s("void app_main();\nint main() {\n\tapp_main();\n}"));
    assert_eq!(shim.matches("app_main();").count(), 2);
    let body = shim.split("int main() {").nth(1).unwrap();
    assert_eq!(body.matches("app_main();").count(), 1);
}

#[test]
fn test_symbols_are_filtered_in_order() {
    let syms = strings(&["test_b", "helper", "test_a", "", "atest_c", "test_"]);
    assert_eq!(test_symbols(&syms), strings(&["test_b", "test_a", "test_"]));
}

#[test]
fn harness_calls_each_test() {
    let h = test_harness(&strings(&["test_one", "test_two"]));
    assert_eq!(
        h,
        s("#include <stdio.h>\n\nvoid test_one();\nvoid test_two();\n\nint main() {\n\tprintf(\"Testing test_one\\n\");\n\ttest_one();\n\tprintf(\"Testing test_two\\n\");\n\ttest_two();\n}")
    );
}

#[test]
fn harness_without_tests_is_vacuous() {
    let tests = test_symbols(&strings(&["main", "helper"]));
    assert!(tests.is_empty());
    assert_eq!(test_harness(&tests), s("#include <stdio.h>\n\n\n\nint main() {\n\n}"));
}

#[test]
fn lint_arguments_follow_the_root() {
    let leaf = two_level_leaf();
    let args = leaf.lint_args(&strings(&["src/main.c"]));
    assert_eq!(
        args,
        strings(&[
            "src/main.c",
            "--",
            "-Isrc",
            "-Iinclude",
            "-Ilibs/dep/include",
            "-DFEATURE_LINUX",
            "-DFEATURE_FAST",
            "-DA"
        ])
    );
}

#[test]
fn archive_paths_live_in_the_target() {
    let c = Compiler::new("target");
    assert_eq!(c.archive_path("dep"), s("target/libdep.a"));
}
