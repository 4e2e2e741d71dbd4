//! The generated C sources: the entry shim that calls the root
//! package's `<name>_main`, and the test runner that calls every test
//! symbol found in an archive.

use vstd::prelude::*;
use crate::features::names;
use crate::text::{concat, starts_with};

verus! {

/// The call of package `name`'s entry function.
pub open spec fn entry_call(name: Seq<char>) -> Seq<char> {
    name + "_main();"@
}

/// The entry shim: a declaration of `<name>_main`, and a `main` whose body
/// is that one call.
pub open spec fn entry_shim_text(name: Seq<char>) -> Seq<char> {
    "void "@ + entry_call(name) + "\nint main() {\n\t"@ + entry_call(name) + "\n}"@
}

/// `parts` with `sep` between each two.
pub open spec fn joined(parts: Seq<Seq<char>>, sep: Seq<char>) -> Seq<char>
    decreases parts.len(),
{
    if parts.len() == 0 {
        Seq::empty()
    } else if parts.len() == 1 {
        parts[0]
    } else {
        joined(parts.drop_last(), sep) + sep + parts.last()
    }
}

/// Whether a symbol names a test.
pub open spec fn is_test_symbol(s: Seq<char>) -> bool {
    "test_"@.len() <= s.len() && s.subrange(0, "test_"@.len() as int) == "test_"@
}

/// The test symbols among `symbols`, in the order given.
pub open spec fn test_names(symbols: Seq<Seq<char>>) -> Seq<Seq<char>>
    decreases symbols.len(),
{
    if symbols.len() == 0 {
        Seq::empty()
    } else {
        let prev = test_names(symbols.drop_last());
        if is_test_symbol(symbols.last()) {
            prev.push(symbols.last())
        } else {
            prev
        }
    }
}

pub open spec fn forward_decl(t: Seq<char>) -> Seq<char> {
    "void "@ + t + "();"@
}

pub open spec fn test_call(t: Seq<char>) -> Seq<char> {
    "\tprintf(\"Testing "@ + t + "\\n\");\n\t"@ + t + "();"@
}

pub open spec fn declarations(tests: Seq<Seq<char>>) -> Seq<Seq<char>> {
    tests.map_values(|t: Seq<char>| forward_decl(t))
}

pub open spec fn calls(tests: Seq<Seq<char>>) -> Seq<Seq<char>> {
    tests.map_values(|t: Seq<char>| test_call(t))
}

/// The text of a runner that declares each test and calls them in order.
pub open spec fn harness_text(tests: Seq<Seq<char>>) -> Seq<char> {
    "#include <stdio.h>\n\n"@ + joined(declarations(tests), "\n"@) + "\n\nint main() {\n"@
        + joined(calls(tests), "\n"@) + "\n}"@
}

/// The entry shim of package `name`.
pub fn entry_shim(name: &str) -> (r: String)
    ensures
        r@ == entry_shim_text(name@),
{
    let call = concat(name, "_main();");
    let a = concat("void ", call.as_str());
    let b = concat(a.as_str(), "\nint main() {\n\t");
    let c = concat(b.as_str(), call.as_str());
    let r = concat(c.as_str(), "\n}");
    assert(r@ =~= entry_shim_text(name@));
    r
}

/// The test symbols among `symbols`, in the order given.
pub fn test_symbols(symbols: &Vec<String>) -> (r: Vec<String>)
    ensures
        names(r@) == test_names(names(symbols@)),
{
    let mut r: Vec<String> = Vec::new();
    let mut i: usize = 0;
    assert(names(symbols@).subrange(0, 0) =~= Seq::<Seq<char>>::empty());
    assert(names(r@) =~= Seq::<Seq<char>>::empty());
    while i < symbols.len()
        invariant
            i <= symbols@.len(),
            names(r@) == test_names(names(symbols@).subrange(0, i as int)),
        decreases symbols@.len() - i,
    {
        assert(names(symbols@).subrange(0, i + 1).drop_last() =~= names(symbols@).subrange(
            0,
            i as int,
        ));
        if starts_with(symbols[i].as_str(), "test_") {
            let ghost prev = r@;
            r.push(symbols[i].clone());
            assert(names(r@) =~= names(prev).push(symbols@[i as int]@));
        }
        i = i + 1;
    }
    assert(names(symbols@).subrange(0, symbols@.len() as int) =~= names(symbols@));
    r
}

/// The declarations (`decl`) or the calls of `tests`, one per line.
fn join_lines(tests: &Vec<String>, decl: bool) -> (r: String)
    ensures
        r@ == joined(
            if decl {
                declarations(names(tests@))
            } else {
                calls(names(tests@))
            },
            "\n"@,
        ),
{
    let ghost parts = if decl {
        declarations(names(tests@))
    } else {
        calls(names(tests@))
    };
    let mut r = String::new();
    let mut i: usize = 0;
    assert(parts.subrange(0, 0) =~= Seq::<Seq<char>>::empty());
    while i < tests.len()
        invariant
            i <= tests@.len(),
            parts == if decl {
                declarations(names(tests@))
            } else {
                calls(names(tests@))
            },
            r@ == joined(parts.subrange(0, i as int), "\n"@),
        decreases tests@.len() - i,
    {
        let t = tests[i].as_str();
        let line = if decl {
            let a = concat("void ", t);
            concat(a.as_str(), "();")
        } else {
            let a = concat("\tprintf(\"Testing ", t);
            let b = concat(a.as_str(), "\\n\");\n\t");
            let c = concat(b.as_str(), t);
            concat(c.as_str(), "();")
        };
        assert(line@ == parts[i as int]);
        assert(parts.subrange(0, i + 1).drop_last() =~= parts.subrange(0, i as int));
        if i == 0 {
            r = line;
            assert(r@ == joined(parts.subrange(0, 1), "\n"@));
        } else {
            let s = concat(r.as_str(), "\n");
            r = concat(s.as_str(), line.as_str());
            assert(r@ =~= joined(parts.subrange(0, i + 1), "\n"@));
        }
        i = i + 1;
    }
    assert(parts.subrange(0, tests@.len() as int) =~= parts);
    r
}

/// A runner that declares each of `tests` and calls them in order,
/// announcing each one.
pub fn test_harness(tests: &Vec<String>) -> (r: String)
    ensures
        r@ == harness_text(names(tests@)),
{
    let forward = join_lines(tests, true);
    let body = join_lines(tests, false);
    let a = concat("#include <stdio.h>\n\n", forward.as_str());
    let b = concat(a.as_str(), "\n\nint main() {\n");
    let c = concat(b.as_str(), body.as_str());
    let r = concat(c.as_str(), "\n}");
    assert(r@ =~= harness_text(names(tests@)));
    r
}

/// A vacuous test run: when no symbol of the archive names a test, the
/// runner declares nothing and its `main` calls nothing.
pub proof fn lemma_no_tests_vacuous(symbols: Seq<Seq<char>>)
    requires
        forall|m: int| 0 <= m < symbols.len() ==> !is_test_symbol(#[trigger] symbols[m]),
    ensures
        test_names(symbols) == Seq::<Seq<char>>::empty(),
        harness_text(test_names(symbols)) == "#include <stdio.h>\n\n"@ + "\n\nint main() {\n"@ + "\n}"@,
    decreases symbols.len(),
{
    if symbols.len() > 0 {
        lemma_no_tests_vacuous(symbols.drop_last());
    }
    let none = Seq::<Seq<char>>::empty();
    assert(declarations(none) =~= none);
    assert(calls(none) =~= none);
    assert(harness_text(none) =~= "#include <stdio.h>\n\n"@ + "\n\nint main() {\n"@ + "\n}"@);
}

} // verus!
