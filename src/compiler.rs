//! The compilation engine: accumulates include paths, defines, optimisation
//! and debug flags, link flags and artifact paths, and turns them into the
//! toolchain invocations that compile sources, archive a library or link a
//! program. Running the invocations is left to the caller.

use vstd::prelude::*;
use crate::features::{names, views, append_copies};
use crate::text::{join_path, object_relative, decimal_digits, concat, join, decimal, with_object_extension};

verus! {

/// What a link step produces.
#[derive(Debug, Clone, Copy, PartialEq, Eq, Structural)]
pub enum OutputType {
    Binary,
    Library,
}

/// One run of an external tool: a program and its arguments.
#[derive(Debug)]
pub struct ToolInvocation {
    pub program: String,
    pub args: Vec<String>,
}

pub struct ToolInvocationView {
    pub program: Seq<char>,
    pub args: Seq<Seq<char>>,
}

impl View for ToolInvocation {
    type V = ToolInvocationView;

    open spec fn view(&self) -> ToolInvocationView {
        ToolInvocationView { program: self.program@, args: names(self.args@) }
    }
}

#[derive(Debug)]
pub struct Compiler {
    target_directory: String,
    compile_flags: Vec<String>,
    link_flags: Vec<String>,
    defines: Vec<(String, Option<String>)>,
    objects: Vec<String>,
}

pub struct CompilerView {
    pub target: Seq<char>,
    pub compile_flags: Seq<Seq<char>>,
    pub link_flags: Seq<Seq<char>>,
    pub defines: Seq<(Seq<char>, Option<String>)>,
    pub objects: Seq<Seq<char>>,
}

impl View for Compiler {
    type V = CompilerView;

    closed spec fn view(&self) -> CompilerView {
        CompilerView {
            target: self.target_directory@,
            compile_flags: names(self.compile_flags@),
            link_flags: names(self.link_flags@),
            defines: views(self.defines@),
            objects: names(self.objects@),
        }
    }
}

/// The file name of the archive of package `name`.
pub open spec fn archive_file(name: Seq<char>) -> Seq<char> {
    "lib"@ + name + ".a"@
}

/// The preprocessor flag of a define.
pub open spec fn define_flag(d: (Seq<char>, Option<String>)) -> Seq<char> {
    match d.1 {
        Some(v) => "-D"@ + d.0 + "="@ + v@,
        None => "-D"@ + d.0,
    }
}

/// Where the object of `source` goes: under `<target>/objects`, mirroring
/// the source path, with the extension `o`.
pub open spec fn object_path(target: Seq<char>, source: Seq<char>) -> Seq<char> {
    join_path(join_path(target, "objects"@), object_relative(source))
}

/// The compiler arguments for one source: every define, then the
/// accumulated flags, then the source and its object.
pub open spec fn compile_args(c: CompilerView, source: Seq<char>) -> Seq<Seq<char>> {
    c.defines.map_values(|d: (Seq<char>, Option<String>)| define_flag(d)) + c.compile_flags + seq![
        "-c"@,
        source,
        "-o"@,
        object_path(c.target, source),
    ]
}

/// The objects of `sources`, last source first.
pub open spec fn objects_of(target: Seq<char>, sources: Seq<Seq<char>>) -> Seq<Seq<char>> {
    Seq::new(sources.len(), |k: int| object_path(target, sources[sources.len() - 1 - k]))
}

/// The invocation that links or archives the accumulated artifacts.
pub open spec fn link_invocation(c: CompilerView, name: Seq<char>, output: OutputType) -> ToolInvocationView {
    match output {
        OutputType::Binary => ToolInvocationView {
            program: "tcc"@,
            args: c.link_flags + c.objects + seq!["-o"@, join_path(c.target, name)],
        },
        OutputType::Library => ToolInvocationView {
            program: "ar"@,
            args: seq!["rcs"@, join_path(c.target, archive_file(name))] + c.objects,
        },
    }
}

/// The preprocessor flag of a define.
pub fn define_flag_text(name: &str, value: &Option<String>) -> (r: String)
    ensures
        r@ == define_flag((name@, *value)),
{
    match value {
        Some(v) => {
            let a = concat("-D", name);
            let b = concat(a.as_str(), "=");
            concat(b.as_str(), v.as_str())
        },
        None => concat("-D", name),
    }
}

impl Compiler {
    /// A compiler writing under `target_directory`, linking the math library.
    pub fn new(target_directory: &str) -> (r: Compiler)
        ensures
            r@ == (CompilerView {
                target: target_directory@,
                compile_flags: Seq::empty(),
                link_flags: seq!["-lm"@],
                defines: Seq::empty(),
                objects: Seq::empty(),
            }),
    {
        let r = Compiler {
            target_directory: target_directory.to_owned(),
            compile_flags: Vec::new(),
            link_flags: vec![String::from_str("-lm")],
            objects: Vec::new(),
            defines: Vec::new(),
        };
        assert(names(r.compile_flags@) =~= Seq::<Seq<char>>::empty());
        assert(names(r.link_flags@) =~= seq!["-lm"@]);
        assert(views(r.defines@) =~= Seq::<(Seq<char>, Option<String>)>::empty());
        assert(names(r.objects@) =~= Seq::<Seq<char>>::empty());
        r
    }

    /// Adds an include directory.
    pub fn add_include_dir(&mut self, path: &str)
        ensures
            final(self)@ == (CompilerView {
                compile_flags: old(self)@.compile_flags.push("-I"@ + path@),
                ..old(self)@
            }),
    {
        let flag = concat("-I", path);
        let ghost prev = self.compile_flags@;
        self.compile_flags.push(flag);
        assert(names(self.compile_flags@) =~= names(prev).push("-I"@ + path@));
    }

    /// Adds the archive of an already built package to the link inputs.
    pub fn add_static_library(&mut self, name: &str)
        ensures
            final(self)@ == (CompilerView {
                objects: old(self)@.objects.push(join_path(old(self)@.target, archive_file(name@))),
                ..old(self)@
            }),
    {
        let path = self.archive_path(name);
        let ghost prev = self.objects@;
        self.objects.push(path);
        assert(names(self.objects@) =~= names(prev).push(
            join_path(self@.target, archive_file(name@)),
        ));
    }

    /// Where the archive of package `name` goes.
    pub fn archive_path(&self, name: &str) -> (r: String)
        ensures
            r@ == join_path(self@.target, archive_file(name@)),
    {
        let lib = concat("lib", name);
        let file = concat(lib.as_str(), ".a");
        join(self.target_directory.as_str(), file.as_str())
    }

    /// Links a system library into the program.
    pub fn add_system_library(&mut self, name: &str)
        ensures
            final(self)@ == (CompilerView {
                link_flags: old(self)@.link_flags.push("-l"@ + name@),
                ..old(self)@
            }),
    {
        let flag = concat("-l", name);
        let ghost prev = self.link_flags@;
        self.link_flags.push(flag);
        assert(names(self.link_flags@) =~= names(prev).push("-l"@ + name@));
    }

    /// Adds a preprocessor define, with or without a value.
    pub fn define(&mut self, name: &str, value: Option<String>)
        ensures
            final(self)@ == (CompilerView {
                defines: old(self)@.defines.push((name@, value)),
                ..old(self)@
            }),
    {
        let ghost prev = self.defines@;
        self.defines.push((name.to_owned(), value));
        assert(views(self.defines@) =~= views(prev).push((name@, value)));
    }

    /// Sets the optimisation level.
    pub fn set_optimization_level(&mut self, level: u32)
        ensures
            final(self)@ == (CompilerView {
                compile_flags: old(self)@.compile_flags.push("-O"@ + decimal_digits(level as nat)),
                ..old(self)@
            }),
    {
        let digits = decimal(level);
        let flag = concat("-O", digits.as_str());
        let ghost prev = self.compile_flags@;
        self.compile_flags.push(flag);
        assert(names(self.compile_flags@) =~= names(prev).push(
            "-O"@ + decimal_digits(level as nat),
        ));
    }

    /// Asks for debug information.
    pub fn enable_debug_info(&mut self)
        ensures
            final(self)@ == (CompilerView {
                compile_flags: old(self)@.compile_flags.push("-g"@),
                ..old(self)@
            }),
    {
        let ghost prev = self.compile_flags@;
        self.compile_flags.push(String::from_str("-g"));
        assert(names(self.compile_flags@) =~= names(prev).push("-g"@));
    }

    /// Where the object of `source` goes.
    pub fn object_path(&self, source: &str) -> (r: String)
        ensures
            r@ == object_path(self@.target, source@),
    {
        let dir = join(self.target_directory.as_str(), "objects");
        let rel = with_object_extension(source);
        join(dir.as_str(), rel.as_str())
    }

    /// The invocation that compiles one source to its object.
    pub fn compile_command(&self, source: &str) -> (r: ToolInvocation)
        ensures
            r@ == (ToolInvocationView { program: "tcc"@, args: compile_args(self@, source@) }),
    {
        let mut args: Vec<String> = Vec::new();
        let mut i: usize = 0;
        let ghost flags = self@.defines.map_values(|d: (Seq<char>, Option<String>)| define_flag(d));
        while i < self.defines.len()
            invariant
                i <= self.defines@.len(),
                flags == self@.defines.map_values(|d: (Seq<char>, Option<String>)| define_flag(d)),
                names(args@) == flags.subrange(0, i as int),
            decreases self.defines@.len() - i,
        {
            let flag = define_flag_text(self.defines[i].0.as_str(), &self.defines[i].1);
            let ghost prev = args@;
            args.push(flag);
            assert(names(args@) =~= names(prev).push(flags[i as int]));
            assert(flags.subrange(0, i + 1) =~= flags.subrange(0, i as int).push(flags[i as int]));
            i = i + 1;
        }
        assert(flags.subrange(0, self.defines@.len() as int) =~= flags);
        append_copies(&mut args, &self.compile_flags);
        let ghost before = args@;
        args.push(String::from_str("-c"));
        args.push(source.to_owned());
        args.push(String::from_str("-o"));
        args.push(self.object_path(source));
        assert(names(args@) =~= compile_args(self@, source@));
        ToolInvocation { program: String::from_str("tcc"), args }
    }

    /// The invocations that compile each source, in order.
    pub fn compile_commands(&self, sources: &Vec<String>) -> (r: Vec<ToolInvocation>)
        ensures
            r@.len() == sources@.len(),
            forall|k: int|
                0 <= k < sources@.len() ==> #[trigger] r@[k]@ == (ToolInvocationView {
                    program: "tcc"@,
                    args: compile_args(self@, sources@[k]@),
                }),
    {
        let mut r: Vec<ToolInvocation> = Vec::new();
        let mut i: usize = 0;
        while i < sources.len()
            invariant
                i <= sources@.len(),
                r@.len() == i,
                forall|k: int|
                    0 <= k < i ==> #[trigger] r@[k]@ == (ToolInvocationView {
                        program: "tcc"@,
                        args: compile_args(self@, sources@[k]@),
                    }),
            decreases sources@.len() - i,
        {
            r.push(self.compile_command(sources[i].as_str()));
            i = i + 1;
        }
        r
    }

    /// Records the objects of compiled sources as link inputs, ahead of
    /// those already there; the last source's object comes first.
    pub fn add_objects(&mut self, sources: &Vec<String>)
        ensures
            final(self)@ == (CompilerView {
                objects: objects_of(old(self)@.target, names(sources@)) + old(self)@.objects,
                ..old(self)@
            }),
    {
        let ghost srcs = names(sources@);
        let mut objs: Vec<String> = Vec::new();
        let mut i: usize = sources.len();
        while i > 0
            invariant
                i <= sources@.len(),
                srcs == names(sources@),
                names(objs@) == objects_of(self@.target, srcs).subrange(
                    0,
                    sources@.len() - i,
                ),
            decreases i,
        {
            let ghost prev = objs@;
            objs.push(self.object_path(sources[i - 1].as_str()));
            assert(names(objs@) =~= names(prev).push(object_path(self@.target, srcs[i - 1])));
            assert(objects_of(self@.target, srcs).subrange(0, sources@.len() - i + 1) =~= objects_of(
                self@.target,
                srcs,
            ).subrange(0, sources@.len() - i).push(object_path(self@.target, srcs[i - 1])));
            i = i - 1;
        }
        assert(objects_of(self@.target, srcs).subrange(0, sources@.len() as int) =~= objects_of(
            self@.target,
            srcs,
        ));
        append_copies(&mut objs, &self.objects);
        self.objects = objs;
    }

    /// The invocation that links (`Binary`) or archives (`Library`) the
    /// accumulated artifacts under the name `name`.
    pub fn link_command(&self, name: &str, output: OutputType) -> (r: ToolInvocation)
        ensures
            r@ == link_invocation(self@, name@, output),
    {
        match output {
            OutputType::Binary => {
                let mut args: Vec<String> = Vec::new();
                append_copies(&mut args, &self.link_flags);
                append_copies(&mut args, &self.objects);
                args.push(String::from_str("-o"));
                args.push(join(self.target_directory.as_str(), name));
                assert(names(args@) =~= self@.link_flags + self@.objects + seq![
                    "-o"@,
                    join_path(self@.target, name@),
                ]);
                ToolInvocation { program: String::from_str("tcc"), args }
            },
            OutputType::Library => {
                let lib = concat("lib", name);
                let file = concat(lib.as_str(), ".a");
                let mut args: Vec<String> = vec![
                    String::from_str("rcs"),
                    join(self.target_directory.as_str(), file.as_str()),
                ];
                append_copies(&mut args, &self.objects);
                assert(names(args@) =~= seq!["rcs"@, join_path(self@.target, archive_file(name@))]
                    + self@.objects);
                ToolInvocation { program: String::from_str("ar"), args }
            },
        }
    }
}

/// What follows the compilation of a package's sources.
#[derive(Debug, Clone, Copy, PartialEq, Eq, Structural)]
pub enum CompileOutcome {
    /// Every source compiled: archive the objects.
    Link,
    /// The source at this position failed: the build stops here.
    Abort(usize),
}

/// The position of the first `false`, or the length when there is none.
pub open spec fn first_failure(ok: Seq<bool>) -> int
    decreases ok.len(),
{
    if ok.len() == 0 {
        0
    } else if !ok[0] {
        0
    } else {
        1 + first_failure(ok.drop_first())
    }
}

/// The step after compiling sources whose results are `ok`, in source order.
pub open spec fn compile_outcome(ok: Seq<bool>) -> CompileOutcome {
    let k = first_failure(ok);
    if k == ok.len() {
        CompileOutcome::Link
    } else {
        CompileOutcome::Abort(k as usize)
    }
}

proof fn lemma_first_failure(ok: Seq<bool>, k: int)
    requires
        0 <= k <= ok.len(),
        forall|j: int| 0 <= j < k ==> ok[j],
    ensures
        k < ok.len() && !ok[k] ==> first_failure(ok) == k,
        k == ok.len() ==> first_failure(ok) == k,
    decreases k,
{
    if k > 0 {
        lemma_first_failure(ok.drop_first(), k - 1);
    }
}

proof fn lemma_first_failure_bounds(ok: Seq<bool>)
    ensures
        0 <= first_failure(ok) <= ok.len(),
        forall|j: int| 0 <= j < first_failure(ok) ==> ok[j],
        first_failure(ok) < ok.len() ==> !ok[first_failure(ok)],
    decreases ok.len(),
{
    if ok.len() > 0 && ok[0] {
        lemma_first_failure_bounds(ok.drop_first());
        assert forall|j: int| 0 <= j < first_failure(ok) implies ok[j] by {
            if j > 0 {
                assert(ok.drop_first()[j - 1] == ok[j]);
            }
        }
    }
}

/// Decides, from the results of a package's source compilations, whether
/// its archive is made: only when every one succeeded.
pub fn after_compilation(succeeded: &Vec<bool>) -> (r: CompileOutcome)
    ensures
        r == compile_outcome(succeeded@),
{
    let mut i: usize = 0;
    while i < succeeded.len()
        invariant
            i <= succeeded@.len(),
            forall|j: int| 0 <= j < i ==> succeeded@[j],
        decreases succeeded@.len() - i,
    {
        if !succeeded[i] {
            proof {
                lemma_first_failure(succeeded@, i as int);
            }
            return CompileOutcome::Abort(i);
        }
        i = i + 1;
    }
    proof {
        lemma_first_failure(succeeded@, i as int);
    }
    CompileOutcome::Link
}

/// Fail-fast: when any one compilation of a package's sources fails, its
/// archive is not made; the build stops at the first failed source.
pub proof fn lemma_fail_fast(ok: Seq<bool>, k: int)
    requires
        0 <= k < ok.len() <= usize::MAX,
        !ok[k],
    ensures
        compile_outcome(ok) != CompileOutcome::Link,
        compile_outcome(ok) matches CompileOutcome::Abort(f) && f <= k && !ok[f as int],
{
    lemma_first_failure_bounds(ok);
    if first_failure(ok) > k {
        assert(ok[k]);
    }
}

/// Archiving happens exactly when every compilation succeeded.
pub proof fn lemma_link_only_on_success(ok: Seq<bool>)
    ensures
        compile_outcome(ok) == CompileOutcome::Link <==> forall|j: int| 0 <= j < ok.len() ==> ok[j],
{
    lemma_first_failure_bounds(ok);
}

} // verus!
