//! Toolchains: how a source file of one kind is compiled and run, and how the
//! toolchain of a file is chosen by its extension.

use crate::error::HarnessError;
use crate::pattern::{anchor, anchored, pattern_compiles, pattern_is_match, regex_compiles, regex_is_match};
use crate::text::{
    chars_of, join, lemma_split_join, replace_all, replaced, split, split_chars, str_eq, string_of,
    views,
};
use vstd::prelude::*;

verus! {

/// How one run of a program ended.
#[derive(Debug, Clone, Copy, PartialEq, Eq, Structural)]
pub enum ExecuteStatus {
    /// The program exited with code zero within the time limit.
    Success,
    /// The program was still running when the time limit elapsed.
    TimeLimitExceed,
    /// The program exited otherwise within the time limit.
    Fail,
}

/// The status of a run by what waiting for it gave: `None` where the time
/// limit elapsed first, else whether the program exited with code zero. A run
/// that is found unfinished at the deadline has exceeded the limit, whatever
/// it does afterwards.
pub open spec fn status_of_wait(exit: Option<bool>) -> ExecuteStatus {
    match exit {
        None => ExecuteStatus::TimeLimitExceed,
        Some(true) => ExecuteStatus::Success,
        Some(false) => ExecuteStatus::Fail,
    }
}

impl ExecuteStatus {
    /// Whether the status is `Success`.
    pub fn success(&self) -> (b: bool)
        ensures
            b == (*self == ExecuteStatus::Success),
    {
        matches!(self, ExecuteStatus::Success)
    }

    /// The status of a program that exited within the time limit:
    /// `Success` for exit code zero, `Fail` for any other end.
    pub fn from_exit(exited_with_zero: bool) -> (s: ExecuteStatus)
        ensures
            s == status_of_wait(Some(exited_with_zero)),
    {
        if exited_with_zero {
            ExecuteStatus::Success
        } else {
            ExecuteStatus::Fail
        }
    }

    /// The status of a run after waiting for it up to the time limit.
    pub fn from_wait(exit: Option<bool>) -> (s: ExecuteStatus)
        ensures
            s == status_of_wait(exit),
    {
        match exit {
            Some(exited_with_zero) => ExecuteStatus::from_exit(exited_with_zero),
            None => ExecuteStatus::TimeLimitExceed,
        }
    }

    /// Whether the program is still running and has to be killed and waited
    /// for: exactly after `TimeLimitExceed`.
    pub fn must_kill(&self) -> (b: bool)
        ensures
            b == (*self == ExecuteStatus::TimeLimitExceed),
    {
        matches!(self, ExecuteStatus::TimeLimitExceed)
    }

    /// The name of the status in reports.
    pub fn label(&self) -> (s: String)
        ensures
            s@ == self.spec_label(),
    {
        match self {
            ExecuteStatus::Success => "Success".to_string(),
            ExecuteStatus::TimeLimitExceed => "TimeLimitExceed".to_string(),
            ExecuteStatus::Fail => "Fail".to_string(),
        }
    }

    /// The characters that `label` returns.
    pub open spec fn spec_label(&self) -> Seq<char> {
        match self {
            ExecuteStatus::Success => "Success"@,
            ExecuteStatus::TimeLimitExceed => "TimeLimitExceed"@,
            ExecuteStatus::Fail => "Fail"@,
        }
    }
}

/// One invocation of an external program, as a mathematical value.
pub struct CommandStepView {
    pub program: Seq<char>,
    pub args: Seq<Seq<char>>,
    pub ignore_additional_args: bool,
}

impl CommandStepView {
    /// The arguments that the program is started with when the caller adds
    /// `additional`: the fixed ones, followed by the caller's unless the step
    /// ignores them.
    pub open spec fn arguments(self, additional: Seq<Seq<char>>) -> Seq<Seq<char>> {
        if self.ignore_additional_args {
            self.args
        } else {
            self.args + additional
        }
    }
}

/// One invocation of an external program: its name, its fixed arguments, and
/// whether arguments added at the time of a run are passed on or dropped.
#[derive(Debug)]
pub struct CommandStep {
    pub program: String,
    pub args: Vec<String>,
    pub ignore_additional_args: bool,
}

impl View for CommandStep {
    type V = CommandStepView;

    open spec fn view(&self) -> CommandStepView {
        CommandStepView {
            program: self.program@,
            args: self.args.deep_view(),
            ignore_additional_args: self.ignore_additional_args,
        }
    }
}

impl DeepView for CommandStep {
    type V = CommandStepView;

    open spec fn deep_view(&self) -> CommandStepView {
        self@
    }
}

/// A copy of a list of strings.
pub fn copy_strings(list: &Vec<String>) -> (copy: Vec<String>)
    ensures
        copy.deep_view() == list.deep_view(),
        copy.len() == list.len(),
        forall|k: int| 0 <= k < list.len() ==> copy@[k]@ == list@[k]@,
{
    let mut copy: Vec<String> = Vec::new();
    let mut i: usize = 0;
    while i < list.len()
        invariant
            i <= list.len(),
            copy.len() == i,
            forall|k: int| 0 <= k < i ==> copy@[k]@ == list@[k]@,
        decreases list.len() - i,
    {
        copy.push(list[i].clone());
        i += 1;
    }
    assert(copy.deep_view() =~= list.deep_view());
    copy
}

impl CommandStep {
    /// A step that passes additional arguments on to the program.
    pub fn new(program: String, args: Vec<String>) -> (step: Self)
        ensures
            step@ == (CommandStepView {
                program: program@,
                args: args.deep_view(),
                ignore_additional_args: false,
            }),
    {
        Self { program, args, ignore_additional_args: false }
    }

    /// A step that drops additional arguments.
    pub fn new_ignore_additional_args(program: String, args: Vec<String>) -> (step: Self)
        ensures
            step@ == (CommandStepView {
                program: program@,
                args: args.deep_view(),
                ignore_additional_args: true,
            }),
    {
        Self { program, args, ignore_additional_args: true }
    }

    /// The arguments to start the program with when the caller adds
    /// `additional_args`.
    pub fn arguments(&self, additional_args: &Vec<String>) -> (all: Vec<String>)
        ensures
            all.deep_view() == self@.arguments(additional_args.deep_view()),
    {
        let mut all = copy_strings(&self.args);
        if !self.ignore_additional_args {
            let mut i: usize = 0;
            while i < additional_args.len()
                invariant
                    i <= additional_args.len(),
                    all.len() == self.args.len() + i,
                    forall|k: int| 0 <= k < self.args.len() ==> all@[k]@ == self.args@[k]@,
                    forall|k: int| 0 <= k < i ==> all@[self.args.len() + k]@ == additional_args@[k]@,
                decreases additional_args.len() - i,
            {
                all.push(additional_args[i].clone());
                i += 1;
            }
        }
        assert(all.deep_view() =~= self@.arguments(additional_args.deep_view()));
        all
    }

    /// A copy of the step.
    pub fn duplicate(&self) -> (copy: Self)
        ensures
            copy@ == self@,
    {
        Self {
            program: self.program.clone(),
            args: copy_strings(&self.args),
            ignore_additional_args: self.ignore_additional_args,
        }
    }
}

/// A toolchain: which extensions it is for, how a target of its kind is
/// compiled, and how the compiled target is run. The target is given by its
/// canonical absolute path; compile steps and run step share one working
/// directory.
pub trait Language {
    /// Whether the toolchain is for files with the extension `ext`.
    spec fn accepts(&self, ext: Seq<char>) -> bool;

    /// The compile steps for `target`, in the order in which they run.
    spec fn compile_steps(&self, target: Seq<char>) -> Seq<CommandStepView>;

    /// The step that runs `target` once it is compiled.
    spec fn run_step(&self, target: Seq<char>) -> CommandStepView;

    fn is_valid_ext(&self, ext: &str) -> (b: bool)
        ensures
            b == self.accepts(ext@),
    ;

    fn compile(&self, target: &str) -> (steps: Vec<CommandStep>)
        ensures
            steps.deep_view() == self.compile_steps(target@),
    ;

    fn run(&self, target: &str) -> (step: CommandStep)
        ensures
            step@ == self.run_step(target@),
    ;
}

/// The step that runs the binary which the C and C++ compilers leave in the
/// working directory.
pub open spec fn binary_step() -> CommandStepView {
    CommandStepView { program: "./a.out"@, args: Seq::empty(), ignore_additional_args: false }
}

/// The step that starts `program` with the target as its only argument.
pub open spec fn target_step(program: Seq<char>, target: Seq<char>, ignore: bool) -> CommandStepView {
    CommandStepView { program, args: seq![target], ignore_additional_args: ignore }
}

/// The one compile step of a compiler that takes a language standard, the
/// optimisation level `-O2` and the target.
pub open spec fn compiler_steps(program: Seq<char>, standard: Seq<char>, target: Seq<char>) -> Seq<
    CommandStepView,
> {
    seq![
        CommandStepView {
            program,
            args: seq![standard, "-O2"@, target],
            ignore_additional_args: false,
        },
    ]
}

fn run_binary() -> (step: CommandStep)
    ensures
        step@ == binary_step(),
{
    let step = CommandStep::new("./a.out".to_string(), Vec::new());
    assert(step@.args =~= Seq::empty());
    step
}

fn run_with_target(program: &str, target: &str, ignore: bool) -> (step: CommandStep)
    ensures
        step@ == target_step(program@, target@, ignore),
{
    let mut args: Vec<String> = Vec::new();
    args.push(target.to_string());
    assert(args.deep_view() =~= seq![target@]);
    if ignore {
        CommandStep::new_ignore_additional_args(program.to_string(), args)
    } else {
        CommandStep::new(program.to_string(), args)
    }
}

fn compile_with(program: &str, standard: &str, target: &str) -> (steps: Vec<CommandStep>)
    ensures
        steps.deep_view() == compiler_steps(program@, standard@, target@),
{
    let mut args: Vec<String> = Vec::new();
    args.push(standard.to_string());
    args.push("-O2".to_string());
    args.push(target.to_string());
    assert(args.deep_view() =~= seq![standard@, "-O2"@, target@]);
    let mut steps: Vec<CommandStep> = Vec::new();
    steps.push(CommandStep::new(program.to_string(), args));
    assert(steps.deep_view() =~= compiler_steps(program@, standard@, target@));
    steps
}

fn no_steps() -> (steps: Vec<CommandStep>)
    ensures
        steps.deep_view() == Seq::<CommandStepView>::empty(),
{
    let steps: Vec<CommandStep> = Vec::new();
    assert(steps.deep_view() =~= Seq::<CommandStepView>::empty());
    steps
}

/// C: compiled by `gcc` to `./a.out`.
#[derive(Debug, Clone, Copy)]
pub struct Clang;

impl Language for Clang {
    open spec fn accepts(&self, ext: Seq<char>) -> bool {
        ext == "c"@
    }

    open spec fn compile_steps(&self, target: Seq<char>) -> Seq<CommandStepView> {
        compiler_steps("gcc"@, "-std=c11"@, target)
    }

    open spec fn run_step(&self, target: Seq<char>) -> CommandStepView {
        binary_step()
    }

    fn is_valid_ext(&self, ext: &str) -> (b: bool) {
        str_eq(ext, "c")
    }

    fn compile(&self, target: &str) -> (steps: Vec<CommandStep>) {
        compile_with("gcc", "-std=c11", target)
    }

    fn run(&self, _target: &str) -> (step: CommandStep) {
        run_binary()
    }
}

/// C++: compiled by `g++` to `./a.out`.
#[derive(Debug, Clone, Copy)]
pub struct Cpp;

impl Language for Cpp {
    open spec fn accepts(&self, ext: Seq<char>) -> bool {
        ext == "cpp"@ || ext == "cc"@
    }

    open spec fn compile_steps(&self, target: Seq<char>) -> Seq<CommandStepView> {
        compiler_steps("g++"@, "-std=c++20"@, target)
    }

    open spec fn run_step(&self, target: Seq<char>) -> CommandStepView {
        binary_step()
    }

    fn is_valid_ext(&self, ext: &str) -> (b: bool) {
        str_eq(ext, "cpp") || str_eq(ext, "cc")
    }

    fn compile(&self, target: &str) -> (steps: Vec<CommandStep>) {
        compile_with("g++", "-std=c++20", target)
    }

    fn run(&self, _target: &str) -> (step: CommandStep) {
        run_binary()
    }
}

/// Python: not compiled, run by `python3`.
#[derive(Debug, Clone, Copy)]
pub struct Python;

impl Language for Python {
    open spec fn accepts(&self, ext: Seq<char>) -> bool {
        ext == "py"@
    }

    open spec fn compile_steps(&self, target: Seq<char>) -> Seq<CommandStepView> {
        Seq::empty()
    }

    open spec fn run_step(&self, target: Seq<char>) -> CommandStepView {
        target_step("python3"@, target, false)
    }

    fn is_valid_ext(&self, ext: &str) -> (b: bool) {
        str_eq(ext, "py")
    }

    fn compile(&self, _target: &str) -> (steps: Vec<CommandStep>) {
        no_steps()
    }

    fn run(&self, target: &str) -> (step: CommandStep) {
        run_with_target("python3", target, false)
    }
}

/// Plain text: not compiled, and "run" by writing the file out with `cat`,
/// whatever arguments the caller adds.
#[derive(Debug, Clone, Copy)]
pub struct Txt;

impl Language for Txt {
    open spec fn accepts(&self, ext: Seq<char>) -> bool {
        ext == "txt"@ || ext == "in"@
    }

    open spec fn compile_steps(&self, target: Seq<char>) -> Seq<CommandStepView> {
        Seq::empty()
    }

    open spec fn run_step(&self, target: Seq<char>) -> CommandStepView {
        target_step("cat"@, target, true)
    }

    fn is_valid_ext(&self, ext: &str) -> (b: bool) {
        str_eq(ext, "txt") || str_eq(ext, "in")
    }

    fn compile(&self, _target: &str) -> (steps: Vec<CommandStep>) {
        no_steps()
    }

    fn run(&self, target: &str) -> (step: CommandStep) {
        run_with_target("cat", target, true)
    }
}

/// A command template with every `%(target)` replaced by the target.
pub open spec fn expanded(template: Seq<char>, target: Seq<char>) -> Seq<char> {
    replaced(template, "%(target)"@, target)
}

/// The step that a command line stands for: the line is cut at every single
/// space, the first piece is the program and the others are its arguments.
/// There is no quoting: a piece never holds a space.
pub open spec fn command_of(line: Seq<char>) -> CommandStepView {
    let pieces = split(line, ' ');
    CommandStepView { program: pieces[0], args: pieces.skip(1), ignore_additional_args: false }
}

/// The steps that a list of command templates stands for, for one target.
pub open spec fn commands_of(templates: Seq<Seq<char>>, target: Seq<char>) -> Seq<CommandStepView> {
    templates.map_values(|t: Seq<char>| command_of(expanded(t, target)))
}

/// The words of a step: the program, then its fixed arguments.
pub open spec fn words_of(step: CommandStepView) -> Seq<Seq<char>> {
    seq![step.program] + step.args
}

/// Expands a command template for `target` and cuts the result into program
/// and arguments. The only replacement is that of `%(target)`; the line is cut
/// at every space and nowhere else, so that no word holds a space and the
/// words, joined by single spaces, are the expanded line.
pub fn expand_and_tokenize(template: &str, target: &str) -> (step: CommandStep)
    ensures
        step@ == command_of(expanded(template@, target@)),
        forall|i: int|
            0 <= i < words_of(step@).len() ==> !(#[trigger] words_of(step@)[i]).contains(' '),
        join(words_of(step@), ' ') == expanded(template@, target@),
{
    let line = replace_all(&chars_of(template), &chars_of("%(target)"), &chars_of(target));
    let pieces = split_chars(&line, ' ');
    proof {
        lemma_split_join(line@, ' ');
        let cut = split(line@, ' ');
        assert(words_of(command_of(line@)) =~= cut);
    }
    let program = string_of(&pieces[0]);
    let mut args: Vec<String> = Vec::new();
    let mut i: usize = 1;
    while i < pieces.len()
        invariant
            1 <= i <= pieces.len(),
            args.len() == i - 1,
            forall|k: int| 0 <= k < i - 1 ==> args@[k]@ == pieces@[k + 1]@,
        decreases pieces.len() - i,
    {
        args.push(string_of(&pieces[i]));
        i += 1;
    }
    assert(views(pieces@)[0] == pieces@[0]@);
    assert(args.deep_view() =~= views(pieces@).skip(1));
    CommandStep::new(program, args)
}

/// A toolchain given by the user: a pattern for the extensions it is for,
/// command templates for the compile steps, and one for the run step.
#[derive(Debug)]
pub struct CustomLang {
    ext: String,
    compile: Vec<String>,
    run: String,
}

impl CustomLang {
    /// The pattern that an extension has to match as a whole.
    pub closed spec fn pattern(&self) -> Seq<char> {
        self.ext@
    }

    /// The templates of the compile steps, in order.
    pub closed spec fn compile_templates(&self) -> Seq<Seq<char>> {
        self.compile.deep_view()
    }

    /// The template of the run step.
    pub closed spec fn run_template(&self) -> Seq<char> {
        self.run@
    }

    /// A toolchain for the extensions that `ext` matches as a whole. The last
    /// of `commands` is the run template, those before it are the compile
    /// templates. Fails where `ext`, alone or between anchors, is no regular
    /// expression, and where there is no command.
    pub fn new(ext: &str, commands: Vec<String>) -> (r: Result<CustomLang, HarnessError>)
        ensures
            match r {
                Ok(lang) => {
                    &&& regex_compiles(ext@)
                    &&& regex_compiles(anchored(ext@))
                    &&& commands.len() >= 1
                    &&& lang.pattern() == anchored(ext@)
                    &&& lang.compile_templates() == commands.deep_view().drop_last()
                    &&& lang.run_template() == commands.deep_view().last()
                },
                Err(e) => if regex_compiles(ext@) && regex_compiles(anchored(ext@)) {
                    commands.len() == 0 && e == HarnessError::InvalidCustomToolchain
                } else {
                    e == HarnessError::InvalidExtensionPattern
                },
            },
    {
        if !pattern_compiles(ext) {
            return Err(HarnessError::InvalidExtensionPattern);
        }
        let whole = anchor(ext);
        if !pattern_compiles(whole.as_str()) {
            return Err(HarnessError::InvalidExtensionPattern);
        }
        let mut compile = commands;
        match compile.pop() {
            Some(run) => {
                assert(compile.deep_view() =~= commands.deep_view().drop_last());
                Ok(CustomLang { ext: whole, compile, run })
            },
            None => Err(HarnessError::InvalidCustomToolchain),
        }
    }
}

impl Language for CustomLang {
    open spec fn accepts(&self, ext: Seq<char>) -> bool {
        regex_compiles(self.pattern()) && regex_is_match(self.pattern(), ext)
    }

    open spec fn compile_steps(&self, target: Seq<char>) -> Seq<CommandStepView> {
        commands_of(self.compile_templates(), target)
    }

    open spec fn run_step(&self, target: Seq<char>) -> CommandStepView {
        command_of(expanded(self.run_template(), target))
    }

    fn is_valid_ext(&self, ext: &str) -> (b: bool) {
        pattern_is_match(self.ext.as_str(), ext)
    }

    fn compile(&self, target: &str) -> (steps: Vec<CommandStep>) {
        let mut steps: Vec<CommandStep> = Vec::new();
        let mut i: usize = 0;
        while i < self.compile.len()
            invariant
                i <= self.compile.len(),
                steps.len() == i,
                forall|k: int| 0 <= k < i ==> steps@[k]@ == command_of(expanded(self.compile@[k]@, target@)),
            decreases self.compile.len() - i,
        {
            steps.push(expand_and_tokenize(self.compile[i].as_str(), target));
            i += 1;
        }
        assert(steps.deep_view() =~= self.compile_steps(target@));
        steps
    }

    fn run(&self, target: &str) -> (step: CommandStep) {
        expand_and_tokenize(self.run.as_str(), target)
    }
}

/// Any toolchain: one of the built-in ones or a custom one.
#[derive(Debug)]
pub enum Toolchain {
    Clang,
    Cpp,
    Python,
    Txt,
    Custom(CustomLang),
}

impl Language for Toolchain {
    open spec fn accepts(&self, ext: Seq<char>) -> bool {
        match self {
            Toolchain::Clang => Clang.accepts(ext),
            Toolchain::Cpp => Cpp.accepts(ext),
            Toolchain::Python => Python.accepts(ext),
            Toolchain::Txt => Txt.accepts(ext),
            Toolchain::Custom(lang) => lang.accepts(ext),
        }
    }

    open spec fn compile_steps(&self, target: Seq<char>) -> Seq<CommandStepView> {
        match self {
            Toolchain::Clang => Clang.compile_steps(target),
            Toolchain::Cpp => Cpp.compile_steps(target),
            Toolchain::Python => Python.compile_steps(target),
            Toolchain::Txt => Txt.compile_steps(target),
            Toolchain::Custom(lang) => lang.compile_steps(target),
        }
    }

    open spec fn run_step(&self, target: Seq<char>) -> CommandStepView {
        match self {
            Toolchain::Clang => Clang.run_step(target),
            Toolchain::Cpp => Cpp.run_step(target),
            Toolchain::Python => Python.run_step(target),
            Toolchain::Txt => Txt.run_step(target),
            Toolchain::Custom(lang) => lang.run_step(target),
        }
    }

    fn is_valid_ext(&self, ext: &str) -> (b: bool) {
        match self {
            Toolchain::Clang => Clang.is_valid_ext(ext),
            Toolchain::Cpp => Cpp.is_valid_ext(ext),
            Toolchain::Python => Python.is_valid_ext(ext),
            Toolchain::Txt => Txt.is_valid_ext(ext),
            Toolchain::Custom(lang) => lang.is_valid_ext(ext),
        }
    }

    fn compile(&self, target: &str) -> (steps: Vec<CommandStep>) {
        match self {
            Toolchain::Clang => Clang.compile(target),
            Toolchain::Cpp => Cpp.compile(target),
            Toolchain::Python => Python.compile(target),
            Toolchain::Txt => Txt.compile(target),
            Toolchain::Custom(lang) => lang.compile(target),
        }
    }

    fn run(&self, target: &str) -> (step: CommandStep) {
        match self {
            Toolchain::Clang => Clang.run(target),
            Toolchain::Cpp => Cpp.run(target),
            Toolchain::Python => Python.run(target),
            Toolchain::Txt => Txt.run(target),
            Toolchain::Custom(lang) => lang.run(target),
        }
    }
}

/// The built-in toolchains in the order in which they are tried.
pub open spec fn builtin_toolchains() -> Seq<Toolchain> {
    seq![Toolchain::Clang, Toolchain::Cpp, Toolchain::Python, Toolchain::Txt]
}

/// The built-in toolchains, in the order in which they are tried: C, C++,
/// Python, plain text.
pub fn default_languages() -> (langs: Vec<Toolchain>)
    ensures
        langs@ == builtin_toolchains(),
{
    let mut langs: Vec<Toolchain> = Vec::new();
    langs.push(Toolchain::Clang);
    langs.push(Toolchain::Cpp);
    langs.push(Toolchain::Python);
    langs.push(Toolchain::Txt);
    assert(langs@ =~= builtin_toolchains());
    langs
}

/// How many toolchains at the head of `langs` do not accept `ext`: the place
/// of the first one that does, or the length of the list where none does.
pub open spec fn first_accepting<L: Language>(langs: Seq<L>, ext: Seq<char>) -> int
    decreases langs.len(),
{
    if langs.len() == 0 || langs[0].accepts(ext) {
        0
    } else {
        1 + first_accepting(langs.drop_first(), ext)
    }
}

/// `first_accepting` is the place of the first toolchain that accepts.
pub proof fn lemma_first_accepting<L: Language>(langs: Seq<L>, ext: Seq<char>)
    ensures
        0 <= first_accepting(langs, ext) <= langs.len(),
        forall|k: int| 0 <= k < first_accepting(langs, ext) ==> !(#[trigger] langs[k]).accepts(ext),
        first_accepting(langs, ext) < langs.len() ==> langs[first_accepting(langs, ext)].accepts(ext),
    decreases langs.len(),
{
    if langs.len() == 0 || langs[0].accepts(ext) {
    } else {
        let rest = langs.drop_first();
        lemma_first_accepting(rest, ext);
        assert forall|k: int| 0 <= k < first_accepting(langs, ext) implies !(#[trigger] langs[k]).accepts(
            ext,
        ) by {
            if k > 0 {
                assert(langs[k] == rest[k - 1]);
            }
        }
        assert(first_accepting(langs, ext) < langs.len() ==> langs[first_accepting(langs, ext)]
            == rest[first_accepting(rest, ext)]);
    }
}

/// A toolchain that accepts, with none before it that does, is the first.
pub proof fn lemma_first_accepting_is<L: Language>(langs: Seq<L>, ext: Seq<char>, i: int)
    requires
        0 <= i <= langs.len(),
        forall|k: int| 0 <= k < i ==> !(#[trigger] langs[k]).accepts(ext),
        i < langs.len() ==> langs[i].accepts(ext),
    ensures
        first_accepting(langs, ext) == i,
{
    lemma_first_accepting(langs, ext);
    let j = first_accepting(langs, ext);
    if j < i {
        assert(!langs[j].accepts(ext));
    }
}

/// Detection goes by the order of the list: a toolchain put in front of a
/// list is chosen for every extension that it accepts, whatever the list
/// holds, and for every other extension the choice is that of the list.
pub proof fn lemma_front_toolchain_overrides<L: Language>(front: L, langs: Seq<L>, ext: Seq<char>)
    ensures
        front.accepts(ext) ==> first_accepting(seq![front] + langs, ext) == 0,
        !front.accepts(ext) ==> first_accepting(seq![front] + langs, ext) == first_accepting(
            langs,
            ext,
        ) + 1,
{
    let all = seq![front] + langs;
    assert(all[0] == front);
    assert(all.drop_first() =~= langs);
}

/// The toolchain for the extension `ext`: the first of `langs` that accepts
/// it. Fails with `NoLanguageDetected` exactly where none does. A toolchain
/// put in front of the others is chosen before them.
pub fn detect_language<'a, L: Language>(ext: &str, langs: &'a Vec<L>) -> (r: Result<
    &'a L,
    HarnessError,
>)
    ensures
        match r {
            Ok(lang) => {
                &&& first_accepting(langs@, ext@) < langs.len()
                &&& *lang == langs@[first_accepting(langs@, ext@)]
                &&& lang.accepts(ext@)
            },
            Err(e) => {
                &&& e == HarnessError::NoLanguageDetected
                &&& forall|k: int| 0 <= k < langs.len() ==> !(#[trigger] langs@[k]).accepts(ext@)
            },
        },
{
    let mut i: usize = 0;
    while i < langs.len()
        invariant
            i <= langs.len(),
            forall|k: int| 0 <= k < i ==> !(#[trigger] langs@[k]).accepts(ext@),
        decreases langs.len() - i,
    {
        if langs[i].is_valid_ext(ext) {
            proof {
                lemma_first_accepting_is(langs@, ext@, i as int);
            }
            return Ok(&langs[i]);
        }
        i += 1;
    }
    Err(HarnessError::NoLanguageDetected)
}

} // verus!
