use kuroe::compile::{plan_compile, CompileSession};
use kuroe::error::HarnessError;
use kuroe::language::{
    default_languages, detect_language, expand_and_tokenize, Clang, CommandStep, Cpp, CustomLang,
    ExecuteStatus, Language, Python, Toolchain, Txt,
};

fn strings(items: &[&str]) -> Vec<String> {
    items.iter().map(|s| s.to_string()).collect()
}

#[test]
fn test_execute_status() {
    assert!(ExecuteStatus::Success.success());
    assert!(!ExecuteStatus::TimeLimitExceed.success());
    assert!(!ExecuteStatus::Fail.success());
}

#[test]
fn test_language() {
    assert!(Clang.is_valid_ext("c"));
    assert!(!Clang.is_valid_ext("test"));

    assert!(Cpp.is_valid_ext("cpp"));
    assert!(Cpp.is_valid_ext("cc"));
    assert!(!Cpp.is_valid_ext("test"));

    assert!(Python.is_valid_ext("py"));
    assert!(!Python.is_valid_ext("test"));

    assert!(Txt.is_valid_ext("txt"));
    assert!(Txt.is_valid_ext("in"));
    assert!(!Txt.is_valid_ext("test"));

    let cmd = Clang.run("target");
    assert_eq!(cmd.program, "./a.out".to_string());
    assert_eq!(cmd.args.len(), 0);

    let cmd = Cpp.run("target");
    assert_eq!(cmd.program, "./a.out".to_string());
    assert_eq!(cmd.args.len(), 0);

    let cmd = Python.run("target");
    assert_eq!(cmd.program, "python3".to_string());
    assert_eq!(cmd.args.len(), 1);

    let cmd = Txt.run("target");
    assert_eq!(cmd.program, "cat".to_string());
    assert_eq!(cmd.args.len(), 1);
}

#[test]
fn test_custom_language() {
    let lang = CustomLang::new("rs", vec!["true".to_string()]).unwrap();
    assert!(lang.is_valid_ext("rs"));
    assert!(!lang.is_valid_ext("test"));
}

#[test]
fn test_detect_language() {
    let langs: Vec<Toolchain> = vec![Toolchain::Cpp, Toolchain::Txt];

    let lang = detect_language("cpp", &langs);
    assert!(lang.unwrap().is_valid_ext("cpp"));

    let lang = detect_language("txt", &langs);
    assert!(lang.unwrap().is_valid_ext("txt"));

    let lang = detect_language("test", &langs);
    assert!(lang.is_err());
}

#[test]
fn test_compile_and_get_runstep() {
    let langs: Vec<Toolchain> = vec![Toolchain::Cpp, Toolchain::Txt];

    let plan = plan_compile("scratch/test.txt", "/tmp/scratch/test.txt", &langs).unwrap();
    let session = CompileSession::start(plan);
    assert!(session.pending().is_none());
    let runstep = session.finish().unwrap();
    assert_eq!(runstep.program, "cat".to_string());
    assert_eq!(runstep.args.len(), 1);
}

#[test]
fn status_of_a_wait() {
    assert_eq!(ExecuteStatus::from_wait(Some(true)), ExecuteStatus::Success);
    assert_eq!(ExecuteStatus::from_wait(Some(false)), ExecuteStatus::Fail);
    assert_eq!(ExecuteStatus::from_wait(None), ExecuteStatus::TimeLimitExceed);
    assert_eq!(ExecuteStatus::from_exit(true), ExecuteStatus::Success);
    assert_eq!(ExecuteStatus::from_exit(false), ExecuteStatus::Fail);
}

#[test]
fn only_a_timeout_leaves_a_process_to_kill() {
    assert!(ExecuteStatus::TimeLimitExceed.must_kill());
    assert!(!ExecuteStatus::Success.must_kill());
    assert!(!ExecuteStatus::Fail.must_kill());
}

#[test]
fn status_labels() {
    assert_eq!(ExecuteStatus::Success.label(), "Success");
    assert_eq!(ExecuteStatus::TimeLimitExceed.label(), "TimeLimitExceed");
    assert_eq!(ExecuteStatus::Fail.label(), "Fail");
}

#[test]
fn additional_arguments_follow_the_fixed_ones() {
    let step = CommandStep::new("prog".to_string(), strings(&["a", "b"]));
    assert_eq!(step.arguments(&strings(&["10"])), strings(&["a", "b", "10"]));
    assert_eq!(step.arguments(&Vec::new()), strings(&["a", "b"]));
    assert!(!step.ignore_additional_args);
}

#[test]
fn ignored_additional_arguments_are_dropped() {
    let step = CommandStep::new_ignore_additional_args("cat".to_string(), strings(&["file"]));
    assert_eq!(step.arguments(&strings(&["10", "11"])), strings(&["file"]));
    assert!(step.ignore_additional_args);
}

#[test]
fn pass_through_toolchain_drops_the_seed() {
    let step = Txt.run("/data/sample.in");
    assert_eq!(step.arguments(&strings(&["42"])), strings(&["/data/sample.in"]));
    let step = Python.run("/data/gen.py");
    assert_eq!(step.arguments(&strings(&["42"])), strings(&["/data/gen.py", "42"]));
}

#[test]
fn duplicate_is_the_same_step() {
    let step = CommandStep::new_ignore_additional_args("cat".to_string(), strings(&["x", "y"]));
    let copy = step.duplicate();
    assert_eq!(copy.program, step.program);
    assert_eq!(copy.args, step.args);
    assert_eq!(copy.ignore_additional_args, step.ignore_additional_args);
}

#[test]
fn builtin_compile_steps() {
    let steps = Clang.compile("/abs/main.c");
    assert_eq!(steps.len(), 1);
    assert_eq!(steps[0].program, "gcc");
    assert_eq!(steps[0].args, strings(&["-std=c11", "-O2", "/abs/main.c"]));
    assert!(!steps[0].ignore_additional_args);

    let steps = Cpp.compile("/abs/main.cpp");
    assert_eq!(steps.len(), 1);
    assert_eq!(steps[0].program, "g++");
    assert_eq!(steps[0].args, strings(&["-std=c++20", "-O2", "/abs/main.cpp"]));

    assert_eq!(Python.compile("/abs/main.py").len(), 0);
    assert_eq!(Txt.compile("/abs/main.txt").len(), 0);
}

#[test]
fn builtin_run_steps() {
    let step = Python.run("/abs/main.py");
    assert_eq!(step.args, strings(&["/abs/main.py"]));
    assert!(!step.ignore_additional_args);
    let step = Txt.run("/abs/main.txt");
    assert_eq!(step.args, strings(&["/abs/main.txt"]));
    assert!(step.ignore_additional_args);
}

#[test]
fn template_is_expanded_and_cut_at_spaces() {
    let step = expand_and_tokenize("g++ %(target) -o test", "/abs/hello.cpp");
    assert_eq!(step.program, "g++");
    assert_eq!(step.args, strings(&["/abs/hello.cpp", "-o", "test"]));
    assert!(!step.ignore_additional_args);
}

#[test]
fn every_placeholder_is_replaced() {
    let step = expand_and_tokenize("cp %(target) %(target).bak", "/x/y");
    assert_eq!(step.program, "cp");
    assert_eq!(step.args, strings(&["/x/y", "/x/y.bak"]));
}

#[test]
fn template_without_placeholder_is_kept() {
    let step = expand_and_tokenize("./test", "/abs/hello.cpp");
    assert_eq!(step.program, "./test");
    assert_eq!(step.args.len(), 0);
}

#[test]
fn tokenizing_knows_no_quoting() {
    let step = expand_and_tokenize("run %(target)", "/my dir/a.cpp");
    assert_eq!(step.program, "run");
    assert_eq!(step.args, strings(&["/my", "dir/a.cpp"]));

    let step = expand_and_tokenize("a  b ", "t");
    assert_eq!(step.program, "a");
    assert_eq!(step.args, strings(&["", "b", ""]));

    let step = expand_and_tokenize("", "t");
    assert_eq!(step.program, "");
    assert_eq!(step.args.len(), 0);
}

#[test]
fn near_placeholders_are_left_alone() {
    let step = expand_and_tokenize("%(targe) %%(target)) (target)", "T");
    assert_eq!(step.program, "%(targe)");
    assert_eq!(step.args, strings(&["%T)", "(target)"]));
}

#[test]
fn custom_language_steps() {
    let lang = CustomLang::new(
        "cpp",
        strings(&["g++ %(target) -o test", "strip test", "./test"]),
    )
    .unwrap();
    let steps = lang.compile("/abs/hello.cpp");
    assert_eq!(steps.len(), 2);
    assert_eq!(steps[0].program, "g++");
    assert_eq!(steps[0].args, strings(&["/abs/hello.cpp", "-o", "test"]));
    assert_eq!(steps[1].program, "strip");
    assert_eq!(steps[1].args, strings(&["test"]));
    let run = lang.run("/abs/hello.cpp");
    assert_eq!(run.program, "./test");
    assert_eq!(run.args.len(), 0);
    assert_eq!(run.arguments(&strings(&["0"])), strings(&["0"]));
}

#[test]
fn custom_pattern_matches_the_whole_extension() {
    let lang = CustomLang::new("rs", strings(&["true"])).unwrap();
    assert!(!lang.is_valid_ext("rsx"));
    assert!(!lang.is_valid_ext("xrs"));
    assert!(!lang.is_valid_ext(""));

    let lang = CustomLang::new("c|cc", strings(&["true"])).unwrap();
    assert!(lang.is_valid_ext("c"));
    assert!(lang.is_valid_ext("cc"));
    assert!(!lang.is_valid_ext("ccc"));
    assert!(!lang.is_valid_ext("xc"));

    let lang = CustomLang::new("c.*", strings(&["true"])).unwrap();
    assert!(lang.is_valid_ext("cpp"));
    assert!(!lang.is_valid_ext("acpp"));
}

#[test]
fn custom_language_needs_a_command() {
    assert_eq!(
        CustomLang::new("rs", Vec::new()).err(),
        Some(HarnessError::InvalidCustomToolchain)
    );
}

#[test]
fn custom_language_needs_a_regular_expression() {
    assert_eq!(
        CustomLang::new("(", strings(&["true"])).err(),
        Some(HarnessError::InvalidExtensionPattern)
    );
    // compiles between the anchors, but not alone
    assert_eq!(
        CustomLang::new("a)|(b", strings(&["true"])).err(),
        Some(HarnessError::InvalidExtensionPattern)
    );
    // the pattern is looked at before the commands
    assert_eq!(
        CustomLang::new("(", Vec::new()).err(),
        Some(HarnessError::InvalidExtensionPattern)
    );
}

#[test]
fn default_languages_in_order() {
    let langs = default_languages();
    assert_eq!(langs.len(), 4);
    assert!(matches!(langs[0], Toolchain::Clang));
    assert!(matches!(langs[1], Toolchain::Cpp));
    assert!(matches!(langs[2], Toolchain::Python));
    assert!(matches!(langs[3], Toolchain::Txt));
}

#[test]
fn detection_takes_the_first_match() {
    let custom = CustomLang::new("cpp", strings(&["clang++ %(target)", "./a.out"])).unwrap();
    let langs = vec![Toolchain::Custom(custom), Toolchain::Cpp];
    let lang = detect_language("cpp", &langs).unwrap();
    assert!(matches!(lang, Toolchain::Custom(_)));
    assert_eq!(lang.compile("/abs/a.cpp")[0].program, "clang++");
    // what only the built-in toolchain accepts still reaches it
    let lang = detect_language("cc", &langs).unwrap();
    assert!(matches!(lang, Toolchain::Cpp));

    let custom = CustomLang::new("cpp", strings(&["clang++ %(target)", "./a.out"])).unwrap();
    let langs = vec![Toolchain::Cpp, Toolchain::Custom(custom)];
    let lang = detect_language("cpp", &langs).unwrap();
    assert!(matches!(lang, Toolchain::Cpp));
}

#[test]
fn detection_fails_without_a_match() {
    let langs = default_languages();
    assert_eq!(
        detect_language("rs", &langs).err(),
        Some(HarnessError::NoLanguageDetected)
    );
    let none: Vec<Toolchain> = Vec::new();
    assert_eq!(
        detect_language("c", &none).err(),
        Some(HarnessError::NoLanguageDetected)
    );
}

#[test]
fn detection_over_one_kind_of_toolchain() {
    let langs = vec![Python, Python];
    assert!(detect_language("py", &langs).is_ok());
    assert!(detect_language("c", &langs).is_err());
}

#[test]
fn toolchain_dispatches_to_its_language() {
    assert!(Toolchain::Clang.is_valid_ext("c"));
    assert!(!Toolchain::Clang.is_valid_ext("cpp"));
    assert_eq!(Toolchain::Python.run("/a.py").program, "python3");
    assert_eq!(Toolchain::Cpp.compile("/a.cpp")[0].program, "g++");
    assert_eq!(Toolchain::Txt.compile("/a.txt").len(), 0);
}

#[test]
fn plan_takes_extension_from_the_target_and_path_from_the_canonical_one() {
    let langs = default_languages();
    let plan = plan_compile("./gen/a.cpp", "/home/u/gen/a.cpp", &langs).unwrap();
    assert_eq!(plan.compile.len(), 1);
    assert_eq!(plan.compile[0].program, "g++");
    assert_eq!(
        plan.compile[0].args,
        strings(&["-std=c++20", "-O2", "/home/u/gen/a.cpp"])
    );
    assert_eq!(plan.run.program, "./a.out");
}

#[test]
fn plan_fails_without_extension_or_toolchain() {
    let langs = default_languages();
    assert_eq!(
        plan_compile("gen/Makefile", "/gen/Makefile", &langs).err(),
        Some(HarnessError::MissingExtension)
    );
    assert_eq!(
        plan_compile("gen/..", "/", &langs).err(),
        Some(HarnessError::MissingExtension)
    );
    assert_eq!(
        plan_compile("gen/a.rs", "/gen/a.rs", &langs).err(),
        Some(HarnessError::NoLanguageDetected)
    );
}

#[test]
fn compile_session_runs_steps_in_order() {
    let lang = CustomLang::new("x", strings(&["one %(target)", "two", "run"])).unwrap();
    let plan = plan_compile("a.x", "/a.x", &vec![Toolchain::Custom(lang)]).unwrap();
    let mut session = CompileSession::start(plan);
    assert_eq!(session.pending().unwrap().program, "one");
    assert_eq!(session.record(Ok(ExecuteStatus::Success)), Ok(()));
    assert_eq!(session.pending().unwrap().program, "two");
    assert_eq!(session.record(Ok(ExecuteStatus::Success)), Ok(()));
    assert!(session.pending().is_none());
    // nothing is pending: nothing changes
    assert_eq!(session.record(Ok(ExecuteStatus::Fail)), Ok(()));
    assert_eq!(session.finish().unwrap().program, "run");
}

#[test]
fn compile_failure_ends_the_session() {
    let lang = CustomLang::new("x", strings(&["one", "two", "run"])).unwrap();
    let plan = plan_compile("a.x", "/a.x", &vec![Toolchain::Custom(lang)]).unwrap();
    let mut session = CompileSession::start(plan);
    assert_eq!(
        session.record(Ok(ExecuteStatus::Fail)),
        Err(HarnessError::CompileFailure)
    );
    assert!(session.pending().is_none());
    assert_eq!(
        session.record(Ok(ExecuteStatus::Success)),
        Err(HarnessError::CompileFailure)
    );
    assert_eq!(session.finish().err(), Some(HarnessError::CompileFailure));
}

#[test]
fn compile_timeout_is_a_compile_failure() {
    let plan = plan_compile("a.c", "/a.c", &default_languages()).unwrap();
    let mut session = CompileSession::start(plan);
    assert_eq!(
        session.record(Ok(ExecuteStatus::TimeLimitExceed)),
        Err(HarnessError::CompileFailure)
    );
    assert_eq!(session.finish().err(), Some(HarnessError::CompileFailure));
}

#[test]
fn spawn_failure_ends_the_session() {
    let plan = plan_compile("a.c", "/a.c", &default_languages()).unwrap();
    let mut session = CompileSession::start(plan);
    assert_eq!(
        session.record(Err(HarnessError::SpawnFailure)),
        Err(HarnessError::SpawnFailure)
    );
    assert_eq!(session.finish().err(), Some(HarnessError::SpawnFailure));
}

#[test]
fn run_step_is_not_handed_out_early() {
    let plan = plan_compile("a.c", "/a.c", &default_languages()).unwrap();
    let session = CompileSession::start(plan);
    assert_eq!(session.finish().err(), Some(HarnessError::CompileFailure));
}

#[test]
fn error_messages() {
    assert_eq!(HarnessError::SpawnFailure.message(), "failed to execute");
    assert_eq!(HarnessError::CompileFailure.message(), "failed to compile");
    assert_eq!(HarnessError::NoLanguageDetected.message(), "no language detected");
    assert_eq!(HarnessError::InvalidCustomToolchain.message(), "invalid custom language");
    assert_eq!(
        HarnessError::InvalidExtensionPattern.message(),
        "invalid extension pattern"
    );
    assert_eq!(HarnessError::InvalidFilenameForm.message(), "invalid form");
    assert_eq!(HarnessError::MissingFileName.message(), "file name is not found");
    assert_eq!(HarnessError::MissingExtension.message(), "extension is not found");
    assert_eq!(HarnessError::RunFailure.message(), "failed to run");
}
