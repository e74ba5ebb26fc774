use kuroe::error::HarnessError;
use kuroe::judge::{
    checker_arguments, checker_judgement, diff_arguments, diff_judgement, diff_step,
    enumerate_valid_testcases, output_path, report, solve_outcome, solver_directory, JudgeInfo,
    JudgePolicy, JudgeRun, Verdict,
};
use kuroe::language::ExecuteStatus;

fn paths(items: &[&str]) -> Vec<String> {
    items.iter().map(|s| s.to_string()).collect()
}

fn inputs_of(cases: &Vec<JudgeInfo>) -> Vec<String> {
    cases
        .iter()
        .map(|c| c.get_input_path().unwrap().clone())
        .collect()
}

#[test]
fn test_enumerate_valid_testcases() {
    let cases = enumerate_valid_testcases(&vec![
        String::from("input/test.in"),
        String::from("answer/test.ans"),
    ]);
    assert_eq!(cases.len(), 1);
    assert_eq!(
        cases[0].get_input_path(),
        Some(&String::from("input/test.in"))
    );
    assert_eq!(
        cases[0].get_answer_path(),
        Some(&String::from("answer/test.ans"))
    );

    let cases = enumerate_valid_testcases(&vec![
        String::from("input/test.in"),
        String::from("answer/invalid.ans"),
    ]);
    assert_eq!(cases.len(), 0);
}

#[test]
fn test_judge_file_info() {
    let input_path = String::from("test.in");
    let answer_path = String::from("test.ans");
    let output_path = String::from("test.out");

    let info = JudgeInfo::new()
        .input(&input_path)
        .answer(&answer_path)
        .output(&output_path)
        .status(ExecuteStatus::TimeLimitExceed);
    assert_eq!(info.get_input_path(), Some(&input_path));
    assert_eq!(info.get_answer_path(), Some(&answer_path));
    assert_eq!(info.get_output_path(), Some(&output_path));
    assert_eq!(info.status, Some(ExecuteStatus::TimeLimitExceed));

    let info = JudgeInfo::new().input(&input_path).answer(&answer_path);
    assert_eq!(info.get_input_path(), Some(&input_path));
    assert_eq!(info.get_answer_path(), Some(&answer_path));
    assert_eq!(info.get_output_path(), None);
    assert_eq!(info.status, None);
}

#[test]
fn input_without_answer_is_dropped() {
    let cases = enumerate_valid_testcases(&paths(&["a.in", "a.ans", "b.in"]));
    assert_eq!(cases.len(), 1);
    assert_eq!(cases[0].get_input_path(), Some(&"a.in".to_string()));
    assert_eq!(cases[0].get_answer_path(), Some(&"a.ans".to_string()));
    assert_eq!(cases[0].get_output_path(), None);
    assert_eq!(cases[0].get_status(), None);
}

#[test]
fn answer_without_input_makes_no_case() {
    assert_eq!(enumerate_valid_testcases(&paths(&["a.ans", "b.ans"])).len(), 0);
    assert_eq!(enumerate_valid_testcases(&Vec::new()).len(), 0);
    assert_eq!(enumerate_valid_testcases(&paths(&["a.in.bak", "a.ans"])).len(), 0);
    assert_eq!(enumerate_valid_testcases(&paths(&["in", "ans"])).len(), 0);
    assert_eq!(enumerate_valid_testcases(&paths(&[".in", ".ans"])).len(), 0);
}

#[test]
fn cases_are_sorted_by_input_path() {
    let cases = enumerate_valid_testcases(&paths(&[
        "t/c.in", "t/a.ans", "t/b.in", "t/c.ans", "t/a.in", "t/b.ans", "t/readme.txt",
    ]));
    assert_eq!(inputs_of(&cases), paths(&["t/a.in", "t/b.in", "t/c.in"]));
    assert_eq!(cases[0].get_answer_path(), Some(&"t/a.ans".to_string()));
    assert_eq!(cases[1].get_answer_path(), Some(&"t/b.ans".to_string()));
    assert_eq!(cases[2].get_answer_path(), Some(&"t/c.ans".to_string()));
}

#[test]
fn paths_are_ordered_by_their_components() {
    // as text, "in-more/b.in" comes before "in/a.in"
    let cases = enumerate_valid_testcases(&paths(&[
        "in-more/b.in", "in/a.in", "ans/a.ans", "ans/b.ans", "in.d/c.in", "ans/c.ans",
    ]));
    assert_eq!(
        inputs_of(&cases),
        paths(&["in/a.in", "in-more/b.in", "in.d/c.in"])
    );
    let cases = enumerate_valid_testcases(&paths(&["x/b.in", "x.in", "x.ans", "b.ans"]));
    assert_eq!(inputs_of(&cases), paths(&["x/b.in", "x.in"]));
}

#[test]
fn order_of_cases_follows_the_standard_library() {
    let all = paths(&[
        "t/10.in", "t/9.in", "t/a b.in", "/abs/z.in", "./rel/y.in", "../up/x.in", "t//w.in",
        "t/./v.in", "T/u.in", "t/sub/s.in", "t/sub-1/r.in", "t/é.in", "t/~q.in", "t.in",
        "10.ans", "9.ans", "a b.ans", "z.ans", "y.ans", "x.ans", "w.ans", "v.ans", "u.ans",
        "s.ans", "r.ans", "é.ans", "~q.ans", "t.ans",
    ]);
    let cases = enumerate_valid_testcases(&all);
    let mut expected: Vec<String> = all.iter().filter(|p| p.ends_with(".in")).cloned().collect();
    expected.sort_by(|x, y| std::path::Path::new(x).cmp(std::path::Path::new(y)));
    assert_eq!(inputs_of(&cases), expected);
}

#[test]
fn inputs_that_the_order_does_not_tell_apart_keep_their_places() {
    let cases = enumerate_valid_testcases(&paths(&[
        "t//a.in", "t/a.in", "t/./a.in", "a.ans", "s/z.in", "z.ans",
    ]));
    assert_eq!(
        inputs_of(&cases),
        paths(&["s/z.in", "t//a.in", "t/a.in", "t/./a.in"])
    );
}

#[test]
fn of_several_answers_the_last_counts() {
    let cases = enumerate_valid_testcases(&paths(&["x/a.ans", "a.in", "y/a.ans", "z/a.txt"]));
    assert_eq!(cases.len(), 1);
    assert_eq!(cases[0].get_answer_path(), Some(&"y/a.ans".to_string()));
}

#[test]
fn inputs_of_one_stem_share_the_answer() {
    let cases = enumerate_valid_testcases(&paths(&["q/a.in", "p/a.in", "a.ans"]));
    assert_eq!(inputs_of(&cases), paths(&["p/a.in", "q/a.in"]));
    assert_eq!(cases[0].get_answer_path(), Some(&"a.ans".to_string()));
    assert_eq!(cases[1].get_answer_path(), Some(&"a.ans".to_string()));
}

#[test]
fn stems_keep_their_dots() {
    let cases = enumerate_valid_testcases(&paths(&["a.1.in", "a.1.ans", "a.in", "a.2.ans"]));
    assert_eq!(inputs_of(&cases), paths(&["a.1.in"]));
}

fn three_cases() -> Vec<JudgeInfo> {
    enumerate_valid_testcases(&paths(&[
        "a.in", "a.ans", "b.in", "b.ans", "c.in", "c.ans",
    ]))
}

#[test]
fn solve_phase_notes_status_and_output() {
    let mut run = JudgeRun::new(three_cases(), JudgePolicy::All);
    assert_eq!(
        run.pending().unwrap().get_input_path(),
        Some(&"a.in".to_string())
    );
    run.record(Ok((ExecuteStatus::Success, "out/a.out".to_string())));
    assert_eq!(
        run.pending().unwrap().get_input_path(),
        Some(&"b.in".to_string())
    );
    run.record(Ok((ExecuteStatus::TimeLimitExceed, "out/b.out".to_string())));
    assert_eq!(
        run.pending().unwrap().get_input_path(),
        Some(&"c.in".to_string())
    );
    run.record(Ok((ExecuteStatus::Fail, "out/c.out".to_string())));
    assert!(run.pending().is_none());
    run.record(Ok((ExecuteStatus::Success, "out/d.out".to_string())));
    let cases = run.finish();
    assert_eq!(cases.len(), 3);
    assert_eq!(cases[0].get_status(), Some(ExecuteStatus::Success));
    assert_eq!(cases[0].get_output_path(), Some(&"out/a.out".to_string()));
    assert_eq!(cases[0].get_answer_path(), Some(&"a.ans".to_string()));
    assert_eq!(cases[1].get_status(), Some(ExecuteStatus::TimeLimitExceed));
    assert_eq!(cases[1].get_output_path(), Some(&"out/b.out".to_string()));
    assert_eq!(cases[2].get_status(), Some(ExecuteStatus::Fail));
    assert_eq!(cases[2].get_output_path(), Some(&"out/c.out".to_string()));
}

#[test]
fn time_limit_ends_the_run_under_tle_break() {
    let mut run = JudgeRun::new(three_cases(), JudgePolicy::TLEBreak);
    run.record(Ok((ExecuteStatus::TimeLimitExceed, "out/a.out".to_string())));
    assert!(run.pending().is_none());
    run.record(Ok((ExecuteStatus::Success, "out/b.out".to_string())));
    let cases = run.finish();
    assert_eq!(cases[0].get_status(), Some(ExecuteStatus::TimeLimitExceed));
    assert_eq!(cases[1].get_status(), None);
    assert_eq!(cases[1].get_output_path(), None);
    assert_eq!(cases[2].get_status(), None);
    let verdicts: Vec<Verdict> = report(&cases, &vec![None, None, None])
        .iter()
        .map(|r| r.verdict)
        .collect();
    assert_eq!(
        verdicts,
        vec![Verdict::TimeLimitExceed, Verdict::Skipped, Verdict::Skipped]
    );
}

#[test]
fn failure_does_not_end_the_run_under_tle_break() {
    let mut run = JudgeRun::new(three_cases(), JudgePolicy::TLEBreak);
    run.record(Ok((ExecuteStatus::Fail, "out/a.out".to_string())));
    assert!(run.pending().is_some());
    run.record(Err(HarnessError::RunFailure));
    assert!(run.pending().is_some());
    run.record(Ok((ExecuteStatus::Success, "out/c.out".to_string())));
    assert!(run.pending().is_none());
    let cases = run.finish();
    assert_eq!(cases[0].get_status(), Some(ExecuteStatus::Fail));
    assert_eq!(cases[1].get_status(), None);
    assert_eq!(cases[1].get_output_path(), None);
    assert_eq!(cases[2].get_status(), Some(ExecuteStatus::Success));
}

#[test]
fn matching_output_is_accepted() {
    let mut run = JudgeRun::new(
        enumerate_valid_testcases(&paths(&["a.in", "a.ans"])),
        JudgePolicy::All,
    );
    let output = output_path("out/solver", run.pending().unwrap().get_input_path().unwrap());
    assert_eq!(output, Ok("out/solver/a.out".to_string()));
    run.record(solve_outcome(Ok(ExecuteStatus::Success), output.unwrap()));
    let cases = run.finish();
    assert!(cases[0].needs_judging());
    assert_eq!(
        diff_arguments(
            cases[0].get_answer_path().unwrap(),
            cases[0].get_output_path().unwrap()
        ),
        paths(&["a.ans", "out/solver/a.out"])
    );
    // the two files are equal: diff ends with exit code zero
    let judged = diff_judgement(Ok(ExecuteStatus::from_exit(true)));
    assert_eq!(cases[0].verdict(Some(judged)), Some(Verdict::Accepted));
    let rows = report(&cases, &vec![Some(judged)]);
    assert_eq!(rows.len(), 1);
    assert_eq!(rows[0].verdict, Verdict::Accepted);
    assert_eq!(rows[0].verdict.label(), "AC");
    assert_eq!(rows[0].input_path, Some("a.in".to_string()));
    assert_eq!(rows[0].answer_path, Some("a.ans".to_string()));
    assert_eq!(rows[0].output_path, None);
}

#[test]
fn verdict_follows_status_and_judgement() {
    let case = JudgeInfo::new().input("a.in").answer("a.ans");
    assert_eq!(case.verdict(None), Some(Verdict::Skipped));
    assert_eq!(case.verdict(Some(Ok(true))), Some(Verdict::Skipped));
    assert!(!case.needs_judging());

    let solved = JudgeInfo::new()
        .input("a.in")
        .answer("a.ans")
        .output("a.out")
        .status(ExecuteStatus::Success);
    assert!(solved.needs_judging());
    assert_eq!(solved.verdict(Some(Ok(true))), Some(Verdict::Accepted));
    assert_eq!(solved.verdict(Some(Ok(false))), Some(Verdict::Rejected));
    assert_eq!(solved.verdict(Some(Err(HarnessError::RunFailure))), None);
    assert_eq!(solved.verdict(None), None);

    let slow = JudgeInfo::new().status(ExecuteStatus::TimeLimitExceed);
    assert!(!slow.needs_judging());
    assert_eq!(slow.verdict(None), Some(Verdict::TimeLimitExceed));
    assert_eq!(slow.verdict(Some(Ok(true))), Some(Verdict::TimeLimitExceed));

    let failed = JudgeInfo::new().status(ExecuteStatus::Fail);
    assert!(!failed.needs_judging());
    assert_eq!(failed.verdict(None), Some(Verdict::Fail));
}

#[test]
fn verdict_labels() {
    assert_eq!(Verdict::Accepted.label(), "AC");
    assert_eq!(Verdict::Rejected.label(), "WA");
    assert_eq!(Verdict::TimeLimitExceed.label(), "TimeLimitExceed");
    assert_eq!(Verdict::Fail.label(), "Fail");
    assert_eq!(Verdict::Skipped.label(), "SKIP");
}

#[test]
fn report_has_a_line_for_each_verdict() {
    let cases = vec![
        JudgeInfo::new().input("a.in").answer("a.ans").output("a.out").status(ExecuteStatus::Success),
        JudgeInfo::new().input("b.in").answer("b.ans").output("b.out").status(ExecuteStatus::Success),
        JudgeInfo::new().input("c.in").answer("c.ans").output("c.out").status(ExecuteStatus::Success),
        JudgeInfo::new().input("d.in").answer("d.ans").output("d.out").status(ExecuteStatus::Fail),
        JudgeInfo::new().input("e.in").answer("e.ans"),
    ];
    let rows = report(
        &cases,
        &vec![Some(Ok(true)), Some(Err(HarnessError::SpawnFailure)), Some(Ok(false))],
    );
    assert_eq!(rows.len(), 4);
    assert_eq!(rows[0].verdict, Verdict::Accepted);
    assert_eq!(rows[0].input_path, Some("a.in".to_string()));
    assert_eq!(rows[1].verdict, Verdict::Rejected);
    assert_eq!(rows[1].input_path, Some("c.in".to_string()));
    assert_eq!(rows[1].answer_path, Some("c.ans".to_string()));
    assert_eq!(rows[1].output_path, Some("c.out".to_string()));
    assert_eq!(rows[2].verdict, Verdict::Fail);
    assert_eq!(rows[2].input_path, Some("d.in".to_string()));
    assert_eq!(rows[2].output_path, None);
    assert_eq!(rows[3].verdict, Verdict::Skipped);
    assert_eq!(rows[3].input_path, Some("e.in".to_string()));
}

#[test]
fn same_outcomes_give_the_same_report() {
    let verdicts = |policy: JudgePolicy| -> Vec<Verdict> {
        let mut run = JudgeRun::new(three_cases(), policy);
        run.record(Ok((ExecuteStatus::Success, "a.out".to_string())));
        run.record(Ok((ExecuteStatus::TimeLimitExceed, "b.out".to_string())));
        run.record(Ok((ExecuteStatus::Success, "c.out".to_string())));
        let cases = run.finish();
        report(&cases, &vec![Some(Ok(true)), None, Some(Ok(false))])
            .iter()
            .map(|r| r.verdict)
            .collect()
    };
    assert_eq!(verdicts(JudgePolicy::All), verdicts(JudgePolicy::All));
    assert_eq!(
        verdicts(JudgePolicy::All),
        vec![Verdict::Accepted, Verdict::TimeLimitExceed, Verdict::Rejected]
    );
    assert_eq!(verdicts(JudgePolicy::TLEBreak), verdicts(JudgePolicy::TLEBreak));
    assert_eq!(
        verdicts(JudgePolicy::TLEBreak),
        vec![Verdict::Accepted, Verdict::TimeLimitExceed, Verdict::Skipped]
    );
}

#[test]
fn checker_gets_input_output_answer() {
    assert_eq!(
        checker_arguments("/t/a.in", "/o/a.out", "/t/a.ans"),
        paths(&["/t/a.in", "/o/a.out", "/t/a.ans"])
    );
}

#[test]
fn checker_accepts_with_exit_code_zero() {
    assert_eq!(checker_judgement(Ok(ExecuteStatus::Success)), Ok(true));
    assert_eq!(checker_judgement(Ok(ExecuteStatus::Fail)), Ok(false));
    assert_eq!(checker_judgement(Ok(ExecuteStatus::TimeLimitExceed)), Ok(false));
    assert_eq!(
        checker_judgement(Err(HarnessError::SpawnFailure)),
        Err(HarnessError::RunFailure)
    );
}

#[test]
fn diff_compares_answer_and_output() {
    let step = diff_step();
    assert_eq!(step.program, "diff");
    assert_eq!(step.args.len(), 0);
    assert_eq!(
        step.arguments(&diff_arguments("/t/a.ans", "/o/a.out")),
        paths(&["/t/a.ans", "/o/a.out"])
    );
    assert_eq!(diff_judgement(Ok(ExecuteStatus::Success)), Ok(true));
    assert_eq!(diff_judgement(Ok(ExecuteStatus::Fail)), Ok(false));
    assert_eq!(diff_judgement(Ok(ExecuteStatus::TimeLimitExceed)), Ok(false));
    assert_eq!(
        diff_judgement(Err(HarnessError::SpawnFailure)),
        Err(HarnessError::SpawnFailure)
    );
}

#[test]
fn solver_that_cannot_run_fails_the_case() {
    assert_eq!(
        solve_outcome(Ok(ExecuteStatus::Fail), "o/a.out".to_string()),
        Ok((ExecuteStatus::Fail, "o/a.out".to_string()))
    );
    assert_eq!(
        solve_outcome(Err(HarnessError::SpawnFailure), "o/a.out".to_string()),
        Err(HarnessError::RunFailure)
    );
}

#[test]
fn outputs_go_to_a_directory_of_the_solver() {
    assert_eq!(
        solver_directory("./testcases/output", "solvers/main.cpp"),
        Ok("./testcases/output/main".to_string())
    );
    assert_eq!(
        solver_directory("out/", "a.b.py"),
        Ok("out/a.b".to_string())
    );
    assert_eq!(
        solver_directory("out", ".."),
        Err(HarnessError::MissingFileName)
    );
    assert_eq!(
        output_path("out/main", "testcases/input/a_000.in"),
        Ok("out/main/a_000.out".to_string())
    );
    assert_eq!(output_path("out", "/"), Err(HarnessError::MissingFileName));
}
