//! The judge stage: pairing inputs with answers, what is recorded of each
//! case while a solver runs over them, and the verdict on each.

use crate::error::HarnessError;
use crate::language::{CommandStep, CommandStepView, ExecuteStatus};
use crate::order::{
    component_le, components_at_most, components_le, lemma_component_order, lemma_lex_total,
    lemma_lex_transitive, path_le,
};
use crate::path::{
    Component, component_views, components, components_of, extension_of, file_name_chars,
    file_stem_of, rename_in, renamed_in, split_name, subdirectory, subdirectory_of,
};
use crate::text::{chars_of, range_eq};
use vstd::prelude::*;

verus! {

/// The characters of an optional string.
pub open spec fn text_of(s: Option<String>) -> Option<Seq<char>> {
    match s {
        Some(s) => Some(s@),
        None => None,
    }
}

/// One testcase of a judge run, as a mathematical value.
pub struct JudgeInfoView {
    pub input_path: Option<Seq<char>>,
    pub answer_path: Option<Seq<char>>,
    pub output_path: Option<Seq<char>>,
    pub status: Option<ExecuteStatus>,
}

/// One testcase of a judge run: the input, the expected answer, and, once the
/// solver has run on it, where its output is and how the run ended.
#[derive(Debug, Clone)]
pub struct JudgeInfo {
    pub input_path: Option<String>,
    pub answer_path: Option<String>,
    pub output_path: Option<String>,
    pub status: Option<ExecuteStatus>,
}

impl View for JudgeInfo {
    type V = JudgeInfoView;

    open spec fn view(&self) -> JudgeInfoView {
        JudgeInfoView {
            input_path: text_of(self.input_path),
            answer_path: text_of(self.answer_path),
            output_path: text_of(self.output_path),
            status: self.status,
        }
    }
}

impl JudgeInfo {
    /// A testcase of which nothing is known yet.
    pub fn new() -> (info: Self)
        ensures
            info@ == (JudgeInfoView {
                input_path: None,
                answer_path: None,
                output_path: None,
                status: None,
            }),
    {
        Self { input_path: None, answer_path: None, output_path: None, status: None }
    }

    /// The testcase with `path` as its input.
    pub fn input(self, path: &str) -> (info: Self)
        ensures
            info@ == (JudgeInfoView { input_path: Some(path@), ..self@ }),
    {
        let mut info = self;
        info.input_path = Some(path.to_string());
        info
    }

    /// The testcase with `path` as its expected answer.
    pub fn answer(self, path: &str) -> (info: Self)
        ensures
            info@ == (JudgeInfoView { answer_path: Some(path@), ..self@ }),
    {
        let mut info = self;
        info.answer_path = Some(path.to_string());
        info
    }

    /// The testcase with `path` as the output of the solver.
    pub fn output(self, path: &str) -> (info: Self)
        ensures
            info@ == (JudgeInfoView { output_path: Some(path@), ..self@ }),
    {
        let mut info = self;
        info.output_path = Some(path.to_string());
        info
    }

    /// The testcase with `status` as the end of the solver's run.
    pub fn status(self, status: ExecuteStatus) -> (info: Self)
        ensures
            info@ == (JudgeInfoView { status: Some(status), ..self@ }),
    {
        let mut info = self;
        info.status = Some(status);
        info
    }

    /// The path of the input, if it is set.
    pub fn get_input_path(&self) -> (path: Option<&String>)
        ensures
            match path {
                Some(p) => self.input_path == Some(*p),
                None => self.input_path is None,
            },
    {
        self.input_path.as_ref()
    }

    /// The path of the expected answer, if it is set.
    pub fn get_answer_path(&self) -> (path: Option<&String>)
        ensures
            match path {
                Some(p) => self.answer_path == Some(*p),
                None => self.answer_path is None,
            },
    {
        self.answer_path.as_ref()
    }

    /// The path of the solver's output, if it is set.
    pub fn get_output_path(&self) -> (path: Option<&String>)
        ensures
            match path {
                Some(p) => self.output_path == Some(*p),
                None => self.output_path is None,
            },
    {
        self.output_path.as_ref()
    }

    /// How the solver's run ended, if it has run.
    pub fn get_status(&self) -> (status: Option<ExecuteStatus>)
        ensures
            status == self.status,
    {
        self.status
    }
}

impl DeepView for JudgeInfo {
    type V = JudgeInfoView;

    open spec fn deep_view(&self) -> JudgeInfoView {
        self@
    }
}

/// Whether a path names an input: a file with the extension `in`.
pub open spec fn is_input(path: Seq<char>) -> bool {
    extension_of(path) == Some("in"@)
}

/// Whether a path names an answer: a file with the extension `ans`.
pub open spec fn is_answer(path: Seq<char>) -> bool {
    extension_of(path) == Some("ans"@)
}

/// The place in `all` of the answer with the stem `stem`: of several the last,
/// and `-1` where there is none.
pub open spec fn answer_index(all: Seq<Seq<char>>, stem: Seq<char>) -> int
    decreases all.len(),
{
    if all.len() == 0 {
        -1
    } else if is_answer(all.last()) && file_stem_of(all.last()) == Some(stem) {
        all.len() - 1
    } else {
        answer_index(all.drop_last(), stem)
    }
}

/// Whether `all[i]` is the input of a testcase: an input for whose stem there
/// is an answer.
pub open spec fn is_testcase_input(all: Seq<Seq<char>>, i: int) -> bool {
    &&& 0 <= i < all.len()
    &&& is_input(all[i])
    &&& file_stem_of(all[i]) is Some
    &&& answer_index(all, file_stem_of(all[i])->0) >= 0
}

/// The testcase of the input `all[i]`: the input with the answer of its stem,
/// and nothing known of a run yet.
pub open spec fn testcase_at(all: Seq<Seq<char>>, i: int) -> JudgeInfoView {
    JudgeInfoView {
        input_path: Some(all[i]),
        answer_path: Some(all[answer_index(all, file_stem_of(all[i])->0)]),
        output_path: None,
        status: None,
    }
}

/// Whether the paths `all[idx[0]]`, `all[idx[1]]`, ... come in the order of
/// paths, and those that the order does not tell apart in the order in which
/// `all` holds them.
pub open spec fn in_order(all: Seq<Seq<char>>, idx: Seq<int>) -> bool {
    forall|k: int, l: int|
        0 <= k < l < idx.len() ==> {
            &&& path_le(all[#[trigger] idx[k]], all[#[trigger] idx[l]])
            &&& path_le(all[idx[l]], all[idx[k]]) ==> idx[k] < idx[l]
        }
}

/// Whether `cases` are the testcases among the files `all`, and `idx` the
/// places of their inputs in `all`: one case for each input that has an
/// answer, sorted by the path of the input.
pub open spec fn is_pairing(all: Seq<Seq<char>>, idx: Seq<int>, cases: Seq<JudgeInfoView>) -> bool {
    &&& idx.len() == cases.len()
    &&& forall|k: int|
        0 <= k < idx.len() ==> is_testcase_input(all, #[trigger] idx[k]) && cases[k]
            == testcase_at(all, idx[k])
    &&& forall|i: int| #[trigger] is_testcase_input(all, i) ==> idx.contains(i)
    &&& in_order(all, idx)
}

/// `answer_index` is the place of the last answer with the stem.
pub proof fn lemma_answer_index(all: Seq<Seq<char>>, stem: Seq<char>)
    ensures
        -1 <= answer_index(all, stem) < all.len(),
        answer_index(all, stem) >= 0 ==> is_answer(all[answer_index(all, stem)]) && file_stem_of(
            all[answer_index(all, stem)],
        ) == Some(stem),
        forall|k: int|
            answer_index(all, stem) < k < all.len() ==> !(is_answer(#[trigger] all[k])
                && file_stem_of(all[k]) == Some(stem)),
    decreases all.len(),
{
    if all.len() > 0 && !(is_answer(all.last()) && file_stem_of(all.last()) == Some(stem)) {
        let rest = all.drop_last();
        lemma_answer_index(rest, stem);
        assert forall|k: int| answer_index(all, stem) < k < all.len() implies !(is_answer(
            #[trigger] all[k],
        ) && file_stem_of(all[k]) == Some(stem)) by {
            if k < rest.len() {
                assert(all[k] == rest[k]);
            }
        }
        assert(answer_index(all, stem) >= 0 ==> all[answer_index(all, stem)] == rest[answer_index(
            rest,
            stem,
        )]);
    }
}

/// An answer with the stem that has none after it is at `answer_index`.
pub proof fn lemma_answer_index_is(all: Seq<Seq<char>>, stem: Seq<char>, j: int)
    requires
        -1 <= j < all.len(),
        j >= 0 ==> is_answer(all[j]) && file_stem_of(all[j]) == Some(stem),
        forall|k: int|
            j < k < all.len() ==> !(is_answer(#[trigger] all[k]) && file_stem_of(all[k]) == Some(
                stem,
            )),
    ensures
        answer_index(all, stem) == j,
{
    lemma_answer_index(all, stem);
    let i = answer_index(all, stem);
    if i > j {
        assert(!(is_answer(all[i]) && file_stem_of(all[i]) == Some(stem)));
    }
}

/// Two ordered selections of the same files agree on their first `k` places.
proof fn lemma_same_prefix(all: Seq<Seq<char>>, a: Seq<int>, b: Seq<int>, k: int)
    requires
        in_order(all, a),
        in_order(all, b),
        forall|x: int| a.contains(x) <==> b.contains(x),
        0 <= k <= a.len(),
        k <= b.len(),
    ensures
        forall|m: int| 0 <= m < k ==> a[m] == b[m],
    decreases k,
{
    if k > 0 {
        lemma_same_prefix(all, a, b, k - 1);
        let m = k - 1;
        assert(a.contains(a[m]));
        assert(b.contains(b[m]));
        let p = choose|p: int| 0 <= p < b.len() && b[p] == a[m];
        let q = choose|q: int| 0 <= q < a.len() && a[q] == b[m];
        if p < m {
            assert(a[p] == b[p]);
            assert(path_le(all[a[p]], all[a[m]]));
        } else if q < m {
            assert(b[q] == a[q]);
            assert(path_le(all[b[q]], all[b[m]]));
        } else if p > m && q > m {
            assert(path_le(all[b[m]], all[b[p]]));
            assert(path_le(all[a[m]], all[a[q]]));
        }
    }
}

/// The files decide their testcases: two pairings of the same files hold the
/// same cases in the same order. Pairing unchanged files again gives what it
/// gave before.
pub proof fn lemma_pairing_is_unique(
    all: Seq<Seq<char>>,
    idx: Seq<int>,
    cases: Seq<JudgeInfoView>,
    idx_again: Seq<int>,
    cases_again: Seq<JudgeInfoView>,
)
    requires
        is_pairing(all, idx, cases),
        is_pairing(all, idx_again, cases_again),
    ensures
        idx == idx_again,
        cases == cases_again,
{
    assert forall|x: int| idx.contains(x) <==> idx_again.contains(x) by {
        if idx.contains(x) {
            let k = choose|k: int| 0 <= k < idx.len() && idx[k] == x;
            assert(is_testcase_input(all, idx[k]));
        }
        if idx_again.contains(x) {
            let k = choose|k: int| 0 <= k < idx_again.len() && idx_again[k] == x;
            assert(is_testcase_input(all, idx_again[k]));
        }
    }
    let n = if idx.len() <= idx_again.len() {
        idx.len() as int
    } else {
        idx_again.len() as int
    };
    lemma_same_prefix(all, idx, idx_again, n);
    if idx.len() > n {
        assert(idx.contains(idx[n]));
        let p = choose|p: int| 0 <= p < idx_again.len() && idx_again[p] == idx[n];
        assert(idx[p] == idx_again[p]);
        assert(path_le(all[idx[p]], all[idx[n]]));
    }
    if idx_again.len() > n {
        assert(idx_again.contains(idx_again[n]));
        let p = choose|p: int| 0 <= p < idx.len() && idx[p] == idx_again[n];
        assert(idx[p] == idx_again[p]);
        assert(path_le(all[idx_again[p]], all[idx_again[n]]));
    }
    assert(idx =~= idx_again);
    assert forall|k: int| 0 <= k < cases.len() implies cases[k] == cases_again[k] by {
        assert(cases[k] == testcase_at(all, idx[k]));
        assert(cases_again[k] == testcase_at(all, idx_again[k]));
    }
    assert(cases =~= cases_again);
}

/// Putting a later file into an ordered selection, behind the last path that
/// is at most its own, keeps the selection ordered.
proof fn lemma_insert_in_order(all: Seq<Seq<char>>, idx: Seq<int>, p: int, i: int)
    requires
        in_order(all, idx),
        0 <= p <= idx.len(),
        forall|k: int| 0 <= k < idx.len() ==> 0 <= #[trigger] idx[k] < i,
        0 <= i < all.len(),
        p > 0 ==> path_le(all[idx[p - 1]], all[i]),
        forall|q: int| p <= q < idx.len() ==> !path_le(all[#[trigger] idx[q]], all[i]),
    ensures
        in_order(all, idx.insert(p, i)),
{
    let next = idx.insert(p, i);
    lemma_component_order();
    let le = component_le();
    assert forall|k: int, l: int| 0 <= k < l < next.len() implies {
        &&& path_le(all[#[trigger] next[k]], all[#[trigger] next[l]])
        &&& path_le(all[next[l]], all[next[k]]) ==> next[k] < next[l]
    } by {
        if l < p {
            assert(next[k] == idx[k] && next[l] == idx[l]);
        } else if l == p {
            assert(next[k] == idx[k] && next[l] == i);
            if k < p - 1 {
                assert(path_le(all[idx[k]], all[idx[p - 1]]));
                lemma_lex_transitive(
                    components_of(all[idx[k]]),
                    components_of(all[idx[p - 1]]),
                    components_of(all[i]),
                    le,
                );
            }
        } else if k < p {
            assert(next[k] == idx[k] && next[l] == idx[l - 1]);
            if k < l - 1 {
                assert(path_le(all[idx[k]], all[idx[l - 1]]));
            }
        } else if k == p {
            assert(next[k] == i && next[l] == idx[l - 1]);
            assert(!path_le(all[idx[l - 1]], all[i]));
            lemma_lex_total(components_of(all[i]), components_of(all[idx[l - 1]]), le);
        } else {
            assert(next[k] == idx[k - 1] && next[l] == idx[l - 1]);
        }
    }
}

/// The stem of the file name of `path`, where its extension is `ext`.
fn stem_with_extension(path: &str, ext: &Vec<char>) -> (r: Option<Vec<char>>)
    ensures
        match r {
            Some(stem) => extension_of(path@) == Some(ext@) && file_stem_of(path@) == Some(stem@),
            None => extension_of(path@) != Some(ext@),
        },
{
    let chars = chars_of(path);
    match file_name_chars(&chars) {
        Some(file) => {
            let (stem, found) = split_name(&file);
            match found {
                Some(found) => {
                    assert(found@.subrange(0, found.len() as int) =~= found@);
                    if range_eq(&found, 0, found.len(), ext) {
                        Some(stem)
                    } else {
                        None
                    }
                },
                None => None,
            }
        },
        None => None,
    }
}

/// The place of the last answer with the stem `stem`, by the stems of the
/// answers.
fn find_answer(answers: &Vec<Option<Vec<char>>>, stem: &Vec<char>) -> (r: Option<usize>)
    ensures
        match r {
            Some(j) => {
                &&& j < answers.len()
                &&& answers@[j as int] is Some
                &&& answers@[j as int]->0@ == stem@
                &&& forall|k: int|
                    j < k < answers.len() ==> !((#[trigger] answers@[k]) is Some && answers@[k]->0@
                        == stem@)
            },
            None => forall|k: int|
                0 <= k < answers.len() ==> !((#[trigger] answers@[k]) is Some && answers@[k]->0@
                    == stem@),
        },
{
    let mut j: usize = answers.len();
    while j > 0
        invariant
            j <= answers.len(),
            forall|k: int|
                j <= k < answers.len() ==> !((#[trigger] answers@[k]) is Some && answers@[k]->0@
                    == stem@),
        decreases j,
    {
        match &answers[j - 1] {
            Some(found) => {
                assert(found@.subrange(0, found.len() as int) =~= found@);
                if range_eq(found, 0, found.len(), stem) {
                    return Some(j - 1);
                }
            },
            None => {},
        }
        j -= 1;
    }
    None
}

/// The testcases among the files `all_cases`: one for each input (a file
/// `stem.in`) whose stem is also that of an answer (a file `stem.ans`), with
/// that answer; of several answers with one stem the last counts. An input
/// without an answer is left out. The cases come sorted by the path of the
/// input, and inputs that the order of paths does not tell apart keep the order
/// in which they were given.
pub fn enumerate_valid_testcases(all_cases: &Vec<String>) -> (cases: Vec<JudgeInfo>)
    ensures
        exists|idx: Seq<int>| is_pairing(all_cases.deep_view(), idx, cases.deep_view()),
        forall|k: int, l: int|
            0 <= k < l < cases.len() ==> path_le(
                (#[trigger] cases@[k]).input_path->0@,
                (#[trigger] cases@[l]).input_path->0@,
            ),
{
    let ghost all = all_cases.deep_view();
    let ext_in = chars_of("in");
    let ext_ans = chars_of("ans");
    let mut answers: Vec<Option<Vec<char>>> = Vec::new();
    let mut j: usize = 0;
    while j < all_cases.len()
        invariant
            j <= all_cases.len(),
            all == all_cases.deep_view(),
            ext_ans@ == "ans"@,
            answers.len() == j,
            forall|k: int|
                0 <= k < j ==> match #[trigger] answers@[k] {
                    Some(stem) => is_answer(all[k]) && file_stem_of(all[k]) == Some(stem@),
                    None => !is_answer(all[k]),
                },
        decreases all_cases.len() - j,
    {
        answers.push(stem_with_extension(all_cases[j].as_str(), &ext_ans));
        j += 1;
    }
    let mut cases: Vec<JudgeInfo> = Vec::new();
    let mut keys: Vec<Vec<Component>> = Vec::new();
    let ghost mut idx: Seq<int> = Seq::empty();
    let mut i: usize = 0;
    while i < all_cases.len()
        invariant
            i <= all_cases.len(),
            all == all_cases.deep_view(),
            ext_in@ == "in"@,
            answers.len() == all_cases.len(),
            forall|k: int|
                0 <= k < answers.len() ==> match #[trigger] answers@[k] {
                    Some(stem) => is_answer(all[k]) && file_stem_of(all[k]) == Some(stem@),
                    None => !is_answer(all[k]),
                },
            idx.len() == cases.len(),
            keys.len() == cases.len(),
            forall|k: int|
                0 <= k < idx.len() ==> {
                    &&& 0 <= #[trigger] idx[k] < i
                    &&& is_testcase_input(all, idx[k])
                    &&& cases@[k]@ == testcase_at(all, idx[k])
                    &&& component_views(keys@[k]@) == components_of(all[idx[k]])
                },
            forall|m: int| 0 <= m < i && #[trigger] is_testcase_input(all, m) ==> idx.contains(m),
            in_order(all, idx),
        decreases all_cases.len() - i,
    {
        let ghost before = idx;
        let path = all_cases[i].as_str();
        assert(all[i as int] == path@);
        let mut paired = false;
        match stem_with_extension(path, &ext_in) {
            Some(stem) => {
                match find_answer(&answers, &stem) {
                    Some(a) => {
                        proof {
                            assert forall|k: int| a < k < all.len() implies !(is_answer(
                                #[trigger] all[k],
                            ) && file_stem_of(all[k]) == Some(stem@)) by {
                                if is_answer(all[k]) && file_stem_of(all[k]) == Some(stem@) {
                                    assert(answers@[k] is Some && answers@[k]->0@ == stem@);
                                }
                            }
                            assert(answers@[a as int] is Some);
                            lemma_answer_index_is(all, stem@, a as int);
                        }
                        let key = components(&chars_of(path));
                        let mut p: usize = keys.len();
                        while p > 0 && !components_at_most(&keys[p - 1], &key)
                            invariant
                                p <= keys.len(),
                                forall|q: int|
                                    p <= q < keys.len() ==> !components_le(
                                        component_views((#[trigger] keys@[q])@),
                                        component_views(key@),
                                    ),
                            decreases p,
                        {
                            p -= 1;
                        }
                        let info = JudgeInfo::new().input(path).answer(all_cases[a].as_str());
                        assert(info@ == testcase_at(all, i as int));
                        proof {
                            assert forall|q: int| p <= q < idx.len() implies !path_le(
                                all[#[trigger] idx[q]],
                                all[i as int],
                            ) by {
                                assert(component_views(keys@[q]@) == components_of(all[idx[q]]));
                            }
                            if p > 0 {
                                assert(component_views(keys@[p - 1]@) == components_of(
                                    all[idx[p - 1]],
                                ));
                            }
                            lemma_insert_in_order(all, idx, p as int, i as int);
                            idx = idx.insert(p as int, i as int);
                        }
                        cases.insert(p, info);
                        keys.insert(p, key);
                        assert forall|k: int| 0 <= k < idx.len() implies {
                            &&& 0 <= #[trigger] idx[k] < i + 1
                            &&& is_testcase_input(all, idx[k])
                            &&& cases@[k]@ == testcase_at(all, idx[k])
                            &&& component_views(keys@[k]@) == components_of(all[idx[k]])
                        } by {
                            if k < p {
                                assert(idx[k] == before[k]);
                            } else if k > p {
                                assert(idx[k] == before[k - 1]);
                            }
                        }
                        assert forall|m: int|
                            0 <= m < i + 1 && #[trigger] is_testcase_input(all, m) implies idx.contains(
                            m,
                        ) by {
                            if m < i {
                                assert(before.contains(m));
                                let k = choose|k: int| 0 <= k < before.len() && before[k] == m;
                                if k < p {
                                    assert(idx[k] == m);
                                } else {
                                    assert(idx[k + 1] == m);
                                }
                            } else {
                                assert(idx[p as int] == m);
                            }
                        }
                        paired = true;
                    },
                    None => {
                        proof {
                            assert forall|k: int| -1 < k < all.len() implies !(is_answer(
                                #[trigger] all[k],
                            ) && file_stem_of(all[k]) == Some(stem@)) by {
                                if is_answer(all[k]) && file_stem_of(all[k]) == Some(stem@) {
                                    assert(answers@[k] is Some && answers@[k]->0@ == stem@);
                                }
                            }
                            lemma_answer_index_is(all, stem@, -1);
                        }
                    },
                }
            },
            None => {},
        }
        assert(!paired ==> !is_testcase_input(all, i as int));
        i += 1;
    }
    proof {
        assert(is_pairing(all, idx, cases.deep_view())) by {
            assert forall|k: int| 0 <= k < idx.len() implies is_testcase_input(
                all,
                #[trigger] idx[k],
            ) && cases.deep_view()[k] == testcase_at(all, idx[k]) by {
                assert(cases.deep_view()[k] == cases@[k]@);
            }
        }
        assert forall|k: int, l: int| 0 <= k < l < cases.len() implies path_le(
            (#[trigger] cases@[k]).input_path->0@,
            (#[trigger] cases@[l]).input_path->0@,
        ) by {
            assert(cases@[k]@ == testcase_at(all, idx[k]));
            assert(cases@[l]@ == testcase_at(all, idx[l]));
        }
    }
    cases
}

/// Whether the judge stage looks for testcases below the directories it is
/// given, too: it does.
pub const SEARCH_RECURSIVELY: bool = true;

/// The seconds that one run of a checker or of `diff` may take.
pub const JUDGE_TIME_LIMIT_SECS: u64 = 10;

/// Whether a judge run goes on after a case that exceeded the time limit.
#[derive(Debug, Clone, Copy, PartialEq, Eq, Structural)]
pub enum JudgePolicy {
    /// Every case is run.
    All,
    /// The first case that exceeds the time limit is the last one run.
    TLEBreak,
}

/// What one run of the solver gave, as a mathematical value: how it ended and
/// where its output is, or the error that kept it from running.
pub type SolveOutcomeView = Result<(ExecuteStatus, Seq<char>), HarnessError>;

/// The characters of what one run of the solver gave.
pub open spec fn outcome_view(outcome: Result<(ExecuteStatus, String), HarnessError>) -> SolveOutcomeView {
    match outcome {
        Ok((status, output)) => Ok((status, output@)),
        Err(e) => Err(e),
    }
}

/// A judge run in its solve phase, as a mathematical value.
pub struct JudgeRunView {
    /// The cases, in the order in which the solver runs on them.
    pub cases: Seq<JudgeInfoView>,
    pub policy: JudgePolicy,
    /// How many cases the solver has been run on.
    pub position: int,
    /// Whether the policy has ended the run.
    pub stopped: bool,
}

impl JudgeRunView {
    /// The case that the solver runs on next, if the run goes on.
    pub open spec fn pending(self) -> Option<JudgeInfoView> {
        if !self.stopped && 0 <= self.position < self.cases.len() {
            Some(self.cases[self.position])
        } else {
            None
        }
    }

    /// The run after the solver has run on the pending case with `outcome`.
    /// A run that ended and its output are noted in the case; a run that
    /// failed to start leaves the case as it is. Under `TLEBreak` a case that
    /// exceeded the time limit ends the run. Without a pending case nothing
    /// changes.
    pub open spec fn step(self, outcome: SolveOutcomeView) -> JudgeRunView {
        if self.pending() is None {
            self
        } else {
            JudgeRunView {
                cases: self.cases.update(self.position, recorded(self.cases[self.position], outcome)),
                policy: self.policy,
                position: self.position + 1,
                stopped: stops(self.policy, outcome),
            }
        }
    }

    /// The run after the solver has run with the outcomes `outcomes`, one after
    /// the other.
    pub open spec fn steps(self, outcomes: Seq<SolveOutcomeView>) -> JudgeRunView
        decreases outcomes.len(),
    {
        if outcomes.len() == 0 {
            self
        } else {
            self.steps(outcomes.drop_last()).step(outcomes.last())
        }
    }
}

/// The case after the solver has run on it with `outcome`.
pub open spec fn recorded(case: JudgeInfoView, outcome: SolveOutcomeView) -> JudgeInfoView {
    match outcome {
        Ok((status, output)) => JudgeInfoView {
            output_path: Some(output),
            status: Some(status),
            ..case
        },
        Err(_) => case,
    }
}

/// Whether the policy ends the run after `outcome`.
pub open spec fn stops(policy: JudgePolicy, outcome: SolveOutcomeView) -> bool {
    policy == JudgePolicy::TLEBreak && match outcome {
        Ok((status, _)) => status == ExecuteStatus::TimeLimitExceed,
        Err(_) => false,
    }
}

/// The solve phase of a judge run: the solver runs on the cases in order, and
/// what each run gave is noted in its case.
#[derive(Debug)]
pub struct JudgeRun {
    cases: Vec<JudgeInfo>,
    policy: JudgePolicy,
    position: usize,
    stopped: bool,
}

impl View for JudgeRun {
    type V = JudgeRunView;

    closed spec fn view(&self) -> JudgeRunView {
        JudgeRunView {
            cases: self.cases.deep_view(),
            policy: self.policy,
            position: self.position as int,
            stopped: self.stopped,
        }
    }
}

impl JudgeRun {
    /// A run over `cases` on which the solver has not run yet.
    pub fn new(cases: Vec<JudgeInfo>, policy: JudgePolicy) -> (run: Self)
        ensures
            run@ == (JudgeRunView {
                cases: cases.deep_view(),
                policy,
                position: 0,
                stopped: false,
            }),
    {
        JudgeRun { cases, policy, position: 0, stopped: false }
    }

    /// The case to run the solver on next: the first that it has not run on,
    /// unless the policy has ended the run or no case is left.
    pub fn pending(&self) -> (r: Option<&JudgeInfo>)
        ensures
            match r {
                Some(case) => self@.pending() == Some(case@),
                None => self@.pending() is None,
            },
    {
        if !self.stopped && self.position < self.cases.len() {
            Some(&self.cases[self.position])
        } else {
            None
        }
    }

    /// Notes what the run of the solver on the pending case gave, and whether
    /// the policy ends the run with it.
    pub fn record(&mut self, outcome: Result<(ExecuteStatus, String), HarnessError>)
        ensures
            final(self)@ == old(self)@.step(outcome_view(outcome)),
    {
        if self.stopped || self.position >= self.cases.len() {
            return ;
        }
        let ghost before = self.cases.deep_view();
        let ghost at = self.position as int;
        match outcome {
            Ok((status, output)) => {
                let case = &mut self.cases[self.position];
                case.output_path = Some(output);
                case.status = Some(status);
                if matches!(self.policy, JudgePolicy::TLEBreak) && matches!(
                    status,
                    ExecuteStatus::TimeLimitExceed
                ) {
                    self.stopped = true;
                }
            },
            Err(_) => {},
        }
        self.position = self.position + 1;
        assert(self.cases.deep_view() =~= before.update(
            at,
            recorded(before[at], outcome_view(outcome)),
        ));
    }

    /// The cases with what the solve phase has noted in them.
    pub fn finish(self) -> (cases: Vec<JudgeInfo>)
        ensures
            cases.deep_view() == self@.cases,
    {
        self.cases
    }
}

/// A step changes no case but the pending one.
pub proof fn lemma_step_keeps_other_cases(run: JudgeRunView, outcome: SolveOutcomeView, k: int)
    requires
        0 <= k < run.cases.len(),
        k != run.position || run.pending() is None,
    ensures
        run.step(outcome).cases.len() == run.cases.len(),
        run.step(outcome).cases[k] == run.cases[k],
{
}

/// Once the policy has ended a run, no outcome changes it any more.
pub proof fn lemma_stopped_run_stays(run: JudgeRunView, outcomes: Seq<SolveOutcomeView>)
    requires
        run.stopped,
    ensures
        run.steps(outcomes) == run,
    decreases outcomes.len(),
{
    if outcomes.len() > 0 {
        lemma_stopped_run_stays(run, outcomes.drop_last());
    }
}

/// The solver runs on the cases in order, each at most once: after any
/// outcomes, the cases from the position on are as they were at the start.
pub proof fn lemma_run_keeps_later_cases(run: JudgeRunView, outcomes: Seq<SolveOutcomeView>)
    requires
        0 <= run.position <= run.cases.len(),
    ensures
        run.steps(outcomes).cases.len() == run.cases.len(),
        run.position <= run.steps(outcomes).position <= run.cases.len(),
        run.steps(outcomes).policy == run.policy,
        forall|k: int|
            run.steps(outcomes).position <= k < run.cases.len() ==> run.steps(outcomes).cases[k]
                == run.cases[k],
    decreases outcomes.len(),
{
    if outcomes.len() > 0 {
        lemma_run_keeps_later_cases(run, outcomes.drop_last());
    }
}

/// Under `TLEBreak` the first case that exceeds the time limit is the last
/// one run: whatever outcomes follow, the cases after it stay as they were.
pub proof fn lemma_tle_break_ends_run(
    run: JudgeRunView,
    output: Seq<char>,
    later: Seq<SolveOutcomeView>,
)
    requires
        run.policy == JudgePolicy::TLEBreak,
        run.pending() is Some,
    ensures
        run.step(Ok((ExecuteStatus::TimeLimitExceed, output))).stopped,
        run.step(Ok((ExecuteStatus::TimeLimitExceed, output))).steps(later) == run.step(
            Ok((ExecuteStatus::TimeLimitExceed, output)),
        ),
        forall|k: int|
            run.position < k < run.cases.len() ==> run.step(
                Ok((ExecuteStatus::TimeLimitExceed, output)),
            ).steps(later).cases[k] == run.cases[k],
{
    let hit = run.step(Ok((ExecuteStatus::TimeLimitExceed, output)));
    lemma_stopped_run_stays(hit, later);
}

/// Under `All` no outcome ends the run: it stops only when no case is left.
pub proof fn lemma_all_runs_every_case(run: JudgeRunView, outcomes: Seq<SolveOutcomeView>)
    requires
        run.policy == JudgePolicy::All,
        !run.stopped,
        0 <= run.position <= run.cases.len(),
    ensures
        !run.steps(outcomes).stopped,
        run.steps(outcomes).position == if run.position + outcomes.len() <= run.cases.len() {
            run.position + outcomes.len()
        } else {
            run.cases.len() as int
        },
    decreases outcomes.len(),
{
    if outcomes.len() > 0 {
        lemma_all_runs_every_case(run, outcomes.drop_last());
        lemma_run_keeps_later_cases(run, outcomes.drop_last());
    }
}

/// The verdict on one case.
#[derive(Debug, Clone, Copy, PartialEq, Eq, Structural)]
pub enum Verdict {
    /// The output of the solver was accepted.
    Accepted,
    /// The output of the solver was rejected.
    Rejected,
    /// The solver exceeded the time limit.
    TimeLimitExceed,
    /// The solver failed.
    Fail,
    /// The solver was not run on the case.
    Skipped,
}

/// What judging the output of one case gave: whether it was accepted, or the
/// error that kept the judging from running.
pub type Judgement = Result<bool, HarnessError>;

/// Whether the output of the case is to be judged: only where the solver ran
/// to `Success`.
pub open spec fn needs_judging(case: JudgeInfoView) -> bool {
    case.status == Some(ExecuteStatus::Success)
}

/// The verdict on a case. A case on which the solver did not run to `Success`
/// is reported by what became of it, and its output is not looked at. A case
/// on which it did is accepted or rejected as the judging says, and gets no
/// verdict where the judging is missing or failed.
pub open spec fn verdict_of(case: JudgeInfoView, judged: Option<Judgement>) -> Option<Verdict> {
    match case.status {
        Some(ExecuteStatus::Success) => match judged {
            Some(Ok(true)) => Some(Verdict::Accepted),
            Some(Ok(false)) => Some(Verdict::Rejected),
            _ => None,
        },
        Some(ExecuteStatus::TimeLimitExceed) => Some(Verdict::TimeLimitExceed),
        Some(ExecuteStatus::Fail) => Some(Verdict::Fail),
        None => Some(Verdict::Skipped),
    }
}

impl Verdict {
    /// The name of the verdict in reports.
    pub fn label(&self) -> (s: String)
        ensures
            s@ == self.spec_label(),
    {
        match self {
            Verdict::Accepted => "AC".to_string(),
            Verdict::Rejected => "WA".to_string(),
            Verdict::TimeLimitExceed => ExecuteStatus::TimeLimitExceed.label(),
            Verdict::Fail => ExecuteStatus::Fail.label(),
            Verdict::Skipped => "SKIP".to_string(),
        }
    }

    /// The characters that `label` returns.
    pub open spec fn spec_label(&self) -> Seq<char> {
        match self {
            Verdict::Accepted => "AC"@,
            Verdict::Rejected => "WA"@,
            Verdict::TimeLimitExceed => ExecuteStatus::TimeLimitExceed.spec_label(),
            Verdict::Fail => ExecuteStatus::Fail.spec_label(),
            Verdict::Skipped => "SKIP"@,
        }
    }
}

impl JudgeInfo {
    /// Whether the output of the case is to be judged.
    pub fn needs_judging(&self) -> (b: bool)
        ensures
            b == needs_judging(self@),
    {
        match self.status {
            Some(status) => status.success(),
            None => false,
        }
    }

    /// The verdict on the case, given what judging its output gave, if it was
    /// judged.
    pub fn verdict(&self, judged: Option<Judgement>) -> (v: Option<Verdict>)
        ensures
            v == verdict_of(self@, judged),
    {
        match self.status {
            Some(ExecuteStatus::Success) => match judged {
                Some(Ok(accepted)) => if accepted {
                    Some(Verdict::Accepted)
                } else {
                    Some(Verdict::Rejected)
                },
                _ => None,
            },
            Some(ExecuteStatus::TimeLimitExceed) => Some(Verdict::TimeLimitExceed),
            Some(ExecuteStatus::Fail) => Some(Verdict::Fail),
            None => Some(Verdict::Skipped),
        }
    }
}

/// The arguments of a checker: the input, the output of the solver, and the
/// expected answer, in this order.
pub fn checker_arguments(input: &str, output: &str, answer: &str) -> (args: Vec<String>)
    ensures
        args.deep_view() == seq![input@, output@, answer@],
{
    let mut args: Vec<String> = Vec::new();
    args.push(input.to_string());
    args.push(output.to_string());
    args.push(answer.to_string());
    assert(args.deep_view() =~= seq![input@, output@, answer@]);
    args
}

/// What a run of the checker says of an output: accepted exactly where the
/// checker ended in `Success`; a checker that could not be run is a
/// `RunFailure`.
pub fn checker_judgement(outcome: Result<ExecuteStatus, HarnessError>) -> (judged: Judgement)
    ensures
        judged == match outcome {
            Ok(status) => Ok::<bool, HarnessError>(status == ExecuteStatus::Success),
            Err(_) => Err(HarnessError::RunFailure),
        },
{
    match outcome {
        Ok(status) => Ok(status.success()),
        Err(_) => Err(HarnessError::RunFailure),
    }
}

/// The step that compares two files byte for byte where no checker is
/// configured: `diff`, which takes the two paths as additional arguments.
pub fn diff_step() -> (step: CommandStep)
    ensures
        step@ == (CommandStepView {
            program: "diff"@,
            args: Seq::empty(),
            ignore_additional_args: false,
        }),
{
    let step = CommandStep::new("diff".to_string(), Vec::new());
    assert(step@.args =~= Seq::empty());
    step
}

/// The arguments of `diff`: the expected answer, then the output of the
/// solver.
pub fn diff_arguments(answer: &str, output: &str) -> (args: Vec<String>)
    ensures
        args.deep_view() == seq![answer@, output@],
{
    let mut args: Vec<String> = Vec::new();
    args.push(answer.to_string());
    args.push(output.to_string());
    assert(args.deep_view() =~= seq![answer@, output@]);
    args
}

/// What a run of `diff` says of an output: accepted exactly where `diff`
/// ended in `Success`; an error of the run is passed on.
pub fn diff_judgement(outcome: Result<ExecuteStatus, HarnessError>) -> (judged: Judgement)
    ensures
        judged == match outcome {
            Ok(status) => Ok::<bool, HarnessError>(status == ExecuteStatus::Success),
            Err(e) => Err(e),
        },
{
    match outcome {
        Ok(status) => Ok(status.success()),
        Err(e) => Err(e),
    }
}

/// What one run of the solver on a case gives to the judge run: how it ended
/// and where its output is; a solver that could not be run is a `RunFailure`.
pub fn solve_outcome(outcome: Result<ExecuteStatus, HarnessError>, output_path: String) -> (r: Result<
    (ExecuteStatus, String),
    HarnessError,
>)
    ensures
        r == match outcome {
            Ok(status) => Ok::<(ExecuteStatus, String), HarnessError>((status, output_path)),
            Err(_) => Err(HarnessError::RunFailure),
        },
{
    match outcome {
        Ok(status) => Ok((status, output_path)),
        Err(_) => Err(HarnessError::RunFailure),
    }
}

/// The path of the file that takes the output of the solver on the input
/// `input`: in `outdir`, with the stem of the input and the extension `out`.
pub fn output_path(outdir: &str, input: &str) -> (r: Result<String, HarnessError>)
    ensures
        match r {
            Ok(path) => renamed_in(outdir@, input@, "out"@) == Some(path@),
            Err(e) => renamed_in(outdir@, input@, "out"@) is None && e
                == HarnessError::MissingFileName,
        },
{
    match rename_in(outdir, input, "out") {
        Some(path) => Ok(path),
        None => Err(HarnessError::MissingFileName),
    }
}

/// The directory that takes the outputs of the solver `solver`: in `outdir`,
/// named by the stem of the solver.
pub fn solver_directory(outdir: &str, solver: &str) -> (r: Result<String, HarnessError>)
    ensures
        match r {
            Ok(path) => subdirectory_of(outdir@, solver@) == Some(path@),
            Err(e) => subdirectory_of(outdir@, solver@) is None && e
                == HarnessError::MissingFileName,
        },
{
    match subdirectory(outdir, solver) {
        Some(path) => Ok(path),
        None => Err(HarnessError::MissingFileName),
    }
}

/// One line of the report on a solver, as a mathematical value.
pub struct JudgeRowView {
    pub verdict: Verdict,
    pub input_path: Option<Seq<char>>,
    pub answer_path: Option<Seq<char>>,
    pub output_path: Option<Seq<char>>,
}

/// One line of the report on a solver: the verdict on a case, its input and
/// answer, and for a rejected output where to find it.
#[derive(Debug)]
pub struct JudgeRow {
    pub verdict: Verdict,
    pub input_path: Option<String>,
    pub answer_path: Option<String>,
    pub output_path: Option<String>,
}

impl View for JudgeRow {
    type V = JudgeRowView;

    open spec fn view(&self) -> JudgeRowView {
        JudgeRowView {
            verdict: self.verdict,
            input_path: text_of(self.input_path),
            answer_path: text_of(self.answer_path),
            output_path: text_of(self.output_path),
        }
    }
}

impl DeepView for JudgeRow {
    type V = JudgeRowView;

    open spec fn deep_view(&self) -> JudgeRowView {
        self@
    }
}

/// The judging of case `k`, where `judged` holds one.
pub open spec fn judged_at(judged: Seq<Option<Judgement>>, k: int) -> Option<Judgement> {
    if 0 <= k < judged.len() {
        judged[k]
    } else {
        None
    }
}

/// The line that a case adds to the report, if any: none where the case was
/// to be judged and the judging is missing or failed.
pub open spec fn row_of(case: JudgeInfoView, judged: Option<Judgement>) -> Option<JudgeRowView> {
    match verdict_of(case, judged) {
        Some(verdict) => Some(
            JudgeRowView {
                verdict,
                input_path: case.input_path,
                answer_path: case.answer_path,
                output_path: if verdict == Verdict::Rejected {
                    case.output_path
                } else {
                    None
                },
            },
        ),
        None => None,
    }
}

/// The report over the first `n` cases.
pub open spec fn rows_of(cases: Seq<JudgeInfoView>, judged: Seq<Option<Judgement>>, n: int) -> Seq<
    JudgeRowView,
>
    decreases n,
{
    if n <= 0 {
        Seq::empty()
    } else {
        match row_of(cases[n - 1], judged_at(judged, n - 1)) {
            Some(row) => rows_of(cases, judged, n - 1).push(row),
            None => rows_of(cases, judged, n - 1),
        }
    }
}

/// A copy of an optional string.
fn copy_text(text: &Option<String>) -> (copy: Option<String>)
    ensures
        text_of(copy) == text_of(*text),
{
    match text {
        Some(s) => Some(s.clone()),
        None => None,
    }
}

/// The report on one solver: the verdicts on its cases, in the order of the
/// cases. `judged[k]` is what judging the output of case `k` gave, if it was
/// judged.
pub fn report(cases: &Vec<JudgeInfo>, judged: &Vec<Option<Judgement>>) -> (rows: Vec<JudgeRow>)
    ensures
        rows.deep_view() == rows_of(cases.deep_view(), judged@, cases.len() as int),
{
    let mut rows: Vec<JudgeRow> = Vec::new();
    let mut i: usize = 0;
    assert(rows.deep_view() =~= rows_of(cases.deep_view(), judged@, 0));
    while i < cases.len()
        invariant
            i <= cases.len(),
            rows.deep_view() == rows_of(cases.deep_view(), judged@, i as int),
        decreases cases.len() - i,
    {
        let ghost before = rows.deep_view();
        let case = &cases[i];
        assert(cases.deep_view()[i as int] == case@);
        let judging = if i < judged.len() {
            judged[i]
        } else {
            None
        };
        match case.verdict(judging) {
            Some(verdict) => {
                let output_path = if matches!(verdict, Verdict::Rejected) {
                    copy_text(&case.output_path)
                } else {
                    None
                };
                let row = JudgeRow {
                    verdict,
                    input_path: copy_text(&case.input_path),
                    answer_path: copy_text(&case.answer_path),
                    output_path,
                };
                assert(Some(row@) == row_of(case@, judged_at(judged@, i as int)));
                rows.push(row);
                assert(rows.deep_view() =~= before.push(row@));
            },
            None => {},
        }
        i += 1;
    }
    rows
}

/// Judging again gives the same report: a run over the same cases under the
/// same policy, in which the solver ends as before and the outputs are judged
/// as before, notes the same in every case and reports the same verdicts.
pub proof fn lemma_rerun_gives_same_report(
    run: JudgeRunView,
    outcomes: Seq<SolveOutcomeView>,
    judged: Seq<Option<Judgement>>,
    run_again: JudgeRunView,
    outcomes_again: Seq<SolveOutcomeView>,
    judged_again: Seq<Option<Judgement>>,
)
    requires
        run_again == run,
        outcomes_again == outcomes,
        judged_again == judged,
    ensures
        run_again.steps(outcomes_again) == run.steps(outcomes),
        rows_of(
            run_again.steps(outcomes_again).cases,
            judged_again,
            run_again.cases.len() as int,
        ) == rows_of(run.steps(outcomes).cases, judged, run.cases.len() as int),
{
}

} // verus!
