//! The generate stage: what a generator's file name says, and the name and
//! seed of each case it is run for.

use crate::decimal::{decimal, parse_u32, parsed_u32, push_decimal, push_zero_padded, zero_padded};
use crate::error::HarnessError;
use crate::language::ExecuteStatus;
use crate::path::{file_name_chars, file_name_of, name_extension, name_stem, split_name};
use crate::text::{chars_of, copy_range, find_last, last_index, lemma_last_index, push_str, string_of};
use vstd::prelude::*;

verus! {

/// What the name of a target file says, as a mathematical value.
pub struct GenFileInfoView {
    pub path: Seq<char>,
    pub name: Seq<char>,
    pub count: Option<u32>,
    pub extension: Option<Seq<char>>,
}

/// What the name of a target file says: a file `name.count.ext` has the base
/// name `name` and asks for `count` cases; the name of any other file has the
/// whole stem as its base name and asks for no number of cases.
#[derive(Debug)]
pub struct GenFileInfo {
    /// The path as it was given.
    pub path: String,
    /// The base name, by which the generated cases are named.
    pub name: String,
    /// The number of cases that the file name asks for, if it does.
    pub count: Option<u32>,
    /// The extension of the file, by which its toolchain is chosen.
    pub extension: Option<String>,
}

impl View for GenFileInfo {
    type V = GenFileInfoView;

    open spec fn view(&self) -> GenFileInfoView {
        GenFileInfoView {
            path: self.path@,
            name: self.name@,
            count: self.count,
            extension: match self.extension {
                Some(ext) => Some(ext@),
                None => None,
            },
        }
    }
}

/// The end of a stem that may be a count: what follows its last `.`, or the
/// whole stem where it has none.
pub open spec fn count_text(stem: Seq<char>) -> Seq<char> {
    stem.subrange(last_index(stem, '.') + 1, stem.len() as int)
}

/// Base name and count of a stem. Where the end of the stem reads as a
/// count, the base name is what stands before the `.` in front of it, and the
/// stem is invalid if nothing does. Where it does not, the base name is the
/// whole stem, dots included.
pub open spec fn parsed_stem(stem: Seq<char>) -> Result<(Seq<char>, Option<u32>), HarnessError> {
    let dot = last_index(stem, '.');
    match parsed_u32(count_text(stem)) {
        Some(n) => if dot <= 0 {
            Err(HarnessError::InvalidFilenameForm)
        } else {
            Ok((stem.subrange(0, dot), Some(n)))
        },
        None => Ok((stem, None)),
    }
}

/// What the file name of `path` says.
pub open spec fn target_file_info(path: Seq<char>) -> Result<GenFileInfoView, HarnessError> {
    match file_name_of(path) {
        None => Err(HarnessError::MissingFileName),
        Some(file) => match parsed_stem(name_stem(file)) {
            Err(e) => Err(e),
            Ok((name, count)) => Ok(
                GenFileInfoView { path, name, count, extension: name_extension(file) },
            ),
        },
    }
}

/// The name of the file that holds case number `index` of the generator with
/// the base name `name`: the name, `_`, the number in at least three digits,
/// and the extension `.in`.
pub open spec fn case_file_name(name: Seq<char>, index: nat) -> Seq<char> {
    name + seq!['_'] + zero_padded(decimal(index), 3) + seq!['.', 'i', 'n']
}

/// One run of a generator, as a mathematical value.
pub struct GeneratedCaseView {
    pub index: u32,
    pub seed: nat,
    pub arguments: Seq<Seq<char>>,
    pub file_name: Seq<char>,
}

/// One run of a generator.
#[derive(Debug)]
pub struct GeneratedCase {
    /// The number of the case among those of its generator, from zero.
    pub index: u32,
    /// The seed of the case.
    pub seed: u64,
    /// The additional arguments of the run: the seed as a decimal numeral.
    pub arguments: Vec<String>,
    /// The name of the file that takes the output of the run.
    pub file_name: String,
}

impl View for GeneratedCase {
    type V = GeneratedCaseView;

    open spec fn view(&self) -> GeneratedCaseView {
        GeneratedCaseView {
            index: self.index,
            seed: self.seed as nat,
            arguments: self.arguments.deep_view(),
            file_name: self.file_name@,
        }
    }
}

/// Case number `index` of the generator with the base name `name`, for the
/// base seed `seed`: its seed is `seed + index`.
pub open spec fn generated_case(name: Seq<char>, seed: u32, index: u32) -> GeneratedCaseView {
    GeneratedCaseView {
        index,
        seed: (seed + index) as nat,
        arguments: seq![decimal((seed + index) as nat)],
        file_name: case_file_name(name, index as nat),
    }
}

impl GenFileInfo {
    /// Reads the file name of `path`. Fails with `MissingFileName` where the
    /// path ends in no file name, and with `InvalidFilenameForm` where the
    /// name carries a count with no base name before it.
    pub fn new(path: &str) -> (r: Result<GenFileInfo, HarnessError>)
        ensures
            match r {
                Ok(info) => target_file_info(path@) == Ok::<GenFileInfoView, HarnessError>(info@),
                Err(e) => target_file_info(path@) == Err::<GenFileInfoView, HarnessError>(e),
            },
    {
        let chars = chars_of(path);
        let file = match file_name_chars(&chars) {
            Some(file) => file,
            None => {
                return Err(HarnessError::MissingFileName);
            },
        };
        let (stem, ext) = split_name(&file);
        proof {
            lemma_last_index(stem@, '.');
        }
        let dot = find_last(&stem, '.');
        let from: usize = match dot {
            Some(i) => i + 1,
            None => 0,
        };
        let count = parse_u32(&copy_range(&stem, from, stem.len()));
        let name = match count {
            Some(_) => match dot {
                Some(i) => {
                    if i == 0 {
                        return Err(HarnessError::InvalidFilenameForm);
                    }
                    string_of(&copy_range(&stem, 0, i))
                },
                None => {
                    return Err(HarnessError::InvalidFilenameForm);
                },
            },
            None => string_of(&stem),
        };
        let extension = match ext {
            Some(ext) => Some(string_of(&ext)),
            None => None,
        };
        Ok(GenFileInfo { path: path.to_string(), name, count, extension })
    }

    /// The number of cases to generate: the count of the file name where it
    /// has one, else `default_count`.
    pub fn case_count(&self, default_count: u32) -> (n: u32)
        ensures
            n == match self.count {
                Some(count) => count,
                None => default_count,
            },
    {
        match self.count {
            Some(count) => count,
            None => default_count,
        }
    }

    /// Case number `index` for the base seed `seed`: the seed to hand to the
    /// generator and the name of the file to write.
    pub fn case(&self, seed: u32, index: u32) -> (case: GeneratedCase)
        ensures
            case@ == generated_case(self.name@, seed, index),
    {
        let case_seed: u64 = seed as u64 + index as u64;
        let mut numeral: Vec<char> = Vec::new();
        push_decimal(&mut numeral, case_seed);
        assert(numeral@ =~= decimal(case_seed as nat));
        let mut arguments: Vec<String> = Vec::new();
        arguments.push(string_of(&numeral));
        assert(arguments.deep_view() =~= seq![decimal(case_seed as nat)]);
        let mut file_name: Vec<char> = Vec::new();
        push_str(&mut file_name, self.name.as_str());
        file_name.push('_');
        push_zero_padded(&mut file_name, index as u64, 3);
        file_name.push('.');
        file_name.push('i');
        file_name.push('n');
        assert(file_name@ =~= case_file_name(self.name@, index as nat));
        GeneratedCase { index, seed: case_seed, arguments, file_name: string_of(&file_name) }
    }
}

/// What one run of a generator is worth: the case written to `file_name`
/// where the run ended in `Success`. A run that ended otherwise is a
/// `RunFailure`, and a run that could not be made keeps its error: either
/// way the generator has failed, and its cases are skipped.
pub fn generation_result(outcome: Result<ExecuteStatus, HarnessError>, file_name: String) -> (r:
    Result<String, HarnessError>)
    ensures
        r == match outcome {
            Ok(ExecuteStatus::Success) => Ok::<String, HarnessError>(file_name),
            Ok(_) => Err(HarnessError::RunFailure),
            Err(e) => Err(e),
        },
{
    match outcome {
        Ok(ExecuteStatus::Success) => Ok(file_name),
        Ok(_) => Err(HarnessError::RunFailure),
        Err(e) => Err(e),
    }
}

/// The number of cases that the first `n` generators ask for together.
pub open spec fn cases_of(counts: Seq<Option<u32>>, default_count: u32, n: int) -> nat
    decreases n,
{
    if n <= 0 {
        0
    } else {
        cases_of(counts, default_count, n - 1) + match counts[n - 1] {
            Some(count) => count as nat,
            None => default_count as nat,
        }
    }
}

/// The counts that a list of generators carry in their file names.
pub open spec fn counts_of(generators: Seq<GenFileInfo>) -> Seq<Option<u32>> {
    generators.map_values(|g: GenFileInfo| g.count)
}

/// The number of cases that all generators ask for together, or the largest
/// number that the result can hold where they ask for more.
pub fn total_cases(generators: &Vec<GenFileInfo>, default_count: u32) -> (total: u64)
    ensures
        total == if cases_of(counts_of(generators@), default_count, generators.len() as int)
            <= u64::MAX {
            cases_of(counts_of(generators@), default_count, generators.len() as int)
        } else {
            u64::MAX as nat
        },
{
    let ghost counts = counts_of(generators@);
    let mut total: u64 = 0;
    let mut i: usize = 0;
    while i < generators.len()
        invariant
            i <= generators.len(),
            counts == counts_of(generators@),
            total == if cases_of(counts, default_count, i as int) <= u64::MAX {
                cases_of(counts, default_count, i as int)
            } else {
                u64::MAX as nat
            },
        decreases generators.len() - i,
    {
        let n = generators[i].case_count(default_count);
        assert(counts[i as int] == generators@[i as int].count);
        total = total.saturating_add(n as u64);
        i += 1;
    }
    total
}

/// The file name `name.count.ext`.
pub open spec fn counted_file_name(name: Seq<char>, count: Seq<char>, ext: Seq<char>) -> Seq<char> {
    name + seq!['.'] + count + seq!['.'] + ext
}

/// A file `name.count.ext` whose `count` reads as a number has the base name
/// `name` and that number as its count: in any directory, for every `name`
/// that is not empty, and every `ext` without a dot.
pub proof fn lemma_count_in_file_name(
    dir: Seq<char>,
    name: Seq<char>,
    count: Seq<char>,
    ext: Seq<char>,
)
    requires
        dir.len() == 0 || dir.last() == '/',
        name.len() > 0,
        !name.contains('/'),
        parsed_u32(count) is Some,
        !ext.contains('.'),
        !ext.contains('/'),
    ensures
        target_file_info(dir + counted_file_name(name, count, ext)) == Ok::<
            GenFileInfoView,
            HarnessError,
        >(
            GenFileInfoView {
                path: dir + counted_file_name(name, count, ext),
                name,
                count: parsed_u32(count),
                extension: Some(ext),
            },
        ),
{
    let file = counted_file_name(name, count, ext);
    let stem = name + seq!['.'] + count;
    crate::decimal::lemma_parsed_chars(count);
    assert(!count.contains('.') && !count.contains('/')) by {
        if count.contains('.') {
            let k = choose|k: int| 0 <= k < count.len() && count[k] == '.';
            assert(!crate::decimal::is_digit(count[k]));
        }
        if count.contains('/') {
            let k = choose|k: int| 0 <= k < count.len() && count[k] == '/';
            assert(!crate::decimal::is_digit(count[k]));
        }
    }
    assert(!file.contains('/')) by {
        if file.contains('/') {
            let k = choose|k: int| 0 <= k < file.len() && file[k] == '/';
            if k < name.len() {
                assert(name.contains(name[k]));
            } else if k == name.len() {
            } else if k < stem.len() {
                assert(count.contains(count[k - name.len() - 1]));
            } else if k == stem.len() {
            } else {
                assert(ext.contains(ext[k - stem.len() - 1]));
            }
        }
    }
    assert(file.len() >= 4);
    crate::path::lemma_file_name_in_directory(dir, file);
    assert(file =~= stem + seq!['.'] + ext);
    crate::text::lemma_last_index_before(stem, '.', ext);
    assert(file.subrange(0, stem.len() as int) =~= stem);
    assert(file.subrange(stem.len() as int + 1, file.len() as int) =~= ext);
    crate::text::lemma_last_index_before(name, '.', count);
    assert(stem.subrange(name.len() as int + 1, stem.len() as int) =~= count);
    assert(stem.subrange(0, name.len() as int) =~= name);
}

/// A file `name.count.ext` whose `count` is the numeral of a number has that
/// number as its count.
pub proof fn lemma_numeral_in_file_name(dir: Seq<char>, name: Seq<char>, count: u32, ext: Seq<char>)
    requires
        dir.len() == 0 || dir.last() == '/',
        name.len() > 0,
        !name.contains('/'),
        !ext.contains('.'),
        !ext.contains('/'),
    ensures
        target_file_info(dir + counted_file_name(name, decimal(count as nat), ext)) == Ok::<
            GenFileInfoView,
            HarnessError,
        >(
            GenFileInfoView {
                path: dir + counted_file_name(name, decimal(count as nat), ext),
                name,
                count: Some(count),
                extension: Some(ext),
            },
        ),
{
    crate::decimal::lemma_parse_decimal(count);
    lemma_count_in_file_name(dir, name, decimal(count as nat), ext);
}

/// A file name that starts with its count has no base name and is refused:
/// `count.ext` and `.count.ext`, for every `count` that reads as a number and
/// every `ext` without a dot, in any directory.
pub proof fn lemma_count_without_name(dir: Seq<char>, count: Seq<char>, ext: Seq<char>)
    requires
        dir.len() == 0 || dir.last() == '/',
        parsed_u32(count) is Some,
        !ext.contains('.'),
        !ext.contains('/'),
    ensures
        target_file_info(dir + (count + seq!['.'] + ext)) == Err::<GenFileInfoView, HarnessError>(
            HarnessError::InvalidFilenameForm,
        ),
        target_file_info(dir + (seq!['.'] + count + seq!['.'] + ext)) == Err::<
            GenFileInfoView,
            HarnessError,
        >(HarnessError::InvalidFilenameForm),
{
    crate::decimal::lemma_parsed_chars(count);
    assert(!count.contains('.') && !count.contains('/')) by {
        if count.contains('.') {
            let k = choose|k: int| 0 <= k < count.len() && count[k] == '.';
            assert(!crate::decimal::is_digit(count[k]));
        }
        if count.contains('/') {
            let k = choose|k: int| 0 <= k < count.len() && count[k] == '/';
            assert(!crate::decimal::is_digit(count[k]));
        }
    }
    // `count.ext`
    let plain = count + seq!['.'] + ext;
    assert(!plain.contains('/')) by {
        if plain.contains('/') {
            let k = choose|k: int| 0 <= k < plain.len() && plain[k] == '/';
            if k < count.len() {
                assert(count.contains(count[k]));
            } else if k == count.len() {
            } else {
                assert(ext.contains(ext[k - count.len() - 1]));
            }
        }
    }
    assert(plain != seq!['.'] && plain != seq!['.', '.']) by {
        assert(plain[0] == count[0]);
    }
    crate::path::lemma_file_name_in_directory(dir, plain);
    crate::text::lemma_last_index_before(count, '.', ext);
    assert(plain.subrange(0, count.len() as int) =~= count);
    crate::text::lemma_last_index_none(count, '.');
    assert(count.subrange(0, count.len() as int) =~= count);
    // `.count.ext`
    let dotted = seq!['.'] + count + seq!['.'] + ext;
    let stem = seq!['.'] + count;
    assert(!dotted.contains('/')) by {
        if dotted.contains('/') {
            let k = choose|k: int| 0 <= k < dotted.len() && dotted[k] == '/';
            if k == 0 {
            } else if k < stem.len() {
                assert(count.contains(count[k - 1]));
            } else if k == stem.len() {
            } else {
                assert(ext.contains(ext[k - stem.len() - 1]));
            }
        }
    }
    assert(dotted.len() >= 3);
    crate::path::lemma_file_name_in_directory(dir, dotted);
    assert(dotted =~= stem + seq!['.'] + ext);
    crate::text::lemma_last_index_before(stem, '.', ext);
    assert(dotted.subrange(0, stem.len() as int) =~= stem);
    crate::text::lemma_last_index_before(Seq::<char>::empty(), '.', count);
    assert(stem =~= Seq::<char>::empty() + seq!['.'] + count);
    assert(stem.subrange(1, stem.len() as int) =~= count);
}

/// A file whose stem does not end in a count has the whole stem, dots
/// included, as its base name, and no count.
pub proof fn lemma_stem_without_count(path: Seq<char>)
    requires
        file_name_of(path) is Some,
        parsed_u32(count_text(name_stem(file_name_of(path)->0))) is None,
    ensures
        target_file_info(path) == Ok::<GenFileInfoView, HarnessError>(
            GenFileInfoView {
                path,
                name: name_stem(file_name_of(path)->0),
                count: None,
                extension: name_extension(file_name_of(path)->0),
            },
        ),
{
}

} // verus!
