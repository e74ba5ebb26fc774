//! The list of toolchains that a stage works with.

use crate::error::HarnessError;
use crate::language::{CustomLang, Toolchain, builtin_toolchains, default_languages};
use crate::pattern::{anchored, regex_compiles};
use vstd::prelude::*;

verus! {

/// Whether `first` is the custom toolchain that the specification
/// `custom_language` describes: its first entry is the extension pattern, its
/// last the run template, and those between are the compile templates.
pub open spec fn is_custom_toolchain(first: Toolchain, custom_language: Seq<Seq<char>>) -> bool {
    match first {
        Toolchain::Custom(lang) => {
            &&& lang.pattern() == anchored(custom_language[0])
            &&& lang.compile_templates() == custom_language.subrange(
                1,
                custom_language.len() - 1,
            )
            &&& lang.run_template() == custom_language.last()
        },
        _ => false,
    }
}

/// The toolchains of a stage, in the order in which they are tried. Without a
/// custom specification these are the built-in ones. A specification of an
/// extension pattern and one or more commands puts a custom toolchain in front
/// of them, so that it is chosen before a built-in one for the same
/// extension. A specification of a pattern alone, or with a pattern that is no
/// regular expression, is an error.
pub fn make_languages(custom_language: &Vec<String>) -> (r: Result<Vec<Toolchain>, HarnessError>)
    ensures
        match r {
            Ok(langs) => if custom_language.len() == 0 {
                langs@ == builtin_toolchains()
            } else {
                &&& custom_language.len() >= 2
                &&& regex_compiles(custom_language@[0]@)
                &&& regex_compiles(anchored(custom_language@[0]@))
                &&& langs.len() == builtin_toolchains().len() + 1
                &&& is_custom_toolchain(langs@[0], custom_language.deep_view())
                &&& langs@.skip(1) == builtin_toolchains()
            },
            Err(e) => {
                &&& custom_language.len() >= 1
                &&& e == if custom_language.len() == 1 {
                    HarnessError::InvalidCustomToolchain
                } else {
                    HarnessError::InvalidExtensionPattern
                }
                &&& custom_language.len() >= 2 ==> !(regex_compiles(custom_language@[0]@)
                    && regex_compiles(anchored(custom_language@[0]@)))
            },
        },
{
    if custom_language.len() == 0 {
        return Ok(default_languages());
    }
    if custom_language.len() == 1 {
        return Err(HarnessError::InvalidCustomToolchain);
    }
    let mut commands: Vec<String> = Vec::new();
    let mut i: usize = 1;
    while i < custom_language.len()
        invariant
            1 <= i <= custom_language.len(),
            commands.len() == i - 1,
            forall|k: int| 0 <= k < i - 1 ==> commands@[k]@ == custom_language@[k + 1]@,
        decreases custom_language.len() - i,
    {
        commands.push(custom_language[i].clone());
        i += 1;
    }
    let ghost given = custom_language.deep_view();
    assert(commands.deep_view() =~= given.skip(1));
    match CustomLang::new(custom_language[0].as_str(), commands) {
        Ok(lang) => {
            assert(given.skip(1).drop_last() =~= given.subrange(1, given.len() - 1));
            assert(given.skip(1).last() == given.last());
            let mut langs = default_languages();
            langs.insert(0, Toolchain::Custom(lang));
            assert(langs@.skip(1) =~= builtin_toolchains());
            Ok(langs)
        },
        Err(e) => Err(e),
    }
}

} // verus!
