use kuroe::error::HarnessError;
use kuroe::language::{default_languages, detect_language, Language, Toolchain};
use kuroe::utils::make_languages;

#[test]
fn test_make_languages() {
    let default_langs = default_languages();

    let langs = make_languages(&Vec::new()).unwrap();
    assert_eq!(langs.len(), default_langs.len());

    let langs = make_languages(&vec![
        "cpp".to_string(),
        "g++ %(target)".to_string(),
        "./a.out".to_string(),
    ])
    .unwrap();
    assert_eq!(langs.len(), default_langs.len() + 1);

    let langs = make_languages(&vec!["invalid".to_string()]);
    assert!(langs.is_err());
}

#[test]
fn custom_language_comes_first() {
    let langs = make_languages(&vec![
        "cpp".to_string(),
        "clang++ %(target)".to_string(),
        "./a.out".to_string(),
    ])
    .unwrap();
    assert!(matches!(langs[0], Toolchain::Custom(_)));
    assert!(matches!(langs[1], Toolchain::Clang));
    assert!(matches!(langs[2], Toolchain::Cpp));
    assert!(matches!(langs[3], Toolchain::Python));
    assert!(matches!(langs[4], Toolchain::Txt));
    let lang = detect_language("cpp", &langs).unwrap();
    let steps = lang.compile("/abs/a.cpp");
    assert_eq!(steps.len(), 1);
    assert_eq!(steps[0].program, "clang++");
    assert_eq!(steps[0].args, vec!["/abs/a.cpp".to_string()]);
    assert_eq!(lang.run("/abs/a.cpp").program, "./a.out");
    // the built-in toolchains are still there for the other extensions
    assert!(matches!(detect_language("py", &langs).unwrap(), Toolchain::Python));
}

#[test]
fn custom_language_with_run_command_only() {
    let langs = make_languages(&vec!["sh".to_string(), "sh %(target)".to_string()]).unwrap();
    let lang = detect_language("sh", &langs).unwrap();
    assert_eq!(lang.compile("/a.sh").len(), 0);
    let run = lang.run("/a.sh");
    assert_eq!(run.program, "sh");
    assert_eq!(run.args, vec!["/a.sh".to_string()]);
}

#[test]
fn pattern_alone_is_no_toolchain() {
    assert_eq!(
        make_languages(&vec!["cpp".to_string()]).err(),
        Some(HarnessError::InvalidCustomToolchain)
    );
    // not even where the pattern is no regular expression
    assert_eq!(
        make_languages(&vec!["(".to_string()]).err(),
        Some(HarnessError::InvalidCustomToolchain)
    );
}

#[test]
fn pattern_must_be_a_regular_expression() {
    assert_eq!(
        make_languages(&vec!["(".to_string(), "true".to_string()]).err(),
        Some(HarnessError::InvalidExtensionPattern)
    );
}
