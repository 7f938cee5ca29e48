use eipw_lint::builder::{Linter, Source};
use eipw_lint::config::{default_lints, FetchOptions, Options, Override};
use eipw_lint::lints::markdown::HeadingFirst;
use eipw_lint::lints::preamble::NoDuplicates;
use eipw_lint::lints::DefaultLint;
use eipw_lint::snippets::Level;

fn slugs(l: &Linter) -> Vec<String> {
    l.lints.iter().map(|e| e.0.clone()).collect()
}

#[test]
fn builder_default_has_every_default_lint() {
    let l = Linter::new();
    assert_eq!(l.lints.len(), default_lints().len());
    for (slug, _) in default_lints() {
        assert!(l.has_lint(&slug));
    }
    assert!(l.lints.iter().all(|e| e.1.is_none()));
    assert_eq!(l.modifiers.len(), 2);
    assert!(l.sources.is_empty());
    assert_eq!(l.proposal_format, "eip-{}");
}

#[test]
fn builder_warn_deny_allow() {
    let l = Linter::new()
        .warn(String::from("preamble-no-dup"), DefaultLint::PreambleNoDuplicates(NoDuplicates))
        .deny(String::from("my-own"), DefaultLint::MarkdownHeadingFirst(HeadingFirst));
    let n = default_lints().len();
    assert_eq!(l.lints.len(), n + 1);
    let dup = l.lints.iter().find(|e| e.0 == "preamble-no-dup").unwrap();
    assert_eq!(dup.1, Some(Level::Warning));
    let own = l.lints.iter().find(|e| e.0 == "my-own").unwrap();
    assert_eq!(own.1, Some(Level::Error));
    let l = l.allow("my-own");
    assert!(!l.has_lint("my-own"));
    assert_eq!(l.lints.len(), n);
    let l = l.clear_lints();
    assert!(l.lints.is_empty());
    assert!(!l.has_lint("preamble-no-dup"));
}

#[test]
fn builder_later_entry_wins() {
    let options = Options {
        modifiers: Vec::new(),
        lints: vec![
            (String::from("b"), Override::enable(DefaultLint::PreambleNoDuplicates(NoDuplicates))),
            (String::from("a"), Override::enable(DefaultLint::MarkdownHeadingFirst(HeadingFirst))),
            (String::from("b"), Override::disable()),
            (String::from("c"), Override::enable(DefaultLint::MarkdownHeadingFirst(HeadingFirst))),
        ],
        fetch: Some(FetchOptions { proposal_format: String::from("erc-{}") }),
    };
    let l = Linter::with_options(options);
    assert_eq!(slugs(&l), vec![String::from("a"), String::from("c")]);
    assert_eq!(l.proposal_format, "erc-{}");
    let l = Linter::with_lints(vec![
        (String::from("x"), DefaultLint::PreambleNoDuplicates(NoDuplicates)),
        (String::from("y"), DefaultLint::PreambleNoDuplicates(NoDuplicates)),
        (String::from("x"), DefaultLint::MarkdownHeadingFirst(HeadingFirst)),
    ]);
    assert_eq!(slugs(&l), vec![String::from("x"), String::from("y")]);
    assert!(matches!(l.lints[0].2, DefaultLint::MarkdownHeadingFirst(_)));
}

#[test]
fn builder_sources_and_run_order() {
    let l = Linter::with_lints(vec![
        (String::from("zeta"), DefaultLint::PreambleNoDuplicates(NoDuplicates)),
        (String::from("alpha"), DefaultLint::PreambleNoDuplicates(NoDuplicates)),
        (String::from("mid"), DefaultLint::MarkdownHeadingFirst(HeadingFirst)),
    ])
    .check_slice(Some(String::from("a.md")), String::from("text"))
    .check_slice(None, String::from("more"))
    .check_file(String::from("b.md"));
    assert_eq!(l.sources.len(), 3);
    assert_eq!(l.sources[0].origin(), Some("a.md"));
    assert!(l.sources[0].is_string());
    assert_eq!(l.sources[1].origin(), None);
    assert_eq!(l.sources[2].origin(), Some("b.md"));
    assert!(!l.sources[2].is_string());
    assert!(matches!(&l.sources[2], Source::File(p) if p == "b.md"));
    let order: Vec<String> = l.run_order().into_iter().map(|e| e.0).collect();
    assert_eq!(order, vec![String::from("alpha"), String::from("mid"), String::from("zeta")]);
}
