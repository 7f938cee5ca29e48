use eipw_lint::lints::preamble::{
    Author, ConfiguredUint, Date, FileName, FutureDate, Length, List, Mode, NoDuplicates, OneOf,
    Order, PreambleRegex, ProposalRef, RequireReferenced, Required, RequiredIfEq, RequiresStatus,
    Trim, Uint, UintList, UintMessage, Url,
};
use eipw_lint::lints::{Context, Proposal};
use eipw_lint::preamble::Preamble;
use eipw_lint::process::process;
use eipw_lint::snippets::{Level, Message};
use eipw_lint::tree::{Node, NodeKind};

fn preamble_of(text: &str) -> Preamble {
    let (msgs, rest) = process(&None, text);
    assert!(msgs.is_empty(), "unexpected messages: {:?}", msgs);
    rest.unwrap().preamble
}

fn ctx_with(text: &str, origin: Option<&str>, proposals: Vec<Proposal>) -> Context {
    let origin = origin.map(String::from);
    let (_, rest) = process(&origin, text);
    let p = rest.unwrap();
    let lines = p.preamble_lines;
    Context {
        source: text.to_string(),
        body_source: p.body_source,
        preamble: p.preamble,
        body: vec![Node {
            value: NodeKind::Document,
            depth: 0,
            start_line: lines + 1,
            start_column: 1,
            end_line: lines + 1,
            end_column: 1,
        }],
        origin,
        annotation_level: Level::Error,
        proposals,
    }
}

fn ctx(text: &str) -> Context {
    ctx_with(text, None, Vec::new())
}

fn titles(msgs: &[Message]) -> Vec<String> {
    msgs.iter().map(|m| m.title.clone()).collect()
}

#[test]
fn trim_accepts_single_space() {
    let c = ctx("---\neip: 1\ntitle: Hello\n---\nbody\n");
    assert!(Trim.lint("preamble-trim", &c).is_empty());
}

#[test]
fn trim_reports_extra_and_missing_space() {
    let c = ctx("---\neip:1\ntitle:  Hello \n---\n");
    let m = Trim.lint("preamble-trim", &c);
    assert_eq!(
        titles(&m),
        vec![
            "preamble header `title` has extra whitespace".to_string(),
            "preamble header values must begin with a space".to_string(),
        ]
    );
    let extra = &m[0].snippets[0].annotations[0];
    assert_eq!((extra.start, extra.end), (6, 14));
    assert_eq!(extra.label.as_deref(), Some("value has extra whitespace"));
    let missing = &m[1].snippets[0].annotations[0];
    assert_eq!((missing.start, missing.end), (4, 5));
    assert_eq!(m[1].snippets[0].line_start, 2);
    assert_eq!(m[0].id.as_deref(), Some("preamble-trim"));
}

#[test]
fn no_duplicates_points_at_both_headers() {
    let c = ctx("---\neip: 1\ntitle: A\neip: 2\n---\n");
    let m = NoDuplicates.lint("preamble-no-dup", &c);
    assert_eq!(titles(&m), vec!["preamble header `eip` defined multiple times".to_string()]);
    let s = &m[0].snippets;
    assert_eq!(s.len(), 2);
    assert_eq!(s[0].line_start, 2);
    assert_eq!(s[0].annotations[0].level, Level::Info);
    assert_eq!((s[0].annotations[0].start, s[0].annotations[0].end), (0, 6));
    assert_eq!(s[1].line_start, 4);
    assert_eq!(s[1].annotations[0].label.as_deref(), Some("redefined here"));
}

#[test]
fn uint_rejects_words() {
    let c = ctx("---\neip: one\n---\n");
    let m = Uint(String::from("eip")).lint("preamble-eip", &c);
    assert_eq!(titles(&m), vec!["preamble header `eip` must be an unsigned integer".to_string()]);
    assert_eq!(m[0].snippets[0].annotations[0].label.as_deref(), Some("not a non-negative integer"));
    assert!(Uint(String::from("eip")).lint("x", &ctx("---\neip: 17\n---\n")).is_empty());
}

#[test]
fn configured_uint_uses_special_message() {
    let c = ctx("---\neip: TBD\n---\n");
    let mut l = ConfiguredUint::new(String::from("eip"));
    l.messages = Some(vec![UintMessage {
        value: String::from("TBD"),
        message: String::from("pick a number"),
        label: Some(String::from("here")),
    }]);
    let m = l.lint("x", &c);
    assert_eq!(titles(&m), vec!["pick a number".to_string()]);
    assert_eq!(m[0].snippets[0].annotations[0].label.as_deref(), Some("here"));
}

#[test]
fn uint_list_requires_order() {
    let c = ctx("---\nrequires: 3, 1, x\n---\n");
    let m = UintList(String::from("requires")).lint("x", &c);
    assert_eq!(
        titles(&m),
        vec![
            "preamble header `requires` items must be unsigned integers".to_string(),
            "preamble header `requires` items must be sorted in ascending order".to_string(),
        ]
    );
}

#[test]
fn length_bounds() {
    let c = ctx("---\ntitle: abcdef\n---\n");
    let long = Length { name: String::from("title"), min: None, max: Some(3) };
    assert_eq!(titles(&long.lint("x", &c)), vec!["preamble header `title` value is too long (max 3)".to_string()]);
    let short = Length { name: String::from("title"), min: Some(10), max: None };
    assert_eq!(titles(&short.lint("x", &c)), vec!["preamble header `title` value is too short (min 10)".to_string()]);
}

#[test]
fn one_of_lists_values() {
    let c = ctx("---\nstatus: Done\n---\n");
    let l = OneOf { name: String::from("status"), values: vec![String::from("Draft"), String::from("Final")] };
    let m = l.lint("x", &c);
    assert_eq!(titles(&m), vec!["preamble header `status` has an unrecognized value".to_string()]);
    assert_eq!(m[0].snippets[0].annotations[0].label.as_deref(), Some("must be one of: `Draft`, `Final`"));
    assert!(l.lint("x", &ctx("---\nstatus:  Final \n---\n")).is_empty());
}

#[test]
fn required_lists_missing() {
    let c = ctx("---\neip: 1\n---\n");
    let l = Required(vec![String::from("eip"), String::from("title"), String::from("author")]);
    let m = l.lint("x", &c);
    assert_eq!(titles(&m), vec!["preamble is missing header(s): `title`, `author`".to_string()]);
    assert_eq!(m[0].snippets[0].source, "---");
    assert!(m[0].snippets[0].fold);
}

#[test]
fn required_if_eq_cases() {
    let l = RequiredIfEq {
        when: String::from("status"),
        equals: String::from("Last Call"),
        then_name: String::from("last-call-deadline"),
    };
    assert!(l.lint("x", &ctx("---\nstatus: Draft\n---\n")).is_empty());
    assert_eq!(
        titles(&l.lint("x", &ctx("---\nstatus: Last Call\n---\n"))),
        vec!["preamble header `last-call-deadline` is required when `status` is `Last Call`".to_string()]
    );
    let m = l.lint("x", &ctx("---\nlast-call-deadline: 2020-01-01\nstatus: Draft\n---\n"));
    assert_eq!(
        titles(&m),
        vec!["preamble header `last-call-deadline` is only allowed when `status` is `Last Call`".to_string()]
    );
    // The earlier line comes first.
    assert_eq!(m[0].snippets[0].line_start, 2);
    assert_eq!(m[0].snippets[0].annotations[0].label.as_deref(), Some("remove this"));
}

#[test]
fn order_reports_unknown_and_misplaced() {
    let c = ctx("---\ntitle: T\neip: 1\nfoo: bar\n---\n");
    let l = Order(vec![String::from("eip"), String::from("title")]);
    let m = l.lint("preamble-order", &c);
    assert_eq!(
        titles(&m),
        vec!["preamble has extra header(s)".to_string(), "preamble header `title` must come after `eip`".to_string()]
    );
    assert!(m[1].footers.is_empty());
}

#[test]
fn list_spacing() {
    let c = ctx("---\nauthor: a,b,  c, ,d\n---\n");
    let m = List(String::from("author")).lint("x", &c);
    assert_eq!(
        titles(&m),
        vec![
            "preamble header `author` cannot have empty items".to_string(),
            "preamble header list items must begin with a space".to_string(),
            "preamble header list items have extra whitespace".to_string(),
        ]
    );
}

#[test]
fn regex_modes() {
    let c = ctx("---\ntitle: A Standard Thing\n---\n");
    let ex = PreambleRegex {
        name: String::from("title"),
        mode: Mode::Excludes,
        pattern: String::from("(?i)standar\\w*\\b"),
        message: String::from("no standards"),
    };
    let m = ex.lint("x", &c).unwrap();
    assert_eq!(titles(&m), vec!["no standards".to_string()]);
    assert_eq!(m[0].snippets[0].annotations[0].label.as_deref(), Some("prohibited pattern was matched"));
    assert_eq!(m[0].footers[0].title, "the pattern in question: `(?i)standar\\w*\\b`");
    let inc = PreambleRegex { mode: Mode::Includes, ..ex.clone() };
    assert!(inc.lint("x", &c).unwrap().is_empty());
    let bad = PreambleRegex { pattern: String::from("("), ..ex };
    assert!(bad.lint("x", &c).is_err());
}

#[test]
fn url_reports_parse_error() {
    let l = Url(String::from("discussions-to"));
    assert!(l.lint("x", &ctx("---\ndiscussions-to: https://example.com/\n---\n")).is_empty());
    let m = l.lint("x", &ctx("---\ndiscussions-to: not a url\n---\n"));
    assert_eq!(titles(&m), vec!["preamble header `discussions-to` is not a valid URL".to_string()]);
    assert_eq!(m[0].snippets[0].annotations[0].label.as_deref(), Some("relative URL without a base"));
}

#[test]
fn date_checks_format() {
    let l = Date(String::from("created"));
    assert!(l.lint("x", &ctx("---\ncreated: 2022-06-30\n---\n")).is_empty());
    let m = l.lint("x", &ctx("---\ncreated: 2022-6-30\n---\n"));
    assert_eq!(titles(&m), vec!["preamble header `created` is not a date in the `YYYY-MM-DD` format".to_string()]);
    assert_eq!(m[0].snippets[0].annotations[0].label.as_deref(), Some("invalid length"));
    let bad = l.lint("x", &ctx("---\ncreated: 2022-13-01\n---\n"));
    assert_eq!(bad[0].snippets[0].annotations[0].label.as_deref(), Some("input is out of range"));
    assert_eq!((bad[0].snippets[0].annotations[0].start, bad[0].snippets[0].annotations[0].end), (8, 19));
}

#[test]
fn future_date_against_given_day() {
    let l = FutureDate(String::from("last-call-deadline"));
    let c = ctx("---\nstatus: Last Call\nlast-call-deadline: 2020-01-01\n---\n");
    let m = l.lint_on("x", &c, 2021, 5, 6);
    assert_eq!(
        titles(&m),
        vec!["preamble header `last-call-deadline` must be today or a future date (today is 2021-05-06)".to_string()]
    );
    assert!(l.lint_on("x", &c, 2019, 12, 31).is_empty());
    let draft = ctx("---\nstatus: Draft\nlast-call-deadline: 2020-01-01\n---\n");
    assert!(l.lint_on("x", &draft, 2021, 5, 6).is_empty());
    let bad = ctx("---\nstatus: Last Call\nlast-call-deadline: 31/12/2024\n---\n");
    let m = l.lint_on("x", &bad, 2021, 5, 6);
    assert_eq!(titles(&m), vec!["preamble header `last-call-deadline` is not a date in the `YYYY-MM-DD` format".to_string()]);
    assert_eq!(m[0].snippets[0].annotations[0].label.as_deref(), Some("must be a date in the `YYYY-MM-DD` format"));
}

#[test]
fn file_name_matches_header() {
    let l = FileName { name: String::from("eip"), prefix: String::from("eip-"), suffix: String::from(".md") };
    let good = ctx_with("---\neip: 12\n---\n", Some("EIPS/eip-12.md"), Vec::new());
    assert!(l.lint("x", &good).is_empty());
    let bad = ctx_with("---\neip: 12\n---\n", Some("EIPS/eip-13.md"), Vec::new());
    let m = l.lint("x", &bad);
    assert_eq!(titles(&m), vec!["file name must reflect the preamble header `eip`".to_string()]);
    assert_eq!(m[0].footers[0].title, "this file's name should be `eip-12.md`");
    let trailing = ctx_with("---\neip: 12\n---\n", Some("EIPS/eip-12.md/./"), Vec::new());
    assert!(l.lint_checked("x", &trailing).unwrap().is_empty());
    let parent = ctx_with("---\neip: 12\n---\n", Some("EIPS/.."), Vec::new());
    assert!(l.lint_checked("x", &parent).is_none());
    let no_header = ctx_with("---\ntitle: T\n---\n", Some("EIPS/.."), Vec::new());
    assert!(l.lint_checked("x", &no_header).unwrap().is_empty());
}

#[test]
fn author_forms() {
    let l = Author(String::from("author"));
    let ok = ctx("---\nauthor: A B (@ab), C <c@example.com>\n---\n");
    assert!(l.lint("x", &ok).unwrap().is_empty());
    let no_user = ctx("---\nauthor: C <c@example.com>\n---\n");
    assert_eq!(
        titles(&l.lint("x", &no_user).unwrap()),
        vec!["preamble header `author` must contain at least one GitHub username".to_string()]
    );
    let bad = ctx("---\nauthor: A B (@ab), (nobody)\n---\n");
    let m = l.lint("x", &bad).unwrap();
    assert_eq!(titles(&m), vec!["authors in the preamble must match the expected format".to_string()]);
    assert_eq!(m[0].footers.len(), 4);
    assert_eq!((m[0].snippets[0].annotations[0].start, m[0].snippets[0].annotations[0].end), (18, 27));
}

#[test]
fn require_referenced_mentions() {
    let l = RequireReferenced { name: String::from("title"), requires: String::from("requires") };
    let c = ctx("---\ntitle: Extends EIP-20 and ERC-721\nrequires: 20\n---\n");
    let m = l.lint("x", &c).unwrap();
    assert_eq!(titles(&m), vec!["proposals mentioned in preamble header `title` must appear in `requires`".to_string()]);
    assert_eq!(m[0].snippets[0].annotations.len(), 1);
    assert_eq!((m[0].snippets[0].annotations[0].start, m[0].snippets[0].annotations[0].end), (26, 33));
    assert!(l.check("x", &c).is_some());
}

fn proposal(number: u32, text: Option<&str>) -> Proposal {
    Proposal {
        number,
        preamble: text.map(preamble_of),
        error: String::from("no such file"),
    }
}

#[test]
fn requires_status_flow() {
    let flow = vec![
        vec![String::from("Draft"), String::from("Stagnant")],
        vec![String::from("Review")],
        vec![String::from("Last Call")],
        vec![String::from("Final"), String::from("Withdrawn"), String::from("Living")],
    ];
    let l = RequiresStatus { requires: String::from("requires"), status: String::from("status"), flow };
    let text = "---\neip: 1000\nstatus: Last Call\nrequires: 20\n---\n";
    let c = ctx_with(text, None, vec![proposal(20, Some("---\nstatus: Draft\n---\n"))]);
    assert_eq!(l.find_resources(&c.preamble), vec![20]);
    let m = l.lint("preamble-requires-status", &c);
    assert_eq!(
        titles(&m),
        vec!["preamble header `requires` contains items not stable enough for a `status` of `Last Call`".to_string()]
    );
    let a = &m[0].snippets[0].annotations[0];
    assert_eq!((a.start, a.end), (9, 12));
    assert_eq!(a.label.as_deref(), Some("has a less advanced status"));
    assert_eq!(m[0].footers[0].title, "valid `status` values for this proposal are: `Draft`, `Stagnant`");
    let missing = ctx_with(text, None, vec![proposal(20, None)]);
    assert_eq!(titles(&l.lint("x", &missing)), vec!["unable to read proposal number `20`: no such file".to_string()]);
    assert!(l.check("x", &ctx(text)).is_none());
}

#[test]
fn proposal_ref_prefix() {
    let l = ProposalRef(String::from("title"));
    let text = "---\ntitle: Builds on EIP-20\n---\n";
    let c = ctx_with(text, None, vec![proposal(20, Some("---\ncategory: ERC\n---\n"))]);
    let m = l.lint("x", &c).unwrap();
    assert_eq!(
        titles(&m),
        vec!["references to proposals with a `category` of `ERC` must use a prefix of `ERC`".to_string()]
    );
    assert_eq!((m[0].snippets[0].annotations[0].start, m[0].snippets[0].annotations[0].end), (17, 23));
    let ok = ctx_with(text, None, vec![proposal(20, Some("---\ncategory: Core\n---\n"))]);
    assert!(l.lint("x", &ok).unwrap().is_empty());
    assert!(ProposalRef::regex().is_ok());
}
