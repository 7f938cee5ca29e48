use eipw_lint::config::{default_lints, default_modifiers, False, FetchOptions, Options, Override, OverrideInner, True};
use eipw_lint::linter::{lint_proposal, proposal_basename};
use eipw_lint::lints::markdown::{HeadingFirst, HtmlComments, MarkdownRegex, Mode, NoBackticks, SectionOrder, SectionRequired};
use eipw_lint::lints::preamble::{NoDuplicates, Trim};
use eipw_lint::lints::{Context, DefaultLint};
use eipw_lint::modifiers::annotation_level;
use eipw_lint::preamble::{parse_preamble, split_preamble, SplitError};
use eipw_lint::process::{place_nodes, process};
use eipw_lint::snippets::Level;
use eipw_lint::text::{ceil_char_boundary, u64_to_string};
use eipw_lint::tree::{Node, NodeKind};

fn node(value: NodeKind, depth: usize, line: usize, col: usize, end_line: usize, end_col: usize) -> Node {
    Node { value, depth, start_line: line, start_column: col, end_line, end_column: end_col }
}

const DOC: &str = "---\neip: 1\nstatus: Draft\n---\n## Specification\n\nUse `EIP-1`.\n\n<!-- hi -->\n\n## Abstract\n";

fn doc_ctx() -> Context {
    let (msgs, rest) = process(&Some(String::from("eip-1.md")), DOC);
    assert!(msgs.is_empty());
    let p = rest.unwrap();
    assert_eq!(p.preamble_lines, 4);
    let body = vec![
        node(NodeKind::Document, 0, 1, 1, 8, 11),
        node(NodeKind::Heading(2), 1, 1, 1, 1, 16),
        node(NodeKind::Text(String::from("Specification")), 2, 1, 4, 1, 16),
        node(NodeKind::Paragraph, 1, 3, 1, 3, 12),
        node(NodeKind::Text(String::from("Use ")), 2, 3, 1, 3, 4),
        node(NodeKind::Code(String::from("EIP-1")), 2, 3, 5, 3, 11),
        node(NodeKind::HtmlBlock(String::from("<!-- hi -->\n")), 1, 5, 1, 5, 11),
        node(NodeKind::Heading(2), 1, 7, 1, 7, 11),
        node(NodeKind::Text(String::from("Abstract")), 2, 7, 4, 7, 11),
    ];
    let body = place_nodes(body, p.preamble_lines);
    let c = Context {
        source: DOC.to_string(),
        body_source: p.body_source,
        preamble: p.preamble,
        body,
        origin: Some(String::from("eip-1.md")),
        annotation_level: Level::Error,
        proposals: Vec::new(),
    };
    assert!(c.check_wf());
    c
}

#[test]
fn split_and_parse() {
    let (pre, body) = split_preamble("---\na: b\n---\nbody").unwrap();
    assert_eq!(pre, "a: b");
    assert_eq!(body, "body");
    assert_eq!(split_preamble("x\n---\n").unwrap_err(), SplitError::LeadingGarbage);
    assert_eq!(split_preamble("nothing").unwrap_err(), SplitError::MissingStart);
    assert_eq!(split_preamble("---\na: b\n").unwrap_err(), SplitError::MissingEnd);
    let p = parse_preamble(&None, "a: b\nc:d").unwrap();
    assert_eq!(p.fields.len(), 2);
    assert_eq!(p.fields[1].name, "c");
    assert_eq!(p.fields[1].value, "d");
    assert_eq!(p.fields[1].line_start, 3);
    let e = parse_preamble(&None, "a: b\nnocolon").unwrap_err();
    assert_eq!(e.len(), 1);
    assert_eq!(e[0].title, "missing delimiter `:` in preamble field");
    assert_eq!(e[0].snippets[0].line_start, 3);
}

#[test]
fn process_reports_bad_start_with_cr_help() {
    let (msgs, rest) = process(&None, "---\r\na: b\n---\n");
    assert!(rest.is_none());
    assert_eq!(msgs[0].title, "first line must be `---` exactly");
    assert_eq!(msgs[0].snippets[0].source, "---");
    assert_eq!(msgs[0].footers[0].title, "found a carriage return (CR), use Unix-style line endings (LF) instead");
    let (msgs, _) = process(&None, "---\na: b\n");
    assert_eq!(msgs[0].title, "preamble must be followed by a line containing `---` exactly");
    assert!(msgs[0].snippets.is_empty());
}

#[test]
fn process_keeps_body_and_counts_lines() {
    let (msgs, rest) = process(&None, "---\na: b\nbad\n---\nhello\n");
    assert_eq!(msgs.len(), 1);
    let p = rest.unwrap();
    assert!(p.preamble.fields.is_empty());
    assert_eq!(p.body_source, "hello\n");
    assert_eq!(p.preamble_lines, 4);
}

#[test]
fn place_nodes_moves_lines_and_inherits() {
    let placed = place_nodes(
        vec![node(NodeKind::Document, 0, 1, 1, 2, 1), node(NodeKind::Paragraph, 1, 0, 1, 0, 1)],
        4,
    );
    assert_eq!((placed[0].start_line, placed[0].end_line), (5, 6));
    assert_eq!((placed[1].start_line, placed[1].end_line), (5, 6));
}

#[test]
fn heading_first_and_sections() {
    let c = doc_ctx();
    assert!(HeadingFirst.lint("markdown-heading-first", &c).is_empty());
    let order = SectionOrder(vec![String::from("Abstract"), String::from("Specification")]);
    let m = order.lint("markdown-order-section", &c);
    assert_eq!(m.len(), 1);
    assert_eq!(m[0].title, "section `Specification` must come after `Abstract`");
    assert!(m[0].footers.is_empty());
    assert_eq!(m[0].snippets[0].line_start, 5);
    assert_eq!(m[0].snippets[0].source, "## Specification");
    let req = SectionRequired(vec![String::from("Abstract"), String::from("Motivation")]);
    let m = req.lint("markdown-req-section", &c);
    assert_eq!(m[0].title, "body is missing section(s): `Motivation`");
    assert_eq!(m[0].snippets[0].line_start, 5);
}

#[test]
fn markdown_code_comments_and_regex() {
    let c = doc_ctx();
    let nb = NoBackticks(String::from("(?i)(eip|erc)-[0-9]+"));
    let m = nb.lint("markdown-no-backticks", &c).unwrap();
    assert_eq!(m.len(), 1);
    assert_eq!(m[0].title, "proposal references should not be in backticks");
    assert_eq!(m[0].snippets[0].source, "Use `EIP-1`.");
    let a = &m[0].snippets[0].annotations[0];
    assert_eq!((a.start, a.end), (4, 12));
    let hc = HtmlComments { name: String::from("status"), warn_for: vec![String::from("Draft")] };
    let m = hc.lint("markdown-html-comments", &c);
    assert_eq!(m[0].level, Level::Warning);
    assert_eq!(m[0].title, "HTML comments are only allowed while `status` is one of: `Draft`");
    let re = MarkdownRegex { mode: Mode::Excludes, pattern: String::from("Abs"), message: String::from("no abs") };
    let m = re.lint("x", &c).unwrap();
    assert_eq!(m.len(), 1);
    assert_eq!(m[0].snippets[0].source, "## Abstract");
}

#[test]
fn lint_proposal_runs_in_order_at_levels() {
    let mut c = doc_ctx();
    let lints = vec![
        (String::from("a"), None, DefaultLint::PreambleTrim(Trim)),
        (String::from("b"), Some(Level::Warning), DefaultLint::MarkdownSectionOrder {
            sections: SectionOrder(vec![String::from("Abstract"), String::from("Specification")]),
        }),
        (String::from("c"), None, DefaultLint::PreambleNoDuplicates(NoDuplicates)),
    ];
    let msgs = lint_proposal(&lints, &default_modifiers(), &mut c).unwrap().unwrap();
    assert_eq!(msgs.len(), 1);
    assert_eq!(msgs[0].level, Level::Warning);
    assert_eq!(msgs[0].id.as_deref(), Some("b"));
}

#[test]
fn default_modifiers_warn_for_stagnant() {
    let (_, rest) = process(&None, "---\nstatus: Stagnant\n---\n");
    let p = rest.unwrap().preamble;
    assert_eq!(annotation_level(&default_modifiers(), &p), Level::Warning);
    let (_, rest) = process(&None, "---\nstatus: Final\n---\n");
    assert_eq!(annotation_level(&default_modifiers(), &rest.unwrap().preamble), Level::Error);
}

#[test]
fn config_defaults() {
    let lints = default_lints();
    assert_eq!(lints.len(), 48);
    assert_eq!(lints[0].0, "preamble-no-dup");
    let o: Options<_, _> = Options::default();
    assert_eq!(o.lints.len(), 48);
    assert_eq!(o.fetch.unwrap().proposal_format, "eip-{}");
    assert_eq!(FetchOptions::default().proposal_format, "eip-{}");
    assert!(Override::<u8>::disable().into_lint().is_none());
    assert_eq!(Override::enable(7u8).into_lint(), Some(7));
    let names = Options { modifiers: Vec::<u8>::new(), lints: vec![
        (String::from("x"), Override::enable(1u8)),
        (String::from("y"), Override::disable()),
        (String::from("z"), Override::enable(3u8)),
    ], fetch: None }.to_iters();
    assert!(names.0.is_empty());
    assert!(names.2.is_none());
    assert_eq!(names.1, vec![(String::from("x"), 1u8), (String::from("z"), 3u8)]);
}

#[test]
fn basename_and_text_helpers() {
    assert_eq!(proposal_basename("eip-{}", 1559).unwrap(), "eip-1559");
    assert_eq!(proposal_basename("erc-{}-x", 20).unwrap(), "erc-20-x");
    assert_eq!(proposal_basename("fixed", 20).unwrap(), "fixed");
    assert!(proposal_basename("{}-{}", 20).is_err());
    assert!(proposal_basename("}a{", 20).is_err());
    assert!(proposal_basename("eip-{0}", 20).is_err());
    assert!(eipw_lint::linter::is_plain_format("eip-{}"));
    assert!(!eipw_lint::linter::is_plain_format("[curly=open]{}"));
    assert_eq!(ceil_char_boundary(&['a', 'é', 'b'], 2), 3);
    assert_eq!(ceil_char_boundary(&['a'], 9), 1);
    assert_eq!(ceil_char_boundary(&['á', 'b'], 1), 2);
    assert_eq!(ceil_char_boundary(&['á', 'b'], 9), 3);
    assert_eq!(ceil_char_boundary(&['á', 'b'], 0), 0);
    assert_eq!(u64_to_string(1234), "1234");
}

#[test]
fn override_disabled_with_lint_enables_none() {
    let input: Override<DefaultLint> =
        Override(OverrideInner::Disable { enabled: False, lint: Some(DefaultLint::PreambleNoDuplicates(NoDuplicates)) });
    assert!(input.into_lint().is_none());
}

#[test]
fn override_disabled_enables_none() {
    let input: Override<DefaultLint> = Override::disable();
    assert!(input.into_lint().is_none());
}

#[test]
fn override_enabled_gives_its_lint() {
    let output: Override<DefaultLint> =
        Override(OverrideInner::Enable { enabled: True, lint: DefaultLint::PreambleNoDuplicates(NoDuplicates) });
    assert!(matches!(output.into_lint(), Some(DefaultLint::PreambleNoDuplicates(NoDuplicates))));
}

#[test]
fn override_enabled_by_default_flag_gives_its_lint() {
    let output: Override<DefaultLint> =
        Override(OverrideInner::Enable { enabled: True::default(), lint: DefaultLint::PreambleNoDuplicates(NoDuplicates) });
    assert!(matches!(output.into_lint(), Some(DefaultLint::PreambleNoDuplicates(NoDuplicates))));
}

#[test]
fn disabling_a_default_entry_enables_none() {
    let mut config: Options<_, DefaultLint> = Options::default();
    for entry in config.lints.iter_mut() {
        if entry.0 == "preamble-no-dup" {
            entry.1 = Override::disable();
        }
    }
    let entry = config.lints.iter().find(|e| e.0 == "preamble-no-dup").unwrap();
    assert!(entry.1.clone().into_lint().is_none());
}


#[test]
fn process_parses_body() {
    let (msgs, rest) = process(&None, "---\neip: 1\n---\n## Abstract\n\nSee [x](./eip-2.md).\n");
    assert!(msgs.is_empty());
    let p = rest.unwrap();
    let b = &p.body;
    assert!(matches!(b[0].value, NodeKind::Document));
    assert!(matches!(b[1].value, NodeKind::Heading(2)));
    assert_eq!(b[1].start_line, 4);
    assert_eq!(b[1].depth, 1);
    assert!(matches!(&b[2].value, NodeKind::Text(t) if t == "Abstract"));
    let link = b.iter().find(|n| matches!(n.value, NodeKind::Link { .. })).unwrap();
    assert!(matches!(&link.value, NodeKind::Link { url, .. } if url == "./eip-2.md"));
    assert_eq!(link.start_line, 6);
}

#[test]
fn process_reads_node_values() {
    let src = "---\neip: 1\n---\n\nSay \"hi\" \\ there, *áemphá*.\n\n```json\n{\"a\": 1}\n```\n\n![alt](img.png \"T\")\n";
    let (_, rest) = process(&None, src);
    let b = rest.unwrap().body;
    assert!(b.iter().any(|n| matches!(&n.value, NodeKind::Text(t) if t == "Say \"hi\" \\ there, ")));
    assert!(b.iter().any(|n| matches!(&n.value, NodeKind::Emph)));
    assert!(b.iter().any(|n| matches!(&n.value, NodeKind::Text(t) if t == "áemphá")));
    assert!(b.iter().any(|n| matches!(&n.value, NodeKind::CodeBlock { info, literal } if info == "json" && literal == "{\"a\": 1}\n")));
    assert!(b.iter().any(|n| matches!(&n.value, NodeKind::Image { url, title } if url == "img.png" && title == "T")));
}

#[test]
fn decode_undoes_escapes() {
    assert!(matches!(eipw_lint::tree::decode("Text(\"a\\u{7}b\\t\\\"c\\\\\")"), NodeKind::Text(t) if t == "a\u{7}b\t\"c\\"));
    assert!(matches!(eipw_lint::tree::decode("Heading(NodeHeading { level: 3, setext: false })"), NodeKind::Heading(3)));
    assert!(matches!(eipw_lint::tree::decode("List(NodeList { })"), NodeKind::Other));
    assert!(matches!(
        eipw_lint::tree::decode("Link(NodeLink { url: \"https://x\", title: \"\" })"),
        NodeKind::Link { url, title } if url == "https://x" && title.is_empty()
    ));
}
