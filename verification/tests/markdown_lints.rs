use eipw_lint::lints::markdown::{
    CodeBlockLicense, Copyright, EmphasisType, HeadingFirst, HeadingsSpace, JsonSchema, LinkEip, LinkFirst, LinkStatus,
    LinkTextFormat, Mistake, NoEmphasisKeywords, NoSmartQuotes, PreventUrlsNoBackticks, ProposalRef, RelativeLinks,
    RequireReferenced, RequiresRefBody, SectionText, Spell,
};
use eipw_lint::linter::plan_fetches;
use eipw_lint::lints::{Context, DefaultLint, Error, Proposal};
use eipw_lint::process::process;
use eipw_lint::snippets::{Level, Message};
use eipw_lint::tree::NodeKind;

fn md_ctx(text: &str, proposals: Vec<Proposal>) -> Context {
    let (msgs, rest) = process(&Some(String::from("eip-1.md")), text);
    assert!(msgs.is_empty(), "unexpected messages: {:?}", msgs);
    let p = rest.unwrap();
    let body = p.body;
    let c = Context {
        source: text.to_string(),
        body_source: p.body_source,
        preamble: p.preamble,
        body,
        origin: Some(String::from("eip-1.md")),
        annotation_level: Level::Error,
        proposals,
    };
    assert!(c.check_wf());
    c
}

fn proposal(number: u32, text: Option<&str>) -> Proposal {
    match text {
        Some(t) => {
            let (_, rest) = process(&None, t);
            Proposal { number, preamble: Some(rest.unwrap().preamble), error: String::new() }
        },
        None => Proposal { number, preamble: None, error: String::from("not found") },
    }
}

fn titles(msgs: &[Message]) -> Vec<String> {
    msgs.iter().map(|m| m.title.clone()).collect()
}

#[test]
fn headings_space_marks_last_hash() {
    let c = md_ctx("---\neip: 1\n---\n#Heading\n\n##Two\n\n# Fine\n", vec![]);
    let m = HeadingsSpace.lint("markdown-headings-space", &c).unwrap();
    assert_eq!(titles(&m), vec!["Space missing in header".to_string()]);
    let s = &m[0].snippets;
    assert_eq!(s.len(), 2);
    assert_eq!(s[0].source, "#Heading");
    assert_eq!(s[0].line_start, 4);
    assert!(!s[0].fold);
    assert_eq!((s[0].annotations[0].start, s[0].annotations[0].end), (0, 1));
    assert_eq!(s[0].annotations[0].label.as_deref(), Some("space required here"));
    assert_eq!(s[1].source, "##Two");
    assert_eq!(s[1].line_start, 6);
    assert_eq!((s[1].annotations[0].start, s[1].annotations[0].end), (1, 2));
}

#[test]
fn headings_space_accepts_headings() {
    let c = md_ctx("---\neip: 1\n---\n## Fine\n\ntext # not a heading\n", vec![]);
    assert!(HeadingsSpace.lint("markdown-headings-space", &c).unwrap().is_empty());
}

#[test]
fn smart_quotes_reported() {
    let c = md_ctx("---\neip: 1\n---\nHe said \u{201C}hi\u{201D}.\n\nPlain \"quotes\".\n", vec![]);
    let m = NoSmartQuotes.lint("markdown-no-smart-quotes", &c).unwrap();
    assert_eq!(titles(&m), vec!["smart quotes are not allowed (use straight quotes instead)".to_string()]);
    assert_eq!(m[0].snippets[0].source, "He said \u{201C}hi\u{201D}.");
    assert_eq!(m[0].snippets[0].line_start, 4);
    assert_eq!(m[0].footers[0].level, Level::Info);
    assert_eq!(m[0].footers[0].title, "Smart quotes detected: replace with straight quotes (\", ')");
}

#[test]
fn emphasis_keywords() {
    let c = md_ctx("---\neip: 1\n---\nYou *MUST* do this, **SHALL** that, *fine* THEN.\n", vec![]);
    let m = NoEmphasisKeywords.lint("markdown-no-emphasis-keywords", &c).unwrap();
    assert_eq!(
        titles(&m),
        vec![
            "uppercase keywords should not be formatted with italic emphasis".to_string(),
            "uppercase keywords should not be formatted with bold emphasis".to_string(),
        ]
    );
    assert_eq!(m[0].footers[0].title, "uppercase keyword `MUST` found in italic text");
    assert_eq!(m[1].footers[0].title, "uppercase keyword `SHALL` found in bold text");
    assert_eq!(EmphasisType::Bold.description(), "bold");
    assert_eq!(EmphasisType::Italic.description(), "italic");
    assert_eq!(EmphasisType::Unemphasised.description(), "");
}

#[test]
fn body_proposal_references() {
    let erc = "---\neip: 20\ncategory: ERC\n---\n";
    let c = md_ctx("---\neip: 1\n---\nSee EIP-20 and ERC-20, and EIP-7.\n", vec![proposal(20, Some(erc)), proposal(7, None)]);
    let l = ProposalRef;
    assert_eq!(l.find_resources(&c), vec![20, 20, 7]);
    let m = l.check("markdown-refs", &c).unwrap().unwrap();
    assert_eq!(
        titles(&m),
        vec![
            "references to proposals with a `category` of `ERC` must use a prefix of `ERC`".to_string(),
            "unable to read proposal `EIP-7`: not found".to_string(),
        ]
    );
    let s = &m[0].snippets[0];
    assert_eq!(s.source, "See EIP-20 and ERC-20, and EIP-7.");
    assert!(s.fold);
    assert_eq!(s.origin, None);
    assert_eq!(s.annotations.len(), 1);
    assert_eq!((s.annotations[0].start, s.annotations[0].end), (4, 10));
    let missing = md_ctx("---\neip: 1\n---\nSee EIP-9.\n", vec![]);
    assert!(l.check("markdown-refs", &missing).is_none());
}

#[test]
fn link_status_by_tier() {
    let draft = "---\neip: 5\nstatus: Draft\n---\n";
    let c = md_ctx(
        "---\neip: 1\nstatus: Final\n---\nSee [five](./eip-5.md) and [six](./eip-6.md).\n",
        vec![proposal(5, Some(draft)), proposal(6, None)],
    );
    let l = LinkStatus {
        status: String::from("status"),
        flow: vec![
            vec![String::from("Draft"), String::from("Stagnant")],
            vec![String::from("Review")],
            vec![String::from("Last Call")],
            vec![String::from("Final"), String::from("Withdrawn"), String::from("Living")],
        ],
        prefix: String::from("eip-"),
        suffix: String::from(".md"),
    };
    assert_eq!(l.find_resources(&c), vec![5, 6]);
    let m = l.check("markdown-link-status", &c).unwrap().unwrap();
    assert_eq!(
        titles(&m),
        vec![
            "proposal `eip-5.md` is not stable enough for a `status` of `Final`".to_string(),
            "unable to read file `eip-6.md`: not found".to_string(),
        ]
    );
    assert_eq!(m[0].footers[0].title, "because of this link, this proposal's `status` must be one of: `Draft`, `Stagnant`");
    assert_eq!(m[0].footers[0].level, Level::Help);
    assert_eq!(m[0].snippets[0].line_start, 5);
    let unread = md_ctx("---\neip: 1\n---\n[x](./eip-9.md)\n", vec![]);
    assert!(l.check("markdown-link-status", &unread).is_none());
}

#[test]
fn link_first_requires_link_before_mention() {
    let c = md_ctx(
        "---\neip: 3\n---\nEIP-1 then [EIP-1](./eip-1.md), [EIP-2](./eip-2.md) then EIP-2, and EIP-3.\n",
        vec![],
    );
    let l = LinkFirst(String::from("(?i)(?:eip|erc)-([0-9]+)"));
    let m = l.check("markdown-link-first", &c).unwrap().unwrap();
    assert_eq!(titles(&m), vec!["the first match of the given pattern must be a link".to_string()]);
    assert_eq!(m[0].footers[0].title, "the pattern in question: `(?i)(?:eip|erc)-([0-9]+)`");
    let a = &m[0].snippets[0].annotations[0];
    assert_eq!((a.start, a.end), (0, 5));
    let bad = LinkFirst(String::from("("));
    assert!(matches!(bad.lint("markdown-link-first", &c), Err(Error::Custom { .. })));
}

#[test]
fn relative_links_suggestions() {
    let c = md_ctx(
        "---\neip: 1\n---\n[a](https://eips.ethereum.org/EIPS/eip-7) [b](https://example.com/x) [c](./eip-2.md) [d](https://www.rfc-editor.org/rfc/rfc1)\n",
        vec![],
    );
    let l = RelativeLinks { exceptions: vec![String::from("^https://www\\.rfc-editor\\.org/rfc/.*$")] };
    let m = l.lint("markdown-rel-links", &c).unwrap();
    assert_eq!(titles(&m), vec!["non-relative link or image".to_string(); 2]);
    assert_eq!(m[0].footers[0].title, "use `./eip-7.md` instead");
    assert!(m[1].footers.is_empty());
    assert_eq!(m[0].snippets[0].annotations[0].label.as_deref(), Some("used here"));
    let styled = md_ctx("---\neip: 1\n---\n<p style=\"color: red\">x</p>\n", vec![]);
    match l.lint("markdown-rel-links", &styled) {
        Err(Error::Custom { message }) => assert_eq!(message, "Unsupported"),
        other => panic!("expected an error, got {:?}", other),
    }
    let html = md_ctx("---\neip: 1\n---\n<a href=\"/abs\">x</a>\n", vec![]);
    assert_eq!(l.lint("markdown-rel-links", &html).unwrap().len(), 1);
    let two = md_ctx("---\neip: 1\n---\n<a title=\"https://b.example\" href=\"https://a.example\">x</a>\n", vec![]);
    let m = l.lint("markdown-rel-links", &two).unwrap();
    assert_eq!(m.len(), 2);
    let by_id = md_ctx("---\neip: 1\n---\n<div id=\"STYLE\">x</div>\n", vec![]);
    assert!(l.lint("markdown-rel-links", &by_id).is_err());
}

#[test]
fn requires_must_be_mentioned() {
    let c = md_ctx("---\neip: 1\nrequires: 20, 30\n---\nBuilds on EIP-20.\n", vec![]);
    let m = RequiresRefBody { requires: String::from("requires") }.lint("markdown-requires-ref", &c).unwrap();
    assert_eq!(titles(&m), vec!["proposals EIP-30 must be mentioned in the body".to_string()]);
    let a = &m[0].snippets[0].annotations[0];
    assert_eq!((a.start, a.end), (10, 16));
    assert_eq!(a.label.as_deref(), Some("required here"));
    let all = md_ctx("---\neip: 1\nrequires: 20\n---\nBuilds on ERC-20.\n", vec![]);
    assert!(RequiresRefBody { requires: String::from("requires") }.lint("x", &all).unwrap().is_empty());
}

#[test]
fn require_referenced_marks_items() {
    let c = md_ctx("---\neip: 1\nrequires: 20, 30\n---\nBuilds on EIP-20.\n", vec![]);
    let m = RequireReferenced { requires: String::from("requires") }.lint("markdown-require-referenced", &c).unwrap();
    assert_eq!(
        titles(&m),
        vec!["proposals listed in preamble header `requires` must be referenced in the body".to_string()]
    );
    let a = &m[0].snippets[0].annotations;
    assert_eq!(a.len(), 1);
    assert_eq!((a[0].start, a[0].end), (14, 16));
    assert_eq!(a[0].label.as_deref(), Some("not referenced in body"));
}

#[test]
fn code_block_license() {
    let c = md_ctx(
        "---\neip: 1\n---\n```solidity\n// SPDX-License-Identifier: MIT\ncontract A {}\n```\n\n```solidity\n// SPDX-License-Identifier: CC0-1.0\n```\n",
        vec![],
    );
    let l = CodeBlockLicense { language: String::from("solidity"), license: String::from("CC0-1.0") };
    let m = l.lint("markdown-code-block-license", &c).unwrap();
    assert_eq!(titles(&m), vec!["code block of type `solidity` must use license `CC0-1.0`, not `MIT`".to_string()]);
    let s = &m[0].snippets[0];
    assert_eq!(s.line_start, 4);
    assert!(s.fold);
    assert_eq!(s.source, "```solidity\n// SPDX-License-Identifier: MIT\ncontract A {}\n```");
    assert_eq!((s.annotations[0].start, s.annotations[0].end), (0, s.source.len()));
}

#[test]
fn copyright_must_end_the_file() {
    let c = md_ctx(
        "---\neip: 1\n---\n## Copyright\n\nCopyright and related rights waived via [CC0](../LICENSE.md).\n\n## Later\n\ntext\n",
        vec![],
    );
    let m = Copyright.lint("markdown-copyright", &c);
    assert_eq!(titles(&m), vec!["copyright waiver must appear at the end of the file".to_string()]);
    assert_eq!(m[0].snippets[0].annotations[0].label.as_deref(), Some("move this waiver to the end"));
    let ok = md_ctx(
        "---\neip: 1\n---\n## Abstract\n\nx\n\n## Copyright\n\nCopyright and related rights waived via [CC0](../LICENSE.md).\n",
        vec![],
    );
    assert!(Copyright.lint("markdown-copyright", &ok).is_empty());
}

#[test]
fn section_text_must_be_last() {
    let l = SectionText { section: String::from("Copyright"), level: 2, exactly: String::from("All rights waived.") };
    assert_eq!(l.heading_line(), "## Copyright");
    let c = md_ctx("---\neip: 1\n---\n## Copyright\n\nAll rights waived.\n\nMore.\n", vec![]);
    let m = l.lint("markdown-section-text", &c);
    assert_eq!(titles(&m), vec!["the `Copyright` section must be the last content in the file".to_string()]);
    assert_eq!(
        m[0].footers[0].title,
        "end the file with `## Copyright` followed immediately by `All rights waived.`, with no other content after it"
    );
    let ok = md_ctx("---\neip: 1\n---\n## Copyright\n\n  All rights waived.  \n\n", vec![]);
    assert!(l.lint("markdown-section-text", &ok).is_empty());
}

fn first_source(source: &str, pred: fn(&NodeKind) -> bool) -> String {
    let c = md_ctx(source, vec![]);
    let n = c.body.iter().find(|n| pred(&n.value)).unwrap();
    c.ast_source(n)
}

fn is_link(v: &NodeKind) -> bool {
    matches!(v, NodeKind::Link { .. })
}

fn is_emph(v: &NodeKind) -> bool {
    matches!(v, NodeKind::Emph)
}

fn is_code_block(v: &NodeKind) -> bool {
    matches!(v, NodeKind::CodeBlock { .. })
}

#[test]
fn context_ast_source_inline_link_start() {
    let source = "---\neip: 1234\n---\n\n[hello](https://example.com) hello world";
    assert_eq!(first_source(source, is_link), "[hello](https://example.com)");
}

#[test]
fn context_ast_source_emphasis_unicode() {
    let source = "---\neip: 1234\n---\n\n*áemphá* hello world";
    assert_eq!(first_source(source, is_emph), "*áemphá*");
}

#[test]
fn context_ast_source_emphasis_start() {
    let source = "---\neip: 1234\n---\n\n*emphasis* hello world";
    assert_eq!(first_source(source, is_emph), "*emphasis*");
}

#[test]
fn context_ast_source_inline_link_mid() {
    let source = "---\neip: 1234\n---\n\nhello [hello](https://example.com) world";
    assert_eq!(first_source(source, is_link), "[hello](https://example.com)");
}

#[test]
fn context_ast_source_emphasis_mid() {
    let source = "---\neip: 1234\n---\n\nhello *emphasis* world";
    assert_eq!(first_source(source, is_emph), "*emphasis*");
}

#[test]
fn context_ast_source_code_block() {
    let source = "---\neip: 1234\n---\n\nhello\n\n```\nthis is a\nmultiline\ncode block\n```\n\nworld";
    let expected = "```\nthis is a\nmultiline\ncode block\n```";
    assert_eq!(first_source(source, is_code_block), expected);
}

#[test]
fn link_text_format_prefixes() {
    let c = md_ctx(
        "---\neip: 1\n---\n[EIP-1](https://eips.ethereum.org/EIPS/eip-1) [ERC-2](https://eips.ethereum.org/EIPS/eip-2) [ERC-3](https://ercs.ethereum.org/ERCS/erc-3) [three](https://ercs.ethereum.org/ERCS/erc-3) [x](./y.md)\n",
        vec![],
    );
    let m = LinkTextFormat.lint("markdown-link-text-format", &c).unwrap();
    assert_eq!(
        titles(&m),
        vec!["link text for EIP references must be in the format `EIP-N` or `ERC-N`".to_string(); 2]
    );
    assert_eq!(m[0].snippets[0].line_start, 4);
}

#[test]
fn prevent_urls_outside_links() {
    let c = md_ctx(
        "---\neip: 1\n---\nSee https://example.com/a and `http://test/x`, <https://example.org/b>, https://example.net/ok.\n",
        vec![],
    );
    let l = PreventUrlsNoBackticks { allowed_domains: vec![String::from("^example\\.net$")] };
    let m = l.lint("markdown-prevent-url", &c).unwrap();
    assert_eq!(titles(&m), vec!["Disallowed URL in plain text or code fence".to_string(); 3]);
    assert_eq!(m[0].footers[0].title, "This URL must be hyperlinked or from an allowed domain: `https://example.com/a`");
    assert_eq!(m[1].footers[0].title, "This URL must be hyperlinked or from an allowed domain: `http://test/x`");
    assert_eq!(m[2].footers[0].title, "This URL must be hyperlinked or from an allowed domain: `https://example.org/b`");
    let bad = PreventUrlsNoBackticks { allowed_domains: vec![String::from("(")] };
    assert!(bad.lint("x", &c).is_err());
}

#[test]
fn link_eip_text_must_name_proposal() {
    let c = md_ctx(
        "---\neip: 1\n---\n[EIP-1](./eip-1.md) and [the spec](./eip-2.md#some-section) and [EIP-3](./eip-4.md)\n",
        vec![],
    );
    let l = LinkEip(String::from("(eip)-([0-9]+)\\.md(#(.+))?$"));
    let m = l.lint("markdown-link-eip", &c).unwrap();
    assert_eq!(titles(&m), vec!["link text does not match link destination".to_string(); 2]);
    assert_eq!(m[0].footers[0].title, "use `[EIP2: Some section](./eip-2.md#some-section)` instead");
    assert_eq!(m[1].footers[0].title, "use `[EIP4](./eip-4.md)` instead");
    assert_eq!(m[0].footers[0].level, Level::Help);
}

#[test]
fn spell_reports_where_words_appear() {
    let c = md_ctx("---\neip: 1\n---\nThis has a mispeled word.\n", vec![]);
    let m = Mistake::new("mispeled").unwrap();
    assert_eq!(m.misspelling, "mispeled");
    assert!(!m.reported);
    let s = Spell { personal_dictionary: String::new() };
    let out = s.report("markdown-spell", &c, &vec![String::from("mispeled"), String::from("absent")]).unwrap();
    assert_eq!(
        titles(&out),
        vec!["the word `mispeled` is misspelled".to_string(), "the word `absent` is misspelled".to_string()]
    );
    let a = &out[0].snippets[0].annotations[0];
    assert_eq!((a.start, a.end), (11, 19));
    assert_eq!(a.label.as_deref(), Some("incorrectly spelled"));
    assert_eq!(out[1].footers[0].title, "could not find a line number for this message");
    assert_eq!(out[1].footers[0].level, Level::Warning);
    let flagged: Vec<String> = ["mispeled", "0x1f", "mispeled", "--", "absent"].iter().map(|w| w.to_string()).collect();
    let out = s.lint_flagged("markdown-spell", &c, &flagged).unwrap();
    assert_eq!(
        titles(&out),
        vec!["the word `mispeled` is misspelled".to_string(), "the word `absent` is misspelled".to_string()]
    );
}

#[test]
fn json_cite_unicode_panic() {
    let src = "---\neip: 3\n---\n\nSome text somewhere that needs a citation. [^1]\n\n[^1]:\n    ```csl-json\n    {\n      \"author\": [\n        {\n          \"family\": \"Mazières\"\n        }\n      ]\n    }\n    ```\n";
    let schema = "{\n    \"$schema\": \"http://json-schema.org/draft-07/schema#\",\n    \"type\": \"object\",\n    \"required\": [\"title\"],\n    \"properties\": {\n        \"title\": { \"type\": \"string\" }\n    }\n}";
    let c = md_ctx(src, vec![]);
    let l = JsonSchema {
        language: String::from("csl-json"),
        additional_schemas: vec![],
        schema: String::from(schema),
        help: String::from("see https://example.com/schema.json"),
    };
    let m = l.lint("markdown-json-cite", &c).unwrap();
    assert_eq!(titles(&m), vec!["code block of type `csl-json` does not conform to required schema".to_string()]);
    let s = &m[0].snippets[0];
    assert!(!s.annotations.is_empty());
    assert_eq!(s.annotations[0].end, s.source.len());
    assert_eq!(m[0].footers[0].title, "see https://example.com/schema.json");
}

#[test]
fn json_schema_invalid_json_and_bad_schema() {
    let c = md_ctx("---\neip: 1\n---\n```csl-json\n{ not json\n```\n", vec![]);
    let l = JsonSchema {
        language: String::from("csl-json"),
        additional_schemas: vec![],
        schema: String::from("{\"type\": \"object\"}"),
        help: String::from("help"),
    };
    let m = l.lint("markdown-json-cite", &c).unwrap();
    assert_eq!(titles(&m), vec!["code block of type `csl-json` does not contain valid JSON".to_string()]);
    assert!(m[0].snippets[0].annotations[0].label.is_some());
    let bad = JsonSchema { schema: String::from("{ nope"), ..l.clone() };
    assert!(bad.lint("markdown-json-cite", &c).is_err());
}

#[test]
fn readme_demo_orders() {
    let demo = "---\neip: 2\ndescription: A really short example of an EIP.\ntitle: Sample of an EIP\nauthor: Sam Wilson (@SamWilsn)\ndiscussions-to: https://example.com/\nstatus: Living\ntype: Meta\ncreated: 2022-06-30\n---\n\n## Specification\n\nImplementers of this EIP must...\n\n## Abstract\n\nThis is an abstract!\n";
    let c = md_ctx(demo, vec![]);
    let sections = eipw_lint::lints::markdown::SectionOrder(
        ["Abstract", "Motivation", "Specification", "Rationale", "Backwards Compatibility", "Test Cases", "Reference Implementation", "Security Considerations", "Copyright"]
            .iter()
            .map(|s| s.to_string())
            .collect(),
    );
    let m = sections.lint("markdown-order-section", &c);
    assert_eq!(titles(&m), vec!["section `Specification` must come after `Motivation`".to_string()]);
    assert!(m[0].footers.is_empty());
    assert_eq!(m[0].snippets[0].line_start, 12);
    let order = eipw_lint::lints::preamble::Order(
        ["eip", "title", "description", "author", "discussions-to", "status", "last-call-deadline", "type", "category", "created", "requires", "withdrawal-reason"]
            .iter()
            .map(|s| s.to_string())
            .collect(),
    );
    let m = order.lint("preamble-order", &c);
    assert_eq!(titles(&m), vec!["preamble header `description` must come after `title`".to_string()]);
    assert!(m[0].footers.is_empty());
    assert_eq!(m[0].snippets[0].line_start, 3);
}

#[test]
fn fetch_plan_dedups_and_refuses_text() {
    let c = md_ctx("---\neip: 1\n---\nSee EIP-20 and ERC-20, and EIP-7 and EIP-9.\n", vec![]);
    assert!(c.check_wf());
    let lints = vec![
        (String::from("a-first"), None, DefaultLint::MarkdownHeadingFirst(HeadingFirst)),
        (String::from("markdown-refs"), None, DefaultLint::MarkdownProposalRef(ProposalRef)),
    ];
    assert_eq!(plan_fetches(&lints, &c, false, &vec![]).unwrap(), vec![20, 7, 9]);
    assert_eq!(plan_fetches(&lints, &c, false, &vec![7]).unwrap(), vec![20, 9]);
    assert_eq!(plan_fetches(&lints, &c, true, &vec![]).unwrap_err(), "markdown-refs");
    assert!(plan_fetches(&lints[..1].to_vec(), &c, true, &vec![]).unwrap().is_empty());
}

#[test]
fn misspelled_words_filtered_once_each() {
    let words: Vec<String> = ["teh", "0xdeadbeef", "...", "teh", "wrld", "abc"].iter().map(|s| s.to_string()).collect();
    let kept = eipw_lint::lints::markdown::spell::misspelled(&words).unwrap();
    assert_eq!(kept, vec!["teh".to_string(), "wrld".to_string()]);
}
