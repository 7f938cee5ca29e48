//! Configuration: which lints run with which settings, the modifiers, and
//! how other proposals are named.

use vstd::prelude::*;

use crate::lints::markdown::{self, HeadingFirst, HeadingsSpace, HtmlComments, MarkdownRegex, NoBackticks, SectionOrder, SectionRequired};
use crate::lints::preamble::{
    self, Author, Date, FileName, Length, List, Mode, NoDuplicates, OneOf, Order, PreambleRegex,
    ProposalRef, RequireReferenced, Required, RequiredIfEq, RequiresStatus, Trim, Uint, UintList,
    Url,
};
use crate::lints::preamble::requires_status::flow_view;
use crate::lints::{strings_view, DefaultLint};
use crate::modifiers::{sets_level, DefaultModifier, SetDefaultAnnotation};
use crate::snippets::Level;

verus! {

/// The value `true`.
#[derive(Debug, Clone, Copy, Default)]
pub struct True;

/// The error of reading `true` where `false` was wanted.
#[derive(Debug, Clone, Copy)]
pub struct TrueError;

/// The value `false`.
#[derive(Debug, Clone, Copy, Default)]
pub struct False;

/// The error of reading `false` where `true` was wanted (also the error
/// of reading `True` from `false`).
#[derive(Debug, Clone, Copy)]
pub struct FalseError;

impl True {
    /// Reads `True` from a boolean.
    pub fn try_from_bool(value: bool) -> (r: Result<True, FalseError>)
        ensures
            r is Ok <==> value,
    {
        if value {
            Ok(True)
        } else {
            Err(FalseError)
        }
    }

    pub fn to_bool(self) -> (r: bool)
        ensures
            r,
    {
        true
    }
}

impl False {
    /// Reads `False` from a boolean.
    pub fn try_from_bool(value: bool) -> (r: Result<False, FalseError>)
        ensures
            r is Ok <==> !value,
    {
        if value {
            Err(FalseError)
        } else {
            Ok(False)
        }
    }

    pub fn to_bool(self) -> (r: bool)
        ensures
            !r,
    {
        false
    }
}

/// How an override reads: a disabled lint (perhaps with settings), or an
/// enabled one with its settings.
#[derive(Debug, Clone)]
pub enum OverrideInner<T> {
    Disable { enabled: False, lint: Option<T> },
    Enable { enabled: True, lint: T },
}

/// A configuration's entry for a lint: disabled, or enabled with settings.
#[derive(Debug, Clone)]
pub struct Override<T>(pub OverrideInner<T>);

impl<T> Override<T> {
    /// The lint that the entry enables, if any.
    pub open spec fn lint_of(self) -> Option<T> {
        match self.0 {
            OverrideInner::Enable { lint, .. } => Some(lint),
            OverrideInner::Disable { .. } => None,
        }
    }

    /// An entry that disables a lint.
    pub fn disable() -> (r: Self)
        ensures
            r.lint_of() is None,
    {
        Override(OverrideInner::Disable { enabled: False, lint: None })
    }

    /// An entry that enables `lint`.
    pub fn enable(lint: T) -> (r: Self)
        ensures
            r.lint_of() == Some(lint),
    {
        Override(OverrideInner::Enable { enabled: True, lint })
    }

    /// The lint that the entry enables, if any.
    pub fn into_lint(self) -> (r: Option<T>)
        ensures
            r == self.lint_of(),
    {
        match self.0 {
            OverrideInner::Enable { lint, .. } => Some(lint),
            OverrideInner::Disable { .. } => None,
        }
    }
}

/// An entry that enables a lint gives that lint back; one that disables a
/// lint gives none, whether or not it holds settings.
pub proof fn law_override_round_trip<T>(lint: T, settings: Option<T>)
    ensures
        Override(OverrideInner::Enable { enabled: True, lint }).lint_of() == Some(lint),
        Override(OverrideInner::Disable { enabled: False, lint: settings }).lint_of() is None,
{
}

/// Under the default modifiers, the lints report warnings on a proposal
/// whose trimmed `status` is `Stagnant` or `Withdrawn`, and errors on any
/// other.
pub proof fn law_default_levels(mods: Seq<DefaultModifier>, preamble: Seq<crate::preamble::FieldView>)
    requires
        mods.len() == 2,
        sets_level(mods[0], "status"@, "Stagnant"@, Level::Warning),
        sets_level(mods[1], "status"@, "Withdrawn"@, Level::Warning),
    ensures
        crate::modifiers::modified_level(mods, preamble, Level::Error, 2) == match crate::preamble::find_field(
            preamble,
            "status"@,
        ) {
            Some(f) => if crate::text::trim(f.value) == "Stagnant"@ || crate::text::trim(f.value) == "Withdrawn"@ {
                Level::Warning
            } else {
                Level::Error
            },
            None => Level::Error,
        },
{
    let l1 = crate::modifiers::modified_level(mods, preamble, Level::Error, 1);
    assert(l1 == mods[0].spec_modify(preamble, crate::modifiers::modified_level(mods, preamble, Level::Error, 0)));
}

/// How the files of other proposals are named: `{}` stands for the number.
#[derive(Debug, Clone)]
pub struct FetchOptions {
    pub proposal_format: String,
}

impl Default for FetchOptions {
    fn default() -> (r: Self)
        ensures
            r.proposal_format@ == "eip-{}"@,
    {
        proof {
            reveal_strlit("eip-{}");
        }
        FetchOptions { proposal_format: String::from_str("eip-{}") }
    }
}

/// A configuration: the modifiers, the entries of the lints by slug (in
/// order, each slug once), and how other proposals are named.
#[derive(Debug, Clone)]
pub struct Options<M, L> {
    pub modifiers: Vec<M>,
    pub lints: Vec<(String, Override<L>)>,
    pub fetch: Option<FetchOptions>,
}

/// The enabled lints among the first `k` entries, in order.
pub open spec fn enabled<L>(entries: Seq<(String, Override<L>)>, k: int) -> Seq<(String, L)>
    decreases k,
{
    if k <= 0 {
        seq![]
    } else {
        let prev = enabled(entries, k - 1);
        match entries[k - 1].1.lint_of() {
            Some(l) => prev.push((entries[k - 1].0, l)),
            None => prev,
        }
    }
}

impl<M, L> Options<M, L> {
    /// The parts of the configuration: its modifiers, the lints that it
    /// enables with their slugs (in order), and its naming of proposals.
    pub fn to_iters(self) -> (r: (Vec<M>, Vec<(String, L)>, Option<FetchOptions>))
        ensures
            r.0@ == self.modifiers@,
            r.1@ == enabled(self.lints@, self.lints@.len() as int),
            r.2 == self.fetch,
    {
        let ghost entries = self.lints@;
        let modifiers = self.modifiers;
        let fetch = self.fetch;
        let total = self.lints.len();
        let mut lints = self.lints;
        let mut rev: Vec<(String, Override<L>)> = Vec::new();
        while lints.len() > 0
            invariant
                lints@.len() + rev@.len() == entries.len(),
                forall|k: int| 0 <= k < lints@.len() ==> #[trigger] lints@[k] == entries[k],
                forall|k: int| 0 <= k < rev@.len() ==> #[trigger] rev@[k] == entries[entries.len() - 1 - k],
            decreases lints@.len(),
        {
            let e = lints.pop().unwrap();
            rev.push(e);
        }
        let mut out: Vec<(String, L)> = Vec::new();
        let mut i: usize = 0;
        while rev.len() > 0
            invariant
                rev@.len() + i == entries.len(),
                entries.len() == total,
                forall|k: int| 0 <= k < rev@.len() ==> #[trigger] rev@[k] == entries[entries.len() - 1 - k],
                out@ == enabled(entries, i as int),
            decreases rev@.len(),
        {
            let (slug, o) = rev.pop().unwrap();
            assert((slug, o) == entries[i as int]);
            match o.into_lint() {
                Some(l) => out.push((slug, l)),
                None => {},
            }
            i += 1;
        }
        (modifiers, out, fetch)
    }
}

/// The slugs of the default lints, in order.
pub open spec fn default_slugs() -> Seq<Seq<char>> {
    seq![
        "preamble-no-dup"@,
        "preamble-trim"@,
        "preamble-eip"@,
        "preamble-author"@,
        "preamble-re-title"@,
        "preamble-re-title-colon"@,
        "preamble-refs-title"@,
        "preamble-refs-description"@,
        "preamble-re-title-erc-dash"@,
        "preamble-re-title-eip-dash"@,
        "preamble-re-description-erc-dash"@,
        "preamble-re-description-eip-dash"@,
        "preamble-re-description"@,
        "preamble-re-description-colon"@,
        "preamble-discussions-to"@,
        "preamble-re-discussions-to"@,
        "preamble-list-author"@,
        "preamble-list-requires"@,
        "preamble-len-requires"@,
        "preamble-uint-requires"@,
        "preamble-len-title"@,
        "preamble-len-description"@,
        "preamble-req"@,
        "preamble-order"@,
        "preamble-date-created"@,
        "preamble-req-last-call-deadline"@,
        "preamble-date-last-call-deadline"@,
        "preamble-req-category"@,
        "preamble-req-withdrawal-reason"@,
        "preamble-enum-status"@,
        "preamble-enum-type"@,
        "preamble-enum-category"@,
        "preamble-requires-status"@,
        "preamble-requires-ref-title"@,
        "preamble-requires-ref-description"@,
        "preamble-file-name"@,
        "markdown-refs"@,
        "markdown-html-comments"@,
        "markdown-req-section"@,
        "markdown-order-section"@,
        "markdown-re-erc-dash"@,
        "markdown-re-eip-dash"@,
        "markdown-link-first"@,
        "markdown-no-backticks"@,
        "markdown-rel-links"@,
        "markdown-link-status"@,
        "markdown-headings-space"@,
        "markdown-heading-first"@,
    ]
}

/// The headers that every proposal has.
pub open spec fn required_names() -> Seq<Seq<char>> {
    seq![
        "eip"@,
        "title"@,
        "description"@,
        "author"@,
        "discussions-to"@,
        "status"@,
        "type"@,
        "created"@,
    ]
}

/// The order of the headers.
pub open spec fn header_order() -> Seq<Seq<char>> {
    seq![
        "eip"@,
        "title"@,
        "description"@,
        "author"@,
        "discussions-to"@,
        "status"@,
        "last-call-deadline"@,
        "type"@,
        "category"@,
        "created"@,
        "requires"@,
        "withdrawal-reason"@,
    ]
}

/// The values of `status`.
pub open spec fn status_values() -> Seq<Seq<char>> {
    seq![
        "Draft"@,
        "Review"@,
        "Last Call"@,
        "Final"@,
        "Stagnant"@,
        "Withdrawn"@,
        "Living"@,
    ]
}

/// The values of `type`.
pub open spec fn type_values() -> Seq<Seq<char>> {
    seq![
        "Standards Track"@,
        "Meta"@,
        "Informational"@,
    ]
}

/// The values of `category`.
pub open spec fn category_values() -> Seq<Seq<char>> {
    seq![
        "Core"@,
        "Networking"@,
        "Interface"@,
        "ERC"@,
    ]
}

/// The `status` values under which HTML comments are warned of.
pub open spec fn comment_statuses() -> Seq<Seq<char>> {
    seq![
        "Draft"@,
        "Withdrawn"@,
    ]
}

/// The sections that every proposal has.
pub open spec fn required_sections() -> Seq<Seq<char>> {
    seq![
        "Abstract"@,
        "Specification"@,
        "Rationale"@,
        "Security Considerations"@,
        "Copyright"@,
    ]
}

/// The order of the sections.
pub open spec fn section_names_order() -> Seq<Seq<char>> {
    seq![
        "Abstract"@,
        "Motivation"@,
        "Specification"@,
        "Rationale"@,
        "Backwards Compatibility"@,
        "Test Cases"@,
        "Reference Implementation"@,
        "Security Considerations"@,
        "Copyright"@,
    ]
}

/// The patterns of the absolute links that are allowed.
pub open spec fn link_exceptions() -> Seq<Seq<char>> {
    seq![
        "^https://(www\\.)?github\\.com/ethereum/consensus-specs/blob/[a-f0-9]{40}/.+$"@,
        "^https://(www\\.)?github\\.com/ethereum/consensus-specs/commit/[a-f0-9]{40}$"@,
        "^https://(www\\.)?github\\.com/ethereum/devp2p/blob/[0-9a-f]{40}/.+$"@,
        "^https://(www\\.)?github\\.com/ethereum/devp2p/commit/[0-9a-f]{40}$"@,
        "^https://(www\\.)?github\\.com/bitcoin/bips/blob/[0-9a-f]{40}/bip-[0-9]+\\.mediawiki$"@,
        "^https://www\\.w3\\.org/TR/[0-9][0-9][0-9][0-9]/.*$"@,
        "^https://[a-z]*\\.spec\\.whatwg\\.org/commit-snapshots/[0-9a-f]{40}/$"@,
        "^https://www\\.rfc-editor\\.org/rfc/.*$"@,
    ]
}

/// The tiers of the `status` values, from least to most advanced.
pub open spec fn status_tiers() -> Seq<Seq<Seq<char>>> {
    seq![seq!["Draft"@, "Stagnant"@], seq!["Review"@], seq!["Last Call"@], seq!["Final"@, "Withdrawn"@, "Living"@]]
}

/// The settings of the default lints, entry by entry (their slugs are
/// `default_slugs`).
pub open spec fn default_settings(s: Seq<(String, DefaultLint)>) -> bool {
    &&& s.len() == 48
    &&& s[0].1 is PreambleNoDuplicates
    &&& s[1].1 is PreambleTrim
    &&& s[2].1 matches DefaultLint::PreambleUint { name } && name.0@ == "eip"@
    &&& s[3].1 matches DefaultLint::PreambleAuthor { name } && name.0@ == "author"@
    &&& s[4].1 matches DefaultLint::PreambleRegex(l) && l.name@ == "title"@ && l.mode == Mode::Excludes && l.pattern@ == "(?i)standar\\w*\\b"@ && l.message@ == "preamble header `title` should not contain `standard` (or similar words.)"@
    &&& s[5].1 matches DefaultLint::PreambleRegex(l) && l.name@ == "title"@ && l.mode == Mode::Excludes && l.pattern@ == ":"@ && l.message@ == "preamble header `title` should not contain `:`"@
    &&& s[6].1 matches DefaultLint::PreambleProposalRef(l) && l.0@ == "title"@
    &&& s[7].1 matches DefaultLint::PreambleProposalRef(l) && l.0@ == "description"@
    &&& s[8].1 matches DefaultLint::PreambleRegex(l) && l.name@ == "title"@ && l.mode == Mode::Excludes && l.pattern@ == "(?i)erc[\\s]*[0-9]+"@ && l.message@ == "proposals must be referenced with the form `ERC-N` (not `ERCN` or `ERC N`)"@
    &&& s[9].1 matches DefaultLint::PreambleRegex(l) && l.name@ == "title"@ && l.mode == Mode::Excludes && l.pattern@ == "(?i)eip[\\s]*[0-9]+"@ && l.message@ == "proposals must be referenced with the form `EIP-N` (not `EIPN` or `EIP N`)"@
    &&& s[10].1 matches DefaultLint::PreambleRegex(l) && l.name@ == "description"@ && l.mode == Mode::Excludes && l.pattern@ == "(?i)erc[\\s]*[0-9]+"@ && l.message@ == "proposals must be referenced with the form `ERC-N` (not `ERCN` or `ERC N`)"@
    &&& s[11].1 matches DefaultLint::PreambleRegex(l) && l.name@ == "description"@ && l.mode == Mode::Excludes && l.pattern@ == "(?i)eip[\\s]*[0-9]+"@ && l.message@ == "proposals must be referenced with the form `EIP-N` (not `EIPN` or `EIP N`)"@
    &&& s[12].1 matches DefaultLint::PreambleRegex(l) && l.name@ == "description"@ && l.mode == Mode::Excludes && l.pattern@ == "(?i)standar\\w*\\b"@ && l.message@ == "preamble header `description` should not contain `standard` (or similar words.)"@
    &&& s[13].1 matches DefaultLint::PreambleRegex(l) && l.name@ == "description"@ && l.mode == Mode::Excludes && l.pattern@ == ":"@ && l.message@ == "preamble header `description` should not contain `:`"@
    &&& s[14].1 matches DefaultLint::PreambleUrl { name } && name.0@ == "discussions-to"@
    &&& s[15].1 matches DefaultLint::PreambleRegex(l) && l.name@ == "discussions-to"@ && l.mode == Mode::Includes && l.pattern@ == "^https://ethereum-magicians.org/t/[^/]+/[0-9]+$"@ && l.message@ == "preamble header `discussions-to` should point to a thread on ethereum-magicians.org"@
    &&& s[16].1 matches DefaultLint::PreambleList { name } && name.0@ == "author"@
    &&& s[17].1 matches DefaultLint::PreambleList { name } && name.0@ == "requires"@
    &&& s[18].1 matches DefaultLint::PreambleLength(l) && l.name@ == "requires"@ && l.min == Some(1usize) && l.max is None
    &&& s[19].1 matches DefaultLint::PreambleUintList { name } && name.0@ == "requires"@
    &&& s[20].1 matches DefaultLint::PreambleLength(l) && l.name@ == "title"@ && l.min == Some(2usize) && l.max == Some(44usize)
    &&& s[21].1 matches DefaultLint::PreambleLength(l) && l.name@ == "description"@ && l.min == Some(2usize) && l.max == Some(140usize)
    &&& s[22].1 matches DefaultLint::PreambleRequired { names } && strings_view(names.0@) == required_names()
    &&& s[23].1 matches DefaultLint::PreambleOrder { names } && strings_view(names.0@) == header_order()
    &&& s[24].1 matches DefaultLint::PreambleDate { name } && name.0@ == "created"@
    &&& s[25].1 matches DefaultLint::PreambleRequiredIfEq(l) && l.when@ == "status"@ && l.equals@ == "Last Call"@ && l.then_name@ == "last-call-deadline"@
    &&& s[26].1 matches DefaultLint::PreambleDate { name } && name.0@ == "last-call-deadline"@
    &&& s[27].1 matches DefaultLint::PreambleRequiredIfEq(l) && l.when@ == "type"@ && l.equals@ == "Standards Track"@ && l.then_name@ == "category"@
    &&& s[28].1 matches DefaultLint::PreambleRequiredIfEq(l) && l.when@ == "status"@ && l.equals@ == "Withdrawn"@ && l.then_name@ == "withdrawal-reason"@
    &&& s[29].1 matches DefaultLint::PreambleOneOf(l) && l.name@ == "status"@ && strings_view(l.values@) == status_values()
    &&& s[30].1 matches DefaultLint::PreambleOneOf(l) && l.name@ == "type"@ && strings_view(l.values@) == type_values()
    &&& s[31].1 matches DefaultLint::PreambleOneOf(l) && l.name@ == "category"@ && strings_view(l.values@) == category_values()
    &&& s[32].1 matches DefaultLint::PreambleRequiresStatus(l) && l.requires@ == "requires"@ && l.status@ == "status"@ && flow_view(l.flow@) == status_tiers()
    &&& s[33].1 matches DefaultLint::PreambleRequireReferenced(l) && l.name@ == "title"@ && l.requires@ == "requires"@
    &&& s[34].1 matches DefaultLint::PreambleRequireReferenced(l) && l.name@ == "description"@ && l.requires@ == "requires"@
    &&& s[35].1 matches DefaultLint::PreambleFileName(l) && l.name@ == "eip"@ && l.prefix@ == "eip-"@ && l.suffix@ == ".md"@
    &&& s[36].1 is MarkdownProposalRef
    &&& s[37].1 matches DefaultLint::MarkdownHtmlComments(l) && l.name@ == "status"@ && strings_view(l.warn_for@) == comment_statuses()
    &&& s[38].1 matches DefaultLint::MarkdownSectionRequired { sections } && strings_view(sections.0@) == required_sections()
    &&& s[39].1 matches DefaultLint::MarkdownSectionOrder { sections } && strings_view(sections.0@) == section_names_order()
    &&& s[40].1 matches DefaultLint::MarkdownRegex(l) && l.mode == markdown::Mode::Excludes && l.pattern@ == "(?i)erc[\\s]*[0-9]+"@ && l.message@ == "proposals must be referenced with the form `ERC-N` (not `ERCN` or `ERC N`)"@
    &&& s[41].1 matches DefaultLint::MarkdownRegex(l) && l.mode == markdown::Mode::Excludes && l.pattern@ == "(?i)eip[\\s]*[0-9]+"@ && l.message@ == "proposals must be referenced with the form `EIP-N` (not `EIPN` or `EIP N`)"@
    &&& s[42].1 matches DefaultLint::MarkdownLinkFirst { pattern } && pattern.0@ == "(?i)(?:eip|erc)-([0-9]+)"@
    &&& s[43].1 matches DefaultLint::MarkdownNoBackticks { pattern } && pattern.0@ == "(?i)(eip|erc)-[0-9]+"@
    &&& s[44].1 matches DefaultLint::MarkdownRelativeLinks(l) && strings_view(l.exceptions@) == link_exceptions()
    &&& s[45].1 matches DefaultLint::MarkdownLinkStatus(l) && l.status@ == "status"@ && flow_view(l.flow@) == status_tiers() && l.prefix@ == "eip-"@ && l.suffix@ == ".md"@
    &&& s[46].1 is MarkdownHeadingsSpace
    &&& s[47].1 is MarkdownHeadingFirst
}

fn st(s: &str) -> (r: String)
    ensures
        r@ == s@,
{
    String::from_str(s)
}

fn preamble_regex(name: &str, mode: Mode, pattern: &str, message: &str) -> (r: DefaultLint)
    ensures
        r matches DefaultLint::PreambleRegex(l) && l.name@ == name@ && l.mode == mode && l.pattern@ == pattern@
            && l.message@ == message@,
{
    DefaultLint::PreambleRegex(PreambleRegex { name: st(name), mode, pattern: st(pattern), message: st(message) })
}

/// The tiers of the `status` values, from least to most advanced.
fn status_flow() -> (r: Vec<Vec<String>>)
    ensures
        flow_view(r@) == status_tiers(),
{
    let r = vec![
        vec![st("Draft"), st("Stagnant")],
        vec![st("Review")],
        vec![st("Last Call")],
        vec![st("Final"), st("Withdrawn"), st("Living")],
    ];
    assert(strings_view(r@[0]@) =~= status_tiers()[0]);
    assert(strings_view(r@[1]@) =~= status_tiers()[1]);
    assert(strings_view(r@[2]@) =~= status_tiers()[2]);
    assert(strings_view(r@[3]@) =~= status_tiers()[3]);
    assert(flow_view(r@) =~= status_tiers());
    r
}

/// The headers that every proposal has.
fn required_names_vec() -> (r: Vec<String>)
    ensures
        strings_view(r@) == required_names(),
{
    let r = vec![
        st("eip"),
        st("title"),
        st("description"),
        st("author"),
        st("discussions-to"),
        st("status"),
        st("type"),
        st("created"),
    ];
    assert(strings_view(r@) =~= required_names());
    r
}

/// The order of the headers.
fn header_order_vec() -> (r: Vec<String>)
    ensures
        strings_view(r@) == header_order(),
{
    let r = vec![
        st("eip"),
        st("title"),
        st("description"),
        st("author"),
        st("discussions-to"),
        st("status"),
        st("last-call-deadline"),
        st("type"),
        st("category"),
        st("created"),
        st("requires"),
        st("withdrawal-reason"),
    ];
    assert(strings_view(r@) =~= header_order());
    r
}

/// The values of `status`.
fn status_values_vec() -> (r: Vec<String>)
    ensures
        strings_view(r@) == status_values(),
{
    let r = vec![
        st("Draft"),
        st("Review"),
        st("Last Call"),
        st("Final"),
        st("Stagnant"),
        st("Withdrawn"),
        st("Living"),
    ];
    assert(strings_view(r@) =~= status_values());
    r
}

/// The values of `type`.
fn type_values_vec() -> (r: Vec<String>)
    ensures
        strings_view(r@) == type_values(),
{
    let r = vec![
        st("Standards Track"),
        st("Meta"),
        st("Informational"),
    ];
    assert(strings_view(r@) =~= type_values());
    r
}

/// The values of `category`.
fn category_values_vec() -> (r: Vec<String>)
    ensures
        strings_view(r@) == category_values(),
{
    let r = vec![
        st("Core"),
        st("Networking"),
        st("Interface"),
        st("ERC"),
    ];
    assert(strings_view(r@) =~= category_values());
    r
}

/// The `status` values under which HTML comments are warned of.
fn comment_statuses_vec() -> (r: Vec<String>)
    ensures
        strings_view(r@) == comment_statuses(),
{
    let r = vec![
        st("Draft"),
        st("Withdrawn"),
    ];
    assert(strings_view(r@) =~= comment_statuses());
    r
}

/// The sections that every proposal has.
fn required_sections_vec() -> (r: Vec<String>)
    ensures
        strings_view(r@) == required_sections(),
{
    let r = vec![
        st("Abstract"),
        st("Specification"),
        st("Rationale"),
        st("Security Considerations"),
        st("Copyright"),
    ];
    assert(strings_view(r@) =~= required_sections());
    r
}

/// The order of the sections.
fn section_names_order_vec() -> (r: Vec<String>)
    ensures
        strings_view(r@) == section_names_order(),
{
    let r = vec![
        st("Abstract"),
        st("Motivation"),
        st("Specification"),
        st("Rationale"),
        st("Backwards Compatibility"),
        st("Test Cases"),
        st("Reference Implementation"),
        st("Security Considerations"),
        st("Copyright"),
    ];
    assert(strings_view(r@) =~= section_names_order());
    r
}

/// The patterns of the absolute links that are allowed.
fn link_exceptions_vec() -> (r: Vec<String>)
    ensures
        strings_view(r@) == link_exceptions(),
{
    let r = vec![
        st("^https://(www\\.)?github\\.com/ethereum/consensus-specs/blob/[a-f0-9]{40}/.+$"),
        st("^https://(www\\.)?github\\.com/ethereum/consensus-specs/commit/[a-f0-9]{40}$"),
        st("^https://(www\\.)?github\\.com/ethereum/devp2p/blob/[0-9a-f]{40}/.+$"),
        st("^https://(www\\.)?github\\.com/ethereum/devp2p/commit/[0-9a-f]{40}$"),
        st("^https://(www\\.)?github\\.com/bitcoin/bips/blob/[0-9a-f]{40}/bip-[0-9]+\\.mediawiki$"),
        st("^https://www\\.w3\\.org/TR/[0-9][0-9][0-9][0-9]/.*$"),
        st("^https://[a-z]*\\.spec\\.whatwg\\.org/commit-snapshots/[0-9a-f]{40}/$"),
        st("^https://www\\.rfc-editor\\.org/rfc/.*$"),
    ];
    assert(strings_view(r@) =~= link_exceptions());
    r
}


/// The default lints: their slugs and settings, in order.
///
/// The JSON-citation lint (`markdown-json-cite`, a `MarkdownJsonSchema` over
/// `csl-json` code blocks) is not among them: it validates against the
/// CSL citation schemas (`citation.json` and `csl-data.json`), whose texts
/// this library does not hold. A configuration can add it with those
/// schemas (`JsonSchema`).
pub fn default_lints() -> (r: Vec<(String, DefaultLint)>)
    ensures
        r@.map_values(|e: (String, DefaultLint)| e.0@) == default_slugs(),
        default_settings(r@),
{
    let flow = status_flow();
    let r = vec![
        (st("preamble-no-dup"), DefaultLint::PreambleNoDuplicates(NoDuplicates)),
        (st("preamble-trim"), DefaultLint::PreambleTrim(Trim)),
        (st("preamble-eip"), DefaultLint::PreambleUint { name: Uint(st("eip")) }),
        (st("preamble-author"), DefaultLint::PreambleAuthor { name: Author(st("author")) }),
        (st("preamble-re-title"), preamble_regex("title", Mode::Excludes, "(?i)standar\\w*\\b", "preamble header `title` should not contain `standard` (or similar words.)")),
        (st("preamble-re-title-colon"), preamble_regex("title", Mode::Excludes, ":", "preamble header `title` should not contain `:`")),
        (st("preamble-refs-title"), DefaultLint::PreambleProposalRef(ProposalRef(st("title")))),
        (st("preamble-refs-description"), DefaultLint::PreambleProposalRef(ProposalRef(st("description")))),
        (st("preamble-re-title-erc-dash"), preamble_regex("title", Mode::Excludes, "(?i)erc[\\s]*[0-9]+", "proposals must be referenced with the form `ERC-N` (not `ERCN` or `ERC N`)")),
        (st("preamble-re-title-eip-dash"), preamble_regex("title", Mode::Excludes, "(?i)eip[\\s]*[0-9]+", "proposals must be referenced with the form `EIP-N` (not `EIPN` or `EIP N`)")),
        (st("preamble-re-description-erc-dash"), preamble_regex("description", Mode::Excludes, "(?i)erc[\\s]*[0-9]+", "proposals must be referenced with the form `ERC-N` (not `ERCN` or `ERC N`)")),
        (st("preamble-re-description-eip-dash"), preamble_regex("description", Mode::Excludes, "(?i)eip[\\s]*[0-9]+", "proposals must be referenced with the form `EIP-N` (not `EIPN` or `EIP N`)")),
        (st("preamble-re-description"), preamble_regex("description", Mode::Excludes, "(?i)standar\\w*\\b", "preamble header `description` should not contain `standard` (or similar words.)")),
        (st("preamble-re-description-colon"), preamble_regex("description", Mode::Excludes, ":", "preamble header `description` should not contain `:`")),
        (st("preamble-discussions-to"), DefaultLint::PreambleUrl { name: Url(st("discussions-to")) }),
        (st("preamble-re-discussions-to"), preamble_regex("discussions-to", Mode::Includes, "^https://ethereum-magicians.org/t/[^/]+/[0-9]+$", "preamble header `discussions-to` should point to a thread on ethereum-magicians.org")),
        (st("preamble-list-author"), DefaultLint::PreambleList { name: List(st("author")) }),
        (st("preamble-list-requires"), DefaultLint::PreambleList { name: List(st("requires")) }),
        (st("preamble-len-requires"), DefaultLint::PreambleLength(Length { name: st("requires"), min: Some(1), max: None })),
        (st("preamble-uint-requires"), DefaultLint::PreambleUintList { name: UintList(st("requires")) }),
        (st("preamble-len-title"), DefaultLint::PreambleLength(Length { name: st("title"), min: Some(2), max: Some(44) })),
        (st("preamble-len-description"), DefaultLint::PreambleLength(Length { name: st("description"), min: Some(2), max: Some(140) })),
        (st("preamble-req"), DefaultLint::PreambleRequired { names: Required(required_names_vec()) }),
        (st("preamble-order"), DefaultLint::PreambleOrder { names: Order(header_order_vec()) }),
        (st("preamble-date-created"), DefaultLint::PreambleDate { name: Date(st("created")) }),
        (st("preamble-req-last-call-deadline"), DefaultLint::PreambleRequiredIfEq(RequiredIfEq { when: st("status"), equals: st("Last Call"), then_name: st("last-call-deadline") })),
        (st("preamble-date-last-call-deadline"), DefaultLint::PreambleDate { name: Date(st("last-call-deadline")) }),
        (st("preamble-req-category"), DefaultLint::PreambleRequiredIfEq(RequiredIfEq { when: st("type"), equals: st("Standards Track"), then_name: st("category") })),
        (st("preamble-req-withdrawal-reason"), DefaultLint::PreambleRequiredIfEq(RequiredIfEq { when: st("status"), equals: st("Withdrawn"), then_name: st("withdrawal-reason") })),
        (st("preamble-enum-status"), DefaultLint::PreambleOneOf(OneOf { name: st("status"), values: status_values_vec() })),
        (st("preamble-enum-type"), DefaultLint::PreambleOneOf(OneOf { name: st("type"), values: type_values_vec() })),
        (st("preamble-enum-category"), DefaultLint::PreambleOneOf(OneOf { name: st("category"), values: category_values_vec() })),
        (st("preamble-requires-status"), DefaultLint::PreambleRequiresStatus(RequiresStatus { requires: st("requires"), status: st("status"), flow })),
        (st("preamble-requires-ref-title"), DefaultLint::PreambleRequireReferenced(RequireReferenced { name: st("title"), requires: st("requires") })),
        (st("preamble-requires-ref-description"), DefaultLint::PreambleRequireReferenced(RequireReferenced { name: st("description"), requires: st("requires") })),
        (st("preamble-file-name"), DefaultLint::PreambleFileName(FileName { name: st("eip"), prefix: st("eip-"), suffix: st(".md") })),
        (st("markdown-refs"), DefaultLint::MarkdownProposalRef(markdown::ProposalRef)),
        (st("markdown-html-comments"), DefaultLint::MarkdownHtmlComments(HtmlComments { name: st("status"), warn_for: comment_statuses_vec() })),
        (st("markdown-req-section"), DefaultLint::MarkdownSectionRequired { sections: SectionRequired(required_sections_vec()) }),
        (st("markdown-order-section"), DefaultLint::MarkdownSectionOrder { sections: SectionOrder(section_names_order_vec()) }),
        (st("markdown-re-erc-dash"), DefaultLint::MarkdownRegex(MarkdownRegex { mode: markdown::Mode::Excludes, pattern: st("(?i)erc[\\s]*[0-9]+"), message: st("proposals must be referenced with the form `ERC-N` (not `ERCN` or `ERC N`)") })),
        (st("markdown-re-eip-dash"), DefaultLint::MarkdownRegex(MarkdownRegex { mode: markdown::Mode::Excludes, pattern: st("(?i)eip[\\s]*[0-9]+"), message: st("proposals must be referenced with the form `EIP-N` (not `EIPN` or `EIP N`)") })),
        (st("markdown-link-first"), DefaultLint::MarkdownLinkFirst { pattern: markdown::LinkFirst(st("(?i)(?:eip|erc)-([0-9]+)")) }),
        (st("markdown-no-backticks"), DefaultLint::MarkdownNoBackticks { pattern: NoBackticks(st("(?i)(eip|erc)-[0-9]+")) }),
        (
            st("markdown-rel-links"),
            DefaultLint::MarkdownRelativeLinks(markdown::RelativeLinks { exceptions: link_exceptions_vec() }),
        ),
        (
            st("markdown-link-status"),
            DefaultLint::MarkdownLinkStatus(markdown::LinkStatus { status: st("status"), flow: status_flow(), prefix: st("eip-"), suffix: st(".md") }),
        ),
        (st("markdown-headings-space"), DefaultLint::MarkdownHeadingsSpace(HeadingsSpace)),
        (st("markdown-heading-first"), DefaultLint::MarkdownHeadingFirst(HeadingFirst)),
    ];
    proof {
        reveal_strlit("preamble-no-dup");
        reveal_strlit("preamble-trim");
        reveal_strlit("preamble-eip");
        reveal_strlit("preamble-author");
        reveal_strlit("preamble-re-title");
        reveal_strlit("preamble-re-title-colon");
        reveal_strlit("preamble-refs-title");
        reveal_strlit("preamble-refs-description");
        reveal_strlit("preamble-re-title-erc-dash");
        reveal_strlit("preamble-re-title-eip-dash");
        reveal_strlit("preamble-re-description-erc-dash");
        reveal_strlit("preamble-re-description-eip-dash");
        reveal_strlit("preamble-re-description");
        reveal_strlit("preamble-re-description-colon");
        reveal_strlit("preamble-discussions-to");
        reveal_strlit("preamble-re-discussions-to");
        reveal_strlit("preamble-list-author");
        reveal_strlit("preamble-list-requires");
        reveal_strlit("preamble-len-requires");
        reveal_strlit("preamble-uint-requires");
        reveal_strlit("preamble-len-title");
        reveal_strlit("preamble-len-description");
        reveal_strlit("preamble-req");
        reveal_strlit("preamble-order");
        reveal_strlit("preamble-date-created");
        reveal_strlit("preamble-req-last-call-deadline");
        reveal_strlit("preamble-date-last-call-deadline");
        reveal_strlit("preamble-req-category");
        reveal_strlit("preamble-req-withdrawal-reason");
        reveal_strlit("preamble-enum-status");
        reveal_strlit("preamble-enum-type");
        reveal_strlit("preamble-enum-category");
        reveal_strlit("preamble-requires-status");
        reveal_strlit("preamble-requires-ref-title");
        reveal_strlit("preamble-requires-ref-description");
        reveal_strlit("preamble-file-name");
        reveal_strlit("markdown-refs");
        reveal_strlit("markdown-html-comments");
        reveal_strlit("markdown-req-section");
        reveal_strlit("markdown-order-section");
        reveal_strlit("markdown-re-erc-dash");
        reveal_strlit("markdown-re-eip-dash");
        reveal_strlit("markdown-link-first");
        reveal_strlit("markdown-no-backticks");
        reveal_strlit("markdown-rel-links");
        reveal_strlit("markdown-link-status");
        reveal_strlit("markdown-headings-space");
        reveal_strlit("markdown-heading-first");
        assert(r@.map_values(|e: (String, DefaultLint)| e.0@) =~= default_slugs());
    }
    r
}

/// Each default lint, enabled.
pub open spec fn enable_all(l: Seq<(String, DefaultLint)>) -> Seq<(String, Override<DefaultLint>)> {
    l.map_values(|e: (String, DefaultLint)| (e.0, Override { 0: OverrideInner::Enable { enabled: True, lint: e.1 } }))
}

/// Entries that each enable a given lint enable exactly the given lints.
proof fn lemma_enabled_given<L>(entries: Seq<(String, Override<L>)>, given: Seq<(String, L)>, k: int)
    requires
        0 <= k <= entries.len(),
        k <= given.len(),
        forall|i: int|
            0 <= i < k ==> (#[trigger] entries[i]).0 == given[i].0 && entries[i].1.lint_of() == Some(given[i].1),
    ensures
        enabled(entries, k) == given.take(k),
    decreases k,
{
    if k > 0 {
        lemma_enabled_given(entries, given, k - 1);
        assert(entries[k - 1].0 == given[k - 1].0);
        assert(given.take(k) =~= given.take(k - 1).push(given[k - 1]));
    } else {
        assert(given.take(0) =~= Seq::<(String, L)>::empty());
    }
}

impl Default for Options<DefaultModifier, DefaultLint> {
    /// The default modifiers, every default lint enabled, and the default
    /// naming of proposals.
    fn default() -> (r: Self)
        ensures
            are_default_modifiers(r.modifiers@),
            r.lints@.map_values(|e: (String, Override<DefaultLint>)| e.0@) == default_slugs(),
            forall|i: int| 0 <= i < r.lints@.len() ==> (#[trigger] r.lints@[i]).1.lint_of() is Some,
            default_settings(enabled(r.lints@, r.lints@.len() as int)),
            r.fetch matches Some(f) && f.proposal_format@ == "eip-{}"@,
    {
        let lints = default_lints();
        let ghost slugs = lints@.map_values(|e: (String, DefaultLint)| e.0@);
        let mut entries: Vec<(String, Override<DefaultLint>)> = Vec::new();
        let mut rev: Vec<(String, DefaultLint)> = Vec::new();
        let ghost all = lints@;
        let total = lints.len();
        let mut lints = lints;
        while lints.len() > 0
            invariant
                lints@.len() + rev@.len() == all.len(),
                forall|k: int| 0 <= k < lints@.len() ==> #[trigger] lints@[k] == all[k],
                forall|k: int| 0 <= k < rev@.len() ==> #[trigger] rev@[k] == all[all.len() - 1 - k],
            decreases lints@.len(),
        {
            let e = lints.pop().unwrap();
            rev.push(e);
        }
        let mut i: usize = 0;
        while rev.len() > 0
            invariant
                rev@.len() + i == all.len(),
                all.len() == total,
                forall|k: int| 0 <= k < rev@.len() ==> #[trigger] rev@[k] == all[all.len() - 1 - k],
                entries@.len() == i,
                forall|k: int| 0 <= k < i ==> (#[trigger] entries@[k]).0 == all[k].0 && entries@[k].1.lint_of() == Some(all[k].1),
            decreases rev@.len(),
        {
            let (slug, l) = rev.pop().unwrap();
            entries.push((slug, Override::enable(l)));
            i += 1;
        }
        assert(entries@.map_values(|e: (String, Override<DefaultLint>)| e.0@) =~= slugs);
        proof {
            lemma_enabled_given(entries@, all, all.len() as int);
            assert(all.take(all.len() as int) =~= all);
        }
        Options { modifiers: default_modifiers(), lints: entries, fetch: Some(FetchOptions::default()) }
    }
}

/// The default modifiers: reports on proposals whose `status` is
/// `Stagnant`, then those whose `status` is `Withdrawn`, are warnings.
pub open spec fn are_default_modifiers(m: Seq<DefaultModifier>) -> bool {
    &&& m.len() == 2
    &&& sets_level(m[0], "status"@, "Stagnant"@, Level::Warning)
    &&& sets_level(m[1], "status"@, "Withdrawn"@, Level::Warning)
}

/// The modifiers in effect without configuration: reports on proposals
/// whose `status` is `Stagnant` or `Withdrawn` are warnings.
pub fn default_modifiers() -> (r: Vec<DefaultModifier>)
    ensures
        are_default_modifiers(r@),
{
    let mut r = Vec::new();
    r.push(DefaultModifier::SetDefaultAnnotation(SetDefaultAnnotation {
        name: String::from_str("status"),
        value: String::from_str("Stagnant"),
        annotation_level: Level::Warning,
    }));
    r.push(DefaultModifier::SetDefaultAnnotation(SetDefaultAnnotation {
        name: String::from_str("status"),
        value: String::from_str("Withdrawn"),
        annotation_level: Level::Warning,
    }));
    proof {
        reveal_strlit("status");
        reveal_strlit("Stagnant");
        reveal_strlit("Withdrawn");
    }
    r
}

} // verus!
