//! The lints a configuration can name.

use vstd::prelude::*;

use crate::lints::markdown::{self, HeadingFirst, HeadingsSpace, HtmlComments, MarkdownRegex, NoBackticks, SectionOrder, SectionRequired};
use crate::lints::preamble::{
    Author, Date, FileName, Length, List, NoDuplicates, OneOf, Order, PreambleRegex, ProposalRef,
    RequireReferenced, Required, RequiredIfEq, RequiresStatus, Trim, Uint, UintList, Url,
};
use crate::lints::{result_view, Context, Error};
use crate::snippets::{Message, MessageView};

verus! {

/// A lint with its settings.
#[derive(Debug, Clone)]
pub enum DefaultLint {
    PreambleAuthor { name: Author },
    PreambleDate { name: Date },
    PreambleFileName(FileName),
    PreambleLength(Length),
    PreambleList { name: List },
    PreambleNoDuplicates(NoDuplicates),
    PreambleOneOf(OneOf),
    PreambleOrder { names: Order },
    PreambleProposalRef(ProposalRef),
    PreambleRegex(PreambleRegex),
    PreambleRequireReferenced(RequireReferenced),
    PreambleRequired { names: Required },
    PreambleRequiredIfEq(RequiredIfEq),
    PreambleRequiresStatus(RequiresStatus),
    PreambleTrim(Trim),
    PreambleUint { name: Uint },
    PreambleUintList { name: UintList },
    PreambleUrl { name: Url },
    MarkdownProposalRef(markdown::ProposalRef),
    MarkdownHtmlComments(HtmlComments),
    MarkdownJsonSchema(markdown::JsonSchema),
    MarkdownLinkFirst { pattern: markdown::LinkFirst },
    MarkdownNoBackticks { pattern: NoBackticks },
    MarkdownRegex(MarkdownRegex),
    MarkdownRelativeLinks(markdown::RelativeLinks),
    MarkdownLinkStatus(markdown::LinkStatus),
    MarkdownSectionOrder { sections: SectionOrder },
    MarkdownSectionRequired { sections: SectionRequired },
    MarkdownHeadingsSpace(HeadingsSpace),
    MarkdownHeadingFirst(HeadingFirst),
}

impl DefaultLint {
    /// What the lint needs of the proposal beyond a well-formed context:
    /// the proposals it reads were read, and (for the file name) the origin
    /// ends in a file name.
    pub open spec fn admits(&self, ctx: &Context) -> bool {
        match self {
            DefaultLint::PreambleFileName(l) => l.origin_has_file_name(ctx),
            DefaultLint::PreambleProposalRef(l) => l.admits(ctx),
            DefaultLint::PreambleRequireReferenced(l) => l.admits(ctx),
            DefaultLint::PreambleRequiresStatus(l) => l.admits(ctx),
            DefaultLint::MarkdownProposalRef(l) => l.admits(ctx),
            DefaultLint::MarkdownLinkStatus(l) => l.admits(ctx),
            DefaultLint::MarkdownLinkFirst { pattern } => pattern.admits(ctx),
            _ => true,
        }
    }

    /// What the lint gives for a proposal: its messages, or its error.
    pub open spec fn spec_lint(&self, slug: Seq<char>, ctx: &Context) -> Result<Seq<MessageView>, Seq<char>> {
        match self {
            DefaultLint::PreambleAuthor { name } => name.spec_lint(slug, ctx),
            DefaultLint::PreambleDate { name } => Ok(name.spec_lint(slug, ctx)),
            DefaultLint::PreambleFileName(l) => Ok(l.spec_lint(slug, ctx)),
            DefaultLint::PreambleLength(l) => Ok(l.spec_lint(slug, ctx)),
            DefaultLint::PreambleList { name } => Ok(name.spec_lint(slug, ctx)),
            DefaultLint::PreambleNoDuplicates(l) => Ok(l.spec_lint(slug, ctx)),
            DefaultLint::PreambleOneOf(l) => Ok(l.spec_lint(slug, ctx)),
            DefaultLint::PreambleOrder { names } => Ok(names.spec_lint(slug, ctx)),
            DefaultLint::PreambleProposalRef(l) => l.spec_lint(slug, ctx),
            DefaultLint::PreambleRegex(l) => l.spec_lint(slug, ctx),
            DefaultLint::PreambleRequireReferenced(l) => l.spec_lint(slug, ctx),
            DefaultLint::PreambleRequired { names } => Ok(names.spec_lint(slug, ctx)),
            DefaultLint::PreambleRequiredIfEq(l) => Ok(l.spec_lint(slug, ctx)),
            DefaultLint::PreambleRequiresStatus(l) => Ok(l.spec_lint(slug, ctx)),
            DefaultLint::PreambleTrim(l) => Ok(l.spec_lint(slug, ctx)),
            DefaultLint::PreambleUint { name } => Ok(name.spec_lint(slug, ctx)),
            DefaultLint::PreambleUintList { name } => Ok(name.spec_lint(slug, ctx)),
            DefaultLint::PreambleUrl { name } => Ok(name.spec_lint(slug, ctx)),
            DefaultLint::MarkdownProposalRef(l) => l.spec_lint(slug, ctx),
            DefaultLint::MarkdownHtmlComments(l) => Ok(l.spec_lint(slug, ctx)),
            DefaultLint::MarkdownJsonSchema(l) => l.spec_lint(slug, ctx),
            DefaultLint::MarkdownLinkFirst { pattern } => pattern.spec_lint(slug, ctx),
            DefaultLint::MarkdownNoBackticks { pattern } => pattern.spec_lint(slug, ctx),
            DefaultLint::MarkdownRegex(l) => l.spec_lint(slug, ctx),
            DefaultLint::MarkdownRelativeLinks(l) => l.spec_lint(slug, ctx),
            DefaultLint::MarkdownLinkStatus(l) => l.spec_lint(slug, ctx),
            DefaultLint::MarkdownSectionOrder { sections } => Ok(sections.spec_lint(slug, ctx)),
            DefaultLint::MarkdownSectionRequired { sections } => Ok(sections.spec_lint(slug, ctx)),
            DefaultLint::MarkdownHeadingsSpace(l) => l.spec_lint(slug, ctx),
            DefaultLint::MarkdownHeadingFirst(l) => Ok(l.spec_lint(slug, ctx)),
        }
    }

    /// Runs the lint on a proposal that it admits.
    pub fn lint(&self, slug: &str, ctx: &Context) -> (r: Result<Vec<Message>, Error>)
        requires
            ctx.wf(),
            ctx.body_wf(),
            self.admits(ctx),
        ensures
            result_view(r) == self.spec_lint(slug@, ctx),
    {
        match self {
            DefaultLint::PreambleAuthor { name } => name.lint(slug, ctx),
            DefaultLint::PreambleDate { name } => Ok(name.lint(slug, ctx)),
            DefaultLint::PreambleFileName(l) => Ok(l.lint(slug, ctx)),
            DefaultLint::PreambleLength(l) => Ok(l.lint(slug, ctx)),
            DefaultLint::PreambleList { name } => Ok(name.lint(slug, ctx)),
            DefaultLint::PreambleNoDuplicates(l) => Ok(l.lint(slug, ctx)),
            DefaultLint::PreambleOneOf(l) => Ok(l.lint(slug, ctx)),
            DefaultLint::PreambleOrder { names } => Ok(names.lint(slug, ctx)),
            DefaultLint::PreambleProposalRef(l) => l.lint(slug, ctx),
            DefaultLint::PreambleRegex(l) => l.lint(slug, ctx),
            DefaultLint::PreambleRequireReferenced(l) => l.lint(slug, ctx),
            DefaultLint::PreambleRequired { names } => Ok(names.lint(slug, ctx)),
            DefaultLint::PreambleRequiredIfEq(l) => Ok(l.lint(slug, ctx)),
            DefaultLint::PreambleRequiresStatus(l) => Ok(l.lint(slug, ctx)),
            DefaultLint::PreambleTrim(l) => Ok(l.lint(slug, ctx)),
            DefaultLint::PreambleUint { name } => Ok(name.lint(slug, ctx)),
            DefaultLint::PreambleUintList { name } => Ok(name.lint(slug, ctx)),
            DefaultLint::PreambleUrl { name } => Ok(name.lint(slug, ctx)),
            DefaultLint::MarkdownProposalRef(l) => l.lint(slug, ctx),
            DefaultLint::MarkdownHtmlComments(l) => Ok(l.lint(slug, ctx)),
            DefaultLint::MarkdownJsonSchema(l) => l.lint(slug, ctx),
            DefaultLint::MarkdownLinkFirst { pattern } => pattern.lint(slug, ctx),
            DefaultLint::MarkdownNoBackticks { pattern } => pattern.lint(slug, ctx),
            DefaultLint::MarkdownRegex(l) => l.lint(slug, ctx),
            DefaultLint::MarkdownRelativeLinks(l) => l.lint(slug, ctx),
            DefaultLint::MarkdownLinkStatus(l) => l.lint(slug, ctx),
            DefaultLint::MarkdownSectionOrder { sections } => Ok(sections.lint(slug, ctx)),
            DefaultLint::MarkdownSectionRequired { sections } => Ok(sections.lint(slug, ctx)),
            DefaultLint::MarkdownHeadingsSpace(l) => l.lint(slug, ctx),
            DefaultLint::MarkdownHeadingFirst(l) => Ok(l.lint(slug, ctx)),
        }
    }

    /// Runs the lint, or gives none when it does not admit the proposal.
    pub fn check(&self, slug: &str, ctx: &Context) -> (r: Option<Result<Vec<Message>, Error>>)
        requires
            ctx.wf(),
            ctx.body_wf(),
        ensures
            r is None <==> !self.admits(ctx),
            r matches Some(x) ==> result_view(x) == self.spec_lint(slug@, ctx),
    {
        match self {
            DefaultLint::PreambleFileName(l) => match l.lint_checked(slug, ctx) {
                Some(v) => Some(Ok(v)),
                None => None,
            },
            DefaultLint::PreambleProposalRef(l) => l.check(slug, ctx),
            DefaultLint::PreambleRequireReferenced(l) => l.check(slug, ctx),
            DefaultLint::PreambleRequiresStatus(l) => match l.check(slug, ctx) {
                Some(v) => Some(Ok(v)),
                None => None,
            },
            DefaultLint::MarkdownProposalRef(l) => l.check(slug, ctx),
            DefaultLint::MarkdownLinkStatus(l) => l.check(slug, ctx),
            DefaultLint::MarkdownLinkFirst { pattern } => pattern.check(slug, ctx),
            _ => Some(self.lint(slug, ctx)),
        }
    }

    /// The numbers of the proposals that the lint reads.
    pub open spec fn wants(&self, ctx: Context) -> Seq<nat> {
        match self {
            DefaultLint::PreambleRequiresStatus(l) => l.wanted(ctx.preamble@),
            DefaultLint::PreambleProposalRef(l) => l.wanted(&ctx),
            DefaultLint::MarkdownProposalRef(l) => l.wanted(&ctx),
            DefaultLint::MarkdownLinkStatus(l) => l.wanted(&ctx),
            _ => seq![],
        }
    }

    /// The numbers of the proposals the lint reads.
    pub fn find_resources(&self, ctx: &Context) -> (r: Vec<u32>)
        requires
            ctx.wf(),
        ensures
            r@.map_values(|n: u32| n as nat) == self.wants(*ctx),
    {
        match self {
            DefaultLint::PreambleRequiresStatus(l) => l.find_resources(ctx.preamble()),
            DefaultLint::PreambleProposalRef(l) => l.find_resources(ctx),
            DefaultLint::MarkdownProposalRef(l) => l.find_resources(ctx),
            DefaultLint::MarkdownLinkStatus(l) => l.find_resources(ctx),
            _ => Vec::new(),
        }
    }
}

} // verus!
