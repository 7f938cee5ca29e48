//! The linter's configuration: the lints by slug (each with an optional
//! level), the modifiers, the proposals to check, and how other proposals
//! are named.

use vstd::prelude::*;

use crate::collate::{lemma_str_lt_total, lemma_str_lt_transitive, str_less, str_lt, strictly_sorted};
use crate::config::{enabled, FetchOptions, Options, Override};
use crate::lints::DefaultLint;
use crate::linter::ConfiguredLint;
use crate::modifiers::DefaultModifier;
use crate::snippets::{opt_view, Level};

verus! {

/// A proposal to check: a text (with where it came from, if known), or a
/// file to read.
#[derive(Debug)]
pub enum Source {
    Slice { origin: Option<String>, src: String },
    File(String),
}

impl Source {
    pub open spec fn origin_spec(&self) -> Option<Seq<char>> {
        match self {
            Source::Slice { origin, .. } => opt_view(*origin),
            Source::File(path) => Some(path@),
        }
    }

    /// Where the proposal comes from: the file, or the text's origin.
    pub fn origin(&self) -> (r: Option<&str>)
        ensures
            match r {
                Some(s) => self.origin_spec() == Some(s@),
                None => self.origin_spec() is None,
            },
    {
        match self {
            Source::Slice { origin: Some(s), .. } => Some(s.as_str()),
            Source::File(p) => Some(p.as_str()),
            _ => None,
        }
    }

    /// Whether the proposal is a text rather than a file.
    pub fn is_string(&self) -> (r: bool)
        ensures
            r == (self is Slice),
    {
        match self {
            Source::Slice { .. } => true,
            Source::File(_) => false,
        }
    }
}

/// The slugs of configured lints.
pub open spec fn slugs_of(s: Seq<ConfiguredLint>) -> Seq<Seq<char>> {
    s.map_values(|c: ConfiguredLint| c.0@)
}

/// No slug occurs twice.
pub open spec fn distinct(s: Seq<Seq<char>>) -> bool {
    forall|i: int, j: int| 0 <= i < j < s.len() ==> s[i] != s[j]
}

/// Setting the lint of `slug`: it takes the place of the lint with that
/// slug, if there is one, and otherwise comes last.
pub open spec fn set_lint(s: Seq<ConfiguredLint>, e: ConfiguredLint) -> Seq<ConfiguredLint> {
    if exists|j: int| 0 <= j < s.len() && #[trigger] s[j].0@ == e.0@ {
        let j = choose|j: int| 0 <= j < s.len() && #[trigger] s[j].0@ == e.0@;
        s.update(j, e)
    } else {
        s.push(e)
    }
}

/// Setting the first `k` enabled lints, in order, at no particular level.
pub open spec fn set_all(entries: Seq<(String, DefaultLint)>, k: int) -> Seq<ConfiguredLint>
    decreases k,
{
    if k <= 0 {
        seq![]
    } else {
        set_lint(set_all(entries, k - 1), (entries[k - 1].0, None, entries[k - 1].1))
    }
}

/// Removing the lint of `slug`, if there is one.
pub open spec fn unset_lint(s: Seq<ConfiguredLint>, slug: Seq<char>) -> Seq<ConfiguredLint> {
    if exists|j: int| 0 <= j < s.len() && #[trigger] s[j].0@ == slug {
        let j = choose|j: int| 0 <= j < s.len() && #[trigger] s[j].0@ == slug;
        s.remove(j)
    } else {
        s
    }
}

/// Applying the first `k` entries of a configuration in order: an entry that
/// enables a lint sets it for its slug, at no particular level; one that
/// disables removes the lint of its slug. So the last entry of a slug
/// decides.
pub open spec fn configure(entries: Seq<(String, Override<DefaultLint>)>, k: int) -> Seq<ConfiguredLint>
    decreases k,
{
    if k <= 0 {
        seq![]
    } else {
        let prev = configure(entries, k - 1);
        match entries[k - 1].1.lint_of() {
            Some(l) => set_lint(prev, (entries[k - 1].0, None, l)),
            None => unset_lint(prev, entries[k - 1].0@),
        }
    }
}

/// The lints of the default configuration: the default lints with their
/// settings, each at no particular level.
pub open spec fn default_configuration(l: Seq<ConfiguredLint>) -> bool {
    exists|d: Seq<(String, DefaultLint)>|
        crate::config::default_settings(d)
            && d.map_values(|e: (String, DefaultLint)| e.0@) == crate::config::default_slugs()
            && l == #[trigger] set_all(d, d.len() as int)
}

/// The linter's configuration.
pub struct Linter {
    /// The lints by slug (no slug twice), each with the level its messages
    /// take instead of the default, if any.
    pub lints: Vec<ConfiguredLint>,
    pub modifiers: Vec<DefaultModifier>,
    pub sources: Vec<Source>,
    /// How the file name of a proposal is made from its number.
    pub proposal_format: String,
}

/// Where a lint with `slug` is.
fn find_slug(lints: &Vec<ConfiguredLint>, slug: &str) -> (r: Option<usize>)
    ensures
        match r {
            Some(j) => j < lints@.len() && lints@[j as int].0@ == slug@,
            None => forall|j: int| 0 <= j < lints@.len() ==> #[trigger] lints@[j].0@ != slug@,
        },
{
    let mut j: usize = 0;
    while j < lints.len()
        invariant
            j <= lints@.len(),
            forall|k: int| 0 <= k < j ==> #[trigger] lints@[k].0@ != slug@,
        decreases lints@.len() - j,
    {
        if crate::text::str_eq(lints[j].0.as_str(), slug) {
            return Some(j);
        }
        j += 1;
    }
    None
}

/// Sets a lint in a list with distinct slugs.
fn put_lint(lints: &mut Vec<ConfiguredLint>, e: ConfiguredLint)
    requires
        distinct(slugs_of(old(lints)@)),
    ensures
        final(lints)@ == set_lint(old(lints)@, e),
        distinct(slugs_of(final(lints)@)),
{
    let ghost s = lints@;
    let ghost ev = e;
    match find_slug(lints, e.0.as_str()) {
        Some(j) => {
            proof {
                let c = choose|k: int| 0 <= k < s.len() && #[trigger] s[k].0@ == ev.0@;
                if c != j {
                    assert(slugs_of(s)[c] == slugs_of(s)[j as int]);
                }
            }
            lints.remove(j);
            lints.insert(j, e);
            assert(lints@ =~= s.update(j as int, ev));
            proof {
                assert forall|a: int, b: int| 0 <= a < b < lints@.len() implies slugs_of(lints@)[a] != slugs_of(lints@)[b] by {
                    assert(slugs_of(s)[a] != slugs_of(s)[b]);
                }
            }
        },
        None => {
            lints.push(e);
            proof {
                assert forall|a: int, b: int| 0 <= a < b < lints@.len() implies slugs_of(lints@)[a] != slugs_of(lints@)[b] by {
                    if b < s.len() {
                        assert(slugs_of(s)[a] != slugs_of(s)[b]);
                    } else {
                        assert(s[a].0@ != ev.0@);
                    }
                }
            }
        },
    }
}

/// Removes the lint of `slug` from a list with distinct slugs, if it is
/// there.
fn drop_lint(lints: &mut Vec<ConfiguredLint>, slug: &str)
    requires
        distinct(slugs_of(old(lints)@)),
    ensures
        final(lints)@ == unset_lint(old(lints)@, slug@),
        distinct(slugs_of(final(lints)@)),
        forall|j: int| 0 <= j < old(lints)@.len() && #[trigger] old(lints)@[j].0@ == slug@ ==> final(lints)@ == old(lints)@.remove(j),
{
    let ghost s = lints@;
    match find_slug(lints, slug) {
        Some(j) => {
            lints.remove(j);
            proof {
                assert forall|k: int| 0 <= k < s.len() && #[trigger] s[k].0@ == slug@ implies lints@ == s.remove(k) by {
                    if k != j {
                        assert(slugs_of(s)[k] == slugs_of(s)[j as int]);
                    }
                }
                assert forall|a: int, b: int| 0 <= a < b < lints@.len() implies slugs_of(lints@)[a] != slugs_of(lints@)[b] by {
                    let oa = if a < j { a } else { a + 1 };
                    let ob = if b < j { b } else { b + 1 };
                    assert(slugs_of(s)[oa] != slugs_of(s)[ob]);
                }
            }
        },
        None => {},
    }
}

impl Linter {
    /// No slug occurs twice among the lints.
    pub open spec fn wf(&self) -> bool {
        distinct(slugs_of(self.lints@))
    }

    /// The lints that the configuration leaves enabled (the last entry of a
    /// slug deciding), its modifiers, no proposals to check yet, and the
    /// configured naming of proposals (`eip-{}` by default).
    pub fn with_options(options: Options<DefaultModifier, DefaultLint>) -> (r: Linter)
        ensures
            r.wf(),
            r.lints@ == configure(options.lints@, options.lints@.len() as int),
            r.modifiers@ == options.modifiers@,
            r.sources@.len() == 0,
            r.proposal_format@ == match options.fetch {
                Some(f) => f.proposal_format@,
                None => "eip-{}"@,
            },
    {
        let ghost entries = options.lints@;
        let proposal_format = match options.fetch {
            Some(f) => f.proposal_format,
            None => {
                proof {
                    reveal_strlit("eip-{}");
                }
                String::from_str("eip-{}")
            },
        };
        let modifiers = options.modifiers;
        let mut given = options.lints;
        let mut rev: Vec<(String, Override<DefaultLint>)> = Vec::new();
        while given.len() > 0
            invariant
                given@.len() + rev@.len() == entries.len(),
                forall|k: int| 0 <= k < given@.len() ==> #[trigger] given@[k] == entries[k],
                forall|k: int| 0 <= k < rev@.len() ==> #[trigger] rev@[k] == entries[entries.len() - 1 - k],
            decreases given@.len(),
        {
            let e = given.pop().unwrap();
            rev.push(e);
        }
        let mut lints: Vec<ConfiguredLint> = Vec::new();
        let ghost mut k: int = 0;
        while rev.len() > 0
            invariant
                0 <= k,
                k + rev@.len() == entries.len(),
                forall|i: int| 0 <= i < rev@.len() ==> #[trigger] rev@[i] == entries[entries.len() - 1 - i],
                lints@ == configure(entries, k),
                distinct(slugs_of(lints@)),
            decreases rev@.len(),
        {
            let (slug, toggle) = rev.pop().unwrap();
            assert((slug, toggle) == entries[k]);
            match toggle.into_lint() {
                Some(lint) => put_lint(&mut lints, (slug, None, lint)),
                None => drop_lint(&mut lints, slug.as_str()),
            }
            proof {
                k = k + 1;
            }
        }
        Linter { lints, modifiers, sources: Vec::new(), proposal_format }
    }

    /// The default configuration: every default lint, at no particular
    /// level.
    pub fn new() -> (r: Linter)
        ensures
            r.wf(),
            default_configuration(r.lints@),
            slugs_of(r.lints@).to_set() == crate::config::default_slugs().to_set(),
            forall|i: int| 0 <= i < r.lints@.len() ==> (#[trigger] r.lints@[i]).1 is None,
            crate::config::are_default_modifiers(r.modifiers@),
            r.sources@.len() == 0,
            r.proposal_format@ == "eip-{}"@,
    {
        let options: Options<DefaultModifier, DefaultLint> = Options::default();
        let ghost entries = options.lints@;
        let r = Linter::with_options(options);
        proof {
            lemma_configure_enabled(entries, entries.len() as int);
            assert(entries.take(entries.len() as int) =~= entries);
            let d = enabled(entries, entries.len() as int);
            lemma_enabled_all_enable(entries, entries.len() as int);
            lemma_configure_given(entries, d, entries.len() as int);
            assert(d.map_values(|e: (String, DefaultLint)| e.0@) =~= entries.map_values(|e: (String, Override<DefaultLint>)| e.0@));
        }
        r
    }

    /// The default lints and naming, with the given modifiers.
    pub fn with_modifiers(modifiers: Vec<DefaultModifier>) -> (r: Linter)
        ensures
            r.wf(),
            default_configuration(r.lints@),
            slugs_of(r.lints@).to_set() == crate::config::default_slugs().to_set(),
            forall|i: int| 0 <= i < r.lints@.len() ==> (#[trigger] r.lints@[i]).1 is None,
            r.modifiers@ == modifiers@,
            r.sources@.len() == 0,
            r.proposal_format@ == "eip-{}"@,
    {
        let defaults: Options<DefaultModifier, DefaultLint> = Options::default();
        let ghost entries = defaults.lints@;
        let r = Linter::with_options(Options { modifiers, lints: defaults.lints, fetch: defaults.fetch });
        proof {
            lemma_configure_enabled(entries, entries.len() as int);
            assert(entries.take(entries.len() as int) =~= entries);
            let d = enabled(entries, entries.len() as int);
            lemma_enabled_all_enable(entries, entries.len() as int);
            lemma_configure_given(entries, d, entries.len() as int);
            assert(d.map_values(|e: (String, DefaultLint)| e.0@) =~= entries.map_values(|e: (String, Override<DefaultLint>)| e.0@));
        }
        r
    }

    /// The given lints (a later one of a slug taking the place of an
    /// earlier one), at no particular level, with the default modifiers.
    pub fn with_lints(lints: Vec<(String, DefaultLint)>) -> (r: Linter)
        ensures
            r.wf(),
            r.lints@ == set_all(lints@, lints@.len() as int),
            crate::config::are_default_modifiers(r.modifiers@),
            r.sources@.len() == 0,
            r.proposal_format@ == "eip-{}"@,
    {
        let defaults: Options<DefaultModifier, DefaultLint> = Options::default();
        let ghost given = lints@;
        let mut given_lints = lints;
        let mut rev: Vec<(String, Override<DefaultLint>)> = Vec::new();
        while given_lints.len() > 0
            invariant
                given_lints@.len() + rev@.len() == given.len(),
                forall|k: int| 0 <= k < given_lints@.len() ==> #[trigger] given_lints@[k] == given[k],
                forall|k: int|
                    0 <= k < rev@.len() ==> (#[trigger] rev@[k]).0 == given[given.len() - 1 - k].0
                        && rev@[k].1.lint_of() == Some(given[given.len() - 1 - k].1),
            decreases given_lints@.len(),
        {
            let (slug, lint) = given_lints.pop().unwrap();
            rev.push((slug, Override::enable(lint)));
        }
        let mut entries: Vec<(String, Override<DefaultLint>)> = Vec::new();
        while rev.len() > 0
            invariant
                entries@.len() + rev@.len() == given.len(),
                forall|k: int|
                    0 <= k < rev@.len() ==> (#[trigger] rev@[k]).0 == given[given.len() - 1 - k].0
                        && rev@[k].1.lint_of() == Some(given[given.len() - 1 - k].1),
                forall|k: int|
                    0 <= k < entries@.len() ==> (#[trigger] entries@[k]).0 == given[k].0
                        && entries@[k].1.lint_of() == Some(given[k].1),
            decreases rev@.len(),
        {
            let e = rev.pop().unwrap();
            entries.push(e);
        }
        proof {
            lemma_configure_given(entries@, given, given.len() as int);
        }
        Linter::with_options(Options { modifiers: defaults.modifiers, lints: entries, fetch: None })
    }

    /// Sets the lint of `slug`, whose messages take `level`.
    fn add_lint(self, level: Option<Level>, slug: String, lint: DefaultLint) -> (r: Linter)
        requires
            self.wf(),
        ensures
            r.wf(),
            r.lints@ == set_lint(self.lints@, (slug, level, lint)),
            r.modifiers == self.modifiers,
            r.sources == self.sources,
            r.proposal_format == self.proposal_format,
    {
        let mut s = self;
        put_lint(&mut s.lints, (slug, level, lint));
        s
    }

    /// Sets the lint of `slug`, whose messages are warnings.
    pub fn warn(self, slug: String, lint: DefaultLint) -> (r: Linter)
        requires
            self.wf(),
        ensures
            r.wf(),
            r.lints@ == set_lint(self.lints@, (slug, Some(Level::Warning), lint)),
            r.modifiers == self.modifiers,
            r.sources == self.sources,
            r.proposal_format == self.proposal_format,
    {
        self.add_lint(Some(Level::Warning), slug, lint)
    }

    /// Sets the lint of `slug`, whose messages are errors.
    pub fn deny(self, slug: String, lint: DefaultLint) -> (r: Linter)
        requires
            self.wf(),
        ensures
            r.wf(),
            r.lints@ == set_lint(self.lints@, (slug, Some(Level::Error), lint)),
            r.modifiers == self.modifiers,
            r.sources == self.sources,
            r.proposal_format == self.proposal_format,
    {
        self.add_lint(Some(Level::Error), slug, lint)
    }

    /// Adds a modifier, after the others.
    pub fn modify(self, modifier: DefaultModifier) -> (r: Linter)
        ensures
            r.lints == self.lints,
            r.modifiers@ == self.modifiers@.push(modifier),
            r.sources == self.sources,
            r.proposal_format == self.proposal_format,
    {
        let mut s = self;
        s.modifiers.push(modifier);
        s
    }

    /// Whether a lint has the slug.
    pub fn has_lint(&self, slug: &str) -> (r: bool)
        ensures
            r == exists|j: int| 0 <= j < self.lints@.len() && #[trigger] self.lints@[j].0@ == slug@,
    {
        find_slug(&self.lints, slug).is_some()
    }

    /// Removes the lint of `slug`, which must be there.
    pub fn allow(self, slug: &str) -> (r: Linter)
        requires
            self.wf(),
            exists|j: int| 0 <= j < self.lints@.len() && #[trigger] self.lints@[j].0@ == slug@,
        ensures
            r.wf(),
            forall|j: int| 0 <= j < self.lints@.len() && #[trigger] self.lints@[j].0@ == slug@ ==> r.lints@ == self.lints@.remove(j),
            r.modifiers == self.modifiers,
            r.sources == self.sources,
            r.proposal_format == self.proposal_format,
    {
        let mut s = self;
        drop_lint(&mut s.lints, slug);
        s
    }

    /// Removes every lint.
    pub fn clear_lints(self) -> (r: Linter)
        ensures
            r.wf(),
            r.lints@.len() == 0,
            r.modifiers == self.modifiers,
            r.sources == self.sources,
            r.proposal_format == self.proposal_format,
    {
        let mut s = self;
        s.lints = Vec::new();
        s
    }

    /// Adds a text to check.
    pub fn check_slice(self, origin: Option<String>, src: String) -> (r: Linter)
        ensures
            r.lints == self.lints,
            r.modifiers == self.modifiers,
            r.sources@ == self.sources@.push(Source::Slice { origin, src }),
            r.proposal_format == self.proposal_format,
    {
        let mut s = self;
        s.sources.push(Source::Slice { origin, src });
        s
    }

    /// Adds a file to check.
    pub fn check_file(self, path: String) -> (r: Linter)
        ensures
            r.lints == self.lints,
            r.modifiers == self.modifiers,
            r.sources@ == self.sources@.push(Source::File(path)),
            r.proposal_format == self.proposal_format,
    {
        let mut s = self;
        s.sources.push(Source::File(path));
        s
    }
}

/// Whether position `p` holds a lint whose slug sorts before `ec`.
fn slug_before(v: &Vec<ConfiguredLint>, p: usize, ec: &Vec<char>) -> (b: bool)
    requires
        p <= v@.len(),
    ensures
        b == (p < v@.len() && str_lt(v@[p as int].0@, ec@)),
{
    if p < v.len() {
        let c = crate::text::chars_of(v[p].0.as_str());
        str_less(c.as_slice(), ec.as_slice())
    } else {
        false
    }
}

/// Puts a lint into a list sorted by slug, where no lint has its slug.
fn insert_by_slug(v: &mut Vec<ConfiguredLint>, e: ConfiguredLint)
    requires
        strictly_sorted(slugs_of(old(v)@)),
        !slugs_of(old(v)@).contains(e.0@),
    ensures
        strictly_sorted(slugs_of(final(v)@)),
        final(v)@.to_multiset() == old(v)@.to_multiset().insert(e),
{
    let ghost s = slugs_of(v@);
    let ghost ov = v@;
    let ec = crate::text::chars_of(e.0.as_str());
    let mut p: usize = 0;
    let n = v.len();
    loop
        invariant
            n == v@.len(),
            p <= v@.len(),
            v@ == ov,
            s == slugs_of(v@),
            ec@ == e.0@,
            forall|k: int| 0 <= k < p ==> str_lt(#[trigger] s[k], e.0@),
        ensures
            p <= v@.len(),
            v@ == ov,
            forall|k: int| 0 <= k < p ==> str_lt(#[trigger] s[k], e.0@),
            !(p < v@.len() && str_lt(v@[p as int].0@, ec@)),
        decreases v@.len() - p,
    {
        if !slug_before(v, p, &ec) {
            break;
        }
        p += 1;
    }
    proof {
        if p < s.len() {
            assert(s[p as int] != e.0@) by {
                if s[p as int] == e.0@ {
                    assert(s.contains(e.0@));
                }
            }
            lemma_str_lt_total(s[p as int], e.0@);
        }
        assert forall|k: int| p <= k < s.len() implies str_lt(e.0@, #[trigger] s[k]) by {
            if k > p {
                assert(str_lt(s[p as int], s[k]));
                lemma_str_lt_transitive(e.0@, s[p as int], s[k]);
            }
        }
    }
    let ghost ev = e;
    v.insert(p, e);
    proof {
        assert(v@ =~= ov.insert(p as int, ev));
        vstd::seq_lib::to_multiset_insert(ov, p as int, ev);
        let t = slugs_of(v@);
        assert forall|i: int, j: int| 0 <= i < j < t.len() implies str_lt(#[trigger] t[i], #[trigger] t[j]) by {
            if j < p {
                assert(t[i] == s[i] && t[j] == s[j]);
            } else if j == p {
                assert(t[i] == s[i] && t[j] == ev.0@);
            } else if i < p {
                assert(t[i] == s[i] && t[j] == s[j - 1]);
                assert(str_lt(s[i], ev.0@));
                lemma_str_lt_transitive(s[i], ev.0@, s[j - 1]);
            } else if i == p {
                assert(t[i] == ev.0@ && t[j] == s[j - 1]);
            } else {
                assert(t[i] == s[i - 1] && t[j] == s[j - 1]);
            }
        }
    }
}

impl Linter {
    /// The lints in the order the linter runs them: by slug.
    pub fn run_order(self) -> (r: Vec<ConfiguredLint>)
        requires
            self.wf(),
        ensures
            strictly_sorted(slugs_of(r@)),
            r@.to_multiset() == self.lints@.to_multiset(),
    {
        let ghost all = self.lints@;
        let mut rest = self.lints;
        let mut out: Vec<ConfiguredLint> = Vec::new();
        assert(all.skip(all.len() as int) =~= Seq::<ConfiguredLint>::empty());
        assert(all.take(all.len() as int) =~= all);
        while rest.len() > 0
            invariant
                rest@.len() <= all.len(),
                distinct(slugs_of(all)),
                rest@ == all.take(rest@.len() as int),
                strictly_sorted(slugs_of(out@)),
                out@.to_multiset() == all.skip(rest@.len() as int).to_multiset(),
                forall|k: int| 0 <= k < out@.len() ==> all.skip(rest@.len() as int).contains(#[trigger] out@[k]),
            decreases rest@.len(),
        {
            let ghost n = rest@.len() as int;
            let e = rest.pop().unwrap();
            proof {
                assert(e == all[n - 1]);
                assert(rest@ =~= all.take(n - 1));
                assert(all.skip(n - 1) =~= seq![e] + all.skip(n));
                assert forall|k: int| 0 <= k < out@.len() implies (#[trigger] out@[k]).0@ != e.0@ by {
                    let w = choose|w: int| 0 <= w < all.skip(n).len() && all.skip(n)[w] == out@[k];
                    assert(slugs_of(all)[n + w] != slugs_of(all)[n - 1]);
                }
                if slugs_of(out@).contains(e.0@) {
                    let k = choose|k: int| 0 <= k < slugs_of(out@).len() && slugs_of(out@)[k] == e.0@;
                    assert(out@[k].0@ == e.0@);
                }
            }
            insert_by_slug(&mut out, e);
            proof {
                broadcast use vstd::seq_lib::group_to_multiset_ensures;
                assert(all.skip(n - 1) =~= all.skip(n).insert(0, e));
                assert(all.skip(n - 1).to_multiset() =~= all.skip(n).to_multiset().insert(e));
                assert forall|k: int| 0 <= k < out@.len() implies all.skip(n - 1).contains(#[trigger] out@[k]) by {
                    assert(out@.contains(out@[k]));
                    assert(out@.to_multiset().count(out@[k]) > 0);
                    assert(all.skip(n - 1).to_multiset().count(out@[k]) > 0);
                }
            }
        }
        assert(all.skip(0) =~= all);
        out
    }
}

/// Setting a lint adds its slug to the slugs, and takes nothing away.
pub proof fn lemma_set_lint_slugs(s: Seq<ConfiguredLint>, e: ConfiguredLint)
    ensures
        slugs_of(set_lint(s, e)).to_set() == slugs_of(s).to_set().insert(e.0@),
        (forall|i: int| 0 <= i < s.len() ==> (#[trigger] s[i]).1 is None) && e.1 is None ==> forall|i: int|
            0 <= i < set_lint(s, e).len() ==> (#[trigger] set_lint(s, e)[i]).1 is None,
{
    if exists|j: int| 0 <= j < s.len() && #[trigger] s[j].0@ == e.0@ {
        let j = choose|j: int| 0 <= j < s.len() && #[trigger] s[j].0@ == e.0@;
        assert(slugs_of(s.update(j, e)) =~= slugs_of(s));
        assert(slugs_of(s).contains(e.0@)) by {
            assert(slugs_of(s)[j] == e.0@);
        }
        assert(slugs_of(s).to_set().insert(e.0@) =~= slugs_of(s).to_set());
    } else {
        assert(slugs_of(s.push(e)) =~= slugs_of(s).push(e.0@));
        slugs_of(s).lemma_push_to_set_commute(e.0@);
    }
}

/// Whether the last of the first `k` entries with `slug` enables its lint.
pub open spec fn last_enables(entries: Seq<(String, Override<DefaultLint>)>, k: int, slug: Seq<char>) -> bool
    decreases k,
{
    if k <= 0 {
        false
    } else if entries[k - 1].0@ == slug {
        entries[k - 1].1.lint_of() is Some
    } else {
        last_enables(entries, k - 1, slug)
    }
}

/// Which slugs setting a lint leaves, in a list with distinct slugs.
proof fn lemma_set_lint_has(s: Seq<ConfiguredLint>, e: ConfiguredLint, x: Seq<char>)
    requires
        distinct(slugs_of(s)),
    ensures
        distinct(slugs_of(set_lint(s, e))),
        slugs_of(set_lint(s, e)).contains(x) <==> (x == e.0@ || slugs_of(s).contains(x)),
{
    lemma_set_lint_slugs(s, e);
    assert(slugs_of(set_lint(s, e)).to_set().contains(x) <==> slugs_of(set_lint(s, e)).contains(x));
    assert(slugs_of(s).to_set().contains(x) <==> slugs_of(s).contains(x));
    let t = slugs_of(set_lint(s, e));
    if exists|j: int| 0 <= j < s.len() && #[trigger] s[j].0@ == e.0@ {
        let j = choose|j: int| 0 <= j < s.len() && #[trigger] s[j].0@ == e.0@;
        assert(t =~= slugs_of(s).update(j, e.0@));
        assert forall|a: int, b: int| 0 <= a < b < t.len() implies t[a] != t[b] by {
            assert(slugs_of(s)[a] != slugs_of(s)[b]);
        }
    } else {
        assert(t =~= slugs_of(s).push(e.0@));
        assert forall|a: int, b: int| 0 <= a < b < t.len() implies t[a] != t[b] by {
            if b == s.len() {
                assert(s[a].0@ != e.0@);
            } else {
                assert(slugs_of(s)[a] != slugs_of(s)[b]);
            }
        }
    }
}

/// Which slugs removing a lint leaves, in a list with distinct slugs.
proof fn lemma_unset_lint_has(s: Seq<ConfiguredLint>, slug: Seq<char>, x: Seq<char>)
    requires
        distinct(slugs_of(s)),
    ensures
        distinct(slugs_of(unset_lint(s, slug))),
        slugs_of(unset_lint(s, slug)).contains(x) <==> (x != slug && slugs_of(s).contains(x)),
{
    let t = slugs_of(unset_lint(s, slug));
    if exists|j: int| 0 <= j < s.len() && #[trigger] s[j].0@ == slug {
        let j = choose|j: int| 0 <= j < s.len() && #[trigger] s[j].0@ == slug;
        assert forall|k: int| 0 <= k < s.len() && #[trigger] s[k].0@ == slug implies s.remove(k) == s.remove(j) by {
            if k != j {
                assert(slugs_of(s)[k] == slugs_of(s)[j]);
            }
        }
        assert(unset_lint(s, slug) == s.remove(j));
        assert forall|i: int| 0 <= i < t.len() implies t[i] == slugs_of(s).remove(j)[i] by {
            if i < j {
                assert(s.remove(j)[i] == s[i]);
            } else {
                assert(s.remove(j)[i] == s[i + 1]);
            }
        }
        assert(t =~= slugs_of(s).remove(j));
        assert forall|a: int, b: int| 0 <= a < b < t.len() implies t[a] != t[b] by {
            let oa = if a < j { a } else { a + 1 };
            let ob = if b < j { b } else { b + 1 };
            assert(slugs_of(s)[oa] != slugs_of(s)[ob]);
        }
        if t.contains(x) {
            let i = choose|i: int| 0 <= i < t.len() && t[i] == x;
            let oi = if i < j { i } else { i + 1 };
            assert(slugs_of(s)[oi] == x);
            assert(slugs_of(s)[oi] != slugs_of(s)[j]);
        }
        if x != slug && slugs_of(s).contains(x) {
            let i = choose|i: int| 0 <= i < slugs_of(s).len() && slugs_of(s)[i] == x;
            assert(i != j);
            let ti = if i < j { i } else { i - 1 };
            assert(t[ti] == x);
        }
    } else {
        if slugs_of(s).contains(slug) {
            let i = choose|i: int| 0 <= i < slugs_of(s).len() && slugs_of(s)[i] == slug;
            assert(s[i].0@ == slug);
        }
    }
}

/// The last entry of a slug decides: configuring leaves a lint of `slug`
/// exactly when the last entry of `slug` enables one, and never two lints
/// of one slug.
pub proof fn law_last_entry_decides(entries: Seq<(String, Override<DefaultLint>)>, k: int, slug: Seq<char>)
    requires
        0 <= k <= entries.len(),
    ensures
        distinct(slugs_of(configure(entries, k))),
        slugs_of(configure(entries, k)).contains(slug) <==> last_enables(entries, k, slug),
    decreases k,
{
    if k > 0 {
        law_last_entry_decides(entries, k - 1, slug);
        let prev = configure(entries, k - 1);
        match entries[k - 1].1.lint_of() {
            Some(l) => {
                lemma_set_lint_has(prev, (entries[k - 1].0, None, l), slug);
            },
            None => {
                lemma_unset_lint_has(prev, entries[k - 1].0@, slug);
            },
        }
    } else {
        assert(slugs_of(configure(entries, 0)) =~= Seq::<Seq<char>>::empty());
    }
}

/// Where every entry enables its lint, configuring gives the entries' slugs,
/// each at no particular level.
proof fn lemma_configure_enabled(entries: Seq<(String, Override<DefaultLint>)>, k: int)
    requires
        0 <= k <= entries.len(),
        forall|i: int| 0 <= i < entries.len() ==> (#[trigger] entries[i]).1.lint_of() is Some,
    ensures
        slugs_of(configure(entries, k)).to_set()
            == entries.take(k).map_values(|e: (String, Override<DefaultLint>)| e.0@).to_set(),
        forall|i: int| 0 <= i < configure(entries, k).len() ==> (#[trigger] configure(entries, k)[i]).1 is None,
    decreases k,
{
    if k > 0 {
        lemma_configure_enabled(entries, k - 1);
        assert(entries[k - 1].1.lint_of() is Some);
        let l = entries[k - 1].1.lint_of().unwrap();
        let e = (entries[k - 1].0, None::<Level>, l);
        lemma_set_lint_slugs(configure(entries, k - 1), e);
        let prev = entries.take(k - 1).map_values(|e: (String, Override<DefaultLint>)| e.0@);
        assert(entries.take(k).map_values(|e: (String, Override<DefaultLint>)| e.0@) =~= prev.push(entries[k - 1].0@));
        prev.lemma_push_to_set_commute(entries[k - 1].0@);
    } else {
        assert(configure(entries, 0) =~= Seq::<ConfiguredLint>::empty());
        assert(slugs_of(configure(entries, 0)) =~= Seq::<Seq<char>>::empty());
        assert(entries.take(0).map_values(|e: (String, Override<DefaultLint>)| e.0@) =~= Seq::<Seq<char>>::empty());
    }
}

/// Where every entry enables its lint, the enabled lints are the entries'
/// slugs with those lints.
proof fn lemma_enabled_all_enable(entries: Seq<(String, Override<DefaultLint>)>, k: int)
    requires
        0 <= k <= entries.len(),
        forall|i: int| 0 <= i < entries.len() ==> (#[trigger] entries[i]).1.lint_of() is Some,
    ensures
        enabled(entries, k).len() == k,
        forall|i: int|
            0 <= i < k ==> (#[trigger] enabled(entries, k)[i]).0 == entries[i].0 && entries[i].1.lint_of() == Some(
                enabled(entries, k)[i].1,
            ),
    decreases k,
{
    if k > 0 {
        lemma_enabled_all_enable(entries, k - 1);
        assert(entries[k - 1].1.lint_of() is Some);
    }
}

/// Configuring entries that each enable a given lint sets the given lints.
proof fn lemma_configure_given(entries: Seq<(String, Override<DefaultLint>)>, given: Seq<(String, DefaultLint)>, k: int)
    requires
        0 <= k <= entries.len(),
        k <= given.len(),
        forall|i: int|
            0 <= i < k ==> (#[trigger] entries[i]).0 == given[i].0 && entries[i].1.lint_of() == Some(given[i].1),
    ensures
        configure(entries, k) == set_all(given, k),
    decreases k,
{
    if k > 0 {
        lemma_configure_given(entries, given, k - 1);
        assert(entries[k - 1].0 == given[k - 1].0);
    }
}

/// The lints that setting the first `k` entries gives are those of their
/// slugs, each at no particular level.
pub proof fn law_set_all_slugs(entries: Seq<(String, DefaultLint)>, k: int)
    requires
        0 <= k <= entries.len(),
    ensures
        slugs_of(set_all(entries, k)).to_set() == entries.take(k).map_values(|e: (String, DefaultLint)| e.0@).to_set(),
        forall|i: int| 0 <= i < set_all(entries, k).len() ==> (#[trigger] set_all(entries, k)[i]).1 is None,
    decreases k,
{
    if k > 0 {
        law_set_all_slugs(entries, k - 1);
        let e = (entries[k - 1].0, None::<Level>, entries[k - 1].1);
        lemma_set_lint_slugs(set_all(entries, k - 1), e);
        let prev = entries.take(k - 1).map_values(|e: (String, DefaultLint)| e.0@);
        assert(entries.take(k).map_values(|e: (String, DefaultLint)| e.0@) =~= prev.push(entries[k - 1].0@));
        prev.lemma_push_to_set_commute(entries[k - 1].0@);
    } else {
        assert(set_all(entries, 0) =~= Seq::<ConfiguredLint>::empty());
        assert(slugs_of(set_all(entries, 0)) =~= Seq::<Seq<char>>::empty());
        assert(entries.take(0).map_values(|e: (String, DefaultLint)| e.0@) =~= Seq::<Seq<char>>::empty());
    }
}

} // verus!
