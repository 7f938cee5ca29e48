//! Running the configured lints on a proposal, and naming the files of the
//! proposals they read.

use vstd::prelude::*;

use crate::lints::markdown::requires_ref_body::contains_u32;
use crate::lints::{result_view, Context, DefaultLint, Error};
use crate::modifiers::{annotation_level, modified_level, DefaultModifier};
use crate::snippets::{Level, Message, MessageView};

verus! {

/// Whether `t` occurs in `f`.
pub open spec fn has_text(f: Seq<char>, t: Seq<char>) -> bool {
    exists|i: int| 0 <= i && i + t.len() <= f.len() && #[trigger] f.subrange(i, i + t.len()) == t
}

/// A file-name format whose braces all stand in `{}` pairs, and which does
/// not hold the texts that `formatx` uses to mark escaped braces.
pub open spec fn plain_format(f: Seq<char>) -> bool {
    &&& forall|i: int| 0 <= i < f.len() ==> #[trigger] paired_at(f, i)
    &&& !has_text(f, "[curly=open]"@)
    &&& !has_text(f, "[curly=close]"@)
}

/// A `{` at position `i` is followed by `}`, and a `}` there follows `{`.
pub open spec fn paired_at(f: Seq<char>, i: int) -> bool {
    &&& f[i] == '{' ==> i + 1 < f.len() && f[i + 1] == '}'
    &&& f[i] == '}' ==> i >= 1 && f[i - 1] == '{'
}

/// The number of `{` among the first `k` characters.
pub open spec fn opens(f: Seq<char>, k: int) -> nat
    decreases k,
{
    if k <= 0 {
        0
    } else {
        opens(f, k - 1) + if f[k - 1] == '{' { 1nat } else { 0nat }
    }
}

/// A plain format filled with `n`: the format itself when it has no `{}`,
/// the number in place of its one `{}`, and none when it has more (a value
/// is then missing).
pub open spec fn fill_format(f: Seq<char>, n: nat) -> Option<Seq<char>> {
    if opens(f, f.len() as int) == 0 {
        Some(f)
    } else if opens(f, f.len() as int) == 1 {
        let i = choose|i: int| 0 <= i < f.len() && f[i] == '{';
        Some(f.take(i) + crate::text::decimal(n) + f.skip(i + 2))
    } else {
        None
    }
}

/// Fills the positional placeholder of `format` with `number` using
/// `formatx::Template` (`new`, `replace_positional`, `text`). On a plain
/// format that is the number in place of its one `{}`, the format itself
/// when it has none, and an error (a missing value) when it has more; the
/// text of that error is not stated.
#[verifier::external_body]
fn format_name(format: &str, number: u32) -> (r: Result<String, String>)
    requires
        plain_format(format@),
    ensures
        match r {
            Ok(s) => fill_format(format@, number as nat) == Some(s@),
            Err(_) => fill_format(format@, number as nat) is None,
        },
{
    let mut t = formatx::Template::new(format).map_err(|e| e.message())?;
    t.replace_positional(number);
    t.text().map_err(|e| e.message())
}

/// Whether `t` occurs in `f`.
fn has_text_exec(f: &[char], t: &[char]) -> (r: bool)
    ensures
        r == has_text(f@, t@),
{
    let fl = f.len();
    let tl = t.len();
    if tl > fl {
        return false;
    }
    let mut i: usize = 0;
    while i <= fl - tl
        invariant
            fl == f@.len(),
            tl == t@.len(),
            tl <= fl,
            i <= fl - tl + 1,
            forall|j: int| 0 <= j < i ==> #[trigger] f@.subrange(j, j + t@.len()) != t@,
        decreases fl - tl + 1 - i,
    {
        let mut k: usize = 0;
        let mut same = true;
        while k < tl
            invariant
                fl == f@.len(),
                tl == t@.len(),
                i + tl <= fl,
                k <= tl,
                same == forall|m: int| 0 <= m < k ==> f@[i + m] == t@[m],
            decreases tl - k,
        {
            if f[i + k] != t[k] {
                same = false;
            }
            k += 1;
        }
        if same {
            assert(f@.subrange(i as int, i + t@.len()) =~= t@);
            return true;
        }
        assert(f@.subrange(i as int, i + t@.len()) != t@) by {
            let m = choose|m: int| 0 <= m < t@.len() && f@[i + m] != t@[m];
            assert(f@.subrange(i as int, i + t@.len())[m] == f@[i + m]);
        }
        i += 1;
    }
    assert forall|j: int| 0 <= j && j + t@.len() <= f@.len() implies #[trigger] f@.subrange(j, j + t@.len()) != t@ by {
        assert(j < i);
    }
    false
}

/// Whether a format is plain (see `plain_format`).
pub fn is_plain_format(format: &str) -> (r: bool)
    ensures
        r == plain_format(format@),
{
    let f = crate::text::chars_of(format);
    let n = f.len();
    let mut i: usize = 0;
    while i < n
        invariant
            n == f@.len(),
            f@ == format@,
            i <= n,
            forall|j: int| 0 <= j < i ==> #[trigger] paired_at(f@, j),
        decreases n - i,
    {
        if f[i] == '{' && !(i + 1 < n && f[i + 1] == '}') {
            assert(!paired_at(format@, i as int));
            return false;
        }
        if f[i] == '}' && !(i >= 1 && f[i - 1] == '{') {
            assert(!paired_at(format@, i as int));
            return false;
        }
        i += 1;
    }
    let open = crate::text::chars_of("[curly=open]");
    let close = crate::text::chars_of("[curly=close]");
    let a = has_text_exec(f.as_slice(), open.as_slice());
    let b = has_text_exec(f.as_slice(), close.as_slice());
    assert(f@ == format@);
    assert(a == has_text(format@, "[curly=open]"@));
    assert(b == has_text(format@, "[curly=close]"@));
    !a && !b
}

/// The base name of the file of proposal `number`, by the configured
/// format (such as `eip-{}`): the format with the number in place of its
/// `{}`. A format whose braces are not all `{}` pairs is refused, as is one
/// with more than one `{}`: `formatx` panics on some such formats (a `}`
/// before its `{`), and a width in a format spec (`{:N}`) is padded out in
/// memory however large it is, so only plain formats are handed to it.
pub fn proposal_basename(format: &str, number: u32) -> (r: Result<String, String>)
    ensures
        r is Ok <==> (plain_format(format@) && fill_format(format@, number as nat) is Some),
        r matches Ok(s) ==> fill_format(format@, number as nat) == Some(s@),
{
    if !is_plain_format(format) {
        return Err(String::from_str("unsupported proposal format"));
    }
    format_name(format, number)
}

/// A configured lint: its slug, the level it reports at (none for the
/// proposal's default), and its settings.
pub type ConfiguredLint = (String, Option<Level>, DefaultLint);

/// The context a lint runs in: the proposal's, at the lint's level.
pub open spec fn at_level(ctx: Context, level: Level) -> Context {
    Context { annotation_level: level, ..ctx }
}

/// The level a lint reports at.
pub open spec fn level_of(l: ConfiguredLint, default: Level) -> Level {
    match l.1 {
        Some(v) => v,
        None => default,
    }
}

/// The outcome of the first `k` lints, run in order at their levels: the
/// messages so far; an error, where a lint failed (no later lint runs);
/// or none, where a lint does not admit the proposal.
pub open spec fn lint_prefix(
    lints: Seq<ConfiguredLint>,
    default: Level,
    ctx: Context,
    k: int,
) -> Option<Result<Seq<MessageView>, Seq<char>>>
    decreases k,
{
    if k <= 0 {
        Some(Ok(seq![]))
    } else {
        match lint_prefix(lints, default, ctx, k - 1) {
            Some(Ok(msgs)) => {
                let l = lints[k - 1];
                let c = at_level(ctx, level_of(l, default));
                if !l.2.admits(&c) {
                    None
                } else {
                    match l.2.spec_lint(l.0@, &c) {
                        Ok(m) => Some(Ok(msgs + m)),
                        Err(e) => Some(Err(e)),
                    }
                }
            },
            other => other,
        }
    }
}

/// Once a lint fails or does not admit the proposal, no later lint runs.
proof fn lemma_prefix_stops(lints: Seq<ConfiguredLint>, default: Level, ctx: Context, k: int, n: int)
    requires
        0 <= k <= n,
        !(lint_prefix(lints, default, ctx, k) matches Some(Ok(_))),
    ensures
        lint_prefix(lints, default, ctx, n) == lint_prefix(lints, default, ctx, k),
    decreases n - k,
{
    if k < n {
        lemma_prefix_stops(lints, default, ctx, k, n - 1);
    }
}

/// The messages of a run, or its error.
pub open spec fn run_view(r: Result<Vec<Message>, Error>) -> Result<Seq<MessageView>, Seq<char>> {
    result_view(r)
}

/// Runs the lints on a proposal, in order: the level of the proposal is
/// the one its modifiers give (errors by default), and a lint configured
/// with a level reports at that level. Gives none when a lint does not
/// admit the proposal (a proposal it reads was not read).
pub fn lint_proposal(lints: &Vec<ConfiguredLint>, mods: &Vec<DefaultModifier>, ctx: &mut Context) -> (r: Option<
    Result<Vec<Message>, Error>,
>)
    requires
        old(ctx).wf(),
        old(ctx).body_wf(),
    ensures
        ({
            let default = modified_level(mods@, old(ctx).preamble@, Level::Error, mods@.len() as int);
            match (r, lint_prefix(lints@, default, *old(ctx), lints@.len() as int)) {
                (None, None) => true,
                (Some(x), Some(y)) => run_view(x) == y,
                _ => false,
            }
        }),
        final(ctx).preamble == old(ctx).preamble,
        final(ctx).body == old(ctx).body,
        final(ctx).source == old(ctx).source,
        final(ctx).body_source == old(ctx).body_source,
        final(ctx).origin == old(ctx).origin,
        final(ctx).proposals == old(ctx).proposals,
{
    let ghost start = *ctx;
    let default = annotation_level(mods, &ctx.preamble);
    let mut out: Vec<Message> = Vec::new();
    assert(out@.map_values(|m: Message| m@) =~= Seq::<MessageView>::empty());
    let mut i: usize = 0;
    while i < lints.len()
        invariant
            i <= lints@.len(),
            start == *old(ctx),
            ctx.wf(),
            ctx.body_wf(),
            at_level(*ctx, start.annotation_level) == start,
            default == modified_level(mods@, start.preamble@, Level::Error, mods@.len() as int),
            lint_prefix(lints@, default, start, i as int) == Some(
                Ok::<Seq<MessageView>, Seq<char>>(out@.map_values(|m: Message| m@)),
            ),
        decreases lints@.len() - i,
    {
        let (slug, level, lint) = &lints[i];
        let l = match level {
            Some(v) => *v,
            None => default,
        };
        ctx.annotation_level = l;
        assert(*ctx == at_level(start, level_of(lints@[i as int], default)));
        assert(ctx.preamble == start.preamble && ctx.body == start.body && ctx.source == start.source);
        match lint.check(slug.as_str(), ctx) {
            None => {
                proof {
                    lemma_prefix_stops(lints@, default, start, i + 1, lints@.len() as int);
                }
                return None;
            },
            Some(Err(e)) => {
                proof {
                    lemma_prefix_stops(lints@, default, start, i + 1, lints@.len() as int);
                }
                return Some(Err(e));
            },
            Some(Ok(mut msgs)) => {
                let ghost before = out@.map_values(|m: Message| m@);
                let ghost more = msgs@.map_values(|m: Message| m@);
                out.append(&mut msgs);
                assert(out@.map_values(|m: Message| m@) =~= before + more);
            },
        }
        i += 1;
    }
    Some(Ok(out))
}


/// The numbers of the proposals that the first `k` lints read, in order.
pub open spec fn wanted_upto(lints: Seq<ConfiguredLint>, ctx: Context, k: int) -> Seq<nat>
    decreases k,
{
    if k <= 0 {
        seq![]
    } else {
        wanted_upto(lints, ctx, k - 1) + lints[k - 1].2.wants(ctx)
    }
}

/// The first of the first `k` lints that reads another proposal.
pub open spec fn first_reader(lints: Seq<ConfiguredLint>, ctx: Context, k: int) -> Option<int>
    decreases k,
{
    if k <= 0 {
        None
    } else {
        match first_reader(lints, ctx, k - 1) {
            Some(i) => Some(i),
            None => if lints[k - 1].2.wants(ctx).len() > 0 {
                Some(k - 1)
            } else {
                None
            },
        }
    }
}

/// Once a lint reads another proposal, it stays the first to.
proof fn lemma_first_reader_stays(lints: Seq<ConfiguredLint>, ctx: Context, i: int, k: int)
    requires
        0 <= i < k,
        first_reader(lints, ctx, i + 1) == Some(i),
    ensures
        first_reader(lints, ctx, k) == Some(i),
    decreases k,
{
    if k > i + 1 {
        lemma_first_reader_stays(lints, ctx, i, k - 1);
    }
}

/// The proposals to read for a proposal before linting it: each number that
/// one of the lints reads and that is not among `known`, once. A proposal
/// given as text, not as a file, cannot have others read for it: then the
/// slug of the first lint that would read one.
pub fn plan_fetches(lints: &Vec<ConfiguredLint>, ctx: &Context, is_text: bool, known: &Vec<u32>) -> (r: Result<
    Vec<u32>,
    String,
>)
    requires
        ctx.wf(),
    ensures
        r is Err <==> (is_text && first_reader(lints@, *ctx, lints@.len() as int) is Some),
        r matches Err(slug) ==> slug@ == lints@[first_reader(lints@, *ctx, lints@.len() as int)->0].0@,
        r matches Ok(v) ==> forall|i: int, j: int| 0 <= i < j < v@.len() ==> v@[i] != v@[j],
        r matches Ok(v) ==> forall|n: u32|
            v@.contains(n) <==> (wanted_upto(lints@, *ctx, lints@.len() as int).contains(n as nat)
                && !known@.contains(n)),
{
    let mut out: Vec<u32> = Vec::new();
    let mut i: usize = 0;
    while i < lints.len()
        invariant
            i <= lints@.len(),
            ctx.wf(),
            is_text ==> first_reader(lints@, *ctx, i as int) is None,
            forall|a: int, b: int| 0 <= a < b < out@.len() ==> out@[a] != out@[b],
            forall|n: u32|
                out@.contains(n) <==> (wanted_upto(lints@, *ctx, i as int).contains(n as nat) && !known@.contains(n)),
        decreases lints@.len() - i,
    {
        let w = lints[i].2.find_resources(ctx);
        let ghost prev = wanted_upto(lints@, *ctx, i as int);
        let ghost ws = w@.map_values(|n: u32| n as nat);
        if is_text && w.len() > 0 {
            proof {
                assert(ws.len() > 0);
                lemma_first_reader_stays(lints@, *ctx, i as int, lints@.len() as int);
            }
            return Err(lints[i].0.clone());
        }
        let mut j: usize = 0;
        while j < w.len()
            invariant
                i < lints@.len(),
                j <= w@.len(),
                ws == w@.map_values(|n: u32| n as nat),
                forall|a: int, b: int| 0 <= a < b < out@.len() ==> out@[a] != out@[b],
                forall|n: u32|
                    out@.contains(n) <==> ((prev + ws.take(j as int)).contains(n as nat) && !known@.contains(n)),
            decreases w@.len() - j,
        {
            let n = w[j];
            let ghost before = out@;
            let ghost old_all = prev + ws.take(j as int);
            let seen = contains_u32(known, n) || contains_u32(&out, n);
            if !seen {
                out.push(n);
            }
            proof {
                let all = prev + ws.take(j + 1);
                assert(ws[j as int] == n as nat);
                assert(ws.take(j + 1) =~= ws.take(j as int).push(n as nat));
                assert(all =~= old_all.push(n as nat));
                assert forall|m: u32| out@.contains(m) <==> (all.contains(m as nat) && !known@.contains(m)) by {
                    if all.contains(m as nat) && m != n {
                        let t = choose|t: int| 0 <= t < all.len() && all[t] == m as nat;
                        assert(t < old_all.len());
                        assert(old_all.contains(m as nat));
                    }
                    if old_all.contains(m as nat) {
                        let t = choose|t: int| 0 <= t < old_all.len() && old_all[t] == m as nat;
                        assert(all[t] == m as nat);
                    }
                    if m == n {
                        assert(all[old_all.len() as int] == m as nat);
                    }
                    if !seen {
                        assert(out@ == before.push(n));
                        if out@.contains(m) && m != n {
                            let t = choose|t: int| 0 <= t < out@.len() && out@[t] == m;
                            assert(before[t] == m);
                        }
                        if before.contains(m) {
                            let t = choose|t: int| 0 <= t < before.len() && before[t] == m;
                            assert(out@[t] == m);
                        }
                        if m == n {
                            assert(out@[before.len() as int] == m);
                        }
                    } else if m == n && !known@.contains(m) {
                        let t = choose|t: int| 0 <= t < before.len() && before[t] == n;
                        assert(before.contains(n));
                    }
                }
                if !seen {
                    assert forall|a: int, b: int| 0 <= a < b < out@.len() implies out@[a] != out@[b] by {
                        if b == out@.len() - 1 {
                            assert(before[a] == out@[a]);
                            assert(before.contains(out@[a]));
                        }
                    }
                }
            }
            j += 1;
        }
        proof {
            assert(ws.take(ws.len() as int) =~= ws);
        }
        i += 1;
    }
    Ok(out)
}

} // verus!
