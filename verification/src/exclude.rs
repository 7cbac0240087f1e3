//! The exclusion filter: ordered allow/deny glob rules, evaluated against
//! paths relative to the project root. The globs themselves are matched by
//! the `ignore` crate; this module declares that crate's matcher and builder
//! and gives their operations contracts over the list of glob lines added.

use vstd::prelude::*;

use vstd::string::{StrSliceExecFns, StringExecFns};

verus! {

#[verifier::external_type_specification]
#[verifier::external_body]
pub struct ExOverride(ignore::overrides::Override);

#[verifier::external_type_specification]
#[verifier::external_body]
pub struct ExOverrideBuilder(ignore::overrides::OverrideBuilder);

/// The glob lines an override matcher was built from, in the order they
/// were added.
pub uninterp spec fn override_globs(ov: ignore::overrides::Override) -> Seq<Seq<char>>;

/// The glob lines added to a builder so far, in order.
pub uninterp spec fn builder_globs(b: ignore::overrides::OverrideBuilder) -> Seq<Seq<char>>;

/// What `Override::matched(..).is_ignore()` decides for a path, as a
/// function of the glob lines and the path alone.
pub uninterp spec fn glob_ignores(globs: Seq<Seq<char>>, path: Seq<char>, is_dir: bool) -> bool;

/// Whether a glob line parses: `OverrideBuilder::add` accepts or rejects a
/// line as a function of the line alone, under the fixed options every
/// builder of this crate uses (case-sensitive, unclosed classes rejected).
pub uninterp spec fn glob_parses(line: Seq<char>) -> bool;

/// Whether a set of glob lines, all individually parsed, compiles into a
/// matcher: what `OverrideBuilder::build` decides, a function of the
/// accumulated lines alone under the same fixed options.
pub uninterp spec fn glob_set_builds(globs: Seq<Seq<char>>) -> bool;

/// Relies on `ignore::overrides::Override::empty`: an empty matcher never
/// matches any file path.
#[verifier::external_body]
pub(crate) fn override_empty() -> (ov: ignore::overrides::Override)
    ensures
        override_globs(ov) == Seq::<Seq<char>>::empty(),
        forall|p: Seq<char>, d: bool| !glob_ignores(override_globs(ov), p, d),
{
    ignore::overrides::Override::empty()
}

/// Relies on `ignore::overrides::OverrideBuilder::new`: a fresh builder has
/// no globs. It is rooted at `.`, so matching strips nothing from the
/// root-relative paths handed to the matcher.
#[verifier::external_body]
pub(crate) fn builder_new() -> (b: ignore::overrides::OverrideBuilder)
    ensures
        builder_globs(b) == Seq::<Seq<char>>::empty(),
{
    ignore::overrides::OverrideBuilder::new(".")
}

/// Relies on `ignore::overrides::OverrideBuilder::add`: it errs exactly
/// when its glob parser rejects the line, a function of the line alone; on
/// success the line is appended to the set, and a rejected line leaves the
/// builder unchanged.
#[verifier::external_body]
pub(crate) fn builder_add(b: &mut ignore::overrides::OverrideBuilder, glob: &str) -> (r: bool)
    ensures
        r == glob_parses(glob@),
        r ==> builder_globs(*final(b)) == builder_globs(*old(b)).push(glob@),
        !r ==> builder_globs(*final(b)) == builder_globs(*old(b)),
{
    b.add(glob).is_ok()
}

/// Relies on `ignore::overrides::OverrideBuilder::build`: whether the
/// accumulated globs compile into a matcher is a function of those lines
/// alone, and on success the matcher holds exactly them.
#[verifier::external_body]
pub(crate) fn builder_build(b: &ignore::overrides::OverrideBuilder) -> (r: Option<
    ignore::overrides::Override,
>)
    ensures
        r is Some == glob_set_builds(builder_globs(*b)),
        r matches Some(ov) ==> override_globs(ov) == builder_globs(*b),
{
    b.build().ok()
}

/// Relies on `ignore::overrides::Override::matched`: whether the path is
/// ignored is a function of the globs, the path and whether it is a
/// directory.
#[verifier::external_body]
pub(crate) fn override_is_ignored(
    ov: &ignore::overrides::Override,
    path: &str,
    is_dir: bool,
) -> (r: bool)
    ensures
        r == glob_ignores(override_globs(*ov), path@, is_dir),
{
    ov.matched(path, is_dir).is_ignore()
}

/// An exclusion filter that excludes nothing.
pub fn empty_exclude() -> (ov: ignore::overrides::Override)
    ensures
        override_globs(ov) == Seq::<Seq<char>>::empty(),
        forall|p: Seq<char>, d: bool| !glob_ignores(override_globs(ov), p, d),
{
    override_empty()
}

/// A `./` prefix on an exclusion entry is superfluous and removed, as often
/// as it occurs.
pub open spec fn trim_dot_slash(g: Seq<char>) -> Seq<char>
    decreases g.len(),
{
    if g.len() >= 2 && g[0] == '.' && g[1] == '/' {
        trim_dot_slash(g.skip(2))
    } else {
        g
    }
}

/// What one manifest exclusion entry contributes: entries that start with
/// `!` are not supported and are dropped; any other entry is trimmed of
/// leading `./` and negated, turning the allow-glob into a deny-glob.
pub open spec fn exclude_line(g: Seq<char>) -> Option<Seq<char>> {
    if g.len() > 0 && g[0] == '!' {
        None
    } else {
        Some(seq!['!'] + trim_dot_slash(g))
    }
}

/// The glob lines a list of manifest exclusion entries contributes, in
/// order.
pub open spec fn exclude_lines(gs: Seq<Seq<char>>) -> Seq<Seq<char>>
    decreases gs.len(),
{
    if gs.len() == 0 {
        Seq::empty()
    } else {
        exclude_lines(gs.drop_last()) + match exclude_line(gs.last()) {
            Some(l) => seq![l],
            None => Seq::empty(),
        }
    }
}

/// Every glob line a list of exclusion entries contributes parses.
pub open spec fn exclude_lines_parse(gs: Seq<Seq<char>>) -> bool
    decreases gs.len(),
{
    if gs.len() == 0 {
        true
    } else {
        exclude_lines_parse(gs.drop_last()) && match exclude_line(gs.last()) {
            Some(l) => glob_parses(l),
            None => true,
        }
    }
}

/// An unparsable line in a prefix stays unparsable in the whole list.
proof fn lemma_exclude_lines_parse_prefix(gs: Seq<Seq<char>>, j: int)
    requires
        0 <= j <= gs.len(),
        !exclude_lines_parse(gs.take(j)),
    ensures
        !exclude_lines_parse(gs),
    decreases gs.len() - j,
{
    if j == gs.len() {
        assert(gs.take(j) =~= gs);
    } else {
        assert(gs.take(j + 1).drop_last() =~= gs.take(j));
        lemma_exclude_lines_parse_prefix(gs, j + 1);
    }
}

/// Build the exclusion filter from the caller-supplied exclusion globs.
///
/// Succeeds exactly when every contributed glob line parses and the set
/// compiles; the matcher then holds exactly those lines. A rejected line or
/// an uncompilable set yields nothing.
pub fn exclude_filter_from_globs(globs: &Vec<String>) -> (r: Option<ignore::overrides::Override>)
    ensures
        r is Some == (exclude_lines_parse(globs.deep_view()) && glob_set_builds(
            exclude_lines(globs.deep_view()),
        )),
        r matches Some(ov) ==> override_globs(ov) == exclude_lines(globs.deep_view()),
{
    let mut b = builder_new();
    let mut i: usize = 0;
    while i < globs.len()
        invariant
            i <= globs@.len(),
            builder_globs(b) == exclude_lines(globs.deep_view().take(i as int)),
            exclude_lines_parse(globs.deep_view().take(i as int)),
        decreases globs@.len() - i,
    {
        let g = &globs[i];
        let ghost pre = globs.deep_view().take(i as int);
        proof {
            assert(globs.deep_view().take(i + 1 as int).drop_last() =~= pre);
            assert(globs.deep_view().take(i + 1 as int).last() == g@);
        }
        let n = g.as_str().unicode_len();
        if n > 0 && g.as_str().get_char(0) == '!' {
            // Entries that negate are not supported: skipped.
            proof {
                assert(exclude_line(g@) is None);
                assert(exclude_lines(globs.deep_view().take(i + 1 as int)) =~= exclude_lines(pre));
            }
        } else {
            let trimmed = trim_leading_dot_slash(g.as_str());
            let mut line = String::from_str("!");
            line.append(trimmed);
            proof {
                reveal_strlit("!");
                assert(line@ =~= seq!['!'] + trim_dot_slash(g@));
                assert(exclude_line(g@) == Some(line@));
            }
            let added = builder_add(&mut b, line.as_str());
            if !added {
                proof {
                    assert(!exclude_lines_parse(globs.deep_view().take(i + 1 as int)));
                    lemma_exclude_lines_parse_prefix(globs.deep_view(), i + 1 as int);
                }
                return None;
            }
            proof {
                assert(exclude_lines(globs.deep_view().take(i + 1 as int)) =~= exclude_lines(
                    pre,
                ).push(line@));
                assert(builder_globs(b) =~= exclude_lines(pre).push(line@));
            }
        }
        i += 1;
    }
    assert(globs.deep_view().take(globs.deep_view().len() as int) =~= globs.deep_view());
    builder_build(&b)
}

/// Strip every leading `./` from a glob entry.
fn trim_leading_dot_slash(g: &str) -> (r: &str)
    ensures
        r@ == trim_dot_slash(g@),
{
    let mut s = g;
    loop
        invariant
            trim_dot_slash(s@) == trim_dot_slash(g@),
        decreases s@.len(),
    {
        let n = s.unicode_len();
        if n >= 2 && s.get_char(0) == '.' && s.get_char(1) == '/' {
            s = s.substring_char(2, n);
        } else {
            return s;
        }
    }
}

} // verus!
