//! Sets of glob patterns that select paths.

use globset::{Glob, GlobSet, GlobSetBuilder};
use vstd::prelude::*;

use crate::text::texts;

verus! {

/// A set of glob patterns, ready to match paths.
#[verifier::external_type_specification]
#[verifier::external_body]
pub struct ExGlobSet(GlobSet);

/// A set of glob patterns in the making.
#[verifier::external_type_specification]
#[verifier::external_body]
pub struct ExGlobSetBuilder(GlobSetBuilder);

/// What `globset` reports when a pattern or a set is refused.
#[verifier::external_type_specification]
#[verifier::external_body]
pub struct ExGlobError(globset::Error);

/// The patterns that a builder holds, in the order in which they were added.
pub uninterp spec fn builder_patterns(builder: GlobSetBuilder) -> Seq<Seq<char>>;

/// The target that a builder was made for. It decides whether a backslash
/// separates the components of a path, and how much memory a pattern takes.
pub uninterp spec fn builder_target(builder: GlobSetBuilder) -> int;

/// The patterns that a set was built from.
pub uninterp spec fn set_patterns(set: GlobSet) -> Seq<Seq<char>>;

/// The target that a set was built for.
pub uninterp spec fn set_target(set: GlobSet) -> int;

/// Whether `globset` accepts a pattern on a target.
pub uninterp spec fn glob_parses(target: int, pattern: Seq<char>) -> bool;

/// Whether `globset` can hold all of these patterns in one set on a target.
pub uninterp spec fn globs_fit(target: int, patterns: Seq<Seq<char>>) -> bool;

/// Whether a pattern matches a path on a target, as `globset` finds it.
pub uninterp spec fn glob_matches(target: int, pattern: Seq<char>, path: Seq<char>) -> bool;

/// The pattern that matches every path.
pub open spec fn everything() -> Seq<char> {
    "**"@
}

/// The pattern that matches the paths with a dot in them.
pub open spec fn any_dotted() -> Seq<char> {
    "**/*.*"@
}

/// Whether a pattern is free of classes, alternatives and backslashes. Nothing
/// in such a pattern can be malformed.
pub open spec fn plain_pattern(pattern: Seq<char>) -> bool {
    forall|i: int|
        0 <= i < pattern.len() ==> pattern[i] != '[' && pattern[i] != '{' && pattern[i] != '}'
            && pattern[i] != '\\'
}

/// Whether a pattern is well-formed on a target.
pub open spec fn pattern_parses(target: int, pattern: Seq<char>) -> bool {
    plain_pattern(pattern) || glob_parses(target, pattern)
}

/// Whether patterns can be held together in one set on a target.
pub open spec fn patterns_fit(target: int, patterns: Seq<Seq<char>>) -> bool {
    ||| patterns.len() == 0
    ||| patterns == seq![everything()]
    ||| patterns == seq![any_dotted()]
    ||| globs_fit(target, patterns)
}

/// Whether a pattern matches a path on a target.
pub open spec fn pattern_matches(target: int, pattern: Seq<char>, path: Seq<char>) -> bool {
    if pattern == everything() {
        true
    } else if pattern == any_dotted() {
        path.contains('.')
    } else {
        glob_matches(target, pattern, path)
    }
}

/// Whether a path is matched by any pattern of a set.
pub open spec fn set_matches(set: GlobSet, path: Seq<char>) -> bool {
    exists|i: int|
        0 <= i < set_patterns(set).len() && #[trigger] pattern_matches(
            set_target(set),
            set_patterns(set)[i],
            path,
        )
}

/// Calls `globset::GlobSetBuilder::new`: the builder holds no pattern. Which
/// target it is made for is left open.
#[verifier::external_body]
pub(crate) fn new_builder() -> (r: GlobSetBuilder)
    ensures
        builder_patterns(r) == Seq::<Seq<char>>::empty(),
{
    GlobSetBuilder::new()
}

/// Parses a pattern with `globset::Glob::new` and hands it to
/// `globset::GlobSetBuilder::add`, which puts it behind the others. Whether a
/// pattern parses is a function of its text and the target, which tells whether
/// a backslash escapes what follows it. Only brackets, braces and backslashes
/// can be misplaced, so a pattern without them always parses. A pattern that
/// does not parse is not added.
#[verifier::external_body]
pub(crate) fn add_pattern(builder: &mut GlobSetBuilder, pattern: &str) -> (r: Result<
    (),
    globset::Error,
>)
    ensures
        r is Ok == (plain_pattern(pattern@) || glob_parses(builder_target(*old(builder)), pattern@)),
        r is Ok ==> builder_patterns(*final(builder)) == builder_patterns(*old(builder)).push(
            pattern@,
        ),
        r is Err ==> builder_patterns(*final(builder)) == builder_patterns(*old(builder)),
        builder_target(*final(builder)) == builder_target(*old(builder)),
{
    builder.add(Glob::new(pattern)?);
    Ok(())
}

/// Calls `globset::GlobSetBuilder::build`. The set holds the builder's patterns,
/// for the builder's target. Building fails only where the compiled form outgrows
/// a limit, which no pattern at all, `**` alone and `**/*.*` alone never do. For
/// other patterns it is a function of the patterns and the target.
#[verifier::external_body]
pub(crate) fn build(builder: &GlobSetBuilder) -> (r: Result<GlobSet, globset::Error>)
    ensures
        r is Ok == (builder_patterns(*builder).len() == 0 || builder_patterns(*builder) == seq![
            everything(),
        ] || builder_patterns(*builder) == seq![any_dotted()] || globs_fit(
            builder_target(*builder),
            builder_patterns(*builder),
        )),
        r matches Ok(set) ==> set_patterns(set) == builder_patterns(*builder),
        r matches Ok(set) ==> set_target(set) == builder_target(*builder),
{
    builder.build()
}

/// Calls `globset::GlobSet::is_match`: true when any pattern of the set matches
/// the path. The pattern `**` matches every path, and `**/*.*` the paths that
/// have a dot in them. What any other pattern matches is a function of pattern,
/// path and target.
#[verifier::external_body]
pub(crate) fn is_match(set: &GlobSet, path: &str) -> (r: bool)
    ensures
        r == (exists|i: int|
            0 <= i < set_patterns(*set).len() && (if (#[trigger] set_patterns(*set)[i])
                == everything() {
                true
            } else if set_patterns(*set)[i] == any_dotted() {
                path@.contains('.')
            } else {
                glob_matches(set_target(*set), set_patterns(*set)[i], path@)
            })),
{
    set.is_match(path)
}

/// Tells whether a path is matched by any pattern of a set.
pub fn matches_any(set: &GlobSet, path: &str) -> (r: bool)
    ensures
        r == set_matches(*set, path@),
{
    let r = is_match(set, path);
    proof {
        let patterns = set_patterns(*set);
        let target = set_target(*set);
        if r {
            let i = choose|i: int|
                0 <= i < patterns.len() && pattern_matches(
                    target,
                    #[trigger] patterns[i],
                    path@,
                );
            assert(pattern_matches(target, patterns[i], path@));
        }
    }
    r
}

/// The message of a `globset::Error`, as its `Display` gives it. Nothing is said
/// of the wording.
#[verifier::external_body]
pub(crate) fn message(error: &globset::Error) -> String {
    error.to_string()
}

/// Why a set of patterns could not be built.
#[derive(Debug)]
pub enum GlobError {
    /// A pattern is malformed.
    Pattern {
        /// Position of the pattern in the list.
        index: usize,
        /// The pattern.
        pattern: String,
        /// What is wrong with it.
        message: String,
    },
    /// The patterns together are more than a set can hold.
    TooLarge {
        /// What went wrong.
        message: String,
    },
}

/// Whether all of the patterns are well-formed on a target.
pub open spec fn all_parse(target: int, patterns: Seq<Seq<char>>) -> bool {
    forall|i: int| 0 <= i < patterns.len() ==> pattern_parses(target, #[trigger] patterns[i])
}

/// What building a set from a list of patterns comes to on a target. The first
/// malformed pattern is reported. Well-formed patterns that do not fit together
/// are too large. Any others make a set that holds exactly them, in order.
pub open spec fn built_on(
    target: int,
    r: Result<GlobSet, GlobError>,
    patterns: Seq<Seq<char>>,
) -> bool {
    &&& r is Ok <==> all_parse(target, patterns) && patterns_fit(target, patterns)
    &&& r matches Ok(set) ==> set_patterns(set) == patterns && set_target(set) == target
    &&& r matches Err(GlobError::Pattern { index, pattern, .. }) ==> {
        &&& index < patterns.len()
        &&& pattern@ == patterns[index as int]
        &&& !pattern_parses(target, pattern@)
        &&& all_parse(target, patterns.take(index as int))
    }
    &&& r matches Err(GlobError::TooLarge { .. }) ==> all_parse(target, patterns)
}

/// What building a set from a list of patterns comes to on the target that the
/// program runs on.
pub open spec fn built_from(r: Result<GlobSet, GlobError>, patterns: Seq<Seq<char>>) -> bool {
    exists|target: int| built_on(target, r, patterns)
}

/// Builds a set from a list of patterns. Stops at the first that is malformed.
pub fn glob_set(patterns: &Vec<String>) -> (r: Result<GlobSet, GlobError>)
    ensures
        built_from(r, texts(patterns@)),
{
    let mut builder = new_builder();
    let ghost target = builder_target(builder);
    let ghost all = texts(patterns@);
    let mut i: usize = 0;
    assert(all.take(0) =~= Seq::<Seq<char>>::empty());
    while i < patterns.len()
        invariant
            i <= patterns.len(),
            all == texts(patterns@),
            builder_target(builder) == target,
            builder_patterns(builder) == all.take(i as int),
            all_parse(target, all.take(i as int)),
        decreases patterns.len() - i,
    {
        match add_pattern(&mut builder, patterns[i].as_str()) {
            Ok(_) => {},
            Err(e) => {
                let r = Err(
                    GlobError::Pattern {
                        index: i,
                        pattern: patterns[i].clone(),
                        message: message(&e),
                    },
                );
                assert(!pattern_parses(target, all[i as int]));
                assert(built_on(target, r, all));
                return r;
            },
        }
        proof {
            assert(all.take(i + 1) =~= all.take(i as int).push(all[i as int]));
            assert forall|j: int| 0 <= j < i + 1 implies pattern_parses(
                target,
                #[trigger] all.take(i + 1)[j],
            ) by {
                if j < i {
                    assert(all.take(i as int)[j] == all.take(i + 1)[j]);
                }
            }
        }
        i += 1;
    }
    assert(all.take(patterns.len() as int) =~= all);
    let r = match build(&builder) {
        Ok(set) => Ok(set),
        Err(e) => Err(GlobError::TooLarge { message: message(&e) }),
    };
    assert(built_on(target, r, all));
    r
}

/// A set matches a path where one of its patterns does: `**` matches any, `**/*.*`
/// one with a dot in it, and any other pattern what `globset` finds.
pub proof fn law_set_matches(set: GlobSet, path: Seq<char>)
    ensures
        set_matches(set, path) <==> exists|i: int|
            0 <= i < set_patterns(set).len() && ({
                let p = #[trigger] set_patterns(set)[i];
                ||| p == "**"@
                ||| p == "**/*.*"@ && path.contains('.')
                ||| p != "**"@ && p != "**/*.*"@ && glob_matches(set_target(set), p, path)
            }),
{
    reveal_strlit("**");
    reveal_strlit("**/*.*");
    let patterns = set_patterns(set);
    let target = set_target(set);
    if set_matches(set, path) {
        let i = choose|i: int|
            0 <= i < patterns.len() && #[trigger] pattern_matches(target, patterns[i], path);
        let p = patterns[i];
        assert(p == "**"@ || (p == "**/*.*"@ && path.contains('.')) || (p != "**"@ && p
            != "**/*.*"@ && glob_matches(target, p, path)));
    }
    if exists|i: int|
        0 <= i < patterns.len() && ({
            let p = #[trigger] patterns[i];
            ||| p == "**"@
            ||| p == "**/*.*"@ && path.contains('.')
            ||| p != "**"@ && p != "**/*.*"@ && glob_matches(target, p, path)
        }) {
        let i = choose|i: int|
            0 <= i < patterns.len() && ({
                let p = #[trigger] patterns[i];
                ||| p == "**"@
                ||| p == "**/*.*"@ && path.contains('.')
                ||| p != "**"@ && p != "**/*.*"@ && glob_matches(target, p, path)
            });
        assert("**"@.len() == 2 && "**/*.*"@.len() == 6);
        assert(pattern_matches(target, patterns[i], path));
    }
}

/// Building a set gives the patterns themselves in their order, or names one of
/// them that `globset` refuses while it takes all before it. Patterns without
/// brackets, braces and backslashes are never refused, and no patterns, `**` and
/// `**/*.*` always make a set.
pub proof fn law_built_from(r: Result<GlobSet, GlobError>, patterns: Seq<Seq<char>>)
    requires
        built_from(r, patterns),
    ensures
        r matches Ok(set) ==> set_patterns(set) == patterns && forall|i: int|
            0 <= i < patterns.len() ==> glob_parses(set_target(set), #[trigger] patterns[i])
                || !(patterns[i].contains('[') || patterns[i].contains('{')
                || patterns[i].contains('}') || patterns[i].contains('\\')),
        r matches Err(GlobError::Pattern { index, pattern, .. }) ==> {
            &&& index < patterns.len()
            &&& pattern@ == patterns[index as int]
            &&& pattern@.contains('[') || pattern@.contains('{') || pattern@.contains('}')
                || pattern@.contains('\\')
            &&& exists|target: int|
                !(#[trigger] glob_parses(target, pattern@)) && forall|i: int|
                    0 <= i < index ==> glob_parses(target, #[trigger] patterns[i]) || !(
                    patterns[i].contains('[') || patterns[i].contains('{')
                        || patterns[i].contains('}') || patterns[i].contains('\\'))
        },
        r matches Err(GlobError::TooLarge { .. }) ==> exists|target: int| !#[trigger]
            globs_fit(target, patterns) && forall|i: int|
                0 <= i < patterns.len() ==> glob_parses(target, #[trigger] patterns[i]) || !(
                patterns[i].contains('[') || patterns[i].contains('{') || patterns[i].contains('}')
                    || patterns[i].contains('\\')),
        patterns.len() == 0 || patterns == seq!["**"@] || patterns == seq!["**/*.*"@] ==> r is Ok,
{
    reveal_strlit("**");
    reveal_strlit("**/*.*");
    let target = choose|target: int| built_on(target, r, patterns);
    assert forall|p: Seq<char>| #[trigger] plain_pattern(p) <==> !(p.contains('[') || p.contains(
        '{',
    ) || p.contains('}') || p.contains('\\')) by {
        if plain_pattern(p) {
            assert(!p.contains('[') && !p.contains('{') && !p.contains('}') && !p.contains('\\'));
        } else {
            let i = choose|i: int|
                0 <= i < p.len() && !(p[i] != '[' && p[i] != '{' && p[i] != '}' && p[i] != '\\');
            assert(p.contains(p[i]));
        }
    }
    assert(plain_pattern("**"@));
    assert(plain_pattern("**/*.*"@));
    assert forall|n: int, i: int| 0 <= i < n <= patterns.len() && all_parse(
        target,
        patterns.take(n),
    ) implies pattern_parses(target, #[trigger] patterns[i]) && #[trigger] patterns.take(n).len()
        == n by {
        assert(patterns.take(n)[i] == patterns[i]);
    }
    assert(patterns.take(patterns.len() as int) =~= patterns);
    match r {
        Ok(set) => {
            assert(all_parse(target, patterns));
        },
        Err(GlobError::Pattern { index, pattern, .. }) => {
            assert(!glob_parses(target, pattern@));
            assert(all_parse(target, patterns.take(index as int)));
            assert forall|i: int| 0 <= i < index implies glob_parses(target, #[trigger] patterns[i])
                || plain_pattern(patterns[i]) by {
                assert(patterns.take(index as int)[i] == patterns[i]);
            }
            if patterns == seq!["**"@] {
                assert(patterns[index as int] == "**"@);
            }
            if patterns == seq!["**/*.*"@] {
                assert(patterns[index as int] == "**/*.*"@);
            }
        },
        Err(GlobError::TooLarge { .. }) => {
            assert(all_parse(target, patterns));
            assert(!globs_fit(target, patterns));
        },
    }
}

} // verus!
