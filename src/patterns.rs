use vstd::prelude::*;

use crate::paths::{pieces, split_at_char, views};
use crate::text::string_of;

verus! {

#[verifier::external_type_specification]
#[verifier::external_body]
pub struct ExPattern(glob::Pattern);

/// Whether `glob::Pattern::new` compiles the given text.
pub uninterp spec fn glob_compiles(pattern: Seq<char>) -> bool;

/// Whether a name matches the glob pattern compiled from the given text,
/// under `glob`'s default options (case-sensitive).
pub uninterp spec fn glob_matches(pattern: Seq<char>, name: Seq<char>) -> bool;

/// A compiled glob pattern together with the text it was compiled from.
///
/// Values are made only by `compile_glob`, so `compiled` is always the
/// compilation of `text`.
pub struct GlobPattern {
    text: String,
    compiled: glob::Pattern,
}

impl View for GlobPattern {
    type V = Seq<char>;

    closed spec fn view(&self) -> Seq<char> {
        self.text@
    }
}

/// Relies on `glob::Pattern::new`: it succeeds exactly on the texts that are
/// valid glob patterns, and the pattern it returns is kept with its text.
#[verifier::external_body]
fn compile_glob(text: &str) -> (r: Result<GlobPattern, glob::PatternError>)
    ensures
        r is Ok <==> glob_compiles(text@),
        r matches Ok(p) ==> p@ == text@,
{
    glob::Pattern::new(text).map(|compiled| GlobPattern { text: text.to_string(), compiled })
}

/// Relies on `glob::Pattern::matches`: whether `name` matches the pattern.
#[verifier::external_body]
fn glob_match(p: &GlobPattern, name: &str) -> (r: bool)
    ensures
        r == glob_matches(p@, name@),
{
    p.compiled.matches(name)
}

/// The texts of the patterns of a comma-separated list; an absent or empty
/// list has none.
pub open spec fn pattern_texts(list: Option<Seq<char>>) -> Seq<Seq<char>> {
    match list {
        None => Seq::empty(),
        Some(s) => if s.len() == 0 {
            Seq::empty()
        } else {
            pieces(s, ',')
        },
    }
}

/// The text of an optional string.
pub open spec fn opt_view(o: Option<String>) -> Option<Seq<char>> {
    match o {
        None => None,
        Some(s) => Some(s@),
    }
}

/// Some pattern of `pats` matches `name`.
pub open spec fn any_match(pats: Seq<Seq<char>>, name: Seq<char>) -> bool {
    exists|i: int| 0 <= i < pats.len() && glob_matches(#[trigger] pats[i], name)
}

/// The filter: a name is kept when no deny pattern matches it and, where
/// allow patterns are given, one of them does.
pub open spec fn filter_accepts(
    allow: Seq<Seq<char>>,
    deny: Seq<Seq<char>>,
    name: Seq<char>,
) -> bool {
    !any_match(deny, name) && (allow.len() == 0 || any_match(allow, name))
}

pub open spec fn pattern_views(ps: Seq<GlobPattern>) -> Seq<Seq<char>> {
    ps.map_values(|p: GlobPattern| p@)
}

/// Compiles a comma-separated list of glob patterns, in order. An absent or
/// empty list gives no patterns; the list fails where any piece fails.
pub fn compile_patterns(list: &Option<String>) -> (r: Result<Vec<GlobPattern>, glob::PatternError>)
    ensures
        r is Ok <==> all_compile(pattern_texts(opt_view(*list))),
        r matches Ok(ps) ==> pattern_views(ps@) == pattern_texts(opt_view(*list)),
{
    let ghost texts = pattern_texts(opt_view(*list));
    let mut out: Vec<GlobPattern> = Vec::new();
    match list {
        None => {
            assert(pattern_views(out@) =~= texts);
            Ok(out)
        },
        Some(s) => {
            if s.as_str().is_empty() {
                assert(pattern_views(out@) =~= texts);
                return Ok(out);
            }
            let parts = split_at_char(s.as_str(), ',');
            assert(views(parts@) == texts);
            let mut i: usize = 0;
            while i < parts.len()
                invariant
                    i <= parts.len(),
                    views(parts@) == texts,
                    texts == pattern_texts(opt_view(*list)),
                    pattern_views(out@) == texts.take(i as int),
                    forall|k: int| 0 <= k < i ==> glob_compiles(#[trigger] texts[k]),
                decreases parts.len() - i,
            {
                let text = string_of(&parts[i]);
                assert(text@ == texts[i as int]);
                match compile_glob(text.as_str()) {
                    Ok(p) => {
                        let ghost old_views = pattern_views(out@);
                        out.push(p);
                        assert(pattern_views(out@) =~= old_views.push(texts[i as int]));
                        assert(texts.take(i + 1) =~= texts.take(i as int).push(texts[i as int]));
                    },
                    Err(e) => {
                        assert(!glob_compiles(pattern_texts(opt_view(*list))[i as int]));
                        return Err(e);
                    },
                }
                i = i + 1;
            }
            assert(texts.take(texts.len() as int) == texts);
            Ok(out)
        },
    }
}

/// Whether some pattern of `ps` matches `name`.
pub fn matches_any(ps: &Vec<GlobPattern>, name: &str) -> (r: bool)
    ensures
        r == any_match(pattern_views(ps@), name@),
{
    let mut i: usize = 0;
    while i < ps.len()
        invariant
            i <= ps.len(),
            forall|k: int| 0 <= k < i ==> !glob_matches(#[trigger] pattern_views(ps@)[k], name@),
        decreases ps.len() - i,
    {
        if glob_match(&ps[i], name) {
            assert(glob_matches(pattern_views(ps@)[i as int], name@));
            return true;
        }
        i = i + 1;
    }
    false
}

/// The filter over compiled pattern sets (see `filter_accepts`).
pub fn accepts_name(allow: &Vec<GlobPattern>, deny: &Vec<GlobPattern>, name: &str) -> (r: bool)
    ensures
        r == filter_accepts(pattern_views(allow@), pattern_views(deny@), name@),
{
    if matches_any(deny, name) {
        return false;
    }
    allow.len() == 0 || matches_any(allow, name)
}

/// Every text of `texts` compiles.
pub open spec fn all_compile(texts: Seq<Seq<char>>) -> bool {
    forall|i: int| 0 <= i < texts.len() ==> glob_compiles(#[trigger] texts[i])
}

} // verus!
