//! Name filtering by a regular expression.
//!
//! Compilation and matching are done by the `regex` crate behind two
//! trusted wrappers; everything around them — holding the pattern, walking
//! the names, keeping the order — is verified. What the expression engine
//! decides is named by two uninterpreted functions of the pattern and the
//! text alone, so the filter's contract is exact up to those names.

use vstd::prelude::*;

verus! {

/// Whether `pattern` is a regular expression that the engine accepts
/// (valid syntax, within the engine's default size limit). A fact of the
/// pattern text alone.
pub uninterp spec fn regex_pattern_ok(pattern: Seq<char>) -> bool;

/// Whether the regular expression `pattern` matches anywhere in `text`. A
/// fact of the pattern and the text alone.
pub uninterp spec fn regex_matches(pattern: Seq<char>, text: Seq<char>) -> bool;

#[verifier::external_type_specification]
#[verifier::external_body]
pub struct ExRegex(regex::Regex);

/// The text of each name.
pub open spec fn names_view(names: Seq<String>) -> Seq<Seq<char>> {
    names.map_values(|s: String| s@)
}

/// The names whose text the expression matches, in their original order.
pub open spec fn matching_names(pattern: Seq<char>, names: Seq<Seq<char>>) -> Seq<Seq<char>> {
    names.filter(|t: Seq<char>| regex_matches(pattern, t))
}

/// A compiled regular expression, kept together with the pattern text it
/// was compiled from.
pub struct Pattern {
    re: regex::Regex,
    src: String,
}

impl Pattern {
    /// The pattern text this value was compiled from.
    pub closed spec fn src(&self) -> Seq<char> {
        self.src@
    }

    /// Relies on `regex::Regex::new`: it returns `Ok` exactly when the
    /// pattern is accepted, which depends on the pattern text alone.
    #[verifier::external_body]
    pub fn compile(pattern: &str) -> (r: Option<Pattern>)
        ensures
            r is Some <==> regex_pattern_ok(pattern@),
            r matches Some(p) ==> p.src() == pattern@,
    {
        match regex::Regex::new(pattern) {
            Ok(re) => Some(Pattern { re, src: pattern.to_string() }),
            Err(_) => None,
        }
    }

    /// Relies on `regex::Regex::is_match`: whether the expression matches
    /// anywhere in `text`, which depends on the pattern and the text alone.
    #[verifier::external_body]
    pub fn is_match(&self, text: &str) -> (r: bool)
        ensures
            r == regex_matches(self.src(), text@),
    {
        self.re.is_match(text)
    }
}

/// Filtering one more name keeps it exactly when the expression matches.
proof fn lemma_matching_names_push(pattern: Seq<char>, names: Seq<Seq<char>>, t: Seq<char>)
    ensures
        matching_names(pattern, names.push(t)) == (if regex_matches(pattern, t) {
            matching_names(pattern, names).push(t)
        } else {
            matching_names(pattern, names)
        }),
{
    reveal(Seq::filter);
    assert(names.push(t).drop_last() =~= names);
    assert(names.push(t).last() == t);
}

/// Keep the names that the expression matches, in their original order.
pub fn filter_matching(p: &Pattern, names: &Vec<String>) -> (r: Vec<String>)
    ensures
        names_view(r@) == matching_names(p.src(), names_view(names@)),
{
    let mut out: Vec<String> = Vec::new();
    let mut i: usize = 0;
    while i < names.len()
        invariant
            i <= names@.len(),
            names_view(out@) == matching_names(p.src(), names_view(names@).subrange(0, i as int)),
        decreases names@.len() - i,
    {
        let ghost prefix = names_view(names@).subrange(0, i as int);
        proof {
            lemma_matching_names_push(p.src(), prefix, names@[i as int]@);
            assert(names_view(names@).subrange(0, i + 1) =~= prefix.push(names@[i as int]@));
        }
        if p.is_match(names[i].as_str()) {
            out.push(names[i].clone());
            proof {
                assert(names_view(out@) =~= matching_names(
                    p.src(),
                    names_view(names@).subrange(0, i + 1),
                ));
            }
        }
        i = i + 1;
    }
    proof {
        assert(names_view(names@).subrange(0, names@.len() as int) =~= names_view(names@));
    }
    out
}

} // verus!
