//! Table-driven placeholder replacement and its repetition to a fixpoint.
use vstd::prelude::*;
use aho_corasick::AhoCorasick;
use crate::text::{trim, trim_of};

verus! {

#[verifier::external_type_specification]
#[verifier::external_body]
pub struct ExAhoCorasick(AhoCorasick);

/// Whether a matcher over these patterns stays within the automaton's limits.
pub uninterp spec fn matcher_builds(patterns: Seq<Seq<char>>) -> bool;

/// The text that one simultaneous replacement pass over `haystack` yields,
/// each match of `patterns[i]` becoming `replacements[i]`.
pub uninterp spec fn replaced_all(
    patterns: Seq<Seq<char>>,
    replacements: Seq<Seq<char>>,
    haystack: Seq<char>,
) -> Seq<char>;

/// The upper-case form of a text.
pub uninterp spec fn upper_of(s: Seq<char>) -> Seq<char>;

/// Relies on `str::to_uppercase`: the result depends on the characters alone.
#[verifier::external_body]
pub(crate) fn uppercase(s: &str) -> (r: String)
    ensures
        r@ == upper_of(s@),
{
    s.to_uppercase()
}

/// Passes after the first that a value may take to stop changing.
pub const MAX_EXTRA_PASSES: usize = 64;

/// A compiled placeholder table: patterns and what each becomes.
pub struct Substitutor {
    patterns: Vec<String>,
    replacements: Vec<String>,
    matcher: AhoCorasick,
}

impl Substitutor {
    pub closed spec fn patterns(&self) -> Seq<Seq<char>> {
        self.patterns.deep_view()
    }

    pub closed spec fn replacements(&self) -> Seq<Seq<char>> {
        self.replacements.deep_view()
    }

    pub closed spec fn wf(&self) -> bool {
        self.patterns.len() == self.replacements.len()
    }

    /// Relies on `AhoCorasick::new`: it builds a matcher over exactly the given
    /// patterns, in order, or fails when the automaton would be too large.
    #[verifier::external_body]
    pub(crate) fn new(patterns: Vec<String>, replacements: Vec<String>) -> (r: Option<Substitutor>)
        requires
            patterns.len() == replacements.len(),
        ensures
            r is Some <==> matcher_builds(patterns.deep_view()),
            r matches Some(s) ==> s.wf() && s.patterns() == patterns.deep_view()
                && s.replacements() == replacements.deep_view(),
    {
        match AhoCorasick::new(&patterns) {
            Ok(matcher) => Some(Substitutor { patterns, replacements, matcher }),
            Err(_) => None,
        }
    }

    /// Relies on `AhoCorasick::replace_all`: one pass over the haystack that
    /// replaces each reported match by the replacement at its pattern's index.
    /// It panics only when the replacements do not match the patterns in number.
    #[verifier::external_body]
    pub(crate) fn replace(&self, haystack: &str) -> (r: String)
        requires
            self.wf(),
        ensures
            r@ == replaced_all(self.patterns(), self.replacements(), haystack@),
    {
        self.matcher.replace_all(haystack, &self.replacements)
    }

    /// Replaces the trimmed value until a pass changes nothing, allowing
    /// `fuel` passes after the first.
    pub fn settle(&self, value: &String) -> (r: Option<String>)
        requires
            self.wf(),
        ensures
            r.deep_view() == settled(
                self.patterns(),
                self.replacements(),
                value@,
                MAX_EXTRA_PASSES as nat,
            ),
    {
        let mut current = value.clone();
        let mut fuel: usize = MAX_EXTRA_PASSES;
        loop
            invariant
                self.wf(),
                settled(self.patterns(), self.replacements(), value@, MAX_EXTRA_PASSES as nat)
                    == settled(self.patterns(), self.replacements(), current@, fuel as nat),
            decreases fuel,
        {
            let trimmed = trim(current.as_str());
            let next = self.replace(trimmed.as_str());
            if next == current {
                return Some(current);
            }
            if fuel == 0 {
                return None;
            }
            fuel = fuel - 1;
            current = next;
        }
    }
}

/// The value that repeated passes over the trimmed value reach, if one
/// comes within `fuel` passes after the first.
pub open spec fn settled(
    patterns: Seq<Seq<char>>,
    replacements: Seq<Seq<char>>,
    value: Seq<char>,
    fuel: nat,
) -> Option<Seq<char>>
    decreases fuel,
{
    let next = replaced_all(patterns, replacements, trim_of(value));
    if next == value {
        Some(value)
    } else if fuel == 0 {
        None
    } else {
        settled(patterns, replacements, next, (fuel - 1) as nat)
    }
}

/// A settled value is fully resolved: one more pass over it, trimmed, finds
/// nothing left to replace and gives the value back.
pub proof fn lemma_settled_is_fixpoint(
    patterns: Seq<Seq<char>>,
    replacements: Seq<Seq<char>>,
    value: Seq<char>,
    fuel: nat,
)
    ensures
        settled(patterns, replacements, value, fuel) matches Some(r) ==> replaced_all(
            patterns,
            replacements,
            trim_of(r),
        ) == r,
    decreases fuel,
{
    let next = replaced_all(patterns, replacements, trim_of(value));
    if next != value && fuel > 0 {
        lemma_settled_is_fixpoint(patterns, replacements, next, (fuel - 1) as nat);
    }
}

} // verus!
