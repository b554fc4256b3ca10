//! The rule for text of any other script: a place to elongate is wherever a
//! cluster joins the one after it, with no ranking among such places.

use crate::arabic::{first, Candidate};
use crate::letters::{fits, holds, opt_has, start, Class, Letter, Span};
use vstd::prelude::*;

verus! {

/// Three adjacent clusters of a word; `None` stands past its end.
pub type Triple = (Option<Span>, Option<Span>, Option<Span>);

/// The candidate, if any, for the window `w` of the text `s`: before the
/// second cluster, where the first joins it. All such places rank alike.
pub open spec fn generic_rule(s: Seq<Letter>, w: Triple) -> Option<Candidate> {
    if holds(s, w.0, Class::JoinsFollowing) && holds(s, w.1, Class::JoinsPreceding) {
        Some((start(w.1), 0))
    } else {
        None
    }
}

/// Whether every cluster of the window lies within `s`.
pub open spec fn triple_fits(s: Seq<Letter>, w: Triple) -> bool {
    fits(s, w.0) && fits(s, w.1) && fits(s, w.2)
}

/// The candidate that the rule gives for the window `w`.
pub fn generic_candidate(s: &Vec<Letter>, w: Triple) -> (r: Option<Candidate>)
    requires
        triple_fits(s@, w),
    ensures
        r == generic_rule(s@, w),
{
    if opt_has(s, w.0, Class::JoinsFollowing) && opt_has(s, w.1, Class::JoinsPreceding) {
        Some((first(w.1), 0))
    } else {
        None
    }
}

/// The places to elongate in `input` by the rules for any cursive script: the byte
/// offset of the best candidate of each word, best first.
pub fn find_kashidas(input: &str) -> (r: Vec<usize>)
    ensures
        crate::rank::ranked(input@, crate::Script::Unknown, r@),
        crate::segment::segmented(input@),
{
    crate::rank::find_ranked(input, crate::Script::Unknown)
}

} // verus!
