//! The rule table for Syriac text, over the same windows of four clusters
//! as the Arabic one.

use crate::arabic::{first, is_elongation, joined, elongation, window_fits, Candidate, Window};
use crate::letters::{fits, holds, opt_has, start, Class, Letter, Span};
use vstd::prelude::*;

verus! {

/// Whether `a` is a Lamadh and `b` an Alaph: the pair renders as one
/// ligature and is not pulled apart.
pub open spec fn lamadh_alaph(s: Seq<Letter>, a: Option<Span>, b: Option<Span>) -> bool {
    holds(s, a, Class::Lamadh) && holds(s, b, Class::Alaph)
}

/// The candidate, if any, that the Syriac rules give for the window `w` of
/// the text `s`.
pub open spec fn syriac_rule(s: Seq<Letter>, w: Window) -> Option<Candidate> {
    let (g1, g2, g3, g4) = w;
    if is_elongation(s, g2) {
        Some((start(g2), 1))
    } else if joined(s, g1, g2) && !lamadh_alaph(s, g1, g2) && g3 is None && g4 is None {
        Some((start(g2), 9))
    } else if joined(s, g2, g3) && !lamadh_alaph(s, g2, g3) && g4 is None {
        Some((start(g3), 1))
    } else if joined(s, g1, g2) && !lamadh_alaph(s, g1, g2) {
        Some((start(g2), 2))
    } else {
        None
    }
}

fn ligature(s: &Vec<Letter>, a: Option<Span>, b: Option<Span>) -> (r: bool)
    requires
        fits(s@, a),
        fits(s@, b),
    ensures
        r == lamadh_alaph(s@, a, b),
{
    opt_has(s, a, Class::Lamadh) && opt_has(s, b, Class::Alaph)
}

fn joins(s: &Vec<Letter>, a: Option<Span>, b: Option<Span>) -> (r: bool)
    requires
        fits(s@, a),
        fits(s@, b),
    ensures
        r == joined(s@, a, b),
{
    opt_has(s, a, Class::JoinsFollowing) && opt_has(s, b, Class::JoinsPreceding)
}

/// The candidate that the Syriac rules give for the window `w`.
pub fn syriac_candidate(s: &Vec<Letter>, w: Window) -> (r: Option<Candidate>)
    requires
        window_fits(s@, w),
    ensures
        r == syriac_rule(s@, w),
{
    let (g1, g2, g3, g4) = w;
    if elongation(s, g2) {
        Some((first(g2), 1))
    } else if joins(s, g1, g2) && !ligature(s, g1, g2) && g3.is_none() && g4.is_none() {
        Some((first(g2), 9))
    } else if joins(s, g2, g3) && !ligature(s, g2, g3) && g4.is_none() {
        Some((first(g3), 1))
    } else if joins(s, g1, g2) && !ligature(s, g1, g2) {
        Some((first(g2), 2))
    } else {
        None
    }
}

/// The places to elongate in `input` by the rules for Syriac: the byte
/// offset of the best candidate of each word, best first.
pub fn find_kashidas(input: &str) -> (r: Vec<usize>)
    ensures
        crate::rank::ranked(input@, crate::Script::Syriac, r@),
        crate::segment::segmented(input@),
{
    crate::rank::find_ranked(input, crate::Script::Syriac)
}

} // verus!
