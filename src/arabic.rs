//! The rule table for Arabic text.
//!
//! A window holds four adjacent clusters of one word, `(g1, g2, g3, g4)`,
//! where a missing cluster stands past the end of the word. The rules are
//! tried in order and the first that matches decides the window: it yields
//! no candidate, or the index of the character before which the elongation
//! goes, with a priority (lower is better).

use crate::letters::{all, holds, opt_has, cluster_all, fits, start, Class, Letter, Span};
use vstd::prelude::*;

verus! {

/// Four adjacent clusters of a word; `None` stands past its end.
pub type Window = (Option<Span>, Option<Span>, Option<Span>, Option<Span>);

/// A place to elongate: the index of the character that the elongation
/// precedes, and its priority (lower is better).
pub type Candidate = (usize, usize);

/// The priority of an elongation before the last letter `g` of a word.
pub open spec fn final_priority(s: Seq<Letter>, g: Option<Span>) -> usize {
    if holds(s, g, Class::HehOrTehMarbuta) {
        2
    } else if holds(s, g, Class::TahKafOrLam) {
        3
    } else if holds(s, g, Class::AinFehOrQaf) {
        5
    } else {
        6
    }
}

/// The priority of an elongation before the letter `g` inside a word.
pub open spec fn medial_priority(s: Seq<Letter>, g: Option<Span>) -> usize {
    if holds(s, g, Class::DalOrTehMarbuta) {
        2
    } else if holds(s, g, Class::Alef) {
        4
    } else if holds(s, g, Class::Waw) {
        5
    } else {
        7
    }
}

/// Whether the window ends a word with the sacred name: Lam, Lam, then Heh
/// or Teh Marbuta closing the word.
pub open spec fn sacred_name(s: Seq<Letter>, w: Window) -> bool {
    &&& holds(s, w.0, Class::Lam)
    &&& holds(s, w.1, Class::Lam)
    &&& holds(s, w.2, Class::HehOrTehMarbuta)
    &&& w.3 is None
}

/// Whether the cluster `g` is present and holds elongation characters only.
pub open spec fn is_elongation(s: Seq<Letter>, g: Option<Span>) -> bool {
    g is Some && all(s, g->0, Class::Kashida)
}

/// Whether `a` is a Lam and `b` an Alef: the two render as one ligature.
pub open spec fn lam_alef(s: Seq<Letter>, a: Option<Span>, b: Option<Span>) -> bool {
    holds(s, a, Class::Lam) && holds(s, b, Class::Alef)
}

/// Whether `a` joins the letter `b` after it.
pub open spec fn joined(s: Seq<Letter>, a: Option<Span>, b: Option<Span>) -> bool {
    holds(s, a, Class::JoinsFollowing) && holds(s, b, Class::JoinsPreceding)
}

/// The candidate, if any, that the Arabic rules give for the window `w` of
/// the text `s`.
pub open spec fn arabic_rule(s: Seq<Letter>, w: Window) -> Option<Candidate> {
    let (g1, g2, g3, g4) = w;
    // The sacred name is never elongated.
    if sacred_name(s, w) {
        None
    // An elongation the author wrote is the place.
    } else if is_elongation(s, g2) {
        Some((start(g2), 0))
    // Lam and Alef form a ligature: not pulled apart, but the join before
    // the Lam may be elongated.
    } else if lam_alef(s, g1, g2) {
        None
    } else if holds(s, g1, Class::JoinsFollowing) && lam_alef(s, g2, g3) {
        Some((start(g2), 3))
    } else if holds(s, g2, Class::JoinsFollowing) && lam_alef(s, g3, g4) {
        Some((start(g3), 3))
    } else if g1 is Some && lam_alef(s, g2, g3) {
        None
    // A word of two joined letters: a last resort.
    } else if joined(s, g1, g2) && g3 is None && g4 is None {
        Some((start(g2), 9))
    // After a Seen or a Sad, the tooth shape stretches.
    } else if holds(s, g1, Class::SeenOrSad) && holds(s, g2, Class::JoinsPreceding) {
        Some((start(g2), 1))
    } else if holds(s, g2, Class::SeenOrSad) && holds(s, g3, Class::JoinsPreceding) {
        Some((start(g3), 1))
    // Before a tooth letter that a final Yeh, Meem or Noon follows.
    } else if holds(s, g1, Class::JoinsFollowing) && holds(s, g2, Class::Tooth) && (holds(
        s,
        g3,
        Class::FinalYehOrMeem,
    ) || holds(s, g3, Class::Noon)) && g4 is None {
        Some((start(g2), 4))
    // Before the last letter of the word, ranked by that letter.
    } else if joined(s, g2, g3) && g4 is None {
        Some((start(g3), final_priority(s, g3)))
    // Before a tooth letter that a Reh follows.
    } else if holds(s, g1, Class::JoinsFollowing) && holds(s, g2, Class::Tooth) && holds(
        s,
        g3,
        Class::Reh,
    ) {
        Some((start(g2), 4))
    // Any other join inside the word that does not leave a Lam, ranked by
    // the letter after it.
    } else if holds(s, g1, Class::JoinsFollowingNotLam) && holds(s, g2, Class::JoinsPreceding) {
        Some((start(g2), medial_priority(s, g2)))
    } else if holds(s, g2, Class::JoinsFollowingNotLam) && holds(s, g3, Class::JoinsPreceding) {
        Some((start(g3), medial_priority(s, g3)))
    } else {
        None
    }
}

/// Whether every cluster of the window lies within `s`.
pub open spec fn window_fits(s: Seq<Letter>, w: Window) -> bool {
    fits(s, w.0) && fits(s, w.1) && fits(s, w.2) && fits(s, w.3)
}

/// Tells whether the cluster `g` is present and holds elongation characters only.
pub fn elongation(s: &Vec<Letter>, g: Option<Span>) -> (r: bool)
    requires
        fits(s@, g),
    ensures
        r == is_elongation(s@, g),
{
    match g {
        Some(sp) => cluster_all(s, sp, Class::Kashida),
        None => false,
    }
}

fn final_rank(s: &Vec<Letter>, g: Option<Span>) -> (r: usize)
    requires
        fits(s@, g),
    ensures
        r == final_priority(s@, g),
{
    if opt_has(s, g, Class::HehOrTehMarbuta) {
        2
    } else if opt_has(s, g, Class::TahKafOrLam) {
        3
    } else if opt_has(s, g, Class::AinFehOrQaf) {
        5
    } else {
        6
    }
}

fn medial_rank(s: &Vec<Letter>, g: Option<Span>) -> (r: usize)
    requires
        fits(s@, g),
    ensures
        r == medial_priority(s@, g),
{
    if opt_has(s, g, Class::DalOrTehMarbuta) {
        2
    } else if opt_has(s, g, Class::Alef) {
        4
    } else if opt_has(s, g, Class::Waw) {
        5
    } else {
        7
    }
}

/// The index of the first character of the present cluster `g`.
pub fn first(g: Option<Span>) -> (r: usize)
    requires
        g is Some,
    ensures
        r == start(g),
{
    match g {
        Some(sp) => sp.0,
        None => 0,
    }
}

/// The candidate that the Arabic rules give for the window `w`.
pub fn arabic_candidate(s: &Vec<Letter>, w: Window) -> (r: Option<Candidate>)
    requires
        window_fits(s@, w),
    ensures
        r == arabic_rule(s@, w),
{
    let (g1, g2, g3, g4) = w;
    if opt_has(s, g1, Class::Lam) && opt_has(s, g2, Class::Lam) && opt_has(
        s,
        g3,
        Class::HehOrTehMarbuta,
    ) && g4.is_none() {
        None
    } else if elongation(s, g2) {
        Some((first(g2), 0))
    } else if opt_has(s, g1, Class::Lam) && opt_has(s, g2, Class::Alef) {
        None
    } else if opt_has(s, g1, Class::JoinsFollowing) && opt_has(s, g2, Class::Lam) && opt_has(
        s,
        g3,
        Class::Alef,
    ) {
        Some((first(g2), 3))
    } else if opt_has(s, g2, Class::JoinsFollowing) && opt_has(s, g3, Class::Lam) && opt_has(
        s,
        g4,
        Class::Alef,
    ) {
        Some((first(g3), 3))
    } else if g1.is_some() && opt_has(s, g2, Class::Lam) && opt_has(s, g3, Class::Alef) {
        None
    } else if opt_has(s, g1, Class::JoinsFollowing) && opt_has(s, g2, Class::JoinsPreceding)
        && g3.is_none() && g4.is_none() {
        Some((first(g2), 9))
    } else if opt_has(s, g1, Class::SeenOrSad) && opt_has(s, g2, Class::JoinsPreceding) {
        Some((first(g2), 1))
    } else if opt_has(s, g2, Class::SeenOrSad) && opt_has(s, g3, Class::JoinsPreceding) {
        Some((first(g3), 1))
    } else if opt_has(s, g1, Class::JoinsFollowing) && opt_has(s, g2, Class::Tooth) && (opt_has(
        s,
        g3,
        Class::FinalYehOrMeem,
    ) || opt_has(s, g3, Class::Noon)) && g4.is_none() {
        Some((first(g2), 4))
    } else if opt_has(s, g2, Class::JoinsFollowing) && opt_has(s, g3, Class::JoinsPreceding)
        && g4.is_none() {
        Some((first(g3), final_rank(s, g3)))
    } else if opt_has(s, g1, Class::JoinsFollowing) && opt_has(s, g2, Class::Tooth) && opt_has(
        s,
        g3,
        Class::Reh,
    ) {
        Some((first(g2), 4))
    } else if opt_has(s, g1, Class::JoinsFollowingNotLam) && opt_has(
        s,
        g2,
        Class::JoinsPreceding,
    ) {
        Some((first(g2), medial_rank(s, g2)))
    } else if opt_has(s, g2, Class::JoinsFollowingNotLam) && opt_has(
        s,
        g3,
        Class::JoinsPreceding,
    ) {
        Some((first(g3), medial_rank(s, g3)))
    } else {
        None
    }
}

/// The places to elongate in `input` by the rules for Arabic: the byte
/// offset of the best candidate of each word, best first.
pub fn find_kashidas(input: &str) -> (r: Vec<usize>)
    ensures
        crate::rank::ranked(input@, crate::Script::Arabic, r@),
        crate::segment::segmented(input@),
{
    crate::rank::find_ranked(input, crate::Script::Arabic)
}

} // verus!
