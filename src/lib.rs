//! Finds the places in cursive text where an elongation glyph (kashida,
//! U+0640 ARABIC TATWEEL) can be inserted to justify a line, and inserts it.

pub mod arabic;
pub mod global;
pub mod laws;
pub mod letters;
pub mod place;
pub mod rank;
pub mod segment;
mod slots;
pub mod syriac;
pub mod text;

use crate::place::{build_elongated, elongated, selection};
use crate::rank::ranked;
use crate::segment::segmented;
use crate::text::{decode, is_boundary};
use vstd::prelude::*;

verus! {

/// The script of a text, which selects the rules that find places to
/// elongate. `Unknown` selects a rule that suits any cursive script.
#[non_exhaustive]
#[derive(Clone, Copy, Debug, PartialEq, Eq, Structural)]
pub enum Script {
    Arabic,
    Syriac,
    Unknown,
}

/// Finds the byte offsets of `input` at which an elongation character may
/// go: at most one per word, the best that the rules of `script` find in
/// it, ordered by priority, best first. The order between words of equal
/// priority is not fixed. Every offset starts a grapheme cluster of a word.
///
/// The text is not checked against the script: text of another script
/// only tends to give fewer places.
pub fn find_kashidas(input: &str, script: Script) -> (r: Vec<usize>)
    ensures
        ranked(input@, script, r@),
        segmented(input@),
{
    match script {
        Script::Arabic => arabic::find_kashidas(input),
        Script::Syriac => syriac::find_kashidas(input),
        Script::Unknown => global::find_kashidas(input),
    }
}

/// A text after placement: the input itself where nothing was placed, or
/// a new string.
pub enum Placed<'a> {
    Borrowed(&'a str),
    Owned(String),
}

impl<'a> View for Placed<'a> {
    type V = Seq<char>;

    open spec fn view(&self) -> Seq<char> {
        match self {
            Placed::Borrowed(t) => t@,
            Placed::Owned(t) => t@,
        }
    }
}

impl<'a> Placed<'a> {
    /// The text.
    pub fn as_str(&self) -> (r: &str)
        ensures
            r@ == self@,
    {
        match self {
            Placed::Borrowed(t) => t,
            Placed::Owned(t) => t.as_str(),
        }
    }
}

/// Inserts U+0640 ARABIC TATWEEL into `text` at the first `kashida_count`
/// offsets of `kashida_locs`, which are meant to come from `find_kashidas`
/// on the same text; when the count exceeds the offsets, they are taken
/// again from the first, and an offset taken twice gets two. Where the
/// count is zero or there are no offsets, `text` comes back as it is,
/// without a new allocation. Each offset that is taken must start a
/// character of `text` or be its length.
pub fn place_kashidas<'a>(text: &'a str, kashida_locs: &[usize], kashida_count: usize) -> (r:
    Placed<'a>)
    requires
        forall|i: int|
            0 <= i < kashida_locs@.len() && i < kashida_count ==> is_boundary(
                text@,
                #[trigger] kashida_locs@[i] as int,
            ),
    ensures
        kashida_count == 0 || kashida_locs@.len() == 0 ==> r == Placed::Borrowed(text),
        kashida_count > 0 && kashida_locs@.len() > 0 ==> r is Owned && r@ == elongated(
            text@,
            selection(kashida_locs@, kashida_count as nat),
        ),
{
    if kashida_count == 0 || kashida_locs.len() == 0 {
        Placed::Borrowed(text)
    } else {
        let n = kashida_locs.len();
        let mut sel: Vec<usize> = Vec::new();
        let mut i: usize = 0;
        while i < kashida_count
            invariant
                n == kashida_locs@.len(),
                n > 0,
                i <= kashida_count,
                sel@ == selection(kashida_locs@, i as nat),
            decreases kashida_count - i,
        {
            sel.push(kashida_locs[i % n]);
            i = i + 1;
            assert(sel@ =~= selection(kashida_locs@, i as nat));
        }
        let d = decode(text);
        Placed::Owned(build_elongated(&d, &sel))
    }
}

} // verus!
