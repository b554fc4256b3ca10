//! What the text looks like once elongation characters stand at chosen
//! byte offsets.

use crate::text::{byte_pos, Decoded};
use vstd::prelude::*;

verus! {

/// The elongation character, U+0640 ARABIC TATWEEL.
pub const TATWEEL: char = '\u{0640}';

/// The offsets to elongate at: the first `count` items of `locs`, starting
/// over from its first item whenever it runs out.
pub open spec fn selection(locs: Seq<usize>, count: nat) -> Seq<usize> {
    Seq::new(count, |i: int| locs[i % (locs.len() as int)])
}

/// How many items of `sel` are `b`.
pub open spec fn occurrences(sel: Seq<usize>, b: int) -> nat
    decreases sel.len(),
{
    if sel.len() == 0 {
        0
    } else {
        occurrences(sel.drop_last(), b) + if sel.last() == b {
            1nat
        } else {
            0nat
        }
    }
}

/// `n` elongation characters.
pub open spec fn tatweels(n: nat) -> Seq<char> {
    Seq::new(n, |i: int| TATWEEL)
}

/// The first `i` characters of `s`, each preceded by as many elongation
/// characters as `sel` holds its byte position.
pub open spec fn elongated_prefix(s: Seq<char>, sel: Seq<usize>, i: int) -> Seq<char>
    decreases i,
{
    if i <= 0 {
        seq![]
    } else {
        elongated_prefix(s, sel, i - 1) + tatweels(occurrences(sel, byte_pos(s, i - 1) as int))
            + seq![s[i - 1]]
    }
}

/// `s` with an elongation character at each byte offset of `sel`: as many
/// at one offset as `sel` holds it.
pub open spec fn elongated(s: Seq<char>, sel: Seq<usize>) -> Seq<char> {
    elongated_prefix(s, sel, s.len() as int) + tatweels(
        occurrences(sel, byte_pos(s, s.len() as int) as int),
    )
}

/// Relies on `String::push`: appends `c` to `s`.
#[verifier::external_body]
fn push_char(s: &mut String, c: char)
    ensures
        final(s)@ == old(s)@.push(c),
{
    s.push(c);
}

/// Counts the items of `sel` that are `b`.
fn count_of(sel: &Vec<usize>, b: usize) -> (r: usize)
    ensures
        r == occurrences(sel@, b as int),
{
    let mut k: usize = 0;
    let mut i: usize = 0;
    while i < sel.len()
        invariant
            i <= sel@.len(),
            k == occurrences(sel@.take(i as int), b as int),
            k <= i,
        decreases sel.len() - i,
    {
        assert(sel@.take(i + 1).drop_last() =~= sel@.take(i as int));
        if sel[i] == b {
            k = k + 1;
        }
        i = i + 1;
    }
    assert(sel@.take(sel@.len() as int) =~= sel@);
    k
}

/// Appends `n` elongation characters to `out`.
fn push_tatweels(out: &mut String, n: usize)
    ensures
        final(out)@ == old(out)@ + tatweels(n as nat),
{
    let mut i: usize = 0;
    while i < n
        invariant
            i <= n,
            out@ == old(out)@ + tatweels(i as nat),
        decreases n - i,
    {
        push_char(out, TATWEEL);
        i = i + 1;
        assert(out@ =~= old(out)@ + tatweels(i as nat));
    }
}

/// The text of `d` with elongation characters at the byte offsets of `sel`.
pub fn build_elongated(d: &Decoded, sel: &Vec<usize>) -> (r: String)
    requires
        d.of(d.chars@),
    ensures
        r@ == elongated(d.chars@, sel@),
{
    let ghost s = d.chars@;
    let mut out = String::new();
    let mut i: usize = 0;
    while i < d.chars.len()
        invariant
            d.of(s),
            s == d.chars@,
            i <= s.len(),
            out@ == elongated_prefix(s, sel@, i as int),
        decreases d.chars.len() - i,
    {
        let k = count_of(sel, d.offsets[i]);
        push_tatweels(&mut out, k);
        push_char(&mut out, d.chars[i]);
        i = i + 1;
    }
    let k = count_of(sel, d.offsets[i]);
    push_tatweels(&mut out, k);
    out
}

} // verus!
