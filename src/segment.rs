//! Splits a text into words, and each word into grapheme clusters, by the
//! Unicode segmentation rules; then lays each word's clusters out as the
//! fixed-width windows that the rule tables read.

use crate::arabic::Window;
use crate::global::Triple;
use crate::letters::Span;
use crate::text::{between, byte_len, char_index, find_boundary, is_boundary, Decoded};
use itertools::Itertools;
use vstd::prelude::*;

verus! {

/// The word boundaries of a text, as byte offsets.
pub uninterp spec fn word_breaks_of(s: Seq<char>) -> Seq<usize>;

/// The grapheme cluster boundaries of a text, as byte offsets.
pub uninterp spec fn cluster_breaks_of(s: Seq<char>) -> Seq<usize>;

/// Relies on icu_segmenter's WordSegmenter (`new_auto`, `segment_str`): the
/// word boundaries of `s` by its compiled rules and data, as byte offsets,
/// rising, from 0 to the length of `s` (only 0 for the empty string).
#[verifier::external_body]
fn word_breaks(s: &str) -> (r: Vec<usize>)
    ensures
        r@ == word_breaks_of(s@),
        rising_from_zero(r@, byte_len(s@)),
{
    icu_segmenter::WordSegmenter::new_auto().segment_str(s).collect()
}

/// Relies on icu_segmenter's GraphemeClusterSegmenter (`new`, `segment_str`):
/// the grapheme cluster boundaries of `s[start..end]`, as byte offsets into
/// that slice, rising, from 0 to the length of the slice (only 0 for an
/// empty slice).
#[verifier::external_body]
fn cluster_breaks(s: &str, start: usize, end: usize) -> (r: Vec<usize>)
    requires
        start <= end,
        is_boundary(s@, start as int),
        is_boundary(s@, end as int),
    ensures
        r@ == cluster_breaks_of(between(s@, start as int, end as int)),
        rising_from_zero(r@, (end - start) as nat),
{
    icu_segmenter::GraphemeClusterSegmenter::new().segment_str(&s[start..end]).collect()
}

/// Whether the boundaries `v` rise strictly from 0 to `n`.
pub open spec fn rising_from_zero(v: Seq<usize>, n: nat) -> bool {
    &&& v.len() > 0
    &&& v[0] == 0
    &&& v.last() == n
    &&& forall|i: int, j: int| 0 <= i < j < v.len() ==> v[i] < v[j]
}

/// Whether the cluster boundaries of the word `p` of `s` rise from its
/// start to its end.
pub open spec fn clusters_rise(s: Seq<char>, p: (usize, usize)) -> bool {
    rising_from_zero(
        cluster_breaks_of(between(s, p.0 as int, p.1 as int)),
        (p.1 - p.0) as nat,
    )
}

/// Whether the segmenter's boundaries of `s`, for its words and for the
/// clusters of each word, rise as documented.
pub open spec fn segmented(s: Seq<char>) -> bool {
    &&& rising_from_zero(word_breaks_of(s), byte_len(s))
    &&& forall|w: int| 0 <= w < words(s).len() ==> clusters_rise(s, #[trigger] words(s)[w])
}

/// Each two adjacent items of `v`, in order.
pub open spec fn pairs(v: Seq<usize>) -> Seq<(usize, usize)> {
    Seq::new(
        if v.len() >= 2 {
            (v.len() - 1) as nat
        } else {
            0
        },
        |i: int| (v[i], v[i + 1]),
    )
}

/// `v`, lengthened to `n` items with `None` where it is shorter.
pub open spec fn padded(v: Seq<Option<Span>>, n: nat) -> Seq<Option<Span>> {
    if v.len() >= n {
        v
    } else {
        v + Seq::new((n - v.len()) as nat, |i: int| None)
    }
}

/// Each three adjacent items of `v`, in order.
pub open spec fn triples(v: Seq<Option<Span>>) -> Seq<Triple> {
    Seq::new(
        if v.len() >= 3 {
            (v.len() - 2) as nat
        } else {
            0
        },
        |i: int| (v[i], v[i + 1], v[i + 2]),
    )
}

/// Each four adjacent items of `v`, in order.
pub open spec fn quads(v: Seq<Option<Span>>) -> Seq<Window> {
    Seq::new(
        if v.len() >= 4 {
            (v.len() - 3) as nat
        } else {
            0
        },
        |i: int| (v[i], v[i + 1], v[i + 2], v[i + 3]),
    )
}

/// Relies on itertools' `tuple_windows`: every two adjacent items, in order.
#[verifier::external_body]
fn adjacent_pairs(v: &Vec<usize>) -> (r: Vec<(usize, usize)>)
    ensures
        r@ == pairs(v@),
{
    v.iter().copied().tuple_windows().collect()
}

/// Relies on itertools' `tuple_windows`: every three adjacent items, in order.
#[verifier::external_body]
pub(crate) fn windows_of_three(v: &Vec<Option<Span>>) -> (r: Vec<Triple>)
    ensures
        r@ == triples(v@),
{
    v.iter().copied().tuple_windows().collect()
}

/// Relies on itertools' `tuple_windows`: every four adjacent items, in order.
#[verifier::external_body]
pub(crate) fn windows_of_four(v: &Vec<Option<Span>>) -> (r: Vec<Window>)
    ensures
        r@ == quads(v@),
{
    v.iter().copied().tuple_windows().collect()
}

/// The filler past the end of a word.
fn past_end(_i: usize) -> (r: Option<Span>)
    ensures
        r is None,
{
    None
}

/// Relies on itertools' `pad_using`: the items of `v`, then as many fillers
/// as bring the count to `n`.
#[verifier::external_body]
pub(crate) fn pad(v: Vec<Option<Span>>, n: usize) -> (r: Vec<Option<Span>>)
    ensures
        r@ == padded(v@, n as nat),
{
    v.into_iter().pad_using(n, past_end).collect()
}

/// Whether `c` has the Unicode White_Space property (as `char::is_whitespace`).
pub open spec fn is_white(c: char) -> bool {
    let u = c as u32;
    ||| 0x9 <= u <= 0xD
    ||| u == 0x20
    ||| u == 0x85
    ||| u == 0xA0
    ||| u == 0x1680
    ||| 0x2000 <= u <= 0x200A
    ||| u == 0x2028
    ||| u == 0x2029
    ||| u == 0x202F
    ||| u == 0x205F
    ||| u == 0x3000
}

fn white(c: char) -> (r: bool)
    ensures
        r == is_white(c),
{
    let u = c as u32;
    (0x9 <= u && u <= 0xD) || u == 0x20 || u == 0x85 || u == 0xA0 || u == 0x1680 || (0x2000 <= u
        && u <= 0x200A) || u == 0x2028 || u == 0x2029 || u == 0x202F || u == 0x205F || u == 0x3000
}

/// Whether the characters of `s` at indices `a .. b` are all white space.
pub open spec fn blank(s: Seq<char>, a: int, b: int) -> bool {
    forall|i: int| a <= i < b ==> is_white(#[trigger] s[i])
}

/// Whether the segment of `s` between the byte offsets `p` is a word: it
/// is not empty and not white space alone.
pub open spec fn is_word(s: Seq<char>, p: (usize, usize)) -> bool {
    &&& p.0 < p.1
    &&& is_boundary(s, p.0 as int)
    &&& is_boundary(s, p.1 as int)
    &&& !blank(s, char_index(s, p.0 as int), char_index(s, p.1 as int))
}

/// The segments of `ps` that are words, in order.
pub open spec fn keep_words(s: Seq<char>, ps: Seq<(usize, usize)>) -> Seq<(usize, usize)>
    decreases ps.len(),
{
    if ps.len() == 0 {
        seq![]
    } else {
        let rest = keep_words(s, ps.drop_last());
        if is_word(s, ps.last()) {
            rest.push(ps.last())
        } else {
            rest
        }
    }
}

/// The words of `s`, in order, each as its start and end byte offsets.
pub open spec fn words(s: Seq<char>) -> Seq<(usize, usize)> {
    keep_words(s, pairs(word_breaks_of(s)))
}

/// The cluster of the word `p` of `s` between the byte offsets `q`, which
/// count from the start of the word; none where `q` is empty or does not
/// fall on characters of the word.
pub open spec fn cluster_of(s: Seq<char>, p: (usize, usize), q: (usize, usize)) -> Option<Span> {
    let a = p.0 + q.0;
    let b = p.0 + q.1;
    if q.0 < q.1 && b <= p.1 && is_boundary(s, a) && is_boundary(s, b) {
        Some((char_index(s, a) as usize, char_index(s, b) as usize))
    } else {
        None
    }
}

/// The clusters of the word `p` of `s` that the segments `qs` give, in order.
pub open spec fn keep_clusters(s: Seq<char>, p: (usize, usize), qs: Seq<(usize, usize)>) -> Seq<
    Span,
>
    decreases qs.len(),
{
    if qs.len() == 0 {
        seq![]
    } else {
        let rest = keep_clusters(s, p, qs.drop_last());
        match cluster_of(s, p, qs.last()) {
            Some(sp) => rest.push(sp),
            None => rest,
        }
    }
}

/// The grapheme clusters of the word `p` of `s`, in order.
pub open spec fn clusters(s: Seq<char>, p: (usize, usize)) -> Seq<Span> {
    keep_clusters(s, p, pairs(cluster_breaks_of(between(s, p.0 as int, p.1 as int))))
}

/// Whether each span of `cl` is a non-empty run of characters of `s` that
/// lies within the word `p`.
pub open spec fn spans_fit(s: Seq<char>, p: (usize, usize), cl: Seq<Span>) -> bool {
    forall|k: int|
        0 <= k < cl.len() ==> {
            let sp = #[trigger] cl[k];
            &&& char_index(s, p.0 as int) <= sp.0 < sp.1 <= char_index(s, p.1 as int)
            &&& sp.1 <= s.len()
        }
}

fn all_white(d: &Decoded, a: usize, b: usize) -> (r: bool)
    requires
        b <= d.chars@.len(),
    ensures
        r == blank(d.chars@, a as int, b as int),
{
    let mut i: usize = a;
    while i < b
        invariant
            b <= d.chars@.len(),
            a <= i || b <= i,
            forall|j: int| a <= j < i ==> is_white(#[trigger] d.chars@[j]),
        decreases b - i,
    {
        if !white(d.chars[i]) {
            return false;
        }
        i = i + 1;
    }
    true
}

/// The words of the text that `d` holds, from its word boundaries `breaks`
/// (byte offsets): each segment between two adjacent boundaries that is a
/// word, in order.
pub fn words_from_breaks(d: &Decoded, breaks: &Vec<usize>) -> (r: Vec<(usize, usize)>)
    requires
        d.of(d.chars@),
    ensures
        r@ == keep_words(d.chars@, pairs(breaks@)),
{
    let ghost s = d.chars@;
    let ps = adjacent_pairs(breaks);
    let mut out: Vec<(usize, usize)> = Vec::new();
    let mut i: usize = 0;
    while i < ps.len()
        invariant
            d.of(s),
            s == d.chars@,
            ps@ == pairs(breaks@),
            i <= ps@.len(),
            out@ == keep_words(s, ps@.take(i as int)),
        decreases ps.len() - i,
    {
        let p = ps[i];
        assert(ps@.take(i + 1).drop_last() =~= ps@.take(i as int));
        assert(ps@.take(i + 1).last() == p);
        if p.0 < p.1 {
            match (find_boundary(d, p.0), find_boundary(d, p.1)) {
                (Some(a), Some(b)) => {
                    if !all_white(d, a, b) {
                        out.push(p);
                    }
                },
                _ => {},
            }
        }
        i = i + 1;
    }
    assert(ps@.take(ps@.len() as int) =~= ps@);
    out
}

/// The words of the text `text`, whose characters `d` holds.
pub fn text_words(text: &str, d: &Decoded) -> (r: Vec<(usize, usize)>)
    requires
        d.of(text@),
    ensures
        r@ == words(text@),
        rising_from_zero(word_breaks_of(text@), byte_len(text@)),
{
    let breaks = word_breaks(text);
    words_from_breaks(d, &breaks)
}

/// The grapheme clusters of the word `p` of the text that `d` holds, from
/// the cluster boundaries `breaks` of the word (byte offsets from its
/// start): each segment between two adjacent boundaries that falls on
/// characters of the word, in order.
pub fn clusters_from_breaks(d: &Decoded, p: (usize, usize), breaks: &Vec<usize>) -> (r: Vec<Span>)
    requires
        d.of(d.chars@),
        is_word(d.chars@, p),
    ensures
        r@ == keep_clusters(d.chars@, p, pairs(breaks@)),
        spans_fit(d.chars@, p, r@),
{
    let ghost s = d.chars@;
    let qs = adjacent_pairs(breaks);
    let mut out: Vec<Span> = Vec::new();
    let mut i: usize = 0;
    while i < qs.len()
        invariant
            d.of(s),
            s == d.chars@,
            is_word(s, p),
            qs@ == pairs(breaks@),
            i <= qs@.len(),
            out@ == keep_clusters(s, p, qs@.take(i as int)),
            spans_fit(s, p, out@),
        decreases qs.len() - i,
    {
        let q = qs[i];
        assert(qs@.take(i + 1).drop_last() =~= qs@.take(i as int));
        assert(qs@.take(i + 1).last() == q);
        if q.0 < q.1 && q.1 <= p.1 - p.0 {
            match (find_boundary(d, p.0 + q.0), find_boundary(d, p.0 + q.1)) {
                (Some(a), Some(b)) => {
                    proof {
                        crate::text::lemma_char_index(s, char_index(s, p.0 as int));
                        crate::text::lemma_char_index(s, char_index(s, p.1 as int));
                        monotone_index(s, p.0 as int, (p.0 + q.0) as int);
                        monotone_index(s, (p.0 + q.0) as int, (p.0 + q.1) as int);
                        monotone_index(s, (p.0 + q.1) as int, p.1 as int);
                    }
                    out.push((a, b));
                },
                _ => {},
            }
        }
        i = i + 1;
    }
    assert(qs@.take(qs@.len() as int) =~= qs@);
    out
}

/// The grapheme clusters of the word `p` of the text `text`, whose
/// characters `d` holds.
pub fn word_clusters(text: &str, d: &Decoded, p: (usize, usize)) -> (r: Vec<Span>)
    requires
        d.of(text@),
        is_word(text@, p),
    ensures
        r@ == clusters(text@, p),
        spans_fit(text@, p, r@),
        clusters_rise(text@, p),
{
    let breaks = cluster_breaks(text, p.0, p.1);
    clusters_from_breaks(d, p, &breaks)
}

/// Character indices follow the order of byte offsets.
pub proof fn monotone_index(s: Seq<char>, a: int, b: int)
    requires
        is_boundary(s, a),
        is_boundary(s, b),
        a <= b,
    ensures
        char_index(s, a) <= char_index(s, b),
        a < b ==> char_index(s, a) < char_index(s, b),
        0 <= char_index(s, a) <= s.len(),
        0 <= char_index(s, b) <= s.len(),
        crate::text::byte_pos(s, char_index(s, a)) == a,
        crate::text::byte_pos(s, char_index(s, b)) == b,
{
    let i = char_index(s, a);
    let j = char_index(s, b);
    if j < i {
        crate::text::lemma_byte_pos_increasing(s, j, i);
    }
}

/// Every word that `keep_words` keeps is a word.
pub proof fn lemma_kept_words(s: Seq<char>, ps: Seq<(usize, usize)>)
    ensures
        forall|i: int| 0 <= i < keep_words(s, ps).len() ==> is_word(s, #[trigger] keep_words(s, ps)[i]),
    decreases ps.len(),
{
    if ps.len() > 0 {
        lemma_kept_words(s, ps.drop_last());
        let rest = keep_words(s, ps.drop_last());
        assert forall|i: int| 0 <= i < keep_words(s, ps).len() implies is_word(
            s,
            #[trigger] keep_words(s, ps)[i],
        ) by {
            if i < rest.len() {
                assert(keep_words(s, ps)[i] == rest[i]);
            }
        }
    }
}

/// The clusters of a word lie within it, each a non-empty run of characters.
pub proof fn lemma_clusters_fit(s: Seq<char>, p: (usize, usize), qs: Seq<(usize, usize)>)
    requires
        is_word(s, p),
        s.len() <= usize::MAX,
    ensures
        spans_fit(s, p, keep_clusters(s, p, qs)),
    decreases qs.len(),
{
    if qs.len() > 0 {
        lemma_clusters_fit(s, p, qs.drop_last());
        let rest = keep_clusters(s, p, qs.drop_last());
        let q = qs.last();
        let a = p.0 + q.0;
        let b = p.0 + q.1;
        let all = keep_clusters(s, p, qs);
        if q.0 < q.1 && b <= p.1 && is_boundary(s, a) && is_boundary(s, b) {
            monotone_index(s, p.0 as int, a);
            monotone_index(s, a, b);
            monotone_index(s, b, p.1 as int);
            assert(all[rest.len() as int] == (char_index(s, a) as usize, char_index(s, b) as usize));
        }
        assert forall|k: int| 0 <= k < all.len() implies {
            let sp = #[trigger] all[k];
            &&& char_index(s, p.0 as int) <= sp.0 < sp.1 <= char_index(s, p.1 as int)
            &&& sp.1 <= s.len()
        } by {
            if k < rest.len() {
                assert(all[k] == rest[k]);
            }
        }
    }
}

/// Whether each segment of `ps` ends at or before the start of each later one.
pub open spec fn chained(ps: Seq<(usize, usize)>) -> bool {
    forall|i: int, j: int| 0 <= i < j < ps.len() ==> ps[i].1 <= ps[j].0
}

/// The segments between rising boundaries follow one another.
pub proof fn lemma_pairs_chained(v: Seq<usize>)
    requires
        forall|i: int, j: int| 0 <= i < j < v.len() ==> v[i] < v[j],
    ensures
        chained(pairs(v)),
        forall|i: int| 0 <= i < pairs(v).len() ==> (#[trigger] pairs(v)[i]).0 < pairs(v)[i].1,
{
    assert forall|i: int, j: int| 0 <= i < j < pairs(v).len() implies pairs(v)[i].1 <= pairs(
        v,
    )[j].0 by {
        if i + 1 < j {
            assert(v[i + 1] < v[j]);
        }
    }
}

/// The words kept from segments that follow one another follow one another.
pub proof fn lemma_words_chained(s: Seq<char>, ps: Seq<(usize, usize)>)
    requires
        chained(ps),
        forall|i: int| 0 <= i < ps.len() ==> (#[trigger] ps[i]).0 < ps[i].1,
    ensures
        chained(keep_words(s, ps)),
        forall|k: int|
            0 <= k < keep_words(s, ps).len() ==> (#[trigger] keep_words(s, ps)[k]).1 <= ps.last().1,
    decreases ps.len(),
{
    if ps.len() > 0 {
        let rest = ps.drop_last();
        assert forall|i: int| 0 <= i < rest.len() implies (#[trigger] rest[i]).0 < rest[i].1 by {
            assert(rest[i] == ps[i]);
        }
        lemma_words_chained(s, rest);
        assert(ps[ps.len() - 1].0 < ps[ps.len() - 1].1);
        let kr = keep_words(s, rest);
        let kw = keep_words(s, ps);
        assert forall|k: int| 0 <= k < kr.len() implies kr[k].1 <= ps.last().0 by {
            if rest.len() > 0 {
                assert(rest.last() == ps[ps.len() - 2]);
            }
        }
        assert forall|k: int| 0 <= k < kw.len() implies (#[trigger] kw[k]).1 <= ps.last().1 by {
            if k < kr.len() {
                assert(kw[k] == kr[k]);
                if rest.len() > 0 {
                    assert(rest.last() == ps[ps.len() - 2]);
                }
            }
        }
        assert forall|i: int, j: int| 0 <= i < j < kw.len() implies kw[i].1 <= kw[j].0 by {
            assert(kw[i] == kr[i]);
            if j < kr.len() {
                assert(kw[j] == kr[j]);
            }
        }
    }
}

/// The clusters kept from segments that follow one another follow one
/// another, in characters.
pub proof fn lemma_clusters_chained(s: Seq<char>, p: (usize, usize), qs: Seq<(usize, usize)>)
    requires
        s.len() <= usize::MAX,
        chained(qs),
        forall|i: int| 0 <= i < qs.len() ==> (#[trigger] qs[i]).0 < qs[i].1,
    ensures
        forall|a: int, b: int|
            0 <= a < b < keep_clusters(s, p, qs).len() ==> keep_clusters(s, p, qs)[a].1
                <= keep_clusters(s, p, qs)[b].0,
{
    lemma_clusters_bytes(s, p, qs);
}

/// Each kept cluster ends at a boundary no later than the end of the last segment.
proof fn lemma_clusters_bytes(s: Seq<char>, p: (usize, usize), qs: Seq<(usize, usize)>)
    requires
        s.len() <= usize::MAX,
        chained(qs),
        forall|i: int| 0 <= i < qs.len() ==> (#[trigger] qs[i]).0 < qs[i].1,
    ensures
        forall|a: int, b: int|
            0 <= a < b < keep_clusters(s, p, qs).len() ==> keep_clusters(s, p, qs)[a].1
                <= keep_clusters(s, p, qs)[b].0,
        forall|k: int|
            0 <= k < keep_clusters(s, p, qs).len() ==> {
                let e = (#[trigger] keep_clusters(s, p, qs)[k]).1 as int;
                &&& 0 <= e <= s.len()
                &&& crate::text::byte_pos(s, e) <= p.0 + qs.last().1
            },
    decreases qs.len(),
{
    if qs.len() > 0 {
        let rest = qs.drop_last();
        assert forall|i: int| 0 <= i < rest.len() implies (#[trigger] rest[i]).0 < rest[i].1 by {
            assert(rest[i] == qs[i]);
        }
        lemma_clusters_bytes(s, p, rest);
        let kr = keep_clusters(s, p, rest);
        let kc = keep_clusters(s, p, qs);
        let q = qs.last();
        assert(qs[qs.len() - 1].0 < qs[qs.len() - 1].1);
        if rest.len() > 0 {
            assert(rest.last() == qs[qs.len() - 2]);
        }
        let a = p.0 + q.0;
        let b = p.0 + q.1;
        if q.0 < q.1 && b <= p.1 && is_boundary(s, a) && is_boundary(s, b) {
            monotone_index(s, a, b);
            let na = char_index(s, a);
            assert forall|k: int| 0 <= k < kr.len() implies kr[k].1 <= na by {
                let e = kr[k].1 as int;
                if e > na {
                    crate::text::lemma_byte_pos_increasing(s, na, e);
                }
            }
            assert(kc[kr.len() as int] == (na as usize, char_index(s, b) as usize));
            assert forall|k: int| 0 <= k < kc.len() implies {
                let e = (#[trigger] kc[k]).1 as int;
                &&& 0 <= e <= s.len()
                &&& crate::text::byte_pos(s, e) <= p.0 + qs.last().1
            } by {
                if k < kr.len() {
                    assert(kc[k] == kr[k]);
                }
            }
            assert forall|i: int, j: int| 0 <= i < j < kc.len() implies kc[i].1 <= kc[j].0 by {
                assert(kc[i] == kr[i]);
                if j < kr.len() {
                    assert(kc[j] == kr[j]);
                }
            }
        } else {
            assert(kc == kr);
        }
    }
}

} // verus!
