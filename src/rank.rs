//! Runs the rules of a script over the windows of each word, keeps the best
//! candidate of each word, and ranks the kept candidates by priority.

use crate::arabic::{arabic_candidate, arabic_rule, window_fits, Candidate, Window};
use crate::global::{generic_candidate, generic_rule, triple_fits, Triple};
use crate::letters::{classify, letters_of, start, Letter, Span};
use crate::segment::{
    clusters, is_word, padded, quads, rising_from_zero, spans_fit, text_words, triples, word_clusters, words,
};
use crate::slots::{slot_map, WordSlots};
use crate::syriac::{syriac_candidate, syriac_rule};
use crate::text::{byte_pos, decode, Decoded};
use crate::Script;
use vstd::prelude::*;

verus! {

/// The clusters of a word as present items.
pub open spec fn lifted(cl: Seq<Span>) -> Seq<Option<Span>> {
    cl.map_values(|sp: Span| Some(sp))
}

/// The windows of four that the clusters `cl` of a word give: the word is
/// padded to three clusters, and one more `None` closes it.
pub open spec fn windows4(cl: Seq<Span>) -> Seq<Window> {
    quads(padded(lifted(cl), 3).push(None))
}

/// The windows of three that the clusters `cl` of a word give: the word is
/// padded to two clusters, and one more `None` closes it.
pub open spec fn windows3(cl: Seq<Span>) -> Seq<Triple> {
    triples(padded(lifted(cl), 2).push(None))
}

/// What the rules of `script` give for each window of a word whose
/// clusters are `cl`, in order.
pub open spec fn word_candidates(s: Seq<char>, script: Script, cl: Seq<Span>) -> Seq<
    Option<Candidate>,
> {
    match script {
        Script::Arabic => windows4(cl).map_values(|w: Window| arabic_rule(letters_of(s), w)),
        Script::Syriac => windows4(cl).map_values(|w: Window| syriac_rule(letters_of(s), w)),
        Script::Unknown => windows3(cl).map_values(|w: Triple| generic_rule(letters_of(s), w)),
    }
}

/// The candidate kept after `c` is seen, where `acc` was kept before: a
/// candidate replaces the kept one when its priority is lower or equal.
pub open spec fn better(acc: Option<Candidate>, c: Option<Candidate>) -> Option<Candidate> {
    match c {
        None => acc,
        Some(x) => match acc {
            None => Some(x),
            Some(a) => if x.1 <= a.1 {
                Some(x)
            } else {
                Some(a)
            },
        },
    }
}

/// The candidate kept after all of `cs`, scanned in order.
pub open spec fn best(cs: Seq<Option<Candidate>>) -> Option<Candidate>
    decreases cs.len(),
{
    if cs.len() == 0 {
        None
    } else {
        better(best(cs.drop_last()), cs.last())
    }
}

/// The best place to elongate in the word `p` of `s`, as a byte offset and
/// a priority.
pub open spec fn word_best(s: Seq<char>, script: Script, p: (usize, usize)) -> Option<
    (usize, usize),
> {
    match best(word_candidates(s, script, clusters(s, p))) {
        Some(c) => Some((byte_pos(s, c.0 as int) as usize, c.1)),
        None => None,
    }
}

/// The best place to elongate in the word of ordinal `w` of `s`.
pub open spec fn best_at(s: Seq<char>, script: Script, w: int) -> Option<(usize, usize)> {
    word_best(s, script, words(s)[w])
}

/// A kept candidate: the ordinal of its word, its byte offset and its priority.
pub type Entry = (usize, (usize, usize));

/// Whether `c` holds the best candidate of each word of `s` that has one,
/// once each, and nothing else.
pub open spec fn lists_best(s: Seq<char>, script: Script, c: Seq<Entry>) -> bool {
    &&& forall|i: int|
        0 <= i < c.len() ==> 0 <= #[trigger] c[i].0 < words(s).len() && best_at(
            s,
            script,
            c[i].0 as int,
        ) == Some(c[i].1)
    &&& forall|i: int, j: int| 0 <= i < j < c.len() ==> c[i].0 != c[j].0
    &&& forall|w: int|
        0 <= w < words(s).len() && (#[trigger] best_at(s, script, w)) is Some ==> exists|i: int|
            0 <= i < c.len() && c[i].0 == w
}

/// Whether the priorities of `c` never fall.
pub open spec fn by_priority(c: Seq<Entry>) -> bool {
    forall|a: int, b: int| 0 <= a < b < c.len() ==> c[a].1.1 <= c[b].1.1
}

/// Whether `r` holds the byte offsets of the best candidates of the words
/// of `s`, one per word that has one, in order of priority (ties between
/// words in no set order).
pub open spec fn ranked(s: Seq<char>, script: Script, r: Seq<usize>) -> bool {
    exists|c: Seq<Entry>|
        lists_best(s, script, c) && by_priority(c) && r == c.map_values(|e: Entry| e.1.0)
}

/// A candidate with its character index turned into a byte offset.
pub open spec fn in_bytes(s: Seq<char>, c: Option<Candidate>) -> Option<(usize, usize)> {
    match c {
        Some(x) => Some((byte_pos(s, x.0 as int) as usize, x.1)),
        None => None,
    }
}

/// `m` with `k` set to `v`, where there is a `v`.
pub open spec fn updated(m: Map<usize, (usize, usize)>, k: usize, v: Option<(usize, usize)>) -> Map<
    usize,
    (usize, usize),
> {
    match v {
        Some(x) => m.insert(k, x),
        None => m,
    }
}

/// The clusters of a word, padded with `None` to `n` items, then closed
/// with one more `None`.
fn lift_and_pad(cl: &Vec<Span>, n: usize) -> (r: Vec<Option<Span>>)
    ensures
        r@ == padded(lifted(cl@), n as nat).push(None),
{
    let mut v: Vec<Option<Span>> = Vec::new();
    let mut i: usize = 0;
    while i < cl.len()
        invariant
            i <= cl@.len(),
            v@ == lifted(cl@.take(i as int)),
        decreases cl.len() - i,
    {
        v.push(Some(cl[i]));
        i = i + 1;
        assert(v@ =~= lifted(cl@.take(i as int)));
    }
    assert(cl@.take(cl@.len() as int) =~= cl@);
    let mut v = crate::segment::pad(v, n);
    v.push(None);
    v
}

/// An item of the padded clusters is a cluster of the word, or `None`.
proof fn lemma_padded_item(cl: Seq<Span>, n: nat, j: int)
    requires
        0 <= j < padded(lifted(cl), n).push(None).len(),
    ensures
        padded(lifted(cl), n).push(None)[j] == (if j < cl.len() {
            Some(cl[j])
        } else {
            None::<Span>
        }),
{
}

/// Every window of a word lies within the text.
proof fn lemma_windows_fit(s: Seq<char>, p: (usize, usize), cl: Seq<Span>, j: int)
    requires
        spans_fit(s, p, cl),
    ensures
        0 <= j < windows4(cl).len() ==> window_fits(letters_of(s), windows4(cl)[j]),
        0 <= j < windows3(cl).len() ==> triple_fits(letters_of(s), windows3(cl)[j]),
{
    let v4 = padded(lifted(cl), 3).push(None);
    let v3 = padded(lifted(cl), 2).push(None);
    if 0 <= j < windows4(cl).len() {
        lemma_padded_item(cl, 3, j);
        lemma_padded_item(cl, 3, j + 1);
        lemma_padded_item(cl, 3, j + 2);
        lemma_padded_item(cl, 3, j + 3);
    }
    if 0 <= j < windows3(cl).len() {
        lemma_padded_item(cl, 2, j);
        lemma_padded_item(cl, 2, j + 1);
        lemma_padded_item(cl, 2, j + 2);
    }
}

/// Offers the candidate `c` to the slot of the word `w`: it replaces the
/// kept one when its priority is lower or equal.
fn offer(d: &Decoded, slots: &mut WordSlots, w: usize, c: Option<Candidate>, prev: Ghost<
    Option<Candidate>,
>)
    requires
        d.of(d.chars@),
        c is Some ==> (c->0).0 <= d.chars@.len(),
        slot_map(*old(slots)).contains_key(w) == (prev@ is Some),
        prev@ is Some ==> slot_map(*old(slots))[w] == in_bytes(d.chars@, prev@)->0,
    ensures
        slot_map(*final(slots)) == updated(slot_map(*old(slots)), w, in_bytes(d.chars@, better(prev@, c))),
{
    match c {
        Some(x) => {
            let b = (d.offsets[x.0], x.1);
            match slots.get(w) {
                Some(kept) => {
                    if x.1 <= kept.1 {
                        slots.insert(w, b);
                    } else {
                        assert(slot_map(*slots).insert(w, kept) =~= slot_map(*slots));
                    }
                },
                None => {
                    slots.insert(w, b);
                },
            }
        },
        None => {},
    }
}

/// Whether `i` is the first character of a cluster present in the window,
/// other than its first.
pub open spec fn starts_in(w: Window, i: usize) -> bool {
    ||| (w.1 is Some && i == start(w.1))
    ||| (w.2 is Some && i == start(w.2))
    ||| (w.3 is Some && i == start(w.3))
}

/// The rules of every script put a candidate before a cluster of the
/// window, never before its first.
pub proof fn lemma_rule_starts(s: Seq<Letter>, w: Window, t: Triple)
    ensures
        arabic_rule(s, w) is Some ==> starts_in(w, (arabic_rule(s, w)->0).0),
        syriac_rule(s, w) is Some ==> starts_in(w, (syriac_rule(s, w)->0).0),
        generic_rule(s, t) is Some ==> t.1 is Some && (generic_rule(s, t)->0).0 == start(t.1),
{
}

/// Finds the best candidate of the word `p` and leaves it in the slot of
/// the word `w`.
fn collect_word(
    text: &str,
    d: &Decoded,
    letters: &Vec<Letter>,
    script: Script,
    p: (usize, usize),
    w: usize,
    slots: &mut WordSlots,
)
    requires
        d.of(text@),
        letters@ == letters_of(text@),
        is_word(text@, p),
        !slot_map(*old(slots)).contains_key(w),
    ensures
        slot_map(*final(slots)) == updated(slot_map(*old(slots)), w, word_best(text@, script, p)),
        crate::segment::clusters_rise(text@, p),
{
    let ghost s = text@;
    let ghost m0 = slot_map(*slots);
    let cl = word_clusters(text, d, p);
    let ghost cands = word_candidates(s, script, cl@);
    match script {
        Script::Unknown => {
            let v = lift_and_pad(&cl, 2);
            let ws = crate::segment::windows_of_three(&v);
            let mut j: usize = 0;
            while j < ws.len()
                invariant
                    d.of(s),
                    s == text@,
                    letters@ == letters_of(s),
                    spans_fit(s, p, cl@),
                    ws@ == windows3(cl@),
                    cands == word_candidates(s, script, cl@),
                    script == Script::Unknown,
                    j <= ws@.len(),
                    !m0.contains_key(w),
                    slot_map(*slots) == updated(m0, w, in_bytes(s, best(cands.take(j as int)))),
                decreases ws.len() - j,
            {
                proof {
                    lemma_windows_fit(s, p, cl@, j as int);
                    lemma_rule_starts(letters_of(s), (None, None, None, None), ws@[j as int]);
                }
                let c = generic_candidate(letters, ws[j]);
                assert(cands.take(j + 1).drop_last() =~= cands.take(j as int));
                offer(d, slots, w, c, Ghost(best(cands.take(j as int))));
                j = j + 1;
                assert(slot_map(*slots) =~= updated(m0, w, in_bytes(s, best(cands.take(j as int)))));
            }
            assert(cands.take(ws@.len() as int) =~= cands);
        },
        _ => {
            let v = lift_and_pad(&cl, 3);
            let ws = crate::segment::windows_of_four(&v);
            let mut j: usize = 0;
            while j < ws.len()
                invariant
                    d.of(s),
                    s == text@,
                    letters@ == letters_of(s),
                    spans_fit(s, p, cl@),
                    ws@ == windows4(cl@),
                    cands == word_candidates(s, script, cl@),
                    script != Script::Unknown,
                    j <= ws@.len(),
                    !m0.contains_key(w),
                    slot_map(*slots) == updated(m0, w, in_bytes(s, best(cands.take(j as int)))),
                decreases ws.len() - j,
            {
                proof {
                    lemma_windows_fit(s, p, cl@, j as int);
                    lemma_rule_starts(letters_of(s), ws@[j as int], (None, None, None));
                }
                let c = if script == Script::Arabic {
                    arabic_candidate(letters, ws[j])
                } else {
                    syriac_candidate(letters, ws[j])
                };
                assert(cands.take(j + 1).drop_last() =~= cands.take(j as int));
                offer(d, slots, w, c, Ghost(best(cands.take(j as int))));
                j = j + 1;
                assert(slot_map(*slots) =~= updated(m0, w, in_bytes(s, best(cands.take(j as int)))));
            }
            assert(cands.take(ws@.len() as int) =~= cands);
        },
    }
}

/// Whether `b` holds the items of `a` rearranged: `b[i]` is `a[f[i]]`, and
/// `f` takes each index of `a` once.
pub open spec fn rearranges(a: Seq<Entry>, b: Seq<Entry>, f: Seq<int>) -> bool {
    &&& a.len() == b.len()
    &&& f.len() == b.len()
    &&& forall|i: int| 0 <= i < b.len() ==> 0 <= #[trigger] f[i] < a.len() && b[i] == a[f[i]]
    &&& forall|i: int, j: int| 0 <= i < j < b.len() ==> f[i] != f[j]
    &&& forall|k: int| 0 <= k < a.len() ==> #[trigger] taken(f, k)
}

/// Whether some item of `f` is `k`.
pub open spec fn taken(f: Seq<int>, k: int) -> bool {
    exists|i: int| 0 <= i < f.len() && f[i] == k
}

/// Sorts `v` by priority, keeping the order of equal priorities.
fn sort_by_priority(v: Vec<Entry>) -> (r: Vec<Entry>)
    ensures
        exists|f: Seq<int>| rearranges(v@, r@, f),
        by_priority(r@),
{
    let ghost a = v@;
    let mut v = v;
    let ghost mut f: Seq<int> = Seq::new(a.len(), |i: int| i);
    assert forall|k: int| 0 <= k < a.len() implies #[trigger] taken(f, k) by {
        assert(f[k] == k);
    }
    let n = v.len();
    let mut i: usize = 1;
    while i < n
        invariant
            n == v@.len(),
            rearranges(a, v@, f),
            1 <= i || n == 0,
            forall|x: int, y: int| 0 <= x < y < i && y < n ==> v@[x].1.1 <= v@[y].1.1,
        decreases n - i,
    {
        let mut j: usize = i;
        while j > 0 && v[j - 1].1.1 > v[j].1.1
            invariant
                n == v@.len(),
                rearranges(a, v@, f),
                0 <= j <= i < n,
                forall|x: int, y: int|
                    0 <= x < y <= i && x != j && y != j ==> v@[x].1.1 <= v@[y].1.1,
                forall|y: int| j < y <= i ==> v@[j as int].1.1 < v@[y].1.1,
            decreases j,
        {
            let x = v[j - 1];
            let y = v[j];
            v.set(j - 1, y);
            v.set(j, x);
            proof {
                let g = f.update(j - 1, f[j as int]).update(j as int, f[j - 1]);
                assert forall|k: int| 0 <= k < a.len() implies #[trigger] taken(g, k) by {
                    assert(taken(f, k));
                    let i0 = choose|i: int| 0 <= i < f.len() && f[i] == k;
                    if i0 == j - 1 {
                        assert(g[j as int] == k);
                    } else if i0 == j {
                        assert(g[j - 1] == k);
                    } else {
                        assert(g[i0] == k);
                    }
                }
                f = g;
            }
            j = j - 1;
        }
        i = i + 1;
    }
    v
}

/// Whether `m` holds, for each word of `s` below `n` that has a candidate,
/// its best candidate, and nothing else.
pub open spec fn slots_hold(s: Seq<char>, script: Script, m: Map<usize, (usize, usize)>, n: int) -> bool {
    &&& forall|k: usize| #[trigger] m.contains_key(k) <==> (k < n && best_at(s, script, k as int) is Some)
    &&& forall|k: usize| #[trigger] m.contains_key(k) ==> Some(m[k]) == best_at(s, script, k as int)
}

/// Lists the best candidate of each word of `text`, in order of priority.
pub fn rank_candidates(text: &str, script: Script) -> (r: Vec<Entry>)
    ensures
        lists_best(text@, script, r@),
        by_priority(r@),
        crate::segment::segmented(text@),
{
    let ghost s = text@;
    let d = decode(text);
    let letters = classify(&d.chars);
    let ws = text_words(text, &d);
    proof {
        crate::segment::lemma_kept_words(s, crate::segment::pairs(crate::segment::word_breaks_of(s)));
    }
    let mut slots = WordSlots::with_capacity(text.len() / 2);
    let mut w: usize = 0;
    while w < ws.len()
        invariant
            d.of(s),
            s == text@,
            letters@ == letters_of(s),
            ws@ == words(s),
            forall|i: int| 0 <= i < ws@.len() ==> is_word(s, #[trigger] ws@[i]),
            w <= ws@.len(),
            slots_hold(s, script, slot_map(slots), w as int),
            rising_from_zero(crate::segment::word_breaks_of(s), crate::text::byte_len(s)),
            forall|k: int| 0 <= k < w ==> crate::segment::clusters_rise(s, #[trigger] ws@[k]),
        decreases ws.len() - w,
    {
        collect_word(text, &d, &letters, script, ws[w], w, &mut slots);
        w = w + 1;
        assert(slots_hold(s, script, slot_map(slots), w as int));
    }
    let ghost m = slot_map(slots);
    let entries = slots.into_entries();
    let sorted = sort_by_priority(entries);
    proof {
        let f = choose|f: Seq<int>| rearranges(entries@, sorted@, f);
        let c = sorted@;
        let e = entries@;
        assert forall|i: int| 0 <= i < c.len() implies 0 <= #[trigger] c[i].0 < words(s).len()
            && best_at(s, script, c[i].0 as int) == Some(c[i].1) by {
            assert(c[i] == e[f[i]]);
            assert(m.contains_key(e[f[i]].0));
        }
        assert forall|i: int, j: int| 0 <= i < j < c.len() implies c[i].0 != c[j].0 by {
            if f[i] < f[j] {
                assert(e[f[i]].0 != e[f[j]].0);
            } else {
                assert(e[f[j]].0 != e[f[i]].0);
            }
        }
        assert forall|w: int|
            0 <= w < words(s).len() && (#[trigger] best_at(s, script, w)) is Some implies exists|i: int|
            0 <= i < c.len() && c[i].0 == w by {
            assert(m.contains_key(w as usize));
            let k = choose|k: int| 0 <= k < e.len() && #[trigger] e[k].0 == w as usize;
            assert(taken(f, k));
            let i = choose|i: int| 0 <= i < f.len() && f[i] == k;
            assert(c[i].0 == w);
        }
    }
    sorted
}

/// The byte offsets of the best candidates of the words of `text` under
/// the rules of `script`, best first.
pub fn find_ranked(text: &str, script: Script) -> (r: Vec<usize>)
    ensures
        ranked(text@, script, r@),
        crate::segment::segmented(text@),
{
    let entries = rank_candidates(text, script);
    let mut r: Vec<usize> = Vec::new();
    let mut i: usize = 0;
    while i < entries.len()
        invariant
            i <= entries@.len(),
            r@ == entries@.take(i as int).map_values(|e: Entry| e.1.0),
        decreases entries.len() - i,
    {
        r.push(entries[i].1.0);
        i = i + 1;
        assert(r@ =~= entries@.take(i as int).map_values(|e: Entry| e.1.0));
    }
    assert(entries@.take(entries@.len() as int) =~= entries@);
    r
}

} // verus!
