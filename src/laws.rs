//! Properties of the library as a whole, proved from the definitions that
//! the contracts of `find_kashidas` and `place_kashidas` use.

use crate::rank::{
    best, best_at, lemma_rule_starts, lifted, ranked, word_best, word_candidates, windows3,
    windows4, Entry, lists_best,
};
use crate::segment::{clusters, is_word, lemma_clusters_chained, lemma_clusters_fit, lemma_kept_words, lemma_pairs_chained, lemma_words_chained, pairs, segmented,
    padded, word_breaks_of, words, monotone_index};
use crate::text::{byte_len, byte_pos, char_index, lemma_byte_pos_bound, lemma_byte_pos_increasing};
use crate::place::{elongated, elongated_prefix, occurrences, selection, tatweels, TATWEEL};
use crate::text::{is_boundary, lemma_byte_len_concat, lemma_byte_pos_step, lemma_char_index, width};
use crate::Script;
use vstd::prelude::*;

verus! {

/// Whether the byte offset `b` is where a grapheme cluster of a word of `s`
/// starts.
pub open spec fn starts_cluster(s: Seq<char>, b: int) -> bool {
    exists|w: int, k: int|
        0 <= w < words(s).len() && 0 <= k < clusters(s, words(s)[w]).len() && byte_pos(
            s,
            #[trigger] clusters(s, words(s)[w])[k].0 as int,
        ) == b
}

/// The candidate kept from a run of candidates is one of them.
proof fn lemma_best_is_item(cs: Seq<Option<crate::arabic::Candidate>>)
    ensures
        best(cs) is Some ==> exists|j: int| 0 <= j < cs.len() && cs[j] == best(cs),
    decreases cs.len(),
{
    if cs.len() > 0 {
        lemma_best_is_item(cs.drop_last());
        if best(cs) is Some && best(cs) != best(cs.drop_last()) {
            assert(cs[cs.len() - 1] == best(cs));
        } else if best(cs) is Some {
            let j = choose|j: int|
                0 <= j < cs.drop_last().len() && cs.drop_last()[j] == best(cs.drop_last());
            assert(cs[j] == best(cs));
        }
    }
}

/// The best candidate of a word goes before one of its clusters.
proof fn lemma_best_in_word(s: Seq<char>, script: Script, p: (usize, usize))
    requires
        is_word(s, p),
        word_best(s, script, p) is Some,
        byte_len(s) <= usize::MAX,
    ensures
        exists|k: int|
            1 <= k < clusters(s, p).len() && byte_pos(s, #[trigger] clusters(s, p)[k].0 as int)
                == (word_best(s, script, p)->0).0,
{
    lemma_byte_pos_increasing(s, 0, s.len() as int);
    lemma_byte_pos_bound(s, 0);
    lemma_clusters_fit(s, p, pairs(crate::segment::cluster_breaks_of(crate::text::between(s, p.0 as int, p.1 as int))));
    let cl = clusters(s, p);
    let cs = word_candidates(s, script, cl);
    lemma_best_is_item(cs);
    let j = choose|j: int| 0 <= j < cs.len() && cs[j] == best(cs);
    let x = best(cs)->0;
    let v4 = padded(lifted(cl), 3).push(None);
    let v3 = padded(lifted(cl), 2).push(None);
    let k: int = match script {
        Script::Unknown => {
            let t = windows3(cl)[j];
            lemma_rule_starts(crate::letters::letters_of(s), (None, None, None, None), t);
            j + 1
        },
        _ => {
            let w = windows4(cl)[j];
            lemma_rule_starts(crate::letters::letters_of(s), w, (None, None, None));
            if w.1 is Some && x.0 == crate::letters::start(w.1) {
                j + 1
            } else if w.2 is Some && x.0 == crate::letters::start(w.2) {
                j + 2
            } else {
                j + 3
            }
        },
    };
    assert(v4.len() == if cl.len() >= 3 { cl.len() + 1 } else { 4 });
    assert(v3.len() == if cl.len() >= 2 { cl.len() + 1 } else { 3 });
    assert(1 <= k < cl.len() && cl[k].0 == x.0);
    lemma_byte_pos_bound(s, x.0 as int);
}

/// Where the kept candidate of the word `w` stands.
proof fn lemma_entry(s: Seq<char>, script: Script, e: Entry)
    requires
        0 <= e.0 < words(s).len(),
        best_at(s, script, e.0 as int) == Some(e.1),
        byte_len(s) <= usize::MAX,
        segmented(s),
    ensures
        starts_cluster(s, e.1.0 as int),
        words(s)[e.0 as int].0 < e.1.0 < words(s)[e.0 as int].1,
        e.1.0 < byte_len(s),
        crate::text::is_boundary(s, e.1.0 as int),
{
    let p = words(s)[e.0 as int];
    lemma_kept_words(s, pairs(word_breaks_of(s)));
    lemma_best_in_word(s, script, p);
    let cl = clusters(s, p);
    let k = choose|k: int|
        1 <= k < cl.len() && byte_pos(s, #[trigger] cl[k].0 as int) == (word_best(s, script, p)->0).0;
    lemma_byte_pos_increasing(s, 0, s.len() as int);
    lemma_byte_pos_bound(s, 0);
    lemma_clusters_fit(s, p, pairs(crate::segment::cluster_breaks_of(crate::text::between(s, p.0 as int, p.1 as int))));
    let sp = cl[k];
    monotone_index(s, p.0 as int, p.1 as int);
    lemma_byte_pos_increasing(s, char_index(s, p.0 as int), sp.0 as int);
    lemma_byte_pos_increasing(s, sp.0 as int, char_index(s, p.1 as int));
    lemma_byte_pos_increasing(s, char_index(s, p.1 as int), s.len() as int);
    lemma_byte_pos_bound(s, s.len() as int);
    let v = crate::segment::cluster_breaks_of(crate::text::between(s, p.0 as int, p.1 as int));
    assert(crate::segment::clusters_rise(s, words(s)[e.0 as int]));
    lemma_pairs_chained(v);
    lemma_clusters_chained(s, p, pairs(v));
    assert(cl[0].1 <= cl[k].0);
    lemma_byte_pos_increasing(s, char_index(s, p.0 as int), sp.0 as int);
    assert(starts_cluster(s, e.1.0 as int)) by {
        assert(0 <= e.0 < words(s).len() && 0 <= k < clusters(s, words(s)[e.0 as int]).len());
    }
}

/// Every offset that `find_kashidas` gives is where a grapheme cluster of
/// a word of the text starts, a character boundary strictly inside the
/// text (never 0: the first cluster of a word never gets one). The
/// segmenter's boundaries rise as `find_kashidas` states.
pub proof fn law_offsets_start_clusters(s: Seq<char>, script: Script, r: Seq<usize>)
    requires
        ranked(s, script, r),
        segmented(s),
        byte_len(s) <= usize::MAX,
    ensures
        forall|i: int|
            0 <= i < r.len() ==> starts_cluster(s, #[trigger] r[i] as int) && 0 < r[i] < byte_len(
                s,
            ) && is_boundary(s, r[i] as int),
{
    let c = choose|c: Seq<Entry>|
        lists_best(s, script, c) && crate::rank::by_priority(c) && r == c.map_values(
            |e: Entry| e.1.0,
        );
    assert forall|i: int| 0 <= i < r.len() implies starts_cluster(s, #[trigger] r[i] as int) && 0
        < r[i] < byte_len(s) && is_boundary(s, r[i] as int) by {
        lemma_entry(s, script, c[i]);
    }
}

/// No two offsets that `find_kashidas` gives belong to one word: each lies
/// within the bytes of a word of its own, so the offsets differ and are
/// no more than the words. The segmenter's boundaries rise as
/// `find_kashidas` states.
pub proof fn law_one_per_word(s: Seq<char>, script: Script, r: Seq<usize>)
    requires
        ranked(s, script, r),
        segmented(s),
        byte_len(s) <= usize::MAX,
    ensures
        forall|i: int, j: int| 0 <= i < j < r.len() ==> r[i] != r[j],
        r.len() <= words(s).len(),
        exists|owner: Seq<int>|
            {
                &&& owner.len() == r.len()
                &&& forall|i: int|
                    0 <= i < r.len() ==> 0 <= #[trigger] owner[i] < words(s).len() && words(
                        s,
                    )[owner[i]].0 <= r[i] < words(s)[owner[i]].1
                &&& forall|i: int, j: int| 0 <= i < j < r.len() ==> owner[i] != owner[j]
            },
{
    let c = choose|c: Seq<Entry>|
        lists_best(s, script, c) && crate::rank::by_priority(c) && r == c.map_values(
            |e: Entry| e.1.0,
        );
    let owner = c.map_values(|e: Entry| e.0 as int);
    assert forall|i: int| 0 <= i < r.len() implies 0 <= #[trigger] owner[i] < words(s).len()
        && words(s)[owner[i]].0 <= r[i] < words(s)[owner[i]].1 by {
        lemma_entry(s, script, c[i]);
    }
    assert forall|i: int, j: int| 0 <= i < j < r.len() implies owner[i] != owner[j] by {
        assert(c[i].0 != c[j].0);
    }
    assert(owner.no_duplicates());
    owner.unique_seq_to_set();
    vstd::set_lib::lemma_int_range(0, words(s).len() as int);
    assert(owner.to_set().subset_of(vstd::set_lib::set_int_range(0, words(s).len() as int)));
    vstd::set_lib::lemma_len_subset(owner.to_set(), vstd::set_lib::set_int_range(0, words(s).len() as int));
    let v = word_breaks_of(s);
    lemma_pairs_chained(v);
    lemma_words_chained(s, pairs(v));
    assert forall|i: int, j: int| 0 <= i < j < r.len() implies r[i] != r[j] by {
        lemma_entry(s, script, c[i]);
        lemma_entry(s, script, c[j]);
        if owner[i] < owner[j] {
            assert(words(s)[owner[i]].1 <= words(s)[owner[j]].0);
        } else {
            assert(owner[i] != owner[j]);
            assert(words(s)[owner[j]].1 <= words(s)[owner[i]].0);
        }
    }
    assert(owner.len() == r.len());
}

/// How many elongation characters go before the first `i` characters of
/// `s`, for the offsets `sel`.
pub open spec fn spread(s: Seq<char>, sel: Seq<usize>, i: int) -> nat
    decreases i,
{
    if i <= 0 {
        0
    } else {
        spread(s, sel, i - 1) + occurrences(sel, byte_pos(s, i - 1) as int)
    }
}

/// How many of the first `i` character positions of `s` are at byte `x`.
pub open spec fn hits(s: Seq<char>, x: int, i: int) -> nat
    decreases i,
{
    if i <= 0 {
        0
    } else {
        hits(s, x, i - 1) + if byte_pos(s, i - 1) == x {
            1nat
        } else {
            0nat
        }
    }
}

proof fn lemma_hits(s: Seq<char>, x: int, i: int)
    requires
        is_boundary(s, x),
        0 <= i <= s.len() + 1,
    ensures
        hits(s, x, i) == if char_index(s, x) < i {
            1nat
        } else {
            0nat
        },
    decreases i,
{
    let k = choose|k: int| 0 <= k <= s.len() && byte_pos(s, k) == x;
    lemma_char_index(s, k);
    if i > 0 {
        lemma_hits(s, x, i - 1);
        if i - 1 != k {
            if i - 1 < k {
                lemma_byte_pos_increasing(s, i - 1, k);
            } else {
                lemma_byte_pos_increasing(s, k, i - 1);
            }
        }
    }
}

proof fn lemma_spread_push(s: Seq<char>, sel: Seq<usize>, x: usize, i: int)
    ensures
        spread(s, sel.push(x), i) == spread(s, sel, i) + hits(s, x as int, i),
    decreases i,
{
    if i > 0 {
        lemma_spread_push(s, sel, x, i - 1);
        assert(sel.push(x).drop_last() =~= sel);
    }
}

proof fn lemma_spread_total(s: Seq<char>, sel: Seq<usize>)
    requires
        forall|j: int| 0 <= j < sel.len() ==> is_boundary(s, #[trigger] sel[j] as int),
    ensures
        spread(s, sel, s.len() + 1 as int) == sel.len(),
    decreases sel.len(),
{
    if sel.len() == 0 {
        lemma_spread_zero(s, sel, s.len() + 1 as int);
    } else {
        let rest = sel.drop_last();
        assert forall|j: int| 0 <= j < rest.len() implies is_boundary(s, #[trigger] rest[j] as int) by {
            assert(rest[j] == sel[j]);
        }
        lemma_spread_total(s, rest);
        assert(rest.push(sel.last()) =~= sel);
        lemma_spread_push(s, rest, sel.last(), s.len() + 1 as int);
        assert(is_boundary(s, sel[sel.len() - 1] as int));
        lemma_hits(s, sel.last() as int, s.len() + 1 as int);
        let k = choose|k: int| 0 <= k <= s.len() && byte_pos(s, k) == sel.last() as int;
        lemma_char_index(s, k);
    }
}

proof fn lemma_spread_zero(s: Seq<char>, sel: Seq<usize>, i: int)
    requires
        sel.len() == 0,
    ensures
        spread(s, sel, i) == 0,
    decreases i,
{
    if i > 0 {
        lemma_spread_zero(s, sel, i - 1);
    }
}

proof fn lemma_spread_grows(s: Seq<char>, sel: Seq<usize>, i: int, j: int)
    requires
        i <= j,
    ensures
        spread(s, sel, i) <= spread(s, sel, j),
    decreases j - i,
{
    if i < j {
        lemma_spread_grows(s, sel, i, j - 1);
    }
}

proof fn lemma_tatweel_bytes(n: nat)
    ensures
        byte_len(tatweels(n)) == 2 * n,
    decreases n,
{
    if n > 0 {
        assert(tatweels(n).drop_first() =~= tatweels((n - 1) as nat));
        lemma_tatweel_bytes((n - 1) as nat);
    }
}

proof fn lemma_one_char(c: char)
    ensures
        byte_len(seq![c]) == width(c),
{
    assert(seq![c].drop_first() =~= Seq::<char>::empty());
    assert(byte_len(Seq::<char>::empty()) == 0);
}

proof fn lemma_prefix_size(s: Seq<char>, sel: Seq<usize>, i: int)
    requires
        0 <= i <= s.len(),
    ensures
        elongated_prefix(s, sel, i).len() == i + spread(s, sel, i),
        byte_len(elongated_prefix(s, sel, i)) == byte_pos(s, i) + 2 * spread(s, sel, i),
    decreases i,
{
    if i == 0 {
        assert(s.take(0) =~= Seq::<char>::empty());
    } else {
        lemma_prefix_size(s, sel, i - 1);
        let pre = elongated_prefix(s, sel, i - 1);
        let t = tatweels(occurrences(sel, byte_pos(s, i - 1) as int));
        lemma_byte_len_concat(pre, t);
        lemma_byte_len_concat(pre + t, seq![s[i - 1]]);
        lemma_tatweel_bytes(occurrences(sel, byte_pos(s, i - 1) as int));
        lemma_one_char(s[i - 1]);
        lemma_byte_pos_step(s, i - 1);
    }
}

proof fn lemma_prefix_item(s: Seq<char>, sel: Seq<usize>, m: int, i: int)
    requires
        0 <= i < m <= s.len(),
    ensures
        i + spread(s, sel, i + 1) < elongated_prefix(s, sel, m).len(),
        elongated_prefix(s, sel, m)[i + spread(s, sel, i + 1)] == s[i],
    decreases m,
{
    lemma_prefix_size(s, sel, m);
    lemma_prefix_size(s, sel, m - 1);
    if i < m - 1 {
        lemma_prefix_item(s, sel, m - 1, i);
    }
}

/// Placing `count` elongations at the offsets `locs`, which all fall on
/// characters of `s`: the offsets are taken in turn, starting over from
/// the first when `count` exceeds them; the text grows by exactly `count`
/// characters, two bytes each in UTF-8; and every character of `s` stays,
/// in its order.
pub proof fn law_cycling_placement(s: Seq<char>, locs: Seq<usize>, count: nat)
    requires
        locs.len() > 0,
        forall|i: int| 0 <= i < locs.len() ==> is_boundary(s, #[trigger] locs[i] as int),
    ensures
        forall|j: int|
            0 <= j < count ==> #[trigger] selection(locs, count)[j] == locs[j % (locs.len() as int)],
        elongated(s, selection(locs, count)).len() == s.len() + count,
        byte_len(elongated(s, selection(locs, count))) == byte_len(s) + 2 * count,
        exists|f: Seq<int>|
            {
                &&& f.len() == s.len()
                &&& forall|i: int, j: int| 0 <= i < j < s.len() ==> f[i] < f[j]
                &&& forall|i: int|
                    0 <= i < s.len() ==> 0 <= #[trigger] f[i] < elongated(
                        s,
                        selection(locs, count),
                    ).len() && elongated(s, selection(locs, count))[f[i]] == s[i]
            },
{
    let sel = selection(locs, count);
    let n = s.len() as int;
    assert forall|j: int| 0 <= j < sel.len() implies is_boundary(s, #[trigger] sel[j] as int) by {
        assert(sel[j] == locs[j % (locs.len() as int)]);
    }
    lemma_spread_total(s, sel);
    lemma_prefix_size(s, sel, n);
    let pre = elongated_prefix(s, sel, n);
    let t = tatweels(occurrences(sel, byte_pos(s, n) as int));
    lemma_byte_len_concat(pre, t);
    lemma_tatweel_bytes(occurrences(sel, byte_pos(s, n) as int));
    lemma_byte_pos_bound(s, n);
    let res = elongated(s, sel);
    let f = Seq::new(s.len(), |i: int| i + spread(s, sel, i + 1));
    assert forall|i: int, j: int| 0 <= i < j < s.len() implies f[i] < f[j] by {
        lemma_spread_grows(s, sel, i + 1, j + 1);
    }
    assert forall|i: int| 0 <= i < s.len() implies 0 <= #[trigger] f[i] < res.len() && res[f[i]]
        == s[i] by {
        lemma_prefix_item(s, sel, n, i);
        assert(res[f[i]] == pre[f[i]]);
    }
    assert(f.len() == s.len());
}

proof fn lemma_prefix_stable(s: Seq<char>, sel: Seq<usize>, m: int, n: int, j: int)
    requires
        0 <= m <= n <= s.len(),
        0 <= j < elongated_prefix(s, sel, m).len(),
    ensures
        j < elongated_prefix(s, sel, n).len(),
        elongated_prefix(s, sel, n)[j] == elongated_prefix(s, sel, m)[j],
    decreases n - m,
{
    if m < n {
        lemma_prefix_stable(s, sel, m, n - 1, j);
    }
}

proof fn lemma_run_item(s: Seq<char>, sel: Seq<usize>, i: int, j: int)
    requires
        0 <= i <= s.len(),
        i + spread(s, sel, i) <= j < i + spread(s, sel, i + 1),
    ensures
        j < elongated(s, sel).len(),
        elongated(s, sel)[j] == TATWEEL,
{
    let n = s.len() as int;
    let pre = elongated_prefix(s, sel, n);
    lemma_prefix_size(s, sel, n);
    if i < n {
        lemma_prefix_size(s, sel, i);
        lemma_prefix_size(s, sel, i + 1);
        let p1 = elongated_prefix(s, sel, i + 1);
        assert(p1[j] == TATWEEL);
        lemma_prefix_stable(s, sel, i + 1, n, j);
        assert(elongated(s, sel)[j] == pre[j]);
    } else {
        assert(spread(s, sel, n + 1) == spread(s, sel, n) + occurrences(sel, byte_pos(s, n) as int));
        assert(elongated(s, sel)[j] == tatweels(occurrences(sel, byte_pos(s, n) as int))[j
            - pre.len()]);
    }
}

/// Placing `count` elongations at the offsets `locs`, which all fall on
/// characters of `s`: the run of elongation characters before the character
/// of index `i` of `s` (or after the last, for `i == s.len()`) is as long as
/// the number of offsets taken that are its byte position (the `j < count`
/// with `locs[j % locs.len()]` equal to it), the character of `s` follows
/// its run, and the result is made of these runs and characters alone (see
/// `law_placement_run_item`).
pub proof fn law_placement_runs(s: Seq<char>, locs: Seq<usize>, count: nat)
    requires
        locs.len() > 0,
        forall|i: int| 0 <= i < locs.len() ==> is_boundary(s, #[trigger] locs[i] as int),
    ensures
        forall|i: int|
            0 <= i <= s.len() ==> spread(s, selection(locs, count), i + 1) - spread(
                s,
                selection(locs, count),
                i,
            ) == occurrences(selection(locs, count), #[trigger] byte_pos(s, i) as int),
        forall|i: int|
            0 <= i < s.len() ==> elongated(s, selection(locs, count))[i + spread(
                s,
                selection(locs, count),
                i + 1,
            )] == #[trigger] s[i],
        elongated(s, selection(locs, count)).len() == s.len() + spread(
            s,
            selection(locs, count),
            s.len() + 1 as int,
        ),
{
    let sel = selection(locs, count);
    let n = s.len() as int;
    let res = elongated(s, sel);
    let pre = elongated_prefix(s, sel, n);
    lemma_prefix_size(s, sel, n);
    assert forall|i: int| 0 <= i < s.len() implies res[i + spread(s, sel, i + 1)] == #[trigger] s[i] by {
        lemma_prefix_item(s, sel, n, i);
        assert(res[i + spread(s, sel, i + 1)] == pre[i + spread(s, sel, i + 1)]);
    }
}

/// Placing `count` elongations at the offsets `locs`: the positions of the
/// result between the character of index `i - 1` of `s` and the one of
/// index `i` (see `law_placement_runs`) hold elongation characters only.
pub proof fn law_placement_run_item(s: Seq<char>, locs: Seq<usize>, count: nat, i: int, j: int)
    requires
        0 <= i <= s.len(),
        i + spread(s, selection(locs, count), i) <= j < i + spread(
            s,
            selection(locs, count),
            i + 1,
        ),
    ensures
        j < elongated(s, selection(locs, count)).len(),
        elongated(s, selection(locs, count))[j] == TATWEEL,
{
    lemma_run_item(s, selection(locs, count), i, j);
}

} // verus!
