//! A text as its characters, with the byte position of each in UTF-8.

use vstd::prelude::*;
use vstd::utf8::{char_is_scalar, encode_scalar, encode_utf8};

verus! {

/// The number of bytes that UTF-8 takes for `c` (as `char::len_utf8`).
pub open spec fn width(c: char) -> nat {
    let u = c as u32;
    if u < 0x80 {
        1
    } else if u < 0x800 {
        2
    } else if u < 0x10000 {
        3
    } else {
        4
    }
}

/// The number of bytes that UTF-8 takes for the characters `s`.
pub open spec fn byte_len(s: Seq<char>) -> nat
    decreases s.len(),
{
    if s.len() == 0 {
        0
    } else {
        width(s[0]) + byte_len(s.drop_first())
    }
}

/// The byte position of the character at index `i` of `s` (or of the end
/// of `s`, for `i == s.len()`).
pub open spec fn byte_pos(s: Seq<char>, i: int) -> nat {
    byte_len(s.take(i))
}

/// Whether the byte offset `b` starts a character of `s`, or is its end.
pub open spec fn is_boundary(s: Seq<char>, b: int) -> bool {
    exists|i: int| 0 <= i <= s.len() && byte_pos(s, i) == b
}

/// The index of the character that starts at byte offset `b` of `s` (the
/// length of `s` for its end).
pub open spec fn char_index(s: Seq<char>, b: int) -> int {
    choose|i: int| 0 <= i <= s.len() && byte_pos(s, i) == b
}

/// The characters of `s` between the byte offsets `a` and `b`.
pub open spec fn between(s: Seq<char>, a: int, b: int) -> Seq<char> {
    s.subrange(char_index(s, a), char_index(s, b))
}

pub proof fn lemma_byte_len_concat(a: Seq<char>, b: Seq<char>)
    ensures
        byte_len(a + b) == byte_len(a) + byte_len(b),
    decreases a.len(),
{
    if a.len() == 0 {
        assert(a + b =~= b);
    } else {
        assert((a + b).drop_first() =~= a.drop_first() + b);
        lemma_byte_len_concat(a.drop_first(), b);
    }
}

pub proof fn lemma_byte_pos_step(s: Seq<char>, i: int)
    requires
        0 <= i < s.len(),
    ensures
        byte_pos(s, i + 1) == byte_pos(s, i) + width(s[i]),
{
    assert(s.take(i + 1) =~= s.take(i) + seq![s[i]]);
    lemma_byte_len_concat(s.take(i), seq![s[i]]);
    assert(seq![s[i]].drop_first() =~= Seq::<char>::empty());
    assert(byte_len(Seq::<char>::empty()) == 0);
    assert(byte_len(seq![s[i]]) == width(s[i]));
}

/// Byte positions grow strictly with the index.
pub proof fn lemma_byte_pos_increasing(s: Seq<char>, i: int, j: int)
    requires
        0 <= i <= j <= s.len(),
    ensures
        byte_pos(s, i) + (j - i) <= byte_pos(s, j),
    decreases j - i,
{
    if i < j {
        lemma_byte_pos_increasing(s, i, j - 1);
        lemma_byte_pos_step(s, j - 1);
    }
}

/// A byte offset starts at most one character.
pub proof fn lemma_char_index(s: Seq<char>, i: int)
    requires
        0 <= i <= s.len(),
    ensures
        is_boundary(s, byte_pos(s, i) as int),
        char_index(s, byte_pos(s, i) as int) == i,
{
    let b = byte_pos(s, i) as int;
    assert(0 <= i <= s.len() && byte_pos(s, i) == b);
    let k = char_index(s, b);
    if k < i {
        lemma_byte_pos_increasing(s, k, i);
    } else if i < k {
        lemma_byte_pos_increasing(s, i, k);
    }
}

proof fn lemma_width_encoding(c: char)
    ensures
        encode_scalar(c as u32).len() == width(c),
{
    char_is_scalar(c);
}

/// The byte length agrees with the UTF-8 encoding.
pub proof fn lemma_byte_len_encoding(s: Seq<char>)
    ensures
        byte_len(s) == encode_utf8(s).len(),
    decreases s.len(),
{
    if s.len() > 0 {
        lemma_width_encoding(s[0]);
        lemma_byte_len_encoding(s.drop_first());
    }
}

pub proof fn lemma_byte_pos_bound(s: Seq<char>, i: int)
    requires
        0 <= i <= s.len(),
    ensures
        byte_pos(s, i) <= byte_pos(s, s.len() as int),
        byte_pos(s, s.len() as int) == byte_len(s),
{
    lemma_byte_pos_increasing(s, i, s.len() as int);
    assert(s.take(s.len() as int) =~= s);
}

fn char_width(c: char) -> (r: usize)
    ensures
        r == width(c),
{
    let u = c as u32;
    if u < 0x80 {
        1
    } else if u < 0x800 {
        2
    } else if u < 0x10000 {
        3
    } else {
        4
    }
}

/// A text split into characters, with the byte position of each.
pub struct Decoded {
    /// The characters, in order.
    pub chars: Vec<char>,
    /// The byte position of each character, then the byte length.
    pub offsets: Vec<usize>,
}

impl Decoded {
    /// Whether this holds the characters of `s` and their byte positions.
    pub open spec fn of(self, s: Seq<char>) -> bool {
        &&& self.chars@ == s
        &&& self.offsets@.len() == s.len() + 1
        &&& forall|i: int| 0 <= i <= s.len() ==> #[trigger] self.offsets@[i] == byte_pos(s, i)
    }
}

/// Splits `s` into characters and records where each starts.
pub fn decode(s: &str) -> (r: Decoded)
    ensures
        r.of(s@),
{
    let total = s.as_bytes().len();
    proof {
        lemma_byte_len_encoding(s@);
    }
    let mut chars: Vec<char> = Vec::new();
    let mut offsets: Vec<usize> = Vec::new();
    let mut pos: usize = 0;
    for c in it: s.chars()
        invariant
            it.seq() == s@,
            total == byte_len(s@),
            chars@ == s@.take(it.index() as int),
            offsets@.len() == it.index(),
            forall|i: int| 0 <= i < it.index() ==> #[trigger] offsets@[i] == byte_pos(s@, i),
            pos == byte_pos(s@, it.index() as int),
    {
        let ghost i = it.index() as int;
        proof {
            lemma_byte_pos_step(s@, i);
            lemma_byte_pos_bound(s@, i + 1);
        }
        offsets.push(pos);
        chars.push(c);
        pos = pos + char_width(c);
        assert(chars@ =~= s@.take(i + 1));
    }
    offsets.push(pos);
    assert(chars@ =~= s@);
    Decoded { chars, offsets }
}

/// Finds the character of `d` that starts at byte offset `b` (the number
/// of characters, for the end).
pub fn find_boundary(d: &Decoded, b: usize) -> (r: Option<usize>)
    requires
        d.of(d.chars@),
    ensures
        match r {
            Some(i) => i <= d.chars@.len() && byte_pos(d.chars@, i as int) == b && char_index(
                d.chars@,
                b as int,
            ) == i,
            None => !is_boundary(d.chars@, b as int),
        },
{
    let ghost s = d.chars@;
    let mut lo: usize = 0;
    let mut hi: usize = d.offsets.len();
    while lo < hi
        invariant
            d.of(s),
            s == d.chars@,
            0 <= lo <= hi <= s.len() + 1,
            forall|i: int| 0 <= i < lo ==> byte_pos(s, i) < b,
            forall|i: int| hi <= i <= s.len() ==> byte_pos(s, i) > b,
        decreases hi - lo,
    {
        let mid = lo + (hi - lo) / 2;
        let o = d.offsets[mid];
        assert(o == byte_pos(s, mid as int));
        if o == b {
            proof {
                lemma_char_index(s, mid as int);
            }
            return Some(mid);
        } else if o < b {
            assert forall|i: int| 0 <= i < mid + 1 implies byte_pos(s, i) < b by {
                lemma_byte_pos_increasing(s, i, mid as int);
            }
            lo = mid + 1;
        } else {
            assert forall|i: int| mid <= i <= s.len() implies byte_pos(s, i) > b by {
                lemma_byte_pos_increasing(s, mid as int, i);
            }
            hi = mid;
        }
    }
    proof {
        if is_boundary(s, b as int) {
            let i = choose|i: int| 0 <= i <= s.len() && byte_pos(s, i) == b;
            assert(byte_pos(s, i) == b);
        }
    }
    None
}

} // verus!
