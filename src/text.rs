//! Character-level access to text, and the UTF-8 length of character runs.
use vstd::prelude::*;
use vstd::utf8::{encode_scalar, encode_utf8};

verus! {

broadcast use vstd::string::group_string_axioms, vstd::utf8::char_is_scalar;

/// The characters of `s`, one per element.
pub fn chars_of(s: &str) -> (v: Vec<char>)
    ensures
        v@ == s@,
{
    let mut v: Vec<char> = Vec::new();
    for c in it: s.chars()
        invariant
            it.seq() == s@,
            v@ == it.seq().take(it.index()),
    {
        v.push(c);
    }
    v
}

/// The number of bytes in the UTF-8 encoding of `s`.
pub open spec fn utf8_len(s: Seq<char>) -> nat {
    encode_utf8(s).len()
}

/// Encoding a concatenation encodes each part in turn.
pub proof fn lemma_encode_utf8_concat(a: Seq<char>, b: Seq<char>)
    ensures
        encode_utf8(a + b) == encode_utf8(a) + encode_utf8(b),
    decreases a.len(),
{
    if a.len() == 0 {
        assert(a + b =~= b);
        assert(encode_utf8(a) + encode_utf8(b) =~= encode_utf8(b));
    } else {
        assert((a + b).drop_first() =~= a.drop_first() + b);
        assert((a + b)[0] == a[0]);
        lemma_encode_utf8_concat(a.drop_first(), b);
        assert(encode_utf8(a + b) =~= encode_utf8(a) + encode_utf8(b));
    }
}

/// The number of bytes in the UTF-8 encoding of `c`.
fn utf8_width(c: char) -> (w: usize)
    ensures
        w == utf8_len(seq![c]),
        1 <= w <= 4,
{
    proof {
        let s = seq![c];
        assert(s.drop_first() =~= Seq::<char>::empty());
        assert(encode_utf8(Seq::<char>::empty()) == Seq::<u8>::empty());
        assert(encode_utf8(s) == encode_scalar(c as u32) + encode_utf8(s.drop_first()));
        assert(encode_utf8(s) =~= encode_scalar(c as u32));
    }
    let u = c as u32;
    if u <= 0x7F {
        1
    } else if u <= 0x7FF {
        2
    } else if u <= 0xFFFF {
        3
    } else {
        4
    }
}

/// The number of bytes in the UTF-8 encoding of `t[..n]`.
pub fn utf8_offset(t: &Vec<char>, n: usize) -> (r: usize)
    requires
        n <= t.len(),
        utf8_len(t@) <= usize::MAX,
    ensures
        r == utf8_len(t@.subrange(0, n as int)),
{
    let mut sum: usize = 0;
    let mut i: usize = 0;
    while i < n
        invariant
            i <= n <= t.len(),
            utf8_len(t@) <= usize::MAX,
            sum == utf8_len(t@.subrange(0, i as int)),
        decreases n - i,
    {
        let w = utf8_width(t[i]);
        proof {
            let head = t@.subrange(0, i as int);
            assert(t@.subrange(0, i + 1) =~= head + seq![t@[i as int]]);
            lemma_encode_utf8_concat(head, seq![t@[i as int]]);
            assert(t@ =~= t@.subrange(0, i + 1) + t@.subrange(i + 1, t@.len() as int));
            lemma_encode_utf8_concat(t@.subrange(0, i + 1), t@.subrange(i + 1, t@.len() as int));
        }
        sum = sum + w;
        i = i + 1;
    }
    sum
}

} // verus!
