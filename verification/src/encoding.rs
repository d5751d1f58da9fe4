//! Facts about the UTF-8 encoding of character sequences.
//!
//! A `str` is seen in contracts as its sequence of characters, while its length
//! and its offsets count bytes. These lemmas connect the two.

use vstd::prelude::*;
use vstd::utf8::*;

verus! {

/// A character takes between one and four bytes.
pub proof fn lemma_scalar_len(c: char)
    ensures
        1 <= encode_scalar(c as u32).len() <= 4,
{
}

/// Encoding distributes over concatenation.
pub proof fn lemma_encode_concat(a: Seq<char>, b: Seq<char>)
    ensures
        encode_utf8(a + b) == encode_utf8(a) + encode_utf8(b),
    decreases a.len(),
{
    if a.len() > 0 {
        lemma_encode_concat(a.drop_first(), b);
        assert((a + b).drop_first() =~= a.drop_first() + b);
    }
}

/// A text has at least as many bytes as characters, and at most four times as many.
pub proof fn lemma_encode_len(a: Seq<char>)
    ensures
        a.len() <= encode_utf8(a).len() <= 4 * a.len(),
    decreases a.len(),
{
    if a.len() != 0 {
        lemma_scalar_len(a[0]);
        lemma_encode_len(a.drop_first());
    }
}

/// Two texts whose encodings begin alike begin with the same character.
proof fn lemma_same_first_char(s: Seq<char>, c: Seq<char>)
    requires
        s.len() > 0,
        encode_utf8(s).is_prefix_of(encode_utf8(c)),
    ensures
        c.len() > 0,
        s[0] == c[0],
{
    let es = encode_utf8(s);
    let ec = encode_utf8(c);
    lemma_scalar_len(s[0]);
    encode_utf8_first_scalar(s);
    encode_utf8_first_scalar(c);
    char_u32_cast(s[0], decode_first_scalar(es));
    char_u32_cast(c[0], decode_first_scalar(ec));
}

/// One text begins another exactly when its encoding begins the other's encoding.
pub proof fn lemma_prefix_of_encoding(s: Seq<char>, c: Seq<char>)
    ensures
        encode_utf8(s).is_prefix_of(encode_utf8(c)) <==> s.is_prefix_of(c),
    decreases s.len(),
{
    if s.is_prefix_of(c) {
        assert(c =~= s + c.skip(s.len() as int));
        lemma_encode_concat(s, c.skip(s.len() as int));
    }
    if encode_utf8(s).is_prefix_of(encode_utf8(c)) {
        if s.len() > 0 {
            lemma_same_first_char(s, c);
            let head = encode_scalar(s[0] as u32);
            let es = encode_utf8(s.drop_first());
            let ec = encode_utf8(c.drop_first());
            assert(es.is_prefix_of(ec)) by {
                assert forall|i: int| 0 <= i < es.len() implies es[i] == ec[i] by {
                    assert((head + es)[head.len() + i] == es[i]);
                }
            }
            lemma_prefix_of_encoding(s.drop_first(), c.drop_first());
            assert(s.is_prefix_of(c)) by {
                assert forall|i: int| 0 <= i < s.len() implies s[i] == c[i] by {
                    if i > 0 {
                        assert(s.drop_first()[i - 1] == c.drop_first()[i - 1]);
                    }
                }
            }
        }
    }
}

/// Where one text begins another, the longer one in characters is the longer one in bytes.
pub proof fn lemma_prefix_len(s: Seq<char>, c: Seq<char>)
    requires
        s.is_prefix_of(c),
    ensures
        encode_utf8(c).len() > encode_utf8(s).len() <==> c.len() > s.len(),
{
    let rest = c.skip(s.len() as int);
    assert(c =~= s + rest);
    lemma_encode_concat(s, rest);
    lemma_encode_len(rest);
}

} // verus!
