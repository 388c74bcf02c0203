//! How the text of a term and its UTF-8 bytes correspond: what holds of the
//! one when the other is joined, compared or cut at the front.

use vstd::prelude::*;
use vstd::utf8::*;

verus! {

/// The bytes of joined texts are the joined bytes of the texts.
pub proof fn lemma_encode_concat(a: Seq<char>, b: Seq<char>)
    ensures
        encode_utf8(a + b) == encode_utf8(a) + encode_utf8(b),
    decreases a.len(),
{
    if a.len() == 0 {
        assert(a + b =~= b);
        assert(encode_utf8(a) + encode_utf8(b) =~= encode_utf8(b));
    } else {
        lemma_encode_concat(a.drop_first(), b);
        assert((a + b).drop_first() =~= a.drop_first() + b);
        assert((a + b)[0] == a[0]);
        assert(encode_utf8(a + b) =~= encode_utf8(a) + encode_utf8(b));
    }
}

/// Two texts with the same bytes are the same text.
pub proof fn lemma_encode_injective(a: Seq<char>, b: Seq<char>)
    requires
        encode_utf8(a) == encode_utf8(b),
    ensures
        a == b,
{
    encode_utf8_decode_utf8(a);
    encode_utf8_decode_utf8(b);
}

/// A text begins with another exactly when its bytes begin with the bytes of
/// the other.
pub proof fn lemma_prefix_iff_bytes_prefix(a: Seq<char>, b: Seq<char>)
    ensures
        a.is_prefix_of(b) <==> encode_utf8(a).is_prefix_of(encode_utf8(b)),
    decreases a.len(),
{
    if a.is_prefix_of(b) {
        let rest = b.skip(a.len() as int);
        assert(b =~= a + rest);
        lemma_encode_concat(a, rest);
        assert((encode_utf8(a) + encode_utf8(rest)).subrange(0, encode_utf8(a).len() as int)
            =~= encode_utf8(a));
    }
    if encode_utf8(a).is_prefix_of(encode_utf8(b)) {
        if a.len() == 0 {
            assert(a =~= b.subrange(0, 0));
        } else {
            let bytes_a = encode_utf8(a);
            let bytes_b = encode_utf8(b);
            encode_utf8_first_scalar(a);
            assert(bytes_a.len() > 0);
            assert(b.len() > 0);
            encode_utf8_first_scalar(b);
            let width = length_of_first_scalar(bytes_a);
            assert(width <= bytes_a.len());
            assert(forall|i: int| 0 <= i < bytes_a.len() ==> bytes_a[i] == bytes_b.subrange(
                0,
                bytes_a.len() as int,
            )[i]);
            assert(bytes_a[0] == bytes_b[0]);
            assert(width == length_of_first_scalar(bytes_b));
            assert(decode_first_scalar(bytes_a) == decode_first_scalar(bytes_b));
            char_u32_cast(a[0], a[0] as u32);
            char_u32_cast(b[0], b[0] as u32);
            assert(a[0] == b[0]);
            let head = encode_scalar(a[0] as u32);
            let tail_a = encode_utf8(a.drop_first());
            let tail_b = encode_utf8(b.drop_first());
            assert(bytes_a == head + tail_a);
            assert(bytes_b == head + tail_b);
            assert(tail_a =~= bytes_a.subrange(head.len() as int, bytes_a.len() as int));
            assert(tail_b =~= bytes_b.subrange(head.len() as int, bytes_b.len() as int));
            assert(tail_a =~= tail_b.subrange(0, tail_a.len() as int));
            lemma_prefix_iff_bytes_prefix(a.drop_first(), b.drop_first());
            assert(a =~= b.subrange(0, a.len() as int)) by {
                assert forall|i: int| 0 <= i < a.len() implies a[i] == b[i] by {
                    if i > 0 {
                        assert(a[i] == a.drop_first()[i - 1]);
                        assert(b[i] == b.drop_first()[i - 1]);
                        assert(a.drop_first()[i - 1] == b.drop_first().subrange(
                            0,
                            a.drop_first().len() as int,
                        )[i - 1]);
                    }
                }
            }
        }
    }
}

} // verus!
