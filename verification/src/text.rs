//! Character and byte level helpers over UTF-8 text.

use vstd::prelude::*;
use vstd::utf8::*;

verus! {

broadcast use vstd::string::group_string_axioms;

/// Number of bytes in the UTF-8 encoding of `s`.
pub open spec fn byte_len(s: Seq<char>) -> nat {
    encode_utf8(s).len()
}

/// Number of bytes in the UTF-8 encoding of `c`.
pub open spec fn char_width(c: char) -> nat {
    encode_scalar(c as u32).len()
}

/// Byte offset of the character at position `k` of `s`.
pub open spec fn byte_offset(s: Seq<char>, k: int) -> nat {
    byte_len(s.take(k))
}

/// Encoding a concatenation concatenates the encodings.
pub proof fn lemma_encode_utf8_concat(a: Seq<char>, b: Seq<char>)
    ensures
        encode_utf8(a + b) == encode_utf8(a) + encode_utf8(b),
    decreases a.len(),
{
    if a.len() == 0 {
        assert(a + b =~= b);
        assert(encode_utf8(a) + encode_utf8(b) =~= encode_utf8(b));
    } else {
        lemma_encode_utf8_concat(a.drop_first(), b);
        assert((a + b).drop_first() =~= a.drop_first() + b);
        assert((a + b)[0] == a[0]);
        assert(encode_utf8(a + b) =~= encode_scalar(a[0] as u32) + encode_utf8(a.drop_first() + b));
    }
}

/// Every character takes one to four bytes.
pub proof fn lemma_char_width_bounds(c: char)
    ensures
        1 <= char_width(c) <= 4,
{
}

/// Appending a character adds its width to the byte length.
pub proof fn lemma_byte_len_push(s: Seq<char>, c: char)
    ensures
        byte_len(s.push(c)) == byte_len(s) + char_width(c),
{
    lemma_encode_utf8_concat(s, seq![c]);
    assert(s.push(c) =~= s + seq![c]);
    assert(seq![c].drop_first() =~= Seq::<char>::empty());
    assert(encode_utf8(Seq::<char>::empty()) =~= Seq::<u8>::empty());
    assert(encode_utf8(seq![c]) =~= encode_scalar(c as u32) + encode_utf8(Seq::<char>::empty()));
    assert(encode_utf8(seq![c]) =~= encode_scalar(c as u32));
}

/// The byte length of a concatenation is the sum of byte lengths.
pub proof fn lemma_byte_len_concat(a: Seq<char>, b: Seq<char>)
    ensures
        byte_len(a + b) == byte_len(a) + byte_len(b),
{
    lemma_encode_utf8_concat(a, b);
}

/// Byte offsets grow by at least one byte per character, and stay within the text.
pub proof fn lemma_byte_offset_mono(s: Seq<char>, j: int, k: int)
    requires
        0 <= j <= k <= s.len(),
    ensures
        byte_offset(s, j) + (k - j) <= byte_offset(s, k),
        byte_offset(s, k) <= byte_len(s),
    decreases k - j,
{
    if j < k {
        lemma_byte_offset_mono(s, j, k - 1);
        assert(s.take(k) =~= s.take(k - 1).push(s[k - 1]));
        lemma_byte_len_push(s.take(k - 1), s[k - 1]);
        lemma_char_width_bounds(s[k - 1]);
    }
    lemma_byte_len_concat(s.take(k), s.skip(k));
    assert(s =~= s.take(k) + s.skip(k));
}

/// The offset of the next character is the offset of this one plus its width.
pub proof fn lemma_byte_offset_step(s: Seq<char>, k: int)
    requires
        0 <= k < s.len(),
    ensures
        byte_offset(s, k + 1) == byte_offset(s, k) + char_width(s[k]),
{
    assert(s.take(k + 1) =~= s.take(k).push(s[k]));
    lemma_byte_len_push(s.take(k), s[k]);
}

/// Width in bytes of the UTF-8 encoding of `c`.
pub fn utf8_width(c: char) -> (n: usize)
    ensures
        n == char_width(c),
{
    proof {
        char_is_scalar(c);
    }
    let u = c as u32;
    if u < 0x80 {
        1
    } else if u < 0x800 {
        2
    } else if u < 0x10000 {
        3
    } else {
        4
    }
}

/// Appends one character to a string.
#[verifier::external_body]
pub(crate) fn push_char(s: &mut String, c: char)
    ensures
        final(s)@ == old(s)@.push(c),
{
    s.push(c);
}

/// The characters of `s`, in order.
pub fn str_chars(s: &str) -> (v: Vec<char>)
    ensures
        v@ == s@,
{
    let mut v: Vec<char> = Vec::new();
    for c in it: s.chars()
        invariant
            v@ == it.seq().take(it.index() as int),
            it.seq() == s@,
    {
        v.push(c);
        assert(it.seq().take(it.index() + 1) =~= v@);
    }
    v
}

/// The pieces of `s` between occurrences of `sep`, as `str::split` with a
/// character pattern yields them: `k` separators give `k + 1` pieces, empty
/// ones included.
pub open spec fn split_chars(s: Seq<char>, sep: char) -> Seq<Seq<char>>
    decreases s.len(),
{
    if s.len() == 0 {
        seq![Seq::<char>::empty()]
    } else {
        let init = split_chars(s.drop_last(), sep);
        if s.last() == sep {
            init.push(Seq::<char>::empty())
        } else {
            init.update(init.len() - 1, init.last().push(s.last()))
        }
    }
}

/// The views of a sequence of strings.
pub open spec fn strings_view(v: Seq<String>) -> Seq<Seq<char>> {
    v.map_values(|x: String| x@)
}

/// Splitting always yields at least one piece.
pub proof fn lemma_split_nonempty(s: Seq<char>, sep: char)
    ensures
        split_chars(s, sep).len() >= 1,
    decreases s.len(),
{
    if s.len() > 0 {
        lemma_split_nonempty(s.drop_last(), sep);
    }
}

/// Total bytes of the pieces, counting one separator after each piece.
pub open spec fn pieces_bytes(pieces: Seq<Seq<char>>, sep: char) -> nat
    decreases pieces.len(),
{
    if pieces.len() == 0 {
        0
    } else {
        pieces_bytes(pieces.drop_last(), sep) + byte_len(pieces.last()) + char_width(sep)
    }
}

/// The pieces and the separators between them make up the whole text.
pub proof fn lemma_split_bytes(s: Seq<char>, sep: char)
    ensures
        pieces_bytes(split_chars(s, sep), sep) == byte_len(s) + char_width(sep),
    decreases s.len(),
{
    if s.len() == 0 {
        let p = split_chars(s, sep);
        assert(s =~= Seq::<char>::empty());
        assert(p.drop_last() =~= Seq::<Seq<char>>::empty());
        assert(encode_utf8(Seq::<char>::empty()) =~= Seq::<u8>::empty());
        assert(p.last() =~= Seq::<char>::empty());
        assert(pieces_bytes(p, sep) == pieces_bytes(p.drop_last(), sep) + byte_len(p.last()) + char_width(sep));
    } else {
        let init = split_chars(s.drop_last(), sep);
        lemma_split_bytes(s.drop_last(), sep);
        lemma_split_nonempty(s.drop_last(), sep);
        assert(s =~= s.drop_last().push(s.last()));
        lemma_byte_len_push(s.drop_last(), s.last());
        let p = split_chars(s, sep);
        if s.last() == sep {
            assert(p.drop_last() =~= init);
            assert(encode_utf8(Seq::<char>::empty()) =~= Seq::<u8>::empty());
            assert(p.last() =~= Seq::<char>::empty());
            assert(pieces_bytes(p, sep) == pieces_bytes(init, sep) + byte_len(p.last()) + char_width(sep));
        } else {
            assert(p.drop_last() =~= init.drop_last());
            lemma_byte_len_push(init.last(), s.last());
            assert(init.drop_last().len() + 1 == init.len());
            assert(pieces_bytes(init, sep) == pieces_bytes(init.drop_last(), sep) + byte_len(
                init.last(),
            ) + char_width(sep));
            assert(pieces_bytes(p, sep) == pieces_bytes(init.drop_last(), sep) + byte_len(p.last()) + char_width(sep));
        }
    }
}

/// Splits `s` at every occurrence of `sep`.
pub fn split_by_char(s: &str, sep: char) -> (pieces: Vec<String>)
    ensures
        strings_view(pieces@) == split_chars(s@, sep),
{
    let chars = str_chars(s);
    let mut pieces: Vec<String> = Vec::new();
    let mut cur = String::new();
    assert(chars@.take(0) =~= Seq::<char>::empty());
    for i in 0..chars.len()
        invariant
            chars@ == s@,
            strings_view(pieces@).push(cur@) == split_chars(chars@.take(i as int), sep),
    {
        let c = chars[i];
        let ghost prev = chars@.take(i as int);
        assert(chars@.take(i + 1).drop_last() =~= prev);
        assert(chars@.take(i + 1).last() == c);
        if c == sep {
            pieces.push(cur);
            cur = String::new();
            assert(strings_view(pieces@).push(cur@) =~= split_chars(chars@.take(i + 1), sep));
        } else {
            push_char(&mut cur, c);
            assert(strings_view(pieces@).push(cur@) =~= split_chars(chars@.take(i + 1), sep));
        }
    }
    pieces.push(cur);
    assert(chars@.take(chars@.len() as int) =~= s@);
    assert(strings_view(pieces@) =~= split_chars(s@, sep));
    pieces
}

/// The string `c` repeated `n` times.
pub open spec fn repeat_char(c: char, n: nat) -> Seq<char> {
    Seq::new(n, |i: int| c)
}

/// A string of `n` copies of `c`.
pub fn repeat_string(c: char, n: usize) -> (s: String)
    ensures
        s@ == repeat_char(c, n as nat),
{
    let mut s = String::new();
    for i in 0..n
        invariant
            s@ == repeat_char(c, i as nat),
    {
        push_char(&mut s, c);
        assert(s@ =~= repeat_char(c, (i + 1) as nat));
    }
    s
}

} // verus!
