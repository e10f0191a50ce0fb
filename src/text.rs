//! Line counting and byte-wise ordering of text.
use vstd::prelude::*;
use vstd::utf8::encode_utf8;

verus! {

/// Number of `'\n'` bytes in `b`.
pub open spec fn newline_count(b: Seq<u8>) -> nat
    decreases b.len(),
{
    if b.len() == 0 {
        0
    } else {
        newline_count(b.drop_last()) + if b.last() == 10u8 { 1nat } else { 0nat }
    }
}

/// Number of lines of `b`: every `'\n'` ends a line, and a last line without
/// a terminator counts as well.
pub open spec fn byte_lines(b: Seq<u8>) -> nat {
    newline_count(b) + if b.len() > 0 && b.last() != 10u8 { 1nat } else { 0nat }
}

/// Number of lines of a text, counted on its UTF-8 encoding.
pub open spec fn line_count(s: Seq<char>) -> nat {
    byte_lines(encode_utf8(s))
}

/// Byte-wise lexicographic `a <= b`, comparing from position `i` on.
pub open spec fn lex_le_from(a: Seq<u8>, b: Seq<u8>, i: int) -> bool
    decreases a.len() - i,
{
    if i < 0 || i >= a.len() {
        true
    } else if i >= b.len() {
        false
    } else if a[i] < b[i] {
        true
    } else if a[i] > b[i] {
        false
    } else {
        lex_le_from(a, b, i + 1)
    }
}

/// Lexical order on strings, as `str`'s `Ord` orders them: byte-wise on UTF-8.
pub open spec fn text_le(a: Seq<char>, b: Seq<char>) -> bool {
    lex_le_from(encode_utf8(a), encode_utf8(b), 0)
}

/// A text has no more lines than bytes.
pub proof fn lemma_line_count_le(s: Seq<char>)
    ensures
        line_count(s) <= encode_utf8(s).len(),
{
    let b = encode_utf8(s);
    if b.len() > 0 {
        lemma_newline_count_le(b.drop_last());
    }
}

proof fn lemma_newline_count_le(b: Seq<u8>)
    ensures
        newline_count(b) <= b.len(),
    decreases b.len(),
{
    if b.len() > 0 {
        lemma_newline_count_le(b.drop_last());
    }
}

/// Counts the lines of `s` as `str::lines` would.
pub fn count_lines(s: &str) -> (r: usize)
    ensures
        r == line_count(s@),
        r <= encode_utf8(s@).len(),
{
    let b = s.as_bytes();
    let ghost bs = b@;
    let mut n: usize = 0;
    let mut i: usize = 0;
    while i < b.len()
        invariant
            bs == b@,
            bs == encode_utf8(s@),
            i <= b.len(),
            n == newline_count(bs.take(i as int)),
            n <= i,
        decreases b.len() - i,
    {
        assert(bs.take(i as int + 1).drop_last() =~= bs.take(i as int));
        if b[i] == 10u8 {
            n = n + 1;
        }
        i = i + 1;
    }
    assert(bs.take(i as int) =~= bs);
    if b.len() > 0 && b[b.len() - 1] != 10u8 {
        proof {
            lemma_newline_count_le(bs.drop_last());
        }
        n = n + 1;
    }
    n
}

/// Whether `a <= b` in lexical (byte-wise) order.
pub fn text_le_exec(a: &str, b: &str) -> (r: bool)
    ensures
        r == text_le(a@, b@),
{
    let x = a.as_bytes();
    let y = b.as_bytes();
    let mut i: usize = 0;
    while i < x.len()
        invariant
            x@ == encode_utf8(a@),
            y@ == encode_utf8(b@),
            i <= x.len(),
            lex_le_from(x@, y@, 0) == lex_le_from(x@, y@, i as int),
        decreases x.len() - i,
    {
        if i >= y.len() {
            return false;
        }
        if x[i] < y[i] {
            return true;
        }
        if x[i] > y[i] {
            return false;
        }
        i = i + 1;
    }
    true
}

/// Lexical order is total.
pub proof fn lemma_text_le_total(a: Seq<char>, b: Seq<char>)
    ensures
        text_le(a, b) || text_le(b, a),
{
    lemma_lex_total(encode_utf8(a), encode_utf8(b), 0);
}

proof fn lemma_lex_total(a: Seq<u8>, b: Seq<u8>, i: int)
    requires
        i >= 0,
    ensures
        lex_le_from(a, b, i) || lex_le_from(b, a, i),
    decreases a.len() - i,
{
    if i < a.len() && i < b.len() && a[i] == b[i] {
        lemma_lex_total(a, b, i + 1);
    }
}

/// Lexical order is transitive.
pub proof fn lemma_text_le_trans(a: Seq<char>, b: Seq<char>, c: Seq<char>)
    requires
        text_le(a, b),
        text_le(b, c),
    ensures
        text_le(a, c),
{
    lemma_lex_trans(encode_utf8(a), encode_utf8(b), encode_utf8(c), 0);
}

proof fn lemma_lex_trans(a: Seq<u8>, b: Seq<u8>, c: Seq<u8>, i: int)
    requires
        i >= 0,
        lex_le_from(a, b, i),
        lex_le_from(b, c, i),
    ensures
        lex_le_from(a, c, i),
    decreases a.len() - i,
{
    if i < a.len() && i < b.len() && i < c.len() && a[i] == b[i] && b[i] == c[i] {
        lemma_lex_trans(a, b, c, i + 1);
    }
}

} // verus!
