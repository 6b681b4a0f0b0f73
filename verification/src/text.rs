//! The characters of the grammar, and positions in UTF-8 text.

use vstd::prelude::*;
use vstd::std_specs::iter::IteratorSpec;
use vstd::string::*;
use vstd::utf8::*;

verus! {

/// Begins a call, where an opening bracket follows, and else stands before
/// a special character.
pub const COMMENCEMENT_CHARACTER: char = '@';

/// Parts the lines of a text.
pub const NEWLINE_CHARACTER: char = '\n';

/// Opens a call.
pub const OPEN_BRACKET_CHARACTER: char = '(';

/// Closes the innermost open call.
pub const CLOSE_BRACKET_CHARACTER: char = ')';

/// Opens and closes a quoted stretch inside a call.
pub const QUOTE_CHARACTER: char = '"';

/// What the underscore stands for behind a commencement character.
pub const SPACE_CHARACTER: char = ' ';

/// Stands for a space behind a commencement character.
pub const UNDERSCORE_CHARACTER: char = '_';

/// Whether a character beyond ASCII has the Unicode `White_Space`
/// property.
///
/// Beyond ASCII the property is a table of the Unicode Character Database;
/// it is named here, not written out.
pub uninterp spec fn wide_white_space(c: char) -> bool;

/// White space within ASCII: the space, and the control characters from
/// the tabulator to the carriage return.
pub open spec fn ascii_white_space(c: char) -> bool {
    c == SPACE_CHARACTER || 0x09 <= c as u32 <= 0x0d
}

/// Whether a character has the Unicode `White_Space` property.
pub open spec fn white_space(c: char) -> bool {
    if (c as u32) < 0x80 {
        ascii_white_space(c)
    } else {
        wide_white_space(c)
    }
}

/// `char::is_whitespace` of the standard library: reports the `White_Space`
/// property of its argument. Within ASCII these are the space and the
/// characters from the tabulator to the carriage return; beyond ASCII the
/// answer is the named table. Believed, not proved.
pub assume_specification[ char::is_whitespace ](c: char) -> (r: bool)
    ensures
        (c as u32) < 0x80 ==> r == ascii_white_space(c),
        (c as u32) >= 0x80 ==> r == wide_white_space(c),
;

/// `String::push` of the standard library: appends one character to the end
/// of the string. Believed, not proved.
pub assume_specification[ String::push ](s: &mut String, c: char)
    ensures
        final(s)@ == old(s)@.push(c),
;

/// The number of bytes that the UTF-8 encoding of `c` takes.
pub open spec fn char_width(c: char) -> nat {
    encode_scalar(c as u32).len()
}

/// The number of bytes that the UTF-8 encoding of `s` takes.
pub open spec fn utf8_len(s: Seq<char>) -> nat {
    encode_utf8(s).len()
}

/// The number of characters before the first newline of `s`, or the length
/// of `s` where it holds no newline.
pub open spec fn line_length(s: Seq<char>) -> nat
    decreases s.len(),
{
    if s.len() == 0 || s[0] == NEWLINE_CHARACTER {
        0
    } else {
        1 + line_length(s.drop_first())
    }
}

/// The first line of `s` holds no newline and ends at a newline or at the
/// end of `s`.
pub proof fn lemma_line_length(s: Seq<char>)
    ensures
        line_length(s) <= s.len(),
        forall|i: int| 0 <= i < line_length(s) ==> s[i] != NEWLINE_CHARACTER,
        line_length(s) < s.len() ==> s[line_length(s) as int] == NEWLINE_CHARACTER,
    decreases s.len(),
{
    if s.len() == 0 || s[0] == NEWLINE_CHARACTER {
    } else {
        lemma_line_length(s.drop_first());
        assert forall|i: int| 0 <= i < line_length(s) implies s[i] != NEWLINE_CHARACTER by {
            if i > 0 {
                assert(s[i] == s.drop_first()[i - 1]);
            }
        }
    }
}

/// A stretch without a newline that ends at a newline or at the end of `s`
/// is the first line of `s`.
pub proof fn lemma_line_length_unique(s: Seq<char>, n: int)
    requires
        0 <= n <= s.len(),
        forall|i: int| 0 <= i < n ==> s[i] != NEWLINE_CHARACTER,
        n < s.len() ==> s[n] == NEWLINE_CHARACTER,
    ensures
        line_length(s) == n,
{
    lemma_line_length(s);
}

/// The encoding of two texts in a row is the two encodings in a row.
pub proof fn lemma_encode_concat(a: Seq<char>, b: Seq<char>)
    ensures
        encode_utf8(a + b) == encode_utf8(a) + encode_utf8(b),
    decreases a.len(),
{
    if a.len() == 0 {
        assert(a + b =~= b);
        assert(encode_utf8(a) + encode_utf8(b) =~= encode_utf8(b));
    } else {
        lemma_encode_concat(a.drop_first(), b);
        assert((a + b).drop_first() =~= a.drop_first() + b);
        assert(encode_utf8(a + b) =~= encode_utf8(a) + encode_utf8(b));
    }
}

/// The bytes of two texts in a row are those of both.
pub proof fn lemma_utf8_len_concat(a: Seq<char>, b: Seq<char>)
    ensures
        utf8_len(a + b) == utf8_len(a) + utf8_len(b),
{
    lemma_encode_concat(a, b);
}

/// One more character adds its width, which is one to four bytes.
pub proof fn lemma_utf8_len_push(s: Seq<char>, c: char)
    ensures
        utf8_len(s.push(c)) == utf8_len(s) + char_width(c),
        1 <= char_width(c) <= 4,
{
    lemma_encode_concat(s, seq![c]);
    assert(s.push(c) =~= s + seq![c]);
    assert(seq![c].drop_first() =~= Seq::<char>::empty());
    assert(encode_utf8(seq![c]) =~= encode_scalar(c as u32)) by {
        reveal_with_fuel(encode_utf8, 2);
    }
}

/// The prefix that is one character longer has that character's width
/// more bytes, and no more than the whole.
pub proof fn lemma_utf8_len_next(s: Seq<char>, at: int)
    requires
        0 <= at < s.len(),
    ensures
        utf8_len(s.take(at + 1)) == utf8_len(s.take(at)) + char_width(s[at]),
        1 <= char_width(s[at]) <= 4,
        utf8_len(s.take(at + 1)) <= utf8_len(s),
{
    lemma_utf8_len_push(s.take(at), s[at]);
    assert(s.take(at + 1) =~= s.take(at).push(s[at]));
    lemma_utf8_len_concat(s.take(at + 1), s.skip(at + 1));
    assert(s =~= s.take(at + 1) + s.skip(at + 1));
}

/// The end of an encoded prefix is a character boundary of the whole
/// encoding.
pub proof fn lemma_prefix_boundary(a: Seq<char>, b: Seq<char>)
    ensures
        is_char_boundary(encode_utf8(a + b), encode_utf8(a).len() as int),
    decreases a.len(),
{
    let bytes = encode_utf8(a + b);
    encode_utf8_valid_utf8(a + b);
    lemma_encode_concat(a, b);
    if a.len() == 0 {
    } else {
        let rest = a.drop_first();
        assert((a + b).drop_first() =~= rest + b);
        encode_utf8_first_scalar(a + b);
        assert(pop_first_scalar(bytes) =~= encode_utf8(rest + b));
        lemma_prefix_boundary(rest, b);
        lemma_encode_concat(rest, b);
        assert(encode_utf8(a).len() == encode_scalar(a[0] as u32).len() + encode_utf8(rest).len());
    }
}

/// The number of bytes of the UTF-8 encoding of one character.
pub fn width_of(c: char) -> (w: usize)
    ensures
        w == char_width(c),
        1 <= w <= 4,
{
    let u = c as u32;
    if u < 0x80 {
        1
    } else if u < 0x800 {
        2
    } else if u < 0x10000 {
        3
    } else {
        4
    }
}

/// The characters of `text`, in order.
pub fn chars_of(text: &str) -> (r: Vec<char>)
    ensures
        r@ == text@,
{
    let mut out: Vec<char> = Vec::new();
    let mut it = text.chars();
    loop
        invariant
            it.obeys_prophetic_iter_laws(),
            it.decrease() is Some,
            out@ + it.remaining() == text@,
        decreases it.decrease()->0,
    {
        match it.next() {
            Some(c) => {
                out.push(c);
            },
            None => {
                return out;
            },
        }
    }
}

/// Whether two texts hold the same characters.
pub fn same_text(a: &str, b: &str) -> (r: bool)
    ensures
        r == (a@ == b@),
{
    let mut left = a.chars();
    let mut right = b.chars();
    let ghost mut done: Seq<char> = Seq::empty();
    loop
        invariant
            left.obeys_prophetic_iter_laws(),
            right.obeys_prophetic_iter_laws(),
            left.decrease() is Some,
            done + left.remaining() == a@,
            done + right.remaining() == b@,
        decreases left.decrease()->0,
    {
        match left.next() {
            Some(x) => match right.next() {
                Some(y) => {
                    if x != y {
                        assert(a@[done.len() as int] == x);
                        assert(b@[done.len() as int] == y);
                        return false;
                    }
                    proof {
                        done = done.push(x);
                        assert(done + left.remaining() =~= a@);
                        assert(done + right.remaining() =~= b@);
                    }
                },
                None => {
                    assert(a@.len() != b@.len());
                    return false;
                },
            },
            None => match right.next() {
                Some(_) => {
                    assert(a@.len() != b@.len());
                    return false;
                },
                None => {
                    return true;
                },
            },
        }
    }
}

/// The part of `text` from character `from` up to character `to`, found
/// by the byte offsets of both.
pub(crate) fn slice<'a>(
    text: &'a str,
    from_byte: usize,
    to_byte: usize,
    Ghost(from): Ghost<int>,
    Ghost(to): Ghost<int>,
) -> (r: &'a str)
    requires
        0 <= from <= to <= text@.len(),
        from_byte == utf8_len(text@.take(from)),
        to_byte == utf8_len(text@.take(to)),
    ensures
        r@ == text@.subrange(from, to),
{
    let ghost whole = text@;
    let ghost head_chars = whole.take(to);
    let ghost line_chars = whole.subrange(from, to);
    proof {
        assert(whole =~= head_chars + whole.skip(to));
        lemma_prefix_boundary(head_chars, whole.skip(to));
        lemma_encode_concat(head_chars, whole.skip(to));
    }
    let (head, _) = text.split_at(to_byte);
    proof {
        assert(encode_utf8(head@) =~= encode_utf8(head_chars));
        encode_utf8_decode_utf8(head@);
        encode_utf8_decode_utf8(head_chars);
        assert(head@ == head_chars);
        assert(head_chars =~= whole.take(from) + line_chars);
        lemma_prefix_boundary(whole.take(from), line_chars);
        lemma_encode_concat(whole.take(from), line_chars);
    }
    let (_, r) = head.split_at(from_byte);
    proof {
        assert(encode_utf8(r@) =~= encode_utf8(line_chars));
        encode_utf8_decode_utf8(r@);
        encode_utf8_decode_utf8(line_chars);
    }
    r
}

/// The number of bytes of `text`.
pub fn byte_length(text: &str) -> (n: usize)
    ensures
        n == utf8_len(text@),
{
    text.as_bytes().len()
}

} // verus!
