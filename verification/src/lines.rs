use vstd::prelude::*;
use vstd::utf8::*;

verus! {

/// The byte that ends a line.
pub const NEWLINE: u8 = 0x0a;

/// Where the line that starts at `pos` ends: right after the first newline
/// at or after `pos`, or at the end of `data` where no newline follows.
pub open spec fn line_end(data: Seq<u8>, pos: int) -> int
    decreases data.len() - pos,
{
    if pos < 0 || pos >= data.len() {
        data.len() as int
    } else if data[pos] == NEWLINE {
        pos + 1
    } else {
        line_end(data, pos + 1)
    }
}

/// A line that starts inside `data` is not empty, ends inside `data`, holds no
/// newline but as its last byte, and stops short of the end of `data` only
/// after a newline.
pub proof fn lemma_line_end(data: Seq<u8>, pos: int)
    requires
        0 <= pos < data.len(),
    ensures
        pos < line_end(data, pos) <= data.len(),
        forall|i: int| pos <= i < line_end(data, pos) - 1 ==> data[i] != NEWLINE,
        line_end(data, pos) < data.len() ==> data[line_end(data, pos) - 1] == NEWLINE,
    decreases data.len() - pos,
{
    if data[pos] != NEWLINE {
        if pos + 1 < data.len() {
            lemma_line_end(data, pos + 1);
        } else {
            assert(line_end(data, pos + 1) == data.len());
        }
    }
}

/// The lines of `data` from `pos` on, each with its terminator.
pub open spec fn lines_from(data: Seq<u8>, pos: int) -> Seq<Seq<u8>>
    decreases data.len() - pos,
    via lines_from_decreases
{
    if pos < 0 || pos >= data.len() {
        Seq::empty()
    } else {
        seq![data.subrange(pos, line_end(data, pos))] + lines_from(data, line_end(data, pos))
    }
}

#[via_fn]
proof fn lines_from_decreases(data: Seq<u8>, pos: int) {
    if 0 <= pos < data.len() {
        lemma_line_end(data, pos);
    }
}

/// The lines of `data`, each with its terminator: `data` cut after every
/// newline.
pub open spec fn split_lines(data: Seq<u8>) -> Seq<Seq<u8>> {
    lines_from(data, 0)
}

/// Whether every line is valid UTF-8.
pub open spec fn all_valid(lines: Seq<Seq<u8>>) -> bool {
    forall|i: int| 0 <= i < lines.len() ==> valid_utf8(#[trigger] lines[i])
}

/// The sum of the lengths of `lines` in bytes.
pub open spec fn byte_total(lines: Seq<Seq<u8>>) -> nat
    decreases lines.len(),
{
    if lines.len() == 0 {
        0
    } else {
        byte_total(lines.drop_last()) + lines.last().len()
    }
}

/// The lines from `pos` on hold every byte from `pos` on, once.
pub proof fn lemma_lines_cover(data: Seq<u8>, pos: int)
    requires
        0 <= pos <= data.len(),
    ensures
        byte_total(lines_from(data, pos)) == data.len() - pos,
        pos < data.len() ==> lines_from(data, pos).len() > 0,
        pos == data.len() ==> lines_from(data, pos).len() == 0,
    decreases data.len() - pos,
{
    if pos < data.len() {
        lemma_line_end(data, pos);
        let k = line_end(data, pos);
        lemma_lines_cover(data, k);
        lemma_byte_total_concat(seq![data.subrange(pos, k)], lines_from(data, k));
        reveal_with_fuel(byte_total, 2);
        assert(seq![data.subrange(pos, k)].drop_last() =~= Seq::<Seq<u8>>::empty());
    }
}

/// The byte total of two runs of lines is the sum of their byte totals.
pub proof fn lemma_byte_total_concat(a: Seq<Seq<u8>>, b: Seq<Seq<u8>>)
    ensures
        byte_total(a + b) == byte_total(a) + byte_total(b),
    decreases b.len(),
{
    if b.len() == 0 {
        assert(a + b =~= a);
    } else {
        lemma_byte_total_concat(a, b.drop_last());
        assert((a + b).drop_last() =~= a + b.drop_last());
    }
}

/// Valid UTF-8 decodes to at most as many characters as it has bytes; to
/// exactly as many where every byte is ASCII, and to fewer where one is not.
pub proof fn lemma_decoded_length(bytes: Seq<u8>)
    requires
        valid_utf8(bytes),
    ensures
        decode_utf8(bytes).len() <= bytes.len(),
        (forall|i: int| 0 <= i < bytes.len() ==> bytes[i] < 0x80) <==> decode_utf8(bytes).len()
            == bytes.len(),
    decreases bytes.len(),
{
    if bytes.len() > 0 {
        let rest = pop_first_scalar(bytes);
        let k = length_of_first_scalar(bytes);
        lemma_decoded_length(rest);
        assert(decode_utf8(bytes).len() == 1 + decode_utf8(rest).len());
        assert(rest.len() == bytes.len() - k);
        if forall|i: int| 0 <= i < bytes.len() ==> bytes[i] < 0x80 {
            assert(bytes[0] < 0x80);
            assert forall|i: int| 0 <= i < rest.len() implies rest[i] < 0x80 by {
                assert(rest[i] == bytes[i + k]);
            }
        }
        if decode_utf8(bytes).len() == bytes.len() {
            assert(k == 1);
            assert forall|i: int| 0 <= i < bytes.len() implies bytes[i] < 0x80 by {
                if i > 0 {
                    assert(rest[i - 1] == bytes[i]);
                }
            }
        }
    }
}

/// In valid UTF-8 a character ends with each ASCII byte: the position after
/// such a byte is a character boundary.
pub proof fn lemma_boundary_after_ascii(bytes: Seq<u8>, i: int)
    requires
        valid_utf8(bytes),
        0 <= i < bytes.len(),
        bytes[i] < 0x80,
    ensures
        is_char_boundary(bytes, i + 1),
    decreases bytes.len(),
{
    let k = length_of_first_scalar(bytes);
    let rest = pop_first_scalar(bytes);
    if i < k {
        assert(i == 0);
        assert(k == 1);
        assert(is_char_boundary(rest, 0));
    } else {
        assert(rest[i - k] == bytes[i]);
        lemma_boundary_after_ascii(rest, i - k);
    }
}

/// The sum of the lengths of `lines` in characters, terminators included.
pub open spec fn char_total(lines: Seq<Seq<u8>>) -> nat
    decreases lines.len(),
{
    if lines.len() == 0 {
        0
    } else {
        char_total(lines.drop_last()) + decode_utf8(lines.last()).len()
    }
}

/// The character total of two runs of lines is the sum of their character
/// totals.
pub proof fn lemma_char_total_concat(a: Seq<Seq<u8>>, b: Seq<Seq<u8>>)
    ensures
        char_total(a + b) == char_total(a) + char_total(b),
    decreases b.len(),
{
    if b.len() == 0 {
        assert(a + b =~= a);
    } else {
        lemma_char_total_concat(a, b.drop_last());
        assert((a + b).drop_last() =~= a + b.drop_last());
    }
}

/// Cutting text into lines neither makes nor mends an encoding error, and
/// loses no character: the bytes from `pos` on are valid UTF-8 exactly where
/// each of their lines is, and then decode to as many characters as the lines
/// hold together.
pub proof fn lemma_lines_keep_text(data: Seq<u8>, pos: int)
    requires
        0 <= pos <= data.len(),
    ensures
        all_valid(lines_from(data, pos)) <==> valid_utf8(data.subrange(pos, data.len() as int)),
        valid_utf8(data.subrange(pos, data.len() as int)) ==> char_total(lines_from(data, pos))
            == decode_utf8(data.subrange(pos, data.len() as int)).len(),
    decreases data.len() - pos,
{
    let len = data.len() as int;
    let suffix = data.subrange(pos, len);
    if pos < len {
        lemma_line_end(data, pos);
        let k = line_end(data, pos);
        let first = data.subrange(pos, k);
        let rest = data.subrange(k, len);
        let tail = lines_from(data, k);
        lemma_lines_keep_text(data, k);
        assert(lines_from(data, pos) == seq![first] + tail);
        assert(suffix =~= first + rest);
        assert(suffix.subrange(0, k - pos) =~= first);
        assert(suffix.subrange(k - pos, suffix.len() as int) =~= rest);
        if all_valid(lines_from(data, pos)) {
            assert(lines_from(data, pos)[0] == first);
            assert forall|i: int| 0 <= i < tail.len() implies valid_utf8(#[trigger] tail[i]) by {
                assert(lines_from(data, pos)[i + 1] == tail[i]);
            }
            valid_utf8_concat(first, rest);
        }
        if valid_utf8(suffix) {
            if k < len {
                assert(suffix[k - pos - 1] == NEWLINE);
                lemma_boundary_after_ascii(suffix, k - pos - 1);
            } else {
                is_char_boundary_start_end_of_seq(suffix);
            }
            valid_utf8_split(suffix, k - pos);
            decode_utf8_split(suffix, k - pos);
            lemma_char_total_concat(seq![first], tail);
            reveal_with_fuel(char_total, 2);
            assert(seq![first].drop_last() =~= Seq::<Seq<u8>>::empty());
        }
    } else {
        assert(suffix =~= Seq::<u8>::empty());
    }
}

} // verus!
