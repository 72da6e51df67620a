use vstd::prelude::*;
use vstd::string::*;

verus! {

/// The line-terminator convention under which a line's length is measured.
#[derive(Clone, Copy, Debug, PartialEq, Eq, Structural)]
pub enum LineEnding {
    /// Lines end in `\n`.
    Unix,
    /// Lines end in `\r\n`; a bare `\n` is accepted as a terminator too.
    Windows,
}

/// The number of characters of `line` that are content: the terminator that
/// the line may end in is left out, and nothing else is.
pub open spec fn visible_length(line: Seq<char>, ending: LineEnding) -> nat {
    let n = line.len();
    if n == 0 || line[n - 1] != '\n' {
        n
    } else if ending == LineEnding::Windows && n >= 2 && line[n - 2] == '\r' {
        (n - 2) as nat
    } else {
        (n - 1) as nat
    }
}

/// Appending a terminator to a line adds nothing to its length, whether or not
/// the line already ends in one: one terminator is left out, never two.
pub proof fn lemma_one_terminator_left_out(line: Seq<char>, ending: LineEnding)
    ensures
        ending == LineEnding::Unix || line.len() == 0 || line.last() != '\r' ==> visible_length(
            line.push('\n'),
            ending,
        ) == line.len(),
        visible_length(line.push('\r').push('\n'), LineEnding::Windows) == line.len(),
{
}

/// A line that ends in `\n` and gets a second `\n` appended is one longer than
/// before under the Unix convention: the first terminator has become content.
pub proof fn lemma_second_newline_counts(line: Seq<char>)
    requires
        line.len() > 0,
        line.last() == '\n',
    ensures
        visible_length(line.push('\n'), LineEnding::Unix) == visible_length(
            line,
            LineEnding::Unix,
        ) + 1,
{
}

/// The terminator excluded, a line is never longer than its character count.
pub proof fn lemma_visible_length_bound(line: Seq<char>, ending: LineEnding)
    ensures
        visible_length(line, ending) <= line.len(),
{
}

/// Whether `c` is white space in the sense of Unicode (`White_Space`), which
/// is what `char::is_whitespace` answers.
pub uninterp spec fn white_space(c: char) -> bool;

/// `char::is_whitespace`: whether the character is white space in the sense
/// of Unicode, which depends on the character alone.
pub assume_specification[ char::is_whitespace ](c: char) -> (b: bool)
    ensures
        b == white_space(c),
;

/// Whether a word begins at position `i` of `line`: a character that is not
/// white space, at the start of the line or right after white space.
pub open spec fn starts_word(line: Seq<char>, i: int) -> bool {
    &&& 0 <= i < line.len()
    &&& !white_space(line[i])
    &&& (i == 0 || white_space(line[i - 1]))
}

/// The number of words in `line`: maximal runs of characters that are not
/// white space.
pub open spec fn word_count(line: Seq<char>) -> nat
    decreases line.len(),
{
    if line.len() == 0 {
        0
    } else {
        word_count(line.drop_last()) + if starts_word(line, line.len() - 1) {
            1nat
        } else {
            0nat
        }
    }
}

/// A line has at most as many words as characters.
pub proof fn lemma_word_count_bound(line: Seq<char>)
    ensures
        word_count(line) <= line.len(),
    decreases line.len(),
{
    if line.len() > 0 {
        lemma_word_count_bound(line.drop_last());
    }
}

/// Counts the words of `line`.
pub fn count_words(line: &str) -> (n: u64)
    ensures
        n == word_count(line@),
{
    let total = line.unicode_len();
    let mut n: u64 = 0;
    let mut in_word = false;
    for c in it: line.chars()
        invariant
            it.seq() == line@,
            total == line@.len(),
            n == word_count(line@.take(it.index())),
            n <= it.index(),
            in_word == (it.index() > 0 && !white_space(line@[it.index() - 1])),
    {
        let ghost i = it.index();
        assert(line@.take(i + 1).drop_last() =~= line@.take(i));
        if c.is_whitespace() {
            in_word = false;
        } else {
            if !in_word {
                n = n + 1;
            }
            in_word = true;
        }
    }
    assert(line@.take(line@.len() as int) =~= line@);
    n
}

/// The length of `line` in characters, its terminator left out.
pub fn line_length(line: &str, ending: LineEnding) -> (n: u64)
    ensures
        n == visible_length(line@, ending),
{
    let l = line.unicode_len();
    if l == 0 {
        return 0;
    }
    if line.get_char(l - 1) != '\n' {
        return l as u64;
    }
    if ending == LineEnding::Windows && l >= 2 && line.get_char(l - 2) == '\r' {
        return (l - 2) as u64;
    }
    (l - 1) as u64
}

} // verus!
