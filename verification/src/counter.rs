use crate::lines::{
    all_valid, byte_total, char_total, lemma_decoded_length, lemma_line_end, lemma_lines_cover,
    lemma_lines_keep_text, line_end, lines_from, split_lines, NEWLINE,
};
use crate::options::CliOptions;
use crate::stats::{Stats, Totals};
use crate::text::{
    count_words, lemma_visible_length_bound, lemma_word_count_bound, line_length, visible_length,
    word_count, LineEnding,
};
use std::io::Read;
use vstd::prelude::*;
use vstd::slice::*;
use vstd::string::*;
use vstd::utf8::*;

verus! {

/// Why a counting pass gave no statistics.
#[derive(Debug, Clone, Copy, PartialEq, Eq, Structural)]
pub enum CountError {
    /// A line of the input is not valid UTF-8.
    InvalidUtf8,
    /// The input was to be decompressed and is not a well-formed gzip stream.
    BadGzip,
}

impl CountError {
    /// What went wrong, in words.
    pub fn message(&self) -> (text: &'static str)
        ensures
            text@ == match *self {
                CountError::InvalidUtf8 => "stream did not contain valid UTF-8"@,
                CountError::BadGzip => "invalid gzip stream"@,
            },
    {
        match self {
            CountError::InvalidUtf8 => "stream did not contain valid UTF-8",
            CountError::BadGzip => "invalid gzip stream",
        }
    }
}

/// The number of words in `lines`, counted line by line.
pub open spec fn word_total(lines: Seq<Seq<u8>>) -> nat
    decreases lines.len(),
{
    if lines.len() == 0 {
        0
    } else {
        word_total(lines.drop_last()) + word_count(decode_utf8(lines.last()))
    }
}

/// The length of line `i` of `lines` in characters, its terminator left out.
pub open spec fn length_at(lines: Seq<Seq<u8>>, i: int, ending: LineEnding) -> nat {
    visible_length(decode_utf8(lines[i]), ending)
}

/// The length of the longest of `lines`, and 0 where there is no line.
pub open spec fn longest(lines: Seq<Seq<u8>>, ending: LineEnding) -> nat
    decreases lines.len(),
{
    if lines.len() == 0 {
        0
    } else {
        let before = longest(lines.drop_last(), ending);
        let here = length_at(lines, lines.len() - 1, ending);
        if here > before {
            here
        } else {
            before
        }
    }
}

/// The length of the shortest of `lines`, and 0 where there is no line.
pub open spec fn shortest(lines: Seq<Seq<u8>>, ending: LineEnding) -> nat
    decreases lines.len(),
{
    if lines.len() == 0 {
        0
    } else if lines.len() == 1 {
        length_at(lines, 0, ending)
    } else {
        let before = shortest(lines.drop_last(), ending);
        let here = length_at(lines, lines.len() - 1, ending);
        if here < before {
            here
        } else {
            before
        }
    }
}

/// The statistics of `lines`: each requested counter holds its total, and
/// each counter that was not requested holds 0.
pub open spec fn summary(lines: Seq<Seq<u8>>, opt: CliOptions, ending: LineEnding) -> Totals {
    Totals {
        bytes: if opt.bytes { byte_total(lines) } else { 0 },
        chars: if opt.chars { char_total(lines) } else { 0 },
        words: if opt.words { word_total(lines) } else { 0 },
        lines: if opt.lines { lines.len() } else { 0 },
        max_line: if opt.max_line { longest(lines, ending) } else { 0 },
        min_line: if opt.min_line { shortest(lines, ending) } else { 0 },
    }
}

/// The statistics while a pass is under way: those of the lines read so far,
/// but that the minimum, where it was requested, stands at its seed until the
/// first line has been read.
pub open spec fn running(lines: Seq<Seq<u8>>, opt: CliOptions, ending: LineEnding) -> Totals {
    Totals {
        min_line: if opt.min_line && lines.len() == 0 {
            u64::MAX as nat
        } else {
            summary(lines, opt, ending).min_line
        },
        ..summary(lines, opt, ending)
    }
}

/// The statistics after one more line.
pub open spec fn after_line(
    t: Totals,
    line: Seq<char>,
    opt: CliOptions,
    ending: LineEnding,
) -> Totals {
    let length = visible_length(line, ending);
    Totals {
        bytes: if opt.bytes { t.bytes + encode_utf8(line).len() } else { t.bytes },
        chars: if opt.chars { t.chars + line.len() } else { t.chars },
        words: if opt.words { t.words + word_count(line) } else { t.words },
        lines: if opt.lines { t.lines + 1 } else { t.lines },
        max_line: if opt.max_line && length > t.max_line { length } else { t.max_line },
        min_line: if opt.min_line && length < t.min_line { length } else { t.min_line },
    }
}

/// Reading one more valid line `raw` after `lines` takes the running
/// statistics of `lines` to those of `lines` with `raw` appended, and no
/// counter grows by more than the line has bytes.
pub proof fn lemma_one_more_line(
    lines: Seq<Seq<u8>>,
    raw: Seq<u8>,
    opt: CliOptions,
    ending: LineEnding,
)
    requires
        valid_utf8(raw),
        raw.len() <= u64::MAX,
        lines.len() > 0 ==> shortest(lines, ending) <= longest(lines, ending),
    ensures
        after_line(running(lines, opt, ending), decode_utf8(raw), opt, ending) == running(
            lines.push(raw),
            opt,
            ending,
        ),
        byte_total(lines.push(raw)) == byte_total(lines) + raw.len(),
        char_total(lines.push(raw)) <= char_total(lines) + raw.len(),
        word_total(lines.push(raw)) <= word_total(lines) + raw.len(),
        longest(lines.push(raw), ending) <= longest(lines, ending) + raw.len(),
        shortest(lines.push(raw), ending) <= longest(lines.push(raw), ending),
{
    let next = lines.push(raw);
    let line = decode_utf8(raw);
    assert(next.drop_last() =~= lines);
    assert(next.last() == raw);
    decode_utf8_encode_utf8(raw);
    lemma_decoded_length(raw);
    lemma_word_count_bound(line);
    lemma_visible_length_bound(line, ending);
    if lines.len() == 0 {
        assert(longest(lines, ending) == 0);
    }
}

/// What a counting pass over `data` gives: the statistics of its lines, or an
/// error where one of the lines is not valid UTF-8.
pub open spec fn pass_result(data: Seq<u8>, opt: CliOptions, ending: LineEnding) -> Result<
    Totals,
    CountError,
> {
    if all_valid(split_lines(data)) {
        Ok(summary(split_lines(data), opt, ending))
    } else {
        Err(CountError::InvalidUtf8)
    }
}

/// What counting `data` gives, where `unzipped` is what decompressing `data`
/// gives: the pass runs over the decompressed bytes where the options say that
/// the input is compressed, and over `data` itself where they do not.
pub open spec fn count_result(
    data: Seq<u8>,
    unzipped: Option<Seq<u8>>,
    opt: CliOptions,
    ending: LineEnding,
) -> Result<Totals, CountError> {
    if !opt.zipped {
        pass_result(data, opt, ending)
    } else {
        match unzipped {
            Some(bytes) => pass_result(bytes, opt, ending),
            None => Err(CountError::BadGzip),
        }
    }
}

/// The result of a pass with its statistics as unbounded numbers.
pub open spec fn outcome(r: Result<Stats, CountError>) -> Result<Totals, CountError> {
    match r {
        Ok(stats) => Ok(stats@),
        Err(e) => Err(e),
    }
}

/// A pass succeeds exactly on valid UTF-8, and then its byte counter is the
/// length of the input and its character counter the number of characters
/// that the input decodes to.
pub proof fn lemma_pass_reads_text(data: Seq<u8>, opt: CliOptions, ending: LineEnding)
    ensures
        pass_result(data, opt, ending) is Ok <==> valid_utf8(data),
        pass_result(data, opt, ending) matches Ok(t) ==> {
            &&& opt.bytes ==> t.bytes == data.len()
            &&& opt.chars ==> t.chars == decode_utf8(data).len()
        },
{
    lemma_lines_keep_text(data, 0);
    lemma_lines_cover(data, 0);
    assert(data.subrange(0, data.len() as int) =~= data);
}

/// Where bytes and characters are both counted, there are never more
/// characters than bytes, and as many of the one as of the other exactly
/// where the input is ASCII only.
pub proof fn lemma_chars_against_bytes(data: Seq<u8>, opt: CliOptions, ending: LineEnding)
    requires
        opt.bytes,
        opt.chars,
    ensures
        pass_result(data, opt, ending) matches Ok(t) ==> {
            &&& t.chars <= t.bytes
            &&& t.chars == t.bytes <==> forall|i: int| 0 <= i < data.len() ==> data[i] < 0x80
        },
{
    lemma_pass_reads_text(data, opt, ending);
    if valid_utf8(data) {
        lemma_decoded_length(data);
    }
}

/// Input without a line gives a record of zeros, whatever is requested: the
/// seed of the minimum does not show.
pub proof fn lemma_no_line_no_minimum(data: Seq<u8>, opt: CliOptions, ending: LineEnding)
    requires
        split_lines(data).len() == 0,
    ensures
        data.len() == 0,
        pass_result(data, opt, ending) == Ok::<Totals, CountError>(Totals::zero()),
{
    lemma_lines_cover(data, 0);
}

/// The longest line is as long as one of the lines and no shorter than any;
/// the shortest is as long as one of the lines and no longer than any.
pub proof fn lemma_longest_and_shortest(lines: Seq<Seq<u8>>, ending: LineEnding)
    ensures
        forall|i: int|
            0 <= i < lines.len() ==> shortest(lines, ending) <= #[trigger] length_at(
                lines,
                i,
                ending,
            ) <= longest(lines, ending),
        lines.len() > 0 ==> exists|i: int|
            0 <= i < lines.len() && #[trigger] length_at(lines, i, ending) == longest(
                lines,
                ending,
            ),
        lines.len() > 0 ==> exists|i: int|
            0 <= i < lines.len() && #[trigger] length_at(lines, i, ending) == shortest(
                lines,
                ending,
            ),
    decreases lines.len(),
{
    if lines.len() > 0 {
        let before = lines.drop_last();
        let n = lines.len() - 1;
        lemma_longest_and_shortest(before, ending);
        assert forall|i: int| 0 <= i < n implies length_at(before, i, ending) == length_at(
            lines,
            i,
            ending,
        ) by {}
        assert forall|i: int| 0 <= i < lines.len() implies shortest(lines, ending)
            <= #[trigger] length_at(lines, i, ending) <= longest(lines, ending) by {
            if i < n {
                assert(length_at(before, i, ending) == length_at(lines, i, ending));
            }
        }
        if longest(lines, ending) == length_at(lines, n, ending) {
        } else {
            let i = choose|i: int|
                0 <= i < before.len() && #[trigger] length_at(before, i, ending) == longest(
                    before,
                    ending,
                );
            assert(length_at(lines, i, ending) == longest(lines, ending));
        }
        if shortest(lines, ending) == length_at(lines, n, ending) {
        } else {
            let i = choose|i: int|
                0 <= i < before.len() && #[trigger] length_at(before, i, ending) == shortest(
                    before,
                    ending,
                );
            assert(length_at(lines, i, ending) == shortest(lines, ending));
        }
    }
}

/// `core::str::Utf8Error`, carried through and never looked into.
#[verifier::external_type_specification]
#[verifier::external_body]
pub struct ExUtf8Error(core::str::Utf8Error);

/// `std::io::Error`, carried through and never looked into.
#[verifier::external_type_specification]
#[verifier::external_body]
pub struct ExIoError(std::io::Error);

/// `core::str::from_utf8`: it accepts exactly the byte strings that are valid
/// UTF-8, and the string it returns is made of the bytes it was given.
pub assume_specification[ core::str::from_utf8 ](v: &[u8]) -> (r: Result<
    &str,
    core::str::Utf8Error,
>)
    ensures
        r is Ok <==> valid_utf8(v@),
        r matches Ok(s) ==> s.spec_bytes() == v@,
;

/// What decompressing `data` as a gzip stream gives: the content of its first
/// member, or nothing where `data` is not a well-formed gzip stream.
pub uninterp spec fn gunzipped(data: Seq<u8>) -> Option<Seq<u8>>;

/// `flate2::read::GzDecoder` over `data`, read to its end: what comes out
/// depends on `data` alone, and an error of the decoder means that there is
/// no decompressed content.
#[verifier::external_body]
fn gunzip(data: &[u8]) -> (r: Result<Vec<u8>, std::io::Error>)
    ensures
        r matches Ok(bytes) ==> gunzipped(data@) == Some(bytes@),
        r is Err ==> gunzipped(data@) is None,
{
    let mut decoder = flate2::read::GzDecoder::new(data);
    let mut bytes = Vec::new();
    match decoder.read_to_end(&mut bytes) {
        Ok(_) => Ok(bytes),
        Err(e) => Err(e),
    }
}

/// Finds the end of the line that starts at `pos`.
pub fn next_line_end(data: &[u8], pos: usize) -> (end: usize)
    requires
        pos < data@.len(),
    ensures
        end == line_end(data@, pos as int),
        pos < end <= data@.len(),
{
    let n = data.len();
    let mut i = pos;
    while i < n && data[i] != NEWLINE
        invariant
            pos <= i <= n,
            n == data@.len(),
            line_end(data@, pos as int) == line_end(data@, i as int),
        decreases n - i,
    {
        i += 1;
    }
    proof {
        lemma_line_end(data@, pos as int);
    }
    if i < n {
        i + 1
    } else {
        n
    }
}

/// The counting pass.
pub struct Counter;

impl Counter {
    /// The statistics before the first line: every counter at 0, but the
    /// minimum, which is seeded at the largest value where it was requested.
    pub fn begin(opt: &CliOptions) -> (stats: Stats)
        ensures
            stats@ == (Totals {
                min_line: if opt.min_line { u64::MAX as nat } else { 0 },
                ..Totals::zero()
            }),
    {
        let mut stats = Stats::default();
        if opt.min_line {
            stats.min_line = u64::MAX;
        }
        stats
    }

    /// Takes one line, with its terminator, into the statistics.
    pub fn tally(stats: &mut Stats, line: &str, opt: &CliOptions, ending: LineEnding)
        requires
            after_line(old(stats)@, line@, *opt, ending).fits(),
        ensures
            final(stats)@ == after_line(old(stats)@, line@, *opt, ending),
    {
        if opt.lines {
            stats.lines += 1;
        }
        if opt.bytes {
            stats.bytes += line.as_bytes().len() as u64;
        }
        if opt.chars {
            stats.chars += line.unicode_len() as u64;
        }
        if opt.words {
            stats.words += count_words(line);
        }
        if opt.max_line {
            let tmp = line_length(line, ending);
            if tmp > stats.max_line {
                stats.max_line = tmp;
            }
        }
        if opt.min_line {
            let tmp = line_length(line, ending);
            if tmp < stats.min_line {
                stats.min_line = tmp;
            }
        }
    }

    /// Ends a pass: a minimum that still stands at its seed, because no line
    /// was read, becomes 0.
    pub fn finish(stats: &mut Stats)
        ensures
            final(stats)@ == (Totals {
                min_line: if old(stats).min_line == u64::MAX { 0 } else { old(stats)@.min_line },
                ..old(stats)@
            }),
    {
        if stats.min_line == u64::MAX {
            stats.min_line = 0;
        }
    }

    /// Counts the statistics that `opt` requests in one pass over `reader`,
    /// line by line.
    ///
    /// The pass fails where `reader` is not valid UTF-8, and only there.
    pub fn read_file(reader: &[u8], opt: &CliOptions, ending: LineEnding) -> (r: Result<
        Stats,
        CountError,
    >)
        ensures
            outcome(r) == pass_result(reader@, *opt, ending),
            r is Ok <==> valid_utf8(reader@),
            r matches Ok(stats) ==> {
                &&& reader@.len() == 0 ==> stats@ == Totals::zero()
                &&& opt.bytes ==> stats.bytes == reader@.len()
                &&& opt.chars ==> stats.chars == decode_utf8(reader@).len()
                &&& opt.bytes && opt.chars ==> stats.chars <= stats.bytes
                &&& opt.max_line && opt.min_line ==> stats.min_line <= stats.max_line
            },
    {
        let n = reader.len();
        let mut stats = Counter::begin(opt);
        let mut pos: usize = 0;
        let ghost mut done: Seq<Seq<u8>> = Seq::empty();
        while pos < n
            invariant
                n == reader@.len(),
                pos <= n,
                split_lines(reader@) == done + lines_from(reader@, pos as int),
                all_valid(done),
                stats@ == running(done, *opt, ending),
                byte_total(done) == pos,
                char_total(done) <= pos,
                word_total(done) <= pos,
                done.len() <= pos,
                longest(done, ending) <= pos,
                done.len() > 0 ==> shortest(done, ending) <= longest(done, ending),
                pos == 0 ==> done.len() == 0,
            decreases n - pos,
        {
            let end = next_line_end(reader, pos);
            let raw = slice_subrange(reader, pos, end);
            let ghost next = done.push(raw@);
            proof {
                assert(seq![raw@] + lines_from(reader@, end as int) == lines_from(
                    reader@,
                    pos as int,
                ));
                assert(split_lines(reader@) =~= next + lines_from(reader@, end as int));
                assert(next.drop_last() =~= done);
            }
            match core::str::from_utf8(raw) {
                Ok(line) => {
                    proof {
                        encode_utf8_decode_utf8(line@);
                        lemma_one_more_line(done, raw@, *opt, ending);
                    }
                    Counter::tally(&mut stats, line, opt, ending);
                    proof {
                        done = next;
                    }
                    pos = end;
                },
                Err(_) => {
                    proof {
                        assert(split_lines(reader@)[done.len() as int] == raw@);
                        lemma_pass_reads_text(reader@, *opt, ending);
                    }
                    return Err(CountError::InvalidUtf8);
                },
            }
        }
        proof {
            assert(lines_from(reader@, pos as int) =~= Seq::<Seq<u8>>::empty());
            assert(split_lines(reader@) =~= done);
            lemma_pass_reads_text(reader@, *opt, ending);
        }
        if n == 0 {
            Counter::finish(&mut stats);
        }
        Ok(stats)
    }

    /// Counts the statistics that `options` requests for the content `data` of
    /// one input, which is decompressed first where `options.zipped` is set.
    pub fn count(data: &[u8], options: &CliOptions, ending: LineEnding) -> (r: Result<
        Stats,
        CountError,
    >)
        ensures
            outcome(r) == count_result(data@, gunzipped(data@), *options, ending),
    {
        if options.zipped {
            match gunzip(data) {
                Ok(bytes) => Counter::read_file(bytes.as_slice(), options, ending),
                Err(_) => Err(CountError::BadGzip),
            }
        } else {
            Counter::read_file(data, options, ending)
        }
    }
}

} // verus!
