use crate::options::CliOptions;
use crate::stats::Totals;
use vstd::prelude::*;

verus! {

/// One slot per statistic, and one for the compression flag: with `bool`
/// slots the record says what is requested, with `u64` slots what was counted.
#[derive(Debug)]
pub struct FrameWork<T> {
    pub bytes: T,
    pub chars: T,
    pub words: T,
    pub lines: T,
    pub max_line: T,
    pub min_line: T,
    pub zipped: T,
}

impl<T: Default> FrameWork<T> {
    /// A record with every slot at its type's default value.
    pub fn new() -> (r: FrameWork<T>)
        ensures
            call_ensures(T::default, (), r.bytes),
            call_ensures(T::default, (), r.chars),
            call_ensures(T::default, (), r.words),
            call_ensures(T::default, (), r.lines),
            call_ensures(T::default, (), r.max_line),
            call_ensures(T::default, (), r.min_line),
            call_ensures(T::default, (), r.zipped),
    {
        FrameWork {
            bytes: T::default(),
            chars: T::default(),
            words: T::default(),
            lines: T::default(),
            max_line: T::default(),
            min_line: T::default(),
            zipped: T::default(),
        }
    }
}

/// What is requested.
pub type Options = FrameWork<bool>;

/// What was counted.
pub type Stats = FrameWork<u64>;

impl FrameWork<bool> {
    /// The same requests as a `CliOptions`.
    pub open spec fn selection(self) -> CliOptions {
        CliOptions {
            bytes: self.bytes,
            chars: self.chars,
            words: self.words,
            lines: self.lines,
            max_line: self.max_line,
            min_line: self.min_line,
            zipped: self.zipped,
        }
    }

    /// The same requests as a `CliOptions`.
    pub fn to_options(&self) -> (o: CliOptions)
        ensures
            o == self.selection(),
    {
        CliOptions {
            bytes: self.bytes,
            chars: self.chars,
            words: self.words,
            lines: self.lines,
            max_line: self.max_line,
            min_line: self.min_line,
            zipped: self.zipped,
        }
    }
}

impl FrameWork<u64> {
    /// The six counters as unbounded numbers.
    pub open spec fn totals(self) -> Totals {
        Totals {
            bytes: self.bytes as nat,
            chars: self.chars as nat,
            words: self.words as nat,
            lines: self.lines as nat,
            max_line: self.max_line as nat,
            min_line: self.min_line as nat,
        }
    }

    /// The counters of `stats`, with the slot of the compression flag at 0.
    pub fn from_stats(stats: &crate::stats::Stats) -> (r: FrameWork<u64>)
        ensures
            r.totals() == stats@,
            r.zipped == 0,
    {
        FrameWork {
            bytes: stats.bytes,
            chars: stats.chars,
            words: stats.words,
            lines: stats.lines,
            max_line: stats.max_line,
            min_line: stats.min_line,
            zipped: 0,
        }
    }
}

} // verus!
