use vstd::prelude::*;
use vstd::string::*;
use vstd::utf8::*;

verus! {

/// The statistics that a caller wants counted, and whether the input is
/// gzip-compressed. Every flag is independent of the others.
#[derive(Debug, Clone, Copy, PartialEq, Eq, Structural)]
pub struct CliOptions {
    /// count bytes
    pub bytes: bool,
    /// count characters
    pub chars: bool,
    /// count words (separated by white space)
    pub words: bool,
    /// count lines
    pub lines: bool,
    /// find the length of the longest line
    pub max_line: bool,
    /// find the length of the shortest line
    pub min_line: bool,
    /// the input is gzip-compressed
    pub zipped: bool,
}

/// The texts of a list of arguments, in order.
pub open spec fn texts(args: Seq<String>) -> Seq<Seq<char>> {
    Seq::new(args.len(), |i: int| args[i]@)
}

/// Whether an argument is written as a flag: it starts with `-`.
pub open spec fn is_flag(arg: Seq<char>) -> bool {
    arg.len() > 0 && arg[0] == '-'
}

/// Whether an argument asks for the help text.
pub open spec fn is_help(arg: Seq<char>) -> bool {
    arg == "-h"@ || arg == "--help"@
}

/// The arguments that name input files: all but the first, which names the
/// program, and but those written as flags.
pub open spec fn file_args(args: Seq<Seq<char>>) -> Seq<Seq<char>> {
    if args.len() == 0 {
        args
    } else {
        args.subrange(1, args.len() as int).filter(|a: Seq<char>| !is_flag(a))
    }
}

impl CliOptions {
    /// No flag set.
    pub open spec fn none() -> CliOptions {
        CliOptions {
            bytes: false,
            chars: false,
            words: false,
            lines: false,
            max_line: false,
            min_line: false,
            zipped: false,
        }
    }

    /// All six statistics requested; `zipped` as it was.
    pub open spec fn with_all(self) -> CliOptions {
        CliOptions {
            bytes: true,
            chars: true,
            words: true,
            lines: true,
            max_line: true,
            min_line: true,
            zipped: self.zipped,
        }
    }

    /// The options after one flag letter: the letter's flag is set, and a
    /// letter that names no flag changes nothing.
    pub open spec fn with_letter(self, c: char) -> CliOptions {
        CliOptions {
            bytes: self.bytes || c == 'b',
            chars: self.chars || c == 'c',
            words: self.words || c == 'w',
            lines: self.lines || c == 'l',
            max_line: self.max_line || c == 'L',
            min_line: self.min_line || c == 'M',
            zipped: self.zipped || c == 'z',
        }
    }

    /// The options after a run of flag letters: a flag is set where it was
    /// set before or its letter occurs in the run.
    pub open spec fn with_letters(self, letters: Seq<char>) -> CliOptions {
        CliOptions {
            bytes: self.bytes || letters.contains('b'),
            chars: self.chars || letters.contains('c'),
            words: self.words || letters.contains('w'),
            lines: self.lines || letters.contains('l'),
            max_line: self.max_line || letters.contains('L'),
            min_line: self.min_line || letters.contains('M'),
            zipped: self.zipped || letters.contains('z'),
        }
    }

    /// The options after one command-line argument.
    ///
    /// A flag in its short or long form sets its field; a request for help
    /// changes nothing; any other argument that starts with `-` is read as a
    /// run of flag letters; an argument that is no flag requests all six
    /// statistics.
    pub open spec fn with_arg(self, arg: Seq<char>) -> CliOptions {
        if is_help(arg) {
            self
        } else if arg == "-b"@ || arg == "--bytes"@ {
            CliOptions { bytes: true, ..self }
        } else if arg == "-c"@ || arg == "--chars"@ {
            CliOptions { chars: true, ..self }
        } else if arg == "-w"@ || arg == "--words"@ {
            CliOptions { words: true, ..self }
        } else if arg == "-l"@ || arg == "--lines"@ {
            CliOptions { lines: true, ..self }
        } else if arg == "-z"@ || arg == "--zip"@ {
            CliOptions { zipped: true, ..self }
        } else if arg == "-L"@ || arg == "--max-line-length"@ {
            CliOptions { max_line: true, ..self }
        } else if arg == "-M"@ || arg == "--min-line-length"@ {
            CliOptions { min_line: true, ..self }
        } else if arg == "-a"@ || arg == "--all"@ {
            self.with_all()
        } else if is_flag(arg) {
            self.with_letters(arg)
        } else {
            self.with_all()
        }
    }

    /// The options after a list of arguments, read from the left.
    pub open spec fn with_args(self, args: Seq<Seq<char>>) -> CliOptions
        decreases args.len(),
    {
        if args.len() == 0 {
            self
        } else {
            self.with_args(args.drop_last()).with_arg(args.last())
        }
    }

    /// Reads the options off a command line.
    pub fn check_args(args: &[String]) -> (options: CliOptions)
        ensures
            options == CliOptions::none().with_args(texts(args@)),
    {
        let mut options = CliOptions::default();
        let n = args.len();
        for i in 0..n
            invariant
                n == args@.len(),
                options == CliOptions::none().with_args(texts(args@.take(i as int))),
        {
            assert(texts(args@.take(i + 1)).drop_last() =~= texts(args@.take(i as int)));
            assert(texts(args@.take(i + 1)).last() == args@[i as int]@);
            options.apply(args[i].as_str());
        }
        assert(args@.take(n as int) =~= args@);
        options
    }

    /// Takes one command-line argument into the options.
    pub fn apply(&mut self, arg: &str)
        ensures
            *final(self) == old(self).with_arg(arg@),
    {
        if same_text(arg, "-h") || same_text(arg, "--help") {
        } else if same_text(arg, "-b") || same_text(arg, "--bytes") {
            self.bytes = true;
        } else if same_text(arg, "-c") || same_text(arg, "--chars") {
            self.chars = true;
        } else if same_text(arg, "-w") || same_text(arg, "--words") {
            self.words = true;
        } else if same_text(arg, "-l") || same_text(arg, "--lines") {
            self.lines = true;
        } else if same_text(arg, "-z") || same_text(arg, "--zip") {
            self.zipped = true;
        } else if same_text(arg, "-L") || same_text(arg, "--max-line-length") {
            self.max_line = true;
        } else if same_text(arg, "-M") || same_text(arg, "--min-line-length") {
            self.min_line = true;
        } else if same_text(arg, "-a") || same_text(arg, "--all") {
            self.set_all();
        } else if starts_with_dash(arg) {
            let ghost before = *self;
            for c in it: arg.chars()
                invariant
                    it.seq() == arg@,
                    *self == before.with_letters(arg@.take(it.index())),
            {
                let ghost i = it.index();
                assert(arg@.take(i + 1) =~= arg@.take(i).push(c));
                assert forall|x: char| #[trigger]
                    arg@.take(i + 1).contains(x) == (arg@.take(i).contains(x) || x == c) by {
                    if arg@.take(i).contains(x) {
                        let j = choose|j: int| 0 <= j < i && arg@.take(i)[j] == x;
                        assert(arg@.take(i + 1)[j] == x);
                    }
                    if x == c {
                        assert(arg@.take(i + 1)[i] == x);
                    }
                }
                CliOptions::maybe_flags(c, self);
            }
            assert(arg@.take(arg@.len() as int) =~= arg@);
        } else {
            self.set_all();
        }
    }

    /// Sets the flag that the letter `char_flag` names, if it names one.
    pub fn maybe_flags(char_flag: char, options: &mut CliOptions)
        ensures
            *final(options) == old(options).with_letter(char_flag),
    {
        match char_flag {
            'b' => options.bytes = true,
            'c' => options.chars = true,
            'w' => options.words = true,
            'l' => options.lines = true,
            'z' => options.zipped = true,
            'L' => options.max_line = true,
            'M' => options.min_line = true,
            _ => (),
        }
    }

    /// Requests all six statistics, and leaves `zipped` as it is.
    pub fn set_all(&mut self)
        ensures
            *final(self) == old(self).with_all(),
    {
        self.bytes = true;
        self.chars = true;
        self.words = true;
        self.lines = true;
        self.max_line = true;
        self.min_line = true;
    }

    /// Whether one of the arguments asks for the help text.
    pub fn wants_help(args: &[String]) -> (b: bool)
        ensures
            b == exists|i: int| 0 <= i < args@.len() && is_help(#[trigger] args@[i]@),
    {
        let n = args.len();
        for i in 0..n
            invariant
                n == args@.len(),
                forall|j: int| 0 <= j < i ==> !is_help(#[trigger] args@[j]@),
        {
            let arg = args[i].as_str();
            if same_text(arg, "-h") || same_text(arg, "--help") {
                return true;
            }
        }
        false
    }
}

impl Default for CliOptions {
    fn default() -> (r: CliOptions)
        ensures
            r == CliOptions::none(),
    {
        CliOptions {
            bytes: false,
            chars: false,
            words: false,
            lines: false,
            max_line: false,
            min_line: false,
            zipped: false,
        }
    }
}

/// Whether two strings hold the same text.
pub fn same_text(a: &str, b: &str) -> (same: bool)
    ensures
        same == (a@ == b@),
{
    broadcast use encode_utf8_decode_utf8;

    let x = a.as_bytes();
    let y = b.as_bytes();
    if x.len() != y.len() {
        return false;
    }
    let n = x.len();
    for i in 0..n
        invariant
            n == x@.len(),
            n == y@.len(),
            x@ == encode_utf8(a@),
            y@ == encode_utf8(b@),
            forall|j: int| 0 <= j < i ==> x@[j] == y@[j],
    {
        if x[i] != y[i] {
            return false;
        }
    }
    assert(x@ =~= y@);
    assert(decode_utf8(encode_utf8(a@)) == a@);
    assert(decode_utf8(encode_utf8(b@)) == b@);
    true
}

/// Whether `arg` starts with `-`.
pub fn starts_with_dash(arg: &str) -> (b: bool)
    ensures
        b == is_flag(arg@),
{
    arg.unicode_len() > 0 && arg.get_char(0) == '-'
}

/// The arguments of a command line that name input files.
pub fn get_files(args: &[String]) -> (files: Vec<String>)
    ensures
        texts(files@) == file_args(texts(args@)),
{
    let mut files: Vec<String> = Vec::new();
    let n = args.len();
    if n == 0 {
        assert(texts(files@) =~= texts(args@));
        return files;
    }
    let ghost keep = |a: Seq<char>| !is_flag(a);
    proof {
        reveal(Seq::filter);
        assert(texts(args@).subrange(1, 1) =~= Seq::<Seq<char>>::empty());
        assert(texts(files@) =~= Seq::<Seq<char>>::empty());
    }
    for i in 1..n
        invariant
            n == args@.len(),
            keep == |a: Seq<char>| !is_flag(a),
            texts(files@) == texts(args@).subrange(1, i as int).filter(keep),
    {
        proof {
            reveal(Seq::filter);
            assert(texts(args@).subrange(1, i + 1).drop_last() =~= texts(args@).subrange(
                1,
                i as int,
            ));
        }
        if !starts_with_dash(args[i].as_str()) {
            let ghost before = files@;
            files.push(args[i].clone());
            assert(texts(files@) =~= texts(before).push(args@[i as int]@));
        }
    }
    files
}

} // verus!
