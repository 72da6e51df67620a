use crate::options::CliOptions;
use vstd::prelude::*;
use vstd::string::*;

verus! {

/// The counters gathered by one counting pass.
#[derive(Debug, Clone, Copy, PartialEq, Eq, Structural)]
pub struct Stats {
    pub bytes: u64,
    pub chars: u64,
    pub words: u64,
    pub lines: u64,
    pub max_line: u64,
    pub min_line: u64,
}

/// The six counters as unbounded numbers: what a `Stats` stands for.
pub ghost struct Totals {
    pub bytes: nat,
    pub chars: nat,
    pub words: nat,
    pub lines: nat,
    pub max_line: nat,
    pub min_line: nat,
}

impl Totals {
    /// All six counters at zero.
    pub open spec fn zero() -> Totals {
        Totals { bytes: 0, chars: 0, words: 0, lines: 0, max_line: 0, min_line: 0 }
    }

    /// The field-wise sum of two records.
    pub open spec fn plus(self, other: Totals) -> Totals {
        Totals {
            bytes: self.bytes + other.bytes,
            chars: self.chars + other.chars,
            words: self.words + other.words,
            lines: self.lines + other.lines,
            max_line: self.max_line + other.max_line,
            min_line: self.min_line + other.min_line,
        }
    }

    /// Whether every counter can be held in 64 bits.
    pub open spec fn fits(self) -> bool {
        &&& self.bytes <= u64::MAX
        &&& self.chars <= u64::MAX
        &&& self.words <= u64::MAX
        &&& self.lines <= u64::MAX
        &&& self.max_line <= u64::MAX
        &&& self.min_line <= u64::MAX
    }

    /// The field-wise sum of a sequence of records, taken from the left.
    pub open spec fn sum_of(items: Seq<Totals>) -> Totals
        decreases items.len(),
    {
        if items.len() == 0 {
            Totals::zero()
        } else {
            Totals::sum_of(items.drop_last()).plus(items.last())
        }
    }

    /// Summing is associative.
    pub proof fn lemma_plus_associative(a: Totals, b: Totals, c: Totals)
        ensures
            a.plus(b).plus(c) == a.plus(b.plus(c)),
    {
    }

    /// Summing is commutative.
    pub proof fn lemma_plus_commutative(a: Totals, b: Totals)
        ensures
            a.plus(b) == b.plus(a),
    {
    }

    /// The zeroed record is the identity of summing, on either side.
    pub proof fn lemma_plus_zero(a: Totals)
        ensures
            a.plus(Totals::zero()) == a,
            Totals::zero().plus(a) == a,
    {
    }

    /// The sum of a sequence does not depend on the order of two neighbours,
    /// so the total of several passes is the same in whatever order they ran.
    pub proof fn lemma_sum_of_swap(items: Seq<Totals>, i: int)
        requires
            0 <= i,
            i + 1 < items.len(),
        ensures
            Totals::sum_of(items.update(i, items[i + 1]).update(i + 1, items[i])) == Totals::sum_of(
                items,
            ),
        decreases items.len(),
    {
        let swapped = items.update(i, items[i + 1]).update(i + 1, items[i]);
        if i + 2 == items.len() {
            let head = items.drop_last().drop_last();
            assert(swapped.drop_last().drop_last() =~= head);
            assert(Totals::sum_of(swapped.drop_last()) == Totals::sum_of(head).plus(items[i + 1]));
            assert(Totals::sum_of(items.drop_last()) == Totals::sum_of(head).plus(items[i]));
        } else {
            assert(swapped.last() == items.last());
            Totals::lemma_sum_of_swap(items.drop_last(), i);
            assert(swapped.drop_last() =~= items.drop_last().update(i, items[i + 1]).update(
                i + 1,
                items[i],
            ));
        }
    }
}

/// The width to which each counter is padded in a line of results.
pub const FIELD_WIDTH: usize = 8;

/// The character of a decimal digit.
pub open spec fn digit(d: nat) -> char {
    ((48 + d) as u8) as char
}

/// `n` in decimal, without leading zeros.
pub open spec fn decimal(n: nat) -> Seq<char>
    decreases n,
{
    if n < 10 {
        seq![digit(n)]
    } else {
        decimal(n / 10).push(digit(n % 10))
    }
}

/// One counter as it is shown: in decimal, padded with spaces on the left to
/// the field width where it is shorter, and followed by one space.
pub open spec fn field(n: nat) -> Seq<char> {
    let digits = decimal(n);
    let pad = if digits.len() < FIELD_WIDTH {
        FIELD_WIDTH - digits.len()
    } else {
        0
    };
    Seq::new(pad as nat, |i: int| ' ') + digits + seq![' ']
}

impl Totals {
    /// The line that shows a record: the requested counters in the order
    /// bytes, characters, words, lines, shortest line, longest line, each as
    /// a field, and then the label.
    pub open spec fn rendering(self, opt: CliOptions, label: Seq<char>) -> Seq<char> {
        (if opt.bytes { field(self.bytes) } else { seq![] })
        + (if opt.chars { field(self.chars) } else { seq![] })
        + (if opt.words { field(self.words) } else { seq![] })
        + (if opt.lines { field(self.lines) } else { seq![] })
        + (if opt.min_line { field(self.min_line) } else { seq![] })
        + (if opt.max_line { field(self.max_line) } else { seq![] })
        + label
    }

    /// Two lines made for the same record, under the same options and with the
    /// same label, are the same line.
    pub proof fn lemma_rendering_repeats(
        self,
        opt: CliOptions,
        label: Seq<char>,
        first: Seq<char>,
        second: Seq<char>,
    )
        requires
            first == self.rendering(opt, label),
            second == self.rendering(opt, label),
        ensures
            first == second,
    {
    }
}

/// The text of one decimal digit.
pub fn digit_text(d: u8) -> (text: &'static str)
    requires
        d < 10,
    ensures
        text@ == seq![digit(d as nat)],
{
    proof {
        reveal_strlit("0");
        reveal_strlit("1");
        reveal_strlit("2");
        reveal_strlit("3");
        reveal_strlit("4");
        reveal_strlit("5");
        reveal_strlit("6");
        reveal_strlit("7");
        reveal_strlit("8");
        reveal_strlit("9");
    }
    let text = match d {
        0 => "0",
        1 => "1",
        2 => "2",
        3 => "3",
        4 => "4",
        5 => "5",
        6 => "6",
        7 => "7",
        8 => "8",
        _ => "9",
    };
    assert(text@ =~= seq![digit(d as nat)]);
    text
}

/// Appends `n` in decimal to `out`.
pub fn push_decimal(out: &mut String, n: u64)
    ensures
        final(out)@ == old(out)@ + decimal(n as nat),
    decreases n,
{
    if n >= 10 {
        push_decimal(out, n / 10);
    }
    out.append(digit_text((n % 10) as u8));
    assert(final(out)@ =~= old(out)@ + decimal(n as nat));
}

/// Appends `n` as a field to `out`.
pub fn push_field(out: &mut String, n: u64)
    ensures
        final(out)@ == old(out)@ + field(n as nat),
{
    let mut digits = String::new();
    push_decimal(&mut digits, n);
    assert(digits@ =~= decimal(n as nat));
    let ghost before = out@;
    let ghost pad: int = if digits@.len() < FIELD_WIDTH {
        FIELD_WIDTH - digits@.len()
    } else {
        0
    };
    let shown = digits.as_str().unicode_len();
    let mut width = shown;
    proof {
        reveal_strlit(" ");
    }
    while width < FIELD_WIDTH
        invariant
            shown == digits@.len(),
            shown <= width,
            width <= FIELD_WIDTH || width == shown,
            shown < FIELD_WIDTH ==> pad == FIELD_WIDTH - shown,
            shown >= FIELD_WIDTH ==> pad == 0,
            " "@ == seq![' '],
            out@ == before + Seq::new((width - shown) as nat, |i: int| ' '),
        decreases FIELD_WIDTH - width,
    {
        out.append(" ");
        width += 1;
        assert(out@ =~= before + Seq::new((width - shown) as nat, |i: int| ' '));
    }
    out.append(digits.as_str());
    out.append(" ");
    assert(out@ =~= before + field(n as nat));
}

impl View for Stats {
    type V = Totals;

    open spec fn view(&self) -> Totals {
        Totals {
            bytes: self.bytes as nat,
            chars: self.chars as nat,
            words: self.words as nat,
            lines: self.lines as nat,
            max_line: self.max_line as nat,
            min_line: self.min_line as nat,
        }
    }
}

/// The records that a slice of `Stats` stands for, in order.
pub open spec fn views_of(items: Seq<Stats>) -> Seq<Totals> {
    Seq::new(items.len(), |i: int| items[i]@)
}

impl Default for Stats {
    fn default() -> (r: Stats)
        ensures
            r@ == Totals::zero(),
    {
        Stats { bytes: 0, chars: 0, words: 0, lines: 0, max_line: 0, min_line: 0 }
    }
}

impl Stats {
    /// Whether `other` can be added to `self` with every counter still in 64 bits.
    pub fn can_add(&self, other: &Stats) -> (b: bool)
        ensures
            b == self@.plus(other@).fits(),
    {
        other.bytes <= u64::MAX - self.bytes && other.chars <= u64::MAX - self.chars && other.words
            <= u64::MAX - self.words && other.lines <= u64::MAX - self.lines && other.max_line
            <= u64::MAX - self.max_line && other.min_line <= u64::MAX - self.min_line
    }

    /// Adds `other` to `self`, counter by counter.
    pub fn add_assign(&mut self, other: Stats)
        requires
            old(self)@.plus(other@).fits(),
        ensures
            final(self)@ == old(self)@.plus(other@),
    {
        *self = Stats {
            bytes: self.bytes + other.bytes,
            chars: self.chars + other.chars,
            words: self.words + other.words,
            lines: self.lines + other.lines,
            max_line: self.max_line + other.max_line,
            min_line: self.min_line + other.min_line,
        };
    }

    /// The line that shows these statistics: the counters that `opt` requests,
    /// in a fixed order, and then `text`.
    pub fn results_line(&self, opt: &CliOptions, text: &str) -> (line: String)
        ensures
            line@ == self@.rendering(*opt, text@),
    {
        let mut line = String::new();
        if opt.bytes {
            push_field(&mut line, self.bytes);
        }
        if opt.chars {
            push_field(&mut line, self.chars);
        }
        if opt.words {
            push_field(&mut line, self.words);
        }
        if opt.lines {
            push_field(&mut line, self.lines);
        }
        if opt.min_line {
            push_field(&mut line, self.min_line);
        }
        if opt.max_line {
            push_field(&mut line, self.max_line);
        }
        line.append(text);
        assert(line@ =~= self@.rendering(*opt, text@));
        line
    }

    /// The field-wise sum of `items`, or `None` where a counter of it would
    /// not fit in 64 bits.
    pub fn sum(items: &[Stats]) -> (total: Option<Stats>)
        ensures
            total is Some <==> Totals::sum_of(views_of(items@)).fits(),
            total matches Some(t) ==> t@ == Totals::sum_of(views_of(items@)),
    {
        let mut total = Stats::default();
        let n = items.len();
        for i in 0..n
            invariant
                n == items@.len(),
                total@ == Totals::sum_of(views_of(items@.take(i as int))),
        {
            assert(views_of(items@.take(i + 1)).drop_last() =~= views_of(items@.take(i as int)));
            assert(views_of(items@.take(i + 1)).last() == items@[i as int]@);
            if !total.can_add(&items[i]) {
                proof {
                    assert(views_of(items@).take(i + 1) =~= views_of(items@.take(i + 1)));
                    if Totals::sum_of(views_of(items@)).fits() {
                        lemma_sum_of_prefix_fits(views_of(items@), i + 1);
                    }
                }
                return None;
            }
            total.add_assign(items[i]);
        }
        assert(items@.take(n as int) =~= items@);
        Some(total)
    }
}

/// Where the sum of a sequence fits, the sum of each of its prefixes fits.
pub proof fn lemma_sum_of_prefix_fits(items: Seq<Totals>, k: int)
    requires
        0 <= k <= items.len(),
        Totals::sum_of(items).fits(),
    ensures
        Totals::sum_of(items.take(k)).fits(),
    decreases items.len() - k,
{
    if k == items.len() {
        assert(items.take(k) =~= items);
    } else {
        lemma_sum_of_prefix_fits(items.drop_last(), k);
        assert(items.drop_last().take(k) =~= items.take(k));
    }
}

} // verus!
