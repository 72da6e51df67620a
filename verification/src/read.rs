use crate::counter::{pass_result, CountError, Counter};
use crate::framework::{FrameWork, Options, Stats};
use crate::stats::Totals;
use crate::text::LineEnding;
use vstd::prelude::*;

verus! {

/// The result of a pass over slot records, with its statistics as unbounded
/// numbers.
pub open spec fn slot_outcome(r: Result<Stats, CountError>) -> Result<Totals, CountError> {
    match r {
        Ok(stats) => Ok(stats.totals()),
        Err(e) => Err(e),
    }
}

/// Counts the statistics that `opt` requests in one pass over `reader`, with
/// the request and the result as slot records.
pub fn read_file(reader: &[u8], opt: &Options, ending: LineEnding) -> (r: Result<
    Stats,
    CountError,
>)
    ensures
        slot_outcome(r) == pass_result(reader@, opt.selection(), ending),
        r matches Ok(stats) ==> stats.zipped == 0,
{
    let selection = opt.to_options();
    match Counter::read_file(reader, &selection, ending) {
        Ok(stats) => Ok(FrameWork::from_stats(&stats)),
        Err(e) => Err(e),
    }
}

} // verus!
