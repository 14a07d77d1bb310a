//! Multi-dataset consolidation: intersecting the per-dataset time windows
//! and joining the record sets.

use vstd::prelude::*;
use crate::error::PolarWarpError;
use crate::record::{OperationRecord, RecordModel};
use crate::window::TimeWindow;

verus! {

/// The latest start among the windows (meaningful only for non-empty
/// sequences).
pub open spec fn max_start_of(ws: Seq<TimeWindow>) -> int
    decreases ws.len(),
{
    if ws.len() == 0 {
        0
    } else if ws.len() == 1 {
        ws[0].start_ns as int
    } else {
        let rest = max_start_of(ws.drop_last());
        if ws.last().start_ns > rest {
            ws.last().start_ns as int
        } else {
            rest
        }
    }
}

/// The earliest end among the windows (meaningful only for non-empty
/// sequences).
pub open spec fn min_end_of(ws: Seq<TimeWindow>) -> int
    decreases ws.len(),
{
    if ws.len() == 0 {
        0
    } else if ws.len() == 1 {
        ws[0].end_ns as int
    } else {
        let rest = min_end_of(ws.drop_last());
        if ws.last().end_ns < rest {
            ws.last().end_ns as int
        } else {
            rest
        }
    }
}

/// Intersect the per-dataset windows: the consolidated window runs from
/// the latest start to the earliest end, the span during which every
/// dataset was active.
///
/// Fails with `NoValidData` when no window is given, and with
/// `NoOverlappingTimeRange` exactly when the intersection is empty (the
/// latest start does not lie strictly before the earliest end).
pub fn consolidate_windows(windows: &Vec<TimeWindow>) -> (r: Result<TimeWindow, PolarWarpError>)
    ensures
        match r {
            Ok(w) => windows@.len() > 0 && w.start_ns == max_start_of(windows@) && w.end_ns
                == min_end_of(windows@) && w.is_valid(),
            Err(e) => match e {
                PolarWarpError::NoValidData => windows@.len() == 0,
                PolarWarpError::NoOverlappingTimeRange => windows@.len() > 0 && max_start_of(
                    windows@,
                ) >= min_end_of(windows@),
                _ => false,
            },
        },
{
    if windows.len() == 0 {
        return Err(PolarWarpError::NoValidData);
    }
    let first = windows[0];
    let mut start_ns = first.start_ns;
    let mut end_ns = first.end_ns;
    proof {
        assert(windows@.take(1).len() == 1);
        assert(windows@.take(1)[0] == windows@[0]);
    }
    let mut i: usize = 1;
    while i < windows.len()
        invariant
            1 <= i <= windows@.len(),
            start_ns == max_start_of(windows@.take(i as int)),
            end_ns == min_end_of(windows@.take(i as int)),
        decreases windows@.len() - i,
    {
        let w = windows[i];
        proof {
            let t = windows@.take(i + 1);
            assert(t.drop_last() =~= windows@.take(i as int));
            assert(t.last() == windows@[i as int]);
            assert(t.len() > 1);
        }
        if w.start_ns > start_ns {
            start_ns = w.start_ns;
        }
        if w.end_ns < end_ns {
            end_ns = w.end_ns;
        }
        i += 1;
    }
    proof {
        assert(windows@.take(windows@.len() as int) =~= windows@);
    }
    if start_ns >= end_ns {
        return Err(PolarWarpError::NoOverlappingTimeRange);
    }
    Ok(TimeWindow { start_ns, end_ns })
}

/// Join the per-dataset record sets into one, in dataset order. The
/// consolidated dataset is exactly the concatenation; no further time
/// filtering happens at this stage.
pub fn concat_datasets(sets: &Vec<Vec<OperationRecord>>) -> (out: Vec<OperationRecord>)
    ensures
        out.deep_view() == sets.deep_view().flatten(),
{
    let ghost all = sets.deep_view();
    let mut out: Vec<OperationRecord> = Vec::new();
    proof {
        assert(all.take(0) =~= Seq::<Seq<RecordModel>>::empty());
        assert(out.deep_view() =~= all.take(0).flatten_alt());
    }
    let mut i: usize = 0;
    while i < sets.len()
        invariant
            all == sets.deep_view(),
            all.len() == sets@.len(),
            0 <= i <= all.len(),
            out.deep_view() == all.take(i as int).flatten_alt(),
        decreases all.len() - i,
    {
        let s = &sets[i];
        let ghost sm = all[i as int];
        proof {
            assert(sm == sets@[i as int].deep_view());
            assert(sm.take(0) =~= Seq::<RecordModel>::empty());
            assert(out.deep_view() + sm.take(0) =~= out.deep_view());
        }
        let ghost outer_before = out.deep_view();
        let mut j: usize = 0;
        while j < s.len()
            invariant
                sm == sets@[i as int].deep_view(),
                sm.len() == sets@[i as int]@.len(),
                0 <= j <= sm.len(),
                s == &sets@[i as int],
                out.deep_view() == outer_before + sm.take(j as int),
            decreases sm.len() - j,
        {
            let ghost before = out.deep_view();
            out.push(s[j].clone());
            proof {
                assert(sm[j as int] == sets@[i as int]@[j as int].deep_view());
                assert(out.deep_view() =~= before.push(sm[j as int]));
                assert(sm.take(j + 1) =~= sm.take(j as int).push(sm[j as int]));
                assert(out.deep_view() =~= outer_before + sm.take(j + 1));
            }
            j += 1;
        }
        proof {
            assert(sm.take(sm.len() as int) =~= sm);
            let t = all.take(i + 1);
            assert(t.drop_last() =~= all.take(i as int));
            assert(t.last() == sm);
            assert(out.deep_view() =~= all.take(i + 1).flatten_alt());
        }
        i += 1;
    }
    proof {
        assert(all.take(all.len() as int) =~= all);
        all.lemma_flatten_and_flatten_alt_are_equivalent();
    }
    out
}

} // verus!
