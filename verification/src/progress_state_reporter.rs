//! The progress reporting with the state: the handling of progress reports and snapshot
//! requests.

use vstd::prelude::*;

use crate::chunker::{Offset, Size, TotalSize};
use crate::progress_state::{
    all_nonempty, canonical, covered, law_canonical_unique, law_listing_separated, law_ranges_listing, listing, merged,
    pairwise_separated, strictly_sorted, ProgressState, Range,
};

verus! {

/// A snapshot of the current download state.
#[derive(Debug)]
pub struct Snapshot {
    /// The total size of the data.
    pub total_size: TotalSize,
    /// A list of completed ranges of offsets.
    pub ranges: Vec<Range>,
}

/// The range of offsets that a progress report of `data_size` bytes at `offset` covers.
pub open spec fn report_range(report: (Offset, Size)) -> Range {
    Range { start: report.0, end: (report.0 + report.1) as u64 }
}

/// Handle an incoming progress report: `data_size` bytes at `offset` are done.
pub fn handle_progress_report(state: &mut ProgressState, report: (Offset, Size))
    requires
        report.0 + report.1 <= u64::MAX,
    ensures
        merged(old(state)@, report_range(report), final(state)@),
{
    let (offset, data_size) = report;
    let update_range = Range { start: offset, end: offset + data_size };
    state.merge_update(update_range);
}

/// The snapshot answering a ranges snapshot request.
pub fn ranges_snapshot(state: &ProgressState, total_size: TotalSize) -> (r: Snapshot)
    ensures
        r.total_size == total_size,
        r.ranges@ == state.spec_ranges(),
{
    let ranges = state.ranges();
    Snapshot { total_size, ranges }
}


proof fn lemma_reports_prefix(
    states: Seq<Map<Offset, Offset>>,
    reports: Seq<(Offset, Size)>,
    n: int,
)
    requires
        states.len() == reports.len() + 1,
        states[0] == Map::<Offset, Offset>::empty(),
        forall|i: int|
            #![trigger reports[i]]
            0 <= i < reports.len() ==> merged(states[i], report_range(reports[i]), states[i + 1]),
        0 <= n <= reports.len(),
    ensures
        canonical(states[n]),
        forall|x: int|
            covered(states[n], x) <==> exists|i: int|
                0 <= i < n && #[trigger] report_range(reports[i]).covers(x),
    decreases n,
{
    if n == 0 {
        assert forall|x: int| !covered(states[0], x) by {}
    } else {
        lemma_reports_prefix(states, reports, n - 1);
        let r = reports[n - 1];
        assert(merged(states[n - 1], report_range(r), states[n]));
        assert forall|x: int|
            covered(states[n], x) <==> exists|i: int|
                0 <= i < n && #[trigger] report_range(reports[i]).covers(x) by {
            assert(covered(states[n], x) <==> covered(states[n - 1], x) || report_range(r).covers(
                x,
            ));
            if report_range(r).covers(x) {
                assert(report_range(reports[n - 1]).covers(x));
            }
            if exists|i: int| 0 <= i < n && #[trigger] report_range(reports[i]).covers(x) {
                let i = choose|i: int| 0 <= i < n && #[trigger] report_range(reports[i]).covers(x);
                if i < n - 1 {
                    assert(exists|j: int|
                        0 <= j < n - 1 && #[trigger] report_range(reports[j]).covers(x));
                }
            }
        }
    }
}

/// Handling the progress reports one after another, starting from no progress, records exactly
/// the offsets of the reports, and the snapshot then lists them as non-empty ranges in increasing
/// order, each ending before the next one starts.
pub proof fn law_reports_recorded(states: Seq<Map<Offset, Offset>>, reports: Seq<(Offset, Size)>)
    requires
        states.len() == reports.len() + 1,
        states[0] == Map::<Offset, Offset>::empty(),
        forall|i: int|
            #![trigger reports[i]]
            0 <= i < reports.len() ==> merged(states[i], report_range(reports[i]), states[i + 1]),
    ensures
        canonical(states.last()),
        forall|x: int|
            covered(states.last(), x) <==> exists|i: int|
                0 <= i < reports.len() && #[trigger] report_range(reports[i]).covers(x),
        strictly_sorted(listing(states.last())),
        all_nonempty(listing(states.last())),
        pairwise_separated(listing(states.last())),
{
    lemma_reports_prefix(states, reports, reports.len() as int);
    law_ranges_listing(states.last());
    law_listing_separated(states.last());
}


/// Whether the event is a progress report covering the offset `x`; an event is either a
/// progress report (`Some`) or a snapshot request (`None`).
pub open spec fn event_covers(event: Option<(Offset, Size)>, x: int) -> bool {
    match event {
        Some(report) => report_range(report).covers(x),
        None => false,
    }
}

/// The progress reports among the events, in the order they came.
pub open spec fn reports_in(events: Seq<Option<(Offset, Size)>>) -> Seq<(Offset, Size)>
    decreases events.len(),
{
    if events.len() == 0 {
        Seq::empty()
    } else {
        let earlier = reports_in(events.drop_last());
        match events.last() {
            Some(report) => earlier.push(report),
            None => earlier,
        }
    }
}

proof fn lemma_reports_in_cover(events: Seq<Option<(Offset, Size)>>, x: int)
    ensures
        (exists|i: int|
            0 <= i < reports_in(events).len() && #[trigger] report_range(reports_in(events)[i]).covers(
                x,
            )) <==> exists|j: int| 0 <= j < events.len() && #[trigger] event_covers(events[j], x),
    decreases events.len(),
{
    if events.len() > 0 {
        let e0 = events.drop_last();
        lemma_reports_in_cover(e0, x);
        let r0 = reports_in(e0);
        let r = reports_in(events);
        if exists|i: int| 0 <= i < r.len() && #[trigger] report_range(r[i]).covers(x) {
            let i = choose|i: int| 0 <= i < r.len() && #[trigger] report_range(r[i]).covers(x);
            if i < r0.len() {
                assert(report_range(r0[i]).covers(x));
                let j = choose|j: int| 0 <= j < e0.len() && #[trigger] event_covers(e0[j], x);
                assert(event_covers(events[j], x));
            } else {
                assert(event_covers(events[events.len() - 1], x));
            }
        }
        if exists|j: int| 0 <= j < events.len() && #[trigger] event_covers(events[j], x) {
            let j = choose|j: int| 0 <= j < events.len() && #[trigger] event_covers(events[j], x);
            if j < e0.len() {
                assert(event_covers(e0[j], x));
                let i = choose|i: int| 0 <= i < r0.len() && #[trigger] report_range(r0[i]).covers(x);
                assert(report_range(r[i]).covers(x));
            } else {
                assert(report_range(r[r.len() - 1]).covers(x));
            }
        }
    }
}

proof fn lemma_events_prefix(
    states: Seq<Map<Offset, Offset>>,
    events: Seq<Option<(Offset, Size)>>,
    n: int,
)
    requires
        states.len() == events.len() + 1,
        states[0] == Map::<Offset, Offset>::empty(),
        forall|i: int|
            #![trigger events[i]]
            0 <= i < events.len() ==> match events[i] {
                Some(report) => merged(states[i], report_range(report), states[i + 1]),
                None => states[i + 1] == states[i],
            },
        0 <= n <= events.len(),
    ensures
        canonical(states[n]),
        forall|x: int|
            covered(states[n], x) <==> exists|j: int|
                0 <= j < n && #[trigger] event_covers(events[j], x),
    decreases n,
{
    if n > 0 {
        lemma_events_prefix(states, events, n - 1);
        let e = events[n - 1];
        assert forall|x: int|
            covered(states[n], x) <==> exists|j: int|
                0 <= j < n && #[trigger] event_covers(events[j], x) by {
            assert(covered(states[n], x) <==> covered(states[n - 1], x) || event_covers(e, x));
            if exists|j: int| 0 <= j < n && #[trigger] event_covers(events[j], x) {
                let j = choose|j: int| 0 <= j < n && #[trigger] event_covers(events[j], x);
                if j < n - 1 {
                    assert(exists|k: int| 0 <= k < n - 1 && #[trigger] event_covers(events[k], x));
                }
            }
        }
    } else {
        assert forall|x: int| !covered(states[0], x) by {}
    }
}

/// The state manager answers each snapshot request with the progress of the reports received
/// before it: along any run of progress reports (`Some`) and snapshot requests (`None`), where a
/// report is handled by [`handle_progress_report`] and a request leaves the state as it is, the
/// state equals the one built by handling only those reports, in order, from no progress; so the
/// snapshot [`ranges_snapshot`] gives at that point lists the same ranges.
pub proof fn law_snapshots_follow_reports(
    states: Seq<Map<Offset, Offset>>,
    events: Seq<Option<(Offset, Size)>>,
    replay: Seq<Map<Offset, Offset>>,
)
    requires
        states.len() == events.len() + 1,
        states[0] == Map::<Offset, Offset>::empty(),
        forall|i: int|
            #![trigger events[i]]
            0 <= i < events.len() ==> match events[i] {
                Some(report) => merged(states[i], report_range(report), states[i + 1]),
                None => states[i + 1] == states[i],
            },
        replay.len() == reports_in(events).len() + 1,
        replay[0] == Map::<Offset, Offset>::empty(),
        forall|i: int|
            #![trigger reports_in(events)[i]]
            0 <= i < reports_in(events).len() ==> merged(
                replay[i],
                report_range(reports_in(events)[i]),
                replay[i + 1],
            ),
    ensures
        states.last() == replay.last(),
        listing(states.last()) == listing(replay.last()),
{
    let reports = reports_in(events);
    lemma_events_prefix(states, events, events.len() as int);
    assert forall|i: int| #![trigger reports[i]]
        0 <= i < reports.len() implies merged(replay[i], report_range(reports[i]), replay[i + 1]) by {
        assert(merged(replay[i], report_range(reports_in(events)[i]), replay[i + 1]));
    }
    lemma_reports_prefix(replay, reports, reports.len() as int);
    assert forall|x: int| covered(states.last(), x) == covered(replay.last(), x) by {
        lemma_reports_in_cover(events, x);
    }
    law_canonical_unique(states.last(), replay.last());
}


/// A progress report of `data_size` bytes at `offset` covers exactly the offsets from `offset`
/// up to, not including, `offset + data_size`; handling it records exactly those offsets on top
/// of the ones recorded before.
pub proof fn law_report_records_its_bytes(
    before: Map<Offset, Offset>,
    report: (Offset, Size),
    after: Map<Offset, Offset>,
)
    requires
        report.0 + report.1 <= u64::MAX,
        merged(before, report_range(report), after),
    ensures
        report_range(report) == (Range { start: report.0, end: (report.0 + report.1) as u64 }),
        forall|x: int|
            #[trigger] covered(after, x) <==> covered(before, x) || (report.0 <= x < report.0
                + report.1),
{
    assert forall|x: int| #[trigger] covered(after, x) <==> covered(before, x) || (report.0 <= x
        < report.0 + report.1) by {
        assert(covered(after, x) <==> covered(before, x) || report_range(report).covers(x));
    }
}

} // verus!
