//! Merging, window filtering and ordering of occurrences into the final
//! timeline, and the end-to-end pipeline over raw records.

use vstd::prelude::*;
use crate::civil::Instant;
use crate::record::EventModel;
use crate::record::NormalizeError;
use crate::record::Occurrence;
use crate::record::RawEventRecord;
use crate::record::RuleModel;
use crate::record::normalize;
use crate::record::normalize_spec;
use crate::record::occ_views;
use crate::recurrence::expand_occurrences;
use crate::recurrence::expand_spec;
use crate::timestamp::TS_MAX_SECS;
use crate::timestamp::TS_MIN_SECS;

verus! {

/// Seconds in the fixed look-back span of the visibility window.
pub const TWO_WEEKS_SECS: i64 = 1209600;

/// Seconds in the fixed look-ahead span of the visibility window.
pub const ONE_WEEK_SECS: i64 = 604800;

/// Both window bounds are exclusive.
pub open spec fn in_window(t: int, ws: int, we: int) -> bool {
    ws < t && t < we
}

/// The subsequence whose start instants lie strictly inside the window.
pub open spec fn window_filter(s: Seq<EventModel>, ws: int, we: int) -> Seq<EventModel>
    decreases s.len(),
{
    if s.len() == 0 {
        Seq::empty()
    } else {
        let rest = window_filter(s.drop_last(), ws, we);
        if in_window(s.last().start, ws, we) {
            rest.push(s.last())
        } else {
            rest
        }
    }
}

/// Insertion after every element whose start is not later, so that equal
/// starts keep their existing order.
pub open spec fn insert_by_start(x: EventModel, s: Seq<EventModel>) -> Seq<EventModel>
    decreases s.len(),
{
    if s.len() == 0 {
        seq![x]
    } else if s.last().start <= x.start {
        s.push(x)
    } else {
        insert_by_start(x, s.drop_last()).push(s.last())
    }
}

/// Stable insertion sort by start instant.
pub open spec fn sort_by_start(s: Seq<EventModel>) -> Seq<EventModel>
    decreases s.len(),
{
    if s.len() == 0 {
        Seq::empty()
    } else {
        insert_by_start(s.last(), sort_by_start(s.drop_last()))
    }
}

pub open spec fn sorted_by_start(s: Seq<EventModel>) -> bool {
    forall|i: int, j: int| 0 <= i < j < s.len() ==> s[i].start <= s[j].start
}

/// The final timeline for a merged collection: filtered to the window, then
/// stably ordered by start instant.
pub open spec fn timeline_spec(s: Seq<EventModel>, ws: int, we: int) -> Seq<EventModel> {
    sort_by_start(window_filter(s, ws, we))
}

proof fn lemma_insert_props(x: EventModel, s: Seq<EventModel>)
    requires
        sorted_by_start(s),
    ensures
        sorted_by_start(insert_by_start(x, s)),
        insert_by_start(x, s).len() == s.len() + 1,
        forall|y: EventModel|
            #[trigger] insert_by_start(x, s).contains(y) <==> (y == x || s.contains(y)),
    decreases s.len(),
{
    let out = insert_by_start(x, s);
    if s.len() == 0 {
        assert(out =~= seq![x]);
        assert(out[0] == x);
        assert forall|y: EventModel| #[trigger] out.contains(y) implies (y == x || s.contains(
            y,
        )) by {}
        assert(out.contains(x));
    } else if s.last().start <= x.start {
        assert(out =~= s.push(x));
        assert forall|y: EventModel| #[trigger] out.contains(y) implies (y == x || s.contains(
            y,
        )) by {
            let k = choose|k: int| 0 <= k < out.len() && out[k] == y;
            if k < s.len() {
                assert(s[k] == y);
            }
        }
        assert forall|y: EventModel| (y == x || s.contains(y)) implies #[trigger] out.contains(
            y,
        ) by {
            if y == x {
                assert(out[s.len() as int] == x);
            } else {
                let k = choose|k: int| 0 <= k < s.len() && s[k] == y;
                assert(out[k] == y);
            }
        }
        assert forall|i: int, j: int| 0 <= i < j < out.len() implies out[i].start
            <= out[j].start by {
            if j == s.len() {
                assert(s[i].start <= s.last().start);
            }
        }
    } else {
        let t = s.drop_last();
        assert(sorted_by_start(t)) by {
            assert forall|i: int, j: int| 0 <= i < j < t.len() implies t[i].start
                <= t[j].start by {
                assert(s[i].start <= s[j].start);
            }
        }
        lemma_insert_props(x, t);
        let inner = insert_by_start(x, t);
        assert(out =~= inner.push(s.last()));
        assert forall|i: int, j: int| 0 <= i < j < out.len() implies out[i].start
            <= out[j].start by {
            if j == inner.len() {
                assert(inner.contains(inner[i]));
                if inner[i] == x {
                } else {
                    let k = choose|k: int| 0 <= k < t.len() && t[k] == inner[i];
                    assert(s[k].start <= s.last().start);
                }
            }
        }
        assert forall|y: EventModel| #[trigger] out.contains(y) implies (y == x || s.contains(
            y,
        )) by {
            let k = choose|k: int| 0 <= k < out.len() && out[k] == y;
            if k < inner.len() {
                assert(inner.contains(y));
                if y != x {
                    let k2 = choose|k2: int| 0 <= k2 < t.len() && t[k2] == y;
                    assert(s[k2] == y);
                }
            } else {
                assert(s[s.len() - 1] == y);
            }
        }
        assert forall|y: EventModel| (y == x || s.contains(y)) implies #[trigger] out.contains(
            y,
        ) by {
            if y == x || t.contains(y) {
                assert(inner.contains(y));
                let k = choose|k: int| 0 <= k < inner.len() && inner[k] == y;
                assert(out[k] == y);
            } else {
                let k = choose|k: int| 0 <= k < s.len() && s[k] == y;
                if k < s.len() - 1 {
                    assert(t[k] == y);
                    assert(inner.contains(y));
                    let k2 = choose|k2: int| 0 <= k2 < inner.len() && inner[k2] == y;
                    assert(out[k2] == y);
                } else {
                    assert(out[out.len() - 1] == y);
                }
            }
        }
    }
}

proof fn lemma_sort_props(s: Seq<EventModel>)
    ensures
        sorted_by_start(sort_by_start(s)),
        sort_by_start(s).len() == s.len(),
        forall|y: EventModel| #[trigger] sort_by_start(s).contains(y) <==> s.contains(y),
    decreases s.len(),
{
    if s.len() > 0 {
        let t = s.drop_last();
        lemma_sort_props(t);
        lemma_insert_props(s.last(), sort_by_start(t));
        assert forall|y: EventModel| #[trigger] sort_by_start(s).contains(y) implies s.contains(
            y,
        ) by {
            if y == s.last() {
                assert(s[s.len() - 1] == y);
            } else {
                assert(sort_by_start(t).contains(y));
                let k = choose|k: int| 0 <= k < t.len() && t[k] == y;
                assert(s[k] == y);
            }
        }
        assert forall|y: EventModel| s.contains(y) implies #[trigger] sort_by_start(s).contains(
            y,
        ) by {
            let k = choose|k: int| 0 <= k < s.len() && s[k] == y;
            if k < s.len() - 1 {
                assert(t[k] == y);
            }
        }
    }
}

proof fn lemma_sort_of_sorted(s: Seq<EventModel>)
    requires
        sorted_by_start(s),
    ensures
        sort_by_start(s) == s,
    decreases s.len(),
{
    if s.len() > 0 {
        let t = s.drop_last();
        assert(sorted_by_start(t)) by {
            assert forall|i: int, j: int| 0 <= i < j < t.len() implies t[i].start
                <= t[j].start by {
                assert(s[i].start <= s[j].start);
            }
        }
        lemma_sort_of_sorted(t);
        if t.len() == 0 {
            assert(sort_by_start(s) =~= s);
        } else {
            assert(t.last().start <= s.last().start) by {
                assert(s[s.len() - 2].start <= s[s.len() - 1].start);
            }
            assert(sort_by_start(s) =~= s);
        }
    }
}

proof fn lemma_filter_props(s: Seq<EventModel>, ws: int, we: int)
    ensures
        window_filter(s, ws, we).len() <= s.len(),
        forall|y: EventModel|
            #[trigger] window_filter(s, ws, we).contains(y) <==> (s.contains(y) && in_window(
                y.start,
                ws,
                we,
            )),
    decreases s.len(),
{
    let out = window_filter(s, ws, we);
    if s.len() > 0 {
        let t = s.drop_last();
        lemma_filter_props(t, ws, we);
        let rest = window_filter(t, ws, we);
        assert forall|y: EventModel| #[trigger] out.contains(y) implies (s.contains(y)
            && in_window(y.start, ws, we)) by {
            let k = choose|k: int| 0 <= k < out.len() && out[k] == y;
            if in_window(s.last().start, ws, we) && k == out.len() - 1 {
                assert(y == s.last());
                assert(s[s.len() - 1] == y);
            } else {
                assert(rest.contains(y));
                let k2 = choose|k2: int| 0 <= k2 < t.len() && t[k2] == y;
                assert(s[k2] == y);
            }
        }
        assert forall|y: EventModel| (s.contains(y) && in_window(y.start, ws, we)) implies
            #[trigger] out.contains(y) by {
            let k = choose|k: int| 0 <= k < s.len() && s[k] == y;
            if k < s.len() - 1 {
                assert(t[k] == y);
                assert(rest.contains(y));
                let k2 = choose|k2: int| 0 <= k2 < rest.len() && rest[k2] == y;
                assert(out[k2] == y);
            } else {
                assert(out[out.len() - 1] == y);
            }
        }
    }
}

proof fn lemma_filter_of_all_in(s: Seq<EventModel>, ws: int, we: int)
    requires
        forall|k: int| 0 <= k < s.len() ==> in_window((#[trigger] s[k]).start, ws, we),
    ensures
        window_filter(s, ws, we) == s,
    decreases s.len(),
{
    if s.len() > 0 {
        let t = s.drop_last();
        assert forall|k: int| 0 <= k < t.len() implies in_window(
            (#[trigger] t[k]).start,
            ws,
            we,
        ) by {
            assert(in_window(s[k].start, ws, we));
        }
        lemma_filter_of_all_in(t, ws, we);
        assert(in_window(s[s.len() - 1].start, ws, we));
        assert(window_filter(s, ws, we) =~= s);
    }
}

/// Running the window filter and ordering twice on its own output changes
/// nothing: the timeline is a fixed point of the merge stage.
pub proof fn lemma_timeline_idempotent(s: Seq<EventModel>, ws: int, we: int)
    ensures
        timeline_spec(timeline_spec(s, ws, we), ws, we) == timeline_spec(s, ws, we),
{
    let f = window_filter(s, ws, we);
    let t = sort_by_start(f);
    lemma_filter_props(s, ws, we);
    lemma_sort_props(f);
    assert forall|k: int| 0 <= k < t.len() implies in_window(
        (#[trigger] t[k]).start,
        ws,
        we,
    ) by {
        assert(t.contains(t[k]));
    }
    lemma_filter_of_all_in(t, ws, we);
    lemma_sort_of_sorted(t);
}

/// Both window bounds are exclusive: an occurrence starting exactly at a
/// bound never reaches the timeline, while any merged occurrence starting
/// strictly inside the window always does.
pub proof fn lemma_window_boundary(s: Seq<EventModel>, ws: int, we: int, m: EventModel)
    ensures
        (m.start == ws || m.start == we) ==> !timeline_spec(s, ws, we).contains(m),
        s.contains(m) && ws < m.start < we ==> timeline_spec(s, ws, we).contains(m),
{
    lemma_filter_props(s, ws, we);
    lemma_sort_props(window_filter(s, ws, we));
}

fn filter_occurrences(events: &Vec<Occurrence>, ws: Instant, we: Instant) -> (r: Vec<Occurrence>)
    ensures
        occ_views(r@) == window_filter(occ_views(events@), ws.secs as int, we.secs as int),
{
    let ghost v = occ_views(events@);
    let mut kept: Vec<Occurrence> = Vec::new();
    let mut i: usize = 0;
    while i < events.len()
        invariant
            0 <= i <= events@.len(),
            v == occ_views(events@),
            occ_views(kept@) =~= window_filter(v.take(i as int), ws.secs as int, we.secs as int),
        decreases events@.len() - i,
    {
        proof {
            assert(v.take(i as int + 1).drop_last() =~= v.take(i as int));
            assert(v.take(i as int + 1).last() == v[i as int]);
        }
        let o = &events[i];
        if ws.secs < o.start.secs && o.start.secs < we.secs {
            kept.push(o.duplicate());
        }
        i = i + 1;
        proof {
            assert(occ_views(kept@) =~= window_filter(
                v.take(i as int),
                ws.secs as int,
                we.secs as int,
            ));
        }
    }
    proof {
        assert(v.take(events@.len() as int) =~= v);
    }
    kept
}

proof fn lemma_insert_at(x: EventModel, s: Seq<EventModel>, j: int)
    requires
        sorted_by_start(s),
        0 <= j <= s.len(),
        j > 0 ==> s[j - 1].start <= x.start,
        forall|k: int| j <= k < s.len() ==> (#[trigger] s[k]).start > x.start,
    ensures
        s.insert(j, x) == insert_by_start(x, s),
    decreases s.len(),
{
    if j == s.len() {
        if s.len() == 0 {
            assert(s.insert(j, x) =~= seq![x]);
        } else {
            assert(s.last().start <= x.start);
            assert(s.insert(j, x) =~= s.push(x));
        }
    } else {
        assert(s.last().start > x.start);
        let t = s.drop_last();
        assert(sorted_by_start(t)) by {
            assert forall|i2: int, j2: int| 0 <= i2 < j2 < t.len() implies t[i2].start
                <= t[j2].start by {
                assert(s[i2].start <= s[j2].start);
            }
        }
        assert forall|k: int| j <= k < t.len() implies (#[trigger] t[k]).start > x.start by {
            assert(s[k].start > x.start);
        }
        lemma_insert_at(x, t, j);
        assert(s.insert(j, x) =~= t.insert(j, x).push(s.last()));
    }
}

fn sort_occurrences(events: Vec<Occurrence>) -> (r: Vec<Occurrence>)
    ensures
        occ_views(r@) == sort_by_start(occ_views(events@)),
{
    let ghost v = occ_views(events@);
    let mut out: Vec<Occurrence> = Vec::new();
    let mut i: usize = 0;
    while i < events.len()
        invariant
            0 <= i <= events@.len(),
            v == occ_views(events@),
            occ_views(out@) =~= sort_by_start(v.take(i as int)),
            sorted_by_start(occ_views(out@)),
            out@.len() == i,
        decreases events@.len() - i,
    {
        proof {
            assert(v.take(i as int + 1).drop_last() =~= v.take(i as int));
            assert(v.take(i as int + 1).last() == v[i as int]);
        }
        let x = events[i].duplicate();
        let mut j: usize = out.len();
        while j > 0 && out[j - 1].start.secs > x.start.secs
            invariant
                0 <= j <= out@.len(),
                forall|k: int|
                    j <= k < out@.len() ==> (#[trigger] out@[k]).start.secs > x.start.secs,
            decreases j,
        {
            j = j - 1;
        }
        proof {
            let ov = occ_views(out@);
            assert forall|k: int| j <= k < ov.len() implies (#[trigger] ov[k]).start
                > x@.start by {
                assert(out@[k].start.secs > x.start.secs);
            }
            if j > 0 {
                assert(ov[j as int - 1] == out@[j as int - 1]@);
            }
            lemma_insert_at(x@, ov, j as int);
        }
        let ghost prev = occ_views(out@);
        out.insert(j, x);
        proof {
            assert(occ_views(out@) =~= prev.insert(j as int, x@));
            lemma_sort_props(v.take(i as int + 1));
            assert(sorted_by_start(occ_views(out@))) by {
                lemma_insert_props(x@, prev);
            }
        }
        i = i + 1;
    }
    proof {
        assert(v.take(events@.len() as int) =~= v);
    }
    out
}

/// Builds the final timeline from a merged collection of occurrences:
/// retains exactly the entries whose start lies strictly inside the window,
/// stably ordered by start instant.
pub fn build_timeline(events: Vec<Occurrence>, window_start: Instant, window_end: Instant) -> (r:
    Vec<Occurrence>)
    ensures
        occ_views(r@) == timeline_spec(
            occ_views(events@),
            window_start.secs as int,
            window_end.secs as int,
        ),
{
    let kept = filter_occurrences(&events, window_start, window_end);
    sort_occurrences(kept)
}

pub open spec fn records_view(v: Seq<RawEventRecord>) -> Seq<Seq<(Seq<char>, Seq<char>)>> {
    v.map_values(|r: RawEventRecord| r@)
}

/// The occurrences one raw record contributes to the merge: none when it is
/// dropped, itself when non-recurring, its bounded expansion otherwise.
pub open spec fn record_models(r: Seq<(Seq<char>, Seq<char>)>, ws: int, we: int) -> Seq<
    EventModel,
> {
    match normalize_spec(r) {
        Err(_) => Seq::empty(),
        Ok(p) => match p.1 {
            None => seq![p.0],
            Some(rm) => expand_spec(p.0, rm, ws, we),
        },
    }
}

/// The merged, unfiltered collection contributed by a list of raw records,
/// in record order.
pub open spec fn merged_models(rs: Seq<Seq<(Seq<char>, Seq<char>)>>, ws: int, we: int) -> Seq<
    EventModel,
>
    decreases rs.len(),
{
    if rs.len() == 0 {
        Seq::empty()
    } else {
        merged_models(rs.drop_last(), ws, we) + record_models(rs.last(), ws, we)
    }
}

/// The timeline implied by a list of raw records and a visibility window.
pub open spec fn process_spec(rs: Seq<Seq<(Seq<char>, Seq<char>)>>, ws: int, we: int) -> Seq<
    EventModel,
> {
    timeline_spec(merged_models(rs, ws, we), ws, we)
}

/// Runs the whole engine: normalizes every record, expands recurring ones,
/// merges, filters to the window and orders the result. Records that fail
/// normalization are dropped without affecting their siblings.
pub fn process_records(records: &Vec<RawEventRecord>, window_start: Instant, window_end: Instant)
    -> (r: Vec<Occurrence>)
    requires
        TS_MIN_SECS <= window_start.secs <= TS_MAX_SECS,
        TS_MIN_SECS <= window_end.secs <= TS_MAX_SECS,
    ensures
        occ_views(r@) == process_spec(
            records_view(records@),
            window_start.secs as int,
            window_end.secs as int,
        ),
{
    let ghost rv = records_view(records@);
    let ghost ws = window_start.secs as int;
    let ghost we = window_end.secs as int;
    let mut merged: Vec<Occurrence> = Vec::new();
    let mut i: usize = 0;
    while i < records.len()
        invariant
            0 <= i <= records@.len(),
            rv == records_view(records@),
            ws == window_start.secs as int,
            we == window_end.secs as int,
            TS_MIN_SECS <= window_start.secs <= TS_MAX_SECS,
            TS_MIN_SECS <= window_end.secs <= TS_MAX_SECS,
            occ_views(merged@) =~= merged_models(rv.take(i as int), ws, we),
        decreases records@.len() - i,
    {
        proof {
            assert(rv.take(i as int + 1).drop_last() =~= rv.take(i as int));
            assert(rv.take(i as int + 1).last() == rv[i as int]);
        }
        let ghost before = occ_views(merged@);
        let rec = &records[i];
        match normalize(rec) {
            Err(_) => {
                proof {
                    assert(occ_views(merged@) =~= before + record_models(rv[i as int], ws, we));
                }
            },
            Ok((draft, orule)) => {
                match orule {
                    None => {
                        merged.push(
                            Occurrence {
                                start: draft.start,
                                end: draft.end,
                                name: draft.name,
                                location: draft.location,
                                notes: draft.notes,
                            },
                        );
                        proof {
                            assert(occ_views(merged@) =~= before + record_models(
                                rv[i as int],
                                ws,
                                we,
                            ));
                        }
                    },
                    Some(rule) => {
                        match expand_occurrences(&draft, &rule, window_start, window_end) {
                            None => {
                                proof {
                                    assert(false);
                                }
                            },
                            Some(mut occs) => {
                                proof {
                                    assert(occ_views(occs@) == expand_spec(
                                        draft@,
                                        rule@,
                                        ws,
                                        we,
                                    ));
                                }
                                merged.append(&mut occs);
                                proof {
                                    assert(occ_views(merged@) =~= before + record_models(
                                        rv[i as int],
                                        ws,
                                        we,
                                    ));
                                }
                            },
                        }
                    },
                }
            },
        }
        i = i + 1;
    }
    proof {
        assert(rv.take(records@.len() as int) =~= rv);
    }
    build_timeline(merged, window_start, window_end)
}

/// The fixed visibility window around the current instant: two weeks back,
/// one week ahead.
pub fn window_bounds(now: Instant) -> (r: (Instant, Instant))
    requires
        TS_MIN_SECS + TWO_WEEKS_SECS <= now.secs,
        now.secs <= TS_MAX_SECS - ONE_WEEK_SECS,
    ensures
        r.0.secs == now.secs - TWO_WEEKS_SECS,
        r.1.secs == now.secs + ONE_WEEK_SECS,
        TS_MIN_SECS <= r.0.secs <= TS_MAX_SECS,
        TS_MIN_SECS <= r.1.secs <= TS_MAX_SECS,
{
    (Instant { secs: now.secs - TWO_WEEKS_SECS }, Instant { secs: now.secs + ONE_WEEK_SECS })
}

} // verus!
