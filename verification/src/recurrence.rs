//! Expansion of recurrence rules into bounded sets of concrete occurrences.
//!
//! Rule parsing, validation and instant enumeration are delegated to the
//! `rrule` crate behind trusted wrappers; everything around the calls —
//! duration preservation, the occurrence cap, and the shape of the result —
//! is verified.

use vstd::prelude::*;
use crate::civil::Instant;
use crate::record::EventDraft;
use crate::record::EventModel;
use crate::record::Occurrence;
use crate::record::RecurrenceRule;
use crate::record::RuleModel;
use crate::record::occ_views;
use crate::timestamp::TS_MAX_SECS;
use crate::timestamp::TS_MIN_SECS;

verus! {

/// Never more than this many occurrence instants are produced per rule.
pub const OCCURRENCE_CAP: u16 = 256;

/// Whether the rule text parses and validates against the anchor instant,
/// taken in UTC. Decided by the `rrule` crate; a function of its arguments.
pub uninterp spec fn rule_ok(text: Seq<char>, anchor: int) -> bool;

/// The capped, ordered list of occurrence instants (seconds since the epoch)
/// that the `rrule` crate enumerates for the rule anchored at `anchor`,
/// constrained to `[after, before]` and cut off at `limit` entries. A
/// function of its arguments alone.
pub uninterp spec fn rule_instants(
    text: Seq<char>,
    anchor: int,
    after: int,
    before: int,
    limit: int,
) -> Seq<int>;

/// Relies on rrule's `RRule::from_str` and `RRule::validate`: both are
/// deterministic in the rule text and the anchor instant, and succeed exactly
/// when the text is a well-formed rule that is valid for that anchor.
#[verifier::external_body]
pub(crate) fn rrule_check(text: &str, anchor: i64) -> (r: bool)
    requires
        TS_MIN_SECS <= anchor <= TS_MAX_SECS,
    ensures
        r == rule_ok(text@, anchor as int),
{
    let Some(dt) = chrono::DateTime::from_timestamp(anchor, 0) else {
        return false;
    };
    let dt = dt.with_timezone(&rrule::Tz::UTC);
    match text.parse::<rrule::RRule<rrule::Unvalidated>>() {
        Ok(unvalidated) => unvalidated.validate(dt).is_ok(),
        Err(_) => false,
    }
}

/// Relies on rrule's `RRule::from_str`, `RRule::validate`, and
/// `RRuleSet::{new, after, before, rrule, all}`: `all(limit)` collects at
/// most `limit` occurrence instants, each within the inclusive `[after,
/// before]` range (`collect_with_error` is called with `inclusive` set), all
/// deterministic in the arguments.
#[verifier::external_body]
fn rrule_expand(text: &str, anchor: i64, after: i64, before: i64, limit: u16) -> (r: Option<
    Vec<i64>,
>)
    requires
        TS_MIN_SECS <= anchor <= TS_MAX_SECS,
        TS_MIN_SECS <= after <= TS_MAX_SECS,
        TS_MIN_SECS <= before <= TS_MAX_SECS,
    ensures
        r is Some <==> rule_ok(text@, anchor as int),
        r matches Some(v) ==> v@.map_values(|t: i64| t as int) == rule_instants(
            text@,
            anchor as int,
            after as int,
            before as int,
            limit as int,
        ),
        r matches Some(v) ==> v@.len() <= limit,
        r matches Some(v) ==> forall|k: int|
            0 <= k < v@.len() ==> after <= #[trigger] v@[k] <= before,
{
    let tz = rrule::Tz::UTC;
    let anchor_dt = chrono::DateTime::from_timestamp(anchor, 0)?.with_timezone(&tz);
    let after_dt = chrono::DateTime::from_timestamp(after, 0)?.with_timezone(&tz);
    let before_dt = chrono::DateTime::from_timestamp(before, 0)?.with_timezone(&tz);
    let unvalidated: rrule::RRule<rrule::Unvalidated> = text.parse().ok()?;
    let validated = unvalidated.validate(anchor_dt).ok()?;
    let result = rrule::RRuleSet::new(anchor_dt).after(after_dt).before(before_dt).rrule(
        validated,
    ).all(limit);
    Some(result.dates.into_iter().map(|d| d.timestamp()).collect())
}

/// The occurrences implied by a rule for a draft: each enumerated instant,
/// paired with an end that preserves the draft's duration, carrying the
/// draft's descriptive fields.
pub open spec fn expand_spec(d: EventModel, rm: RuleModel, ws: int, we: int) -> Seq<EventModel> {
    rule_instants(rm.text, rm.anchor, ws, we, OCCURRENCE_CAP as int).map_values(
        |t: int| EventModel { start: t, end: t + d.end - d.start, ..d },
    )
}

/// Every occurrence of an expansion preserves the source draft's duration:
/// when the draft's end is its start plus a fixed number of seconds, so is
/// every expanded occurrence's.
pub proof fn lemma_duration_preserved(d: EventModel, rm: RuleModel, ws: int, we: int)
    ensures
        forall|k: int|
            0 <= k < expand_spec(d, rm, ws, we).len() ==> (#[trigger] expand_spec(d, rm, ws, we)[k]).end
                - expand_spec(d, rm, ws, we)[k].start == d.end - d.start,
{
}

/// Expands a recurrence rule anchored to a draft into the capped, ordered
/// set of concrete occurrences within the visibility window. Yields nothing
/// exactly when the rule text does not validate against its anchor; every
/// produced occurrence preserves the draft's duration, and never more than
/// the cap are produced.
pub fn expand_occurrences(
    draft: &EventDraft,
    rule: &RecurrenceRule,
    window_start: Instant,
    window_end: Instant,
) -> (r: Option<Vec<Occurrence>>)
    requires
        TS_MIN_SECS <= draft.start.secs <= TS_MAX_SECS,
        TS_MIN_SECS <= draft.end.secs <= TS_MAX_SECS,
        TS_MIN_SECS <= rule.anchor.secs <= TS_MAX_SECS,
        TS_MIN_SECS <= window_start.secs <= TS_MAX_SECS,
        TS_MIN_SECS <= window_end.secs <= TS_MAX_SECS,
    ensures
        r is Some <==> rule_ok(rule.text@, rule.anchor.secs as int),
        r matches Some(v) ==> occ_views(v@) == expand_spec(
            draft@,
            rule@,
            window_start.secs as int,
            window_end.secs as int,
        ),
        r matches Some(v) ==> v@.len() <= OCCURRENCE_CAP,
        r matches Some(v) ==> forall|k: int|
            0 <= k < v@.len() ==> (#[trigger] v@[k]).end.secs - v@[k].start.secs
                == draft.end.secs - draft.start.secs,
{
    let ts = match rrule_expand(
        rule.text.as_str(),
        rule.anchor.secs,
        window_start.secs,
        window_end.secs,
        OCCURRENCE_CAP,
    ) {
        None => {
            return None;
        },
        Some(v) => v,
    };
    let ghost spec_out = expand_spec(
        draft@,
        rule@,
        window_start.secs as int,
        window_end.secs as int,
    );
    let delta = draft.end.secs - draft.start.secs;
    let mut out: Vec<Occurrence> = Vec::new();
    let mut i: usize = 0;
    while i < ts.len()
        invariant
            0 <= i <= ts@.len(),
            delta == draft.end.secs - draft.start.secs,
            TS_MIN_SECS <= draft.start.secs <= TS_MAX_SECS,
            TS_MIN_SECS <= draft.end.secs <= TS_MAX_SECS,
            forall|k: int|
                0 <= k < ts@.len() ==> TS_MIN_SECS <= #[trigger] ts@[k] <= TS_MAX_SECS,
            spec_out == ts@.map_values(|t: i64| t as int).map_values(
                |t: int| EventModel { start: t, end: t + draft@.end - draft@.start, ..draft@ },
            ),
            out@.len() == i,
            forall|k: int| 0 <= k < i ==> #[trigger] out@[k]@ == spec_out[k],
            forall|k: int|
                0 <= k < i ==> (#[trigger] out@[k]).end.secs - out@[k].start.secs == delta,
        decreases ts@.len() - i,
    {
        let t = ts[i];
        out.push(
            Occurrence {
                start: Instant { secs: t },
                end: Instant { secs: t + delta },
                name: draft.name.clone(),
                location: draft.location.clone(),
                notes: draft.notes.clone(),
            },
        );
        i = i + 1;
    }
    proof {
        assert(occ_views(out@) =~= spec_out);
    }
    Some(out)
}

} // verus!
