//! Raw property-bag records and their normalization into typed event drafts.

use vstd::prelude::*;
use vstd::string::StringExecFns;
use crate::civil::Instant;
use crate::recurrence::rule_ok;
use crate::recurrence::rrule_check;
use crate::timestamp::parse_timestamp;
use crate::timestamp::parse_timestamp_spec;

verus! {

/// Mathematical model of an event: instants as integers, texts as sequences.
pub ghost struct EventModel {
    pub start: int,
    pub end: int,
    pub name: Seq<char>,
    pub location: Seq<char>,
    pub notes: Seq<char>,
}

/// A normalized single-occurrence event draft.
#[derive(Debug)]
pub struct EventDraft {
    pub start: Instant,
    pub end: Instant,
    pub name: String,
    pub location: String,
    pub notes: String,
}

impl View for EventDraft {
    type V = EventModel;

    open spec fn view(&self) -> EventModel {
        EventModel {
            start: self.start.secs as int,
            end: self.end.secs as int,
            name: self.name@,
            location: self.location@,
            notes: self.notes@,
        }
    }
}

/// One concrete, dated instance of an event on the timeline.
#[derive(Debug)]
pub struct Occurrence {
    pub start: Instant,
    pub end: Instant,
    pub name: String,
    pub location: String,
    pub notes: String,
}

impl View for Occurrence {
    type V = EventModel;

    open spec fn view(&self) -> EventModel {
        EventModel {
            start: self.start.secs as int,
            end: self.end.secs as int,
            name: self.name@,
            location: self.location@,
            notes: self.notes@,
        }
    }
}

impl Occurrence {
    /// An identical copy of the occurrence.
    pub fn duplicate(&self) -> (r: Occurrence)
        ensures
            r == *self,
    {
        Occurrence {
            start: self.start,
            end: self.end,
            name: self.name.clone(),
            location: self.location.clone(),
            notes: self.notes.clone(),
        }
    }
}

pub open spec fn occ_views(s: Seq<Occurrence>) -> Seq<EventModel> {
    s.map_values(|o: Occurrence| o@)
}

/// Mathematical model of a recurrence rule bound to its anchor instant.
pub ghost struct RuleModel {
    pub text: Seq<char>,
    pub anchor: int,
}

/// A recurrence rule expression that validated against its anchor instant.
#[derive(Debug)]
pub struct RecurrenceRule {
    pub text: String,
    pub anchor: Instant,
}

impl View for RecurrenceRule {
    type V = RuleModel;

    open spec fn view(&self) -> RuleModel {
        RuleModel { text: self.text@, anchor: self.anchor.secs as int }
    }
}

/// An externally supplied mapping from field name to string value.
#[derive(Debug)]
pub struct RawEventRecord {
    pub fields: Vec<(String, String)>,
}

impl View for RawEventRecord {
    type V = Seq<(Seq<char>, Seq<char>)>;

    open spec fn view(&self) -> Seq<(Seq<char>, Seq<char>)> {
        self.fields@.map_values(|p: (String, String)| (p.0@, p.1@))
    }
}

/// Why one record was dropped during normalization.
#[derive(Clone, Copy, PartialEq, Eq, Structural, Debug)]
pub enum NormalizeError {
    MissingRequiredField,
    MalformedTimestamp,
    MalformedRecurrenceRule,
}

/// The value of the first field with the given name, if any.
pub open spec fn lookup(r: Seq<(Seq<char>, Seq<char>)>, key: Seq<char>) -> Option<Seq<char>>
    decreases r.len(),
{
    if r.len() == 0 {
        None
    } else if r[0].0 == key {
        Some(r[0].1)
    } else {
        lookup(r.drop_first(), key)
    }
}

pub open spec fn or_default(o: Option<Seq<char>>, d: Seq<char>) -> Seq<char> {
    match o {
        Some(v) => v,
        None => d,
    }
}

/// What the normalizer yields for one raw record: a typed draft and an
/// optional validated recurrence rule, or the reason the record is dropped.
pub open spec fn normalize_spec(r: Seq<(Seq<char>, Seq<char>)>) -> Result<
    (EventModel, Option<RuleModel>),
    NormalizeError,
> {
    match lookup(r, "DTSTART"@) {
        None => Err(NormalizeError::MissingRequiredField),
        Some(st) => match parse_timestamp_spec(st) {
            None => Err(NormalizeError::MalformedTimestamp),
            Some(start) => match lookup(r, "DTEND"@) {
                None => Err(NormalizeError::MissingRequiredField),
                Some(et) => match parse_timestamp_spec(et) {
                    None => Err(NormalizeError::MalformedTimestamp),
                    Some(end) => {
                        let m = EventModel {
                            start: start,
                            end: end,
                            name: or_default(lookup(r, "SUMMARY"@), "Unknown Event"@),
                            location: or_default(lookup(r, "LOCATION"@), "No location"@),
                            notes: or_default(lookup(r, "DESCRIPTION"@), ""@),
                        };
                        match lookup(r, "RRULE"@) {
                            None => Ok((m, None)),
                            Some(rt) => if rule_ok(rt, start) {
                                Ok((m, Some(RuleModel { text: rt, anchor: start })))
                            } else {
                                Err(NormalizeError::MalformedRecurrenceRule)
                            },
                        }
                    },
                },
            },
        },
    }
}

fn find_field(rec: &RawEventRecord, key: &String) -> (r: Option<String>)
    ensures
        r is Some <==> lookup(rec@, key@) is Some,
        r matches Some(v) ==> lookup(rec@, key@) == Some(v@),
{
    let n = rec.fields.len();
    proof {
        assert(rec@.skip(0) =~= rec@);
    }
    let mut i: usize = 0;
    while i < n
        invariant
            0 <= i <= n,
            n == rec.fields@.len(),
            rec@.len() == n,
            lookup(rec@, key@) == lookup(rec@.skip(i as int), key@),
        decreases n - i,
    {
        proof {
            assert(rec@.skip(i as int)[0] == rec@[i as int]);
            assert(rec@[i as int] == (rec.fields@[i as int].0@, rec.fields@[i as int].1@));
        }
        let p = &rec.fields[i];
        if p.0 == *key {
            return Some(p.1.clone());
        }
        proof {
            assert(rec@.skip(i as int).drop_first() =~= rec@.skip(i as int + 1));
        }
        i = i + 1;
    }
    proof {
        assert(rec@.skip(n as int) =~= Seq::empty());
    }
    None
}

fn field_or(rec: &RawEventRecord, key: &String, default: &str) -> (r: String)
    ensures
        r@ == or_default(lookup(rec@, key@), default@),
{
    match find_field(rec, key) {
        Some(v) => v,
        None => String::from_str(default),
    }
}

/// Whether an exec normalization outcome agrees with the specified one.
pub open spec fn normalize_ok_matches(
    d: EventDraft,
    orule: Option<RecurrenceRule>,
    spec_r: Result<(EventModel, Option<RuleModel>), NormalizeError>,
) -> bool {
    match spec_r {
        Ok(p) => d@ == p.0 && (match orule {
            Some(ru) => p.1 == Some(ru@),
            None => p.1 is None,
        }),
        Err(_) => false,
    }
}

/// Normalizes one raw record into a typed draft, applying the fixed fallback
/// values for the optional descriptive fields and validating a recurrence
/// expression against the start instant when one is present.
pub fn normalize(rec: &RawEventRecord) -> (r: Result<
    (EventDraft, Option<RecurrenceRule>),
    NormalizeError,
>)
    ensures
        match r {
            Ok((d, orule)) => normalize_ok_matches(d, orule, normalize_spec(rec@)),
            Err(e) => normalize_spec(rec@) == Err::<(EventModel, Option<RuleModel>), NormalizeError>(
                e,
            ),
        },
        r matches Ok(p) ==> {
            &&& crate::timestamp::TS_MIN_SECS <= p.0.start.secs <= crate::timestamp::TS_MAX_SECS
            &&& crate::timestamp::TS_MIN_SECS <= p.0.end.secs <= crate::timestamp::TS_MAX_SECS
            &&& (p.1 matches Some(ru) ==> ru.anchor == p.0.start)
        },
{
    let key_start = String::from_str("DTSTART");
    let st = match find_field(rec, &key_start) {
        None => {
            return Err(NormalizeError::MissingRequiredField);
        },
        Some(v) => v,
    };
    let start = match parse_timestamp(st.as_str()) {
        None => {
            return Err(NormalizeError::MalformedTimestamp);
        },
        Some(inst) => inst,
    };
    let key_end = String::from_str("DTEND");
    let et = match find_field(rec, &key_end) {
        None => {
            return Err(NormalizeError::MissingRequiredField);
        },
        Some(v) => v,
    };
    let end = match parse_timestamp(et.as_str()) {
        None => {
            return Err(NormalizeError::MalformedTimestamp);
        },
        Some(inst) => inst,
    };
    let key_name = String::from_str("SUMMARY");
    let key_loc = String::from_str("LOCATION");
    let key_notes = String::from_str("DESCRIPTION");
    let name = field_or(rec, &key_name, "Unknown Event");
    let location = field_or(rec, &key_loc, "No location");
    let notes = field_or(rec, &key_notes, "");
    let draft = EventDraft { start, end, name, location, notes };
    let key_rule = String::from_str("RRULE");
    match find_field(rec, &key_rule) {
        None => Ok((draft, None)),
        Some(rt) => {
            if rrule_check(rt.as_str(), start.secs) {
                Ok((draft, Some(RecurrenceRule { text: rt, anchor: start })))
            } else {
                Err(NormalizeError::MalformedRecurrenceRule)
            }
        },
    }
}

} // verus!
