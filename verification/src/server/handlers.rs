//! What the RPC server makes of an activity a client sets: the button
//! labels and urls are split, timestamps in seconds become milliseconds,
//! and the instance flag becomes a bit.
use vstd::prelude::*;
use crate::outside::clock_millis;
use crate::server::types::{Activity, ActivityMetadata, Button, ProcessedActivity, Timestamps};
use crate::text::{chars_of, decimal, decimal_chars, string_from_chars, string_views};

verus! {

/// A timestamp counts as seconds when it has at least three digits fewer
/// than the clock's reading in milliseconds; one with as many digits as the
/// reading, or more, never does.
pub open spec fn counts_as_seconds(timestamp: u64, now_ms: nat) -> bool {
    decimal(now_ms).len() - decimal(timestamp as nat).len() > 2
}

/// The timestamp can be handled at the clock reading: when it counts as
/// seconds, its value in milliseconds fits in 64 bits.
pub open spec fn timestamp_handled(ts: Option<u64>, now_ms: nat) -> bool {
    match ts {
        None => true,
        Some(t) => counts_as_seconds(t, now_ms) ==> t * 1000 <= u64::MAX,
    }
}

/// The timestamp in milliseconds.
pub open spec fn in_millis(ts: Option<u64>, now_ms: nat) -> Option<u64> {
    match ts {
        None => None,
        Some(t) => if counts_as_seconds(t, now_ms) {
            Some((t * 1000) as u64)
        } else {
            Some(t)
        },
    }
}

/// Every timestamp of the activity can be handled at the clock reading.
pub open spec fn activity_handled(a: Activity, now_ms: nat) -> bool {
    match a.timestamps {
        None => true,
        Some(ts) => timestamp_handled(ts.start, now_ms) && timestamp_handled(ts.end, now_ms),
    }
}

/// The urls of the buttons.
pub open spec fn button_urls(bs: Seq<Button>) -> Seq<Seq<char>> {
    Seq::new(bs.len(), |i: int| bs[i].url@)
}

/// The labels of the buttons.
pub open spec fn button_labels(bs: Seq<Button>) -> Seq<Seq<char>> {
    Seq::new(bs.len(), |i: int| bs[i].label@)
}

/// `p` is what the server makes of the activity `a` set by the client
/// `client_id` at the clock reading `now_ms`.
pub open spec fn processes_to(a: Activity, client_id: Seq<char>, now_ms: nat, p: ProcessedActivity) -> bool {
    &&& p.application_id@ == client_id
    &&& p.name@ == match a.name {
        Some(n) => n@,
        None => Seq::empty(),
    }
    &&& p.details == a.details
    &&& p.state == a.state
    &&& p.assets == a.assets
    &&& p.party == a.party
    &&& p.secrets == a.secrets
    &&& p.activity_type == a.activity_type
    &&& p.flags == (if a.instance == Some(true) { 1u32 } else { 0u32 })
    &&& match a.timestamps {
        None => p.timestamps is None,
        Some(ts) => p.timestamps == Some(Timestamps { start: in_millis(ts.start, now_ms), end: in_millis(ts.end, now_ms) }),
    }
    &&& match a.buttons {
        None => p.metadata.button_urls is None && p.buttons is None,
        Some(bs) => (p.metadata.button_urls matches Some(u) && string_views(u@) == button_urls(bs@))
            && (p.buttons matches Some(l) && string_views(l@) == button_labels(bs@)),
    }
}

/// Whether a timestamp counts as seconds at the clock reading `now_ms`.
pub fn needs_ms_conversion_at(timestamp: u64, now_ms: u128) -> (r: bool)
    ensures
        r == counts_as_seconds(timestamp, now_ms as nat),
{
    let now_str = decimal_chars(now_ms);
    let ts_str = decimal_chars(timestamp as u128);
    if ts_str.len() >= now_str.len() {
        false
    } else {
        now_str.len() - ts_str.len() > 2
    }
}

/// Whether a timestamp counts as seconds, given what the clock read (`None`
/// for a clock set before the epoch): `None` when there is no reading.
pub open spec fn conversion_given(timestamp: u64, now: Option<u128>) -> Option<bool> {
    match now {
        None => None,
        Some(n) => Some(counts_as_seconds(timestamp, n as nat)),
    }
}

/// Whether a timestamp counts as seconds, given what the clock read.
pub fn needs_ms_conversion_given(timestamp: u64, now: Option<u128>) -> (r: Option<bool>)
    ensures
        r == conversion_given(timestamp, now),
{
    match now {
        None => None,
        Some(n) => Some(needs_ms_conversion_at(timestamp, n)),
    }
}

/// Whether a timestamp counts as seconds now; `None` when the clock is set
/// before the epoch.
pub fn needs_ms_conversion(timestamp: u64) -> (r: Option<bool>)
    ensures
        exists|now: Option<u128>| r == conversion_given(timestamp, now),
{
    let now = clock_millis();
    let r = needs_ms_conversion_given(timestamp, now);
    assert(r == conversion_given(timestamp, now));
    r
}

/// A timestamp in milliseconds.
fn timestamp_in_millis(ts: Option<u64>, now_ms: u128) -> (r: Option<u64>)
    requires
        timestamp_handled(ts, now_ms as nat),
    ensures
        r == in_millis(ts, now_ms as nat),
{
    match ts {
        None => None,
        Some(t) => if needs_ms_conversion_at(t, now_ms) {
            Some(t * 1000)
        } else {
            Some(t)
        },
    }
}

/// Whether a timestamp can be handled at the clock reading.
fn timestamp_ok(ts: Option<u64>, now_ms: u128) -> (r: bool)
    ensures
        r == timestamp_handled(ts, now_ms as nat),
{
    match ts {
        None => true,
        Some(t) => if needs_ms_conversion_at(t, now_ms) {
            t <= u64::MAX / 1000
        } else {
            true
        },
    }
}

/// The urls and the labels of the buttons.
fn split_buttons(buttons: &Vec<Button>) -> (r: (Vec<String>, Vec<String>))
    ensures
        string_views(r.0@) == button_urls(buttons@),
        string_views(r.1@) == button_labels(buttons@),
{
    let mut urls: Vec<String> = Vec::new();
    let mut labels: Vec<String> = Vec::new();
    let n = buttons.len();
    for i in 0..n
        invariant
            n == buttons@.len(),
            urls@.len() == i,
            labels@.len() == i,
            forall|k: int| #![trigger urls@[k]] 0 <= k < i ==> urls@[k]@ == buttons@[k].url@,
            forall|k: int| #![trigger labels@[k]] 0 <= k < i ==> labels@[k]@ == buttons@[k].label@,
    {
        urls.push(buttons[i].url.clone());
        labels.push(buttons[i].label.clone());
    }
    assert(string_views(urls@) =~= button_urls(buttons@));
    assert(string_views(labels@) =~= button_labels(buttons@));
    (urls, labels)
}

/// The activity as the server passes it on, at the clock reading `now_ms`.
pub fn process_activity_at(activity: Activity, client_id: &str, now_ms: u128) -> (r: ProcessedActivity)
    requires
        activity_handled(activity, now_ms as nat),
    ensures
        processes_to(activity, client_id@, now_ms as nat, r),
{
    let ghost a = activity;
    let (button_urls, button_labels) = match &activity.buttons {
        Some(bs) => {
            let (u, l) = split_buttons(bs);
            (Some(u), Some(l))
        },
        None => (None, None),
    };
    let timestamps = match activity.timestamps {
        Some(ts) => Some(Timestamps {
            start: timestamp_in_millis(ts.start, now_ms),
            end: timestamp_in_millis(ts.end, now_ms),
        }),
        None => None,
    };
    let name = match activity.name {
        Some(n) => n,
        None => String::new(),
    };
    let flags: u32 = match activity.instance {
        Some(true) => 1,
        _ => 0,
    };
    ProcessedActivity {
        application_id: string_from_chars(chars_of(client_id).as_slice()),
        name,
        details: activity.details,
        state: activity.state,
        timestamps,
        assets: activity.assets,
        party: activity.party,
        secrets: activity.secrets,
        metadata: ActivityMetadata { button_urls },
        flags,
        buttons: button_labels,
        activity_type: activity.activity_type,
    }
}

/// Whether every timestamp of the activity can be handled at the clock
/// reading.
pub fn activity_ok(activity: &Activity, now_ms: u128) -> (r: bool)
    ensures
        r == activity_handled(*activity, now_ms as nat),
{
    match &activity.timestamps {
        None => true,
        Some(ts) => timestamp_ok(ts.start, now_ms) && timestamp_ok(ts.end, now_ms),
    }
}

/// The clock's reading in milliseconds, 0 when there is none.
pub open spec fn reading_of(now: Option<u128>) -> nat {
    match now {
        Some(t) => t as nat,
        None => 0,
    }
}

/// The activity can be processed given what the clock read: it has no
/// start or end time, or there is a reading at which they can be handled.
pub open spec fn activity_processable(a: Activity, now: Option<u128>) -> bool {
    !has_timestamp(a) || (now is Some && activity_handled(a, reading_of(now)))
}

/// The activity carries a start or an end time, whose handling needs the
/// clock.
pub open spec fn has_timestamp(a: Activity) -> bool {
    a.timestamps matches Some(ts) && (ts.start is Some || ts.end is Some)
}

/// Whether the activity carries a start or an end time.
pub fn carries_timestamp(activity: &Activity) -> (r: bool)
    ensures
        r == has_timestamp(*activity),
{
    match &activity.timestamps {
        None => false,
        Some(ts) => ts.start.is_some() || ts.end.is_some(),
    }
}

/// `r` is what processing the activity gives, given what the clock read.
pub open spec fn processing_outcome(a: Activity, client_id: Seq<char>, now: Option<u128>, r: Option<ProcessedActivity>) -> bool {
    &&& (r is Some <==> activity_processable(a, now))
    &&& (r matches Some(p) ==> processes_to(a, client_id, reading_of(now), p))
}

/// The activity as the server passes it on, given what the clock read
/// (`None` for a clock set before the epoch); `None` when the activity has
/// timestamps and there is no reading, or a timestamp cannot be handled at
/// the reading (a value in seconds too large to turn into milliseconds).
pub fn process_activity_given(activity: Activity, client_id: &str, now: Option<u128>) -> (r: Option<ProcessedActivity>)
    ensures
        processing_outcome(activity, client_id@, now, r),
{
    let t: u128 = match now {
        Some(t) => t,
        None => 0,
    };
    let ok = !carries_timestamp(&activity) || (now.is_some() && activity_ok(&activity, t));
    if ok {
        Some(process_activity_at(activity, client_id, t))
    } else {
        None
    }
}

/// The activity as the server passes it on. An activity without a start or
/// end time needs no clock and is always processed; otherwise the clock is
/// read, and the result is `None` when it is set before the epoch or a
/// time in seconds is too large to turn into milliseconds at its reading.
pub fn process_activity(activity: Activity, client_id: &str) -> (r: Option<ProcessedActivity>)
    ensures
        !has_timestamp(activity) ==> (r matches Some(p) && processes_to(activity, client_id@, 0, p)),
        exists|now: Option<u128>| processing_outcome(activity, client_id@, now, r),
{
    let ghost a = activity;
    let now = if carries_timestamp(&activity) {
        clock_millis()
    } else {
        None
    };
    let r = process_activity_given(activity, client_id, now);
    assert(processing_outcome(a, client_id@, now, r));
    r
}

} // verus!
