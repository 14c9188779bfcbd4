//! Per-channel worker policy: what each subscription outcome leads to,
//! how a drain round proceeds, and how one drained event becomes one
//! output line.
use vstd::prelude::*;

use crate::record::{
    FieldTexts, Json, JsonV, TextsV, add_message, enrich_metadata, enrich_v, get_field, jview,
    obj_get, opt_str_v, provider_name, provider_of, texts_view, with_message,
};
use crate::ser::{render_line, render_pretty, ser, ser_pretty};
use crate::xml::{parse_to_json, record_of};

verus! {

/// What the system reported when a subscription to a channel was opened.
#[derive(Debug, Clone, Copy, PartialEq, Eq)]
pub enum SubscribeOutcome {
    Granted,
    Unsupported,
    AccessDenied,
    Failed,
}

/// What a worker does next after its subscription attempt.
#[derive(Debug, Clone, Copy, PartialEq, Eq)]
pub enum SubscribeDecision {
    Drain,
    SkipChannel,
    Escalate,
    ReportError,
}

/// The per-channel subscription policy: a granted subscription starts the
/// drain loop; a channel the system cannot subscribe is skipped silently,
/// as no error; access denied requests escalation and ends the whole
/// process; any other failure is reported and ends only this worker.
pub fn decide_subscribe(o: &SubscribeOutcome) -> (d: SubscribeDecision)
    ensures
        d == (match *o {
            SubscribeOutcome::Granted => SubscribeDecision::Drain,
            SubscribeOutcome::Unsupported => SubscribeDecision::SkipChannel,
            SubscribeOutcome::AccessDenied => SubscribeDecision::Escalate,
            SubscribeOutcome::Failed => SubscribeDecision::ReportError,
        }),
{
    match o {
        SubscribeOutcome::Granted => SubscribeDecision::Drain,
        SubscribeOutcome::Unsupported => SubscribeDecision::SkipChannel,
        SubscribeOutcome::AccessDenied => SubscribeDecision::Escalate,
        SubscribeOutcome::Failed => SubscribeDecision::ReportError,
    }
}

/// What a drain round does after one batch request.
#[derive(Debug, Clone, Copy, PartialEq, Eq)]
pub enum DrainStep {
    Process,
    ResetAndWait,
}

/// A non-empty batch is processed and the drain goes on without blocking;
/// an empty batch ends the round, after which the wait signal is reset
/// and the worker blocks again.
pub fn after_batch(returned: usize) -> (s: DrainStep)
    ensures
        s == (if returned > 0 {
            DrainStep::Process
        } else {
            DrainStep::ResetAndWait
        }),
{
    if returned > 0 {
        DrainStep::Process
    } else {
        DrainStep::ResetAndWait
    }
}

/// Whether the worker keeps draining after writing one line: a failed
/// write means the output is gone, and the worker stops normally rather
/// than retry.
pub fn continue_after_write(write_ok: bool) -> (c: bool)
    ensures
        c == write_ok,
{
    write_ok
}

/// One parsed event, with what the enrichment step will ask the system
/// for: which of the four coded fields are present, and the provider
/// name, when the record carries one.
pub struct Prepared {
    pub record: Json,
    pub wants_keywords: bool,
    pub wants_level: bool,
    pub wants_task: bool,
    pub wants_opcode: bool,
    pub provider: Option<String>,
}

/// Parses one rendered event and reads off what enrichment needs; nothing
/// when the markup is malformed, in which case the event is dropped.
pub fn prepare_event(xml: &str) -> (r: Option<Prepared>)
    ensures
        (r is Some) == (record_of(xml@) is Some),
        r matches Some(p) ==> {
            &&& record_of(xml@) == Some(jview(p.record))
            &&& p.wants_keywords == (get_field(jview(p.record), "Keywords"@) is Some)
            &&& p.wants_level == (get_field(jview(p.record), "Level"@) is Some)
            &&& p.wants_task == (get_field(jview(p.record), "Task"@) is Some)
            &&& p.wants_opcode == (get_field(jview(p.record), "Opcode"@) is Some)
            &&& opt_str_v(p.provider) == provider_of(jview(p.record))
        },
{
    let record = match parse_to_json(xml) {
        Some(j) => j,
        None => {
            return None;
        },
    };
    let wants_keywords = obj_get(&record, "Keywords").is_some();
    let wants_level = obj_get(&record, "Level").is_some();
    let wants_task = obj_get(&record, "Task").is_some();
    let wants_opcode = obj_get(&record, "Opcode").is_some();
    let provider = provider_name(&record);
    Some(
        Prepared {
            record,
            wants_keywords,
            wants_level,
            wants_task,
            wants_opcode,
            provider,
        },
    )
}

/// The line written for one record, given the texts the formatter
/// offered: the coded fields replaced, the message attached when one was
/// offered, the whole rendered compactly.
pub open spec fn finished_v(j: JsonV, t: TextsV, m: Option<Seq<char>>) -> Seq<char> {
    ser(with_message(enrich_v(j, t), m))
}

/// The text written for one record: as `finished_v`, rendered compactly
/// or indented.
pub open spec fn rendered_v(j: JsonV, t: TextsV, m: Option<Seq<char>>, pretty: bool) -> Seq<
    char,
> {
    if pretty {
        ser_pretty(with_message(enrich_v(j, t), m), Seq::empty())
    } else {
        finished_v(j, t, m)
    }
}

/// Enriches one record with the offered texts and renders it, compactly
/// or indented, as one write to the sink.
pub fn finish_event_rendered(
    record: Json,
    texts: &FieldTexts,
    message: Option<String>,
    pretty: bool,
) -> (text: String)
    ensures
        text@ == rendered_v(jview(record), texts_view(*texts), opt_str_v(message), pretty),
{
    let enriched = enrich_metadata(record, texts);
    let done = match &message {
        Some(m) => add_message(enriched, m),
        None => enriched,
    };
    if pretty {
        render_pretty(&done)
    } else {
        render_line(&done)
    }
}

/// Enriches one record with the offered texts and renders it as its
/// compact output line.
pub fn finish_event(record: Json, texts: &FieldTexts, message: Option<String>) -> (line: String)
    ensures
        line@ == finished_v(jview(record), texts_view(*texts), opt_str_v(message)),
{
    finish_event_rendered(record, texts, message, false)
}

/// The output line for one rendered event, given the offered texts:
/// present exactly when the markup parses; a malformed event yields no
/// line and is dropped.
pub open spec fn event_line(xml: Seq<char>, t: TextsV, m: Option<Seq<char>>) -> Option<Seq<char>> {
    match record_of(xml) {
        Some(j) => Some(ser(with_message(enrich_v(j, t), m))),
        None => None,
    }
}

/// Renders one event end to end: parse, enrich with the offered texts,
/// attach the message, serialize.
pub fn render_event(xml: &str, texts: &FieldTexts, message: Option<String>) -> (r: Option<String>)
    ensures
        opt_str_v(r) == event_line(xml@, texts_view(*texts), opt_str_v(message)),
{
    let record = match parse_to_json(xml) {
        Some(j) => j,
        None => {
            return None;
        },
    };
    Some(finish_event(record, texts, message))
}

} // verus!
