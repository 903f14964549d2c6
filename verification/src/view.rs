//! The view of a record: what callbacks and filters are shown of it, as keys
//! and values.

use crate::dict::Dict;
use crate::handler::{share, Context, LogRecord};
use crate::time::{elapsed_millis, elapsed_text, format_elapsed, rfc3339_text, Timestamp};
use std::sync::Arc;
use vstd::prelude::*;

verus! {

/// A value in the view of a record.
#[derive(Debug)]
pub enum ViewValue {
    Text(String),
    Number(u64),
    /// The record's context as a mapping of its own.
    Nested(Arc<Context>),
}

/// The view of a record.
pub type RecordView = Dict<ViewValue>;

/// A value of a view as a mathematical value.
pub enum Shown {
    Text(Seq<char>),
    Number(nat),
    Nested(Map<Seq<char>, String>),
}

impl View for ViewValue {
    type V = Shown;

    open spec fn view(&self) -> Shown {
        match self {
            ViewValue::Text(s) => Shown::Text(s@),
            ViewValue::Number(n) => Shown::Number(*n as nat),
            ViewValue::Nested(c) => Shown::Nested(c@),
        }
    }
}

/// A view as a mathematical map.
pub open spec fn shown(view: Map<Seq<char>, ViewValue>) -> Map<Seq<char>, Shown> {
    Map::new(|k: Seq<char>| view.contains_key(k), |k: Seq<char>| view[k]@)
}

/// The entries of a context as texts at the top of a view.
pub open spec fn flat_extras(extra: Map<Seq<char>, String>) -> Map<Seq<char>, Shown> {
    Map::new(|k: Seq<char>| extra.contains_key(k), |k: Seq<char>| Shown::Text(extra[k]@))
}

/// The time of a record in the form of RFC 3339; the empty text where it has none.
pub open spec fn stamp_text(at: Timestamp) -> Seq<char> {
    match rfc3339_text(at.secs, at.nanos, at.offset_secs) {
        Some(t) => t,
        None => Seq::empty(),
    }
}

/// What a view says of the record itself, whatever the context holds.
pub open spec fn own_entries(base: Map<Seq<char>, Shown>, record: LogRecord, start: Timestamp) -> Map<
    Seq<char>,
    Shown,
> {
    let named = base.insert("level"@, Shown::Text(record.label())).insert(
        "message"@,
        Shown::Text(record.message@),
    ).insert("timestamp"@, Shown::Text(stamp_text(record.timestamp))).insert(
        "name"@,
        Shown::Text(record.caller.name@),
    ).insert("function"@, Shown::Text(record.caller.function@)).insert(
        "line"@,
        Shown::Number(record.caller.line as nat),
    ).insert("file"@, Shown::Text(record.caller.file@)).insert(
        "thread_name"@,
        Shown::Text(record.thread.name@),
    ).insert("thread_id"@, Shown::Number(record.thread.id as nat)).insert(
        "process_name"@,
        Shown::Text(record.process.name@),
    ).insert("process_id"@, Shown::Number(record.process.id as nat)).insert(
        "elapsed"@,
        Shown::Text(elapsed_text(elapsed_millis(start, record.timestamp))),
    ).insert("extra"@, Shown::Nested(record.extra@));
    match record.exception {
        Some(e) => named.insert("exception"@, Shown::Text(e@)),
        None => named,
    }
}

/// The view of a record: the entries of its context at the top, and over them
/// what the view says of the record itself. Where the context holds a key of
/// the view's own, the view's own value stands.
pub open spec fn record_view(record: LogRecord, start: Timestamp) -> Map<Seq<char>, Shown> {
    own_entries(flat_extras(record.extra@), record, start)
}

proof fn lemma_shown_insert(view: Map<Seq<char>, ViewValue>, key: Seq<char>, value: ViewValue)
    ensures
        shown(view.insert(key, value)) == shown(view).insert(key, value@),
{
    assert(shown(view.insert(key, value)) =~= shown(view).insert(key, value@));
}

fn put(view: &mut RecordView, key: &str, value: ViewValue)
    ensures
        shown(final(view)@) == shown(old(view)@).insert(key@, value@),
{
    proof {
        lemma_shown_insert(view@, key@, value);
    }
    view.insert(key.to_string(), value);
}

/// Builds the view of a record. Elapsed time counts from `start`.
pub fn build_record_view(record: &LogRecord, start: &Timestamp) -> (view: RecordView)
    ensures
        shown(view@) == record_view(*record, *start),
{
    let mut view: RecordView = Dict::new();
    let extra: &Context = &record.extra;
    extra.observe();
    let n = extra.len();
    let mut i: usize = 0;
    while i < n
        invariant
            i <= n,
            n == extra.keys().len(),
            n == extra.values().len(),
            extra.wf(),
            forall|k: Seq<char>| view@.contains_key(k) <==> extra.keys().take(i as int).contains(k),
            forall|k: Seq<char>| view@.contains_key(k) ==> view@[k]@ == Shown::Text(extra@[k]@),
        decreases n - i,
    {
        let key = extra.key_at(i);
        let value = extra.value_at(i);
        let ghost before = view@;
        view.insert(key.clone(), ViewValue::Text(value.clone()));
        proof {
            let keys = extra.keys();
            assert(keys.take(i + 1) =~= keys.take(i as int).push(keys[i as int]));
            assert forall|k: Seq<char>| view@.contains_key(k) <==> keys.take(i + 1).contains(k) by {
                if keys.take(i as int).contains(k) {
                    let j = keys.take(i as int).index_of(k);
                    assert(keys.take(i + 1)[j] == k);
                }
                if k == keys[i as int] {
                    assert(keys.take(i + 1)[i as int] == k);
                }
                if keys.take(i + 1).contains(k) {
                    let j = keys.take(i + 1).index_of(k);
                    if j < i {
                        assert(keys.take(i as int)[j] == k);
                    }
                }
            }
        }
        i += 1;
    }
    proof {
        assert(extra.keys().take(n as int) =~= extra.keys());
        assert(shown(view@) =~= flat_extras(extra@));
    }
    put(&mut view, "level", ViewValue::Text(record.level_name().to_string()));
    put(&mut view, "message", ViewValue::Text(record.message.clone()));
    let stamp = match record.timestamp.to_rfc3339() {
        Some(t) => t,
        None => String::new(),
    };
    put(&mut view, "timestamp", ViewValue::Text(stamp));
    put(&mut view, "name", ViewValue::Text(record.caller.name.clone()));
    put(&mut view, "function", ViewValue::Text(record.caller.function.clone()));
    put(&mut view, "line", ViewValue::Number(record.caller.line as u64));
    put(&mut view, "file", ViewValue::Text(record.caller.file.clone()));
    put(&mut view, "thread_name", ViewValue::Text(record.thread.name.clone()));
    put(&mut view, "thread_id", ViewValue::Number(record.thread.id));
    put(&mut view, "process_name", ViewValue::Text(record.process.name.clone()));
    put(&mut view, "process_id", ViewValue::Number(record.process.id as u64));
    put(&mut view, "elapsed", ViewValue::Text(format_elapsed(start, &record.timestamp)));
    put(&mut view, "extra", ViewValue::Nested(share(&record.extra)));
    match &record.exception {
        Some(e) => {
            put(&mut view, "exception", ViewValue::Text(e.clone()));
        },
        None => {},
    }
    view
}

} // verus!
