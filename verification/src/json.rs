//! Records as JSON objects, one object on one line.
//!
//! The object is put together here; each string in it is written by serde_json.

use crate::format::FormatConfig;
use crate::handler::{Context, LogRecord};
use crate::level::LogLevel;
use crate::render::{format_time, time_text};
use crate::text::{decimal, decimal_string, option_text, push_char, starts_with};
use crate::time::Timestamp;
use vstd::prelude::*;

verus! {

/// A text as a JSON string, as serde_json's `to_string` writes a `str`: in
/// double quotes, with what JSON asks to be escaped escaped.
pub uninterp spec fn json_string_text(s: Seq<char>) -> Seq<char>;

/// Writes a text as a JSON string with serde_json's `to_string`. The call
/// writes into memory and a `str` has nothing that can fail to be written, so
/// there always is a result: the JSON string of the text.
#[verifier::external_body]
fn json_string(s: &str) -> (r: Option<String>)
    ensures
        option_text(r) == Some(json_string_text(s@)),
{
    match serde_json::to_string(s) {
        Ok(text) => Some(text),
        Err(_) => None,
    }
}

/// The JSON string of a text.
pub fn quote(s: &str) -> (r: String)
    ensures
        r@ == json_string_text(s@),
{
    match json_string(s) {
        Some(quoted) => quoted,
        None => String::new(),
    }
}

/// A member of an object whose value is a string: `label`, which is the key in
/// quotes and a colon, and then the value as a JSON string.
pub open spec fn text_member(label: Seq<char>, value: Seq<char>) -> Seq<char> {
    label + json_string_text(value)
}

/// A member of an object; key and value are written as JSON strings.
pub open spec fn pair(key: Seq<char>, value: Seq<char>) -> Seq<char> {
    json_string_text(key) + seq![':'] + json_string_text(value)
}

/// Members with commas between them.
pub open spec fn commas(members: Seq<Seq<char>>) -> Seq<char>
    decreases members.len(),
{
    if members.len() == 0 {
        Seq::empty()
    } else if members.len() == 1 {
        members.last()
    } else {
        commas(members.drop_last()) + seq![','] + members.last()
    }
}

/// The object of the given members: the members with commas between them, in
/// braces.
pub open spec fn object_text(members: Seq<Seq<char>>) -> Seq<char> {
    seq!['{'] + commas(members) + seq!['}']
}

/// One member for each entry of a context, in the order of its keys.
pub open spec fn context_pairs(keys: Seq<Seq<char>>, values: Seq<String>) -> Seq<Seq<char>> {
    Seq::new(keys.len(), |i: int| pair(keys[i], values[i]@))
}

/// The member `extra`, whose value is the context as an object.
pub open spec fn extra_member(keys: Seq<Seq<char>>, values: Seq<String>) -> Seq<char> {
    "\"extra\":"@ + object_text(context_pairs(keys, values))
}

/// The member `line`, whose value is a number.
pub open spec fn line_member(line: u32) -> Seq<char> {
    "\"line\":"@ + decimal(line as nat)
}

/// A member that is written only on a condition.
pub open spec fn when(condition: bool, member: Seq<char>) -> Seq<Seq<char>> {
    if condition {
        seq![member]
    } else {
        Seq::empty()
    }
}

pub open spec fn exception_text(exception: Option<String>) -> Seq<char> {
    match exception {
        Some(e) => e@,
        None => Seq::empty(),
    }
}

/// The three members that every object begins with: time, level and message.
pub open spec fn leading_members(time: Seq<char>, level: Seq<char>, message: Seq<char>) -> Seq<Seq<char>> {
    seq![
        text_member("\"time\":"@, time),
        text_member("\"level\":"@, level),
        text_member("\"message\":"@, message),
    ]
}

/// The members of a record's object: time, level and message always; the
/// caller's name and function where they are not empty; the line where it is
/// not zero; the context where it is not empty; the exception where there is one.
pub open spec fn record_members(time: Seq<char>, record: LogRecord) -> Seq<Seq<char>> {
    leading_members(time, record.label(), record.message@) + further_members(record)
}

/// The members of a record's object that are written only where there is
/// something to write, in their order: name, function, line, context, exception.
pub open spec fn further_members(record: LogRecord) -> Seq<Seq<char>> {
    when(record.caller.name@.len() > 0, text_member("\"name\":"@, record.caller.name@)) + when(
        record.caller.function@.len() > 0,
        text_member("\"function\":"@, record.caller.function@),
    ) + when(record.caller.line != 0, line_member(record.caller.line)) + when(
        record.extra.keys().len() > 0,
        extra_member(record.extra.keys(), record.extra.values()),
    ) + when(
        record.exception.is_some(),
        text_member("\"exception\":"@, exception_text(record.exception)),
    )
}

/// The members of an object of time, level, message, context and exception.
pub open spec fn plain_members(
    time: Seq<char>,
    level: Seq<char>,
    message: Seq<char>,
    extra: Context,
    exception: Option<String>,
) -> Seq<Seq<char>> {
    leading_members(time, level, message) + when(
        extra.keys().len() > 0,
        extra_member(extra.keys(), extra.values()),
    ) + when(exception.is_some(), text_member("\"exception\":"@, exception_text(exception)))
}

/// The members of an object as they come back from being written, with commas
/// between them; `None` where one of them is missing.
pub open spec fn joined(members: Seq<Option<Seq<char>>>) -> Option<Seq<char>>
    decreases members.len(),
{
    if members.len() == 0 {
        Some(Seq::empty())
    } else {
        match (joined(members.drop_last()), members.last()) {
            (Some(front), Some(last)) => Some(
                if members.len() == 1 {
                    last
                } else {
                    front + seq![','] + last
                },
            ),
            _ => None,
        }
    }
}

/// An object of members as they come back from being written; `None` where
/// one of them is missing.
pub open spec fn object(members: Seq<Option<Seq<char>>>) -> Option<Seq<char>> {
    match joined(members) {
        Some(body) => Some(seq!['{'] + body + seq!['}']),
        None => None,
    }
}

/// The object of the given members on one line; the fallback where a member
/// is missing.
pub open spec fn json_line(members: Seq<Option<Seq<char>>>, fallback: Seq<char>) -> Seq<char> {
    match object(members) {
        Some(o) => o,
        None => fallback,
    }
}

pub open spec fn member_texts(members: Seq<Option<String>>) -> Seq<Option<Seq<char>>> {
    Seq::new(members.len(), |i: int| option_text(members[i]))
}

/// Members of which none is missing.
pub open spec fn written(members: Seq<Seq<char>>) -> Seq<Option<Seq<char>>> {
    Seq::new(members.len(), |i: int| Some(members[i]))
}

/// Where the front of a list of members cannot be written, the list cannot.
proof fn lemma_joined_none(members: Seq<Option<Seq<char>>>, k: int)
    requires
        0 <= k <= members.len(),
        joined(members.take(k)).is_none(),
    ensures
        joined(members).is_none(),
    decreases members.len() - k,
{
    if k < members.len() {
        assert(members.drop_last().take(k) =~= members.take(k));
        lemma_joined_none(members.drop_last(), k);
    } else {
        assert(members.take(k) =~= members);
    }
}

/// Where no member is missing, the members make their object, and the line
/// is that object whatever the fallback.
pub proof fn lemma_written_object(members: Seq<Seq<char>>, fallback: Seq<char>)
    ensures
        joined(written(members)) == Some(commas(members)),
        object(written(members)) == Some(object_text(members)),
        json_line(written(members), fallback) == object_text(members),
    decreases members.len(),
{
    if members.len() > 0 {
        lemma_written_object(members.drop_last(), fallback);
        assert(written(members).drop_last() =~= written(members.drop_last()));
        assert(written(members).last() == Some(members.last()));
    }
}

/// Members that follow other members leave the text of those where it stands.
proof fn lemma_commas_begin(front: Seq<Seq<char>>, more: Seq<Seq<char>>)
    requires
        front.len() > 0,
    ensures
        starts_with(commas(front + more), commas(front)),
    decreases more.len(),
{
    let all = front + more;
    let head = commas(front);
    if more.len() == 0 {
        assert(all =~= front);
        assert(head.subrange(0, head.len() as int) =~= head);
    } else {
        lemma_commas_begin(front, more.drop_last());
        assert(all.drop_last() =~= front + more.drop_last());
        let before = commas(front + more.drop_last());
        assert(commas(all) == before + seq![','] + all.last());
        assert(commas(all).subrange(0, head.len() as int) =~= before.subrange(0, head.len() as int));
    }
}

/// Three members with commas between them.
proof fn lemma_commas_three(a: Seq<char>, b: Seq<char>, c: Seq<char>)
    ensures
        commas(seq![a, b, c]) == a + seq![','] + b + seq![','] + c,
{
    let three = seq![a, b, c];
    assert(three.drop_last() =~= seq![a, b]);
    assert(seq![a, b].drop_last() =~= seq![a]);
    assert(commas(seq![a]) == a);
    assert(commas(seq![a, b]) == a + seq![','] + b);
}

/// An object begins with its opening brace and its first members, and ends
/// with its closing brace.
proof fn lemma_object_begins(front: Seq<Seq<char>>, more: Seq<Seq<char>>)
    requires
        front.len() > 0,
    ensures
        starts_with(object_text(front + more), seq!['{'] + commas(front)),
        object_text(front + more).last() == '}',
{
    lemma_commas_begin(front, more);
    let head = seq!['{'] + commas(front);
    let body = commas(front + more);
    let o = object_text(front + more);
    assert(body.subrange(0, commas(front).len() as int) == commas(front));
    assert(o.subrange(0, head.len() as int) =~= seq!['{'] + body.subrange(
        0,
        commas(front).len() as int,
    ));
}

/// The object of a record begins with its time, its level and its message, in
/// that order and each as a JSON string, and ends with the closing brace.
pub proof fn lemma_json_shape(time: Seq<char>, record: LogRecord)
    ensures
        starts_with(
            object_text(record_members(time, record)),
            seq!['{'] + (text_member("\"time\":"@, time) + seq![','] + text_member(
                "\"level\":"@,
                record.label(),
            ) + seq![','] + text_member("\"message\":"@, record.message@)),
        ),
        object_text(record_members(time, record)).last() == '}',
{
    let lead = leading_members(time, record.label(), record.message@);
    lemma_object_begins(lead, further_members(record));
    lemma_commas_three(
        text_member("\"time\":"@, time),
        text_member("\"level\":"@, record.label()),
        text_member("\"message\":"@, record.message@),
    );
}

fn text_member_of(label: &str, value: &str) -> (r: Option<String>)
    ensures
        option_text(r) == Some(text_member(label@, value@)),
{
    match json_string(value) {
        Some(quoted) => {
            let mut r = label.to_string();
            r.append(quoted.as_str());
            Some(r)
        },
        None => None,
    }
}

fn pair_of(key: &str, value: &str) -> (r: Option<String>)
    ensures
        option_text(r) == Some(pair(key@, value@)),
{
    match json_string(key) {
        Some(k) => match json_string(value) {
            Some(v) => {
                let mut r = k;
                push_char(&mut r, ':');
                r.append(v.as_str());
                Some(r)
            },
            None => None,
        },
        None => None,
    }
}

/// Puts members that were written into an object: the members with commas
/// between them, in braces. There is no object where a member is missing.
pub fn object_of(members: &Vec<Option<String>>) -> (r: Option<String>)
    ensures
        option_text(r) == object(member_texts(members@)),
{
    let ghost texts = member_texts(members@);
    let mut out = String::new();
    push_char(&mut out, '{');
    let ghost mut body: Seq<char> = Seq::empty();
    let mut i: usize = 0;
    assert(texts.take(0) =~= Seq::<Option<Seq<char>>>::empty());
    while i < members.len()
        invariant
            i <= members.len(),
            texts == member_texts(members@),
            joined(texts.take(i as int)) == Some(body),
            out@ == seq!['{'] + body,
        decreases members.len() - i,
    {
        proof {
            assert(texts.take(i + 1).drop_last() =~= texts.take(i as int));
            assert(texts.take(i + 1).last() == option_text(members[i as int]));
        }
        match &members[i] {
            Some(member) => {
                if i > 0 {
                    push_char(&mut out, ',');
                }
                out.append(member.as_str());
                proof {
                    let next = if i == 0 {
                        member@
                    } else {
                        body + seq![','] + member@
                    };
                    assert(out@ =~= seq!['{'] + next);
                    body = next;
                }
            },
            None => {
                proof {
                    lemma_joined_none(texts, i + 1);
                }
                return None;
            },
        }
        i += 1;
    }
    assert(texts.take(members.len() as int) =~= texts);
    push_char(&mut out, '}');
    Some(out)
}

/// The line for members that were written: their object, or the fallback
/// where a member is missing.
pub fn line_of(members: &Vec<Option<String>>, fallback: &str) -> (r: String)
    ensures
        r@ == json_line(member_texts(members@), fallback@),
{
    match object_of(members) {
        Some(o) => o,
        None => fallback.to_string(),
    }
}

fn extra_member_of(extra: &Context) -> (r: Option<String>)
    ensures
        option_text(r) == Some(extra_member(extra.keys(), extra.values())),
{
    let mut pairs: Vec<Option<String>> = Vec::new();
    let n = extra.len();
    let mut i: usize = 0;
    while i < n
        invariant
            i <= n,
            n == extra.keys().len(),
            n == extra.values().len(),
            pairs.len() == i,
            forall|j: int|
                0 <= j < i ==> option_text(#[trigger] pairs[j]) == Some(
                    pair(extra.keys()[j], extra.values()[j]@),
                ),
        decreases n - i,
    {
        pairs.push(pair_of(extra.key_at(i).as_str(), extra.value_at(i).as_str()));
        i += 1;
    }
    proof {
        let wanted = context_pairs(extra.keys(), extra.values());
        assert(member_texts(pairs@) =~= written(wanted));
        lemma_written_object(wanted, Seq::empty());
    }
    match object_of(&pairs) {
        Some(o) => {
            let mut r = "\"extra\":".to_string();
            r.append(o.as_str());
            Some(r)
        },
        None => None,
    }
}

fn line_member_of(line: u32) -> (r: Option<String>)
    ensures
        option_text(r) == Some(line_member(line)),
{
    let mut r = "\"line\":".to_string();
    r.append(decimal_string(line as u128).as_str());
    Some(r)
}

fn exception_member_of(exception: &Option<String>) -> (r: Option<String>)
    ensures
        option_text(r) == Some(text_member("\"exception\":"@, exception_text(*exception))),
{
    match exception {
        Some(e) => text_member_of("\"exception\":", e.as_str()),
        None => {
            proof {
                reveal_strlit("");
                assert(""@ =~= Seq::<char>::empty());
            }
            text_member_of("\"exception\":", "")
        },
    }
}

impl FormatConfig {
    /// Formats a record as a JSON object. Every string of the object is
    /// written by serde_json; should one be missing all the same, the result
    /// is the message alone.
    pub fn format_record_json(&self, record: &LogRecord) -> (r: String)
        ensures
            r@ == object_text(
                record_members(time_text(record.timestamp, self.time_format_text()), *record),
            ),
    {
        let time = format_time(&record.timestamp, self.time_format());
        let mut members: Vec<Option<String>> = Vec::new();
        members.push(text_member_of("\"time\":", time.as_str()));
        members.push(text_member_of("\"level\":", record.level_name()));
        members.push(text_member_of("\"message\":", record.message.as_str()));
        let ghost m3 = leading_members(time@, record.label(), record.message@);
        let ghost w1 = when(
            record.caller.name@.len() > 0,
            text_member("\"name\":"@, record.caller.name@),
        );
        let ghost w2 = when(
            record.caller.function@.len() > 0,
            text_member("\"function\":"@, record.caller.function@),
        );
        let ghost w3 = when(record.caller.line != 0, line_member(record.caller.line));
        let ghost w4 = when(
            record.extra.keys().len() > 0,
            extra_member(record.extra.keys(), record.extra.values()),
        );
        let ghost w5 = when(
            record.exception.is_some(),
            text_member("\"exception\":"@, exception_text(record.exception)),
        );
        assert(member_texts(members@) =~= written(m3));
        if record.caller.name.as_str().unicode_len() > 0 {
            members.push(text_member_of("\"name\":", record.caller.name.as_str()));
        }
        assert(member_texts(members@) =~= written(m3 + w1));
        if record.caller.function.as_str().unicode_len() > 0 {
            members.push(text_member_of("\"function\":", record.caller.function.as_str()));
        }
        assert(member_texts(members@) =~= written(m3 + w1 + w2));
        if record.caller.line != 0 {
            members.push(line_member_of(record.caller.line));
        }
        assert(member_texts(members@) =~= written(m3 + w1 + w2 + w3));
        if record.extra.len() > 0 {
            members.push(extra_member_of(&record.extra));
        }
        assert(member_texts(members@) =~= written(m3 + w1 + w2 + w3 + w4));
        if record.exception.is_some() {
            members.push(exception_member_of(&record.exception));
        }
        proof {
            let all = m3 + w1 + w2 + w3 + w4 + w5;
            assert(member_texts(members@) =~= written(all));
            assert(further_members(*record) == w1 + w2 + w3 + w4 + w5);
            assert(all =~= m3 + (w1 + w2 + w3 + w4 + w5));
            lemma_written_object(all, record.message@);
        }
        line_of(&members, record.message.as_str())
    }

    /// Formats time, level, message, context and exception as a JSON object.
    /// Every string of the object is written by serde_json; should one be
    /// missing all the same, the result is the message alone.
    pub fn format_json(
        &self,
        timestamp: &Timestamp,
        level: LogLevel,
        message: &str,
        extra: &Context,
        exception: &Option<String>,
    ) -> (r: String)
        ensures
            r@ == object_text(
                plain_members(
                    time_text(*timestamp, self.time_format_text()),
                    level.label(),
                    message@,
                    *extra,
                    *exception,
                ),
            ),
    {
        let time = format_time(timestamp, self.time_format());
        let mut members: Vec<Option<String>> = Vec::new();
        members.push(text_member_of("\"time\":", time.as_str()));
        members.push(text_member_of("\"level\":", level.as_str()));
        members.push(text_member_of("\"message\":", message));
        let ghost m3 = leading_members(time@, level.label(), message@);
        assert(member_texts(members@) =~= written(m3));
        if extra.len() > 0 {
            members.push(extra_member_of(extra));
        }
        let ghost m4 = m3 + when(extra.keys().len() > 0, extra_member(extra.keys(), extra.values()));
        assert(member_texts(members@) =~= written(m4));
        if exception.is_some() {
            members.push(exception_member_of(exception));
        }
        let ghost m5 = m4 + when(
            exception.is_some(),
            text_member("\"exception\":"@, exception_text(*exception)),
        );
        proof {
            assert(member_texts(members@) =~= written(m5));
            lemma_written_object(m5, message@);
        }
        line_of(&members, message)
    }
}

} // verus!
