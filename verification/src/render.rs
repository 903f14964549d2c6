//! Rendering: a record, seen through the tokens of a template, becomes a line
//! of text.

use crate::color::{colorize_text, colorized, cyan, cyan_text, dim_text, dimmed, Color};
use crate::format::{
    lemma_requirements_cover, parse, requirements_of, token_pieces, FormatConfig, FormatToken, Piece,
};
use crate::handler::{Context, LogRecord};
use crate::json::{object_text, plain_members, record_members};
use crate::level::LogLevel;
use crate::markup::{apply_color_markup, markup};
use crate::text::{decimal, decimal_string, pad_right, pad_to_width, push_char};
use crate::time::{elapsed_millis, elapsed_text, format_elapsed, strftime_text, Timestamp};
use vstd::prelude::*;

verus! {

/// What a record says of where it comes from, as texts.
pub struct Origin {
    pub name: Seq<char>,
    pub function: Seq<char>,
    pub line: Seq<char>,
    pub file: Seq<char>,
    pub elapsed: Seq<char>,
    pub thread: Seq<char>,
    pub process: Seq<char>,
}

/// What a template can show of a record, as texts.
pub struct Fields {
    pub time: Seq<char>,
    pub level: Seq<char>,
    pub color: Color,
    pub message: Seq<char>,
    pub extra: Map<Seq<char>, String>,
    /// `None` where only time, level, message and context are at hand.
    pub origin: Option<Origin>,
}

/// The time of an instant in a format; the empty text where it has none.
pub open spec fn time_text(at: Timestamp, format: Seq<char>) -> Seq<char> {
    match strftime_text(at.secs, at.nanos, at.offset_secs, format) {
        Some(t) => t,
        None => Seq::empty(),
    }
}

/// A name and a number as `name:number`.
pub open spec fn labelled(name: Seq<char>, id: nat) -> Seq<char> {
    name + seq![':'] + decimal(id)
}

/// Where a record comes from; `start` is the moment from which elapsed time counts.
pub open spec fn origin_of(record: LogRecord, start: Timestamp) -> Origin {
    Origin {
        name: record.caller.name@,
        function: record.caller.function@,
        line: decimal(record.caller.line as nat),
        file: record.caller.file@,
        elapsed: elapsed_text(elapsed_millis(start, record.timestamp)),
        thread: labelled(record.thread.name@, record.thread.id as nat),
        process: labelled(record.process.name@, record.process.id as nat),
    }
}

/// What a template can show of a record.
pub open spec fn record_fields(record: LogRecord, time_format: Seq<char>, start: Timestamp) -> Fields {
    Fields {
        time: time_text(record.timestamp, time_format),
        level: record.label(),
        color: record.color(),
        message: record.message@,
        extra: record.extra@,
        origin: Some(origin_of(record, start)),
    }
}

/// What a template can show where no record is at hand.
pub open spec fn plain_fields(
    timestamp: Timestamp,
    level: LogLevel,
    message: Seq<char>,
    extra: Map<Seq<char>, String>,
    time_format: Seq<char>,
) -> Fields {
    Fields {
        time: time_text(timestamp, time_format),
        level: level.label(),
        color: level.default_color(),
        message,
        extra,
        origin: None,
    }
}

/// A text in cyan where colours are on.
pub open spec fn accent(text: Seq<char>, colorize: bool) -> Seq<char> {
    if colorize {
        cyan(text)
    } else {
        text
    }
}

/// A text dimmed where colours are on.
pub open spec fn faint(text: Seq<char>, colorize: bool) -> Seq<char> {
    if colorize {
        dimmed(text)
    } else {
        text
    }
}

/// A level's name in bold and in the level's colour where colours are on.
pub open spec fn badge(text: Seq<char>, color: Color, colorize: bool) -> Seq<char> {
    if colorize {
        colorized(text, color, true)
    } else {
        text
    }
}

/// A text about where a record comes from; nothing where that is not at hand.
pub open spec fn origin_text(origin: Option<Origin>, pick: spec_fn(Origin) -> Seq<char>, colorize: bool) -> Seq<
    char,
> {
    match origin {
        Some(o) => accent(pick(o), colorize),
        None => Seq::empty(),
    }
}

/// What one token writes.
pub open spec fn piece_text(p: Piece, f: Fields, colorize: bool) -> Seq<char> {
    match p {
        Piece::Static(s) => s,
        Piece::Time => faint(f.time, colorize),
        Piece::Level => badge(f.level, f.color, colorize),
        Piece::LevelWidth(width) => badge(pad_right(f.level, width), f.color, colorize),
        Piece::Message => if colorize {
            markup(f.message, Seq::empty())
        } else {
            f.message
        },
        Piece::Extra(key) => if f.extra.contains_key(key) {
            f.extra[key]@
        } else {
            Seq::empty()
        },
        Piece::Name => origin_text(f.origin, |o: Origin| o.name, colorize),
        Piece::Module => origin_text(f.origin, |o: Origin| o.name, colorize),
        Piece::Function => origin_text(f.origin, |o: Origin| o.function, colorize),
        Piece::Line => origin_text(f.origin, |o: Origin| o.line, colorize),
        Piece::File => origin_text(f.origin, |o: Origin| o.file, colorize),
        Piece::Thread => origin_text(f.origin, |o: Origin| o.thread, colorize),
        Piece::Process => origin_text(f.origin, |o: Origin| o.process, colorize),
        Piece::Elapsed => match f.origin {
            Some(o) => faint(o.elapsed, colorize),
            None => Seq::empty(),
        },
    }
}

/// What the tokens of a template write, one after the other.
pub open spec fn render(ps: Seq<Piece>, f: Fields, colorize: bool) -> Seq<char>
    decreases ps.len(),
{
    if ps.len() == 0 {
        Seq::empty()
    } else {
        render(ps.drop_last(), f, colorize) + piece_text(ps.last(), f, colorize)
    }
}

/// A line with, on a line of its own behind it, the text of an exception where
/// there is one.
pub open spec fn with_exception(line: Seq<char>, exception: Option<String>) -> Seq<char> {
    match exception {
        Some(e) => line + seq!['\n'] + e@,
        None => line,
    }
}

/// A record as a line of text by a template.
pub open spec fn template_line(
    config: &FormatConfig,
    record: LogRecord,
    colorize: bool,
    start: Timestamp,
) -> Seq<char> {
    with_exception(
        render(config.pieces(), record_fields(record, config.time_format_text(), start), colorize),
        record.exception,
    )
}

/// Time, level, message and context as a line of text by a template; tokens
/// that ask for anything else write nothing.
pub open spec fn plain_line(
    config: &FormatConfig,
    timestamp: Timestamp,
    level: LogLevel,
    message: Seq<char>,
    extra: Map<Seq<char>, String>,
    exception: Option<String>,
    colorize: bool,
) -> Seq<char> {
    with_exception(
        render(
            config.pieces(),
            plain_fields(timestamp, level, message, extra, config.time_format_text()),
            colorize,
        ),
        exception,
    )
}

/// A record as a line: a JSON object where the configuration says so, else
/// what the template writes.
pub open spec fn record_line(config: &FormatConfig, record: LogRecord, colorize: bool, start: Timestamp) -> Seq<
    char,
> {
    if config.serializes() {
        object_text(record_members(time_text(record.timestamp, config.time_format_text()), record))
    } else {
        template_line(config, record, colorize, start)
    }
}

proof fn lemma_render_push(ps: Seq<Piece>, p: Piece, f: Fields, colorize: bool)
    ensures
        render(ps.push(p), f, colorize) == render(ps, f, colorize) + piece_text(p, f, colorize),
{
    assert(ps.push(p).drop_last() =~= ps);
}

/// The texts of the static tokens, in the order of the tokens.
pub open spec fn static_literals(ps: Seq<Piece>) -> Seq<Seq<char>>
    decreases ps.len(),
{
    if ps.len() == 0 {
        Seq::empty()
    } else {
        match ps.last() {
            Piece::Static(s) => static_literals(ps.drop_last()).push(s),
            _ => static_literals(ps.drop_last()),
        }
    }
}

/// Whether the texts stand in `out` one after the other, in their order and
/// without one reaching into the next.
pub open spec fn holds_in_order(out: Seq<char>, texts: Seq<Seq<char>>) -> bool
    decreases texts.len(),
{
    if texts.len() == 0 {
        true
    } else {
        exists|i: int|
            0 <= i && i + texts.last().len() <= out.len() && #[trigger] out.subrange(
                i,
                i + texts.last().len(),
            ) == texts.last() && holds_in_order(out.take(i), texts.drop_last())
    }
}

/// Texts that stand in a text in their order stand in any text that it begins.
proof fn lemma_holds_in_longer(out: Seq<char>, more: Seq<char>, texts: Seq<Seq<char>>)
    requires
        holds_in_order(out, texts),
    ensures
        holds_in_order(out + more, texts),
{
    if texts.len() > 0 {
        let i = choose|i: int|
            0 <= i && i + texts.last().len() <= out.len() && #[trigger] out.subrange(
                i,
                i + texts.last().len(),
            ) == texts.last() && holds_in_order(out.take(i), texts.drop_last());
        assert((out + more).subrange(i, i + texts.last().len()) =~= out.subrange(
            i,
            i + texts.last().len(),
        ));
        assert((out + more).take(i) =~= out.take(i));
    }
}

/// What the tokens of a template write holds the text of each static token,
/// in the order of the tokens.
pub proof fn lemma_literals_in_order(ps: Seq<Piece>, f: Fields, colorize: bool)
    ensures
        holds_in_order(render(ps, f, colorize), static_literals(ps)),
    decreases ps.len(),
{
    if ps.len() > 0 {
        let front = render(ps.drop_last(), f, colorize);
        lemma_literals_in_order(ps.drop_last(), f, colorize);
        match ps.last() {
            Piece::Static(s) => {
                let out = front + s;
                let texts = static_literals(ps);
                let i = front.len() as int;
                assert(texts.last() == s);
                assert(texts.drop_last() =~= static_literals(ps.drop_last()));
                assert(out.subrange(i, i + s.len()) =~= s);
                assert(out.take(i) =~= front);
            },
            _ => {
                lemma_holds_in_longer(
                    front,
                    piece_text(ps.last(), f, colorize),
                    static_literals(ps.drop_last()),
                );
            },
        }
    }
}

/// The line that a template makes of a record holds every static text of the
/// template, in the order of the template, whatever the record holds.
pub proof fn lemma_statics_in_line(config: &FormatConfig, record: LogRecord, colorize: bool, start: Timestamp)
    requires
        config.wf(),
    ensures
        holds_in_order(
            template_line(config, record, colorize, start),
            static_literals(parse(config.template_text())),
        ),
{
    let f = record_fields(record, config.time_format_text(), start);
    let line = render(config.pieces(), f, colorize);
    lemma_literals_in_order(config.pieces(), f, colorize);
    match record.exception {
        Some(e) => {
            lemma_holds_in_longer(line, seq!['\n'] + e@, static_literals(config.pieces()));
            assert(line + (seq!['\n'] + e@) =~= line + seq!['\n'] + e@);
        },
        None => {},
    }
}

fn accent_text(text: &str, colorize: bool) -> (r: String)
    ensures
        r@ == accent(text@, colorize),
{
    if colorize {
        cyan_text(text)
    } else {
        text.to_string()
    }
}

fn faint_text(text: &str, colorize: bool) -> (r: String)
    ensures
        r@ == faint(text@, colorize),
{
    if colorize {
        dim_text(text)
    } else {
        text.to_string()
    }
}

fn badge_text(text: &str, color: Color, colorize: bool) -> (r: String)
    ensures
        r@ == badge(text@, color, colorize),
{
    if colorize {
        colorize_text(text, color, true)
    } else {
        text.to_string()
    }
}

fn labelled_text(name: &str, id: u64) -> (r: String)
    ensures
        r@ == labelled(name@, id as nat),
{
    let mut r = name.to_string();
    push_char(&mut r, ':');
    r.append(decimal_string(id as u128).as_str());
    r
}

/// Appends the text of an exception, on a line of its own, where there is one.
fn append_exception(line: &mut String, exception: &Option<String>)
    ensures
        final(line)@ == with_exception(old(line)@, *exception),
{
    match exception {
        Some(e) => {
            push_char(line, '\n');
            line.append(e.as_str());
        },
        None => {},
    }
}

/// The formatted time of an instant; the empty text where it cannot be formatted.
pub fn format_time(at: &Timestamp, format: &str) -> (r: String)
    ensures
        r@ == time_text(*at, format@),
{
    match at.format(format) {
        Some(t) => t,
        None => String::new(),
    }
}

/// What the tokens write, from texts that were prepared for them. A text that
/// no token asks for need not be prepared.
fn render_tokens(
    tokens: &Vec<FormatToken>,
    time: &Option<String>,
    level: &Option<String>,
    message: &Option<String>,
    level_name: &str,
    level_color: Color,
    extra: &Context,
    origin: Option<&LogRecord>,
    start: &Timestamp,
    colorize: bool,
    Ghost(f): Ghost<Fields>,
) -> (r: String)
    requires
        requirements_of(token_pieces(tokens@)).needs_time ==> time.is_some() && time.unwrap()@ == faint(
            f.time,
            colorize,
        ),
        requirements_of(token_pieces(tokens@)).needs_level ==> level.is_some() && level.unwrap()@
            == badge(f.level, f.color, colorize),
        requirements_of(token_pieces(tokens@)).needs_message ==> message.is_some()
            && message.unwrap()@ == (if colorize {
            markup(f.message, Seq::empty())
        } else {
            f.message
        }),
        level_name@ == f.level,
        level_color == f.color,
        extra@ == f.extra,
        match origin {
            Some(record) => f.origin == Some(origin_of(*record, *start)),
            None => f.origin.is_none(),
        },
    ensures
        r@ == render(token_pieces(tokens@), f, colorize),
{
    let mut result = String::new();
    let ghost ps = token_pieces(tokens@);
    let mut i: usize = 0;
    assert(ps.take(0) =~= Seq::<Piece>::empty());
    while i < tokens.len()
        invariant
            i <= tokens.len(),
            ps == token_pieces(tokens@),
            result@ == render(ps.take(i as int), f, colorize),
            requirements_of(ps).needs_time ==> time.is_some() && time.unwrap()@ == faint(f.time, colorize),
            requirements_of(ps).needs_level ==> level.is_some() && level.unwrap()@ == badge(
                f.level,
                f.color,
                colorize,
            ),
            requirements_of(ps).needs_message ==> message.is_some() && message.unwrap()@ == (if colorize {
                markup(f.message, Seq::empty())
            } else {
                f.message
            }),
            level_name@ == f.level,
            level_color == f.color,
            extra@ == f.extra,
            match origin {
                Some(record) => f.origin == Some(origin_of(*record, *start)),
                None => f.origin.is_none(),
            },
        decreases tokens.len() - i,
    {
        let ghost before = result@;
        let ghost p = ps[i as int];
        proof {
            assert(p == tokens[i as int]@);
            assert(ps.take(i + 1) =~= ps.take(i as int).push(p));
            lemma_render_push(ps.take(i as int), p, f, colorize);
            lemma_requirements_cover(ps, i as int);
        }
        match &tokens[i] {
            FormatToken::Static(s) => {
                result.append(s.as_str());
            },
            FormatToken::Time => {
                if let Some(text) = time {
                    result.append(text.as_str());
                }
            },
            FormatToken::Message => {
                if let Some(text) = message {
                    result.append(text.as_str());
                }
            },
            FormatToken::Level => {
                if let Some(text) = level {
                    result.append(text.as_str());
                }
            },
            FormatToken::LevelWidth(width) => {
                let padded = pad_to_width(level_name, *width);
                result.append(badge_text(padded.as_str(), level_color, colorize).as_str());
            },
            FormatToken::Extra(key) => {
                if let Some(value) = extra.get(key.as_str()) {
                    result.append(value.as_str());
                }
            },
            FormatToken::Name => {
                if let Some(record) = origin {
                    result.append(accent_text(record.caller.name.as_str(), colorize).as_str());
                }
            },
            FormatToken::Function => {
                if let Some(record) = origin {
                    result.append(accent_text(record.caller.function.as_str(), colorize).as_str());
                }
            },
            FormatToken::Line => {
                if let Some(record) = origin {
                    let line = decimal_string(record.caller.line as u128);
                    result.append(accent_text(line.as_str(), colorize).as_str());
                }
            },
            FormatToken::Elapsed => {
                if let Some(record) = origin {
                    let elapsed = format_elapsed(start, &record.timestamp);
                    result.append(faint_text(elapsed.as_str(), colorize).as_str());
                }
            },
            FormatToken::Thread => {
                if let Some(record) = origin {
                    let thread = labelled_text(record.thread.name.as_str(), record.thread.id);
                    result.append(accent_text(thread.as_str(), colorize).as_str());
                }
            },
            FormatToken::Process => {
                if let Some(record) = origin {
                    let process = labelled_text(record.process.name.as_str(), record.process.id as u64);
                    result.append(accent_text(process.as_str(), colorize).as_str());
                }
            },
            FormatToken::File => {
                if let Some(record) = origin {
                    result.append(accent_text(record.caller.file.as_str(), colorize).as_str());
                }
            },
            FormatToken::Module => {
                if let Some(record) = origin {
                    result.append(accent_text(record.caller.name.as_str(), colorize).as_str());
                }
            },
        }
        proof {
            assert(result@ =~= before + piece_text(p, f, colorize));
        }
        i += 1;
    }
    assert(ps.take(tokens.len() as int) =~= ps);
    result
}

impl FormatConfig {
    /// Formats time, level, message and context: as JSON where the
    /// configuration says so, else by the template.
    pub fn format(
        &self,
        timestamp: &Timestamp,
        level: LogLevel,
        message: &str,
        extra: &Context,
        exception: &Option<String>,
        colorize: bool,
    ) -> (r: String)
        ensures
            r@ == (if self.serializes() {
                object_text(
                    plain_members(
                        time_text(*timestamp, self.time_format_text()),
                        level.label(),
                        message@,
                        *extra,
                        *exception,
                    ),
                )
            } else {
                plain_line(self, *timestamp, level, message@, extra@, *exception, colorize)
            }),
    {
        if self.serialize() {
            self.format_json(timestamp, level, message, extra, exception)
        } else {
            self.format_template(timestamp, level, message, extra, exception, colorize)
        }
    }

    /// Formats a record: as JSON where the configuration says so, else by the
    /// template. Elapsed time counts from `start`.
    pub fn format_record(&self, record: &LogRecord, colorize: bool, start: &Timestamp) -> (r: String)
        ensures
            r@ == record_line(self, *record, colorize, *start),
    {
        if self.serialize() {
            self.format_record_json(record)
        } else {
            self.format_record_template(record, colorize, start)
        }
    }

    /// Formats a record by the template. Of time, level and message only what
    /// the template asks for is worked out.
    pub fn format_record_template(&self, record: &LogRecord, colorize: bool, start: &Timestamp) -> (r:
        String)
        ensures
            r@ == template_line(self, *record, colorize, *start),
    {
        let reqs = self.requirements();
        let tokens = self.tokens();
        let level_name = record.level_name();
        let level_color = record.level_color();
        let time_fmt = if reqs.needs_time {
            let time_raw = format_time(&record.timestamp, self.time_format());
            Some(faint_text(time_raw.as_str(), colorize))
        } else {
            None
        };
        let level_fmt = if reqs.needs_level {
            Some(badge_text(level_name, level_color, colorize))
        } else {
            None
        };
        let message_fmt = if reqs.needs_message {
            if colorize {
                Some(apply_color_markup(record.message.as_str()))
            } else {
                Some(record.message.clone())
            }
        } else {
            None
        };
        let ghost f = record_fields(*record, self.time_format_text(), *start);
        let mut result = render_tokens(
            tokens,
            &time_fmt,
            &level_fmt,
            &message_fmt,
            level_name,
            level_color,
            &record.extra,
            Some(record),
            start,
            colorize,
            Ghost(f),
        );
        append_exception(&mut result, &record.exception);
        result
    }

    /// Formats time, level, message and context by the template. Tokens that
    /// ask for caller, thread, process or elapsed time write nothing.
    pub fn format_template(
        &self,
        timestamp: &Timestamp,
        level: LogLevel,
        message: &str,
        extra: &Context,
        exception: &Option<String>,
        colorize: bool,
    ) -> (r: String)
        ensures
            r@ == plain_line(self, *timestamp, level, message@, extra@, *exception, colorize),
    {
        let tokens = self.tokens();
        let level_name = level.as_str();
        let level_color = level.color();
        let time_raw = format_time(timestamp, self.time_format());
        let time_fmt = Some(faint_text(time_raw.as_str(), colorize));
        let level_fmt = Some(badge_text(level_name, level_color, colorize));
        let message_fmt = if colorize {
            Some(apply_color_markup(message))
        } else {
            Some(message.to_string())
        };
        let ghost f = plain_fields(*timestamp, level, message@, extra@, self.time_format_text());
        let mut result = render_tokens(
            tokens,
            &time_fmt,
            &level_fmt,
            &message_fmt,
            level_name,
            level_color,
            extra,
            None,
            timestamp,
            colorize,
            Ghost(f),
        );
        append_exception(&mut result, exception);
        result
    }
}

} // verus!
