//! Format templates: the tokens of a template, how a template is read, and
//! which fields of a record a template asks for.

use crate::text::{
    ends_with, from_chars, lemma_span_len, lemma_span_stop, parse_unsigned, range_equals, slice_chars,
    span_len, starts_with, to_chars, unsigned_value,
};
use vstd::prelude::*;

verus! {

/// The template that is used where none is given.
pub const DEFAULT_FORMAT_TEMPLATE: &'static str =
    "{time} | {level:<8} | {name}:{function}:{line} - {message}";

/// The time format that is used where none is given: date, time and milliseconds.
pub const DEFAULT_TIME_FORMAT: &'static str = "%Y-%m-%d %H:%M:%S%.3f";

/// Which fields of a record are needed to format it.
#[derive(Clone, Copy, Debug, PartialEq, Eq, Structural)]
pub struct TokenRequirements {
    /// Name, module, function, line or file of the caller.
    pub needs_caller: bool,
    pub needs_thread: bool,
    pub needs_process: bool,
    pub needs_time: bool,
    pub needs_level: bool,
    pub needs_message: bool,
    pub needs_elapsed: bool,
}

impl Default for TokenRequirements {
    fn default() -> (r: Self)
        ensures
            r == TokenRequirements::none(),
    {
        TokenRequirements {
            needs_caller: false,
            needs_thread: false,
            needs_process: false,
            needs_time: false,
            needs_level: false,
            needs_message: false,
            needs_elapsed: false,
        }
    }
}

impl TokenRequirements {
    /// Nothing is needed.
    pub open spec fn none() -> TokenRequirements {
        TokenRequirements {
            needs_caller: false,
            needs_thread: false,
            needs_process: false,
            needs_time: false,
            needs_level: false,
            needs_message: false,
            needs_elapsed: false,
        }
    }

    /// Everything is needed.
    pub open spec fn every() -> TokenRequirements {
        TokenRequirements {
            needs_caller: true,
            needs_thread: true,
            needs_process: true,
            needs_time: true,
            needs_level: true,
            needs_message: true,
            needs_elapsed: true,
        }
    }

    /// What is needed by one or the other.
    pub open spec fn union(self, other: TokenRequirements) -> TokenRequirements {
        TokenRequirements {
            needs_caller: self.needs_caller || other.needs_caller,
            needs_thread: self.needs_thread || other.needs_thread,
            needs_process: self.needs_process || other.needs_process,
            needs_time: self.needs_time || other.needs_time,
            needs_level: self.needs_level || other.needs_level,
            needs_message: self.needs_message || other.needs_message,
            needs_elapsed: self.needs_elapsed || other.needs_elapsed,
        }
    }

    /// Everything that `other` needs is needed by `self` too.
    pub open spec fn covers(self, other: TokenRequirements) -> bool {
        self.union(other) == self
    }

    pub fn merge(&self, other: &TokenRequirements) -> (r: TokenRequirements)
        ensures
            r == self.union(*other),
    {
        TokenRequirements {
            needs_caller: self.needs_caller || other.needs_caller,
            needs_thread: self.needs_thread || other.needs_thread,
            needs_process: self.needs_process || other.needs_process,
            needs_time: self.needs_time || other.needs_time,
            needs_level: self.needs_level || other.needs_level,
            needs_message: self.needs_message || other.needs_message,
            needs_elapsed: self.needs_elapsed || other.needs_elapsed,
        }
    }

    pub fn all() -> (r: TokenRequirements)
        ensures
            r == TokenRequirements::every(),
    {
        TokenRequirements {
            needs_caller: true,
            needs_thread: true,
            needs_process: true,
            needs_time: true,
            needs_level: true,
            needs_message: true,
            needs_elapsed: true,
        }
    }
}

/// One token of a template that was read.
#[derive(Debug)]
pub enum FormatToken {
    /// Text that is copied as it stands.
    Static(String),
    Time,
    Level,
    /// The level's name, filled up with spaces to a width.
    LevelWidth(usize),
    Message,
    /// The value that the record's context holds under a key.
    Extra(String),
    Name,
    Function,
    Line,
    Elapsed,
    Thread,
    Process,
    File,
    /// Another word for `Name`.
    Module,
}

impl Clone for FormatToken {
    fn clone(&self) -> (r: Self)
        ensures
            r == *self,
    {
        match self {
            FormatToken::Static(s) => FormatToken::Static(s.clone()),
            FormatToken::Time => FormatToken::Time,
            FormatToken::Level => FormatToken::Level,
            FormatToken::LevelWidth(w) => FormatToken::LevelWidth(*w),
            FormatToken::Message => FormatToken::Message,
            FormatToken::Extra(k) => FormatToken::Extra(k.clone()),
            FormatToken::Name => FormatToken::Name,
            FormatToken::Function => FormatToken::Function,
            FormatToken::Line => FormatToken::Line,
            FormatToken::Elapsed => FormatToken::Elapsed,
            FormatToken::Thread => FormatToken::Thread,
            FormatToken::Process => FormatToken::Process,
            FormatToken::File => FormatToken::File,
            FormatToken::Module => FormatToken::Module,
        }
    }
}

/// A token as a mathematical value.
pub enum Piece {
    Static(Seq<char>),
    Time,
    Level,
    LevelWidth(nat),
    Message,
    Extra(Seq<char>),
    Name,
    Function,
    Line,
    Elapsed,
    Thread,
    Process,
    File,
    Module,
}

impl View for FormatToken {
    type V = Piece;

    open spec fn view(&self) -> Piece {
        match self {
            FormatToken::Static(s) => Piece::Static(s@),
            FormatToken::Time => Piece::Time,
            FormatToken::Level => Piece::Level,
            FormatToken::LevelWidth(w) => Piece::LevelWidth(*w as nat),
            FormatToken::Message => Piece::Message,
            FormatToken::Extra(k) => Piece::Extra(k@),
            FormatToken::Name => Piece::Name,
            FormatToken::Function => Piece::Function,
            FormatToken::Line => Piece::Line,
            FormatToken::Elapsed => Piece::Elapsed,
            FormatToken::Thread => Piece::Thread,
            FormatToken::Process => Piece::Process,
            FormatToken::File => Piece::File,
            FormatToken::Module => Piece::Module,
        }
    }
}

/// The tokens of a vector as mathematical values.
pub open spec fn token_pieces(tokens: Seq<FormatToken>) -> Seq<Piece> {
    Seq::new(tokens.len(), |i: int| tokens[i]@)
}

/// What one token asks for.
pub open spec fn piece_needs(p: Piece) -> TokenRequirements {
    TokenRequirements {
        needs_caller: p is Name || p is Module || p is Function || p is Line || p is File,
        needs_thread: p is Thread,
        needs_process: p is Process,
        needs_time: p is Time,
        needs_level: p is Level || p is LevelWidth,
        needs_message: p is Message,
        needs_elapsed: p is Elapsed,
    }
}

/// What the tokens of a template ask for, taken together.
pub open spec fn requirements_of(ps: Seq<Piece>) -> TokenRequirements
    decreases ps.len(),
{
    if ps.len() == 0 {
        TokenRequirements::none()
    } else {
        requirements_of(ps.drop_last()).union(piece_needs(ps.last()))
    }
}

/// What a template asks for covers what each of its tokens asks for.
pub proof fn lemma_requirements_cover(ps: Seq<Piece>, i: int)
    requires
        0 <= i < ps.len(),
    ensures
        requirements_of(ps).covers(piece_needs(ps[i])),
    decreases ps.len(),
{
    if i < ps.len() - 1 {
        lemma_requirements_cover(ps.drop_last(), i);
    }
}

pub fn compute_requirements(tokens: &Vec<FormatToken>) -> (r: TokenRequirements)
    ensures
        r == requirements_of(token_pieces(tokens@)),
{
    let mut reqs = TokenRequirements::default();
    let ghost ps = token_pieces(tokens@);
    let mut i: usize = 0;
    assert(ps.take(0) =~= Seq::<Piece>::empty());
    while i < tokens.len()
        invariant
            i <= tokens.len(),
            ps == token_pieces(tokens@),
            reqs == requirements_of(ps.take(i as int)),
        decreases tokens.len() - i,
    {
        proof {
            assert(ps.take(i + 1).drop_last() =~= ps.take(i as int));
            assert(ps.take(i + 1).last() == tokens[i as int]@);
        }
        match &tokens[i] {
            FormatToken::Name
            | FormatToken::Module
            | FormatToken::Function
            | FormatToken::Line
            | FormatToken::File => {
                reqs.needs_caller = true;
            },
            FormatToken::Thread => {
                reqs.needs_thread = true;
            },
            FormatToken::Process => {
                reqs.needs_process = true;
            },
            FormatToken::Time => {
                reqs.needs_time = true;
            },
            FormatToken::Level | FormatToken::LevelWidth(_) => {
                reqs.needs_level = true;
            },
            FormatToken::Message => {
                reqs.needs_message = true;
            },
            FormatToken::Elapsed => {
                reqs.needs_elapsed = true;
            },
            _ => {},
        }
        i += 1;
    }
    assert(ps.take(tokens.len() as int) =~= ps);
    reqs
}

/// The token that a placeholder stands for, by what is written between its
/// braces; `None` for what is no placeholder of the template language.
pub open spec fn classify(body: Seq<char>) -> Option<Piece> {
    if body == "time"@ {
        Some(Piece::Time)
    } else if body == "message"@ {
        Some(Piece::Message)
    } else if body == "level"@ {
        Some(Piece::Level)
    } else if body == "name"@ {
        Some(Piece::Name)
    } else if body == "function"@ {
        Some(Piece::Function)
    } else if body == "line"@ {
        Some(Piece::Line)
    } else if body == "elapsed"@ {
        Some(Piece::Elapsed)
    } else if body == "thread"@ {
        Some(Piece::Thread)
    } else if body == "process"@ {
        Some(Piece::Process)
    } else if body == "file"@ {
        Some(Piece::File)
    } else if body == "module"@ {
        Some(Piece::Module)
    } else if starts_with(body, "level:<"@) {
        match unsigned_value(body.skip("level:<"@.len() as int)) {
            Some(n) => if n <= usize::MAX {
                Some(Piece::LevelWidth(n))
            } else {
                None
            },
            None => None,
        }
    } else if starts_with(body, "extra["@) && ends_with(body, "]"@) {
        let key = body.subrange("extra["@.len() as int, body.len() - 1);
        if key.contains(']') {
            None
        } else {
            Some(Piece::Extra(key))
        }
    } else {
        None
    }
}

/// What stands for a placeholder: its token, or its own text where it is no
/// placeholder of the template language.
pub open spec fn placeholder_piece(body: Seq<char>) -> Piece {
    match classify(body) {
        Some(p) => p,
        None => Piece::Static(seq!['{'] + body + seq!['}']),
    }
}

/// A template cut into its parts from left to right: each character outside
/// braces, and each placeholder. A `{` opens a placeholder that runs to the
/// next `}`. Where no `}` follows, there is no placeholder: the `{` and all
/// that comes after it is static text as it stands.
pub open spec fn scan(t: Seq<char>) -> Seq<Piece>
    decreases t.len(),
{
    if t.len() == 0 {
        Seq::empty()
    } else if t[0] != '{' {
        seq![Piece::Static(seq![t[0]])] + scan(t.skip(1))
    } else {
        let after = t.skip(1);
        let n = span_len(after, '}');
        if n < after.len() {
            seq![placeholder_piece(after.take(n as int))] + scan(after.skip(n as int + 1))
        } else {
            seq![Piece::Static(t)]
        }
    }
}

/// A sequence of tokens with one more part at its end; static text joins the
/// static text before it.
pub open spec fn join(tokens: Seq<Piece>, p: Piece) -> Seq<Piece> {
    match p {
        Piece::Static(s) => if tokens.len() > 0 && tokens.last() is Static {
            tokens.drop_last().push(Piece::Static(tokens.last()->Static_0 + s))
        } else {
            tokens.push(p)
        },
        _ => tokens.push(p),
    }
}

/// The parts of a template with all static text that stands together in one token.
pub open spec fn coalesce(parts: Seq<Piece>) -> Seq<Piece>
    decreases parts.len(),
{
    if parts.len() == 0 {
        Seq::empty()
    } else {
        join(coalesce(parts.drop_last()), parts.last())
    }
}

/// The tokens of a template.
pub open spec fn parse(t: Seq<char>) -> Seq<Piece> {
    coalesce(scan(t))
}

/// The tokens that were read, with the static text not yet made a token.
spec fn pending(tokens: Seq<Piece>, text: Seq<char>) -> Seq<Piece> {
    if text.len() == 0 {
        tokens
    } else {
        tokens.push(Piece::Static(text))
    }
}

fn classify_placeholder(chars: &Vec<char>, from: usize, to: usize) -> (r: Option<FormatToken>)
    requires
        from <= to <= chars.len(),
    ensures
        match r {
            Some(token) => classify(chars@.subrange(from as int, to as int)) == Some(token@),
            None => classify(chars@.subrange(from as int, to as int)).is_none(),
        },
{
    let ghost body = chars@.subrange(from as int, to as int);
    if range_equals(chars, from, to, "time") {
        Some(FormatToken::Time)
    } else if range_equals(chars, from, to, "message") {
        Some(FormatToken::Message)
    } else if range_equals(chars, from, to, "level") {
        Some(FormatToken::Level)
    } else if range_equals(chars, from, to, "name") {
        Some(FormatToken::Name)
    } else if range_equals(chars, from, to, "function") {
        Some(FormatToken::Function)
    } else if range_equals(chars, from, to, "line") {
        Some(FormatToken::Line)
    } else if range_equals(chars, from, to, "elapsed") {
        Some(FormatToken::Elapsed)
    } else if range_equals(chars, from, to, "thread") {
        Some(FormatToken::Thread)
    } else if range_equals(chars, from, to, "process") {
        Some(FormatToken::Process)
    } else if range_equals(chars, from, to, "file") {
        Some(FormatToken::File)
    } else if range_equals(chars, from, to, "module") {
        Some(FormatToken::Module)
    } else {
        proof {
            reveal_strlit("level:<");
            reveal_strlit("extra[");
            reveal_strlit("]");
        }
        if to - from >= 7 && range_equals(chars, from, from + 7, "level:<") {
            assert(body.subrange(0, 7) =~= chars@.subrange(from as int, from + 7));
            assert(body.skip(7) =~= chars@.subrange(from + 7, to as int));
            assert(starts_with(body, "level:<"@));
            match parse_unsigned(chars, from + 7, to, usize::MAX as u64) {
                Some(n) => Some(FormatToken::LevelWidth(n as usize)),
                None => None,
            }
        } else {
            assert(!starts_with(body, "level:<"@)) by {
                if to - from >= 7 {
                    assert(body.subrange(0, 7) =~= chars@.subrange(from as int, from + 7));
                }
            }
            if to - from >= 7 && range_equals(chars, from, from + 6, "extra[") && chars[to - 1] == ']' {
                assert(body.subrange(0, 6) =~= chars@.subrange(from as int, from + 6));
                assert(body.subrange(body.len() - 1, body.len() as int) =~= seq![']']);
                let ghost key = body.subrange(6, body.len() - 1);
                assert(key =~= chars@.subrange(from + 6, to - 1));
                proof {
                    assert(starts_with(body, "extra["@));
                    assert("]"@ =~= seq![']']);
                    assert(ends_with(body, "]"@));
                }
                let ghost verdict = classify(body);
                assert(verdict == (if key.contains(']') {
                    None
                } else {
                    Some(Piece::Extra(key))
                }));
                let mut k: usize = from + 6;
                while k < to - 1
                    invariant
                        from + 6 <= k <= to - 1,
                        to <= chars.len(),
                        key == chars@.subrange(from + 6, to - 1),
                        forall|j: int| 0 <= j < k - (from + 6) ==> key[j] != ']',
                        verdict == classify(chars@.subrange(from as int, to as int)),
                        verdict == (if key.contains(']') {
                            None
                        } else {
                            Some(Piece::Extra(key))
                        }),
                    decreases to - k,
                {
                    if chars[k] == ']' {
                        assert(key[k - (from + 6)] == ']');
                        assert(key.contains(']'));
                        return None;
                    }
                    k += 1;
                }
                let key_chars = slice_chars(chars, from + 6, to - 1);
                assert(!key.contains(']'));
                Some(FormatToken::Extra(from_chars(&key_chars)))
            } else {
                assert(!(starts_with(body, "extra["@) && ends_with(body, "]"@))) by {
                    if starts_with(body, "extra["@) && ends_with(body, "]"@) {
                        assert(body.subrange(0, 6) =~= chars@.subrange(from as int, from + 6));
                        assert(body.subrange(body.len() - 1, body.len() as int)[0] == ']');
                        assert(body[body.len() - 1] == ']');
                        assert(body[5] == '[');
                    }
                }
                None
            }
        }
    }
}

/// The parts of a text from a character outside braces onward.
proof fn lemma_scan_char(t: Seq<char>, i: int)
    requires
        0 <= i < t.len(),
        t[i] != '{',
    ensures
        scan(t.skip(i)) == seq![Piece::Static(seq![t[i]])] + scan(t.skip(i + 1)),
{
    assert(t.skip(i).skip(1) =~= t.skip(i + 1));
}

/// The parts of a text from a placeholder onward: the placeholder opens at `i`
/// and is closed at `j`.
proof fn lemma_scan_placeholder(t: Seq<char>, i: int, j: int)
    requires
        0 <= i < j < t.len(),
        t[i] == '{',
        forall|k: int| i < k < j ==> t[k] != '}',
        t[j] == '}',
    ensures
        scan(t.skip(i)) == seq![placeholder_piece(t.subrange(i + 1, j))] + scan(t.skip(j + 1)),
{
    let after = t.skip(i).skip(1);
    assert(after =~= t.skip(i + 1));
    let n = j - i - 1;
    assert forall|k: int| 0 <= k < n implies after[k] != '}' by {
        assert(after[k] == t[i + 1 + k]);
    }
    lemma_span_len(after, '}', n);
    assert(after.take(n) =~= t.subrange(i + 1, j));
    assert(after.skip(n + 1) =~= t.skip(j + 1));
}

/// The parts of a text from a `{` onward that no `}` follows: one static text.
proof fn lemma_scan_open(t: Seq<char>, i: int)
    requires
        0 <= i < t.len(),
        t[i] == '{',
        forall|k: int| i < k < t.len() ==> t[k] != '}',
    ensures
        scan(t.skip(i)) == seq![Piece::Static(t.skip(i))],
{
    let after = t.skip(i).skip(1);
    assert(after =~= t.skip(i + 1));
    assert forall|k: int| 0 <= k < after.len() implies after[k] != '}' by {
        assert(after[k] == t[i + 1 + k]);
    }
    lemma_span_len(after, '}', after.len() as int);
}

/// Static text that comes after tokens which do not end in static text joins
/// the text that is not yet a token.
proof fn lemma_join_text(tokens: Seq<Piece>, text: Seq<char>, more: Seq<char>)
    requires
        more.len() > 0,
        tokens.len() > 0 ==> !(tokens.last() is Static),
    ensures
        join(pending(tokens, text), Piece::Static(more)) == pending(tokens, text + more),
{
    if text.len() > 0 {
        assert(pending(tokens, text).drop_last() =~= tokens);
    } else {
        assert(text + more =~= more);
    }
}

proof fn lemma_coalesce_push(parts: Seq<Piece>, p: Piece)
    ensures
        coalesce(parts.push(p)) == join(coalesce(parts), p),
{
    assert(parts.push(p).drop_last() =~= parts);
}

/// Appends `{`, the characters `chars[from..to]` and `}` to `out`.
fn push_verbatim(out: &mut Vec<char>, chars: &Vec<char>, from: usize, to: usize)
    requires
        from <= to <= chars.len(),
    ensures
        final(out)@ == old(out)@ + (seq!['{'] + chars@.subrange(from as int, to as int) + seq!['}']),
{
    out.push('{');
    let mut k: usize = from;
    while k < to
        invariant
            from <= k <= to <= chars.len(),
            out@ == old(out)@ + seq!['{'] + chars@.subrange(from as int, k as int),
        decreases to - k,
    {
        out.push(chars[k]);
        k += 1;
        assert(out@ =~= old(out)@ + seq!['{'] + chars@.subrange(from as int, k as int));
    }
    out.push('}');
    assert(out@ =~= old(out)@ + (seq!['{'] + chars@.subrange(from as int, to as int) + seq!['}']));
}

/// Reads a template into its tokens.
pub fn parse_template(template: &str) -> (tokens: Vec<FormatToken>)
    ensures
        token_pieces(tokens@) == parse(template@),
{
    let chars = to_chars(template);
    let ghost t = chars@;
    let mut tokens: Vec<FormatToken> = Vec::new();
    let mut static_buf: Vec<char> = Vec::new();
    let ghost mut done: Seq<Piece> = Seq::empty();
    let mut i: usize = 0;
    proof {
        assert(t.skip(0) =~= t);
        assert(token_pieces(tokens@) =~= Seq::<Piece>::empty());
    }
    while i < chars.len()
        invariant
            i <= chars.len(),
            t == chars@,
            done + scan(t.skip(i as int)) == scan(t),
            pending(token_pieces(tokens@), static_buf@) == coalesce(done),
            tokens.len() > 0 ==> !(token_pieces(tokens@).last() is Static),
        decreases chars.len() - i,
    {
        let ghost before = token_pieces(tokens@);
        let ghost buf_before = static_buf@;
        let c = chars[i];
        if c != '{' {
            static_buf.push(c);
            proof {
                let piece = Piece::Static(seq![c]);
                lemma_scan_char(t, i as int);
                assert(done.push(piece) + scan(t.skip(i + 1)) =~= done + scan(t.skip(i as int)));
                lemma_coalesce_push(done, piece);
                lemma_join_text(before, buf_before, seq![c]);
                assert(static_buf@ =~= buf_before + seq![c]);
                done = done.push(piece);
            }
            i += 1;
        } else {
            let start: usize = i + 1;
            let mut j: usize = start;
            while j < chars.len() && chars[j] != '}'
                invariant
                    start <= j <= chars.len(),
                    forall|k: int| start <= k < j ==> chars@[k] != '}',
                decreases chars.len() - j,
            {
                j += 1;
            }
            if j == chars.len() {
                let ghost rest = t.skip(i as int);
                let ghost piece = Piece::Static(rest);
                let mut k: usize = i;
                while k < chars.len()
                    invariant
                        i <= k <= chars.len(),
                        static_buf@ == buf_before + chars@.subrange(i as int, k as int),
                    decreases chars.len() - k,
                {
                    static_buf.push(chars[k]);
                    k += 1;
                    assert(static_buf@ =~= buf_before + chars@.subrange(i as int, k as int));
                }
                proof {
                    lemma_scan_open(t, i as int);
                    assert(chars@.subrange(i as int, chars.len() as int) =~= rest);
                    assert(t.skip(chars.len() as int) =~= Seq::<char>::empty());
                    assert(scan(Seq::<char>::empty()) =~= Seq::<Piece>::empty());
                    assert(done.push(piece) + scan(t.skip(chars.len() as int)) =~= done + scan(
                        t.skip(i as int),
                    ));
                    lemma_coalesce_push(done, piece);
                    lemma_join_text(before, buf_before, rest);
                    done = done.push(piece);
                }
                i = chars.len();
                continue ;
            }
            let next: usize = j + 1;
            let ghost body = t.subrange(start as int, j as int);
            let ghost piece = placeholder_piece(body);
            proof {
                lemma_scan_placeholder(t, i as int, j as int);
                assert(done.push(piece) + scan(t.skip(next as int)) =~= done + scan(t.skip(i as int)));
                lemma_coalesce_push(done, piece);
            }
            match classify_placeholder(&chars, start, j) {
                Some(token) => {
                    if static_buf.len() > 0 {
                        tokens.push(FormatToken::Static(from_chars(&static_buf)));
                        static_buf = Vec::new();
                    }
                    tokens.push(token);
                    proof {
                        assert(token_pieces(tokens@) =~= pending(before, buf_before).push(piece));
                        assert(!(piece is Static)) by {
                            lemma_classify_not_static(body);
                        }
                    }
                },
                None => {
                    push_verbatim(&mut static_buf, &chars, start, j);
                    proof {
                        lemma_join_text(before, buf_before, seq!['{'] + body + seq!['}']);
                    }
                },
            }
            proof {
                done = done.push(piece);
            }
            i = next;
        }
    }
    proof {
        assert(t.skip(chars.len() as int) =~= Seq::<char>::empty());
        assert(done + Seq::<Piece>::empty() =~= done);
    }
    if static_buf.len() > 0 {
        let ghost before = token_pieces(tokens@);
        tokens.push(FormatToken::Static(from_chars(&static_buf)));
        assert(token_pieces(tokens@) =~= before.push(Piece::Static(static_buf@)));
    }
    tokens
}

/// No placeholder of the template language stands for static text.
proof fn lemma_classify_not_static(body: Seq<char>)
    ensures
        match classify(body) {
            Some(p) => !(p is Static),
            None => true,
        },
{
}

/// The text of a token where it is static text; nothing for any other token.
pub open spec fn literal_of(p: Piece) -> Seq<char> {
    match p {
        Piece::Static(s) => s,
        _ => Seq::empty(),
    }
}

/// The static text of a sequence of tokens, joined.
pub open spec fn static_text(ps: Seq<Piece>) -> Seq<char>
    decreases ps.len(),
{
    if ps.len() == 0 {
        Seq::empty()
    } else {
        static_text(ps.drop_last()) + literal_of(ps.last())
    }
}

proof fn lemma_static_text_join(tokens: Seq<Piece>, p: Piece)
    ensures
        static_text(join(tokens, p)) == static_text(tokens) + literal_of(p),
{
    match p {
        Piece::Static(s) => {
            if tokens.len() > 0 && tokens.last() is Static {
                let merged = Piece::Static(tokens.last()->Static_0 + s);
                let joined = tokens.drop_last().push(merged);
                assert(joined.drop_last() =~= tokens.drop_last());
                assert(static_text(joined) =~= static_text(tokens) + s);
            } else {
                assert(tokens.push(p).drop_last() =~= tokens);
            }
        },
        _ => {
            assert(tokens.push(p).drop_last() =~= tokens);
        },
    }
}

/// Putting static text together loses none of it and adds none.
pub proof fn lemma_coalesce_keeps_text(parts: Seq<Piece>)
    ensures
        static_text(coalesce(parts)) == static_text(parts),
    decreases parts.len(),
{
    if parts.len() > 0 {
        lemma_coalesce_keeps_text(parts.drop_last());
        lemma_static_text_join(coalesce(parts.drop_last()), parts.last());
    }
}

/// The static text of the tokens of a template, joined, is the static text of
/// the template: its characters outside placeholders and the placeholders that
/// stand for themselves, in their order and with nothing between them.
pub proof fn lemma_static_spans(t: Seq<char>)
    ensures
        static_text(parse(t)) == static_text(scan(t)),
{
    lemma_coalesce_keeps_text(scan(t));
}

proof fn lemma_static_text_front(p: Piece, rest: Seq<Piece>)
    ensures
        static_text(seq![p] + rest) == literal_of(p) + static_text(rest),
    decreases rest.len(),
{
    let all = seq![p] + rest;
    if rest.len() == 0 {
        assert(all =~= seq![p]);
        assert(all.last() == p);
        assert(all.drop_last() =~= Seq::<Piece>::empty());
        assert(static_text(all.drop_last()) =~= Seq::<char>::empty());
        assert(static_text(rest) =~= Seq::<char>::empty());
        assert(static_text(all) =~= literal_of(p));
        assert(literal_of(p) + static_text(rest) =~= literal_of(p));
    } else {
        lemma_static_text_front(p, rest.drop_last());
        assert(all.drop_last() =~= seq![p] + rest.drop_last());
        assert(all.last() == rest.last());
        assert(literal_of(p) + static_text(rest.drop_last()) + literal_of(rest.last()) =~= literal_of(p)
            + (static_text(rest.drop_last()) + literal_of(rest.last())));
    }
}

proof fn lemma_scan_text(t: Seq<char>)
    requires
        forall|i: int| 0 <= i < scan(t).len() ==> (#[trigger] scan(t)[i]) is Static,
    ensures
        static_text(scan(t)) == t,
    decreases t.len(),
{
    if t.len() == 0 {
        assert(static_text(scan(t)) =~= t);
    } else if t[0] != '{' {
        let rest = t.skip(1);
        let first = Piece::Static(seq![t[0]]);
        assert forall|i: int| 0 <= i < scan(rest).len() implies (#[trigger] scan(rest)[i]) is Static by {
            assert(scan(t)[i + 1] == scan(rest)[i]);
        }
        lemma_scan_text(rest);
        lemma_static_text_front(first, scan(rest));
        assert(seq![t[0]] + rest =~= t);
    } else {
        let after = t.skip(1);
        let n = span_len(after, '}');
        lemma_span_stop(after, '}');
        if n < after.len() {
            let body = after.take(n as int);
            let rest = after.skip(n as int + 1);
            let first = placeholder_piece(body);
            assert(scan(t)[0] == first);
            assert forall|i: int| 0 <= i < scan(rest).len() implies (#[trigger] scan(rest)[i]) is Static by {
                assert(scan(t)[i + 1] == scan(rest)[i]);
            }
            lemma_scan_text(rest);
            lemma_static_text_front(first, scan(rest));
            lemma_classify_not_static(body);
            assert(first == Piece::Static(seq!['{'] + body + seq!['}']));
            assert(seq!['{'] + body + seq!['}'] + rest =~= t);
        } else {
            assert(scan(t) =~= seq![Piece::Static(t)]);
            lemma_static_text_front(Piece::Static(t), Seq::<Piece>::empty());
            assert(seq![Piece::Static(t)] + Seq::<Piece>::empty() =~= seq![Piece::Static(t)]);
            assert(static_text(Seq::<Piece>::empty()) =~= Seq::<char>::empty());
            assert(t + Seq::<char>::empty() =~= t);
        }
    }
}

/// Where a template holds no placeholder of the template language, the static
/// text of its tokens is the template itself, character for character:
/// nothing is added to it and nothing is left out.
pub proof fn lemma_static_text_is_template(t: Seq<char>)
    requires
        forall|i: int| 0 <= i < scan(t).len() ==> (#[trigger] scan(t)[i]) is Static,
    ensures
        static_text(parse(t)) == t,
{
    lemma_static_spans(t);
    lemma_scan_text(t);
}

proof fn lemma_scan_plain(t: Seq<char>)
    requires
        !t.contains('{'),
    ensures
        scan(t).len() == t.len(),
        forall|i: int| 0 <= i < t.len() ==> #[trigger] scan(t)[i] == Piece::Static(seq![t[i]]),
    decreases t.len(),
{
    if t.len() > 0 {
        assert(t.contains(t[0]));
        let rest = t.skip(1);
        assert forall|k: int| 0 <= k < rest.len() implies rest[k] != '{' by {
            assert(rest[k] == t[k + 1]);
            assert(t.contains(t[k + 1]));
        }
        lemma_scan_plain(rest);
        assert forall|i: int| 0 <= i < t.len() implies #[trigger] scan(t)[i] == Piece::Static(
            seq![t[i]],
        ) by {
            if i > 0 {
                assert(scan(t)[i] == scan(rest)[i - 1]);
                assert(rest[i - 1] == t[i]);
            }
        }
    }
}

proof fn lemma_coalesce_statics(parts: Seq<Piece>, t: Seq<char>)
    requires
        parts.len() == t.len(),
        t.len() > 0,
        forall|i: int| 0 <= i < t.len() ==> #[trigger] parts[i] == Piece::Static(seq![t[i]]),
    ensures
        coalesce(parts) == seq![Piece::Static(t)],
    decreases parts.len(),
{
    let front = parts.drop_last();
    let last = t[t.len() - 1];
    assert(parts.last() == Piece::Static(seq![last]));
    if parts.len() == 1 {
        assert(coalesce(front) =~= Seq::<Piece>::empty());
        assert(seq![last] =~= t);
        assert(coalesce(parts) =~= seq![Piece::Static(t)]);
    } else {
        assert forall|i: int| 0 <= i < t.drop_last().len() implies #[trigger] front[i] == Piece::Static(
            seq![t.drop_last()[i]],
        ) by {
            assert(front[i] == parts[i]);
        }
        lemma_coalesce_statics(front, t.drop_last());
        let before = coalesce(front);
        assert(before.last() == Piece::Static(t.drop_last()));
        assert(t.drop_last() + seq![last] =~= t);
        assert(before.drop_last().push(Piece::Static(t)) =~= seq![Piece::Static(t)]);
    }
}

/// A template without `{` is one token of static text; the empty template
/// has no token.
pub proof fn lemma_plain_template(t: Seq<char>)
    requires
        !t.contains('{'),
    ensures
        parse(t) == (if t.len() == 0 {
            Seq::<Piece>::empty()
        } else {
            seq![Piece::Static(t)]
        }),
{
    lemma_scan_plain(t);
    if t.len() > 0 {
        lemma_coalesce_statics(scan(t), t);
    } else {
        assert(scan(t) =~= Seq::<Piece>::empty());
    }
}

/// Whether static text is put together: no static token is empty, and no two
/// static tokens stand side by side.
pub open spec fn is_coalesced(tokens: Seq<Piece>) -> bool {
    &&& forall|i: int|
        0 <= i < tokens.len() && (#[trigger] tokens[i]) is Static ==> tokens[i]->Static_0.len() > 0
    &&& forall|i: int|
        0 <= i < tokens.len() - 1 && (#[trigger] tokens[i]) is Static ==> !(tokens[i + 1] is Static)
}

proof fn lemma_scan_statics(t: Seq<char>)
    ensures
        forall|i: int|
            0 <= i < scan(t).len() && (#[trigger] scan(t)[i]) is Static ==> scan(t)[i]->Static_0.len() > 0,
    decreases t.len(),
{
    if t.len() > 0 {
        if t[0] != '{' {
            lemma_scan_statics(t.skip(1));
        } else {
            let after = t.skip(1);
            let n = span_len(after, '}');
            if n < after.len() {
                lemma_scan_statics(after.skip(n as int + 1));
                lemma_classify_not_static(after.take(n as int));
            }
        }
    }
}

proof fn lemma_coalesce_is_coalesced(parts: Seq<Piece>)
    requires
        forall|i: int| 0 <= i < parts.len() && (#[trigger] parts[i]) is Static ==> parts[i]->Static_0.len() > 0,
    ensures
        is_coalesced(coalesce(parts)),
    decreases parts.len(),
{
    if parts.len() > 0 {
        let front = parts.drop_last();
        assert forall|i: int| 0 <= i < front.len() && (#[trigger] front[i]) is Static implies front[i]->Static_0.len()
            > 0 by {
            assert(front[i] == parts[i]);
        }
        lemma_coalesce_is_coalesced(front);
        let before = coalesce(front);
        let after = join(before, parts.last());
        assert(parts[parts.len() - 1] == parts.last());
        assert forall|i: int| 0 <= i < after.len() && (#[trigger] after[i]) is Static implies after[i]->Static_0.len()
            > 0 by {
            if i < after.len() - 1 {
                assert(after[i] == before[i]);
            }
        }
        assert forall|i: int| 0 <= i < after.len() - 1 && (#[trigger] after[i]) is Static implies !(after[i
            + 1] is Static) by {
            if i < after.len() - 2 {
                assert(after[i] == before[i]);
                assert(after[i + 1] == before[i + 1]);
            } else {
                assert(after[i] == before[i]);
            }
        }
    }
}

/// The tokens of a template hold no empty static text, and no static text
/// beside static text.
pub proof fn lemma_parse_is_coalesced(t: Seq<char>)
    ensures
        is_coalesced(parse(t)),
{
    lemma_scan_statics(t);
    lemma_coalesce_is_coalesced(scan(t));
}

/// How records are formatted: a template that was read once, or JSON.
#[derive(Debug)]
pub struct FormatConfig {
    template: String,
    tokens: Vec<FormatToken>,
    serialize: bool,
    time_format: String,
    requirements: TokenRequirements,
}

impl Clone for FormatConfig {
    fn clone(&self) -> (r: Self)
        ensures
            r.template_text() == self.template_text(),
            r.pieces() == self.pieces(),
            r.serializes() == self.serializes(),
            r.time_format_text() == self.time_format_text(),
            r.needs() == self.needs(),
            r.wf(),
    {
        proof {
            use_type_invariant(self);
        }
        let mut tokens: Vec<FormatToken> = Vec::new();
        let mut i: usize = 0;
        while i < self.tokens.len()
            invariant
                i <= self.tokens.len(),
                tokens@ == self.tokens@.take(i as int),
            decreases self.tokens.len() - i,
        {
            tokens.push(self.tokens[i].clone());
            i += 1;
            assert(tokens@ =~= self.tokens@.take(i as int));
        }
        assert(tokens@ =~= self.tokens@);
        FormatConfig {
            template: self.template.clone(),
            tokens,
            serialize: self.serialize,
            time_format: self.time_format.clone(),
            requirements: self.requirements,
        }
    }
}

impl Default for FormatConfig {
    fn default() -> (r: Self)
        ensures
            r.template_text() == DEFAULT_FORMAT_TEMPLATE@,
            !r.serializes(),
            r.time_format_text() == DEFAULT_TIME_FORMAT@,
            r.wf(),
    {
        FormatConfig::new(None, false)
    }
}

impl FormatConfig {
    #[verifier::type_invariant]
    spec fn inv(&self) -> bool {
        &&& token_pieces(self.tokens@) == parse(self.template@)
        &&& self.requirements == requirements_of(token_pieces(self.tokens@))
    }

    /// The template as it was given.
    pub closed spec fn template_text(&self) -> Seq<char> {
        self.template@
    }

    /// The tokens of the template.
    pub closed spec fn pieces(&self) -> Seq<Piece> {
        token_pieces(self.tokens@)
    }

    /// Whether records are written as JSON.
    pub closed spec fn serializes(&self) -> bool {
        self.serialize
    }

    /// The format of the time, in the syntax of `strftime`.
    pub closed spec fn time_format_text(&self) -> Seq<char> {
        self.time_format@
    }

    /// What the template asks for.
    pub closed spec fn needs(&self) -> TokenRequirements {
        self.requirements
    }

    /// What every configuration satisfies: its tokens are those of its template,
    /// and it asks for what they ask for.
    pub open spec fn wf(&self) -> bool {
        &&& self.pieces() == parse(self.template_text())
        &&& self.needs() == requirements_of(self.pieces())
    }

    /// A configuration for a template, or for the default template where none
    /// is given.
    pub fn new(template: Option<String>, serialize: bool) -> (r: Self)
        ensures
            r.template_text() == (match template {
                Some(t) => t@,
                None => DEFAULT_FORMAT_TEMPLATE@,
            }),
            r.serializes() == serialize,
            r.time_format_text() == DEFAULT_TIME_FORMAT@,
            r.wf(),
    {
        let template = match template {
            Some(t) => t,
            None => DEFAULT_FORMAT_TEMPLATE.to_string(),
        };
        let tokens = parse_template(template.as_str());
        let requirements = compute_requirements(&tokens);
        FormatConfig {
            template,
            tokens,
            serialize,
            time_format: DEFAULT_TIME_FORMAT.to_string(),
            requirements,
        }
    }

    /// The same configuration with another format of the time.
    pub fn with_time_format(self, time_format: String) -> (r: Self)
        ensures
            r.template_text() == self.template_text(),
            r.pieces() == self.pieces(),
            r.serializes() == self.serializes(),
            r.needs() == self.needs(),
            r.time_format_text() == time_format@,
            r.wf(),
    {
        proof {
            use_type_invariant(&self);
        }
        let FormatConfig { template, tokens, serialize, time_format: _, requirements } = self;
        FormatConfig { template, tokens, serialize, time_format, requirements }
    }

    pub fn requirements(&self) -> (r: TokenRequirements)
        ensures
            r == self.needs(),
            self.wf(),
    {
        proof {
            use_type_invariant(self);
        }
        self.requirements
    }

    pub fn tokens(&self) -> (r: &Vec<FormatToken>)
        ensures
            token_pieces(r@) == self.pieces(),
            self.wf(),
    {
        proof {
            use_type_invariant(self);
        }
        &self.tokens
    }

    pub fn template(&self) -> (r: &str)
        ensures
            r@ == self.template_text(),
    {
        self.template.as_str()
    }

    pub fn serialize(&self) -> (r: bool)
        ensures
            r == self.serializes(),
    {
        self.serialize
    }

    pub fn time_format(&self) -> (r: &str)
        ensures
            r@ == self.time_format_text(),
    {
        self.time_format.as_str()
    }
}

} // verus!
