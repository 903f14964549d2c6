//! Inline colour markup: tags such as `<red>` and `</red>` in a message become
//! escape sequences; anything that is no tag stays as it is.

use crate::color::reset;
use crate::text::{
    ascii_lower, chars_equal, from_chars, lemma_span_len, lowercase, push_str_chars, slice_chars,
    span_len, to_chars,
};
use vstd::prelude::*;

verus! {

/// The escape sequence that a tag name stands for, whatever the case of its
/// letters; `None` for a name that is no tag.
pub open spec fn tag_code(tag: Seq<char>) -> Option<Seq<char>> {
    let n = ascii_lower(tag);
    if n == "red"@ {
        Some("\x1b[31m"@)
    } else if n == "green"@ {
        Some("\x1b[32m"@)
    } else if n == "yellow"@ {
        Some("\x1b[33m"@)
    } else if n == "blue"@ {
        Some("\x1b[34m"@)
    } else if n == "magenta"@ {
        Some("\x1b[35m"@)
    } else if n == "cyan"@ {
        Some("\x1b[36m"@)
    } else if n == "white"@ {
        Some("\x1b[37m"@)
    } else if n == "black"@ {
        Some("\x1b[30m"@)
    } else if n == "bright_red"@ || n == "light-red"@ {
        Some("\x1b[91m"@)
    } else if n == "bright_green"@ || n == "light-green"@ {
        Some("\x1b[92m"@)
    } else if n == "bright_yellow"@ || n == "light-yellow"@ {
        Some("\x1b[93m"@)
    } else if n == "bright_blue"@ || n == "light-blue"@ {
        Some("\x1b[94m"@)
    } else if n == "bright_magenta"@ || n == "light-magenta"@ {
        Some("\x1b[95m"@)
    } else if n == "bright_cyan"@ || n == "light-cyan"@ {
        Some("\x1b[96m"@)
    } else if n == "bright_white"@ || n == "light-white"@ {
        Some("\x1b[97m"@)
    } else if n == "bold"@ || n == "b"@ {
        Some("\x1b[1m"@)
    } else if n == "dim"@ {
        Some("\x1b[2m"@)
    } else if n == "italic"@ || n == "i"@ {
        Some("\x1b[3m"@)
    } else if n == "underline"@ || n == "u"@ {
        Some("\x1b[4m"@)
    } else if n == "strike"@ || n == "s"@ {
        Some("\x1b[9m"@)
    } else {
        None
    }
}

fn code_of(n: &Vec<char>) -> (r: Option<&'static str>)
    ensures
        match r {
            Some(code) => Some(code@),
            None => None,
        } == (if n@ == "red"@ {
            Some("\x1b[31m"@)
        } else if n@ == "green"@ {
            Some("\x1b[32m"@)
        } else if n@ == "yellow"@ {
            Some("\x1b[33m"@)
        } else if n@ == "blue"@ {
            Some("\x1b[34m"@)
        } else if n@ == "magenta"@ {
            Some("\x1b[35m"@)
        } else if n@ == "cyan"@ {
            Some("\x1b[36m"@)
        } else if n@ == "white"@ {
            Some("\x1b[37m"@)
        } else if n@ == "black"@ {
            Some("\x1b[30m"@)
        } else if n@ == "bright_red"@ || n@ == "light-red"@ {
            Some("\x1b[91m"@)
        } else if n@ == "bright_green"@ || n@ == "light-green"@ {
            Some("\x1b[92m"@)
        } else if n@ == "bright_yellow"@ || n@ == "light-yellow"@ {
            Some("\x1b[93m"@)
        } else if n@ == "bright_blue"@ || n@ == "light-blue"@ {
            Some("\x1b[94m"@)
        } else if n@ == "bright_magenta"@ || n@ == "light-magenta"@ {
            Some("\x1b[95m"@)
        } else if n@ == "bright_cyan"@ || n@ == "light-cyan"@ {
            Some("\x1b[96m"@)
        } else if n@ == "bright_white"@ || n@ == "light-white"@ {
            Some("\x1b[97m"@)
        } else if n@ == "bold"@ || n@ == "b"@ {
            Some("\x1b[1m"@)
        } else if n@ == "dim"@ {
            Some("\x1b[2m"@)
        } else if n@ == "italic"@ || n@ == "i"@ {
            Some("\x1b[3m"@)
        } else if n@ == "underline"@ || n@ == "u"@ {
            Some("\x1b[4m"@)
        } else if n@ == "strike"@ || n@ == "s"@ {
            Some("\x1b[9m"@)
        } else {
            None
        }),
{
    if chars_equal(n, "red") {
        Some("\x1b[31m")
    } else if chars_equal(n, "green") {
        Some("\x1b[32m")
    } else if chars_equal(n, "yellow") {
        Some("\x1b[33m")
    } else if chars_equal(n, "blue") {
        Some("\x1b[34m")
    } else if chars_equal(n, "magenta") {
        Some("\x1b[35m")
    } else if chars_equal(n, "cyan") {
        Some("\x1b[36m")
    } else if chars_equal(n, "white") {
        Some("\x1b[37m")
    } else if chars_equal(n, "black") {
        Some("\x1b[30m")
    } else if chars_equal(n, "bright_red") || chars_equal(n, "light-red") {
        Some("\x1b[91m")
    } else if chars_equal(n, "bright_green") || chars_equal(n, "light-green") {
        Some("\x1b[92m")
    } else if chars_equal(n, "bright_yellow") || chars_equal(n, "light-yellow") {
        Some("\x1b[93m")
    } else if chars_equal(n, "bright_blue") || chars_equal(n, "light-blue") {
        Some("\x1b[94m")
    } else if chars_equal(n, "bright_magenta") || chars_equal(n, "light-magenta") {
        Some("\x1b[95m")
    } else if chars_equal(n, "bright_cyan") || chars_equal(n, "light-cyan") {
        Some("\x1b[96m")
    } else if chars_equal(n, "bright_white") || chars_equal(n, "light-white") {
        Some("\x1b[97m")
    } else if chars_equal(n, "bold") || chars_equal(n, "b") {
        Some("\x1b[1m")
    } else if chars_equal(n, "dim") {
        Some("\x1b[2m")
    } else if chars_equal(n, "italic") || chars_equal(n, "i") {
        Some("\x1b[3m")
    } else if chars_equal(n, "underline") || chars_equal(n, "u") {
        Some("\x1b[4m")
    } else if chars_equal(n, "strike") || chars_equal(n, "s") {
        Some("\x1b[9m")
    } else {
        None
    }
}

pub open spec fn option_code(r: Option<&'static str>) -> Option<Seq<char>> {
    match r {
        Some(code) => Some(code@),
        None => None,
    }
}

/// The escape sequence of a tag name.
pub fn tag_to_ansi(tag: &str) -> (r: Option<&'static str>)
    ensures
        option_code(r) == tag_code(tag@),
{
    let n = lowercase(&to_chars(tag));
    code_of(&n)
}

/// The texts of a sequence, one after the other.
pub open spec fn concat(parts: Seq<Seq<char>>) -> Seq<char>
    decreases parts.len(),
{
    if parts.len() == 0 {
        Seq::empty()
    } else {
        concat(parts.drop_last()) + parts.last()
    }
}

/// What is written at the end of a text: a reset where a style is still open.
pub open spec fn closing(open: Seq<Seq<char>>) -> Seq<char> {
    if open.len() > 0 {
        reset()
    } else {
        Seq::empty()
    }
}

/// A text with its tags replaced, read from left to right while the styles in
/// `open` are in force, the innermost last.
///
/// A `<` opens a tag that runs to the next `>`; where none follows, the rest of
/// the text stands as it is. An opening tag with a known name writes its escape
/// sequence and opens that style. A closing tag with a known name closes the
/// innermost open style, whatever its name: it writes a reset and then the
/// sequences of the styles that stay open. Any other tag stands as it is. At
/// the end a reset is written where a style is still open.
pub open spec fn markup(t: Seq<char>, open: Seq<Seq<char>>) -> Seq<char>
    decreases t.len(),
{
    if t.len() == 0 {
        closing(open)
    } else if t[0] != '<' {
        seq![t[0]] + markup(t.skip(1), open)
    } else {
        let closes = t.len() > 1 && t[1] == '/';
        let start: int = if closes {
            2
        } else {
            1
        };
        let after = t.skip(start);
        let n = span_len(after, '>');
        if n >= after.len() {
            t + closing(open)
        } else {
            let tag = after.take(n as int);
            let whole = t.take(start + n + 1);
            let rest = after.skip(n as int + 1);
            match tag_code(tag) {
                Some(code) => if closes {
                    if open.len() > 0 {
                        reset() + concat(open.drop_last()) + markup(rest, open.drop_last())
                    } else {
                        whole + markup(rest, open)
                    }
                } else {
                    code + markup(rest, open.push(code))
                },
                None => whole + markup(rest, open),
            }
        }
    }
}

/// A text without `<` holds no tag and stays as it is.
pub proof fn lemma_markup_plain(t: Seq<char>)
    requires
        !t.contains('<'),
    ensures
        markup(t, Seq::empty()) == t,
    decreases t.len(),
{
    if t.len() > 0 {
        assert(t[0] != '<');
        assert forall|k: int| 0 <= k < t.skip(1).len() implies t.skip(1)[k] != '<' by {
            assert(t.skip(1)[k] == t[k + 1]);
            assert(t.contains(t[k + 1]));
        }
        lemma_markup_plain(t.skip(1));
        assert(seq![t[0]] + t.skip(1) =~= t);
    } else {
        assert(markup(t, Seq::empty()) =~= t);
    }
}

proof fn lemma_markup_char(t: Seq<char>, i: int, open: Seq<Seq<char>>)
    requires
        0 <= i < t.len(),
        t[i] != '<',
    ensures
        markup(t.skip(i), open) == seq![t[i]] + markup(t.skip(i + 1), open),
{
    assert(t.skip(i).skip(1) =~= t.skip(i + 1));
}

/// What a tag that opens at `i` and whose name stands in `t[start..j]` comes
/// to; `j` is the place of its `>`, or the length of the text where none follows.
proof fn lemma_markup_tag(t: Seq<char>, i: int, start: int, j: int, open: Seq<Seq<char>>)
    requires
        0 <= i < t.len(),
        t[i] == '<',
        start == (if i + 1 < t.len() && t[i + 1] == '/' {
            i + 2
        } else {
            i + 1
        }),
        start <= j <= t.len(),
        forall|k: int| start <= k < j ==> t[k] != '>',
        j == t.len() || t[j] == '>',
    ensures
        markup(t.skip(i), open) == (if j == t.len() {
            t.skip(i) + closing(open)
        } else {
            match tag_code(t.subrange(start, j)) {
                Some(code) => if start == i + 2 {
                    if open.len() > 0 {
                        reset() + concat(open.drop_last()) + markup(t.skip(j + 1), open.drop_last())
                    } else {
                        t.subrange(i, j + 1) + markup(t.skip(j + 1), open)
                    }
                } else {
                    code + markup(t.skip(j + 1), open.push(code))
                },
                None => t.subrange(i, j + 1) + markup(t.skip(j + 1), open),
            }
        }),
{
    let here = t.skip(i);
    let after = here.skip(start - i);
    assert(after =~= t.skip(start));
    let n = j - start;
    assert forall|k: int| 0 <= k < n implies after[k] != '>' by {
        assert(after[k] == t[start + k]);
    }
    lemma_span_len(after, '>', n);
    if j < t.len() {
        assert(after.take(n) =~= t.subrange(start, j));
        assert(here.take(start - i + n + 1) =~= t.subrange(i, j + 1));
        assert(after.skip(n + 1) =~= t.skip(j + 1));
    }
}

proof fn lemma_concat_push(parts: Seq<Seq<char>>, last: Seq<char>)
    ensures
        concat(parts.push(last)) == concat(parts) + last,
{
    assert(parts.push(last).drop_last() =~= parts);
}

/// The escape sequences of a stack of styles, the innermost last.
pub open spec fn codes(stack: Seq<&'static str>) -> Seq<Seq<char>> {
    Seq::new(stack.len(), |k: int| stack[k]@)
}

/// Replaces the colour tags of a text by escape sequences.
pub fn apply_color_markup(text: &str) -> (r: String)
    ensures
        r@ == markup(text@, Seq::empty()),
        !text@.contains('<') ==> r@ == text@,
{
    let chars = to_chars(text);
    let ghost t = chars@;
    proof {
        if !t.contains('<') {
            lemma_markup_plain(t);
        }
    }
    let mut out: Vec<char> = Vec::new();
    let mut stack: Vec<&'static str> = Vec::new();
    let mut i: usize = 0;
    proof {
        assert(t.skip(0) =~= t);
        assert(codes(stack@) =~= Seq::<Seq<char>>::empty());
    }
    while i < chars.len()
        invariant
            i <= chars.len(),
            t == chars@,
            out@ + markup(t.skip(i as int), codes(stack@)) == markup(t, Seq::empty()),
        decreases chars.len() - i,
    {
        let ghost open = codes(stack@);
        let ghost before = out@;
        let c = chars[i];
        if c != '<' {
            out.push(c);
            proof {
                lemma_markup_char(t, i as int, open);
                assert(out@ + markup(t.skip(i + 1), open) =~= before + markup(t.skip(i as int), open));
            }
            i += 1;
        } else {
            let closes = i + 1 < chars.len() && chars[i + 1] == '/';
            let start: usize = if closes {
                i + 2
            } else {
                i + 1
            };
            let mut j: usize = start;
            while j < chars.len() && chars[j] != '>'
                invariant
                    start <= j <= chars.len(),
                    forall|k: int| start <= k < j ==> chars@[k] != '>',
                decreases chars.len() - j,
            {
                j += 1;
            }
            proof {
                lemma_markup_tag(t, i as int, start as int, j as int, open);
            }
            if j == chars.len() {
                let mut k: usize = i;
                while k < chars.len()
                    invariant
                        i <= k <= chars.len(),
                        out@ == before + chars@.subrange(i as int, k as int),
                    decreases chars.len() - k,
                {
                    out.push(chars[k]);
                    k += 1;
                    assert(out@ =~= before + chars@.subrange(i as int, k as int));
                }
                proof {
                    assert(chars@.subrange(i as int, chars.len() as int) =~= t.skip(i as int));
                    assert(t.skip(chars.len() as int) =~= Seq::<char>::empty());
                    assert(out@ + markup(t.skip(chars.len() as int), open) =~= before + (t.skip(
                        i as int,
                    ) + closing(open)));
                }
                i = chars.len();
            } else {
                let name = lowercase(&slice_chars(&chars, start, j));
                let code = code_of(&name);
                let known: bool = code.is_some();
                if known && closes && stack.len() > 0 {
                    stack.pop();
                    push_str_chars(&mut out, "\x1b[0m");
                    let ghost base = out@;
                    let mut k: usize = 0;
                    proof {
                        assert(codes(stack@) =~= open.drop_last());
                        assert(codes(stack@).take(0) =~= Seq::<Seq<char>>::empty());
                    }
                    while k < stack.len()
                        invariant
                            k <= stack.len(),
                            out@ == base + concat(codes(stack@).take(k as int)),
                        decreases stack.len() - k,
                    {
                        push_str_chars(&mut out, stack[k]);
                        proof {
                            let all = codes(stack@);
                            assert(all.take(k + 1) =~= all.take(k as int).push(all[k as int]));
                            lemma_concat_push(all.take(k as int), all[k as int]);
                            assert(out@ =~= base + concat(all.take(k + 1)));
                        }
                        k += 1;
                    }
                    proof {
                        assert(codes(stack@).take(stack.len() as int) =~= codes(stack@));
                        assert(out@ + markup(t.skip(j + 1), codes(stack@)) =~= before + (reset()
                            + concat(open.drop_last()) + markup(t.skip(j + 1), open.drop_last())));
                    }
                } else if known && !closes {
                    let sequence: &'static str = code.unwrap();
                    stack.push(sequence);
                    push_str_chars(&mut out, sequence);
                    proof {
                        assert(codes(stack@) =~= open.push(sequence@));
                        assert(out@ + markup(t.skip(j + 1), codes(stack@)) =~= before + (sequence@
                            + markup(t.skip(j + 1), open.push(sequence@))));
                    }
                } else {
                    let mut k: usize = i;
                    while k < j + 1
                        invariant
                            i <= k <= j + 1,
                            j < chars.len(),
                            out@ == before + chars@.subrange(i as int, k as int),
                        decreases j + 1 - k,
                    {
                        out.push(chars[k]);
                        k += 1;
                        assert(out@ =~= before + chars@.subrange(i as int, k as int));
                    }
                    proof {
                        assert(out@ + markup(t.skip(j + 1), open) =~= before + (t.subrange(
                            i as int,
                            j + 1,
                        ) + markup(t.skip(j + 1), open)));
                    }
                }
                i = j + 1;
            }
        }
    }
    proof {
        assert(t.skip(chars.len() as int) =~= Seq::<char>::empty());
    }
    if stack.len() > 0 {
        push_str_chars(&mut out, "\x1b[0m");
    }
    proof {
        assert(out@ =~= markup(t, Seq::empty()));
    }
    from_chars(&out)
}

} // verus!
