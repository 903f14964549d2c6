//! Severity levels: the eight built-in levels, and a registry of custom levels
//! that can be looked up by name or by number.

use crate::color::Color;
use crate::dict::Dict;
use crate::text::{ascii_lower, ascii_upper, chars_equal, from_chars, lowercase, to_chars, uppercase};
use std::collections::HashMap;
use vstd::prelude::*;

verus! {

broadcast use vstd::std_specs::hash::group_hash_axioms;

/// A built-in level. The order of the variants is the order of their numbers.
#[derive(Clone, Copy, PartialEq, Eq, PartialOrd, Ord, Debug, Hash, Structural)]
pub enum LogLevel {
    Trace,
    Debug,
    Info,
    Success,
    Warning,
    Error,
    Fail,
    Critical,
}

impl Default for LogLevel {
    fn default() -> (r: Self)
        ensures
            r == LogLevel::Debug,
    {
        LogLevel::Debug
    }
}

impl LogLevel {
    /// The level's number: the higher, the more severe.
    pub open spec fn no(self) -> u32 {
        match self {
            LogLevel::Trace => 5,
            LogLevel::Debug => 10,
            LogLevel::Info => 20,
            LogLevel::Success => 25,
            LogLevel::Warning => 30,
            LogLevel::Error => 40,
            LogLevel::Fail => 45,
            LogLevel::Critical => 50,
        }
    }

    /// The level's name, in capitals.
    pub open spec fn label(self) -> Seq<char> {
        match self {
            LogLevel::Trace => "TRACE"@,
            LogLevel::Debug => "DEBUG"@,
            LogLevel::Info => "INFO"@,
            LogLevel::Success => "SUCCESS"@,
            LogLevel::Warning => "WARNING"@,
            LogLevel::Error => "ERROR"@,
            LogLevel::Fail => "FAIL"@,
            LogLevel::Critical => "CRITICAL"@,
        }
    }

    /// The colour a level is printed in unless it is told otherwise.
    pub open spec fn default_color(self) -> Color {
        match self {
            LogLevel::Trace => Color::Cyan,
            LogLevel::Debug => Color::Blue,
            LogLevel::Info => Color::Green,
            LogLevel::Success => Color::BrightGreen,
            LogLevel::Warning => Color::Yellow,
            LogLevel::Error => Color::Red,
            LogLevel::Fail => Color::Magenta,
            LogLevel::Critical => Color::BrightRed,
        }
    }

    /// The name of the default colour, as `get_color_from_name` reads it.
    pub open spec fn color_label(self) -> Seq<char> {
        match self {
            LogLevel::Trace => "cyan"@,
            LogLevel::Debug => "blue"@,
            LogLevel::Info => "green"@,
            LogLevel::Success => "bright_green"@,
            LogLevel::Warning => "yellow"@,
            LogLevel::Error => "red"@,
            LogLevel::Fail => "magenta"@,
            LogLevel::Critical => "bright_red"@,
        }
    }

    pub fn value(&self) -> (r: u8)
        ensures
            r == self.no(),
    {
        match self {
            LogLevel::Trace => 5,
            LogLevel::Debug => 10,
            LogLevel::Info => 20,
            LogLevel::Success => 25,
            LogLevel::Warning => 30,
            LogLevel::Error => 40,
            LogLevel::Fail => 45,
            LogLevel::Critical => 50,
        }
    }

    pub fn as_str(&self) -> (r: &'static str)
        ensures
            r@ == self.label(),
    {
        match self {
            LogLevel::Trace => "TRACE",
            LogLevel::Debug => "DEBUG",
            LogLevel::Info => "INFO",
            LogLevel::Success => "SUCCESS",
            LogLevel::Warning => "WARNING",
            LogLevel::Error => "ERROR",
            LogLevel::Fail => "FAIL",
            LogLevel::Critical => "CRITICAL",
        }
    }

    pub fn name(&self) -> (r: &'static str)
        ensures
            r@ == self.label(),
    {
        self.as_str()
    }

    pub fn color(&self) -> (r: Color)
        ensures
            r == self.default_color(),
    {
        match self {
            LogLevel::Trace => Color::Cyan,
            LogLevel::Debug => Color::Blue,
            LogLevel::Info => Color::Green,
            LogLevel::Success => Color::BrightGreen,
            LogLevel::Warning => Color::Yellow,
            LogLevel::Error => Color::Red,
            LogLevel::Fail => Color::Magenta,
            LogLevel::Critical => Color::BrightRed,
        }
    }

    fn color_name(&self) -> (r: &'static str)
        ensures
            r@ == self.color_label(),
    {
        match self {
            LogLevel::Trace => "cyan",
            LogLevel::Debug => "blue",
            LogLevel::Info => "green",
            LogLevel::Success => "bright_green",
            LogLevel::Warning => "yellow",
            LogLevel::Error => "red",
            LogLevel::Fail => "magenta",
            LogLevel::Critical => "bright_red",
        }
    }

    /// The level as a `LevelInfo`: its name, number and default colour, no icon.
    pub fn info(&self) -> (r: LevelInfo)
        ensures
            r.describes(*self),
    {
        LevelInfo {
            name: self.as_str().to_string(),
            no: self.value() as u32,
            color: self.color_name().to_string(),
            icon: None,
        }
    }
}

/// What is known of a level, built-in or custom.
#[derive(Debug)]
pub struct LevelInfo {
    pub name: String,
    pub no: u32,
    /// The name of a colour; the empty text where none was given.
    pub color: String,
    pub icon: Option<String>,
}

impl Clone for LevelInfo {
    fn clone(&self) -> (r: Self)
        ensures
            r == *self,
    {
        LevelInfo {
            name: self.name.clone(),
            no: self.no,
            color: self.color.clone(),
            icon: match &self.icon {
                Some(s) => Some(s.clone()),
                None => None,
            },
        }
    }
}

impl LevelInfo {
    /// The info of a built-in level that no custom level hides.
    pub open spec fn describes(&self, level: LogLevel) -> bool {
        &&& self.name@ == level.label()
        &&& self.no == level.no()
        &&& self.color@ == level.color_label()
        &&& self.icon.is_none()
    }

    pub fn new(name: String, no: u32, color: Option<String>, icon: Option<String>) -> (r: Self)
        ensures
            r.name == name,
            r.no == no,
            r.icon == icon,
            match color {
                Some(c) => r.color == c,
                None => r.color@ == Seq::<char>::empty(),
            },
    {
        LevelInfo {
            name,
            no,
            color: match color {
                Some(c) => c,
                None => String::new(),
            },
            icon,
        }
    }

    pub fn get_color(&self) -> (r: Color)
        ensures
            r == color_from_name(self.color@),
    {
        get_color_from_name(self.color.as_str())
    }
}

/// The colour that a name stands for, whatever the case of its letters; white
/// for a name that is not known.
pub open spec fn color_from_name(name: Seq<char>) -> Color {
    let n = ascii_lower(name);
    if n == "cyan"@ {
        Color::Cyan
    } else if n == "blue"@ {
        Color::Blue
    } else if n == "green"@ {
        Color::Green
    } else if n == "bright_green"@ {
        Color::BrightGreen
    } else if n == "yellow"@ {
        Color::Yellow
    } else if n == "red"@ {
        Color::Red
    } else if n == "magenta"@ {
        Color::Magenta
    } else if n == "bright_red"@ {
        Color::BrightRed
    } else if n == "white"@ {
        Color::White
    } else if n == "black"@ {
        Color::Black
    } else if n == "bright_blue"@ {
        Color::BrightBlue
    } else if n == "bright_cyan"@ {
        Color::BrightCyan
    } else if n == "bright_yellow"@ {
        Color::BrightYellow
    } else if n == "bright_magenta"@ {
        Color::BrightMagenta
    } else if n == "bright_white"@ {
        Color::BrightWhite
    } else {
        Color::White
    }
}

pub fn get_color_from_name(color_name: &str) -> (r: Color)
    ensures
        r == color_from_name(color_name@),
{
    let n = lowercase(&to_chars(color_name));
    if chars_equal(&n, "cyan") {
        Color::Cyan
    } else if chars_equal(&n, "blue") {
        Color::Blue
    } else if chars_equal(&n, "green") {
        Color::Green
    } else if chars_equal(&n, "bright_green") {
        Color::BrightGreen
    } else if chars_equal(&n, "yellow") {
        Color::Yellow
    } else if chars_equal(&n, "red") {
        Color::Red
    } else if chars_equal(&n, "magenta") {
        Color::Magenta
    } else if chars_equal(&n, "bright_red") {
        Color::BrightRed
    } else if chars_equal(&n, "white") {
        Color::White
    } else if chars_equal(&n, "black") {
        Color::Black
    } else if chars_equal(&n, "bright_blue") {
        Color::BrightBlue
    } else if chars_equal(&n, "bright_cyan") {
        Color::BrightCyan
    } else if chars_equal(&n, "bright_yellow") {
        Color::BrightYellow
    } else if chars_equal(&n, "bright_magenta") {
        Color::BrightMagenta
    } else if chars_equal(&n, "bright_white") {
        Color::BrightWhite
    } else {
        Color::White
    }
}

/// The built-in level with a given name in capitals.
pub open spec fn builtin_by_label(upper: Seq<char>) -> Option<LogLevel> {
    if upper == "TRACE"@ {
        Some(LogLevel::Trace)
    } else if upper == "DEBUG"@ {
        Some(LogLevel::Debug)
    } else if upper == "INFO"@ {
        Some(LogLevel::Info)
    } else if upper == "SUCCESS"@ {
        Some(LogLevel::Success)
    } else if upper == "WARNING"@ {
        Some(LogLevel::Warning)
    } else if upper == "ERROR"@ {
        Some(LogLevel::Error)
    } else if upper == "FAIL"@ {
        Some(LogLevel::Fail)
    } else if upper == "CRITICAL"@ {
        Some(LogLevel::Critical)
    } else {
        None
    }
}

/// The built-in level with a given number.
pub open spec fn builtin_by_no(no: u32) -> Option<LogLevel> {
    if no == 5 {
        Some(LogLevel::Trace)
    } else if no == 10 {
        Some(LogLevel::Debug)
    } else if no == 20 {
        Some(LogLevel::Info)
    } else if no == 25 {
        Some(LogLevel::Success)
    } else if no == 30 {
        Some(LogLevel::Warning)
    } else if no == 40 {
        Some(LogLevel::Error)
    } else if no == 45 {
        Some(LogLevel::Fail)
    } else if no == 50 {
        Some(LogLevel::Critical)
    } else {
        None
    }
}

fn builtin_level(upper: &Vec<char>) -> (r: Option<LogLevel>)
    ensures
        r == builtin_by_label(upper@),
{
    if chars_equal(upper, "TRACE") {
        Some(LogLevel::Trace)
    } else if chars_equal(upper, "DEBUG") {
        Some(LogLevel::Debug)
    } else if chars_equal(upper, "INFO") {
        Some(LogLevel::Info)
    } else if chars_equal(upper, "SUCCESS") {
        Some(LogLevel::Success)
    } else if chars_equal(upper, "WARNING") {
        Some(LogLevel::Warning)
    } else if chars_equal(upper, "ERROR") {
        Some(LogLevel::Error)
    } else if chars_equal(upper, "FAIL") {
        Some(LogLevel::Fail)
    } else if chars_equal(upper, "CRITICAL") {
        Some(LogLevel::Critical)
    } else {
        None
    }
}

fn builtin_numbered(no: u32) -> (r: Option<LogLevel>)
    ensures
        r == builtin_by_no(no),
{
    if no == 5 {
        Some(LogLevel::Trace)
    } else if no == 10 {
        Some(LogLevel::Debug)
    } else if no == 20 {
        Some(LogLevel::Info)
    } else if no == 25 {
        Some(LogLevel::Success)
    } else if no == 30 {
        Some(LogLevel::Warning)
    } else if no == 40 {
        Some(LogLevel::Error)
    } else if no == 45 {
        Some(LogLevel::Fail)
    } else if no == 50 {
        Some(LogLevel::Critical)
    } else {
        None
    }
}

/// The place of the level with the given number that was registered last,
/// among levels in the order of their registration.
pub open spec fn last_numbered(infos: Seq<LevelInfo>, no: u32) -> Option<int>
    decreases infos.len(),
{
    if infos.len() == 0 {
        None
    } else if infos.last().no == no {
        Some(infos.len() - 1)
    } else {
        last_numbered(infos.drop_last(), no)
    }
}

/// The place of a name among names, where it is one of them.
pub open spec fn place_of_name(names: Seq<Seq<char>>, name: Seq<char>) -> Option<int> {
    if names.contains(name) {
        Some(names.index_of(name))
    } else {
        None
    }
}

/// The level that `last_numbered` finds has the number, and no level behind it
/// has; where it finds none, no level has the number.
pub proof fn lemma_last_numbered(infos: Seq<LevelInfo>, no: u32)
    ensures
        match last_numbered(infos, no) {
            Some(p) => 0 <= p < infos.len() && infos[p].no == no && forall|q: int|
                p < q < infos.len() ==> (#[trigger] infos[q]).no != no,
            None => forall|q: int| 0 <= q < infos.len() ==> (#[trigger] infos[q]).no != no,
        },
    decreases infos.len(),
{
    if infos.len() > 0 && infos.last().no != no {
        let front = infos.drop_last();
        lemma_last_numbered(front, no);
        match last_numbered(front, no) {
            Some(p) => {
                assert(front[p] == infos[p]);
                assert forall|q: int| p < q < infos.len() implies (#[trigger] infos[q]).no != no by {
                    if q < front.len() {
                        assert(front[q] == infos[q]);
                    }
                }
            },
            None => {
                assert forall|q: int| 0 <= q < infos.len() implies (#[trigger] infos[q]).no != no by {
                    if q < front.len() {
                        assert(front[q] == infos[q]);
                    }
                }
            },
        }
    }
}

/// A level that has the number, with no such level behind it, is the one that
/// `last_numbered` finds.
proof fn lemma_is_last_numbered(infos: Seq<LevelInfo>, no: u32, p: int)
    requires
        0 <= p < infos.len(),
        infos[p].no == no,
        forall|q: int| p < q < infos.len() ==> (#[trigger] infos[q]).no != no,
    ensures
        last_numbered(infos, no) == Some(p),
{
    lemma_last_numbered(infos, no);
    match last_numbered(infos, no) {
        Some(x) => {
            if x < p {
                assert(infos[p].no != no);
            } else if p < x {
                assert(infos[x].no != no);
            }
        },
        None => {
            assert(infos[p].no != no);
        },
    }
}

proof fn lemma_none_numbered(infos: Seq<LevelInfo>, no: u32)
    requires
        forall|q: int| 0 <= q < infos.len() ==> (#[trigger] infos[q]).no != no,
    ensures
        last_numbered(infos, no).is_none(),
{
    lemma_last_numbered(infos, no);
    match last_numbered(infos, no) {
        Some(x) => {
            assert(infos[x].no != no);
        },
        None => {},
    }
}

/// Taking a level of another number away leaves the level of a number that
/// was registered last where it was, or one place further up.
proof fn lemma_last_numbered_remove(infos: Seq<LevelInfo>, i: int, no: u32)
    requires
        0 <= i < infos.len(),
        infos[i].no != no,
    ensures
        last_numbered(infos.remove(i), no) == (match last_numbered(infos, no) {
            Some(p) => Some(
                if p < i {
                    p
                } else {
                    p - 1
                },
            ),
            None => None,
        }),
{
    let rest = infos.remove(i);
    lemma_last_numbered(infos, no);
    assert forall|q: int| 0 <= q < rest.len() implies #[trigger] rest[q] == infos[if q < i {
        q
    } else {
        q + 1
    }] by {}
    match last_numbered(infos, no) {
        Some(p) => {
            let moved = if p < i {
                p
            } else {
                p - 1
            };
            assert(rest[moved] == infos[p]);
            assert forall|q: int| moved < q < rest.len() implies (#[trigger] rest[q]).no != no by {
                let q0 = if q < i {
                    q
                } else {
                    q + 1
                };
                assert(rest[q] == infos[q0]);
            }
            lemma_is_last_numbered(rest, no, moved);
        },
        None => {
            assert forall|q: int| 0 <= q < rest.len() implies (#[trigger] rest[q]).no != no by {
                let q0 = if q < i {
                    q
                } else {
                    q + 1
                };
                assert(rest[q] == infos[q0]);
            }
            lemma_none_numbered(rest, no);
        },
    }
}

/// The custom levels in the order of their registration, each under its name
/// in capitals, and an index that leads from each number to the name of the
/// level that was registered last with it.
pub struct LevelRegistry {
    levels: Dict<LevelInfo>,
    numbers: HashMap<u32, String>,
}

/// What a lookup finds: a custom level, a built-in level, or nothing.
pub enum Found {
    Custom(LevelInfo),
    Builtin(LogLevel),
    Nothing,
}

impl LevelRegistry {
    /// The index holds a number exactly where a level has that number, and
    /// leads to the name of the one that was registered last.
    #[verifier::type_invariant]
    spec fn inv(&self) -> bool {
        forall|k: u32|
            #![trigger self.numbers@.contains_key(k)]
            match last_numbered(self.levels.values(), k) {
                Some(p) => self.numbers@.contains_key(k) && self.numbers@[k]@ == self.levels.keys()[p],
                None => !self.numbers@.contains_key(k),
            }
    }

    /// The names of the custom levels, in capitals, in the order in which the
    /// levels were registered; a level that is registered again counts as
    /// registered then.
    pub closed spec fn names(&self) -> Seq<Seq<char>> {
        self.levels.keys()
    }

    /// The custom levels, each at the place of its name.
    pub closed spec fn infos(&self) -> Seq<LevelInfo> {
        self.levels.values()
    }

    /// The custom levels by their names in capitals.
    pub closed spec fn by_name(&self) -> Map<Seq<char>, LevelInfo> {
        self.levels@
    }

    /// The custom level with the given number; of several, the one that was
    /// registered last.
    pub open spec fn numbered(&self, no: u32) -> Option<LevelInfo> {
        match last_numbered(self.infos(), no) {
            Some(p) => Some(self.infos()[p]),
            None => None,
        }
    }

    /// What a lookup by name finds: the custom level of that name in capitals
    /// where there is one, whatever its field `name` holds; else the built-in
    /// level of that name.
    pub open spec fn lookup(&self, name: Seq<char>) -> Found {
        let upper = ascii_upper(name);
        if self.by_name().contains_key(upper) {
            Found::Custom(self.by_name()[upper])
        } else {
            match builtin_by_label(upper) {
                Some(level) => Found::Builtin(level),
                None => Found::Nothing,
            }
        }
    }

    /// What a lookup by number finds: the custom level with that number; else
    /// the built-in level with that number.
    pub open spec fn lookup_no(&self, no: u32) -> Found {
        match self.numbered(no) {
            Some(info) => Found::Custom(info),
            None => match builtin_by_no(no) {
                Some(level) => Found::Builtin(level),
                None => Found::Nothing,
            },
        }
    }

    pub fn new() -> (r: Self)
        ensures
            r.names() == Seq::<Seq<char>>::empty(),
            r.infos() == Seq::<LevelInfo>::empty(),
            r.by_name() == Map::<Seq<char>, LevelInfo>::empty(),
    {
        LevelRegistry { levels: Dict::new(), numbers: HashMap::new() }
    }

    /// How many custom levels are registered.
    pub fn len(&self) -> (n: usize)
        ensures
            n == self.infos().len(),
            n == self.names().len(),
    {
        self.levels.len()
    }
}

/// Whether `info` is what `found` stands for.
pub open spec fn answers(found: Found, r: Option<LevelInfo>) -> bool {
    match found {
        Found::Custom(info) => r == Some(info),
        Found::Builtin(level) => r.is_some() && r.unwrap().describes(level),
        Found::Nothing => r.is_none(),
    }
}

/// The place of the level with the given number that was registered last.
fn find_numbered(levels: &Dict<LevelInfo>, no: u32) -> (r: Option<usize>)
    ensures
        match r {
            Some(p) => last_numbered(levels.values(), no) == Some(p as int) && p < levels.values().len(),
            None => last_numbered(levels.values(), no).is_none(),
        },
{
    let mut p: usize = levels.len();
    while p > 0
        invariant
            p <= levels.values().len(),
            forall|q: int| p <= q < levels.values().len() ==> (#[trigger] levels.values()[q]).no != no,
        decreases p,
    {
        if levels.value_at(p - 1).no == no {
            proof {
                lemma_is_last_numbered(levels.values(), no, p - 1);
            }
            return Some(p - 1);
        }
        p -= 1;
    }
    proof {
        lemma_none_numbered(levels.values(), no);
    }
    None
}

/// Registers a custom level under its name in capitals. An earlier level of
/// that name goes, and the new level counts as the one registered last; its
/// number leads to it from now on.
pub fn register_level(registry: &mut LevelRegistry, info: LevelInfo)
    ensures
        final(registry).by_name() == old(registry).by_name().insert(ascii_upper(info.name@), info),
        match place_of_name(old(registry).names(), ascii_upper(info.name@)) {
            Some(i) => {
                &&& final(registry).names() == old(registry).names().remove(i).push(
                    ascii_upper(info.name@),
                )
                &&& final(registry).infos() == old(registry).infos().remove(i).push(info)
            },
            None => {
                &&& final(registry).names() == old(registry).names().push(ascii_upper(info.name@))
                &&& final(registry).infos() == old(registry).infos().push(info)
            },
        },
        final(registry).numbered(info.no) == Some(info),
{
    let upper = from_chars(&uppercase(&to_chars(info.name.as_str())));
    let no = info.no;
    let mut taken = LevelRegistry::new();
    core::mem::swap(registry, &mut taken);
    proof {
        use_type_invariant(&taken);
    }
    let LevelRegistry { levels, numbers } = taken;
    let mut levels = levels;
    let mut numbers = numbers;
    levels.observe();
    let ghost keys0 = levels.keys();
    let ghost infos0 = levels.values();
    let ghost index0 = numbers@;
    let found = levels.find(upper.as_str());
    let old_no: Option<u32> = match found {
        Some(i) => {
            let m = levels.value_at(i).no;
            levels.remove_at(i);
            Some(m)
        },
        None => None,
    };
    let ghost keys1 = levels.keys();
    let ghost infos1 = levels.values();
    proof {
        assert(!levels@.contains_key(upper@));
    }
    levels.insert(upper.clone(), info);
    let ghost keys2 = levels.keys();
    let ghost infos2 = levels.values();
    assert(keys2 == keys1.push(upper@) && infos2 == infos1.push(info));
    match old_no {
        Some(m) => {
            if m != no {
                match find_numbered(&levels, m) {
                    Some(p) => {
                        numbers.insert(m, levels.key_at(p).clone());
                    },
                    None => {
                        numbers.remove(&m);
                    },
                }
            }
        },
        None => {},
    }
    numbers.insert(no, upper);
    proof {
        assert(infos2.drop_last() =~= infos1);
        assert forall|k: u32|
            #![trigger numbers@.contains_key(k)]
            match last_numbered(infos2, k) {
                Some(p) => numbers@.contains_key(k) && numbers@[k]@ == keys2[p],
                None => !numbers@.contains_key(k),
            } by {
            if k == no {
                assert(last_numbered(infos2, k) == Some(infos2.len() - 1));
            } else if old_no == Some(k) {
            } else {
                assert(last_numbered(infos2, k) == last_numbered(infos1, k));
                assert(numbers@.contains_key(k) == index0.contains_key(k));
                match found {
                    Some(i) => {
                        lemma_last_numbered_remove(infos0, i as int, k);
                        lemma_last_numbered(infos0, k);
                    },
                    None => {
                        assert(infos1 == infos0);
                    },
                }
                lemma_last_numbered(infos1, k);
            }
        }
    }
    *registry = LevelRegistry { levels, numbers };
}

/// Looks a level up by its name, whatever the case of its letters. A custom
/// level hides the built-in level of the same name.
pub fn get_level_info(registry: &LevelRegistry, name: &str) -> (r: Option<LevelInfo>)
    ensures
        answers(registry.lookup(name@), r),
{
    let upper = uppercase(&to_chars(name));
    let key = from_chars(&upper);
    match registry.levels.get(key.as_str()) {
        Some(info) => Some(info.clone()),
        None => match builtin_level(&upper) {
            Some(level) => Some(level.info()),
            None => None,
        },
    }
}

/// Looks a level up by its number. The level that comes back has that number:
/// it is the custom level that was registered last with it, or else the
/// built-in level of that number. There is one whenever a registered level or
/// a built-in level has the number.
pub fn get_level_by_no(registry: &LevelRegistry, no: u32) -> (r: Option<LevelInfo>)
    ensures
        answers(registry.lookup_no(no), r),
        match r {
            Some(info) => info.no == no,
            None => true,
        },
        r.is_some() == (registry.numbered(no).is_some() || builtin_by_no(no).is_some()),
{
    proof {
        use_type_invariant(registry);
        lemma_last_numbered(registry.levels.values(), no);
    }
    registry.levels.observe();
    match registry.numbers.get(&no) {
        Some(name) => {
            assert(registry.numbers@.contains_key(no));
            let ghost p = last_numbered(registry.levels.values(), no).unwrap();
            assert(registry.levels.keys()[p] == name@);
            match registry.levels.find(name.as_str()) {
                Some(i) => {
                    assert(registry.levels.keys()[i as int] == name@);
                    assert(i == p);
                    Some(registry.levels.value_at(i).clone())
                },
                None => {
                    assert(registry.levels.keys().contains(name@));
                    None
                },
            }
        },
        None => {
            assert(!registry.numbers@.contains_key(no));
            match builtin_numbered(no) {
                Some(level) => Some(level.info()),
                None => None,
            }
        },
    }
}

} // verus!
