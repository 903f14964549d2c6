//! The logger: an ordered list of handlers, a list of callbacks, and what is
//! kept ready of them for the log calls: the lowest level, the merged
//! requirements, and whether any handler has a filter.

use crate::format::{FormatConfig, TokenRequirements};
use crate::handler::{
    CallerInfo, ConsoleHandler, Context, Delivery, FileHandler, HandlerEntry, HandlerType, LogRecord,
    ProcessInfo, ThreadInfo,
};
use crate::level::{answers, get_level_by_no, get_level_info, LevelInfo, LevelRegistry, LogLevel};
use crate::sink::FileSink;
use crate::text::str_equal;
use crate::time::Timestamp;
use std::sync::Arc;
use vstd::prelude::*;

verus! {

/// A callback with its id and the level from which it is called. The callback
/// is a value of the caller's: it is kept here and never looked into.
#[derive(Debug)]
pub struct CallbackEntry<C> {
    pub id: u64,
    pub callback: C,
    pub level: LogLevel,
}

/// What is wrong with an argument of a configuration call.
#[derive(Clone, Copy, PartialEq, Eq, Debug, Structural)]
pub enum ConfigError {
    /// The stream is neither `stdout` nor `stderr`.
    InvalidStream,
    /// The level is no name and no number of a level.
    InvalidLevel,
}

impl ConfigError {
    pub fn message(&self) -> (r: &'static str)
        ensures
            r@ == (match self {
                ConfigError::InvalidStream => "stream must be 'stdout' or 'stderr'"@,
                ConfigError::InvalidLevel => "Invalid log level"@,
            }),
    {
        match self {
            ConfigError::InvalidStream => "stream must be 'stdout' or 'stderr'",
            ConfigError::InvalidLevel => "Invalid log level",
        }
    }
}

/// A level as a log call names it.
#[derive(Debug)]
pub enum LevelArg {
    Name(String),
    Number(u32),
}

/// The lowest of a sequence of numbers; the greatest number there is where
/// the sequence is empty.
pub open spec fn lowest(levels: Seq<u32>) -> u32
    decreases levels.len(),
{
    if levels.len() == 0 {
        u32::MAX
    } else {
        let before = lowest(levels.drop_last());
        if levels.last() < before {
            levels.last()
        } else {
            before
        }
    }
}

/// The lowest of a sequence of numbers is one of them and none is below it.
pub proof fn lemma_lowest(levels: Seq<u32>)
    ensures
        forall|i: int| 0 <= i < levels.len() ==> lowest(levels) <= #[trigger] levels[i],
        levels.len() > 0 ==> levels.contains(lowest(levels)),
        levels.len() == 0 ==> lowest(levels) == u32::MAX,
    decreases levels.len(),
{
    if levels.len() > 0 {
        let front = levels.drop_last();
        lemma_lowest(front);
        assert forall|i: int| 0 <= i < levels.len() implies lowest(levels) <= #[trigger] levels[i] by {
            if i < front.len() {
                assert(front[i] == levels[i]);
            }
        }
        if lowest(levels) == levels.last() {
            assert(levels[levels.len() - 1] == lowest(levels));
        } else {
            let j = choose|j: int| 0 <= j < front.len() && front[j] == lowest(front);
            assert(levels[j] == lowest(levels));
        }
    }
}

/// The levels of the handlers, as numbers.
pub open spec fn handler_levels<F>(handlers: Seq<HandlerEntry<F>>) -> Seq<u32> {
    Seq::new(handlers.len(), |i: int| handlers[i].handler.threshold().no())
}

/// The levels of the callbacks, as numbers.
pub open spec fn callback_levels<C>(callbacks: Seq<CallbackEntry<C>>) -> Seq<u32> {
    Seq::new(callbacks.len(), |i: int| callbacks[i].level.no())
}

/// What the formats of the handlers ask for, taken together.
pub open spec fn merged_needs<F>(handlers: Seq<HandlerEntry<F>>) -> TokenRequirements
    decreases handlers.len(),
{
    if handlers.len() == 0 {
        TokenRequirements::none()
    } else {
        merged_needs(handlers.drop_last()).union(handlers.last().handler.needs())
    }
}

/// Whether one of the handlers has a filter.
pub open spec fn any_filter<F>(handlers: Seq<HandlerEntry<F>>) -> bool {
    exists|i: int| 0 <= i < handlers.len() && (#[trigger] handlers[i]).filter.is_some()
}

/// Whether one of the handlers takes a record of the given number.
pub open spec fn any_handler_admits<F>(handlers: Seq<HandlerEntry<F>>, level_no: u32) -> bool {
    exists|i: int| 0 <= i < handlers.len() && (#[trigger] handlers[i]).handler.admits(level_no)
}

/// Whether one of the callbacks takes a record of the given number.
pub open spec fn any_callback_admits<C>(callbacks: Seq<CallbackEntry<C>>, level_no: u32) -> bool {
    exists|i: int| 0 <= i < callbacks.len() && level_no >= (#[trigger] callbacks[i]).level.no()
}

/// The places of the callbacks that take a record of the given number, in the
/// order in which they were registered.
pub open spec fn callbacks_due<C>(callbacks: Seq<CallbackEntry<C>>, level_no: u32) -> Seq<usize>
    decreases callbacks.len(),
{
    if callbacks.len() == 0 {
        Seq::empty()
    } else {
        let before = callbacks_due(callbacks.drop_last(), level_no);
        if level_no >= callbacks.last().level.no() {
            before.push((callbacks.len() - 1) as usize)
        } else {
            before
        }
    }
}

/// The ids of handlers and callbacks come from one counter: each is below the
/// next free id, and no two are the same.
pub open spec fn ids_in_order<F, C>(
    handlers: Seq<HandlerEntry<F>>,
    callbacks: Seq<CallbackEntry<C>>,
    next_id: u64,
) -> bool {
    &&& forall|i: int| 0 <= i < handlers.len() ==> (#[trigger] handlers[i]).id < next_id
    &&& forall|i: int| 0 <= i < callbacks.len() ==> (#[trigger] callbacks[i]).id < next_id
    &&& forall|i: int, j: int|
        0 <= i < j < handlers.len() ==> (#[trigger] handlers[i]).id != (#[trigger] handlers[j]).id
    &&& forall|i: int, j: int|
        0 <= i < j < callbacks.len() ==> (#[trigger] callbacks[i]).id != (#[trigger] callbacks[j]).id
    &&& forall|i: int, j: int|
        0 <= i < handlers.len() && 0 <= j < callbacks.len() ==> (#[trigger] handlers[i]).id != (
        #[trigger] callbacks[j]).id
}

/// The elements of a sequence that are to stay, in their order.
pub open spec fn keep_where<T>(s: Seq<T>, stays: spec_fn(T) -> bool) -> Seq<T>
    decreases s.len(),
{
    if s.len() == 0 {
        Seq::empty()
    } else if stays(s.last()) {
        keep_where(s.drop_last(), stays).push(s.last())
    } else {
        keep_where(s.drop_last(), stays)
    }
}

/// What stays when the handlers that write to the terminal go.
pub open spec fn is_not_console<F>() -> spec_fn(HandlerEntry<F>) -> bool {
    |e: HandlerEntry<F>| !(e.handler is Console)
}

/// What stays when the callbacks with the given ids go.
pub open spec fn is_unlisted<C>(ids: Seq<u64>) -> spec_fn(CallbackEntry<C>) -> bool {
    |c: CallbackEntry<C>| !ids.contains(c.id)
}

/// What stays of a sequence comes from it, in its order: there is a place in
/// the sequence for each element that stays, and later elements have later
/// places.
proof fn lemma_keep_where<T>(s: Seq<T>, stays: spec_fn(T) -> bool) -> (places: Seq<int>)
    ensures
        places.len() == keep_where(s, stays).len(),
        forall|k: int|
            0 <= k < places.len() ==> 0 <= #[trigger] places[k] < s.len() && keep_where(s, stays)[k]
                == s[places[k]] && stays(s[places[k]]),
        forall|k: int, l: int| 0 <= k < l < places.len() ==> places[k] < places[l],
        forall|j: int| 0 <= j < s.len() && stays(s[j]) ==> places.contains(j),
    decreases s.len(),
{
    if s.len() == 0 {
        Seq::empty()
    } else {
        let front = lemma_keep_where(s.drop_last(), stays);
        if stays(s.last()) {
            let places = front.push(s.len() - 1);
            assert forall|j: int| 0 <= j < s.len() && stays(s[j]) implies places.contains(j) by {
                if j < s.len() - 1 {
                    assert(s.drop_last()[j] == s[j]);
                    assert(front.contains(j));
                    let k = choose|k: int| 0 <= k < front.len() && front[k] == j;
                    assert(places[k] == j);
                } else {
                    assert(places[places.len() - 1] == j);
                }
            }
            places
        } else {
            assert forall|j: int| 0 <= j < s.len() && stays(s[j]) implies front.contains(j) by {
                assert(j < s.len() - 1);
                assert(s.drop_last()[j] == s[j]);
            }
            front
        }
    }
}

/// Whether a handler is one that writes to the standard output in colours,
/// by the default template, from the given level on and without a filter.
pub open spec fn is_plain_console<F>(entry: HandlerEntry<F>, level: LogLevel) -> bool {
    &&& entry.filter.is_none()
    &&& match entry.handler {
        HandlerType::Console(h) => {
            &&& h.level == level
            &&& h.colorize
            &&& !h.use_stderr
            &&& h.format.template_text() == crate::format::DEFAULT_FORMAT_TEMPLATE@
            &&& h.format.time_format_text() == crate::format::DEFAULT_TIME_FORMAT@
            &&& !h.format.serializes()
            &&& h.format.wf()
        },
        HandlerType::File(_) => false,
    }
}

/// A handler with another level where it writes to the terminal.
pub open spec fn with_console_level<F>(entry: HandlerEntry<F>, level: LogLevel) -> HandlerEntry<F> {
    match entry.handler {
        HandlerType::Console(h) => HandlerEntry {
            id: entry.id,
            handler: HandlerType::Console(
                ConsoleHandler { level, format: h.format, colorize: h.colorize, use_stderr: h.use_stderr },
            ),
            filter: entry.filter,
        },
        HandlerType::File(_) => entry,
    }
}

/// A handler with another sink where it writes to a file.
pub open spec fn with_sink<F>(entry: HandlerEntry<F>, sink: FileSink) -> HandlerEntry<F> {
    match entry.handler {
        HandlerType::File(h) => HandlerEntry {
            id: entry.id,
            handler: HandlerType::File(FileHandler { sink, level: h.level, format: h.format }),
            filter: entry.filter,
        },
        HandlerType::Console(_) => entry,
    }
}

/// The place of the first handler with the given id.
pub open spec fn place_of<F>(handlers: Seq<HandlerEntry<F>>, id: u64) -> Option<int>
    decreases handlers.len(),
{
    if handlers.len() == 0 {
        None
    } else {
        match place_of(handlers.drop_last(), id) {
            Some(p) => Some(p),
            None => if handlers.last().id == id {
                Some(handlers.len() - 1)
            } else {
                None
            },
        }
    }
}

/// The place of the first callback with the given id.
pub open spec fn callback_place<C>(callbacks: Seq<CallbackEntry<C>>, id: u64) -> Option<int>
    decreases callbacks.len(),
{
    if callbacks.len() == 0 {
        None
    } else {
        match callback_place(callbacks.drop_last(), id) {
            Some(p) => Some(p),
            None => if callbacks.last().id == id {
                Some(callbacks.len() - 1)
            } else {
                None
            },
        }
    }
}

/// What a log call leads to.
#[derive(Debug)]
pub struct Dispatch {
    /// The record that the handlers are given.
    pub record: LogRecord,
    /// Whether the record has to be shown to callbacks or filters.
    pub needs_view: bool,
    /// The places of the callbacks to call, in the order of the calls. They are
    /// called before any handler is given the record.
    pub callbacks: Vec<usize>,
}

/// The logger.
#[derive(Debug)]
pub struct Logger<F, C> {
    handlers: Vec<HandlerEntry<F>>,
    callbacks: Vec<CallbackEntry<C>>,
    cached_min_level: u32,
    cached_requirements: TokenRequirements,
    cached_handler_requirements: TokenRequirements,
    cached_has_filters: bool,
    next_id: u64,
}

impl<F, C> Logger<F, C> {
    #[verifier::type_invariant]
    spec fn inv(&self) -> bool {
        &&& self.cached_min_level == lowest(handler_levels(self.handlers@) + callback_levels(self.callbacks@))
        &&& self.cached_handler_requirements == merged_needs(self.handlers@)
        &&& self.cached_has_filters == any_filter(self.handlers@)
        &&& self.cached_requirements == (if self.callbacks.len() > 0 || self.cached_has_filters {
            TokenRequirements::every()
        } else {
            self.cached_handler_requirements
        })
        &&& ids_in_order(self.handlers@, self.callbacks@, self.next_id)
    }

    /// The handlers in the order in which they were added.
    pub closed spec fn entries(&self) -> Seq<HandlerEntry<F>> {
        self.handlers@
    }

    /// The callbacks in the order in which they were registered.
    pub closed spec fn hooks(&self) -> Seq<CallbackEntry<C>> {
        self.callbacks@
    }

    /// The lowest level that is kept ready.
    pub closed spec fn min_level_cache(&self) -> u32 {
        self.cached_min_level
    }

    /// The requirements that are kept ready.
    pub closed spec fn needs(&self) -> TokenRequirements {
        self.cached_requirements
    }

    /// The requirements of the handlers alone that are kept ready.
    pub closed spec fn handler_needs(&self) -> TokenRequirements {
        self.cached_handler_requirements
    }

    /// Whether a handler has a filter, as it is kept ready.
    pub closed spec fn has_filters(&self) -> bool {
        self.cached_has_filters
    }

    /// The id that the next handler or callback gets.
    pub closed spec fn next_free_id(&self) -> u64 {
        self.next_id
    }

    /// What every logger satisfies: what is kept ready is what the handlers
    /// and callbacks of the moment give, and the ids are those of one counter.
    pub open spec fn wf(&self) -> bool {
        &&& self.min_level_cache() == lowest(handler_levels(self.entries()) + callback_levels(self.hooks()))
        &&& self.handler_needs() == merged_needs(self.entries())
        &&& self.has_filters() == any_filter(self.entries())
        &&& self.needs() == (if self.hooks().len() > 0 || self.has_filters() {
            TokenRequirements::every()
        } else {
            self.handler_needs()
        })
        &&& ids_in_order(self.entries(), self.hooks(), self.next_free_id())
    }

    /// Makes `wf()` known of a logger at hand. It does nothing when run.
    pub fn observe(&self)
        ensures
            self.wf(),
    {
        proof {
            use_type_invariant(self);
        }
    }

    /// Works out the lowest level of handlers and callbacks.
    fn update_min_level_cache(handlers: &Vec<HandlerEntry<F>>, callbacks: &Vec<CallbackEntry<C>>) -> (r: u32)
        ensures
            r == lowest(handler_levels(handlers@) + callback_levels(callbacks@)),
    {
        let ghost hl = handler_levels(handlers@);
        let ghost cl = callback_levels(callbacks@);
        let mut min: u32 = u32::MAX;
        let mut i: usize = 0;
        assert(hl.take(0) =~= Seq::<u32>::empty());
        while i < handlers.len()
            invariant
                i <= handlers.len(),
                hl == handler_levels(handlers@),
                min == lowest(hl.take(i as int)),
            decreases handlers.len() - i,
        {
            proof {
                assert(hl.take(i + 1).drop_last() =~= hl.take(i as int));
                assert(hl.take(i + 1).last() == hl[i as int]);
            }
            let level = handlers[i].handler.level().value() as u32;
            if level < min {
                min = level;
            }
            i += 1;
        }
        assert(hl.take(handlers.len() as int) =~= hl);
        let mut j: usize = 0;
        assert(hl + cl.take(0) =~= hl);
        while j < callbacks.len()
            invariant
                j <= callbacks.len(),
                cl == callback_levels(callbacks@),
                min == lowest(hl + cl.take(j as int)),
            decreases callbacks.len() - j,
        {
            proof {
                assert((hl + cl.take(j + 1)).drop_last() =~= hl + cl.take(j as int));
                assert((hl + cl.take(j + 1)).last() == cl[j as int]);
            }
            let level = callbacks[j].level.value() as u32;
            if level < min {
                min = level;
            }
            j += 1;
        }
        assert(cl.take(callbacks.len() as int) =~= cl);
        min
    }

    /// Works out what the handlers ask for and whether one has a filter.
    fn update_requirements_cache(handlers: &Vec<HandlerEntry<F>>) -> (r: (TokenRequirements, bool))
        ensures
            r.0 == merged_needs(handlers@),
            r.1 == any_filter(handlers@),
    {
        let mut handler_only = TokenRequirements::default();
        let mut has_filters = false;
        let mut i: usize = 0;
        assert(handlers@.take(0) =~= Seq::<HandlerEntry<F>>::empty());
        while i < handlers.len()
            invariant
                i <= handlers.len(),
                handler_only == merged_needs(handlers@.take(i as int)),
                has_filters == any_filter(handlers@.take(i as int)),
            decreases handlers.len() - i,
        {
            proof {
                let next = handlers@.take(i + 1);
                let front = handlers@.take(i as int);
                assert(next.drop_last() =~= front);
                assert(next.last() == handlers@[i as int]);
                if any_filter(front) {
                    let k = choose|k: int| 0 <= k < front.len() && (#[trigger] front[k]).filter.is_some();
                    assert(next[k].filter.is_some());
                }
                if handlers@[i as int].filter.is_some() {
                    assert(next[i as int].filter.is_some());
                }
                if any_filter(next) {
                    let k = choose|k: int| 0 <= k < next.len() && (#[trigger] next[k]).filter.is_some();
                    if k < i {
                        assert(front[k].filter.is_some());
                    }
                }
            }
            let req = handlers[i].handler.requirements();
            handler_only = handler_only.merge(&req);
            if handlers[i].filter.is_some() {
                has_filters = true;
            }
            i += 1;
        }
        assert(handlers@.take(handlers.len() as int) =~= handlers@);
        (handler_only, has_filters)
    }

    /// A logger of the given handlers and callbacks, with what is kept ready of
    /// them worked out.
    fn assemble(handlers: Vec<HandlerEntry<F>>, callbacks: Vec<CallbackEntry<C>>, next_id: u64) -> (r: Self)
        requires
            ids_in_order(handlers@, callbacks@, next_id),
        ensures
            r.entries() == handlers@,
            r.hooks() == callbacks@,
            r.next_free_id() == next_id,
            r.wf(),
    {
        let min = Self::update_min_level_cache(&handlers, &callbacks);
        let (handler_only, has_filters) = Self::update_requirements_cache(&handlers);
        let combined = if callbacks.len() > 0 || has_filters {
            TokenRequirements::all()
        } else {
            handler_only
        };
        Logger {
            handlers,
            callbacks,
            cached_min_level: min,
            cached_requirements: combined,
            cached_handler_requirements: handler_only,
            cached_has_filters: has_filters,
            next_id,
        }
    }

    /// A logger without handlers and callbacks.
    pub fn empty() -> (r: Self)
        ensures
            r.entries() == Seq::<HandlerEntry<F>>::empty(),
            r.hooks() == Seq::<CallbackEntry<C>>::empty(),
            r.next_free_id() == 0,
            r.wf(),
    {
        Self::assemble(Vec::new(), Vec::new(), 0)
    }

    /// Takes the logger apart and leaves an empty one in its place.
    fn take_apart(&mut self) -> (r: (Vec<HandlerEntry<F>>, Vec<CallbackEntry<C>>, u64))
        ensures
            r.0@ == old(self).entries(),
            r.1@ == old(self).hooks(),
            r.2 == old(self).next_free_id(),
            ids_in_order(r.0@, r.1@, r.2),
    {
        proof {
            use_type_invariant(&*self);
        }
        let mut taken = Self::empty();
        core::mem::swap(self, &mut taken);
        let Logger { handlers, callbacks, next_id, .. } = taken;
        (handlers, callbacks, next_id)
    }

    /// A logger with one handler, which writes to the standard output from
    /// the given level on, or from `Debug` on where none is given.
    pub fn new(level: Option<LogLevel>) -> (r: Self)
        ensures
            r.entries().len() == 1,
            r.entries()[0].id == 0,
            is_plain_console(
                r.entries()[0],
                match level {
                    Some(l) => l,
                    None => LogLevel::Debug,
                },
            ),
            r.hooks().len() == 0,
            r.next_free_id() == 1,
            r.wf(),
    {
        let console_level = match level {
            Some(l) => l,
            None => LogLevel::Debug,
        };
        let mut handlers: Vec<HandlerEntry<F>> = Vec::new();
        handlers.push(
            HandlerEntry {
                id: 0,
                handler: HandlerType::Console(ConsoleHandler::new(console_level)),
                filter: None,
            },
        );
        Self::assemble(handlers, Vec::new(), 1)
    }

    /// Whether an id is left for one more handler or callback.
    pub fn has_free_id(&self) -> (r: bool)
        ensures
            r == (self.next_free_id() < u64::MAX),
    {
        self.next_id < u64::MAX
    }

    /// Adds a handler that writes to the file of `sink`, from the level
    /// `Debug` on and by the default template where nothing else is given.
    /// Returns the handler's id.
    pub fn add(
        &mut self,
        sink: FileSink,
        level: Option<LogLevel>,
        format: Option<String>,
        serialize: Option<bool>,
        filter: Option<F>,
    ) -> (id: u64)
        requires
            old(self).next_free_id() < u64::MAX,
        ensures
            id == old(self).next_free_id(),
            final(self).next_free_id() == id + 1,
            final(self).hooks() == old(self).hooks(),
            final(self).entries().len() == old(self).entries().len() + 1,
            final(self).entries().drop_last() == old(self).entries(),
            final(self).entries().last().id == id,
            final(self).entries().last().filter == filter,
            match final(self).entries().last().handler {
                HandlerType::File(h) => {
                    &&& h.sink == sink
                    &&& h.level == (match level {
                        Some(l) => l,
                        None => LogLevel::Debug,
                    })
                    &&& h.format.template_text() == (match format {
                        Some(t) => t@,
                        None => crate::format::DEFAULT_FORMAT_TEMPLATE@,
                    })
                    &&& h.format.serializes() == (match serialize {
                        Some(s) => s,
                        None => false,
                    })
                    &&& h.format.time_format_text() == crate::format::DEFAULT_TIME_FORMAT@
                    &&& h.format.wf()
                },
                HandlerType::Console(_) => false,
            },
            final(self).wf(),
    {
        let level = match level {
            Some(l) => l,
            None => LogLevel::Debug,
        };
        let serialize = match serialize {
            Some(s) => s,
            None => false,
        };
        let format_config = FormatConfig::new(format, serialize);
        let (mut handlers, callbacks, next_id) = self.take_apart();
        let id = next_id;
        let ghost before = handlers@;
        handlers.push(
            HandlerEntry {
                id,
                handler: HandlerType::File(FileHandler::with_format(sink, level, format_config)),
                filter,
            },
        );
        assert(handlers@.drop_last() =~= before);
        *self = Self::assemble(handlers, callbacks, next_id + 1);
        id
    }

    /// Adds a handler that writes to the standard output or to the standard
    /// error stream. The stream has to be `stdout` or `stderr`; any other is
    /// refused, and the logger stays as it is. Returns the handler's id.
    pub fn add_console(
        &mut self,
        stream: &str,
        level: Option<LogLevel>,
        format: Option<String>,
        serialize: Option<bool>,
        filter: Option<F>,
        colorize: Option<bool>,
    ) -> (r: Result<u64, ConfigError>)
        requires
            old(self).next_free_id() < u64::MAX,
        ensures
            final(self).wf(),
            final(self).hooks() == old(self).hooks(),
            match r {
                Err(e) => {
                    &&& e == ConfigError::InvalidStream
                    &&& stream@ != "stdout"@ && stream@ != "stderr"@
                    &&& final(self).entries() == old(self).entries()
                    &&& final(self).next_free_id() == old(self).next_free_id()
                },
                Ok(id) => {
                    &&& stream@ == "stdout"@ || stream@ == "stderr"@
                    &&& id == old(self).next_free_id()
                    &&& final(self).next_free_id() == id + 1
                    &&& final(self).entries().len() == old(self).entries().len() + 1
                    &&& final(self).entries().drop_last() == old(self).entries()
                    &&& final(self).entries().last().id == id
                    &&& final(self).entries().last().filter == filter
                    &&& match final(self).entries().last().handler {
                        HandlerType::Console(h) => {
                            &&& h.level == (match level {
                                Some(l) => l,
                                None => LogLevel::Debug,
                            })
                            &&& h.use_stderr == (stream@ == "stderr"@)
                            &&& h.colorize == (match colorize {
                                Some(c) => c,
                                None => !h.format.serializes(),
                            })
                            &&& h.format.template_text() == (match format {
                                Some(t) => t@,
                                None => crate::format::DEFAULT_FORMAT_TEMPLATE@,
                            })
                            &&& h.format.serializes() == (match serialize {
                                Some(s) => s,
                                None => false,
                            })
                            &&& h.format.time_format_text() == crate::format::DEFAULT_TIME_FORMAT@
                            &&& h.format.wf()
                        },
                        HandlerType::File(_) => false,
                    }
                },
            },
    {
        proof {
            use_type_invariant(&*self);
        }
        let level = match level {
            Some(l) => l,
            None => LogLevel::Debug,
        };
        let serialize = match serialize {
            Some(s) => s,
            None => false,
        };
        let colorize = match colorize {
            Some(c) => c,
            None => !serialize,
        };
        let is_stdout = str_equal(stream, "stdout");
        let use_stderr = str_equal(stream, "stderr");
        if !is_stdout && !use_stderr {
            return Err(ConfigError::InvalidStream);
        }
        let format_config = FormatConfig::new(format, serialize);
        let (mut handlers, callbacks, next_id) = self.take_apart();
        let id = next_id;
        let ghost before = handlers@;
        handlers.push(
            HandlerEntry {
                id,
                handler: HandlerType::Console(
                    ConsoleHandler::with_options(level, format_config, colorize, use_stderr),
                ),
                filter,
            },
        );
        assert(handlers@.drop_last() =~= before);
        *self = Self::assemble(handlers, callbacks, next_id + 1);
        Ok(id)
    }

    /// Removes the handler with the given id, or every handler where no id is
    /// given. Says whether anything was there to remove; with no id it always
    /// says yes.
    pub fn remove(&mut self, handler_id: Option<u64>) -> (r: bool)
        ensures
            final(self).wf(),
            final(self).hooks() == old(self).hooks(),
            final(self).next_free_id() == old(self).next_free_id(),
            match handler_id {
                Some(id) => match place_of(old(self).entries(), id) {
                    Some(p) => r && final(self).entries() == old(self).entries().remove(p),
                    None => !r && final(self).entries() == old(self).entries(),
                },
                None => r && final(self).entries() == Seq::<HandlerEntry<F>>::empty(),
            },
    {
        let (mut handlers, callbacks, next_id) = self.take_apart();
        let ghost before = handlers@;
        let result = match handler_id {
            Some(id) => {
                let mut pos: usize = 0;
                assert(before.take(0) =~= Seq::<HandlerEntry<F>>::empty());
                while pos < handlers.len() && handlers[pos].id != id
                    invariant
                        pos <= handlers.len(),
                        handlers@ == before,
                        place_of(before.take(pos as int), id).is_none(),
                    decreases handlers.len() - pos,
                {
                    proof {
                        assert(before.take(pos + 1).drop_last() =~= before.take(pos as int));
                        assert(before.take(pos + 1).last() == before[pos as int]);
                    }
                    pos += 1;
                }
                let found = pos < handlers.len();
                proof {
                    if found {
                        lemma_place_of_prefix(before, id, pos as int);
                    } else {
                        assert(before.take(handlers.len() as int) =~= before);
                    }
                }
                if found {
                    handlers.remove(pos);
                    proof {
                        lemma_ids_after_removal(before, callbacks@, next_id, pos as int);
                    }
                    true
                } else {
                    false
                }
            },
            None => {
                handlers.clear();
                true
            },
        };
        *self = Self::assemble(handlers, callbacks, next_id);
        result
    }

    /// Gives every handler that writes to the terminal the given level.
    pub fn set_level(&mut self, level: LogLevel)
        ensures
            final(self).wf(),
            final(self).hooks() == old(self).hooks(),
            final(self).next_free_id() == old(self).next_free_id(),
            final(self).entries() == Seq::new(
                old(self).entries().len(),
                |i: int| with_console_level(old(self).entries()[i], level),
            ),
    {
        let (mut handlers, callbacks, next_id) = self.take_apart();
        let ghost before = handlers@;
        let mut i: usize = 0;
        while i < handlers.len()
            invariant
                i <= handlers.len(),
                handlers.len() == before.len(),
                forall|k: int| 0 <= k < i ==> handlers@[k] == with_console_level(before[k], level),
                forall|k: int| i <= k < handlers.len() ==> handlers@[k] == before[k],
            decreases handlers.len() - i,
        {
            let entry = handlers.remove(i);
            let HandlerEntry { id, handler, filter } = entry;
            let changed = match handler {
                HandlerType::Console(h) => {
                    let ConsoleHandler { level: _, format, colorize, use_stderr } = h;
                    HandlerType::Console(ConsoleHandler { level, format, colorize, use_stderr })
                },
                HandlerType::File(h) => HandlerType::File(h),
            };
            handlers.insert(i, HandlerEntry { id, handler: changed, filter });
            i += 1;
        }
        proof {
            assert(handlers@ =~= Seq::new(before.len(), |i: int| with_console_level(before[i], level)));
            assert forall|k: int| 0 <= k < handlers.len() implies (#[trigger] handlers@[k]).id
                == before[k].id by {}
        }
        *self = Self::assemble(handlers, callbacks, next_id);
    }

    /// The level of the first handler that writes to the terminal; `Debug`
    /// where there is none.
    pub fn get_level(&self) -> (r: LogLevel)
        ensures
            r == first_console_level(self.entries()),
    {
        let mut i: usize = 0;
        assert(self.handlers@.skip(0) =~= self.handlers@);
        while i < self.handlers.len()
            invariant
                i <= self.handlers.len(),
                first_console_level(self.handlers@) == first_console_level(self.handlers@.skip(i as int)),
            decreases self.handlers.len() - i,
        {
            proof {
                assert(self.handlers@.skip(i as int)[0] == self.handlers@[i as int]);
                assert(self.handlers@.skip(i as int).skip(1) =~= self.handlers@.skip(i + 1));
            }
            if let HandlerType::Console(h) = &self.handlers[i].handler {
                return h.level;
            }
            i += 1;
        }
        LogLevel::Debug
    }

    /// Whether a handler or a callback takes records of the given level.
    pub fn is_level_enabled(&self, level: LogLevel) -> (r: bool)
        ensures
            r == (any_handler_admits(self.entries(), level.no()) || any_callback_admits(
                self.hooks(),
                level.no(),
            )),
            r == (level.no() >= self.min_level_cache()),
    {
        proof {
            use_type_invariant(self);
            lemma_min_level_admits(self.handlers@, self.callbacks@, level.no());
        }
        self.admitted_somewhere(level.value() as u32)
    }

    /// Whether a handler or a callback takes records of the given number.
    fn admitted_somewhere(&self, level_no: u32) -> (r: bool)
        ensures
            r == (any_handler_admits(self.entries(), level_no) || any_callback_admits(
                self.hooks(),
                level_no,
            )),
    {
        let mut i: usize = 0;
        while i < self.handlers.len()
            invariant
                i <= self.handlers.len(),
                forall|k: int| 0 <= k < i ==> !(#[trigger] self.handlers@[k]).handler.admits(level_no),
            decreases self.handlers.len() - i,
        {
            if level_no >= self.handlers[i].handler.level().value() as u32 {
                assert(self.handlers@[i as int].handler.admits(level_no));
                return true;
            }
            i += 1;
        }
        let mut j: usize = 0;
        while j < self.callbacks.len()
            invariant
                j <= self.callbacks.len(),
                !any_handler_admits(self.handlers@, level_no),
                forall|k: int| 0 <= k < j ==> level_no < (#[trigger] self.callbacks@[k]).level.no(),
            decreases self.callbacks.len() - j,
        {
            if level_no >= self.callbacks[j].level.value() as u32 {
                assert(level_no >= self.callbacks@[j as int].level.no());
                return true;
            }
            j += 1;
        }
        false
    }

    /// The lowest level of handlers and callbacks; the greatest number there
    /// is where there are none.
    pub fn min_level(&self) -> (r: u32)
        ensures
            r == self.min_level_cache(),
            r == lowest(handler_levels(self.entries()) + callback_levels(self.hooks())),
    {
        proof {
            use_type_invariant(self);
        }
        self.cached_min_level
    }

    /// What handlers, callbacks and filters ask for, taken together.
    pub fn requirements(&self) -> (r: TokenRequirements)
        ensures
            r == self.needs(),
            self.wf(),
    {
        proof {
            use_type_invariant(self);
        }
        self.cached_requirements
    }

    /// What the formats of the handlers ask for, taken together.
    pub fn handler_requirements(&self) -> (r: TokenRequirements)
        ensures
            r == self.handler_needs(),
            self.wf(),
    {
        proof {
            use_type_invariant(self);
        }
        self.cached_handler_requirements
    }

    pub fn needs_caller_info(&self) -> (r: bool)
        ensures
            r == self.needs().needs_caller,
    {
        self.cached_requirements.needs_caller
    }

    pub fn needs_thread_info(&self) -> (r: bool)
        ensures
            r == self.needs().needs_thread,
    {
        self.cached_requirements.needs_thread
    }

    pub fn needs_process_info(&self) -> (r: bool)
        ensures
            r == self.needs().needs_process,
    {
        self.cached_requirements.needs_process
    }

    pub fn needs_caller_info_for_handlers(&self) -> (r: bool)
        ensures
            r == self.handler_needs().needs_caller,
    {
        self.cached_handler_requirements.needs_caller
    }

    pub fn needs_thread_info_for_handlers(&self) -> (r: bool)
        ensures
            r == self.handler_needs().needs_thread,
    {
        self.cached_handler_requirements.needs_thread
    }

    pub fn needs_process_info_for_handlers(&self) -> (r: bool)
        ensures
            r == self.handler_needs().needs_process,
    {
        self.cached_handler_requirements.needs_process
    }

    /// Whether a handler has a filter.
    pub fn any_filters(&self) -> (r: bool)
        ensures
            r == self.has_filters(),
            r == any_filter(self.entries()),
    {
        proof {
            use_type_invariant(self);
        }
        self.cached_has_filters
    }

    pub fn handler_count(&self) -> (r: usize)
        ensures
            r == self.entries().len(),
    {
        self.handlers.len()
    }

    pub fn callback_count(&self) -> (r: usize)
        ensures
            r == self.hooks().len(),
    {
        self.callbacks.len()
    }

    /// The handler at a place.
    pub fn handler_at(&self, position: usize) -> (r: &HandlerEntry<F>)
        requires
            position < self.entries().len(),
        ensures
            *r == self.entries()[position as int],
    {
        &self.handlers[position]
    }

    /// The callback at a place.
    pub fn callback_at(&self, position: usize) -> (r: &CallbackEntry<C>)
        requires
            position < self.hooks().len(),
        ensures
            *r == self.hooks()[position as int],
    {
        &self.callbacks[position]
    }

    /// Removes the handlers that write to the terminal.
    pub fn disable(&mut self)
        ensures
            final(self).wf(),
            final(self).hooks() == old(self).hooks(),
            final(self).next_free_id() == old(self).next_free_id(),
            final(self).entries() == keep_where(old(self).entries(), is_not_console()),
    {
        let (mut handlers, callbacks, next_id) = self.take_apart();
        let ghost before = handlers@;
        let ghost stays = is_not_console::<F>();
        let mut i: usize = 0;
        let ghost mut seen: int = 0;
        assert(before.take(0) =~= Seq::<HandlerEntry<F>>::empty());
        assert(before.skip(0) =~= before);
        while i < handlers.len()
            invariant
                i <= handlers.len(),
                0 <= seen <= before.len(),
                stays == is_not_console::<F>(),
                i == keep_where(before.take(seen), stays).len(),
                handlers@ == keep_where(before.take(seen), stays) + before.skip(seen),
            decreases handlers.len() - i,
        {
            proof {
                assert(handlers@[i as int] == before.skip(seen)[0]);
                assert(before.take(seen + 1).drop_last() =~= before.take(seen));
                assert(before.take(seen + 1).last() == before[seen]);
                assert(before.skip(seen).skip(1) =~= before.skip(seen + 1));
            }
            let is_console = match &handlers[i].handler {
                HandlerType::Console(_) => true,
                HandlerType::File(_) => false,
            };
            if is_console {
                handlers.remove(i);
                proof {
                    assert(handlers@ =~= keep_where(before.take(seen + 1), stays) + before.skip(seen + 1));
                }
            } else {
                proof {
                    assert(handlers@ =~= keep_where(before.take(seen + 1), stays) + before.skip(seen + 1));
                }
                i += 1;
            }
            proof {
                seen = seen + 1;
            }
        }
        proof {
            assert(seen == before.len()) by {
                if seen < before.len() {
                    assert((keep_where(before.take(seen), stays) + before.skip(seen)).len() > i);
                }
            }
            assert(before.take(seen) =~= before);
            assert(handlers@ =~= keep_where(before, stays));
            lemma_ids_of_kept_handlers(before, callbacks@, next_id, stays);
        }
        *self = Self::assemble(handlers, callbacks, next_id);
    }

    /// Adds a handler that writes to the standard output, from the given level
    /// on or from `Debug` on, unless a handler writes to the terminal already.
    pub fn enable(&mut self, level: Option<LogLevel>)
        requires
            old(self).next_free_id() < u64::MAX,
        ensures
            final(self).wf(),
            final(self).hooks() == old(self).hooks(),
            if has_console(old(self).entries()) {
                &&& final(self).entries() == old(self).entries()
                &&& final(self).next_free_id() == old(self).next_free_id()
            } else {
                &&& final(self).entries().len() == old(self).entries().len() + 1
                &&& final(self).entries().drop_last() == old(self).entries()
                &&& final(self).entries().last().id == old(self).next_free_id()
                &&& is_plain_console(
                    final(self).entries().last(),
                    match level {
                        Some(l) => l,
                        None => LogLevel::Debug,
                    },
                )
                &&& final(self).next_free_id() == old(self).next_free_id() + 1
            },
    {
        proof {
            use_type_invariant(&*self);
        }
        if self.is_enabled() {
            return ;
        }
        let console_level = match level {
            Some(l) => l,
            None => LogLevel::Debug,
        };
        let (mut handlers, callbacks, next_id) = self.take_apart();
        let ghost before = handlers@;
        handlers.push(
            HandlerEntry {
                id: next_id,
                handler: HandlerType::Console(ConsoleHandler::new(console_level)),
                filter: None,
            },
        );
        assert(handlers@.drop_last() =~= before);
        *self = Self::assemble(handlers, callbacks, next_id + 1);
    }

    /// Whether a handler writes to the terminal.
    pub fn is_enabled(&self) -> (r: bool)
        ensures
            r == has_console(self.entries()),
    {
        let mut i: usize = 0;
        while i < self.handlers.len()
            invariant
                i <= self.handlers.len(),
                forall|k: int| 0 <= k < i ==> !((#[trigger] self.handlers@[k]).handler is Console),
            decreases self.handlers.len() - i,
        {
            if let HandlerType::Console(_) = &self.handlers[i].handler {
                assert(self.handlers@[i as int].handler is Console);
                return true;
            }
            i += 1;
        }
        false
    }

    /// The places of the handlers whose files have to be written out, in
    /// their order: those of the handlers that write to a file.
    pub fn complete(&self) -> (r: Vec<usize>)
        ensures
            r@ == file_places(self.entries()),
            forall|k: int| 0 <= k < r.len() ==> (#[trigger] r[k]) < self.entries().len(),
    {
        let mut r: Vec<usize> = Vec::new();
        let mut i: usize = 0;
        assert(self.handlers@.take(0) =~= Seq::<HandlerEntry<F>>::empty());
        while i < self.handlers.len()
            invariant
                i <= self.handlers.len(),
                r@ == file_places(self.handlers@.take(i as int)),
                forall|k: int| 0 <= k < r.len() ==> (#[trigger] r[k]) < i,
            decreases self.handlers.len() - i,
        {
            proof {
                assert(self.handlers@.take(i + 1).drop_last() =~= self.handlers@.take(i as int));
                assert(self.handlers@.take(i + 1).last() == self.handlers@[i as int]);
            }
            if let HandlerType::File(_) = &self.handlers[i].handler {
                r.push(i);
            }
            i += 1;
        }
        assert(self.handlers@.take(self.handlers.len() as int) =~= self.handlers@);
        r
    }

    /// Registers a callback for the records from the given level on, or from
    /// `Debug` on where none is given. Returns the callback's id.
    pub fn add_callback(&mut self, callback: C, level: Option<LogLevel>) -> (id: u64)
        requires
            old(self).next_free_id() < u64::MAX,
        ensures
            final(self).wf(),
            id == old(self).next_free_id(),
            final(self).next_free_id() == id + 1,
            final(self).entries() == old(self).entries(),
            final(self).hooks() == old(self).hooks().push(
                CallbackEntry {
                    id,
                    callback,
                    level: (match level {
                        Some(l) => l,
                        None => LogLevel::Debug,
                    }),
                },
            ),
    {
        let (handlers, mut callbacks, next_id) = self.take_apart();
        let id = next_id;
        let entry = CallbackEntry {
            id,
            callback,
            level: match level {
                Some(l) => l,
                None => LogLevel::Debug,
            },
        };
        callbacks.push(entry);
        *self = Self::assemble(handlers, callbacks, next_id + 1);
        id
    }

    /// Removes the callback with the given id. Says whether it was there.
    pub fn remove_callback(&mut self, callback_id: u64) -> (r: bool)
        ensures
            final(self).wf(),
            final(self).entries() == old(self).entries(),
            final(self).next_free_id() == old(self).next_free_id(),
            match callback_place(old(self).hooks(), callback_id) {
                Some(p) => r && final(self).hooks() == old(self).hooks().remove(p),
                None => !r && final(self).hooks() == old(self).hooks(),
            },
    {
        let (handlers, mut callbacks, next_id) = self.take_apart();
        let ghost before = callbacks@;
        let mut pos: usize = 0;
        assert(before.take(0) =~= Seq::<CallbackEntry<C>>::empty());
        while pos < callbacks.len() && callbacks[pos].id != callback_id
            invariant
                pos <= callbacks.len(),
                callbacks@ == before,
                callback_place(before.take(pos as int), callback_id).is_none(),
            decreases callbacks.len() - pos,
        {
            proof {
                assert(before.take(pos + 1).drop_last() =~= before.take(pos as int));
                assert(before.take(pos + 1).last() == before[pos as int]);
            }
            pos += 1;
        }
        let found = pos < callbacks.len();
        proof {
            if found {
                lemma_callback_place_prefix(before, callback_id, pos as int);
            } else {
                assert(before.take(callbacks.len() as int) =~= before);
            }
        }
        if found {
            callbacks.remove(pos);
            proof {
                lemma_ids_after_callback_removal(handlers@, before, next_id, pos as int);
            }
        }
        *self = Self::assemble(handlers, callbacks, next_id);
        found
    }

    /// Removes the callbacks whose ids are among `callback_ids`. Returns how
    /// many were removed.
    pub fn remove_callbacks(&mut self, callback_ids: Vec<u64>) -> (removed: usize)
        ensures
            final(self).wf(),
            final(self).entries() == old(self).entries(),
            final(self).next_free_id() == old(self).next_free_id(),
            final(self).hooks() == keep_where(old(self).hooks(), is_unlisted(callback_ids@)),
            removed == old(self).hooks().len() - final(self).hooks().len(),
    {
        let (handlers, mut callbacks, next_id) = self.take_apart();
        let ghost before = callbacks@;
        let ghost stays = is_unlisted::<C>(callback_ids@);
        assert(before.len() == callbacks.len());
        let mut i: usize = 0;
        let mut removed: usize = 0;
        let ghost mut seen: int = 0;
        assert(before.take(0) =~= Seq::<CallbackEntry<C>>::empty());
        assert(before.skip(0) =~= before);
        while i < callbacks.len()
            invariant
                i <= callbacks.len(),
                0 <= seen <= before.len(),
                i == keep_where(before.take(seen), stays).len(),
                callbacks@ == keep_where(before.take(seen), stays) + before.skip(seen),
                removed + callbacks.len() == before.len(),
                before.len() <= usize::MAX,
                stays == is_unlisted::<C>(callback_ids@),
            decreases callbacks.len() - i,
        {
            proof {
                assert(callbacks@[i as int] == before.skip(seen)[0]);
                assert(before.take(seen + 1).drop_last() =~= before.take(seen));
                assert(before.take(seen + 1).last() == before[seen]);
                assert(before.skip(seen).skip(1) =~= before.skip(seen + 1));
            }
            if is_listed(&callback_ids, callbacks[i].id) {
                callbacks.remove(i);
                removed += 1;
                proof {
                    assert(callbacks@ =~= keep_where(before.take(seen + 1), stays) + before.skip(seen + 1));
                }
            } else {
                proof {
                    assert(callbacks@ =~= keep_where(before.take(seen + 1), stays) + before.skip(seen + 1));
                }
                i += 1;
            }
            proof {
                seen = seen + 1;
            }
        }
        proof {
            assert(seen == before.len()) by {
                if seen < before.len() {
                    assert((keep_where(before.take(seen), stays) + before.skip(seen)).len() > i);
                }
            }
            assert(before.take(seen) =~= before);
            assert(callbacks@ =~= keep_where(before, stays));
            lemma_ids_of_kept_callbacks(handlers@, before, next_id, stays);
        }
        *self = Self::assemble(handlers, callbacks, next_id);
        removed
    }

    /// What a log call at a built-in level leads to: nothing where no handler
    /// and no callback takes the level; else the record, made of the
    /// arguments and the context, with the callbacks to call.
    pub fn dispatch(
        &self,
        level: LogLevel,
        message: String,
        exception: Option<String>,
        name: Option<String>,
        function: Option<String>,
        line: Option<u32>,
        file: Option<String>,
        thread_name: Option<String>,
        thread_id: Option<u64>,
        process_name: Option<String>,
        process_id: Option<u32>,
        context: &Arc<Context>,
    ) -> (r: Option<Dispatch>)
        ensures
            r.is_some() == (any_handler_admits(self.entries(), level.no()) || any_callback_admits(
                self.hooks(),
                level.no(),
            )),
            level.no() < self.min_level_cache() ==> r.is_none(),
            match r {
                Some(d) => {
                    &&& d.record.level == level
                    &&& d.record.level_info.is_none()
                    &&& d.record.message == message
                    &&& d.record.timestamp.is_reading()
                    &&& d.record.exception == exception
                    &&& d.record.extra == *context
                    &&& is_origin(
                        d.record,
                        name,
                        function,
                        line,
                        file,
                        thread_name,
                        thread_id,
                        process_name,
                        process_id,
                    )
                    &&& d.needs_view == (any_callback_admits(self.hooks(), level.no())
                        || self.has_filters())
                    &&& d.callbacks@ == callbacks_due(self.hooks(), level.no())
                },
                None => true,
            },
    {
        proof {
            use_type_invariant(self);
            lemma_min_level_admits(self.handlers@, self.callbacks@, level.no());
        }
        let level_no = level.value() as u32;
        if !self.admitted_somewhere(level_no) {
            return None;
        }
        let callbacks = self.due_callbacks(level_no);
        let needs_view = callbacks.len() > 0 || self.cached_has_filters;
        let caller = CallerInfo::with_file(
            text_or_empty(name),
            text_or_empty(function),
            match line {
                Some(l) => l,
                None => 0,
            },
            text_or_empty(file),
        );
        let thread = ThreadInfo {
            name: text_or_empty(thread_name),
            id: match thread_id {
                Some(i) => i,
                None => 0,
            },
        };
        let process = ProcessInfo {
            name: text_or_empty(process_name),
            id: match process_id {
                Some(i) => i,
                None => 0,
            },
        };
        let record = LogRecord::with_all(
            level,
            message,
            crate::handler::share(context),
            exception,
            caller,
            thread,
            process,
        );
        Some(Dispatch { record, needs_view, callbacks })
    }

    /// What a log call at a level of the registry leads to; as `dispatch`,
    /// with the number of the given level.
    pub fn dispatch_custom(
        &self,
        level_info: LevelInfo,
        message: String,
        exception: Option<String>,
        name: Option<String>,
        function: Option<String>,
        line: Option<u32>,
        file: Option<String>,
        thread_name: Option<String>,
        thread_id: Option<u64>,
        process_name: Option<String>,
        process_id: Option<u32>,
        context: &Arc<Context>,
    ) -> (r: Option<Dispatch>)
        ensures
            r.is_some() == (any_handler_admits(self.entries(), level_info.no) || any_callback_admits(
                self.hooks(),
                level_info.no,
            )),
            level_info.no < self.min_level_cache() ==> r.is_none(),
            match r {
                Some(d) => {
                    &&& d.record.level_info == Some(level_info)
                    &&& d.record.message == message
                    &&& d.record.timestamp.is_reading()
                    &&& d.record.exception == exception
                    &&& d.record.extra == *context
                    &&& is_origin(
                        d.record,
                        name,
                        function,
                        line,
                        file,
                        thread_name,
                        thread_id,
                        process_name,
                        process_id,
                    )
                    &&& d.needs_view == (any_callback_admits(self.hooks(), level_info.no)
                        || self.has_filters())
                    &&& d.callbacks@ == callbacks_due(self.hooks(), level_info.no)
                },
                None => true,
            },
    {
        proof {
            use_type_invariant(self);
            lemma_min_level_admits(self.handlers@, self.callbacks@, level_info.no);
        }
        let level_no = level_info.no;
        if !self.admitted_somewhere(level_no) {
            return None;
        }
        let callbacks = self.due_callbacks(level_no);
        let needs_view = callbacks.len() > 0 || self.cached_has_filters;
        let caller = CallerInfo::with_file(
            text_or_empty(name),
            text_or_empty(function),
            match line {
                Some(l) => l,
                None => 0,
            },
            text_or_empty(file),
        );
        let thread = ThreadInfo {
            name: text_or_empty(thread_name),
            id: match thread_id {
                Some(i) => i,
                None => 0,
            },
        };
        let process = ProcessInfo {
            name: text_or_empty(process_name),
            id: match process_id {
                Some(i) => i,
                None => 0,
            },
        };
        let record = LogRecord::with_custom_level_full(
            level_info,
            message,
            crate::handler::share(context),
            exception,
            caller,
            thread,
            process,
        );
        Some(Dispatch { record, needs_view, callbacks })
    }

    /// What a log call leads to that names its level, by name or by number:
    /// the level is looked up in the registry, and a level that is not found is
    /// refused.
    pub fn log(
        &self,
        registry: &LevelRegistry,
        level_arg: &LevelArg,
        message: String,
        exception: Option<String>,
        name: Option<String>,
        function: Option<String>,
        line: Option<u32>,
        file: Option<String>,
        thread_name: Option<String>,
        thread_id: Option<u64>,
        process_name: Option<String>,
        process_id: Option<u32>,
        context: &Arc<Context>,
    ) -> (r: Result<Option<Dispatch>, ConfigError>)
        ensures
            match r {
                Err(e) => e == ConfigError::InvalidLevel && answers(resolve(registry, *level_arg), None),
                Ok(outcome) => exists|info: LevelInfo|
                    {
                        &&& #[trigger] answers(resolve(registry, *level_arg), Some(info))
                        &&& outcome.is_some() == (any_handler_admits(self.entries(), info.no)
                            || any_callback_admits(self.hooks(), info.no))
                        &&& match outcome {
                            Some(d) => {
                                &&& d.record.level_info == Some(info)
                                &&& d.record.message == message
                                &&& d.record.timestamp.is_reading()
                                &&& d.record.exception == exception
                                &&& d.record.extra == *context
                                &&& is_origin(
                                    d.record,
                                    name,
                                    function,
                                    line,
                                    file,
                                    thread_name,
                                    thread_id,
                                    process_name,
                                    process_id,
                                )
                                &&& d.needs_view == (any_callback_admits(self.hooks(), info.no)
                                    || self.has_filters())
                                &&& d.callbacks@ == callbacks_due(self.hooks(), info.no)
                            },
                            None => true,
                        }
                    },
            },
    {
        let level_info = match level_arg {
            LevelArg::Name(lvl_name) => get_level_info(registry, lvl_name.as_str()),
            LevelArg::Number(no) => get_level_by_no(registry, *no),
        };
        match level_info {
            Some(info) => {
                let ghost found = info;
                let outcome = self.dispatch_custom(
                    info,
                    message,
                    exception,
                    name,
                    function,
                    line,
                    file,
                    thread_name,
                    thread_id,
                    process_name,
                    process_id,
                    context,
                );
                assert(answers(resolve(registry, *level_arg), Some(found)));
                Ok(outcome)
            },
            None => Err(ConfigError::InvalidLevel),
        }
    }

    /// The places of the callbacks that take a record of the given number.
    fn due_callbacks(&self, level_no: u32) -> (r: Vec<usize>)
        ensures
            r@ == callbacks_due(self.hooks(), level_no),
            (r.len() > 0) == any_callback_admits(self.hooks(), level_no),
            forall|k: int| 0 <= k < r.len() ==> (#[trigger] r[k]) < self.hooks().len(),
    {
        let mut r: Vec<usize> = Vec::new();
        let mut i: usize = 0;
        assert(self.callbacks@.take(0) =~= Seq::<CallbackEntry<C>>::empty());
        while i < self.callbacks.len()
            invariant
                i <= self.callbacks.len(),
                r@ == callbacks_due(self.callbacks@.take(i as int), level_no),
                (r.len() > 0) == any_callback_admits(self.callbacks@.take(i as int), level_no),
                forall|k: int| 0 <= k < r.len() ==> (#[trigger] r[k]) < i,
            decreases self.callbacks.len() - i,
        {
            proof {
                let next = self.callbacks@.take(i + 1);
                let front = self.callbacks@.take(i as int);
                assert(next.drop_last() =~= front);
                assert(next.last() == self.callbacks@[i as int]);
                if any_callback_admits(front, level_no) {
                    let k = choose|k: int| 0 <= k < front.len() && level_no >= (#[trigger] front[k]).level.no();
                    assert(level_no >= next[k].level.no());
                }
                if level_no >= self.callbacks@[i as int].level.no() {
                    assert(level_no >= next[i as int].level.no());
                }
                if any_callback_admits(next, level_no) {
                    let k = choose|k: int| 0 <= k < next.len() && level_no >= (#[trigger] next[k]).level.no();
                    if k < i {
                        assert(level_no >= front[k].level.no());
                    }
                }
            }
            if level_no >= self.callbacks[i].level.value() as u32 {
                r.push(i);
            }
            i += 1;
        }
        assert(self.callbacks@.take(self.callbacks.len() as int) =~= self.callbacks@);
        r
    }

    /// Hands a record to the handler at a place, unless its filter turned the
    /// record down. `verdict` is what the filter said: `Some(false)` where it
    /// turned the record down, `Some(true)` where it let it pass, `None` where
    /// it failed or was not asked.
    pub fn deliver(
        &self,
        position: usize,
        record: &LogRecord,
        verdict: Option<bool>,
        now: &Timestamp,
        start: &Timestamp,
    ) -> (r: Delivery)
        requires
            position < self.entries().len(),
        ensures
            !(r is Skipped) == self.entries()[position as int].invoked(record.number(), verdict),
            self.entries()[position as int].invoked(record.number(), verdict)
                ==> self.entries()[position as int].handler.delivery(*record, *now, *start, r),
            record.number() < self.min_level_cache() ==> r is Skipped,
    {
        proof {
            use_type_invariant(self);
            lemma_min_level_admits(self.handlers@, self.callbacks@, record.number());
        }
        self.handlers[position].deliver(record, verdict, now, start)
    }

    /// Takes note that the file of the handler at a place was put aside at
    /// `now`. A handler that writes to the terminal stays as it is.
    pub fn note_rotated(&mut self, position: usize, now: &Timestamp)
        requires
            position < old(self).entries().len(),
        ensures
            final(self).wf(),
            final(self).hooks() == old(self).hooks(),
            final(self).next_free_id() == old(self).next_free_id(),
            final(self).entries().len() == old(self).entries().len(),
            forall|k: int|
                0 <= k < old(self).entries().len() && k != position ==> final(self).entries()[k]
                    == old(self).entries()[k],
            match old(self).entries()[position as int].handler {
                HandlerType::File(h) => exists|sink: FileSink|
                    {
                        &&& #[trigger] with_sink(old(self).entries()[position as int], sink)
                            == final(self).entries()[position as int]
                        &&& sink.settings() == h.sink.settings()
                        &&& sink.path_parts() == h.sink.path_parts()
                        &&& sink.size() == 0
                        &&& sink.file_time() == *now
                        &&& sink.boundary_follows(*now)
                    },
                HandlerType::Console(_) => final(self).entries()[position as int]
                    == old(self).entries()[position as int],
            },
    {
        let (mut handlers, callbacks, next_id) = self.take_apart();
        let ghost before = handlers@;
        let entry = handlers.remove(position);
        let HandlerEntry { id, handler, filter } = entry;
        let changed = match handler {
            HandlerType::File(h) => {
                let FileHandler { sink, level, format } = h;
                let mut sink = sink;
                sink.rotated(now);
                HandlerType::File(FileHandler { sink, level, format })
            },
            HandlerType::Console(h) => HandlerType::Console(h),
        };
        handlers.insert(position, HandlerEntry { id, handler: changed, filter });
        proof {
            assert forall|k: int| 0 <= k < handlers.len() implies (#[trigger] handlers@[k]).id
                == before[k].id by {}
            match before[position as int].handler {
                HandlerType::File(h) => {
                    let sink = handlers@[position as int].handler->File_0.sink;
                    assert(with_sink(before[position as int], sink) == handlers@[position as int]);
                },
                HandlerType::Console(_) => {},
            }
        }
        *self = Self::assemble(handlers, callbacks, next_id);
    }

    /// Takes note that a line whose message has `bytes` bytes was written to
    /// the file of the handler at a place. A handler that writes to the
    /// terminal stays as it is.
    pub fn note_written(&mut self, position: usize, bytes: usize)
        requires
            position < old(self).entries().len(),
        ensures
            final(self).wf(),
            final(self).hooks() == old(self).hooks(),
            final(self).next_free_id() == old(self).next_free_id(),
            final(self).entries().len() == old(self).entries().len(),
            forall|k: int|
                0 <= k < old(self).entries().len() && k != position ==> final(self).entries()[k]
                    == old(self).entries()[k],
            match old(self).entries()[position as int].handler {
                HandlerType::File(h) => exists|sink: FileSink|
                    {
                        &&& #[trigger] with_sink(old(self).entries()[position as int], sink)
                            == final(self).entries()[position as int]
                        &&& sink.settings() == h.sink.settings()
                        &&& sink.path_parts() == h.sink.path_parts()
                        &&& sink.size() == crate::sink::grown_size(h.sink.size(), bytes)
                        &&& sink.file_time() == h.sink.file_time()
                        &&& sink.boundary() == h.sink.boundary()
                    },
                HandlerType::Console(_) => final(self).entries()[position as int]
                    == old(self).entries()[position as int],
            },
    {
        let (mut handlers, callbacks, next_id) = self.take_apart();
        let ghost before = handlers@;
        let entry = handlers.remove(position);
        let HandlerEntry { id, handler, filter } = entry;
        let changed = match handler {
            HandlerType::File(h) => {
                let FileHandler { sink, level, format } = h;
                let mut sink = sink;
                sink.written(bytes);
                HandlerType::File(FileHandler { sink, level, format })
            },
            HandlerType::Console(h) => HandlerType::Console(h),
        };
        handlers.insert(position, HandlerEntry { id, handler: changed, filter });
        proof {
            assert forall|k: int| 0 <= k < handlers.len() implies (#[trigger] handlers@[k]).id
                == before[k].id by {}
            match before[position as int].handler {
                HandlerType::File(h) => {
                    let sink = handlers@[position as int].handler->File_0.sink;
                    assert(with_sink(before[position as int], sink) == handlers@[position as int]);
                },
                HandlerType::Console(_) => {},
            }
        }
        *self = Self::assemble(handlers, callbacks, next_id);
    }
}

/// The level that a log call names, looked up in a registry.
pub open spec fn resolve(registry: &LevelRegistry, level_arg: LevelArg) -> crate::level::Found {
    match level_arg {
        LevelArg::Name(name) => registry.lookup(name@),
        LevelArg::Number(no) => registry.lookup_no(no),
    }
}

/// The text of an argument that may be left out.
pub open spec fn text_of(s: Option<String>) -> Seq<char> {
    match s {
        Some(t) => t@,
        None => Seq::empty(),
    }
}

/// Whether a record names caller, thread and process as the arguments of a
/// log call give them; what is left out is empty or zero.
pub open spec fn is_origin(
    record: LogRecord,
    name: Option<String>,
    function: Option<String>,
    line: Option<u32>,
    file: Option<String>,
    thread_name: Option<String>,
    thread_id: Option<u64>,
    process_name: Option<String>,
    process_id: Option<u32>,
) -> bool {
    &&& record.caller.name@ == text_of(name)
    &&& record.caller.function@ == text_of(function)
    &&& record.caller.line == (match line {
        Some(l) => l,
        None => 0,
    })
    &&& record.caller.file@ == text_of(file)
    &&& record.thread.name@ == text_of(thread_name)
    &&& record.thread.id == (match thread_id {
        Some(i) => i,
        None => 0,
    })
    &&& record.process.name@ == text_of(process_name)
    &&& record.process.id == (match process_id {
        Some(i) => i,
        None => 0,
    })
}

fn text_or_empty(s: Option<String>) -> (r: String)
    ensures
        r@ == text_of(s),
{
    match s {
        Some(t) => t,
        None => String::new(),
    }
}

fn is_listed(ids: &Vec<u64>, id: u64) -> (r: bool)
    ensures
        r == ids@.contains(id),
{
    let mut i: usize = 0;
    while i < ids.len()
        invariant
            i <= ids.len(),
            forall|k: int| 0 <= k < i ==> ids@[k] != id,
        decreases ids.len() - i,
    {
        if ids[i] == id {
            return true;
        }
        i += 1;
    }
    false
}

/// The level of the first handler that writes to the terminal; `Debug` where
/// there is none.
pub open spec fn first_console_level<F>(handlers: Seq<HandlerEntry<F>>) -> LogLevel
    decreases handlers.len(),
{
    if handlers.len() == 0 {
        LogLevel::Debug
    } else {
        match handlers[0].handler {
            HandlerType::Console(h) => h.level,
            HandlerType::File(_) => first_console_level(handlers.skip(1)),
        }
    }
}

/// Whether a handler writes to the terminal.
pub open spec fn has_console<F>(handlers: Seq<HandlerEntry<F>>) -> bool {
    exists|i: int| 0 <= i < handlers.len() && (#[trigger] handlers[i]).handler is Console
}

/// The places of the handlers that write to a file, in their order.
pub open spec fn file_places<F>(handlers: Seq<HandlerEntry<F>>) -> Seq<usize>
    decreases handlers.len(),
{
    if handlers.len() == 0 {
        Seq::empty()
    } else {
        let before = file_places(handlers.drop_last());
        if handlers.last().handler is File {
            before.push((handlers.len() - 1) as usize)
        } else {
            before
        }
    }
}

/// A record that a handler or a callback takes has a number that is not below
/// the lowest level of them all, and a record with such a number is taken by
/// one of them. Where there is neither handler nor callback, nothing is
/// taken, whatever the number.
pub proof fn lemma_min_level_admits<F, C>(
    handlers: Seq<HandlerEntry<F>>,
    callbacks: Seq<CallbackEntry<C>>,
    level_no: u32,
)
    ensures
        (any_handler_admits(handlers, level_no) || any_callback_admits(callbacks, level_no)) ==> level_no
            >= lowest(handler_levels(handlers) + callback_levels(callbacks)),
        level_no >= lowest(handler_levels(handlers) + callback_levels(callbacks)) && (handlers.len()
            + callbacks.len() > 0 || level_no < u32::MAX) ==> any_handler_admits(handlers, level_no)
            || any_callback_admits(callbacks, level_no),
        level_no < lowest(handler_levels(handlers) + callback_levels(callbacks)) ==> forall|i: int|
            0 <= i < handlers.len() ==> !(#[trigger] handlers[i]).handler.admits(level_no),
{
    let hl = handler_levels(handlers);
    let cl = callback_levels(callbacks);
    let all = hl + cl;
    lemma_lowest(all);
    if any_handler_admits(handlers, level_no) {
        let i = choose|i: int| 0 <= i < handlers.len() && (#[trigger] handlers[i]).handler.admits(level_no);
        assert(all[i] == hl[i]);
    }
    if any_callback_admits(callbacks, level_no) {
        let j = choose|j: int| 0 <= j < callbacks.len() && level_no >= (#[trigger] callbacks[j]).level.no();
        assert(all[hl.len() + j] == cl[j]);
    }
    if level_no >= lowest(all) && all.len() > 0 {
        let k = choose|k: int| 0 <= k < all.len() && all[k] == lowest(all);
        if k < hl.len() {
            assert(handlers[k].handler.admits(level_no));
        } else {
            assert(level_no >= callbacks[k - hl.len()].level.no());
        }
    }
    if level_no < lowest(all) {
        assert forall|i: int| 0 <= i < handlers.len() implies !(#[trigger] handlers[i]).handler.admits(
            level_no,
        ) by {
            assert(all[i] == hl[i]);
        }
    }
}

proof fn lemma_place_of_prefix<F>(handlers: Seq<HandlerEntry<F>>, id: u64, p: int)
    requires
        0 <= p < handlers.len(),
        handlers[p].id == id,
        place_of(handlers.take(p), id).is_none(),
    ensures
        place_of(handlers, id) == Some(p),
    decreases handlers.len() - p,
{
    if p == handlers.len() - 1 {
        assert(handlers.drop_last() =~= handlers.take(p));
    } else {
        assert(handlers.drop_last().take(p) =~= handlers.take(p));
        lemma_place_of_prefix(handlers.drop_last(), id, p);
    }
}

proof fn lemma_callback_place_prefix<C>(callbacks: Seq<CallbackEntry<C>>, id: u64, p: int)
    requires
        0 <= p < callbacks.len(),
        callbacks[p].id == id,
        callback_place(callbacks.take(p), id).is_none(),
    ensures
        callback_place(callbacks, id) == Some(p),
    decreases callbacks.len() - p,
{
    if p == callbacks.len() - 1 {
        assert(callbacks.drop_last() =~= callbacks.take(p));
    } else {
        assert(callbacks.drop_last().take(p) =~= callbacks.take(p));
        lemma_callback_place_prefix(callbacks.drop_last(), id, p);
    }
}

/// The ids stay in order when a handler goes.
proof fn lemma_ids_after_removal<F, C>(
    handlers: Seq<HandlerEntry<F>>,
    callbacks: Seq<CallbackEntry<C>>,
    next_id: u64,
    p: int,
)
    requires
        ids_in_order(handlers, callbacks, next_id),
        0 <= p < handlers.len(),
    ensures
        ids_in_order(handlers.remove(p), callbacks, next_id),
{
    let after = handlers.remove(p);
    assert forall|i: int| 0 <= i < after.len() implies #[trigger] after[i] == handlers[if i < p {
        i
    } else {
        i + 1
    }] by {}
    assert forall|i: int, j: int| 0 <= i < j < after.len() implies (#[trigger] after[i]).id != (
    #[trigger] after[j]).id by {
        let a = if i < p {
            i
        } else {
            i + 1
        };
        let b = if j < p {
            j
        } else {
            j + 1
        };
        assert(after[i] == handlers[a]);
        assert(after[j] == handlers[b]);
    }
    assert forall|i: int, j: int| 0 <= i < after.len() && 0 <= j < callbacks.len() implies (
    #[trigger] after[i]).id != (#[trigger] callbacks[j]).id by {
        let a = if i < p {
            i
        } else {
            i + 1
        };
        assert(after[i] == handlers[a]);
    }
    assert forall|i: int| 0 <= i < after.len() implies (#[trigger] after[i]).id < next_id by {
        let a = if i < p {
            i
        } else {
            i + 1
        };
        assert(after[i] == handlers[a]);
    }
}

/// The ids stay in order when a callback goes.
proof fn lemma_ids_after_callback_removal<F, C>(
    handlers: Seq<HandlerEntry<F>>,
    callbacks: Seq<CallbackEntry<C>>,
    next_id: u64,
    p: int,
)
    requires
        ids_in_order(handlers, callbacks, next_id),
        0 <= p < callbacks.len(),
    ensures
        ids_in_order(handlers, callbacks.remove(p), next_id),
{
    let after = callbacks.remove(p);
    assert forall|i: int, j: int| 0 <= i < j < after.len() implies (#[trigger] after[i]).id != (
    #[trigger] after[j]).id by {
        let a = if i < p {
            i
        } else {
            i + 1
        };
        let b = if j < p {
            j
        } else {
            j + 1
        };
        assert(after[i] == callbacks[a]);
        assert(after[j] == callbacks[b]);
    }
    assert forall|i: int, j: int| 0 <= i < handlers.len() && 0 <= j < after.len() implies (
    #[trigger] handlers[i]).id != (#[trigger] after[j]).id by {
        let b = if j < p {
            j
        } else {
            j + 1
        };
        assert(after[j] == callbacks[b]);
    }
    assert forall|i: int| 0 <= i < after.len() implies (#[trigger] after[i]).id < next_id by {
        let a = if i < p {
            i
        } else {
            i + 1
        };
        assert(after[i] == callbacks[a]);
    }
}

/// The ids stay in order when only some of the handlers stay.
proof fn lemma_ids_of_kept_handlers<F, C>(
    handlers: Seq<HandlerEntry<F>>,
    callbacks: Seq<CallbackEntry<C>>,
    next_id: u64,
    stays: spec_fn(HandlerEntry<F>) -> bool,
)
    requires
        ids_in_order(handlers, callbacks, next_id),
    ensures
        ids_in_order(keep_where(handlers, stays), callbacks, next_id),
{
    let kept = keep_where(handlers, stays);
    let places = lemma_keep_where(handlers, stays);
    assert forall|i: int| 0 <= i < kept.len() implies (#[trigger] kept[i]).id < next_id by {
        assert(kept[i] == handlers[places[i]]);
    }
    assert forall|i: int, j: int| 0 <= i < j < kept.len() implies (#[trigger] kept[i]).id != (
    #[trigger] kept[j]).id by {
        assert(kept[i] == handlers[places[i]]);
        assert(kept[j] == handlers[places[j]]);
        assert(places[i] < places[j]);
    }
    assert forall|i: int, j: int| 0 <= i < kept.len() && 0 <= j < callbacks.len() implies (
    #[trigger] kept[i]).id != (#[trigger] callbacks[j]).id by {
        assert(kept[i] == handlers[places[i]]);
    }
}

/// The ids stay in order when only some of the callbacks stay.
proof fn lemma_ids_of_kept_callbacks<F, C>(
    handlers: Seq<HandlerEntry<F>>,
    callbacks: Seq<CallbackEntry<C>>,
    next_id: u64,
    stays: spec_fn(CallbackEntry<C>) -> bool,
)
    requires
        ids_in_order(handlers, callbacks, next_id),
    ensures
        ids_in_order(handlers, keep_where(callbacks, stays), next_id),
{
    let kept = keep_where(callbacks, stays);
    let places = lemma_keep_where(callbacks, stays);
    assert forall|i: int| 0 <= i < kept.len() implies (#[trigger] kept[i]).id < next_id by {
        assert(kept[i] == callbacks[places[i]]);
    }
    assert forall|i: int, j: int| 0 <= i < j < kept.len() implies (#[trigger] kept[i]).id != (
    #[trigger] kept[j]).id by {
        assert(kept[i] == callbacks[places[i]]);
        assert(kept[j] == callbacks[places[j]]);
        assert(places[i] < places[j]);
    }
    assert forall|i: int, j: int| 0 <= i < handlers.len() && 0 <= j < kept.len() implies (
    #[trigger] handlers[i]).id != (#[trigger] kept[j]).id by {
        assert(kept[j] == callbacks[places[j]]);
    }
}

} // verus!
