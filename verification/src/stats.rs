use std::collections::VecDeque;
use vstd::prelude::*;

verus! {

/// How a request was routed.
#[derive(Debug, Clone, Copy, PartialEq, Eq, Structural)]
pub enum DecisionMode {
    /// `tool_choice` was fixed to the tool that System One chose.
    Forced,
    /// `tool_choice` was set to `none` (plain-text reply).
    NoTool,
    /// The request went upstream untouched.
    Passthrough,
}

/// One routed request, as the dashboard lists it. The instant is kept as
/// seconds and nanoseconds since the Unix epoch (UTC), the confidence as
/// the bits of its `f64`.
#[derive(Debug, Clone)]
pub struct GatewayEvent {
    pub id: String,
    pub at_unix_secs: i64,
    pub at_nanos: u32,
    pub mode: DecisionMode,
    pub reason: Option<String>,
    pub tool: Option<String>,
    pub confidence_bits: Option<u64>,
    pub laya_latency_ms: Option<u64>,
    pub upstream_latency_ms: Option<u64>,
    pub prompt_tokens: Option<u64>,
    pub completion_tokens: Option<u64>,
    pub model: Option<String>,
    pub tools_count: usize,
}

/// Counters of the gateway; each one wraps around at `u64::MAX` as an
/// atomic `fetch_add` does.
#[derive(Debug, Clone, Copy, PartialEq, Eq, Structural)]
pub struct Counters {
    pub requests: u64,
    pub routed: u64,
    pub forced: u64,
    pub no_tool: u64,
    pub passthrough: u64,
    pub laya_errors: u64,
    pub laya_latency_sum_ms: u64,
    pub laya_calls: u64,
}

/// 2^64, the modulus of the counters.
pub open spec fn counter_modulus() -> int {
    0x1_0000_0000_0000_0000
}

/// `x + y` wrapped to a `u64`.
pub open spec fn wrap_add(x: u64, y: u64) -> u64 {
    ((x + y) % counter_modulus()) as u64
}

/// Every request is routed or passed through, and every routed request is
/// forced or answered in text (counted modulo 2^64).
pub open spec fn counters_balanced(c: Counters) -> bool {
    &&& (c.requests - c.routed - c.passthrough) % counter_modulus() == 0
    &&& (c.routed - c.forced - c.no_tool) % counter_modulus() == 0
}

/// The counters after one more request routed in `mode`, with the System
/// One latency if System One was asked.
pub open spec fn counted(c: Counters, mode: DecisionMode, laya_latency_ms: Option<u64>) -> Counters {
    let c1 = Counters { requests: wrap_add(c.requests, 1), ..c };
    let c2 = match mode {
        DecisionMode::Forced => Counters {
            routed: wrap_add(c1.routed, 1),
            forced: wrap_add(c1.forced, 1),
            ..c1
        },
        DecisionMode::NoTool => Counters {
            routed: wrap_add(c1.routed, 1),
            no_tool: wrap_add(c1.no_tool, 1),
            ..c1
        },
        DecisionMode::Passthrough => Counters { passthrough: wrap_add(c1.passthrough, 1), ..c1 },
    };
    match laya_latency_ms {
        Some(ms) => Counters {
            laya_calls: wrap_add(c2.laya_calls, 1),
            laya_latency_sum_ms: wrap_add(c2.laya_latency_sum_ms, ms),
            ..c2
        },
        None => c2,
    }
}

/// Counting one request adds one to `requests` and to the counter of its
/// mode (forced and plain-text answers also to `routed`); a System One
/// latency, whatever the mode, adds one to `laya_calls` and the latency to
/// `laya_latency_sum_ms`; nothing else changes.
pub proof fn lemma_counted_law(c: Counters, mode: DecisionMode, laya_latency_ms: Option<u64>)
    ensures
        ({
            let d = counted(c, mode, laya_latency_ms);
            &&& d.requests == wrap_add(c.requests, 1)
            &&& d.laya_errors == c.laya_errors
            &&& d.routed == if mode == DecisionMode::Passthrough {
                c.routed
            } else {
                wrap_add(c.routed, 1)
            }
            &&& d.forced == if mode == DecisionMode::Forced {
                wrap_add(c.forced, 1)
            } else {
                c.forced
            }
            &&& d.no_tool == if mode == DecisionMode::NoTool {
                wrap_add(c.no_tool, 1)
            } else {
                c.no_tool
            }
            &&& d.passthrough == if mode == DecisionMode::Passthrough {
                wrap_add(c.passthrough, 1)
            } else {
                c.passthrough
            }
            &&& d.laya_calls == match laya_latency_ms {
                Some(_) => wrap_add(c.laya_calls, 1),
                None => c.laya_calls,
            }
            &&& d.laya_latency_sum_ms == match laya_latency_ms {
                Some(ms) => wrap_add(c.laya_latency_sum_ms, ms),
                None => c.laya_latency_sum_ms,
            }
        }),
{
}

/// The counters of fresh statistics.
pub open spec fn zero_counters() -> Counters {
    Counters {
        requests: 0,
        routed: 0,
        forced: 0,
        no_tool: 0,
        passthrough: 0,
        laya_errors: 0,
        laya_latency_sum_ms: 0,
        laya_calls: 0,
    }
}

/// One call that changes statistics: `record` of an event routed in a mode
/// with an optional System One latency, `bump_laya_error`, or `set_routing`.
pub enum StatsOp {
    Record(DecisionMode, Option<u64>),
    LayaError,
    SetRouting(bool),
}

/// The counters after one call.
pub open spec fn op_counters(c: Counters, op: StatsOp) -> Counters {
    match op {
        StatsOp::Record(mode, latency) => counted(c, mode, latency),
        StatsOp::LayaError => Counters { laya_errors: wrap_add(c.laya_errors, 1), ..c },
        StatsOp::SetRouting(_) => c,
    }
}

/// The routing switch after one call.
pub open spec fn op_routing(on: bool, op: StatsOp) -> bool {
    match op {
        StatsOp::SetRouting(v) => v,
        _ => on,
    }
}

/// The counters after a sequence of calls.
pub open spec fn counters_after(c: Counters, ops: Seq<StatsOp>) -> Counters
    decreases ops.len(),
{
    if ops.len() == 0 {
        c
    } else {
        op_counters(counters_after(c, ops.drop_last()), ops.last())
    }
}

/// The routing switch after a sequence of calls.
pub open spec fn routing_after(on: bool, ops: Seq<StatsOp>) -> bool
    decreases ops.len(),
{
    if ops.len() == 0 {
        on
    } else {
        op_routing(routing_after(on, ops.drop_last()), ops.last())
    }
}

/// How many of `ops` record a request.
pub open spec fn records_in(ops: Seq<StatsOp>) -> nat
    decreases ops.len(),
{
    if ops.len() == 0 {
        0
    } else {
        records_in(ops.drop_last()) + if ops.last() is Record {
            1nat
        } else {
            0nat
        }
    }
}

/// From fresh statistics, after any sequence of calls, `requests` is the
/// number of recorded requests (modulo 2^64) and the counters balance.
pub proof fn lemma_counters_after_calls(ops: Seq<StatsOp>)
    ensures
        counters_after(zero_counters(), ops).requests == (records_in(ops) as int) % counter_modulus(),
        counters_balanced(counters_after(zero_counters(), ops)),
    decreases ops.len(),
{
    if ops.len() > 0 {
        let p = ops.drop_last();
        lemma_counters_after_calls(p);
        let c = counters_after(zero_counters(), p);
        let n = records_in(p) as int;
        let m = counter_modulus();
        match ops.last() {
            StatsOp::Record(mode, latency) => {
                lemma_counted_balanced(c, mode, latency);
                vstd::arithmetic::div_mod::lemma_add_mod_noop(n, 1, m);
                assert(1int % m == 1);
                assert(n % m < m) by {
                    vstd::arithmetic::div_mod::lemma_mod_bound(n, m);
                }
                assert(counted(c, mode, latency).requests == ((n % m) + 1) % m);
            },
            _ => {},
        }
    }
}

/// Only `set_routing` changes the routing switch: without such a call the
/// switch keeps its value, and after the last one it holds the value that
/// call set.
pub proof fn lemma_routing_after_calls(on: bool, pre: Seq<StatsOp>, v: bool, post: Seq<StatsOp>)
    requires
        forall|i: int| 0 <= i < post.len() ==> !(#[trigger] post[i] is SetRouting),
    ensures
        routing_after(on, post) == on,
        routing_after(on, pre + seq![StatsOp::SetRouting(v)] + post) == v,
    decreases post.len(),
{
    let all = pre + seq![StatsOp::SetRouting(v)] + post;
    if post.len() == 0 {
        assert(all.drop_last() == pre);
    } else {
        let p = post.drop_last();
        assert forall|i: int| 0 <= i < p.len() implies !(#[trigger] p[i] is SetRouting) by {
            assert(p[i] == post[i]);
        }
        lemma_routing_after_calls(on, pre, v, p);
        assert(all.drop_last() == pre + seq![StatsOp::SetRouting(v)] + p);
        assert(!(post[post.len() - 1] is SetRouting));
        assert(all.last() == post.last());
    }
}

/// How many events a log created with `max_events` keeps (at least one).
pub open spec fn event_capacity(max_events: usize) -> nat {
    if max_events == 0 {
        1
    } else {
        max_events as nat
    }
}

/// The event log after appending `e`: the oldest event is dropped first
/// when the log already holds `max_events` or more.
pub open spec fn appended(events: Seq<GatewayEvent>, max_events: usize, e: GatewayEvent) -> Seq<
    GatewayEvent,
> {
    if events.len() >= max_events && events.len() > 0 {
        events.drop_first().push(e)
    } else {
        events.push(e)
    }
}

/// The log after appending each of `es` in turn.
pub open spec fn appended_all(start: Seq<GatewayEvent>, max_events: usize, es: Seq<GatewayEvent>) -> Seq<
    GatewayEvent,
>
    decreases es.len(),
{
    if es.len() == 0 {
        start
    } else {
        appended(appended_all(start, max_events, es.drop_last()), max_events, es.last())
    }
}

/// A log that starts empty holds exactly the latest `event_capacity`
/// events appended to it (all of them while there are fewer), oldest first.
pub proof fn lemma_log_keeps_latest(max_events: usize, es: Seq<GatewayEvent>)
    ensures
        ({
            let k = if es.len() <= event_capacity(max_events) {
                es.len() as int
            } else {
                event_capacity(max_events) as int
            };
            appended_all(Seq::empty(), max_events, es) == es.subrange(es.len() - k, es.len() as int)
        }),
    decreases es.len(),
{
    let cap = event_capacity(max_events) as int;
    if es.len() == 0 {
        assert(es.subrange(0, 0) == Seq::<GatewayEvent>::empty());
    } else {
        let p = es.drop_last();
        lemma_log_keeps_latest(max_events, p);
        let kp = if p.len() <= cap {
            p.len() as int
        } else {
            cap
        };
        let prev = appended_all(Seq::empty(), max_events, p);
        assert(prev == p.subrange(p.len() - kp, p.len() as int));
        assert(prev.len() == kp);
        let n = es.len() as int;
        if prev.len() >= max_events && prev.len() > 0 {
            assert(kp == cap);
            assert(prev.drop_first().push(es.last()) == es.subrange(n - cap, n));
        } else {
            assert(kp < cap);
            assert(prev.push(es.last()) == es.subrange(n - kp - 1, n));
        }
    }
}

/// A fresh random identifier for an event (`uuid::Uuid::new_v4`, rendered
/// with `to_string`). The contract claims only what the uuid crate's
/// hyphenated format fixes: 36 characters.
#[verifier::external_body]
fn new_event_id() -> (r: String)
    ensures
        r@.len() == 36,
{
    uuid::Uuid::new_v4().to_string()
}

/// Gateway statistics: the routing switch, the counters and a bounded log
/// of recent events, oldest first.
pub struct Stats {
    routing_enabled: bool,
    counters: Counters,
    events: VecDeque<GatewayEvent>,
    max_events: usize,
}

/// What the dashboard shows of the statistics; events newest first.
#[derive(Debug, Clone)]
pub struct StatsSnapshot {
    pub routing_enabled: bool,
    pub counters: Counters,
    pub events: Vec<GatewayEvent>,
}

impl GatewayEvent {
    /// A copy of the event.
    pub fn duplicate(&self) -> (r: GatewayEvent)
        ensures
            r == *self,
    {
        GatewayEvent {
            id: self.id.clone(),
            at_unix_secs: self.at_unix_secs,
            at_nanos: self.at_nanos,
            mode: self.mode,
            reason: match &self.reason {
                Some(s) => Some(s.clone()),
                None => None,
            },
            tool: match &self.tool {
                Some(s) => Some(s.clone()),
                None => None,
            },
            confidence_bits: self.confidence_bits,
            laya_latency_ms: self.laya_latency_ms,
            upstream_latency_ms: self.upstream_latency_ms,
            prompt_tokens: self.prompt_tokens,
            completion_tokens: self.completion_tokens,
            model: match &self.model {
                Some(s) => Some(s.clone()),
                None => None,
            },
            tools_count: self.tools_count,
        }
    }
}

impl Stats {
    pub closed spec fn spec_routing_enabled(&self) -> bool {
        self.routing_enabled
    }

    pub closed spec fn spec_counters(&self) -> Counters {
        self.counters
    }

    /// The kept events, oldest first.
    pub closed spec fn spec_events(&self) -> Seq<GatewayEvent> {
        self.events@
    }

    pub closed spec fn spec_max_events(&self) -> usize {
        self.max_events
    }

    /// What holds of the statistics in every state: the log is within its
    /// capacity, every kept event has an identifier, and the counters
    /// balance.
    pub open spec fn wf(&self) -> bool {
        &&& self.spec_events().len() <= event_capacity(self.spec_max_events())
        &&& forall|i: int|
            0 <= i < self.spec_events().len() ==> (#[trigger] self.spec_events()[i]).id@.len() > 0
        &&& counters_balanced(self.spec_counters())
    }

    /// Empty statistics with the routing switch set as given.
    pub fn new(max_events: usize, routing_enabled: bool) -> (s: Stats)
        ensures
            s.wf(),
            s.spec_routing_enabled() == routing_enabled,
            s.spec_counters() == zero_counters(),
            s.spec_events().len() == 0,
            s.spec_max_events() == max_events,
    {
        let capacity = if max_events < 512 {
            max_events
        } else {
            512
        };
        Stats {
            routing_enabled,
            counters: Counters {
                requests: 0,
                routed: 0,
                forced: 0,
                no_tool: 0,
                passthrough: 0,
                laya_errors: 0,
                laya_latency_sum_ms: 0,
                laya_calls: 0,
            },
            events: VecDeque::with_capacity(capacity),
            max_events,
        }
    }

    /// Whether requests are routed.
    pub fn routing_enabled(&self) -> (r: bool)
        ensures
            r == self.spec_routing_enabled(),
    {
        self.routing_enabled
    }

    /// Switches routing on or off.
    pub fn set_routing(&mut self, on: bool)
        requires
            old(self).wf(),
        ensures
            final(self).wf(),
            final(self).spec_routing_enabled() == on,
            final(self).spec_counters() == old(self).spec_counters(),
            final(self).spec_counters() == op_counters(old(self).spec_counters(), StatsOp::SetRouting(on)),
            final(self).spec_routing_enabled() == op_routing(
                old(self).spec_routing_enabled(),
                StatsOp::SetRouting(on),
            ),
            final(self).spec_events() == old(self).spec_events(),
            final(self).spec_max_events() == old(self).spec_max_events(),
    {
        self.routing_enabled = on;
    }

    /// Counts a failed call to System One.
    pub fn bump_laya_error(&mut self)
        requires
            old(self).wf(),
        ensures
            final(self).wf(),
            final(self).spec_counters() == op_counters(old(self).spec_counters(), StatsOp::LayaError),
            final(self).spec_counters() == (Counters {
                laya_errors: wrap_add(old(self).spec_counters().laya_errors, 1),
                ..old(self).spec_counters()
            }),
            final(self).spec_routing_enabled() == op_routing(
                old(self).spec_routing_enabled(),
                StatsOp::LayaError,
            ),
            final(self).spec_routing_enabled() == old(self).spec_routing_enabled(),
            final(self).spec_events() == old(self).spec_events(),
            final(self).spec_max_events() == old(self).spec_max_events(),
    {
        self.counters.laya_errors = bump(self.counters.laya_errors);
    }

    /// Records one request: counts it by mode and System One latency, gives
    /// it an identifier if it has none, and appends it to the log.
    pub fn record(&mut self, event: GatewayEvent)
        requires
            old(self).wf(),
        ensures
            final(self).wf(),
            final(self).spec_counters() == counted(
                old(self).spec_counters(),
                event.mode,
                event.laya_latency_ms,
            ),
            final(self).spec_counters() == op_counters(
                old(self).spec_counters(),
                StatsOp::Record(event.mode, event.laya_latency_ms),
            ),
            final(self).spec_counters().requests == wrap_add(old(self).spec_counters().requests, 1),
            event.laya_latency_ms matches Some(ms) ==> final(self).spec_counters().laya_calls
                == wrap_add(old(self).spec_counters().laya_calls, 1)
                && final(self).spec_counters().laya_latency_sum_ms == wrap_add(
                old(self).spec_counters().laya_latency_sum_ms,
                ms,
            ),
            event.laya_latency_ms is None ==> final(self).spec_counters().laya_calls == old(
                self,
            ).spec_counters().laya_calls && final(self).spec_counters().laya_latency_sum_ms == old(
                self,
            ).spec_counters().laya_latency_sum_ms,
            final(self).spec_routing_enabled() == op_routing(
                old(self).spec_routing_enabled(),
                StatsOp::Record(event.mode, event.laya_latency_ms),
            ),
            exists|stored: GatewayEvent|
                {
                    &&& final(self).spec_events() == appended(
                        old(self).spec_events(),
                        old(self).spec_max_events(),
                        stored,
                    )
                    &&& stored.id@.len() > 0
                    &&& (event.id@.len() > 0 ==> stored == event)
                    &&& (event.id@.len() == 0 ==> stored.id@.len() == 36)
                    &&& (event.id@.len() == 0 ==> stored == GatewayEvent { id: stored.id, ..event })
                },
            final(self).spec_routing_enabled() == old(self).spec_routing_enabled(),
            final(self).spec_max_events() == old(self).spec_max_events(),
    {
        proof {
            lemma_counted_balanced(self.counters, event.mode, event.laya_latency_ms);
            lemma_counted_law(self.counters, event.mode, event.laya_latency_ms);
        }
        let c = count(self.counters, event.mode, event.laya_latency_ms);
        self.counters = c;
        let mut event = event;
        let ghost given = event;
        if event.id.as_str().is_empty() {
            event.id = new_event_id();
        }
        let ghost before = self.events@;
        if self.events.len() >= self.max_events {
            self.events.pop_front();
        }
        self.events.push_back(event);
        proof {
            if before.len() >= self.max_events && before.len() > 0 {
                assert(before.subrange(1, before.len() as int) == before.drop_first());
            }
            assert(self.events@ == appended(before, self.max_events, event));
            assert forall|i: int| 0 <= i < self.events@.len() implies (#[trigger] self.events@[i]).id@.len() > 0 by {
                if i < self.events@.len() - 1 {
                    if before.len() >= self.max_events && before.len() > 0 {
                        assert(self.events@[i] == before[i + 1]);
                    } else {
                        assert(self.events@[i] == before[i]);
                    }
                }
            }
        }
    }

    /// The counters, the switch and the kept events, newest first.
    pub fn snapshot(&self) -> (r: StatsSnapshot)
        requires
            self.wf(),
        ensures
            r.routing_enabled == self.spec_routing_enabled(),
            r.counters == self.spec_counters(),
            r.events@ == self.spec_events().reverse(),
    {
        let n = self.events.len();
        let mut events: Vec<GatewayEvent> = Vec::new();
        for k in 0..n
            invariant
                n == self.events@.len(),
                events@.len() == k,
                forall|j: int| 0 <= j < k ==> #[trigger] events@[j] == self.events@[n - 1 - j],
        {
            events.push(self.events[n - 1 - k].duplicate());
        }
        assert(events@ == self.events@.reverse());
        StatsSnapshot { routing_enabled: self.routing_enabled, counters: self.counters, events }
    }
}

/// `wrapping_add` on counters is addition modulo 2^64.
pub proof fn lemma_wrapping_add(x: u64, y: u64)
    ensures
        vstd::wrapping::u64_specs::wrapping_add(x, y) == wrap_add(x, y),
{
    if x + y > u64::MAX {
        assert((x + y) % counter_modulus() == x + y - counter_modulus());
    } else {
        assert((x + y) % counter_modulus() == x + y);
    }
}

/// Adds one wrapped.
fn bump(x: u64) -> (r: u64)
    ensures
        r == wrap_add(x, 1),
{
    proof {
        lemma_wrapping_add(x, 1);
    }
    x.wrapping_add(1)
}

/// The counters after one more request.
fn count(c: Counters, mode: DecisionMode, laya_latency_ms: Option<u64>) -> (r: Counters)
    ensures
        r == counted(c, mode, laya_latency_ms),
{
    let mut d = c;
    d.requests = bump(d.requests);
    match mode {
        DecisionMode::Forced => {
            d.routed = bump(d.routed);
            d.forced = bump(d.forced);
        },
        DecisionMode::NoTool => {
            d.routed = bump(d.routed);
            d.no_tool = bump(d.no_tool);
        },
        DecisionMode::Passthrough => {
            d.passthrough = bump(d.passthrough);
        },
    }
    match laya_latency_ms {
        Some(ms) => {
            d.laya_calls = bump(d.laya_calls);
            proof {
                lemma_wrapping_add(d.laya_latency_sum_ms, ms);
            }
            d.laya_latency_sum_ms = d.laya_latency_sum_ms.wrapping_add(ms);
        },
        None => {},
    }
    d
}

/// Counting a request keeps the counters balanced.
pub proof fn lemma_counted_balanced(c: Counters, mode: DecisionMode, laya_latency_ms: Option<u64>)
    requires
        counters_balanced(c),
    ensures
        counters_balanced(counted(c, mode, laya_latency_ms)),
{
    let m = counter_modulus();
    let d = counted(c, mode, laya_latency_ms);
    assert(d.requests == if c.requests == u64::MAX { 0 } else { c.requests + 1 });
    match mode {
        DecisionMode::Forced => {
            assert((d.requests - d.routed - d.passthrough) % m == 0) by (nonlinear_arith)
                requires
                    (c.requests - c.routed - c.passthrough) % m == 0,
                    d.requests == (c.requests + 1) % m,
                    d.routed == (c.routed + 1) % m,
                    d.passthrough == c.passthrough,
                    m == 0x1_0000_0000_0000_0000,
                    0 <= c.requests < m,
                    0 <= c.routed < m,
            ;
            assert((d.routed - d.forced - d.no_tool) % m == 0) by (nonlinear_arith)
                requires
                    (c.routed - c.forced - c.no_tool) % m == 0,
                    d.routed == (c.routed + 1) % m,
                    d.forced == (c.forced + 1) % m,
                    d.no_tool == c.no_tool,
                    m == 0x1_0000_0000_0000_0000,
                    0 <= c.forced < m,
                    0 <= c.routed < m,
            ;
        },
        DecisionMode::NoTool => {
            assert((d.requests - d.routed - d.passthrough) % m == 0) by (nonlinear_arith)
                requires
                    (c.requests - c.routed - c.passthrough) % m == 0,
                    d.requests == (c.requests + 1) % m,
                    d.routed == (c.routed + 1) % m,
                    d.passthrough == c.passthrough,
                    m == 0x1_0000_0000_0000_0000,
                    0 <= c.requests < m,
                    0 <= c.routed < m,
            ;
            assert((d.routed - d.forced - d.no_tool) % m == 0) by (nonlinear_arith)
                requires
                    (c.routed - c.forced - c.no_tool) % m == 0,
                    d.routed == (c.routed + 1) % m,
                    d.no_tool == (c.no_tool + 1) % m,
                    d.forced == c.forced,
                    m == 0x1_0000_0000_0000_0000,
                    0 <= c.no_tool < m,
                    0 <= c.routed < m,
            ;
        },
        DecisionMode::Passthrough => {
            assert((d.requests - d.routed - d.passthrough) % m == 0) by (nonlinear_arith)
                requires
                    (c.requests - c.routed - c.passthrough) % m == 0,
                    d.requests == (c.requests + 1) % m,
                    d.passthrough == (c.passthrough + 1) % m,
                    d.routed == c.routed,
                    m == 0x1_0000_0000_0000_0000,
                    0 <= c.requests < m,
                    0 <= c.passthrough < m,
            ;
        },
    }
}

} // verus!
