//! The built-in monitors: publish-rate limiting, repeated-failure detection
//! and header policy guarding.
use vstd::prelude::*;

use std::collections::VecDeque;

use crate::json::{
    flag_at, flag_at_path, keys_view, lookup_path, parse_pointer, pointer_path, JsonValue,
};
use crate::text::{decimal_digits, decimal_text, duration_text, millis_text};
use crate::{ActionView, Envelope, ErrorView, Reflex, ReflexAction, ReflexError};

verus! {

/// Whether an observation made at `ts` lies more than `window` before `now`.
pub open spec fn expired(ts: u64, now: u64, window: u64) -> bool {
    now as int - ts as int > window as int
}

/// `stamps` without its leading run of expired observations.
pub open spec fn prune(stamps: Seq<u64>, now: u64, window: u64) -> Seq<u64>
    decreases stamps.len(),
{
    if stamps.len() > 0 && expired(stamps[0], now, window) {
        prune(stamps.drop_first(), now, window)
    } else {
        stamps
    }
}

/// The text of a rate alert.
pub open spec fn rate_alert_text(count: nat, window_ms: u64, max_events: usize) -> Seq<char> {
    "RateLimitReflex: "@ + decimal_digits(count) + " events in "@ + millis_text(window_ms)
        + " (limit "@ + decimal_digits(max_events as nat) + ")"@
}

/// Detects abnormal publish rates by counting events within a sliding time window.
pub struct RateLimitReflex {
    window_ms: u64,
    max_events: usize,
    deque: VecDeque<u64>,
}

/// The abstract state of a [`RateLimitReflex`]: its settings and the
/// observation times still in its window, oldest first.
pub ghost struct RateLimitView {
    pub window_ms: u64,
    pub max_events: usize,
    pub stamps: Seq<u64>,
}

impl View for RateLimitReflex {
    type V = RateLimitView;

    closed spec fn view(&self) -> RateLimitView {
        RateLimitView { window_ms: self.window_ms, max_events: self.max_events, stamps: self.deque@ }
    }
}

/// One observation at `now`: drop what has left the window, record `now`, and
/// alert when more than `max_events` remain.
pub open spec fn rate_step(v: RateLimitView, now: u64) -> (RateLimitView, ActionView) {
    let stamps = prune(v.stamps, now, v.window_ms).push(now);
    let next = RateLimitView { stamps, ..v };
    if stamps.len() > v.max_events {
        (next, ActionView::Alert(rate_alert_text(stamps.len(), v.window_ms, v.max_events)))
    } else {
        (next, ActionView::Continue)
    }
}

impl RateLimitReflex {
    /// A limiter that alerts when more than `max_events` events fall within
    /// `window_ms` milliseconds.
    pub fn new(window_ms: u64, max_events: usize) -> (r: RateLimitReflex)
        ensures
            r@ == (RateLimitView { window_ms, max_events, stamps: Seq::empty() }),
    {
        RateLimitReflex {
            window_ms,
            max_events,
            deque: VecDeque::with_capacity(max_events.saturating_add(8)),
        }
    }

    fn prune_old(&mut self, now: u64)
        ensures
            final(self)@ == (RateLimitView {
                stamps: prune(old(self)@.stamps, now, old(self)@.window_ms),
                ..old(self)@
            }),
    {
        let ghost target = prune(self.deque@, now, self.window_ms);
        loop
            invariant
                self.window_ms == old(self).window_ms,
                self.max_events == old(self).max_events,
                prune(self.deque@, now, self.window_ms) == target,
                target == prune(old(self).deque@, now, old(self).window_ms),
            ensures
                self.deque@ == target,
                self.window_ms == old(self).window_ms,
                self.max_events == old(self).max_events,
            decreases self.deque@.len(),
        {
            if self.deque.len() == 0 {
                break;
            }
            let ts = self.deque[0];
            if now >= ts && now - ts > self.window_ms {
                let ghost before = self.deque@;
                self.deque.pop_front();
                assert(self.deque@ =~= before.drop_first());
            } else {
                break;
            }
        }
    }

    fn alert_text(count: usize, window_ms: u64, max_events: usize) -> (r: String)
        ensures
            r@ == rate_alert_text(count as nat, window_ms, max_events),
    {
        let mut msg = String::from_str("RateLimitReflex: ");
        msg.append(decimal_text(count as u64).as_str());
        msg.append(" events in ");
        msg.append(duration_text(window_ms).as_str());
        msg.append(" (limit ");
        msg.append(decimal_text(max_events as u64).as_str());
        msg.append(")");
        msg
    }
}

impl Reflex for RateLimitReflex {
    open spec fn spec_name(&self) -> Seq<char> {
        "rate_limit"@
    }

    open spec fn event_step(state: RateLimitView, evt: Envelope, now_ms: u64) -> (RateLimitView, Result<ActionView, ErrorView>) {
        (rate_step(state, now_ms).0, Ok(rate_step(state, now_ms).1))
    }

    open spec fn tick_step(state: RateLimitView, now_ms: u64) -> (RateLimitView, Result<ActionView, ErrorView>) {
        (state, Ok(ActionView::Continue))
    }

    fn name(&self) -> (r: &'static str) {
        "rate_limit"
    }

    fn on_event(&mut self, evt: &Envelope, now_ms: u64) -> (r: Result<ReflexAction, ReflexError>) {
        self.prune_old(now_ms);
        self.deque.push_back(now_ms);
        if self.deque.len() > self.max_events {
            let msg = RateLimitReflex::alert_text(self.deque.len(), self.window_ms, self.max_events);
            return Ok(ReflexAction::Alert(msg));
        }
        Ok(ReflexAction::Continue)
    }

    fn on_tick(&mut self, now_ms: u64) -> (r: Result<ReflexAction, ReflexError>) {
        Ok(ReflexAction::Continue)
    }
}

/// How many entries of `s` are `true`.
pub open spec fn count_true(s: Seq<bool>) -> nat
    decreases s.len(),
{
    if s.len() == 0 {
        0
    } else {
        count_true(s.drop_last()) + if s.last() {
            1nat
        } else {
            0nat
        }
    }
}

/// The ring after recording `hit`: when it already holds `window` entries the
/// oldest one leaves first.
pub open spec fn push_ring(ring: Seq<bool>, hit: bool, window: usize) -> Seq<bool> {
    if ring.len() == window && ring.len() > 0 {
        ring.drop_first().push(hit)
    } else {
        ring.push(hit)
    }
}

/// Whether `evt` carries the error flag at `path`, in its headers or its body.
pub open spec fn error_flag(evt: Envelope, path: Seq<Seq<char>>) -> bool {
    flag_at(evt.headers, path) || flag_at(evt.body, path)
}

/// The text of a panic-loop halt.
pub open spec fn panic_halt_text(count: nat, window: usize, pointer: Seq<char>) -> Seq<char> {
    "PanicLoopReflex: "@ + decimal_digits(count) + " error flags in last "@ + decimal_digits(
        window as nat,
    ) + " events (pointer: "@ + pointer + ")"@
}

/// Detects repeated error flags (a crash or retry loop) among the most recent events.
pub struct PanicLoopReflex {
    field_pointer: &'static str,
    path: Vec<String>,
    window: usize,
    min_repeats: usize,
    ring: VecDeque<bool>,
}

/// The abstract state of a [`PanicLoopReflex`]: its settings (the pointer and
/// the keys it names) and the flags of the most recent events, oldest first.
pub ghost struct PanicLoopView {
    pub pointer: Seq<char>,
    pub path: Seq<Seq<char>>,
    pub window: usize,
    pub min_repeats: usize,
    pub ring: Seq<bool>,
}

impl View for PanicLoopReflex {
    type V = PanicLoopView;

    closed spec fn view(&self) -> PanicLoopView {
        PanicLoopView {
            pointer: self.field_pointer@,
            path: keys_view(self.path@),
            window: self.window,
            min_repeats: self.min_repeats,
            ring: self.ring@,
        }
    }
}

/// One observation with error flag `hit`: record it, and halt when at least
/// `min_repeats` of the recorded flags are set.
pub open spec fn panic_step(v: PanicLoopView, hit: bool) -> (PanicLoopView, ActionView) {
    let ring = push_ring(v.ring, hit, v.window);
    let next = PanicLoopView { ring, ..v };
    if count_true(ring) >= v.min_repeats {
        (next, ActionView::Halt(panic_halt_text(count_true(ring), v.window, v.pointer)))
    } else {
        (next, ActionView::Continue)
    }
}

impl PanicLoopReflex {
    /// A detector that halts once `min_repeats` of the last `window` events
    /// carry a `true` flag at `field_pointer` (a slash-delimited pointer).
    pub fn new(field_pointer: &'static str, window: usize, min_repeats: usize) -> (r: PanicLoopReflex)
        ensures
            r@ == (PanicLoopView {
                pointer: field_pointer@,
                path: pointer_path(field_pointer@),
                window,
                min_repeats,
                ring: Seq::empty(),
            }),
    {
        PanicLoopReflex {
            field_pointer,
            path: parse_pointer(field_pointer),
            window,
            min_repeats,
            ring: VecDeque::with_capacity(window),
        }
    }

    /// Records `is_error` and returns how many recorded flags are set.
    fn push(&mut self, is_error: bool) -> (r: usize)
        ensures
            final(self)@ == (PanicLoopView {
                ring: push_ring(old(self)@.ring, is_error, old(self)@.window),
                ..old(self)@
            }),
            r == count_true(final(self)@.ring),
    {
        if self.ring.len() == self.window {
            let ghost before = self.ring@;
            self.ring.pop_front();
            assert(before.len() > 0 ==> self.ring@ =~= before.drop_first());
        }
        self.ring.push_back(is_error);
        let mut count: usize = 0;
        let mut i: usize = 0;
        while i < self.ring.len()
            invariant
                i <= self.ring@.len(),
                count == count_true(self.ring@.take(i as int)),
                count <= i,
            decreases self.ring@.len() - i,
        {
            assert(self.ring@.take(i as int + 1).drop_last() =~= self.ring@.take(i as int));
            if self.ring[i] {
                count = count + 1;
            }
            i = i + 1;
        }
        assert(self.ring@.take(i as int) =~= self.ring@);
        count
    }

    /// Whether `evt` carries the error flag, in its headers or its body.
    pub fn extract_flag(&self, evt: &Envelope) -> (r: bool)
        ensures
            r == error_flag(*evt, self@.path),
    {
        let header_hit = flag_at_path(&evt.headers, &self.path);
        let body_hit = flag_at_path(&evt.body, &self.path);
        header_hit || body_hit
    }

    fn halt_text(count: usize, window: usize, pointer: &str) -> (r: String)
        ensures
            r@ == panic_halt_text(count as nat, window, pointer@),
    {
        let mut msg = String::from_str("PanicLoopReflex: ");
        msg.append(decimal_text(count as u64).as_str());
        msg.append(" error flags in last ");
        msg.append(decimal_text(window as u64).as_str());
        msg.append(" events (pointer: ");
        msg.append(pointer);
        msg.append(")");
        msg
    }
}

impl Reflex for PanicLoopReflex {
    open spec fn spec_name(&self) -> Seq<char> {
        "panic_loop"@
    }

    open spec fn event_step(state: PanicLoopView, evt: Envelope, now_ms: u64) -> (PanicLoopView, Result<ActionView, ErrorView>) {
        let (next, action) = panic_step(state, error_flag(evt, state.path));
        (next, Ok(action))
    }

    open spec fn tick_step(state: PanicLoopView, now_ms: u64) -> (PanicLoopView, Result<ActionView, ErrorView>) {
        (state, Ok(ActionView::Continue))
    }

    fn name(&self) -> (r: &'static str) {
        "panic_loop"
    }

    fn on_event(&mut self, evt: &Envelope, now_ms: u64) -> (r: Result<ReflexAction, ReflexError>) {
        let is_error = self.extract_flag(evt);
        let cnt = self.push(is_error);
        if cnt >= self.min_repeats {
            let msg = PanicLoopReflex::halt_text(cnt, self.window, self.field_pointer);
            return Ok(ReflexAction::Halt(msg));
        }
        Ok(ReflexAction::Continue)
    }

    fn on_tick(&mut self, now_ms: u64) -> (r: Result<ReflexAction, ReflexError>) {
        Ok(ReflexAction::Continue)
    }
}

/// The text of a policy halt naming `pointer`.
pub open spec fn policy_halt_text(pointer: Seq<char>) -> Seq<char> {
    "PolicyGuardReflex: required header "@ + pointer + " != true"@
}

/// The verdict for `headers`: a halt naming the first pointer whose flag is
/// not `true`, else `Continue`.
pub open spec fn guard_verdict(
    pointers: Seq<Seq<char>>,
    paths: Seq<Seq<Seq<char>>>,
    headers: JsonValue,
) -> ActionView
    decreases paths.len(),
{
    if paths.len() == 0 || pointers.len() == 0 {
        ActionView::Continue
    } else if !flag_at(headers, paths[0]) {
        ActionView::Halt(policy_halt_text(pointers[0]))
    } else {
        guard_verdict(pointers.drop_first(), paths.drop_first(), headers)
    }
}

/// Requires every listed header flag to be `true` on every event.
pub struct PolicyGuardReflex {
    required_true: Vec<&'static str>,
    paths: Vec<Vec<String>>,
}

/// The abstract state of a [`PolicyGuardReflex`]: the required pointers and
/// the keys each one names.
pub ghost struct PolicyGuardView {
    pub pointers: Seq<Seq<char>>,
    pub paths: Seq<Seq<Seq<char>>>,
}

impl View for PolicyGuardReflex {
    type V = PolicyGuardView;

    closed spec fn view(&self) -> PolicyGuardView {
        PolicyGuardView {
            pointers: self.required_true@.map_values(|p: &'static str| p@),
            paths: self.paths@.map_values(|k: Vec<String>| keys_view(k@)),
        }
    }
}

impl PolicyGuardReflex {
    /// A guard over the given header pointers, checked in order.
    pub fn new(required_true: Vec<&'static str>) -> (r: PolicyGuardReflex)
        ensures
            r@.pointers == required_true@.map_values(|p: &'static str| p@),
            r@.paths.len() == required_true@.len(),
            forall|i: int| 0 <= i < r@.paths.len() ==> r@.paths[i] == pointer_path(#[trigger] r@.pointers[i]),
    {
        let mut paths: Vec<Vec<String>> = Vec::new();
        let mut i: usize = 0;
        while i < required_true.len()
            invariant
                i <= required_true@.len(),
                paths@.len() == i,
                forall|j: int| 0 <= j < i ==> keys_view(#[trigger] paths@[j]@) == pointer_path(required_true@[j]@),
            decreases required_true@.len() - i,
        {
            paths.push(parse_pointer(required_true[i]));
            i = i + 1;
        }
        PolicyGuardReflex { required_true, paths }
    }

    /// Reads the boolean at the keys `path` in `json`; missing or non-boolean reads as `false`.
    fn header_bool(path: &Vec<String>, json: &JsonValue) -> (r: bool)
        ensures
            r == flag_at(*json, keys_view(path@)),
    {
        flag_at_path(json, path)
    }

    fn halt_text(pointer: &str) -> (r: String)
        ensures
            r@ == policy_halt_text(pointer@),
    {
        let mut msg = String::from_str("PolicyGuardReflex: required header ");
        msg.append(pointer);
        msg.append(" != true");
        msg
    }
}

impl Reflex for PolicyGuardReflex {
    open spec fn spec_name(&self) -> Seq<char> {
        "policy_guard"@
    }

    open spec fn event_step(state: PolicyGuardView, evt: Envelope, now_ms: u64) -> (PolicyGuardView, Result<ActionView, ErrorView>) {
        (state, Ok(guard_verdict(state.pointers, state.paths, evt.headers)))
    }

    open spec fn tick_step(state: PolicyGuardView, now_ms: u64) -> (PolicyGuardView, Result<ActionView, ErrorView>) {
        (state, Ok(ActionView::Continue))
    }

    fn name(&self) -> (r: &'static str) {
        "policy_guard"
    }

    fn on_event(&mut self, evt: &Envelope, now_ms: u64) -> (r: Result<ReflexAction, ReflexError>) {
        let ghost pointers = self@.pointers;
        let ghost paths = self@.paths;
        // Both lists hold one entry per pointer; the shorter length bounds the indexing.
        let n = if self.paths.len() < self.required_true.len() {
            self.paths.len()
        } else {
            self.required_true.len()
        };
        let mut i: usize = 0;
        assert(pointers.skip(0) =~= pointers);
        assert(paths.skip(0) =~= paths);
        while i < n
            invariant
                i <= n,
                n <= self.paths@.len(),
                n <= self.required_true@.len(),
                n == self.paths@.len() || n == self.required_true@.len(),
                pointers == self@.pointers,
                paths == self@.paths,
                guard_verdict(pointers, paths, evt.headers) == guard_verdict(
                    pointers.skip(i as int),
                    paths.skip(i as int),
                    evt.headers,
                ),
            decreases n - i,
        {
            assert(pointers.skip(i as int).drop_first() =~= pointers.skip(i as int + 1));
            assert(paths.skip(i as int).drop_first() =~= paths.skip(i as int + 1));
            if !PolicyGuardReflex::header_bool(&self.paths[i], &evt.headers) {
                let msg = PolicyGuardReflex::halt_text(self.required_true[i]);
                return Ok(ReflexAction::Halt(msg));
            }
            i = i + 1;
        }
        Ok(ReflexAction::Continue)
    }

    fn on_tick(&mut self, now_ms: u64) -> (r: Result<ReflexAction, ReflexError>) {
        Ok(ReflexAction::Continue)
    }
}

/// The state of a rate limiter after observing events at `times`, in order.
pub open spec fn rate_run(v: RateLimitView, times: Seq<u64>) -> RateLimitView
    decreases times.len(),
{
    if times.len() == 0 {
        v
    } else {
        rate_step(rate_run(v, times.drop_last()), times.last()).0
    }
}

/// The verdict on the event at index `k` of `times`.
pub open spec fn rate_verdict_at(v: RateLimitView, times: Seq<u64>, k: int) -> ActionView {
    rate_step(rate_run(v, times.take(k)), times[k]).1
}

proof fn lemma_rate_run_take(v: RateLimitView, times: Seq<u64>, k: int)
    requires
        0 <= k < times.len(),
    ensures
        rate_run(v, times.take(k + 1)) == rate_step(rate_run(v, times.take(k)), times[k]).0,
{
    assert(times.take(k + 1).drop_last() =~= times.take(k));
}

proof fn lemma_burst_keeps_all(window_ms: u64, max_events: usize, times: Seq<u64>, k: int)
    requires
        0 <= k <= times.len(),
        forall|i: int, j: int| 0 <= i <= j < times.len() ==> times[i] <= times[j],
        times.len() > 0 ==> times.last() - times[0] <= window_ms,
    ensures
        rate_run(RateLimitView { window_ms, max_events, stamps: Seq::empty() }, times.take(k)).stamps
            == times.take(k),
        rate_run(RateLimitView { window_ms, max_events, stamps: Seq::empty() }, times.take(k)).window_ms
            == window_ms,
        rate_run(RateLimitView { window_ms, max_events, stamps: Seq::empty() }, times.take(k)).max_events
            == max_events,
    decreases k,
{
    let v = RateLimitView { window_ms, max_events, stamps: Seq::empty() };
    if k == 0 {
        assert(times.take(0) =~= Seq::<u64>::empty());
    } else {
        lemma_burst_keeps_all(window_ms, max_events, times, k - 1);
        lemma_rate_run_take(v, times, k - 1);
        let prev = times.take(k - 1);
        if prev.len() > 0 {
            assert(times[k - 1] - prev[0] <= window_ms);
        }
        assert(prune(prev, times[k - 1], window_ms) == prev);
        assert(prev.push(times[k - 1]) =~= times.take(k));
    }
}

/// Within one window, starting empty, the first `max_events` events pass and
/// the next one raises an alert counting `max_events + 1` events.
pub proof fn lemma_rate_limit_burst(window_ms: u64, max_events: usize, times: Seq<u64>)
    requires
        times.len() <= max_events + 1,
        forall|i: int, j: int| 0 <= i <= j < times.len() ==> times[i] <= times[j],
        times.len() > 0 ==> times.last() - times[0] <= window_ms,
    ensures
        forall|k: int|
            0 <= k < times.len() ==> #[trigger] rate_verdict_at(
                RateLimitView { window_ms, max_events, stamps: Seq::empty() },
                times,
                k,
            ) == if k < max_events {
                ActionView::Continue
            } else {
                ActionView::Alert(rate_alert_text((k + 1) as nat, window_ms, max_events))
            },
{
    let v = RateLimitView { window_ms, max_events, stamps: Seq::empty() };
    assert forall|k: int| 0 <= k < times.len() implies #[trigger] rate_verdict_at(v, times, k) == if k
        < max_events {
        ActionView::Continue
    } else {
        ActionView::Alert(rate_alert_text((k + 1) as nat, window_ms, max_events))
    } by {
        lemma_burst_keeps_all(window_ms, max_events, times, k);
        let prev = times.take(k);
        if prev.len() > 0 {
            assert(times[k] - prev[0] <= window_ms);
        }
        assert(prune(prev, times[k], window_ms) == prev);
    }
}

proof fn lemma_spaced_keeps_one(window_ms: u64, max_events: usize, times: Seq<u64>, k: int)
    requires
        1 <= k <= times.len(),
        forall|i: int| 1 <= i < times.len() ==> #[trigger] times[i] - times[i - 1] > window_ms,
    ensures
        rate_run(RateLimitView { window_ms, max_events, stamps: Seq::empty() }, times.take(k))
            == (RateLimitView { window_ms, max_events, stamps: seq![times[k - 1]] }),
    decreases k,
{
    let v = RateLimitView { window_ms, max_events, stamps: Seq::empty() };
    lemma_rate_run_take(v, times, k - 1);
    if k == 1 {
        assert(times.take(0) =~= Seq::<u64>::empty());
        assert(Seq::<u64>::empty().push(times[0]) =~= seq![times[0]]);
    } else {
        lemma_spaced_keeps_one(window_ms, max_events, times, k - 1);
        let one = seq![times[k - 2]];
        assert(one.drop_first() =~= Seq::<u64>::empty());
        assert(times[k - 1] - times[k - 2] > window_ms);
        assert(prune(Seq::<u64>::empty(), times[k - 1], window_ms) == Seq::<u64>::empty());
        assert(prune(one, times[k - 1], window_ms) =~= Seq::<u64>::empty());
        assert(Seq::<u64>::empty().push(times[k - 1]) =~= seq![times[k - 1]]);
    }
}

/// Events spaced more than a window apart never accumulate: with a limit of
/// at least one, every one of them passes.
pub proof fn lemma_rate_limit_spaced(window_ms: u64, max_events: usize, times: Seq<u64>)
    requires
        max_events >= 1,
        forall|i: int| 1 <= i < times.len() ==> #[trigger] times[i] - times[i - 1] > window_ms,
    ensures
        forall|k: int|
            0 <= k < times.len() ==> #[trigger] rate_verdict_at(
                RateLimitView { window_ms, max_events, stamps: Seq::empty() },
                times,
                k,
            ) == ActionView::Continue,
{
    let v = RateLimitView { window_ms, max_events, stamps: Seq::empty() };
    assert forall|k: int| 0 <= k < times.len() implies #[trigger] rate_verdict_at(v, times, k)
        == ActionView::Continue by {
        if k == 0 {
            assert(times.take(0) =~= Seq::<u64>::empty());
        } else {
            lemma_spaced_keeps_one(window_ms, max_events, times, k);
            let one = seq![times[k - 1]];
            assert(one.drop_first() =~= Seq::<u64>::empty());
            assert(times[k] - times[k - 1] > window_ms);
            assert(prune(Seq::<u64>::empty(), times[k], window_ms) == Seq::<u64>::empty());
            assert(prune(one, times[k], window_ms) =~= Seq::<u64>::empty());
        }
    }
}

/// The last `window` entries of `s` (all of them when there are fewer).
pub open spec fn recent(s: Seq<bool>, window: usize) -> Seq<bool> {
    if s.len() <= window {
        s
    } else {
        s.subrange(s.len() - window, s.len() as int)
    }
}

/// The state of a panic-loop detector after events with error flags `flags`, in order.
pub open spec fn panic_run(v: PanicLoopView, flags: Seq<bool>) -> PanicLoopView
    decreases flags.len(),
{
    if flags.len() == 0 {
        v
    } else {
        panic_step(panic_run(v, flags.drop_last()), flags.last()).0
    }
}

proof fn lemma_panic_ring(v: PanicLoopView, flags: Seq<bool>)
    requires
        v.window >= 1,
        v.ring.len() == 0,
    ensures
        panic_run(v, flags) == (PanicLoopView { ring: recent(flags, v.window), ..v }),
    decreases flags.len(),
{
    if flags.len() == 0 {
        assert(v.ring =~= recent(flags, v.window));
    } else {
        let prev = flags.drop_last();
        lemma_panic_ring(v, prev);
        let r = recent(prev, v.window);
        if prev.len() >= v.window {
            assert(r.drop_first().push(flags.last()) =~= recent(flags, v.window));
        } else {
            assert(r.push(flags.last()) =~= recent(flags, v.window));
        }
    }
}

/// Starting empty with a window of at least one, the event at index `k` halts
/// exactly when at least `min_repeats` of the last `window` error flags, its
/// own included, are set.
pub proof fn lemma_panic_loop_threshold(v: PanicLoopView, flags: Seq<bool>, k: int)
    requires
        v.window >= 1,
        v.ring.len() == 0,
        0 <= k < flags.len(),
    ensures
        panic_step(panic_run(v, flags.take(k)), flags[k]).1 == if count_true(
            recent(flags.take(k + 1), v.window),
        ) >= v.min_repeats {
            ActionView::Halt(
                panic_halt_text(count_true(recent(flags.take(k + 1), v.window)), v.window, v.pointer),
            )
        } else {
            ActionView::Continue
        },
{
    lemma_panic_ring(v, flags.take(k + 1));
    assert(flags.take(k + 1).drop_last() =~= flags.take(k));
}

/// Whether the flag at `path` in `v` is absent or an explicit `false`.
pub open spec fn unset_or_false(v: JsonValue, path: Seq<Seq<char>>) -> bool {
    lookup_path(v, path) is None || lookup_path(v, path) == Some(JsonValue::Bool(false))
}

/// A pointer that names nothing in the headers nor in the body reads as an
/// unset flag, so such an event is recorded exactly as one whose flag is an
/// explicit `false` in its headers, its body, or both.
pub proof fn lemma_missing_flag_is_false(
    v: PanicLoopView,
    missing: Envelope,
    explicit: Envelope,
    now_ms: u64,
)
    requires
        lookup_path(missing.headers, v.path) is None,
        lookup_path(missing.body, v.path) is None,
        unset_or_false(explicit.headers, v.path),
        unset_or_false(explicit.body, v.path),
    ensures
        !error_flag(missing, v.path),
        !error_flag(explicit, v.path),
        PanicLoopReflex::event_step(v, missing, now_ms) == PanicLoopReflex::event_step(
            v,
            explicit,
            now_ms,
        ),
{
}

/// The guard halts naming the first required pointer whose flag is unset,
/// whatever the pointers after it hold.
pub proof fn lemma_guard_first_unset(v: PolicyGuardView, headers: JsonValue, i: int)
    requires
        v.paths.len() == v.pointers.len(),
        0 <= i < v.paths.len(),
        forall|j: int| 0 <= j < i ==> flag_at(headers, #[trigger] v.paths[j]),
        !flag_at(headers, v.paths[i]),
    ensures
        guard_verdict(v.pointers, v.paths, headers) == ActionView::Halt(
            policy_halt_text(v.pointers[i]),
        ),
    decreases i,
{
    if i > 0 {
        let rest = PolicyGuardView {
            pointers: v.pointers.drop_first(),
            paths: v.paths.drop_first(),
        };
        assert(flag_at(headers, v.paths[0]));
        assert forall|j: int| 0 <= j < i - 1 implies flag_at(headers, #[trigger] rest.paths[j]) by {
            assert(rest.paths[j] == v.paths[j + 1]);
        }
        lemma_guard_first_unset(rest, headers, i - 1);
    }
}

/// The guard lets an event through when every required flag is set.
pub proof fn lemma_guard_all_set(v: PolicyGuardView, headers: JsonValue)
    requires
        v.paths.len() == v.pointers.len(),
        forall|j: int| 0 <= j < v.paths.len() ==> flag_at(headers, #[trigger] v.paths[j]),
    ensures
        guard_verdict(v.pointers, v.paths, headers) == ActionView::Continue,
    decreases v.paths.len(),
{
    if v.paths.len() > 0 {
        let rest = PolicyGuardView {
            pointers: v.pointers.drop_first(),
            paths: v.paths.drop_first(),
        };
        assert(flag_at(headers, v.paths[0]));
        assert forall|j: int| 0 <= j < rest.paths.len() implies flag_at(
            headers,
            #[trigger] rest.paths[j],
        ) by {
            assert(rest.paths[j] == v.paths[j + 1]);
        }
        lemma_guard_all_set(rest, headers);
    }
}

/// Any of the built-in monitors, so that one registry can hold a mix of them.
pub enum BuiltinReflex {
    RateLimit(RateLimitReflex),
    PanicLoop(PanicLoopReflex),
    PolicyGuard(PolicyGuardReflex),
}

/// The abstract state of a [`BuiltinReflex`].
pub ghost enum BuiltinView {
    RateLimit(RateLimitView),
    PanicLoop(PanicLoopView),
    PolicyGuard(PolicyGuardView),
}

impl View for BuiltinReflex {
    type V = BuiltinView;

    open spec fn view(&self) -> BuiltinView {
        match self {
            BuiltinReflex::RateLimit(r) => BuiltinView::RateLimit(r@),
            BuiltinReflex::PanicLoop(r) => BuiltinView::PanicLoop(r@),
            BuiltinReflex::PolicyGuard(r) => BuiltinView::PolicyGuard(r@),
        }
    }
}

impl Reflex for BuiltinReflex {
    open spec fn spec_name(&self) -> Seq<char> {
        match self {
            BuiltinReflex::RateLimit(r) => r.spec_name(),
            BuiltinReflex::PanicLoop(r) => r.spec_name(),
            BuiltinReflex::PolicyGuard(r) => r.spec_name(),
        }
    }

    open spec fn event_step(state: BuiltinView, evt: Envelope, now_ms: u64) -> (BuiltinView, Result<ActionView, ErrorView>) {
        match state {
            BuiltinView::RateLimit(v) => {
                let (n, o) = RateLimitReflex::event_step(v, evt, now_ms);
                (BuiltinView::RateLimit(n), o)
            },
            BuiltinView::PanicLoop(v) => {
                let (n, o) = PanicLoopReflex::event_step(v, evt, now_ms);
                (BuiltinView::PanicLoop(n), o)
            },
            BuiltinView::PolicyGuard(v) => {
                let (n, o) = PolicyGuardReflex::event_step(v, evt, now_ms);
                (BuiltinView::PolicyGuard(n), o)
            },
        }
    }

    open spec fn tick_step(state: BuiltinView, now_ms: u64) -> (BuiltinView, Result<ActionView, ErrorView>) {
        match state {
            BuiltinView::RateLimit(v) => {
                let (n, o) = RateLimitReflex::tick_step(v, now_ms);
                (BuiltinView::RateLimit(n), o)
            },
            BuiltinView::PanicLoop(v) => {
                let (n, o) = PanicLoopReflex::tick_step(v, now_ms);
                (BuiltinView::PanicLoop(n), o)
            },
            BuiltinView::PolicyGuard(v) => {
                let (n, o) = PolicyGuardReflex::tick_step(v, now_ms);
                (BuiltinView::PolicyGuard(n), o)
            },
        }
    }

    fn name(&self) -> (r: &'static str) {
        match self {
            BuiltinReflex::RateLimit(r) => r.name(),
            BuiltinReflex::PanicLoop(r) => r.name(),
            BuiltinReflex::PolicyGuard(r) => r.name(),
        }
    }

    fn on_event(&mut self, evt: &Envelope, now_ms: u64) -> (r: Result<ReflexAction, ReflexError>) {
        match self {
            BuiltinReflex::RateLimit(r) => r.on_event(evt, now_ms),
            BuiltinReflex::PanicLoop(r) => r.on_event(evt, now_ms),
            BuiltinReflex::PolicyGuard(r) => r.on_event(evt, now_ms),
        }
    }

    fn on_tick(&mut self, now_ms: u64) -> (r: Result<ReflexAction, ReflexError>) {
        match self {
            BuiltinReflex::RateLimit(r) => r.on_tick(now_ms),
            BuiltinReflex::PanicLoop(r) => r.on_tick(now_ms),
            BuiltinReflex::PolicyGuard(r) => r.on_tick(now_ms),
        }
    }
}

} // verus!
