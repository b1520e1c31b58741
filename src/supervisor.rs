//! The supervisor: owns the registry of reflexes, runs each observed event and
//! each timer tick through every reflex in registration order, and turns their
//! verdicts into control messages.
use vstd::prelude::*;

use crate::json::{keys_distinct, object_len, text_member, well_formed, JsonValue};
use crate::text::{hex_digits, hex_text};
use crate::{ActionView, Envelope, ErrorView, Reflex, ReflexAction, ReflexError, ReflexSubjects};

verus! {

/// The severity of a control message.
#[derive(Debug, Clone, Copy, PartialEq, Eq, Structural)]
pub enum ControlKind {
    Alert,
    Halt,
}

/// The word for `k` used in control subjects and identifiers.
pub open spec fn kind_word(k: ControlKind) -> Seq<char> {
    match k {
        ControlKind::Alert => "alert"@,
        ControlKind::Halt => "halt"@,
    }
}

impl ControlKind {
    /// `alert` or `halt`.
    pub fn word(&self) -> (r: &'static str)
        ensures
            r@ == kind_word(*self),
    {
        match self {
            ControlKind::Alert => "alert",
            ControlKind::Halt => "halt",
        }
    }
}

/// A verdict to escalate: its kind, the reflex that gave it, the reason, and
/// the id of the event that triggered it.
#[derive(Debug, Clone)]
pub struct ControlMessage {
    pub kind: ControlKind,
    pub reflex: String,
    pub reason: String,
    pub source_event: String,
}

/// What one pass asks of the surrounding loop: publish a control message, or
/// report a reflex's failure.
#[derive(Debug, Clone)]
pub enum Dispatch {
    Publish(ControlMessage),
    Fault { reflex: String, error: ReflexError },
}

/// The mathematical form of a [`Dispatch`].
pub ghost enum DispatchView {
    Publish { kind: ControlKind, reflex: Seq<char>, reason: Seq<char>, source_event: Seq<char> },
    Fault { reflex: Seq<char>, error: ErrorView },
}

impl View for Dispatch {
    type V = DispatchView;

    open spec fn view(&self) -> DispatchView {
        match self {
            Dispatch::Publish(m) => DispatchView::Publish {
                kind: m.kind,
                reflex: m.reflex@,
                reason: m.reason@,
                source_event: m.source_event@,
            },
            Dispatch::Fault { reflex, error } => DispatchView::Fault { reflex: reflex@, error: error@ },
        }
    }
}

/// The views of a sequence of dispatches.
pub open spec fn dispatch_views(ds: Seq<Dispatch>) -> Seq<DispatchView> {
    ds.map_values(|d: Dispatch| d@)
}

/// What an event hook's outcome asks for: nothing for `Continue`, one control
/// message for an alert or a halt, one fault report for an error.
pub open spec fn event_dispatch(
    name: Seq<char>,
    outcome: Result<ActionView, ErrorView>,
    source_event: Seq<char>,
) -> Seq<DispatchView> {
    match outcome {
        Ok(ActionView::Continue) => Seq::empty(),
        Ok(ActionView::Alert(reason)) => seq![
            DispatchView::Publish { kind: ControlKind::Alert, reflex: name, reason, source_event },
        ],
        Ok(ActionView::Halt(reason)) => seq![
            DispatchView::Publish { kind: ControlKind::Halt, reflex: name, reason, source_event },
        ],
        Err(error) => seq![DispatchView::Fault { reflex: name, error }],
    }
}

/// What a tick hook's outcome asks for: only errors are reported.
pub open spec fn tick_dispatch(name: Seq<char>, outcome: Result<ActionView, ErrorView>) -> Seq<
    DispatchView,
> {
    match outcome {
        Err(error) => seq![DispatchView::Fault { reflex: name, error }],
        Ok(_) => Seq::empty(),
    }
}

/// The dispatches of the first `n` reflexes of `rs` on `evt` at `now_ms`, in order.
pub open spec fn event_dispatches<R: Reflex>(rs: Seq<R>, evt: Envelope, now_ms: u64, n: int) -> Seq<
    DispatchView,
>
    decreases n,
{
    if n <= 0 {
        Seq::empty()
    } else {
        event_dispatches(rs, evt, now_ms, n - 1) + event_dispatch(
            rs[n - 1].spec_name(),
            R::event_step(rs[n - 1]@, evt, now_ms).1,
            evt.id@,
        )
    }
}

/// The dispatches of the first `n` reflexes of `rs` on a tick at `now_ms`, in order.
pub open spec fn tick_dispatches<R: Reflex>(rs: Seq<R>, now_ms: u64, n: int) -> Seq<DispatchView>
    decreases n,
{
    if n <= 0 {
        Seq::empty()
    } else {
        tick_dispatches(rs, now_ms, n - 1) + tick_dispatch(
            rs[n - 1].spec_name(),
            R::tick_step(rs[n - 1]@, now_ms).1,
        )
    }
}

/// One pass of `evt` at `now_ms` over the registry `before`: every reflex is
/// stepped, names are kept, and `out` lists the dispatches in registration order.
pub open spec fn event_pass<R: Reflex>(
    before: Seq<R>,
    after: Seq<R>,
    evt: Envelope,
    now_ms: u64,
    out: Seq<DispatchView>,
) -> bool {
    &&& after.len() == before.len()
    &&& forall|i: int|
        0 <= i < before.len() ==> (#[trigger] after[i])@ == R::event_step(before[i]@, evt, now_ms).0
            && after[i].spec_name() == before[i].spec_name()
    &&& out == event_dispatches(before, evt, now_ms, before.len() as int)
}

/// One tick at `now_ms` over the registry `before`.
pub open spec fn tick_pass<R: Reflex>(
    before: Seq<R>,
    after: Seq<R>,
    now_ms: u64,
    out: Seq<DispatchView>,
) -> bool {
    &&& after.len() == before.len()
    &&& forall|i: int|
        0 <= i < before.len() ==> (#[trigger] after[i])@ == R::tick_step(before[i]@, now_ms).0
            && after[i].spec_name() == before[i].spec_name()
    &&& out == tick_dispatches(before, now_ms, before.len() as int)
}

/// Owns the reflex registry, the subjects, and the tick cadence.
pub struct ReflexSupervisor<R> {
    pub subjects: ReflexSubjects,
    pub reflexes: Vec<R>,
    pub tick_interval_ms: u64,
}

impl<R: Reflex> ReflexSupervisor<R> {
    /// A supervisor with no reflexes and a 500 ms tick.
    pub fn new(subjects: ReflexSubjects) -> (r: ReflexSupervisor<R>)
        ensures
            r.subjects == subjects,
            r.reflexes@.len() == 0,
            r.tick_interval_ms == 500,
    {
        ReflexSupervisor { subjects, reflexes: Vec::new(), tick_interval_ms: 500 }
    }

    /// Registers `reflex` after the ones already registered.
    pub fn with_reflex(self, reflex: R) -> (r: ReflexSupervisor<R>)
        ensures
            r.subjects == self.subjects,
            r.reflexes@ == self.reflexes@.push(reflex),
            r.tick_interval_ms == self.tick_interval_ms,
    {
        let mut s = self;
        s.reflexes.push(reflex);
        s
    }

    /// Sets the tick cadence, in milliseconds.
    pub fn with_tick_interval(self, every_ms: u64) -> (r: ReflexSupervisor<R>)
        ensures
            r.subjects == self.subjects,
            r.reflexes@ == self.reflexes@,
            r.tick_interval_ms == every_ms,
    {
        let mut s = self;
        s.tick_interval_ms = every_ms;
        s
    }

    /// Runs `evt`, observed at `now_ms`, through every reflex in registration
    /// order. A reflex that fails is reported and the others still run.
    pub fn handle_event_at(&mut self, evt: &Envelope, now_ms: u64) -> (r: Vec<Dispatch>)
        ensures
            event_pass(old(self).reflexes@, final(self).reflexes@, *evt, now_ms, dispatch_views(r@)),
            final(self).subjects == old(self).subjects,
            final(self).tick_interval_ms == old(self).tick_interval_ms,
    {
        let ghost before = self.reflexes@;
        let mut out: Vec<Dispatch> = Vec::new();
        let mut i: usize = 0;
        while i < self.reflexes.len()
            invariant
                i <= before.len(),
                self.reflexes@.len() == before.len(),
                before == old(self).reflexes@,
                self.subjects == old(self).subjects,
                self.tick_interval_ms == old(self).tick_interval_ms,
                forall|j: int|
                    0 <= j < i ==> (#[trigger] self.reflexes@[j])@ == R::event_step(
                        before[j]@,
                        *evt,
                        now_ms,
                    ).0 && self.reflexes@[j].spec_name() == before[j].spec_name(),
                forall|j: int| i <= j < before.len() ==> #[trigger] self.reflexes@[j] == before[j],
                dispatch_views(out@) == event_dispatches(before, *evt, now_ms, i as int),
            decreases before.len() - i,
        {
            let result = self.reflexes[i].on_event(evt, now_ms);
            let name = self.reflexes[i].name();
            let ghost prev = out@;
            match result {
                Ok(ReflexAction::Continue) => {},
                Ok(ReflexAction::Alert(reason)) => {
                    out.push(
                        Dispatch::Publish(
                            ControlMessage {
                                kind: ControlKind::Alert,
                                reflex: String::from_str(name),
                                reason,
                                source_event: evt.id.clone(),
                            },
                        ),
                    );
                },
                Ok(ReflexAction::Halt(reason)) => {
                    out.push(
                        Dispatch::Publish(
                            ControlMessage {
                                kind: ControlKind::Halt,
                                reflex: String::from_str(name),
                                reason,
                                source_event: evt.id.clone(),
                            },
                        ),
                    );
                },
                Err(error) => {
                    out.push(Dispatch::Fault { reflex: String::from_str(name), error });
                },
            }
            assert(dispatch_views(out@) =~= dispatch_views(prev) + event_dispatch(
                before[i as int].spec_name(),
                R::event_step(before[i as int]@, *evt, now_ms).1,
                evt.id@,
            ));
            i = i + 1;
        }
        out
    }

    /// Runs a timer tick at `now_ms` through every reflex in registration
    /// order; only failures are reported.
    pub fn handle_tick_at(&mut self, now_ms: u64) -> (r: Vec<Dispatch>)
        ensures
            tick_pass(old(self).reflexes@, final(self).reflexes@, now_ms, dispatch_views(r@)),
            final(self).subjects == old(self).subjects,
            final(self).tick_interval_ms == old(self).tick_interval_ms,
    {
        let ghost before = self.reflexes@;
        let mut out: Vec<Dispatch> = Vec::new();
        let mut i: usize = 0;
        while i < self.reflexes.len()
            invariant
                i <= before.len(),
                self.reflexes@.len() == before.len(),
                before == old(self).reflexes@,
                self.subjects == old(self).subjects,
                self.tick_interval_ms == old(self).tick_interval_ms,
                forall|j: int|
                    0 <= j < i ==> (#[trigger] self.reflexes@[j])@ == R::tick_step(
                        before[j]@,
                        now_ms,
                    ).0 && self.reflexes@[j].spec_name() == before[j].spec_name(),
                forall|j: int| i <= j < before.len() ==> #[trigger] self.reflexes@[j] == before[j],
                dispatch_views(out@) == tick_dispatches(before, now_ms, i as int),
            decreases before.len() - i,
        {
            let result = self.reflexes[i].on_tick(now_ms);
            let name = self.reflexes[i].name();
            let ghost prev = out@;
            match result {
                Ok(_) => {},
                Err(error) => {
                    out.push(Dispatch::Fault { reflex: String::from_str(name), error });
                },
            }
            assert(dispatch_views(out@) =~= dispatch_views(prev) + tick_dispatch(
                before[i as int].spec_name(),
                R::tick_step(before[i as int]@, now_ms).1,
            ));
            i = i + 1;
        }
        out
    }

    /// Runs `evt` through every reflex at the current wall-clock time.
    pub fn handle_event(&mut self, evt: &Envelope) -> (r: Vec<Dispatch>)
        ensures
            exists|now_ms: u64|
                event_pass(
                    old(self).reflexes@,
                    final(self).reflexes@,
                    *evt,
                    now_ms,
                    #[trigger] dispatch_views(r@),
                ),
            final(self).subjects == old(self).subjects,
            final(self).tick_interval_ms == old(self).tick_interval_ms,
    {
        let now_ms = epoch_ms();
        self.handle_event_at(evt, now_ms)
    }

    /// Runs a timer tick through every reflex at the current wall-clock time.
    pub fn handle_tick(&mut self) -> (r: Vec<Dispatch>)
        ensures
            exists|now_ms: u64|
                tick_pass(
                    old(self).reflexes@,
                    final(self).reflexes@,
                    now_ms,
                    #[trigger] dispatch_views(r@),
                ),
            final(self).subjects == old(self).subjects,
            final(self).tick_interval_ms == old(self).tick_interval_ms,
    {
        let now_ms = epoch_ms();
        self.handle_tick_at(now_ms)
    }
}

/// Relies on std's `SystemTime::now`: the wall-clock time in nanoseconds since
/// the Unix epoch (zero if the clock reads earlier than the epoch).
#[verifier::external_body]
fn epoch_nanos() -> (r: u128) {
    std::time::SystemTime::now().duration_since(std::time::UNIX_EPOCH).unwrap_or_default().as_nanos()
}

/// Whole milliseconds in `nanos` nanoseconds, truncated to 64 bits.
pub fn millis_of_nanos(nanos: u128) -> (r: u64)
    ensures
        r == (nanos / 1_000_000) as u64,
{
    (nanos / 1_000_000) as u64
}

/// The wall-clock time in milliseconds since the Unix epoch.
pub fn epoch_ms() -> (r: u64)
    ensures
        exists|n: u128| r == #[trigger] ((n / 1_000_000) as u64),
{
    let n = epoch_nanos();
    let r = millis_of_nanos(n);
    assert(r == ((n / 1_000_000) as u64));
    r
}

/// A fresh token for a control message id: the wall-clock nanoseconds in hexadecimal.
pub fn uuid() -> (r: String)
    ensures
        exists|n: u128| r@ == hex_digits(n as nat),
{
    let n = epoch_nanos();
    hex_text(n)
}

/// Whether `e` is the control envelope of kind `kind` from `reflex` for event
/// `source_event`, stamped `ts_ms` and carrying `token` in its id.
pub open spec fn is_control_envelope(
    e: Envelope,
    kind: Seq<char>,
    reflex: Seq<char>,
    reason: Seq<char>,
    source_event: Seq<char>,
    ts_ms: u64,
    token: Seq<char>,
) -> bool {
    &&& e.id@ == "reflex:"@ + kind + ":"@ + token
    &&& e.subject@ == "reflex."@ + kind
    &&& e.ts_ms == ts_ms
    &&& object_len(e.headers) == Some(3nat)
    &&& text_member(e.headers, "reflex"@) == Some(reflex)
    &&& text_member(e.headers, "reason"@) == Some(reason)
    &&& text_member(e.headers, "source_event"@) == Some(source_event)
    &&& object_len(e.body) == Some(0nat)
}

/// Builds the control envelope for a verdict of kind `kind` (`alert` or
/// `halt`), stamped `ts_ms`, with `token` making its id unique.
pub fn control_envelope_at(
    kind: &str,
    reflex: &str,
    reason: &str,
    source_event: &str,
    ts_ms: u64,
    token: &str,
) -> (r: Envelope)
    ensures
        is_control_envelope(r, kind@, reflex@, reason@, source_event@, ts_ms, token@),
        well_formed(r.headers),
        well_formed(r.body),
{
    let mut id = String::from_str("reflex:");
    id.append(kind);
    id.append(":");
    id.append(token);
    let mut subject = String::from_str("reflex.");
    subject.append(kind);
    let mut entries: Vec<(String, JsonValue)> = Vec::new();
    entries.push((String::from_str("reflex"), JsonValue::Str(String::from_str(reflex))));
    entries.push((String::from_str("reason"), JsonValue::Str(String::from_str(reason))));
    entries.push(
        (String::from_str("source_event"), JsonValue::Str(String::from_str(source_event))),
    );
    proof {
        reveal_strlit("reflex");
        reveal_strlit("reason");
        reveal_strlit("source_event");
        assert("reflex"@[2] != "reason"@[2]);
        assert("reflex"@.len() != "source_event"@.len());
        assert("reason"@.len() != "source_event"@.len());
        assert(entries@.drop_first()[0] == entries@[1]);
        assert(entries@.drop_first().drop_first()[0] == entries@[2]);
        reveal_with_fuel(crate::json::find_entry, 4);
        assert(keys_distinct(entries@));
        assert forall|i: int| 0 <= i < entries@.len() implies well_formed(
            #[trigger] entries@[i].1,
        ) by {
            assert(entries@[i].1 is Str);
        }
        assert(well_formed(JsonValue::Object(entries)));
    }
    Envelope {
        id,
        subject,
        ts_ms,
        headers: JsonValue::Object(entries),
        body: JsonValue::Object(Vec::new()),
    }
}

/// Builds the control envelope for a verdict about `evt`, stamped with the
/// current wall-clock time and a fresh token.
pub fn control_envelope(kind: &str, reflex: &str, reason: &str, evt: &Envelope) -> (r: Envelope)
    ensures
        exists|ts_ms: u64, n: u128|
            #[trigger] is_control_envelope(
                r,
                kind@,
                reflex@,
                reason@,
                evt.id@,
                ts_ms,
                hex_digits(n as nat),
            ),
{
    let ts_ms = epoch_ms();
    let token = uuid();
    let r = control_envelope_at(kind, reflex, reason, evt.id.as_str(), ts_ms, token.as_str());
    proof {
        let n = choose|n: u128| token@ == hex_digits(n as nat);
        assert(is_control_envelope(r, kind@, reflex@, reason@, evt.id@, ts_ms, hex_digits(n as nat)));
    }
    r
}

/// The state of one reflex that observes `events` (each with its time) on its own.
pub open spec fn own_run<R: Reflex>(state: R::V, events: Seq<(Envelope, u64)>) -> R::V
    decreases events.len(),
{
    if events.len() == 0 {
        state
    } else {
        R::event_step(own_run::<R>(state, events.drop_last()), events.last().0, events.last().1).0
    }
}

proof fn lemma_isolation_upto<R: Reflex>(
    registries: Seq<Seq<R>>,
    events: Seq<(Envelope, u64)>,
    outs: Seq<Seq<DispatchView>>,
    i: int,
    k: int,
)
    requires
        registries.len() == events.len() + 1,
        outs.len() == events.len(),
        forall|m: int|
            0 <= m < events.len() ==> event_pass(
                #[trigger] registries[m],
                registries[m + 1],
                events[m].0,
                events[m].1,
                outs[m],
            ),
        0 <= i < registries[0].len(),
        0 <= k <= events.len(),
    ensures
        registries[k].len() == registries[0].len(),
        registries[k][i]@ == own_run::<R>(registries[0][i]@, events.take(k)),
    decreases k,
{
    if k == 0 {
        assert(events.take(0) =~= Seq::<(Envelope, u64)>::empty());
    } else {
        lemma_isolation_upto(registries, events, outs, i, k - 1);
        assert(event_pass(
            registries[k - 1],
            registries[k],
            events[k - 1].0,
            events[k - 1].1,
            outs[k - 1],
        ));
        assert(events.take(k).drop_last() =~= events.take(k - 1));
    }
}

/// Over any run of event passes, every registered reflex is, after each pass,
/// in the state it would reach observing the same events alone, so each of its
/// verdicts is the one it would give alone: no sibling, failing or not, keeps
/// it from seeing and evaluating every event.
pub proof fn lemma_reflex_isolation<R: Reflex>(
    registries: Seq<Seq<R>>,
    events: Seq<(Envelope, u64)>,
    outs: Seq<Seq<DispatchView>>,
    i: int,
)
    requires
        registries.len() == events.len() + 1,
        outs.len() == events.len(),
        forall|k: int|
            0 <= k < events.len() ==> event_pass(
                #[trigger] registries[k],
                registries[k + 1],
                events[k].0,
                events[k].1,
                outs[k],
            ),
        0 <= i < registries[0].len(),
    ensures
        forall|k: int|
            0 <= k <= events.len() ==> (#[trigger] registries[k]).len() == registries[0].len()
                && registries[k][i]@ == own_run::<R>(registries[0][i]@, events.take(k)),
{
    assert forall|k: int| 0 <= k <= events.len() implies (#[trigger] registries[k]).len()
        == registries[0].len() && registries[k][i]@ == own_run::<R>(
        registries[0][i]@,
        events.take(k),
    ) by {
        lemma_isolation_upto(registries, events, outs, i, k);
    }
}

/// When every registered reflex alerts or halts on an event, the pass yields
/// one control message per reflex, in registration order.
pub proof fn lemma_dispatch_order<R: Reflex>(rs: Seq<R>, evt: Envelope, now_ms: u64, n: int)
    requires
        0 <= n <= rs.len(),
        forall|i: int|
            0 <= i < n ==> match (#[trigger] R::event_step(rs[i]@, evt, now_ms)).1 {
                Ok(ActionView::Alert(_)) => true,
                Ok(ActionView::Halt(_)) => true,
                _ => false,
            },
    ensures
        event_dispatches(rs, evt, now_ms, n).len() == n,
        forall|i: int|
            0 <= i < n ==> match #[trigger] event_dispatches(rs, evt, now_ms, n)[i] {
                DispatchView::Publish { reflex, source_event, .. } => reflex == rs[i].spec_name()
                    && source_event == evt.id@,
                _ => false,
            },
    decreases n,
{
    if n > 0 {
        lemma_dispatch_order(rs, evt, now_ms, n - 1);
        assert forall|i: int| 0 <= i < n implies match #[trigger] event_dispatches(
            rs,
            evt,
            now_ms,
            n,
        )[i] {
            DispatchView::Publish { reflex, source_event, .. } => reflex == rs[i].spec_name()
                && source_event == evt.id@,
            _ => false,
        } by {
            if i < n - 1 {
                assert(event_dispatches(rs, evt, now_ms, n)[i] == event_dispatches(
                    rs,
                    evt,
                    now_ms,
                    n - 1,
                )[i]);
            }
        }
    }
}

/// The control messages among `ds`, in order; fault reports left out.
pub open spec fn publications(ds: Seq<DispatchView>) -> Seq<DispatchView> {
    ds.filter(|d: DispatchView| d is Publish)
}

proof fn lemma_dispatches_prefix<R: Reflex>(a: Seq<R>, b: Seq<R>, evt: Envelope, now_ms: u64, n: int)
    requires
        0 <= n <= a.len(),
        n <= b.len(),
        forall|k: int| 0 <= k < n ==> a[k] == b[k],
    ensures
        event_dispatches(a, evt, now_ms, n) == event_dispatches(b, evt, now_ms, n),
    decreases n,
{
    if n > 0 {
        lemma_dispatches_prefix(a, b, evt, now_ms, n - 1);
        assert(a[n - 1] == b[n - 1]);
    }
}

proof fn lemma_without_failing_upto<R: Reflex>(
    rs: Seq<R>,
    j: int,
    evt: Envelope,
    now_ms: u64,
    n: int,
)
    requires
        0 <= j < n <= rs.len(),
        R::event_step(rs[j]@, evt, now_ms).1 is Err,
    ensures
        publications(event_dispatches(rs, evt, now_ms, n)) == publications(
            event_dispatches(rs.remove(j), evt, now_ms, n - 1),
        ),
    decreases n,
{
    let rm = rs.remove(j);
    let pred = |d: DispatchView| d is Publish;
    if n == j + 1 {
        lemma_dispatches_prefix(rs, rm, evt, now_ms, j);
        let tail = event_dispatch(rs[j].spec_name(), R::event_step(rs[j]@, evt, now_ms).1, evt.id@);
        Seq::filter_distributes_over_add(event_dispatches(rs, evt, now_ms, j), tail, pred);
        assert(tail.filter(pred) =~= Seq::<DispatchView>::empty()) by {
            reveal_with_fuel(Seq::filter, 2);
            assert(tail.drop_last() =~= Seq::<DispatchView>::empty());
        }
        assert(event_dispatches(rs, evt, now_ms, j).filter(pred) + Seq::<DispatchView>::empty()
            =~= event_dispatches(rs, evt, now_ms, j).filter(pred));
    } else {
        lemma_without_failing_upto(rs, j, evt, now_ms, n - 1);
        assert(rm[n - 2] == rs[n - 1]);
        let tail = event_dispatch(
            rs[n - 1].spec_name(),
            R::event_step(rs[n - 1]@, evt, now_ms).1,
            evt.id@,
        );
        Seq::filter_distributes_over_add(event_dispatches(rs, evt, now_ms, n - 1), tail, pred);
        Seq::filter_distributes_over_add(event_dispatches(rm, evt, now_ms, n - 2), tail, pred);
    }
}

/// On an event where one reflex fails, the registry publishes exactly the
/// control messages, in the same order, that it would publish without that
/// reflex: the failure only adds a fault report.
pub proof fn lemma_failing_reflex_publishes_nothing<R: Reflex>(
    rs: Seq<R>,
    j: int,
    evt: Envelope,
    now_ms: u64,
)
    requires
        0 <= j < rs.len(),
        R::event_step(rs[j]@, evt, now_ms).1 is Err,
    ensures
        publications(event_dispatches(rs, evt, now_ms, rs.len() as int)) == publications(
            event_dispatches(rs.remove(j), evt, now_ms, rs.remove(j).len() as int),
        ),
{
    lemma_without_failing_upto(rs, j, evt, now_ms, rs.len() as int);
}

} // verus!
