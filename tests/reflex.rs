use openi_core_reflex::content::ContentType;
use openi_core_reflex::agent::Agent;
use openi_core_reflex::json::{flag_at_path, parse_pointer, JsonValue};
use openi_core_reflex::monitor::{BuiltinReflex, PanicLoopReflex, PolicyGuardReflex, RateLimitReflex};
use openi_core_reflex::supervisor::{
    control_envelope, control_envelope_at, epoch_ms, millis_of_nanos, uuid, ControlKind, Dispatch,
    ReflexSupervisor,
};
use openi_core_reflex::text::duration_text;
use openi_core_reflex::{Envelope, Reflex, ReflexAction, ReflexError, ReflexSubjects};
use openi_core_reflex::{ActionView, ErrorView};
use vstd::prelude::{Seq, View};

fn obj(entries: Vec<(&str, JsonValue)>) -> JsonValue {
    JsonValue::Object(entries.into_iter().map(|(k, v)| (k.to_string(), v)).collect())
}

fn event(id: &str, headers: JsonValue, body: JsonValue) -> Envelope {
    Envelope {
        id: id.to_string(),
        subject: "fabric.events.test".to_string(),
        ts_ms: 0,
        headers,
        body,
    }
}

fn plain(id: &str) -> Envelope {
    event(id, obj(vec![]), obj(vec![]))
}

fn flagged(id: &str, on: bool) -> Envelope {
    event(id, obj(vec![("error", JsonValue::Bool(on))]), obj(vec![]))
}

fn policy_headers(verified: bool, allowed: bool) -> JsonValue {
    obj(vec![
        ("identity", obj(vec![("verified", JsonValue::Bool(verified))])),
        ("policy", obj(vec![("allowed", JsonValue::Bool(allowed))])),
    ])
}

fn alert(s: &str) -> ReflexAction {
    ReflexAction::Alert(s.to_string())
}

fn halt(s: &str) -> ReflexAction {
    ReflexAction::Halt(s.to_string())
}

/// A reflex whose hooks always fail. The step functions describe it to the
/// verifier; they are never called at run time.
struct Failing;

impl View for Failing {
    type V = ();

    fn view(&self) {}
}

impl Reflex for Failing {
    fn spec_name(&self) -> Seq<char> {
        Seq::empty()
    }

    fn event_step(state: (), _evt: Envelope, _now_ms: u64) -> ((), Result<ActionView, ErrorView>) {
        (state, Err(ErrorView::Internal(Seq::empty())))
    }

    fn tick_step(state: (), _now_ms: u64) -> ((), Result<ActionView, ErrorView>) {
        (state, Err(ErrorView::Internal(Seq::empty())))
    }

    fn name(&self) -> &'static str {
        "failing"
    }

    fn on_event(&mut self, _evt: &Envelope, _now_ms: u64) -> Result<ReflexAction, ReflexError> {
        Err(ReflexError::Internal("broken".to_string()))
    }

    fn on_tick(&mut self, _now_ms: u64) -> Result<ReflexAction, ReflexError> {
        Err(ReflexError::Internal("tick broken".to_string()))
    }
}

/// A registry entry that is either a built-in reflex or a failing one. Its step
/// functions are never called at run time.
enum Mixed {
    Builtin(BuiltinReflex),
    Failing(Failing),
}

impl View for Mixed {
    type V = ();

    fn view(&self) {}
}

impl Reflex for Mixed {
    fn spec_name(&self) -> Seq<char> {
        Seq::empty()
    }

    fn event_step(state: (), _evt: Envelope, _now_ms: u64) -> ((), Result<ActionView, ErrorView>) {
        (state, Ok(ActionView::Continue))
    }

    fn tick_step(state: (), _now_ms: u64) -> ((), Result<ActionView, ErrorView>) {
        (state, Ok(ActionView::Continue))
    }

    fn name(&self) -> &'static str {
        match self {
            Mixed::Builtin(r) => r.name(),
            Mixed::Failing(r) => r.name(),
        }
    }

    fn on_event(&mut self, evt: &Envelope, now_ms: u64) -> Result<ReflexAction, ReflexError> {
        match self {
            Mixed::Builtin(r) => r.on_event(evt, now_ms),
            Mixed::Failing(r) => r.on_event(evt, now_ms),
        }
    }

    fn on_tick(&mut self, now_ms: u64) -> Result<ReflexAction, ReflexError> {
        match self {
            Mixed::Builtin(r) => r.on_tick(now_ms),
            Mixed::Failing(r) => r.on_tick(now_ms),
        }
    }
}

fn publishes(ds: &[Dispatch]) -> Vec<(ControlKind, String, String, String)> {
    ds.iter()
        .filter_map(|d| match d {
            Dispatch::Publish(m) => {
                Some((m.kind, m.reflex.clone(), m.reason.clone(), m.source_event.clone()))
            }
            _ => None,
        })
        .collect()
}

#[test]
fn rate_limit_exactly_max_within_window_passes() {
    let mut r = RateLimitReflex::new(1000, 3);
    for (i, t) in [0u64, 100, 200].iter().enumerate() {
        let got = r.on_event(&plain(&format!("e{}", i)), 5_000 + t).unwrap();
        assert_eq!(got, ReflexAction::Continue);
    }
    let got = r.on_event(&plain("e3"), 5_900).unwrap();
    assert_eq!(got, alert("RateLimitReflex: 4 events in 1s (limit 3)"));
}

#[test]
fn rate_limit_keeps_events_exactly_one_window_old() {
    let mut r = RateLimitReflex::new(1000, 1);
    assert_eq!(r.on_event(&plain("a"), 10_000).unwrap(), ReflexAction::Continue);
    assert_eq!(
        r.on_event(&plain("b"), 11_000).unwrap(),
        alert("RateLimitReflex: 2 events in 1s (limit 1)")
    );
}

#[test]
fn rate_limit_spaced_events_never_alert() {
    let mut r = RateLimitReflex::new(1000, 2);
    for i in 0..4u64 {
        let got = r.on_event(&plain("s"), 20_000 + i * 1001).unwrap();
        assert_eq!(got, ReflexAction::Continue);
    }
}

#[test]
fn rate_limit_window_expiry_resets_count() {
    let mut r = RateLimitReflex::new(500, 2);
    assert_eq!(r.on_event(&plain("a"), 0).unwrap(), ReflexAction::Continue);
    assert_eq!(r.on_event(&plain("b"), 10).unwrap(), ReflexAction::Continue);
    assert_eq!(
        r.on_event(&plain("c"), 20).unwrap(),
        alert("RateLimitReflex: 3 events in 500ms (limit 2)")
    );
    assert_eq!(r.on_event(&plain("d"), 600).unwrap(), ReflexAction::Continue);
}

#[test]
fn rate_limit_zero_limit_alerts_on_first() {
    let mut r = RateLimitReflex::new(1000, 0);
    assert_eq!(
        r.on_event(&plain("a"), 7).unwrap(),
        alert("RateLimitReflex: 1 events in 1s (limit 0)")
    );
}

#[test]
fn rate_limit_tick_is_silent() {
    let mut r = RateLimitReflex::new(1000, 0);
    assert_eq!(r.on_tick(99).unwrap(), ReflexAction::Continue);
    assert_eq!(r.name(), "rate_limit");
}

#[test]
fn panic_loop_halts_on_mth_flag() {
    let mut r = PanicLoopReflex::new("/error", 5, 3);
    assert_eq!(r.on_event(&flagged("a", true), 0).unwrap(), ReflexAction::Continue);
    assert_eq!(r.on_event(&flagged("b", true), 0).unwrap(), ReflexAction::Continue);
    assert_eq!(
        r.on_event(&flagged("c", true), 0).unwrap(),
        halt("PanicLoopReflex: 3 error flags in last 5 events (pointer: /error)")
    );
}

#[test]
fn panic_loop_fewer_than_m_continue() {
    let mut r = PanicLoopReflex::new("/error", 3, 2);
    let flags = [true, false, false, true, false, false, true];
    for (i, f) in flags.iter().enumerate() {
        let got = r.on_event(&flagged(&format!("e{}", i), *f), 0).unwrap();
        assert_eq!(got, ReflexAction::Continue);
    }
}

#[test]
fn panic_loop_window_evicts_old_flags() {
    let mut r = PanicLoopReflex::new("/error", 2, 2);
    assert_eq!(r.on_event(&flagged("a", true), 0).unwrap(), ReflexAction::Continue);
    assert_eq!(r.on_event(&flagged("b", false), 0).unwrap(), ReflexAction::Continue);
    assert_eq!(r.on_event(&flagged("c", true), 0).unwrap(), ReflexAction::Continue);
    assert_eq!(
        r.on_event(&flagged("d", true), 0).unwrap(),
        halt("PanicLoopReflex: 2 error flags in last 2 events (pointer: /error)")
    );
}

#[test]
fn panic_loop_missing_pointer_reads_as_false() {
    let mut missing = PanicLoopReflex::new("/error/fatal", 3, 1);
    let mut explicit = PanicLoopReflex::new("/error/fatal", 3, 1);
    let e1 = plain("m");
    let e2 = event(
        "x",
        obj(vec![("error", obj(vec![("fatal", JsonValue::Bool(false))]))]),
        obj(vec![("error", obj(vec![("fatal", JsonValue::Bool(false))]))]),
    );
    assert_eq!(missing.on_event(&e1, 0).unwrap(), ReflexAction::Continue);
    assert_eq!(explicit.on_event(&e2, 0).unwrap(), ReflexAction::Continue);
}

#[test]
fn panic_loop_reads_body_and_nested_pointer() {
    let mut r = PanicLoopReflex::new("/error/fatal", 3, 1);
    let e = event(
        "b",
        obj(vec![]),
        obj(vec![("error", obj(vec![("fatal", JsonValue::Bool(true))]))]),
    );
    assert_eq!(
        r.on_event(&e, 0).unwrap(),
        halt("PanicLoopReflex: 1 error flags in last 3 events (pointer: /error/fatal)")
    );
}

#[test]
fn panic_loop_non_boolean_is_false() {
    let mut r = PanicLoopReflex::new("/error", 3, 1);
    let e = event("n", obj(vec![("error", JsonValue::Str("true".to_string()))]), obj(vec![]));
    assert_eq!(r.on_event(&e, 0).unwrap(), ReflexAction::Continue);
    assert_eq!(r.name(), "panic_loop");
}

#[test]
fn policy_guard_short_circuits_on_first_false() {
    let mut g = PolicyGuardReflex::new(vec!["/identity/verified", "/policy/allowed"]);
    let e = event("p", policy_headers(false, true), obj(vec![]));
    assert_eq!(
        g.on_event(&e, 0).unwrap(),
        halt("PolicyGuardReflex: required header /identity/verified != true")
    );
}

#[test]
fn policy_guard_names_second_when_first_holds() {
    let mut g = PolicyGuardReflex::new(vec!["/identity/verified", "/policy/allowed"]);
    let e = event("p", policy_headers(true, false), obj(vec![]));
    assert_eq!(
        g.on_event(&e, 0).unwrap(),
        halt("PolicyGuardReflex: required header /policy/allowed != true")
    );
}

#[test]
fn policy_guard_all_true_continues() {
    let mut g = PolicyGuardReflex::new(vec!["/identity/verified", "/policy/allowed"]);
    let e = event("p", policy_headers(true, true), obj(vec![]));
    assert_eq!(g.on_event(&e, 0).unwrap(), ReflexAction::Continue);
    assert_eq!(g.name(), "policy_guard");
}

#[test]
fn policy_guard_ignores_body() {
    let mut g = PolicyGuardReflex::new(vec!["/ok"]);
    let e = event("p", obj(vec![]), obj(vec![("ok", JsonValue::Bool(true))]));
    assert_eq!(g.on_event(&e, 0).unwrap(), halt("PolicyGuardReflex: required header /ok != true"));
}

#[test]
fn policy_guard_empty_list_continues() {
    let mut g = PolicyGuardReflex::new(vec![]);
    assert_eq!(g.on_event(&plain("p"), 0).unwrap(), ReflexAction::Continue);
}

#[test]
fn supervisor_isolates_failing_reflex() {
    let mut sup = ReflexSupervisor::new(ReflexSubjects::default())
        .with_reflex(Mixed::Failing(Failing))
        .with_reflex(Mixed::Builtin(BuiltinReflex::RateLimit(RateLimitReflex::new(1000, 1))));
    let first = sup.handle_event_at(&plain("e1"), 100);
    assert_eq!(first.len(), 1);
    match &first[0] {
        Dispatch::Fault { reflex, error } => {
            assert_eq!(reflex, "failing");
            assert_eq!(error.message(), "internal error: broken");
        }
        _ => panic!("expected a fault"),
    }
    let second = sup.handle_event_at(&plain("e2"), 200);
    assert_eq!(second.len(), 2);
    assert!(matches!(second[0], Dispatch::Fault { .. }));
    assert_eq!(
        publishes(&second),
        vec![(
            ControlKind::Alert,
            "rate_limit".to_string(),
            "RateLimitReflex: 2 events in 1s (limit 1)".to_string(),
            "e2".to_string()
        )]
    );
}

#[test]
fn supervisor_tick_reports_only_failures() {
    let mut sup = ReflexSupervisor::new(ReflexSubjects::default())
        .with_reflex(Mixed::Builtin(BuiltinReflex::RateLimit(RateLimitReflex::new(1000, 0))))
        .with_reflex(Mixed::Failing(Failing));
    let out = sup.handle_tick_at(5);
    assert_eq!(out.len(), 1);
    match &out[0] {
        Dispatch::Fault { reflex, error } => {
            assert_eq!(reflex, "failing");
            assert_eq!(error.message(), "internal error: tick broken");
        }
        _ => panic!("expected a fault"),
    }
    assert!(sup.handle_tick().len() == 1);
}

#[test]
fn supervisor_publishes_in_registration_order() {
    let mut sup = ReflexSupervisor::new(ReflexSubjects::default())
        .with_reflex(BuiltinReflex::RateLimit(RateLimitReflex::new(1000, 0)))
        .with_reflex(BuiltinReflex::PanicLoop(PanicLoopReflex::new("/error", 1, 1)))
        .with_reflex(BuiltinReflex::PolicyGuard(PolicyGuardReflex::new(vec!["/policy/allowed"])));
    let out = sup.handle_event_at(&flagged("evt-9", true), 0);
    let names: Vec<String> = publishes(&out).into_iter().map(|p| p.1).collect();
    assert_eq!(names, vec!["rate_limit", "panic_loop", "policy_guard"]);
    let kinds: Vec<ControlKind> = publishes(&out).into_iter().map(|p| p.0).collect();
    assert_eq!(kinds, vec![ControlKind::Alert, ControlKind::Halt, ControlKind::Halt]);
}

#[test]
fn supervisor_end_to_end_rate_limit() {
    let mut sup = ReflexSupervisor::new(ReflexSubjects::default())
        .with_reflex(RateLimitReflex::new(1000, 2));
    let mut all = Vec::new();
    for (i, t) in [0u64, 100, 200].iter().enumerate() {
        let id = format!("evt-{}", i + 1);
        all.extend(sup.handle_event_at(&plain(&id), 1_000_000 + t));
    }
    let pubs = publishes(&all);
    assert_eq!(pubs.len(), 1);
    assert_eq!(pubs[0].0, ControlKind::Alert);
    assert_eq!(pubs[0].1, "rate_limit");
    assert_eq!(pubs[0].3, "evt-3");
    let env = control_envelope(pubs[0].0.word(), &pubs[0].1, &pubs[0].2, &plain("evt-3"));
    assert_eq!(env.subject, "reflex.alert");
    assert!(env.id.starts_with("reflex:alert:"));
}

#[test]
fn supervisor_live_clock_pass() {
    let mut sup = ReflexSupervisor::new(ReflexSubjects::default())
        .with_reflex(RateLimitReflex::new(60_000, 1));
    assert!(sup.handle_event(&plain("a")).is_empty());
    assert_eq!(publishes(&sup.handle_event(&plain("b"))).len(), 1);
}

#[test]
fn supervisor_builders() {
    let sup: ReflexSupervisor<RateLimitReflex> = ReflexSupervisor::new(ReflexSubjects::default());
    assert_eq!(sup.tick_interval_ms, 500);
    assert_eq!(sup.reflexes.len(), 0);
    let sup = sup.with_tick_interval(250);
    assert_eq!(sup.tick_interval_ms, 250);
    assert_eq!(sup.subjects.all_events_subject, "fabric.events.*");
    assert_eq!(sup.subjects.control_subject, "fabric.control");
}

#[test]
fn control_envelope_fields() {
    let src = plain("evt-42");
    let env = control_envelope_at("halt", "policy_guard", "bad", &src.id, 1234, "ff0a");
    assert_eq!(env.id, "reflex:halt:ff0a");
    assert_eq!(env.subject, "reflex.halt");
    assert_eq!(env.ts_ms, 1234);
    match &env.headers {
        JsonValue::Object(entries) => {
            assert_eq!(entries.len(), 3);
            let get = |k: &str| {
                entries.iter().find(|(key, _)| key == k).map(|(_, v)| match v {
                    JsonValue::Str(s) => s.clone(),
                    _ => String::new(),
                })
            };
            assert_eq!(get("reflex").as_deref(), Some("policy_guard"));
            assert_eq!(get("reason").as_deref(), Some("bad"));
            assert_eq!(get("source_event").as_deref(), Some("evt-42"));
        }
        _ => panic!("headers must be an object"),
    }
    assert!(matches!(&env.body, JsonValue::Object(e) if e.is_empty()));
}

#[test]
fn uuid_is_lower_hex() {
    let u = uuid();
    assert!(!u.is_empty());
    assert!(u.chars().all(|c| c.is_ascii_hexdigit() && !c.is_ascii_uppercase()));
    assert!(u.len() > 10);
}

#[test]
fn pointer_parsing() {
    assert_eq!(parse_pointer("/identity/verified"), vec!["identity", "verified"]);
    assert_eq!(parse_pointer("//a/b"), vec!["a", "b"]);
    assert_eq!(parse_pointer("a//b"), vec!["a", "", "b"]);
    assert_eq!(parse_pointer(""), vec![""]);
    assert_eq!(parse_pointer("/"), vec![""]);
}

#[test]
fn flag_lookup_follows_objects_only() {
    let v = obj(vec![
        ("a", obj(vec![("b", JsonValue::Bool(true))])),
        ("arr", JsonValue::Array(vec![JsonValue::Bool(true)])),
        ("n", JsonValue::Number("1".to_string())),
        ("z", JsonValue::Null),
    ]);
    assert!(flag_at_path(&v, &parse_pointer("/a/b")));
    assert!(!flag_at_path(&v, &parse_pointer("/a")));
    assert!(!flag_at_path(&v, &parse_pointer("/arr/0")));
    assert!(!flag_at_path(&v, &parse_pointer("/n")));
    assert!(!flag_at_path(&v, &parse_pointer("/z/q")));
    assert!(flag_at_path(&JsonValue::Bool(true), &vec![]));
}

#[test]
fn topic_matching() {
    assert!(openi_core_reflex::bus::matches("topic://ddl/discovered/*", "topic://ddl/discovered/pg"));
    assert!(openi_core_reflex::bus::matches("a/*", "a"));
    assert!(!openi_core_reflex::bus::matches("a/*", "b/x"));
    assert!(openi_core_reflex::bus::matches("fabric.control", "fabric.control"));
    assert!(!openi_core_reflex::bus::matches("fabric.control", "fabric.control2"));
    assert!(!openi_core_reflex::bus::matches("fabric.events.*", "fabric.events.mock"));
    assert!(openi_core_reflex::bus::matches("/*", "anything"));
}

#[test]
fn error_messages() {
    assert_eq!(ReflexError::Subscription("x".to_string()).message(), "subscription error: x");
    assert_eq!(ReflexError::Bus("y".to_string()).message(), "bus publish error: y");
}

#[test]
fn agent_and_content_type() {
    let a = Agent::new("scout", "0.1.0");
    assert_eq!(a.name, "scout");
    assert_eq!(a.version, "0.1.0");
    assert_eq!(a.source_address(), "agent://local/scout");
    let c = ContentType::new("application/json");
    assert_eq!(c.as_str(), "application/json");
    assert_eq!(c, ContentType("application/json".to_string()));
}

#[test]
fn rate_limit_end_to_end_alert_text() {
    let mut r = RateLimitReflex::new(1000, 2);
    assert_eq!(r.on_event(&plain("e1"), 0).unwrap(), ReflexAction::Continue);
    assert_eq!(r.on_event(&plain("e2"), 100).unwrap(), ReflexAction::Continue);
    assert_eq!(
        r.on_event(&plain("e3"), 200).unwrap(),
        alert("RateLimitReflex: 3 events in 1s (limit 2)")
    );
}

#[test]
fn rate_limit_fractional_window_text() {
    let mut r = RateLimitReflex::new(1500, 0);
    assert_eq!(
        r.on_event(&plain("a"), 0).unwrap(),
        alert("RateLimitReflex: 1 events in 1.5s (limit 0)")
    );
}

#[test]
fn duration_text_matches_debug_form() {
    for ms in [0u64, 1, 250, 999, 1000, 1001, 1010, 1100, 1250, 1500, 61_000, 123_456] {
        assert_eq!(duration_text(ms), format!("{:?}", std::time::Duration::from_millis(ms)));
    }
    assert_eq!(duration_text(0), "0ns");
    assert_eq!(duration_text(1001), "1.001s");
}

#[test]
fn clock_millis() {
    assert_eq!(millis_of_nanos(0), 0);
    assert_eq!(millis_of_nanos(1_999_999), 1);
    assert_eq!(millis_of_nanos(5_000_000_000), 5_000);
    let now = epoch_ms();
    let sys = std::time::SystemTime::now()
        .duration_since(std::time::UNIX_EPOCH)
        .unwrap()
        .as_millis() as u64;
    assert!(now <= sys && sys - now < 60_000);
}

#[test]
fn panic_loop_flag_false_on_one_side_only() {
    let r = PanicLoopReflex::new("/error", 3, 1);
    let missing = plain("m");
    let header_false = event("h", obj(vec![("error", JsonValue::Bool(false))]), obj(vec![]));
    let body_false = event("b", obj(vec![]), obj(vec![("error", JsonValue::Bool(false))]));
    assert!(!r.extract_flag(&missing));
    assert!(!r.extract_flag(&header_false));
    assert!(!r.extract_flag(&body_false));
    let body_true = event("t", obj(vec![("error", JsonValue::Bool(false))]), obj(vec![("error", JsonValue::Bool(true))]));
    assert!(r.extract_flag(&body_true));
}

#[test]
fn supervisor_isolation_over_many_events() {
    let mut with_failing = ReflexSupervisor::new(ReflexSubjects::default())
        .with_reflex(Mixed::Builtin(BuiltinReflex::RateLimit(RateLimitReflex::new(1000, 2))))
        .with_reflex(Mixed::Failing(Failing))
        .with_reflex(Mixed::Builtin(BuiltinReflex::PolicyGuard(PolicyGuardReflex::new(vec![
            "/policy/allowed",
        ]))));
    let mut without = ReflexSupervisor::new(ReflexSubjects::default())
        .with_reflex(Mixed::Builtin(BuiltinReflex::RateLimit(RateLimitReflex::new(1000, 2))))
        .with_reflex(Mixed::Builtin(BuiltinReflex::PolicyGuard(PolicyGuardReflex::new(vec![
            "/policy/allowed",
        ]))));
    let mut faults = 0;
    for i in 0..6u64 {
        let e = event(&format!("evt-{}", i), policy_headers(true, i % 2 == 0), obj(vec![]));
        let a = with_failing.handle_event_at(&e, i * 100);
        let b = without.handle_event_at(&e, i * 100);
        faults += a.iter().filter(|d| matches!(d, Dispatch::Fault { .. })).count();
        assert_eq!(publishes(&a), publishes(&b));
    }
    assert_eq!(faults, 6);
}

#[test]
fn values_clone() {
    let e = event("c", policy_headers(true, false), obj(vec![("n", JsonValue::Number("3".to_string()))]));
    let copy = e.clone();
    assert_eq!(copy.id, "c");
    let mut g = PolicyGuardReflex::new(vec!["/identity/verified", "/policy/allowed"]);
    assert_eq!(
        g.on_event(&copy, 0).unwrap(),
        halt("PolicyGuardReflex: required header /policy/allowed != true")
    );
}
