use tegami::application::{Application, Init, Update};
use tegami::environment::{Cycle, Environment, EnvironmentBuilder};
use tegami::ident::Pid;
use tegami::message::{Message, Payload, RequestDependency};
use tegami::poll::{AsyncPollState, POLL_INTERVAL_NANOS};

/// A component that records what it receives and answers by a script.
#[derive(Default)]
struct Probe {
    init: Vec<Message>,
    seen: Vec<Message>,
    /// Ask for this dependency when the registry arrives.
    ask_for: Option<String>,
    /// Stop the run on the first `dependency-lookup`.
    stop_on_lookup: bool,
    /// Answer every poll with `NotReady`.
    busy: bool,
    /// Fail on the message with this identifier.
    fail_on: Option<String>,
}

impl Application for Probe {
    fn init(&mut self) -> Init {
        if self.init.is_empty() {
            Init::NoMessages
        } else {
            Init::Messages(std::mem::take(&mut self.init))
        }
    }

    fn update(&mut self, msg: Message) -> Update {
        self.seen.push(msg.clone());
        if self.fail_on.as_deref() == Some(msg.id.as_str()) {
            return Update::Error(format!("failed on {}", msg.id));
        }
        if msg.id == "async-check" && self.busy {
            return Update::NotReady;
        }
        if msg.id == "dependencies" {
            if let Some(name) = &self.ask_for {
                return Update::Messages(vec![Message::new(
                    Pid::env(),
                    "request-dependency",
                    Payload::RequestDependency(RequestDependency { id: name.clone() }),
                )]);
            }
        }
        if msg.id == "dependency-lookup" && self.stop_on_lookup {
            return Update::Error("done".to_owned());
        }
        Update::NoMessages
    }
}

fn run(env: &mut Environment<Probe, Probe>, max_cycles: u64) -> Option<String> {
    for t in 0..max_cycles {
        if let Cycle::Halted(e) = env.cycle(t * 1_000_000) {
            return Some(e);
        }
    }
    None
}

fn with_id<'a>(seen: &'a [Message], id: &str) -> Vec<&'a Message> {
    seen.iter().filter(|m| m.id == id).collect()
}

#[test]
fn main_component_resolves_logger() {
    let main = Probe { ask_for: Some("logger".to_owned()), stop_on_lookup: true, ..Probe::default() };
    let mut env = EnvironmentBuilder::new(main).dep("logger", Probe::default()).build();
    env.boot();
    assert_eq!(run(&mut env, 100), Some("done".to_owned()));
    let main = env.into_application();
    let lookups = with_id(&main.seen, "dependency-lookup");
    assert_eq!(lookups.len(), 1);
    assert_eq!(lookups[0].sender, Pid::env());
    assert_eq!(lookups[0].recipient, Pid::app());
    match &lookups[0].data {
        Some(Payload::DependencyLookup(l)) => {
            assert_eq!(l.id, "logger");
            assert_eq!(l.pid, Some(Pid(3)));
        }
        _ => panic!("lookup without its payload"),
    }
}

#[test]
fn unknown_dependency_resolves_to_nothing() {
    let main = Probe { ask_for: Some("cache".to_owned()), stop_on_lookup: true, ..Probe::default() };
    let mut env = EnvironmentBuilder::new(main).dep("logger", Probe::default()).build();
    env.boot();
    assert_eq!(run(&mut env, 100), Some("done".to_owned()));
    let main = env.into_application();
    let lookups = with_id(&main.seen, "dependency-lookup");
    assert_eq!(lookups.len(), 1);
    match &lookups[0].data {
        Some(Payload::DependencyLookup(l)) => {
            assert_eq!(l.id, "cache");
            assert_eq!(l.pid, None);
        }
        _ => panic!("lookup without its payload"),
    }
}

#[test]
fn addresses_follow_registration_order() {
    let mut env = EnvironmentBuilder::new(Probe::default())
        .dep("zeta", Probe::default())
        .dep("alpha", Probe::default())
        .dep("mid", Probe::default())
        .build();
    let m = env.registry_message();
    assert_eq!(m.id, "dependencies");
    assert_eq!(m.recipient, Pid::app());
    match &m.data {
        Some(Payload::Dependencies(pairs)) => assert_eq!(
            pairs.clone(),
            vec![
                ("zeta".to_owned(), Pid(3)),
                ("alpha".to_owned(), Pid(4)),
                ("mid".to_owned(), Pid(5)),
            ]
        ),
        _ => panic!("registry without its payload"),
    }
    assert_eq!(env.lookup(&"alpha".to_owned()), Some(Pid(4)));
    assert_eq!(env.lookup(&"beta".to_owned()), None);
    env.boot();
    assert_eq!(env.pending(), 1);
}

#[test]
fn request_dependency_gets_exactly_one_reply() {
    let env: Environment<Probe, Probe> =
        EnvironmentBuilder::new(Probe::default()).dep("logger", Probe::default()).build();
    let mut ask = Message::new(
        Pid::env(),
        "request-dependency",
        Payload::RequestDependency(RequestDependency { id: "logger".to_owned() }),
    );
    ask.sender = Pid(3);
    let out = env.respond(&ask);
    assert_eq!(out.len(), 1);
    assert_eq!(out[0].id, "dependency-lookup");
    assert_eq!(out[0].recipient, Pid(3));
    let other = Message::empty(Pid::env(), "ping");
    assert!(env.respond(&other).is_empty());
    let malformed = Message::new(Pid::env(), "request-dependency", Payload::Bytes(vec![1, 2]));
    assert!(env.respond(&malformed).is_empty());
}

#[test]
fn self_addressed_init_messages_return_to_their_author() {
    let dep = Probe { init: vec![Message::empty(Pid::me(), "wake")], ..Probe::default() };
    let main = Probe { init: vec![Message::empty(Pid::me(), "hello")], ..Probe::default() };
    let mut env = EnvironmentBuilder::new(main).dep("worker", dep).build();
    env.boot();
    assert_eq!(env.pending(), 3);
    run(&mut env, 20);
    let main = env.into_application();
    let hello = with_id(&main.seen, "hello");
    assert_eq!(hello.len(), 1);
    assert_eq!(hello[0].sender, Pid::app());
    assert_eq!(hello[0].recipient, Pid::app());
}

#[test]
fn not_ready_holds_off_polls_for_the_interval() {
    let s = AsyncPollState::Waiting { last_ping: 1_000, wait: POLL_INTERVAL_NANOS };
    assert_eq!(s.step(1_000 + POLL_INTERVAL_NANOS), (s, false));
    assert_eq!(s.step(1_001 + POLL_INTERVAL_NANOS), (AsyncPollState::NotPinged, false));
    assert_eq!(s.step(0), (s, false));
    assert_eq!(AsyncPollState::NotPinged.step(0), (AsyncPollState::WasPinged, true));
    assert_eq!(AsyncPollState::WasPinged.step(u64::MAX), (AsyncPollState::WasPinged, false));
}

#[test]
fn busy_component_is_polled_once_per_interval() {
    let main = Probe { busy: true, ..Probe::default() };
    let mut env: Environment<Probe, Probe> = EnvironmentBuilder::new(main).build();
    env.boot();
    // 100 cycles, one millisecond apart: after each `NotReady` the main
    // component waits more than ten cycles before it is polled again.
    run(&mut env, 100);
    assert!(env.halted().is_none());
    let main = env.into_application();
    let polls = with_id(&main.seen, "async-check").len();
    assert!((6..=9).contains(&polls), "polled {} times", polls);
}

#[test]
fn idle_component_is_polled_again_next_cycle() {
    let mut env: Environment<Probe, Probe> = EnvironmentBuilder::new(Probe::default()).build();
    env.boot();
    run(&mut env, 100);
    let main = env.into_application();
    let polls = with_id(&main.seen, "async-check").len();
    assert!(polls >= 30, "polled {} times", polls);
}

#[test]
fn error_halts_the_run() {
    let main = Probe { fail_on: Some("dependencies".to_owned()), ..Probe::default() };
    let dep = Probe {
        init: vec![Message::empty(Pid::app(), "late")],
        ..Probe::default()
    };
    let mut env = EnvironmentBuilder::new(main).dep("d", dep).build();
    env.boot();
    let left_before = env.pending();
    let cause = run(&mut env, 50);
    assert_eq!(cause, Some("failed on dependencies".to_owned()));
    assert_eq!(env.halted(), Some("failed on dependencies".to_owned()));
    // Nothing more is delivered once the run has stopped.
    let left = env.pending();
    assert!(matches!(env.cycle(999_000_000), Cycle::Halted(_)));
    assert_eq!(env.pending(), left);
    assert!(left + 1 >= left_before);
    let main = env.into_application();
    assert!(with_id(&main.seen, "late").is_empty());
}

#[test]
fn fold_routes_replies_and_rearms_polls() {
    let mut env: Environment<Probe, Probe> =
        EnvironmentBuilder::new(Probe::default()).dep("d", Probe::default()).build();
    let reply = Message::empty(Pid::me(), "pong");
    env.fold(Pid(3), Pid::app(), false, Update::Messages(vec![reply]), 0);
    assert_eq!(env.pending(), 1);
    env.fold(Pid(3), Pid::app(), true, Update::NotReady, 5);
    env.fold(Pid(3), Pid::app(), true, Update::Error("x".to_owned()), 6);
    assert_eq!(env.halted(), Some("x".to_owned()));
    assert_eq!(env.pending(), 1);
}
