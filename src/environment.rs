//! The orchestrator: it owns the main component and its dependencies, queues
//! their messages, delivers them in order, polls components for completed
//! background work, and answers dependency lookups itself.
use vstd::prelude::*;

use std::collections::VecDeque;

use crate::application::{Application, Init, Update};
use crate::ident::{dep_pid, Id, Pid, APP_PID, ENV_PID, FIRST_DEP_PID, ME_PID};
use crate::message::{
    DependencyLookup, RequestDependency, Message, Payload, ASYNC_CHECK, DEPENDENCIES, DEPENDENCY_LOOKUP,
    REQUEST_DEPENDENCY,
};
use crate::poll::{after_dispatch, poll_step, AsyncPollState, POLL_INTERVAL_NANOS};

verus! {

/// Runs a main component of type `A` together with dependencies of type `D`,
/// all communicating through addressed messages.
pub struct Environment<A, D> {
    application: A,
    /// The registry: dependency `k` is named `ids[k]` and lives at `dep_pid(k)`.
    ids: Vec<Id>,
    dependencies: Vec<D>,
    mailbox: VecDeque<Message>,
    /// One tracker per address: slot 0 the orchestrator, slot 1 the main
    /// component, slot `2 + k` dependency `k`.
    polls: Vec<AsyncPollState>,
    /// The cause of the failure that ended the run, once it has ended.
    halted: Option<String>,
}

/// Collects the main component and the dependencies of an `Environment`.
pub struct EnvironmentBuilder<A, D> {
    application: A,
    ids: Vec<Id>,
    dependencies: Vec<D>,
}

/// What one cycle of the run loop did.
pub enum Cycle {
    /// The mailbox was empty: nothing was delivered.
    Idle,
    /// One message was taken from the mailbox and handled.
    Delivered,
    /// The run has ended with this cause.
    Halted(String),
}

/// The address whose tracker sits in `slot`.
pub open spec fn slot_pid(slot: int) -> Pid {
    if slot < 2 {
        Pid(slot as u64)
    } else {
        Pid((slot + 1) as u64)
    }
}

/// The tracker slot of address `p` when `n` dependencies are registered.
pub open spec fn pid_slot(p: Pid, n: int) -> Option<int> {
    if p.0 == ENV_PID {
        Some(0)
    } else if p.0 == APP_PID {
        Some(1)
    } else if FIRST_DEP_PID <= p.0 < FIRST_DEP_PID + n {
        Some(p.0 - 1)
    } else {
        None
    }
}

/// A message as queued after `from` emitted it while handling a message from
/// `reply_to`: the sender is `from`, and the "reply to sender" sentinel
/// becomes `reply_to`.
pub open spec fn routed(m: Message, from: Pid, reply_to: Pid) -> Message {
    Message {
        id: m.id,
        sender: from,
        recipient: if m.recipient == Pid(ME_PID) {
            reply_to
        } else {
            m.recipient
        },
        data: m.data,
    }
}

/// Every message of `msgs` routed as `routed` says, in order.
pub open spec fn routed_all(msgs: Seq<Message>, from: Pid, reply_to: Pid) -> Seq<Message> {
    msgs.map_values(|m: Message| routed(m, from, reply_to))
}

/// The address registered under `name`; the latest registration wins.
pub open spec fn lookup(names: Seq<Seq<char>>, name: Seq<char>) -> Option<Pid>
    decreases names.len(),
{
    if names.len() == 0 {
        None
    } else if names.last() == name {
        Some(dep_pid(names.len() - 1))
    } else {
        lookup(names.drop_last(), name)
    }
}

/// The addresses polled this cycle, in slot order.
pub open spec fn due(polls: Seq<AsyncPollState>, now: u64) -> Seq<Pid>
    decreases polls.len(),
{
    if polls.len() == 0 {
        seq![]
    } else if poll_step(polls.last(), now).1 {
        due(polls.drop_last(), now).push(slot_pid(polls.len() - 1))
    } else {
        due(polls.drop_last(), now)
    }
}

/// Every tracker advanced by one cycle.
pub open spec fn stepped(polls: Seq<AsyncPollState>, now: u64) -> Seq<AsyncPollState> {
    polls.map_values(|s: AsyncPollState| poll_step(s, now).0)
}

/// No message of `q` is sent from or addressed to the "reply to sender"
/// sentinel.
pub open spec fn resolved(q: Seq<Message>) -> bool {
    forall|i: int|
        0 <= i < q.len() ==> (#[trigger] q[i]).recipient != Pid(ME_PID) && q[i].sender != Pid(
            ME_PID,
        )
}

/// `out` is the orchestrator's answer to `msg`: one `dependency-lookup` back
/// to the sender for a well-formed `request-dependency`, nothing otherwise.
pub open spec fn is_answer(names: Seq<Seq<char>>, msg: Message, out: Seq<Message>) -> bool {
    match msg.data {
        Some(Payload::RequestDependency(rq)) if msg.id@ == REQUEST_DEPENDENCY@ => {
            &&& out.len() == 1
            &&& out[0].id@ == DEPENDENCY_LOOKUP@
            &&& out[0].recipient == msg.sender
            &&& match out[0].data {
                Some(Payload::DependencyLookup(l)) => l.id@ == rq.id@ && l.pid == lookup(
                    names,
                    rq.id@,
                ),
                _ => false,
            }
        },
        _ => out.len() == 0,
    }
}

/// `m` is the registry message that the orchestrator sends at startup.
pub open spec fn is_registry_message(names: Seq<Seq<char>>, m: Message) -> bool {
    &&& m.id@ == DEPENDENCIES@
    &&& m.recipient == Pid(APP_PID)
    &&& match m.data {
        Some(Payload::Dependencies(pairs)) => {
            &&& pairs@.len() == names.len()
            &&& forall|k: int|
                0 <= k < names.len() ==> (#[trigger] pairs@[k]).0@ == names[k] && pairs@[k].1
                    == dep_pid(k)
        },
        _ => false,
    }
}

/// Dependency addresses follow registration order and depend on the position
/// alone: the dependency registered `k`-th lives at `FIRST_DEP_PID + k`,
/// whatever the names, so earlier registrations get smaller addresses.
pub proof fn lemma_addresses_follow_registration(names: Seq<Seq<char>>, i: int, j: int)
    requires
        0 <= i < j < names.len(),
        names.len() + FIRST_DEP_PID <= u64::MAX,
    ensures
        dep_pid(i).0 == FIRST_DEP_PID + i,
        dep_pid(i).0 < dep_pid(j).0,
        dep_pid(i).0 != ENV_PID && dep_pid(i).0 != APP_PID && dep_pid(i).0 != ME_PID,
{
}

/// A name registered at position `i` and not again later resolves to the
/// address of position `i`.
pub proof fn lemma_lookup_registered(names: Seq<Seq<char>>, name: Seq<char>, i: int)
    requires
        0 <= i < names.len(),
        names[i] == name,
        forall|j: int| i < j < names.len() ==> names[j] != name,
    ensures
        lookup(names, name) == Some(dep_pid(i)),
    decreases names.len(),
{
    if i < names.len() - 1 {
        assert(names.last() != name);
        lemma_lookup_registered(names.drop_last(), name, i);
    }
}

/// A name never registered resolves to nothing.
pub proof fn lemma_lookup_unregistered(names: Seq<Seq<char>>, name: Seq<char>)
    requires
        forall|j: int| 0 <= j < names.len() ==> names[j] != name,
    ensures
        lookup(names, name) is None,
    decreases names.len(),
{
    if names.len() > 0 {
        assert(names.last() == names[names.len() - 1]);
        lemma_lookup_unregistered(names.drop_last(), name);
    }
}

/// The lookup result that a message carries, if it carries one.
pub open spec fn lookup_in(m: Message) -> Option<DependencyLookup> {
    match m.data {
        Some(Payload::DependencyLookup(l)) => Some(l),
        _ => None,
    }
}

/// An answer to a `request-dependency` is exactly one `dependency-lookup`
/// back to the requester, naming the identifier asked for; its address is
/// the registered one when the identifier was registered once, and absent
/// when it never was.
pub proof fn lemma_request_gets_one_lookup(
    names: Seq<Seq<char>>,
    msg: Message,
    out: Seq<Message>,
    rq: RequestDependency,
)
    requires
        msg.id@ == REQUEST_DEPENDENCY@,
        msg.data == Some(Payload::RequestDependency(rq)),
        is_answer(names, msg, out),
    ensures
        out.len() == 1,
        out[0].id@ == DEPENDENCY_LOOKUP@,
        out[0].recipient == msg.sender,
        lookup_in(out[0]) is Some,
        lookup_in(out[0])->0.id@ == rq.id@,
        forall|i: int|
            0 <= i < names.len() && names[i] == rq.id@ && (forall|j: int|
                0 <= j < names.len() && j != i ==> names[j] != rq.id@) ==> lookup_in(out[0])->0.pid
                == Some(dep_pid(i)),
        (forall|j: int| 0 <= j < names.len() ==> names[j] != rq.id@) ==> lookup_in(out[0])->0.pid
            is None,
{
    assert forall|i: int|
        0 <= i < names.len() && names[i] == rq.id@ && (forall|j: int|
            0 <= j < names.len() && j != i ==> names[j] != rq.id@) implies lookup(names, rq.id@)
        == Some(dep_pid(i)) by {
        lemma_lookup_registered(names, rq.id@, i);
    }
    if forall|j: int| 0 <= j < names.len() ==> names[j] != rq.id@ {
        lemma_lookup_unregistered(names, rq.id@);
    }
}

/// Messages that a component addresses to the "reply to sender" sentinel at
/// startup are queued back to that component, sent by it; the others keep
/// their recipient. The sentinel never survives queueing.
pub proof fn lemma_self_addressed_init_returns(msgs: Seq<Message>, origin: Pid)
    requires
        origin != Pid(ME_PID),
    ensures
        routed_all(msgs, origin, origin).len() == msgs.len(),
        forall|i: int|
            0 <= i < msgs.len() ==> {
                let q = #[trigger] routed_all(msgs, origin, origin)[i];
                &&& q.sender == origin
                &&& q.recipient != Pid(ME_PID)
                &&& msgs[i].recipient == Pid(ME_PID) ==> q.recipient == origin
                &&& msgs[i].recipient != Pid(ME_PID) ==> q.recipient == msgs[i].recipient
                &&& q.id == msgs[i].id && q.data == msgs[i].data
            },
{
}

impl<A, D> EnvironmentBuilder<A, D> {
    pub closed spec fn names(&self) -> Seq<Seq<char>> {
        self.ids@.map_values(|i: Id| i.0@)
    }

    /// The main component.
    pub closed spec fn application(&self) -> A {
        self.application
    }

    /// The dependencies, in registration order.
    pub closed spec fn deps(&self) -> Seq<D> {
        self.dependencies@
    }

    /// One dependency per name, and room for their addresses.
    pub closed spec fn wf(&self) -> bool {
        &&& self.ids.len() == self.dependencies.len()
        &&& self.ids.len() + FIRST_DEP_PID <= u64::MAX
    }

    /// A builder for an `Environment` that runs `app` as its main component.
    pub fn new(app: A) -> (r: Self)
        ensures
            r.wf(),
            r.names() == Seq::<Seq<char>>::empty(),
            r.application() == app,
            r.deps() == Seq::<D>::empty(),
    {
        EnvironmentBuilder { application: app, ids: Vec::new(), dependencies: Vec::new() }
    }

    /// Registers `app` as the next dependency, under `identifier`.
    pub fn dep(self, identifier: &str, app: D) -> (r: Self)
        requires
            self.wf(),
            self.names().len() + FIRST_DEP_PID < u64::MAX,
        ensures
            r.wf(),
            r.names() == self.names().push(identifier@),
            r.application() == self.application(),
            r.deps() == self.deps().push(app),
    {
        let mut b = self;
        b.ids.push(Id::new(identifier.to_owned()));
        b.dependencies.push(app);
        proof {
            assert(b.ids@.map_values(|i: Id| i.0@) =~= self.names().push(identifier@));
        }
        b
    }

    /// The `Environment` with everything registered so far.
    pub fn build(self) -> (r: Environment<A, D>)
        requires
            self.wf(),
        ensures
            r.wf(),
            r.names() == self.names(),
            r.application() == self.application(),
            r.deps() == self.deps(),
            r.queue() == Seq::<Message>::empty(),
            r.trackers() == Seq::new((self.names().len() + 2) as nat, |i: int| AsyncPollState::NotPinged),
            r.halt_cause() is None,
    {
        Environment::new(self.application, self.ids, self.dependencies)
    }
}

impl<A, D> Environment<A, D> {
    /// The registered names; the dependency at position `k` has address
    /// `dep_pid(k)`.
    pub closed spec fn names(&self) -> Seq<Seq<char>> {
        self.ids@.map_values(|i: Id| i.0@)
    }

    /// The main component.
    pub closed spec fn application(&self) -> A {
        self.application
    }

    /// The dependencies: the one at position `k` lives at `dep_pid(k)`.
    pub closed spec fn deps(&self) -> Seq<D> {
        self.dependencies@
    }

    /// The components are those of `other`.
    pub open spec fn same_components(&self, other: &Self) -> bool {
        self.application() == other.application() && self.deps() == other.deps()
    }

    /// The mailbox, front first.
    pub closed spec fn queue(&self) -> Seq<Message> {
        self.mailbox@
    }

    /// The trackers, by slot (see `slot_pid`).
    pub closed spec fn trackers(&self) -> Seq<AsyncPollState> {
        self.polls@
    }

    pub closed spec fn halt_cause(&self) -> Option<String> {
        self.halted
    }

    /// One dependency per name, one tracker per address, and addresses that
    /// fit.
    pub open spec fn shaped(&self) -> bool {
        &&& self.deps().len() == self.names().len()
        &&& self.trackers().len() == self.names().len() + 2
        &&& self.names().len() + FIRST_DEP_PID <= u64::MAX
    }

    /// Well-formedness: `shaped`, and no queued message sent from or
    /// addressed to the "reply to sender" sentinel.
    pub open spec fn wf(&self) -> bool {
        &&& self.shaped()
        &&& resolved(self.queue())
    }

    fn new(app: A, ids: Vec<Id>, deps: Vec<D>) -> (r: Self)
        requires
            ids.len() == deps.len(),
            ids.len() + FIRST_DEP_PID <= u64::MAX,
        ensures
            r.wf(),
            r.names() == ids@.map_values(|i: Id| i.0@),
            r.application() == app,
            r.deps() == deps@,
            r.queue() == Seq::<Message>::empty(),
            r.trackers() == Seq::new((ids.len() + 2) as nat, |i: int| AsyncPollState::NotPinged),
            r.halt_cause() is None,
    {
        let mut polls: Vec<AsyncPollState> = Vec::new();
        polls.push(AsyncPollState::NotPinged);
        polls.push(AsyncPollState::NotPinged);
        let mut i: usize = 0;
        proof {
            assert(polls@ =~= Seq::new((i + 2) as nat, |j: int| AsyncPollState::NotPinged));
        }
        while i < ids.len()
            invariant
                i <= ids.len(),
                polls@ == Seq::new((i + 2) as nat, |j: int| AsyncPollState::NotPinged),
            decreases ids.len() - i,
        {
            polls.push(AsyncPollState::NotPinged);
            i = i + 1;
            proof {
                assert(polls@ =~= Seq::new((i + 2) as nat, |j: int| AsyncPollState::NotPinged));
            }
        }
        Environment {
            application: app,
            ids,
            dependencies: deps,
            mailbox: VecDeque::new(),
            polls,
            halted: None,
        }
    }

    /// Gives back the main component.
    pub fn into_application(self) -> (r: A)
        ensures
            r == self.application(),
    {
        self.application
    }

    /// The cause that ended the run, if it has ended.
    pub fn halted(&self) -> (r: Option<String>)
        ensures
            r == self.halt_cause(),
    {
        self.halted.clone()
    }

    /// The number of messages waiting in the mailbox.
    pub fn pending(&self) -> (r: usize)
        ensures
            r == self.queue().len(),
    {
        self.mailbox.len()
    }

    /// The registry as a payload: each name with its address, in
    /// registration order.
    fn registry_pairs(&self) -> (r: Vec<(String, Pid)>)
        ensures
            r@.len() == self.names().len(),
            forall|k: int|
                0 <= k < self.names().len() ==> (#[trigger] r@[k]).0@ == self.names()[k] && r@[k].1
                    == dep_pid(k),
    {
        let mut pairs: Vec<(String, Pid)> = Vec::new();
        let mut i: usize = 0;
        while i < self.ids.len()
            invariant
                i <= self.ids.len(),
                pairs@.len() == i,
                forall|k: int|
                    0 <= k < i ==> (#[trigger] pairs@[k]).0@ == self.names()[k] && pairs@[k].1
                        == dep_pid(k),
            decreases self.ids.len() - i,
        {
            let name = self.ids[i].0.clone();
            let pid = Pid::dep(i as u64);
            pairs.push((name, pid));
            i = i + 1;
        }
        pairs
    }

    /// The message that tells the main component every registered
    /// dependency's address.
    pub fn registry_message(&self) -> (r: Message)
        ensures
            is_registry_message(self.names(), r),
    {
        Message::new(Pid::app(), DEPENDENCIES, Payload::Dependencies(self.registry_pairs()))
    }

    /// The orchestrator's answer to a message addressed to it: a
    /// `dependency-lookup` for each `request-dependency`, nothing for any
    /// other message or for a request without a `RequestDependency` payload.
    pub fn respond(&self, msg: &Message) -> (r: Vec<Message>)
        ensures
            is_answer(self.names(), *msg, r@),
    {
        let mut out: Vec<Message> = Vec::new();
        if msg.is(REQUEST_DEPENDENCY) {
            match &msg.data {
                Some(Payload::RequestDependency(rq)) => {
                    let pid = self.lookup(&rq.id);
                    let lookup = DependencyLookup { id: rq.id.clone(), pid };
                    out.push(
                        Message::new(msg.sender, DEPENDENCY_LOOKUP, Payload::DependencyLookup(lookup)),
                    );
                },
                _ => {},
            }
        }
        out
    }

    /// Queues `msgs` in order, as emitted by `from` while handling a message
    /// from `reply_to` (see `routed`).
    pub fn post(&mut self, msgs: Vec<Message>, from: Pid, reply_to: Pid)
        requires
            from != Pid(ME_PID),
            reply_to != Pid(ME_PID),
        ensures
            final(self).queue() == old(self).queue() + routed_all(msgs@, from, reply_to),
            final(self).names() == old(self).names(),
            final(self).trackers() == old(self).trackers(),
            final(self).halt_cause() == old(self).halt_cause(),
            final(self).wf() == old(self).wf(),
            final(self).same_components(&*old(self)),
    {
        let mut msgs = msgs;
        let total = msgs.len();
        let ghost all = msgs@;
        let mut i: usize = 0;
        proof {
            assert(all.take(0) =~= Seq::<Message>::empty());
            assert(self.mailbox@ + routed_all(Seq::<Message>::empty(), from, reply_to) =~= self.mailbox@);
        }
        while msgs.len() > 0
            invariant
                all.len() <= usize::MAX,
                i + msgs@.len() == all.len(),
                msgs@ == all.subrange(i as int, all.len() as int),
                self.mailbox@ == old(self).mailbox@ + routed_all(all.take(i as int), from, reply_to),
                from != Pid(ME_PID),
                reply_to != Pid(ME_PID),
                resolved(self.mailbox@) == resolved(old(self).mailbox@),
                self.ids == old(self).ids,
                self.dependencies == old(self).dependencies,
                self.application == old(self).application,
                self.polls == old(self).polls,
                self.halted == old(self).halted,
            decreases msgs@.len(),
        {
            let m = msgs.remove(0);
            let recipient = if m.recipient == Pid::me() {
                reply_to
            } else {
                m.recipient
            };
            let ghost before = self.mailbox@;
            self.mailbox.push_back(Message { id: m.id, sender: from, recipient, data: m.data });
            proof {
                if resolved(before) {
                    assert forall|j: int| 0 <= j < self.mailbox@.len() implies (
                    #[trigger] self.mailbox@[j]).recipient != Pid(ME_PID) && self.mailbox@[j].sender
                        != Pid(ME_PID) by {
                        if j < before.len() {
                            assert(self.mailbox@[j] == before[j]);
                        }
                    }
                } else {
                    let j = choose|j: int|
                        0 <= j < before.len() && !((#[trigger] before[j]).recipient != Pid(ME_PID)
                            && before[j].sender != Pid(ME_PID));
                    assert(self.mailbox@[j] == before[j]);
                }
            }
            proof {
                assert(all.take(i + 1) =~= all.take(i as int).push(m));
                assert(routed_all(all.take(i + 1), from, reply_to) =~= routed_all(
                    all.take(i as int),
                    from,
                    reply_to,
                ).push(routed(m, from, reply_to)));
            }
            i = i + 1;
            proof {
                assert(msgs@ =~= all.subrange(i as int, all.len() as int));
            }
        }
        proof {
            assert(all.take(i as int) =~= all);
        }
    }

    /// Queues what a component handed back at startup: its messages are
    /// sent by `origin`, and those addressed to the sentinel go back to
    /// `origin` itself.
    pub fn enqueue_init(&mut self, origin: Pid, init: Init)
        requires
            origin != Pid(ME_PID),
        ensures
            final(self).queue() == old(self).queue() + routed_all(init_messages(init), origin, origin),
            final(self).names() == old(self).names(),
            final(self).trackers() == old(self).trackers(),
            final(self).halt_cause() == old(self).halt_cause(),
            final(self).wf() == old(self).wf(),
            final(self).same_components(&*old(self)),
    {
        match init {
            Init::Messages(v) => self.post(v, origin, origin),
            Init::NoMessages => {
                proof {
                    assert(self.mailbox@ + Seq::<Message>::empty() =~= self.mailbox@);
                }
            },
        }
    }

    /// Sets the tracker of `p`, if `p` has one.
    fn set_app_async_state(&mut self, p: Pid, state: AsyncPollState)
        requires
            old(self).wf(),
        ensures
            final(self).wf(),
            final(self).trackers() == match pid_slot(p, old(self).names().len() as int) {
                Some(k) => old(self).trackers().update(k, state),
                None => old(self).trackers(),
            },
            final(self).queue() == old(self).queue(),
            final(self).names() == old(self).names(),
            final(self).halt_cause() == old(self).halt_cause(),
            final(self).same_components(&*old(self)),
    {
        let n = self.ids.len() as u64;
        let _slots = self.polls.len();
        proof {
            assert(self.names().len() == self.ids@.len());
            assert(self.polls@.len() == self.ids@.len() + 2);
        }
        if p.0 == ENV_PID {
            self.polls.set(0, state);
        } else if p.0 == APP_PID {
            self.polls.set(1, state);
        } else if FIRST_DEP_PID <= p.0 && p.0 - FIRST_DEP_PID < n {
            let k = (p.0 - FIRST_DEP_PID) as usize;
            self.polls.set(k + 2, state);
        }
    }

    /// Advances every tracker by one cycle at time `now`, and returns one
    /// `async-check` for each address that is due, in slot order.
    pub fn check_for_completed_async_work(&mut self, now: u64) -> (r: Vec<Message>)
        requires
            old(self).wf(),
        ensures
            final(self).wf(),
            final(self).trackers() == stepped(old(self).trackers(), now),
            r@.map_values(|m: Message| m.recipient) == due(old(self).trackers(), now),
            forall|k: int|
                0 <= k < r@.len() ==> r@[k].id@ == ASYNC_CHECK@ && r@[k].sender == Pid(ENV_PID)
                    && r@[k].data is None,
            final(self).queue() == old(self).queue(),
            final(self).names() == old(self).names(),
            final(self).halt_cause() == old(self).halt_cause(),
            final(self).same_components(&*old(self)),
    {
        let ghost before = self.polls@;
        let mut out: Vec<Message> = Vec::new();
        let mut i: usize = 0;
        while i < self.polls.len()
            invariant
                self.wf(),
                self.polls@.len() == before.len(),
                i <= before.len(),
                forall|k: int| 0 <= k < i ==> self.polls@[k] == poll_step(before[k], now).0,
                forall|k: int| i <= k < before.len() ==> self.polls@[k] == before[k],
                out@.map_values(|m: Message| m.recipient) == due(before.take(i as int), now),
                forall|k: int|
                    0 <= k < out@.len() ==> out@[k].id@ == ASYNC_CHECK@ && out@[k].sender == Pid(
                        ENV_PID,
                    ) && out@[k].data is None,
                self.mailbox == old(self).mailbox,
                self.ids == old(self).ids,
                self.dependencies == old(self).dependencies,
                self.application == old(self).application,
                self.halted == old(self).halted,
            decreases before.len() - i,
        {
            let (next, poll) = self.polls[i].step(now);
            proof {
                assert(before.take(i + 1).drop_last() =~= before.take(i as int));
                assert(before.take(i + 1).last() == before[i as int]);
            }
            if poll {
                let pid = if i < 2 {
                    Pid(i as u64)
                } else {
                    Pid(i as u64 + 1)
                };
                out.push(Message::empty(pid, ASYNC_CHECK));
                proof {
                    assert(out@.map_values(|m: Message| m.recipient) =~= due(
                        before.take(i as int),
                        now,
                    ).push(slot_pid(i as int)));
                }
            }
            self.polls.set(i, next);
            i = i + 1;
        }
        proof {
            assert(before.take(i as int) =~= before);
            assert(self.polls@ =~= stepped(before, now));
        }
        out
    }

    /// The address registered under `name`, if any.
    pub fn lookup(&self, name: &String) -> (r: Option<Pid>)
        ensures
            r == lookup(self.names(), name@),
    {
        let mut i: usize = self.ids.len();
        proof {
            assert(self.names().take(i as int) =~= self.names());
        }
        while i > 0
            invariant
                i <= self.ids.len(),
                lookup(self.names(), name@) == lookup(self.names().take(i as int), name@),
            decreases i,
        {
            let k = i - 1;
            proof {
                let pre = self.names().take(i as int);
                assert(pre.drop_last() =~= self.names().take(k as int));
                assert(pre.last() == self.ids@[k as int].0@);
            }
            if self.ids[k].0 == *name {
                return Some(Pid::dep(k as u64));
            }
            i = k;
        }
        proof {
            assert(self.names().take(0) =~= Seq::<Seq<char>>::empty());
        }
        None
    }
}

/// The messages of what a component handed back at startup.
pub open spec fn init_messages(i: Init) -> Seq<Message> {
    match i {
        Init::Messages(v) => v@,
        Init::NoMessages => seq![],
    }
}

/// The address of the `k`-th component that `boot` starts after the
/// orchestrator: the main component, then the dependencies in order.
pub open spec fn boot_origin(k: int) -> Pid {
    if k == 0 {
        Pid(APP_PID)
    } else {
        dep_pid(k - 1)
    }
}

/// What `boot` queues behind the registry message when the components hand
/// back `inits`, in the order they are started.
pub open spec fn boot_queue(inits: Seq<Init>) -> Seq<Message>
    decreases inits.len(),
{
    if inits.len() == 0 {
        seq![]
    } else {
        let k = inits.len() - 1;
        boot_queue(inits.drop_last()) + routed_all(
            init_messages(inits.last()),
            boot_origin(k),
            boot_origin(k),
        )
    }
}

/// The mailbox `q` after folding `u`, handed back by `handler` for a message
/// from `reply_to`.
pub open spec fn fold_queue(q: Seq<Message>, handler: Pid, reply_to: Pid, u: Update) -> Seq<
    Message,
> {
    match u {
        Update::Messages(v) => q + routed_all(v@, handler, reply_to),
        _ => q,
    }
}

/// The trackers `t` (of `n` dependencies) after folding `u`, handed back by
/// `handler` for a message that was a poll when `was_poll`.
pub open spec fn fold_trackers(
    t: Seq<AsyncPollState>,
    n: int,
    handler: Pid,
    was_poll: bool,
    u: Update,
    now: u64,
) -> Seq<AsyncPollState> {
    match u {
        Update::Error(_) => t,
        _ => match pid_slot(handler, n) {
            Some(k) => t.update(k, after_dispatch(t[k], was_poll, u is NotReady, now)),
            None => t,
        },
    }
}

/// The halt cause `h` after folding `u`.
pub open spec fn fold_halt(h: Option<String>, u: Update) -> Option<String> {
    match u {
        Update::Error(e) => Some(e),
        _ => h,
    }
}

impl<A: Application, D: Application> Environment<A, D> {
    /// Delivering `m` hands back `u` and leaves the main component as `app`
    /// and the dependencies as `deps`: the orchestrator answers its own
    /// messages (`is_answer`), the component at the recipient's address
    /// handles the message (`updated`) and no other component changes, and a
    /// message to an address that nobody holds gives `NoMessages`.
    pub open spec fn handled(&self, m: Message, app: A, deps: Seq<D>, u: Update) -> bool {
        let n = self.names().len();
        if m.recipient.0 == ENV_PID {
            &&& u matches Update::Messages(v) && is_answer(self.names(), m, v@)
            &&& app == self.application()
            &&& deps == self.deps()
        } else if m.recipient.0 == APP_PID {
            &&& self.application().updated(m, app, u)
            &&& deps == self.deps()
        } else if FIRST_DEP_PID <= m.recipient.0 < FIRST_DEP_PID + n {
            let k = m.recipient.0 - FIRST_DEP_PID;
            &&& self.deps()[k].updated(m, deps[k], u)
            &&& deps == self.deps().update(k, deps[k])
            &&& app == self.application()
        } else {
            &&& u is NoMessages
            &&& app == self.application()
            &&& deps == self.deps()
        }
    }

    /// One cycle at time `now` took `self` to `next` and reported `r`, where
    /// `polls` are the `async-check` messages of this cycle and `u` is what
    /// the delivered message's handler handed back: the polls join the back
    /// of the mailbox; if it is then empty, nothing else happens; otherwise
    /// its front message is delivered (`handled`) and `u` is folded in as
    /// `fold` does.
    pub open spec fn cycle_step(
        &self,
        now: u64,
        polls: Seq<Message>,
        u: Update,
        next: Self,
        r: Cycle,
    ) -> bool {
        let q1 = self.queue() + routed_all(polls, Pid(ENV_PID), Pid(ENV_PID));
        let t1 = stepped(self.trackers(), now);
        &&& polls.map_values(|m: Message| m.recipient) == due(self.trackers(), now)
        &&& forall|k: int|
            0 <= k < polls.len() ==> (#[trigger] polls[k]).id@ == ASYNC_CHECK@ && polls[k].sender
                == Pid(ENV_PID) && polls[k].data is None
        &&& next.names() == self.names()
        &&& if q1.len() == 0 {
            &&& r is Idle
            &&& next.queue() == q1
            &&& next.trackers() == t1
            &&& next.halt_cause() is None
            &&& next.same_components(self)
        } else {
            let m = q1[0];
            &&& self.handled(m, next.application(), next.deps(), u)
            &&& next.queue() == fold_queue(q1.drop_first(), m.recipient, m.sender, u)
            &&& next.trackers() == fold_trackers(
                t1,
                self.names().len() as int,
                m.recipient,
                m.id@ == ASYNC_CHECK@,
                u,
                now,
            )
            &&& next.halt_cause() == fold_halt(None, u)
            &&& r == match u {
                Update::Error(e) => Cycle::Halted(e),
                _ => Cycle::Delivered,
            }
        }
    }

    /// Starts every component: the orchestrator first, whose share is the
    /// registry message to the main component; then the main component;
    /// then the dependencies in registration order. What each hands back is
    /// queued as `enqueue_init` says.
    pub fn boot(&mut self)
        requires
            old(self).wf(),
        ensures
            final(self).wf(),
            final(self).names() == old(self).names(),
            final(self).trackers() == old(self).trackers(),
            final(self).halt_cause() == old(self).halt_cause(),
            final(self).deps().len() == old(self).deps().len(),
            exists|reg: Message, inits: Seq<Init>|
                {
                    &&& reg.sender == Pid(ENV_PID)
                    &&& is_registry_message(old(self).names(), reg)
                    &&& inits.len() == old(self).deps().len() + 1
                    &&& old(self).application().started(final(self).application(), inits[0])
                    &&& forall|k: int|
                        0 <= k < old(self).deps().len() ==> #[trigger] old(self).deps()[k].started(
                            final(self).deps()[k],
                            inits[k + 1],
                        )
                    &&& #[trigger] final(self).queue() == old(self).queue() + seq![reg]
                        + boot_queue(inits)
                },
    {
        let ghost q0 = self.mailbox@;
        let first = self.registry_message();
        let mut own: Vec<Message> = Vec::new();
        own.push(first);
        self.enqueue_init(Pid::env(), Init::Messages(own));
        let ghost reg = routed(first, Pid(ENV_PID), Pid(ENV_PID));
        proof {
            assert(routed_all(seq![first], Pid(ENV_PID), Pid(ENV_PID)) =~= seq![reg]);
        }
        let init = self.application.init();
        let ghost g0 = init;
        self.enqueue_init(Pid::app(), init);
        let ghost mut inits: Seq<Init> = seq![g0];
        proof {
            assert(inits.drop_last() =~= Seq::<Init>::empty());
            assert(inits.last() == g0);
            assert(boot_queue(Seq::<Init>::empty()) == Seq::<Message>::empty());
            assert(Seq::<Message>::empty() + routed_all(init_messages(g0), Pid(APP_PID), Pid(APP_PID))
                =~= routed_all(init_messages(g0), Pid(APP_PID), Pid(APP_PID)));
            assert(boot_queue(inits) =~= routed_all(init_messages(g0), Pid(APP_PID), Pid(APP_PID)));
            assert(self.mailbox@ =~= q0 + seq![reg] + boot_queue(inits));
        }
        let mut i: usize = 0;
        while i < self.dependencies.len()
            invariant
                self.wf(),
                i <= self.dependencies.len(),
                self.names() == old(self).names(),
                self.trackers() == old(self).trackers(),
                self.halt_cause() == old(self).halt_cause(),
                self.deps().len() == old(self).deps().len(),
                inits.len() == i + 1,
                inits[0] == g0,
                old(self).application().started(self.application(), g0),
                forall|k: int| 0 <= k < i ==> #[trigger] old(self).deps()[k].started(
                    self.deps()[k],
                    inits[k + 1],
                ),
                forall|k: int| i <= k < self.deps().len() ==> self.deps()[k] == old(self).deps()[k],
                self.mailbox@ == q0 + seq![reg] + boot_queue(inits),
            decreases self.dependencies.len() - i,
        {
            let init = self.dependencies[i].init();
            let ghost g = init;
            self.enqueue_init(Pid::dep(i as u64), init);
            proof {
                let next = inits.push(g);
                assert(next.drop_last() =~= inits);
                assert(boot_origin(i + 1) == dep_pid(i as int));
                inits = next;
                assert(self.mailbox@ =~= q0 + seq![reg] + boot_queue(inits));
            }
            i = i + 1;
        }
        proof {
            assert(self.mailbox@ == old(self).queue() + seq![reg] + boot_queue(inits));
        }
    }

    /// Delivers `msg` to the component at its recipient address and returns
    /// what that component handed back (see `handled`).
    pub fn dispatch(&mut self, msg: Message) -> (r: Update)
        requires
            old(self).wf(),
        ensures
            final(self).wf(),
            old(self).handled(msg, final(self).application(), final(self).deps(), r),
            final(self).queue() == old(self).queue(),
            final(self).names() == old(self).names(),
            final(self).trackers() == old(self).trackers(),
            final(self).halt_cause() == old(self).halt_cause(),
    {
        let recipient = msg.recipient;
        let n = self.dependencies.len() as u64;
        if FIRST_DEP_PID <= recipient.0 && recipient.0 - FIRST_DEP_PID < n {
            let k = (recipient.0 - FIRST_DEP_PID) as usize;
            let r = self.dependencies[k].update(msg);
            proof {
                assert(self.deps() =~= old(self).deps().update(k as int, self.deps()[k as int]));
            }
            r
        } else if recipient.0 == APP_PID {
            self.application.update(msg)
        } else if recipient.0 == ENV_PID {
            Update::Messages(self.respond(&msg))
        } else {
            Update::NoMessages
        }
    }

    /// Folds what the component at `handler` handed back for a message from
    /// `reply_to` into the mailbox and the trackers. `was_poll` says whether
    /// that message was an `async-check`; `now` is the current time.
    /// `Error` ends the run with its cause and leaves the mailbox as it is.
    pub fn fold(&mut self, handler: Pid, reply_to: Pid, was_poll: bool, update: Update, now: u64)
        requires
            old(self).wf(),
            handler != Pid(ME_PID),
            reply_to != Pid(ME_PID),
        ensures
            final(self).wf(),
            final(self).names() == old(self).names(),
            final(self).same_components(&*old(self)),
            final(self).queue() == fold_queue(old(self).queue(), handler, reply_to, update),
            final(self).trackers() == fold_trackers(
                old(self).trackers(),
                old(self).names().len() as int,
                handler,
                was_poll,
                update,
                now,
            ),
            final(self).halt_cause() == fold_halt(old(self).halt_cause(), update),
    {
        let ghost u = update;
        match update {
            Update::Messages(msgs) => {
                if was_poll {
                    self.set_app_async_state(handler, AsyncPollState::NotPinged);
                }
                self.post(msgs, handler, reply_to);
            },
            Update::NotReady => {
                self.set_app_async_state(
                    handler,
                    AsyncPollState::Waiting { last_ping: now, wait: POLL_INTERVAL_NANOS },
                );
            },
            Update::Error(e) => {
                self.halted = Some(e);
            },
            Update::NoMessages => {
                if was_poll {
                    self.set_app_async_state(handler, AsyncPollState::NotPinged);
                }
            },
        }
        proof {
            let n = old(self).names().len() as int;
            let t = old(self).trackers();
            match pid_slot(handler, n) {
                Some(k) => {
                    if !was_poll {
                        assert(t.update(k, t[k]) =~= t);
                    }
                },
                None => {},
            }
            if !(u is Messages) {
                assert(self.queue() == fold_queue(old(self).queue(), handler, reply_to, u));
            }
        }
    }

    /// One turn of the run loop at time `now`: polls the components that are
    /// due, then takes the front message, delivers it and folds what came
    /// back (see `cycle_step`). Once the run has ended, nothing more
    /// happens.
    pub fn cycle(&mut self, now: u64) -> (r: Cycle)
        requires
            old(self).wf(),
        ensures
            final(self).wf(),
            old(self).halt_cause() is Some ==> r == Cycle::Halted(old(self).halt_cause()->0)
                && *final(self) == *old(self),
            old(self).halt_cause() is None ==> exists|polls: Seq<Message>, u: Update|
                #[trigger] old(self).cycle_step(now, polls, u, *final(self), r),
    {
        match &self.halted {
            Some(e) => {
                return Cycle::Halted(e.clone());
            },
            None => {},
        }
        let polls = self.check_for_completed_async_work(now);
        let ghost polls_v = polls@;
        self.post(polls, Pid::env(), Pid::env());
        let ghost q1 = self.mailbox@;
        let ghost t1 = self.polls@;
        match self.mailbox.pop_front() {
            Some(msg) => {
                let ghost m = msg;
                let sender = msg.sender;
                let recipient = msg.recipient;
                let was_poll = msg.is(ASYNC_CHECK);
                let update = self.dispatch(msg);
                let ghost u = update;
                self.fold(recipient, sender, was_poll, update, now);
                let r = match &self.halted {
                    Some(e) => Cycle::Halted(e.clone()),
                    None => Cycle::Delivered,
                };
                proof {
                    assert(q1.drop_first() =~= q1.subrange(1, q1.len() as int));
                    assert(old(self).cycle_step(now, polls_v, u, *self, r));
                }
                r
            },
            None => {
                proof {
                    assert(old(self).cycle_step(now, polls_v, Update::NoMessages, *self, Cycle::Idle));
                }
                Cycle::Idle
            },
        }
    }
}

impl<A: Application, D: Application> Application for Environment<A, D> {
    /// The orchestrator's start: it changes nothing and hands back the
    /// registry message.
    open spec fn started(self, next: Self, r: Init) -> bool {
        &&& next == self
        &&& r matches Init::Messages(v) && v@.len() == 1 && is_registry_message(self.names(), v@[0])
    }

    /// The orchestrator answers a message without changing: see
    /// `is_answer`.
    open spec fn updated(self, msg: Message, next: Self, r: Update) -> bool {
        &&& next == self
        &&& r matches Update::Messages(v) && is_answer(self.names(), msg, v@)
    }

    fn init(&mut self) -> (r: Init) {
        let mut v: Vec<Message> = Vec::new();
        v.push(self.registry_message());
        Init::Messages(v)
    }

    fn update(&mut self, msg: Message) -> (r: Update) {
        Update::Messages(self.respond(&msg))
    }
}

} // verus!
