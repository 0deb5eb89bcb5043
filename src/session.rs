use vstd::prelude::*;

use crate::ticket::{append_bytes, decode_spec, encode_spec, Ticket, MAX_PEER_LEN, TOPIC_LEN};

verus! {

/// What a caller asks of the session.
#[derive(Debug)]
pub enum Command {
    /// Create a room, on the given topic or on a fresh one.
    Open { topic: Option<Vec<u8>> },
    /// Join the room that a ticket text describes.
    Join { ticket: String },
    /// Publish a chat message to the room.
    Send { text: String },
}

/// Errors the session reports.
#[derive(Debug, Clone, Copy, PartialEq, Eq, Structural)]
pub enum SessionError {
    /// A second `Open` or `Join` on a session that has already started.
    AlreadyStarted,
    /// A `Send` while the session is not running.
    NotActive,
    /// Joining failed: the ticket was unreadable or no peer could be reached.
    JoinFailed,
    /// The transport failed for good.
    TransportUnavailable,
}

/// What the session hands to its consumer.
#[derive(Debug)]
pub enum Event {
    TicketReady { ticket: String },
    MessageReceived { text: String },
    PeerJoined,
    PeerLeft,
    SessionError { kind: SessionError },
}

/// A notification of the gossip transport on the subscribed topic.
#[derive(Debug)]
pub enum Notification {
    PeerJoined,
    PeerLeft,
    Message { text: String },
    /// Anything the session does not surface.
    Other,
}

/// What the task that drives the session has to do next.
#[derive(Debug)]
pub enum Action {
    /// Subscribe to the topic, with these peers as first contacts.
    Subscribe { topic: Vec<u8>, bootstrap: Vec<Vec<u8>> },
    /// Publish the text on the subscribed topic.
    Publish { text: String },
    /// Hand the event to the consumer.
    Emit { event: Event },
    /// Nothing to do.
    Nothing,
}

/// Lifecycle of the session.
#[derive(Debug, Clone, Copy, PartialEq, Eq, Structural)]
pub enum Phase {
    Idle,
    Starting,
    Running,
    Draining,
    Stopped,
}

/// A command as the contracts see it.
pub enum CommandView {
    Open { topic: Option<Seq<u8>> },
    Join { ticket: Seq<char> },
    Send { text: Seq<char> },
}

/// An event as the contracts see it.
pub enum EventView {
    TicketReady { ticket: Seq<char> },
    MessageReceived { text: Seq<char> },
    PeerJoined,
    PeerLeft,
    SessionError { kind: SessionError },
}

/// A transport notification as the contracts see it.
pub enum NotificationView {
    PeerJoined,
    PeerLeft,
    Message { text: Seq<char> },
    Other,
}

/// An action as the contracts see it.
pub enum ActionView {
    Subscribe { topic: Seq<u8>, bootstrap: Seq<Seq<u8>> },
    Publish { text: Seq<char> },
    Emit { event: EventView },
    Nothing,
}

/// The state of a session as the contracts see it.
pub struct SessionView {
    pub phase: Phase,
    pub joining: bool,
    pub topic: Seq<u8>,
}

impl View for Command {
    type V = CommandView;

    open spec fn view(&self) -> CommandView {
        match self {
            Command::Open { topic } => CommandView::Open {
                topic: match topic {
                    Some(t) => Some(t@),
                    None => None,
                },
            },
            Command::Join { ticket } => CommandView::Join { ticket: ticket@ },
            Command::Send { text } => CommandView::Send { text: text@ },
        }
    }
}

impl View for Event {
    type V = EventView;

    open spec fn view(&self) -> EventView {
        match self {
            Event::TicketReady { ticket } => EventView::TicketReady { ticket: ticket@ },
            Event::MessageReceived { text } => EventView::MessageReceived { text: text@ },
            Event::PeerJoined => EventView::PeerJoined,
            Event::PeerLeft => EventView::PeerLeft,
            Event::SessionError { kind } => EventView::SessionError { kind: *kind },
        }
    }
}

impl View for Notification {
    type V = NotificationView;

    open spec fn view(&self) -> NotificationView {
        match self {
            Notification::PeerJoined => NotificationView::PeerJoined,
            Notification::PeerLeft => NotificationView::PeerLeft,
            Notification::Message { text } => NotificationView::Message { text: text@ },
            Notification::Other => NotificationView::Other,
        }
    }
}

impl View for Action {
    type V = ActionView;

    open spec fn view(&self) -> ActionView {
        match self {
            Action::Subscribe { topic, bootstrap } => ActionView::Subscribe {
                topic: topic@,
                bootstrap: crate::ticket::views(bootstrap@),
            },
            Action::Publish { text } => ActionView::Publish { text: text@ },
            Action::Emit { event } => ActionView::Emit { event: event@ },
            Action::Nothing => ActionView::Nothing,
        }
    }
}

/// A command carries a topic of the fixed length, if any.
pub open spec fn command_wf(c: CommandView) -> bool {
    match c {
        CommandView::Open { topic: Some(t) } => t.len() == TOPIC_LEN,
        _ => true,
    }
}

/// A session that is starting or past it knows a topic of the fixed length.
pub open spec fn session_wf(s: SessionView) -> bool {
    (s.phase == Phase::Starting || s.phase == Phase::Running || s.phase == Phase::Draining)
        ==> s.topic.len() == TOPIC_LEN
}

/// The action that reports an error to the consumer.
pub open spec fn error_action(kind: SessionError) -> ActionView {
    ActionView::Emit { event: EventView::SessionError { kind } }
}

/// Whether sends are published: while running, and while draining, when only
/// sends queued before the close remain.
pub open spec fn publishes(s: SessionView) -> bool {
    s.phase == Phase::Running || s.phase == Phase::Draining
}

/// What a `Send` of `text` gives in state `s`.
pub open spec fn send_action(s: SessionView, text: Seq<char>) -> ActionView {
    if publishes(s) {
        ActionView::Publish { text }
    } else {
        error_action(SessionError::NotActive)
    }
}

/// The next state and action for a command; `fresh` is the topic a new room gets
/// when the command names none.
pub open spec fn command_step(s: SessionView, c: CommandView, fresh: Seq<u8>) -> (SessionView, ActionView) {
    match c {
        CommandView::Open { topic } => if s.phase != Phase::Idle {
            (s, error_action(SessionError::AlreadyStarted))
        } else {
            let t = match topic {
                Some(t) => t,
                None => fresh,
            };
            (
                SessionView { phase: Phase::Starting, joining: false, topic: t },
                ActionView::Subscribe { topic: t, bootstrap: Seq::empty() },
            )
        },
        CommandView::Join { ticket } => if s.phase != Phase::Idle {
            (s, error_action(SessionError::AlreadyStarted))
        } else {
            match decode_spec(ticket) {
                Ok((t, b)) => (
                    SessionView { phase: Phase::Starting, joining: true, topic: t },
                    ActionView::Subscribe { topic: t, bootstrap: b },
                ),
                Err(_) => (
                    SessionView { phase: Phase::Stopped, joining: true, topic: s.topic },
                    error_action(SessionError::JoinFailed),
                ),
            }
        },
        CommandView::Send { text } => (s, send_action(s, text)),
    }
}

/// The event a transport notification becomes in state `s`, if any.
pub open spec fn normalize(s: SessionView, n: NotificationView) -> Option<EventView> {
    if s.phase == Phase::Running || s.phase == Phase::Draining {
        match n {
            NotificationView::PeerJoined => Some(EventView::PeerJoined),
            NotificationView::PeerLeft => Some(EventView::PeerLeft),
            NotificationView::Message { text } => Some(EventView::MessageReceived { text }),
            NotificationView::Other => None,
        }
    } else {
        None
    }
}

/// The events that a run of notifications becomes, in order.
pub open spec fn relayed(s: SessionView, ns: Seq<NotificationView>) -> Seq<EventView>
    decreases ns.len(),
{
    if ns.len() == 0 {
        Seq::empty()
    } else {
        match normalize(s, ns.last()) {
            Some(e) => relayed(s, ns.drop_last()).push(e),
            None => relayed(s, ns.drop_last()),
        }
    }
}

/// The session engine: the single owner of a room session's state.
pub struct Supervisor {
    phase: Phase,
    joining: bool,
    topic: Vec<u8>,
}

impl View for Supervisor {
    type V = SessionView;

    closed spec fn view(&self) -> SessionView {
        SessionView { phase: self.phase, joining: self.joining, topic: self.topic@ }
    }
}

fn copy_bytes(v: &Vec<u8>) -> (r: Vec<u8>)
    ensures
        r@ == v@,
{
    let mut r: Vec<u8> = Vec::new();
    append_bytes(&mut r, v);
    assert(r@ =~= v@);
    r
}

impl Supervisor {
    /// A session that has not started.
    pub fn new() -> (r: Supervisor)
        ensures
            r@.phase == Phase::Idle,
            !r@.joining,
            r@.topic.len() == 0,
    {
        Supervisor { phase: Phase::Idle, joining: false, topic: Vec::new() }
    }

    /// The phase the session is in.
    pub fn phase(&self) -> (r: Phase)
        ensures
            r == self@.phase,
    {
        self.phase
    }

    /// Checks a `Send`: the text to publish, or why it cannot be (the session
    /// has not become active, or has stopped).
    pub fn send(&self, text: String) -> (r: Result<String, SessionError>)
        ensures
            publishes(self@) ==> r == Ok::<String, SessionError>(text),
            !publishes(self@) ==> r == Err::<String, SessionError>(SessionError::NotActive),
    {
        if self.phase == Phase::Running || self.phase == Phase::Draining {
            Ok(text)
        } else {
            Err(SessionError::NotActive)
        }
    }

    /// Takes one command; `fresh` is the topic for an `Open` that names none.
    pub fn handle_command(&mut self, cmd: Command, fresh: Vec<u8>) -> (r: Action)
        requires
            session_wf(old(self)@),
            command_wf(cmd@),
            fresh@.len() == TOPIC_LEN,
        ensures
            session_wf(final(self)@),
            (final(self)@, r@) == command_step(old(self)@, cmd@, fresh@),
    {
        match cmd {
            Command::Open { topic } => {
                if self.phase != Phase::Idle {
                    return Action::Emit {
                        event: Event::SessionError { kind: SessionError::AlreadyStarted },
                    };
                }
                let t = match topic {
                    Some(t) => t,
                    None => fresh,
                };
                self.topic = copy_bytes(&t);
                self.phase = Phase::Starting;
                self.joining = false;
                let r = Action::Subscribe { topic: t, bootstrap: Vec::new() };
                assert(r@ == (ActionView::Subscribe { topic: t@, bootstrap: Seq::empty() })) by {
                    assert(crate::ticket::views(Seq::<Vec<u8>>::empty()) =~= Seq::<Seq<u8>>::empty());
                }
                r
            },
            Command::Join { ticket } => {
                if self.phase != Phase::Idle {
                    return Action::Emit {
                        event: Event::SessionError { kind: SessionError::AlreadyStarted },
                    };
                }
                match Ticket::decode(ticket.as_str()) {
                    Ok(t) => {
                        self.topic = copy_bytes(&t.topic);
                        self.phase = Phase::Starting;
                        self.joining = true;
                        Action::Subscribe { topic: t.topic, bootstrap: t.bootstrap }
                    },
                    Err(_) => {
                        self.phase = Phase::Stopped;
                        self.joining = true;
                        Action::Emit { event: Event::SessionError { kind: SessionError::JoinFailed } }
                    },
                }
            },
            Command::Send { text } => {
                match self.send(text) {
                    Ok(text) => Action::Publish { text },
                    Err(kind) => Action::Emit { event: Event::SessionError { kind } },
                }
            },
        }
    }

    /// The transport has subscribed to the topic; `own_addr` is this process's address.
    /// A created room then announces its ticket.
    pub fn on_subscribed(&mut self, own_addr: Vec<u8>) -> (r: Action)
        requires
            session_wf(old(self)@),
            own_addr@.len() <= MAX_PEER_LEN,
        ensures
            session_wf(final(self)@),
            old(self)@.phase == Phase::Starting && !old(self)@.joining ==> {
                &&& final(self)@ == (SessionView { phase: Phase::Running, ..old(self)@ })
                &&& r@ == (ActionView::Emit {
                    event: EventView::TicketReady { ticket: encode_spec(old(self)@.topic, seq![own_addr@]) },
                })
            },
            old(self)@.phase == Phase::Starting && old(self)@.joining ==> {
                &&& final(self)@ == (SessionView { phase: Phase::Running, ..old(self)@ })
                &&& r@ == ActionView::Nothing
            },
            old(self)@.phase != Phase::Starting ==> final(self)@ == old(self)@ && r@ == ActionView::Nothing,
    {
        if self.phase != Phase::Starting {
            return Action::Nothing;
        }
        self.phase = Phase::Running;
        if self.joining {
            return Action::Nothing;
        }
        let mut bootstrap: Vec<Vec<u8>> = Vec::new();
        bootstrap.push(own_addr);
        let t = Ticket { topic: copy_bytes(&self.topic), bootstrap };
        assert(t@.1 =~= seq![own_addr@]);
        let ticket = t.encode();
        Action::Emit { event: Event::TicketReady { ticket } }
    }

    /// Subscribing or joining failed: the session stops with an error.
    pub fn on_subscribe_failed(&mut self) -> (r: Action)
        requires
            session_wf(old(self)@),
        ensures
            session_wf(final(self)@),
            old(self)@.phase == Phase::Starting ==> {
                &&& final(self)@ == (SessionView { phase: Phase::Stopped, ..old(self)@ })
                &&& r@ == error_action(
                    if old(self)@.joining { SessionError::JoinFailed } else { SessionError::TransportUnavailable },
                )
            },
            old(self)@.phase != Phase::Starting ==> final(self)@ == old(self)@ && r@ == ActionView::Nothing,
    {
        if self.phase != Phase::Starting {
            return Action::Nothing;
        }
        self.phase = Phase::Stopped;
        let kind = if self.joining { SessionError::JoinFailed } else { SessionError::TransportUnavailable };
        Action::Emit { event: Event::SessionError { kind } }
    }

    /// The transport failed for good: a started session stops with an error.
    pub fn on_transport_failure(&mut self) -> (r: Action)
        requires
            session_wf(old(self)@),
        ensures
            session_wf(final(self)@),
            old(self)@.phase == Phase::Starting || old(self)@.phase == Phase::Running
                || old(self)@.phase == Phase::Draining ==> {
                &&& final(self)@ == (SessionView { phase: Phase::Stopped, ..old(self)@ })
                &&& r@ == error_action(SessionError::TransportUnavailable)
            },
            old(self)@.phase == Phase::Idle || old(self)@.phase == Phase::Stopped ==> final(self)@
                == old(self)@ && r@ == ActionView::Nothing,
    {
        if self.phase == Phase::Idle || self.phase == Phase::Stopped {
            return Action::Nothing;
        }
        self.phase = Phase::Stopped;
        Action::Emit { event: Event::SessionError { kind: SessionError::TransportUnavailable } }
    }

    /// The callers have closed the command channel: a running session drains,
    /// one that never ran stops.
    pub fn on_commands_closed(&mut self)
        requires
            session_wf(old(self)@),
        ensures
            session_wf(final(self)@),
            old(self)@.phase == Phase::Running ==> final(self)@ == (SessionView {
                phase: Phase::Draining,
                ..old(self)@
            }),
            old(self)@.phase == Phase::Idle || old(self)@.phase == Phase::Starting ==> final(self)@
                == (SessionView { phase: Phase::Stopped, ..old(self)@ }),
            old(self)@.phase == Phase::Draining || old(self)@.phase == Phase::Stopped ==> final(self)@
                == old(self)@,
    {
        if self.phase == Phase::Running {
            self.phase = Phase::Draining;
        } else if self.phase == Phase::Idle || self.phase == Phase::Starting {
            self.phase = Phase::Stopped;
        }
    }

    /// The queued sends of a draining session have been flushed.
    pub fn finish_drain(&mut self)
        requires
            session_wf(old(self)@),
        ensures
            session_wf(final(self)@),
            old(self)@.phase == Phase::Draining ==> final(self)@ == (SessionView {
                phase: Phase::Stopped,
                ..old(self)@
            }),
            old(self)@.phase != Phase::Draining ==> final(self)@ == old(self)@,
    {
        if self.phase == Phase::Draining {
            self.phase = Phase::Stopped;
        }
    }

    /// The event a transport notification becomes; other notifications, and
    /// those outside a running or draining session, are dropped.
    pub fn on_notification(&self, n: Notification) -> (r: Option<Event>)
        ensures
            match r {
                Some(e) => normalize(self@, n@) == Some(e@),
                None => normalize(self@, n@) is None,
            },
    {
        if self.phase != Phase::Running && self.phase != Phase::Draining {
            return None;
        }
        match n {
            Notification::PeerJoined => Some(Event::PeerJoined),
            Notification::PeerLeft => Some(Event::PeerLeft),
            Notification::Message { text } => Some(Event::MessageReceived { text }),
            Notification::Other => None,
        }
    }

    /// Appends to `relay` the events that `ns` become, in arrival order.
    pub fn relay(&self, ns: Vec<Notification>, relay: &mut Vec<Event>)
        ensures
            events_view(final(relay)@) == events_view(old(relay)@) + relayed(self@, notifications_view(ns@)),
    {
        let ghost start = events_view(relay@);
        let ghost all = notifications_view(ns@);
        let mut ns = ns;
        let mut i: usize = 0;
        let total: usize = ns.len();
        while ns.len() > 0
            invariant
                i + ns.len() == total,
                all.len() == total,
                notifications_view(ns@) == all.skip(i as int),
                events_view(relay@) == start + relayed(self@, all.take(i as int)),
            decreases ns.len(),
        {
            let ghost before = ns@;
            let n = ns.remove(0);
            proof {
                assert(n@ == notifications_view(before)[0]);
                assert(all[i as int] == n@);
                assert(ns@ == before.remove(0));
                assert forall|j: int| 0 <= j < ns@.len() implies #[trigger] notifications_view(ns@)[j]
                    == all.skip(i + 1)[j] by {
                    assert(ns@[j] == before[j + 1]);
                    assert(notifications_view(before)[j + 1] == all.skip(i as int)[j + 1]);
                }
                assert(notifications_view(ns@) =~= all.skip(i + 1));
                let t = all.take(i + 1);
                assert(t.drop_last() =~= all.take(i as int));
                assert(t.last() == n@);
            }
            match self.on_notification(n) {
                Some(e) => {
                    let ghost prev = relay@;
                    relay.push(e);
                    assert(events_view(relay@) =~= events_view(prev).push(e@));
                    assert(events_view(relay@) =~= start + relayed(self@, all.take(i + 1)));
                },
                None => {
                    assert(events_view(relay@) =~= start + relayed(self@, all.take(i + 1)));
                },
            }
            i = i + 1;
        }
        assert(all.take(i as int) =~= all);
    }
}

/// The state and the actions that a run of commands leads to, one step each.
pub open spec fn run_commands(s: SessionView, cs: Seq<CommandView>, fresh: Seq<u8>) -> (SessionView, Seq<ActionView>)
    decreases cs.len(),
{
    if cs.len() == 0 {
        (s, Seq::empty())
    } else {
        let (s1, acts) = run_commands(s, cs.drop_last(), fresh);
        let (s2, a) = command_step(s1, cs.last(), fresh);
        (s2, acts.push(a))
    }
}

/// A second `Open` or `Join` on a started session is rejected with
/// `AlreadyStarted` and leaves the session as it was.
pub proof fn lemma_second_start_rejected(s: SessionView, c: CommandView, fresh: Seq<u8>)
    requires
        s.phase != Phase::Idle,
        c is Open || c is Join,
    ensures
        command_step(s, c, fresh) == (s, error_action(SessionError::AlreadyStarted)),
{
}

/// Sends issued to a running (or draining) session, with nothing in between,
/// are published in the order they were issued, and the session stays as it was.
pub proof fn lemma_sends_publish_in_order(s: SessionView, texts: Seq<Seq<char>>, fresh: Seq<u8>)
    requires
        publishes(s),
    ensures
        run_commands(s, texts.map_values(|t: Seq<char>| CommandView::Send { text: t }), fresh)
            == (s, texts.map_values(|t: Seq<char>| ActionView::Publish { text: t })),
    decreases texts.len(),
{
    let cs = texts.map_values(|t: Seq<char>| CommandView::Send { text: t });
    let acts = texts.map_values(|t: Seq<char>| ActionView::Publish { text: t });
    if texts.len() == 0 {
        assert(acts =~= Seq::<ActionView>::empty());
    } else {
        let front = texts.drop_last();
        lemma_sends_publish_in_order(s, front, fresh);
        assert(cs.drop_last() =~= front.map_values(|t: Seq<char>| CommandView::Send { text: t }));
        assert(acts =~= front.map_values(|t: Seq<char>| ActionView::Publish { text: t }).push(
            ActionView::Publish { text: texts.last() },
        ));
    }
}

/// The event a notification of a defined kind stands for.
pub open spec fn event_of(n: NotificationView) -> EventView {
    match n {
        NotificationView::PeerJoined => EventView::PeerJoined,
        NotificationView::PeerLeft => EventView::PeerLeft,
        NotificationView::Message { text } => EventView::MessageReceived { text },
        NotificationView::Other => EventView::PeerLeft,
    }
}

/// In a running or draining session, a run of notifications of defined kinds is
/// relayed whole: one event for each, in arrival order.
pub proof fn lemma_no_event_loss(s: SessionView, ns: Seq<NotificationView>)
    requires
        s.phase == Phase::Running || s.phase == Phase::Draining,
        forall|i: int| 0 <= i < ns.len() ==> !(#[trigger] ns[i] is Other),
    ensures
        relayed(s, ns) == ns.map_values(|n: NotificationView| event_of(n)),
    decreases ns.len(),
{
    let m = ns.map_values(|n: NotificationView| event_of(n));
    if ns.len() == 0 {
        assert(m =~= Seq::<EventView>::empty());
    } else {
        let front = ns.drop_last();
        assert forall|i: int| 0 <= i < front.len() implies !(#[trigger] front[i] is Other) by {
            assert(front[i] == ns[i]);
        }
        lemma_no_event_loss(s, front);
        assert(!(ns[ns.len() - 1] is Other));
        assert(m =~= front.map_values(|n: NotificationView| event_of(n)).push(event_of(ns.last())));
    }
}

/// The views of a sequence of events.
pub open spec fn events_view(v: Seq<Event>) -> Seq<EventView> {
    v.map_values(|e: Event| e@)
}

/// The views of a sequence of notifications.
pub open spec fn notifications_view(v: Seq<Notification>) -> Seq<NotificationView> {
    v.map_values(|n: Notification| n@)
}

} // verus!
