use vstd::prelude::*;

use crate::session::{events_view, Command, CommandView, Event, EventView, SessionError};

verus! {

/// Number of characters of a ticket shown before it is cut short.
pub const TICKET_PREVIEW_LEN: usize = 25;

/// The ticket as shown: at most the first characters, then `...` if it was cut.
pub open spec fn preview(t: Seq<char>) -> Seq<char> {
    if t.len() > TICKET_PREVIEW_LEN {
        t.take(TICKET_PREVIEW_LEN as int) + seq!['.', '.', '.']
    } else {
        t
    }
}

/// Whether a character has the Unicode `White_Space` property.
pub open spec fn is_white_space(c: char) -> bool {
    ('\u{9}' <= c && c <= '\u{d}') || c == ' ' || c == '\u{85}' || c == '\u{a0}' || c == '\u{1680}'
        || ('\u{2000}' <= c && c <= '\u{200a}') || c == '\u{2028}' || c == '\u{2029}' || c == '\u{202f}'
        || c == '\u{205f}' || c == '\u{3000}'
}

/// The text without its leading white space.
pub open spec fn strip_front(s: Seq<char>) -> Seq<char>
    decreases s.len(),
{
    if s.len() > 0 && is_white_space(s[0]) {
        strip_front(s.drop_first())
    } else {
        s
    }
}

/// The text without its trailing white space.
pub open spec fn strip_back(s: Seq<char>) -> Seq<char>
    decreases s.len(),
{
    if s.len() > 0 && is_white_space(s.last()) {
        strip_back(s.drop_last())
    } else {
        s
    }
}

/// The text with leading and trailing white space removed.
pub open spec fn trim_spec(s: Seq<char>) -> Seq<char> {
    strip_back(strip_front(s))
}

/// Relies on `str::trim`: leading and trailing characters with the Unicode
/// `White_Space` property are removed.
#[verifier::external_body]
fn trim_text(s: &str) -> (r: String)
    ensures
        r@ == trim_spec(s@),
{
    s.trim().to_string()
}

/// The views of a sequence of strings.
pub open spec fn strings_view(v: Seq<String>) -> Seq<Seq<char>> {
    v.map_values(|x: String| x@)
}

/// The view of an optional string.
pub open spec fn opt_view(o: Option<String>) -> Option<Seq<char>> {
    match o {
        Some(x) => Some(x@),
        None => None,
    }
}

/// The chat messages that a run of events carries, in order.
pub open spec fn messages_of(es: Seq<EventView>) -> Seq<Seq<char>>
    decreases es.len(),
{
    if es.len() == 0 {
        Seq::empty()
    } else {
        match es.last() {
            EventView::MessageReceived { text } => messages_of(es.drop_last()).push(text),
            _ => messages_of(es.drop_last()),
        }
    }
}

/// The ticket known after a run of events, starting from `t`.
pub open spec fn ticket_after(t: Option<Seq<char>>, es: Seq<EventView>) -> Option<Seq<char>>
    decreases es.len(),
{
    if es.len() == 0 {
        t
    } else {
        match es.last() {
            EventView::TicketReady { ticket } => Some(ticket),
            _ => ticket_after(t, es.drop_last()),
        }
    }
}

/// Taking in events in two batches shows the same messages, in the same order,
/// and the same ticket as taking them in one: how often the window polls
/// changes nothing of what it shows.
pub proof fn lemma_batches_do_not_matter(t: Option<Seq<char>>, a: Seq<EventView>, b: Seq<EventView>)
    ensures
        messages_of(a + b) == messages_of(a) + messages_of(b),
        ticket_after(t, a + b) == ticket_after(ticket_after(t, a), b),
    decreases b.len(),
{
    if b.len() == 0 {
        assert(a + b =~= a);
        assert(messages_of(a) + messages_of(b) =~= messages_of(a));
    } else {
        lemma_batches_do_not_matter(t, a, b.drop_last());
        assert((a + b).drop_last() =~= a + b.drop_last());
        assert((a + b).last() == b.last());
        match b.last() {
            EventView::MessageReceived { text } => {
                assert(messages_of(a + b) =~= messages_of(a) + messages_of(b));
            },
            _ => {},
        }
    }
}

/// What the chat window shows and holds between frames.
pub struct ChatView {
    /// Chat messages received, oldest first.
    pub messages: Vec<String>,
    /// The message being typed.
    pub input: String,
    /// The ticket being typed to join a room.
    pub join_token: String,
    /// Whether a room has been asked for, so the chat itself is shown.
    pub is_chatting: bool,
    /// The ticket of the room this process created, once known.
    pub ticket: Option<String>,
    /// Messages submitted but not yet handed to the session, oldest first.
    pub pending_messages: Vec<String>,
    /// The last error the session reported.
    pub last_error: Option<SessionError>,
}

impl ChatView {
    /// An empty window, not yet in a room.
    pub fn new() -> (r: ChatView)
        ensures
            r.messages@.len() == 0,
            r.input@.len() == 0,
            r.join_token@.len() == 0,
            !r.is_chatting,
            r.ticket is None,
            r.pending_messages@.len() == 0,
            r.last_error is None,
    {
        ChatView {
            messages: Vec::new(),
            input: String::new(),
            join_token: String::new(),
            is_chatting: false,
            ticket: None,
            pending_messages: Vec::new(),
            last_error: None,
        }
    }

    /// Takes in one event of the session.
    pub fn apply_event(&mut self, e: Event)
        ensures
            match e {
                Event::TicketReady { ticket } => *final(self) == (ChatView { ticket: Some(ticket), ..*old(self) }),
                Event::MessageReceived { text } => final(self).messages@ == old(self).messages@.push(text)
                    && *final(self) == (ChatView { messages: final(self).messages, ..*old(self) }),
                Event::SessionError { kind } => *final(self) == (ChatView {
                    last_error: Some(kind),
                    ..*old(self)
                }),
                _ => *final(self) == *old(self),
            },
    {
        match e {
            Event::TicketReady { ticket } => {
                self.ticket = Some(ticket);
            },
            Event::MessageReceived { text } => {
                self.messages.push(text);
            },
            Event::SessionError { kind } => {
                self.last_error = Some(kind);
            },
            Event::PeerJoined => {},
            Event::PeerLeft => {},
        }
    }

    /// Takes in a batch of events, in arrival order: each chat message is
    /// shown once, in that order, and the ticket is the last one announced.
    pub fn apply_events(&mut self, es: Vec<Event>)
        ensures
            strings_view(final(self).messages@) == strings_view(old(self).messages@) + messages_of(
                events_view(es@),
            ),
            opt_view(final(self).ticket) == ticket_after(opt_view(old(self).ticket), events_view(es@)),
            final(self).input == old(self).input,
            final(self).join_token == old(self).join_token,
            final(self).is_chatting == old(self).is_chatting,
            final(self).pending_messages == old(self).pending_messages,
    {
        let ghost start = *self;
        let ghost all = events_view(es@);
        let mut es = es;
        let mut i: usize = 0;
        let total: usize = es.len();
        while es.len() > 0
            invariant
                i + es.len() == total,
                all.len() == total,
                events_view(es@) == all.skip(i as int),
                strings_view(self.messages@) == strings_view(start.messages@) + messages_of(all.take(i as int)),
                opt_view(self.ticket) == ticket_after(opt_view(start.ticket), all.take(i as int)),
                self.input == start.input,
                self.join_token == start.join_token,
                self.is_chatting == start.is_chatting,
                self.pending_messages == start.pending_messages,
            decreases es.len(),
        {
            let ghost before = es@;
            let ghost prev_msgs = self.messages@;
            let e = es.remove(0);
            proof {
                assert(es@ == before.remove(0));
                assert(e@ == events_view(before)[0]);
                assert(all[i as int] == e@);
                assert forall|j: int| 0 <= j < es@.len() implies #[trigger] events_view(es@)[j]
                    == all.skip(i + 1)[j] by {
                    assert(es@[j] == before[j + 1]);
                    assert(events_view(before)[j + 1] == all.skip(i as int)[j + 1]);
                }
                assert(events_view(es@) =~= all.skip(i + 1));
                let t = all.take(i + 1);
                assert(t.drop_last() =~= all.take(i as int));
                assert(t.last() == e@);
            }
            self.apply_event(e);
            proof {
                if self.messages@ != prev_msgs {
                    assert(strings_view(self.messages@) =~= strings_view(prev_msgs).push(
                        self.messages@.last()@,
                    ));
                }
            }
            assert(strings_view(self.messages@) =~= strings_view(start.messages@) + messages_of(
                all.take(i + 1),
            ));
            i = i + 1;
        }
        assert(all.take(i as int) =~= all);
    }

    /// The ticket as shown in the window, if there is one.
    pub fn ticket_label(&self) -> (r: Option<String>)
        ensures
            match self.ticket {
                Some(t) => r is Some && r->0@ == preview(t@),
                None => r is None,
            },
    {
        match &self.ticket {
            Some(t) => {
                let n: usize = t.as_str().unicode_len();
                if n > TICKET_PREVIEW_LEN {
                    let head = t.as_str().substring_char(0, TICKET_PREVIEW_LEN);
                    let dots = "...";
                    proof { reveal_strlit("..."); }
                    let label = String::from_str(head).concat(dots);
                    assert(label@ =~= preview(t@));
                    Some(label)
                } else {
                    Some(String::from_str(t.as_str()))
                }
            },
            None => None,
        }
    }

    /// Submits the typed message: a non-empty input joins the back of the
    /// pending messages and the input is cleared.
    pub fn submit_input(&mut self)
        ensures
            old(self).input@.len() > 0 ==> {
                &&& final(self).pending_messages@ == old(self).pending_messages@.push(old(self).input)
                &&& final(self).input@.len() == 0
                &&& *final(self) == (ChatView {
                    input: final(self).input,
                    pending_messages: final(self).pending_messages,
                    ..*old(self)
                })
            },
            old(self).input@.len() == 0 ==> *final(self) == *old(self),
    {
        if !self.input.as_str().is_empty() {
            let text = self.input.clone();
            self.input = String::new();
            self.pending_messages.push(text);
        }
    }

    /// Takes the oldest pending message out, to hand it to the session.
    pub fn take_pending(&mut self) -> (r: Option<String>)
        ensures
            old(self).pending_messages@.len() == 0 ==> r is None && *final(self) == *old(self),
            old(self).pending_messages@.len() > 0 ==> {
                &&& r == Some(old(self).pending_messages@[0])
                &&& final(self).pending_messages@ == old(self).pending_messages@.drop_first()
                &&& *final(self) == (ChatView { pending_messages: final(self).pending_messages, ..*old(self) })
            },
    {
        if self.pending_messages.len() == 0 {
            None
        } else {
            let m = self.pending_messages.remove(0);
            assert(self.pending_messages@ =~= old(self).pending_messages@.drop_first());
            Some(m)
        }
    }

    /// The session's queue refused `msg`, the oldest pending message: it goes
    /// back to the front, to be tried again before the others.
    pub fn send_refused(&mut self, msg: String)
        ensures
            final(self).pending_messages@ == seq![msg] + old(self).pending_messages@,
            *final(self) == (ChatView { pending_messages: final(self).pending_messages, ..*old(self) }),
    {
        self.pending_messages.insert(0, msg);
        assert(self.pending_messages@ =~= seq![msg] + old(self).pending_messages@);
    }

    /// The ticket text as typed, if any was typed.
    pub fn typed_token(&self) -> (r: Option<String>)
        ensures
            self.join_token@.len() == 0 ==> r is None,
            self.join_token@.len() > 0 ==> r == Some(self.join_token),
    {
        if self.join_token.as_str().is_empty() {
            None
        } else {
            Some(self.join_token.clone())
        }
    }

    /// The command that joins the room of the typed ticket, if one was typed.
    pub fn join_command(&self) -> (r: Option<Command>)
        ensures
            self.join_token@.len() == 0 ==> r is None,
            self.join_token@.len() > 0 ==> r is Some && r->0@ == (CommandView::Join {
                ticket: trim_spec(self.join_token@),
            }),
    {
        if self.join_token.as_str().is_empty() {
            None
        } else {
            Some(Command::Join { ticket: trim_text(self.join_token.as_str()) })
        }
    }

    /// The command that creates a room.
    pub fn create_command(&self) -> (r: Command)
        ensures
            r@ == (CommandView::Open { topic: None }),
    {
        Command::Open { topic: None }
    }

    /// The session's queue took (`accepted`) or refused a start command; the
    /// window shows the chat once one was taken, and nothing else changes.
    pub fn start_sent(&mut self, accepted: bool)
        ensures
            *final(self) == (ChatView { is_chatting: old(self).is_chatting || accepted, ..*old(self) }),
    {
        if accepted {
            self.is_chatting = true;
        }
    }
}

} // verus!
