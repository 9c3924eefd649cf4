//! Receiving: from the bytes that the transport read to the events that
//! the owner of the session is told of.

use crate::conn::frame::{CR, LF};
use crate::conn::handlers::handle_line;
use crate::conn::line::{Line, LineView};
use crate::conn::parse::parse_spec;
use crate::conn::session::{Conn, ConnView, Event, EventView};
use crate::text::byte_strings;
use vstd::prelude::*;
use vstd::slice::slice_to_vec;

verus! {

/// A line without its terminator: a line feed, or a carriage return and a
/// line feed, at its end.
pub open spec fn chomped(s: Seq<u8>) -> Seq<u8> {
    if s.len() >= 2 && s[s.len() - 2] == CR && s[s.len() - 1] == LF {
        s.take(s.len() - 2)
    } else if s.len() >= 1 && s[s.len() - 1] == LF {
        s.take(s.len() - 1)
    } else {
        s
    }
}

/// What a line that the transport read parses to, once its terminator is
/// taken off.
pub open spec fn read_line(raw: Seq<u8>) -> Option<LineView> {
    parse_spec(chomped(raw))
}

/// Whether a line that the transport read is the welcome.
pub open spec fn reads_welcome(raw: Seq<u8>) -> bool {
    read_line(raw) matches Some(line) && line.is_welcome()
}

/// The views of a list of events.
pub open spec fn event_views(events: Seq<Event>) -> Seq<EventView> {
    Seq::new(events.len(), |i: int| events[i]@)
}

impl<'a> ConnView<'a> {
    /// The session after the transport read `raw`, and the line that the
    /// owner is told of.
    ///
    /// A line that does not parse is dropped and changes nothing. Any
    /// other line is handled first, and the owner is told of it only
    /// where the session is logged in after that.
    pub open spec fn receive(self, raw: Seq<u8>) -> (ConnView<'a>, Option<LineView>) {
        match read_line(raw) {
            Some(line) => {
                let next = self.handle(line);
                (
                    next,
                    if next.logged_in {
                        Some(line)
                    } else {
                        None
                    },
                )
            },
            None => (self, None),
        }
    }

    /// The session after the transport read `lines`, one after the other,
    /// and the events that the owner is told of, in their order.
    pub open spec fn run(self, lines: Seq<Seq<u8>>) -> (ConnView<'a>, Seq<EventView>)
        decreases lines.len(),
    {
        if lines.len() == 0 {
            (self, Seq::empty())
        } else {
            let (before, events) = self.run(lines.drop_last());
            let (after, told) = before.receive(lines.last());
            (
                after,
                match told {
                    Some(line) => events.push(EventView::LineReceived(line)),
                    None => events,
                },
            )
        }
    }
}

/// A line changes whether the session is logged in only by logging it in,
/// and only the welcome does that.
pub proof fn lemma_login_by_welcome(c: ConnView, raw: Seq<u8>)
    ensures
        c.receive(raw).0.logged_in <==> c.logged_in || reads_welcome(raw),
        c.receive(raw).1 is Some ==> c.receive(raw).0.logged_in,
{
}

/// The owner is told of no line that was read before the welcome: while
/// none of the lines is the welcome, a session that is not logged in stays
/// so and gives no event.
pub proof fn lemma_no_event_before_welcome(c: ConnView, lines: Seq<Seq<u8>>)
    requires
        !c.logged_in,
        forall|i: int| 0 <= i < lines.len() ==> !reads_welcome(#[trigger] lines[i]),
    ensures
        !c.run(lines).0.logged_in,
        c.run(lines).1.len() == 0,
    decreases lines.len(),
{
    if lines.len() > 0 {
        let front = lines.drop_last();
        assert forall|i: int| 0 <= i < front.len() implies !reads_welcome(#[trigger] front[i]) by {
            assert(front[i] == lines[i]);
        }
        lemma_no_event_before_welcome(c, front);
        lemma_login_by_welcome(c.run(front).0, lines.last());
        assert(!reads_welcome(lines[lines.len() - 1]));
    }
}

/// Every event that the owner is told of is a line that was received, and
/// a session that gave one is logged in from then on.
pub proof fn lemma_events_are_lines(c: ConnView, lines: Seq<Seq<u8>>)
    ensures
        forall|i: int|
            0 <= i < c.run(lines).1.len() ==> (#[trigger] c.run(lines).1[i]) is LineReceived,
        c.logged_in || c.run(lines).1.len() > 0 ==> c.run(lines).0.logged_in,
    decreases lines.len(),
{
    if lines.len() > 0 {
        let front = lines.drop_last();
        lemma_events_are_lines(c, front);
        lemma_login_by_welcome(c.run(front).0, lines.last());
    }
}

/// Takes the terminator off a line.
pub fn chomp(s: &mut Vec<u8>)
    ensures
        final(s)@ == chomped(old(s)@),
{
    let n = s.len();
    if n >= 2 && s[n - 2] == CR && s[n - 1] == LF {
        s.truncate(n - 2);
    } else if n >= 1 && s[n - 1] == LF {
        s.truncate(n - 1);
    }
    assert(s@ =~= chomped(old(s)@));
}

impl<'a> Conn<'a> {
    /// Takes a line as the transport read it, terminator included, and
    /// returns the event to tell the owner of, if there is one.
    ///
    /// A line that does not parse is dropped. Any other line is handled
    /// first; it is then returned where the session is logged in.
    pub fn receive(&mut self, raw: &[u8]) -> (event: Option<Event>)
        ensures
            final(self)@ == old(self)@.receive(raw@).0,
            match event {
                Some(e) => old(self)@.receive(raw@).1 matches Some(line) && e@
                    == EventView::LineReceived(line),
                None => old(self)@.receive(raw@).1 is None,
            },
    {
        let mut bytes = slice_to_vec(raw);
        chomp(&mut bytes);
        match Line::parse(bytes.as_slice()) {
            Some(line) => {
                handle_line(self, &line);
                if self.logged_in() {
                    Some(Event::LineReceived(line))
                } else {
                    None
                }
            },
            None => None,
        }
    }

    /// Takes the lines that the transport read, in the order of their
    /// arrival, and returns the events to tell the owner of, in their
    /// order.
    pub fn run(&mut self, lines: &Vec<Vec<u8>>) -> (events: Vec<Event>)
        ensures
            final(self)@ == old(self)@.run(byte_strings(lines@)).0,
            event_views(events@) == old(self)@.run(byte_strings(lines@)).1,
    {
        let ghost all = byte_strings(lines@);
        let ghost start = self@;
        let mut events: Vec<Event> = Vec::new();
        let mut i: usize = 0;
        assert(all.take(0).len() == 0);
        assert(event_views(events@) =~= start.run(all.take(0)).1);
        while i < lines.len()
            invariant
                i <= lines@.len(),
                all == byte_strings(lines@),
                self@ == start.run(all.take(i as int)).0,
                event_views(events@) == start.run(all.take(i as int)).1,
            decreases lines@.len() - i,
        {
            let ghost told = event_views(events@);
            proof {
                let next = all.take(i + 1);
                assert(next.drop_last() =~= all.take(i as int));
                assert(next.last() == lines@[i as int]@);
            }
            match self.receive(lines[i].as_slice()) {
                Some(e) => {
                    events.push(e);
                    assert(event_views(events@) =~= told.push(e@));
                },
                None => {},
            }
            i += 1;
        }
        assert(all.take(lines@.len() as int) =~= all);
        events
    }
}

} // verus!
