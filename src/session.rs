//! One client's connection: the name it asks for, and the events its lines
//! and its end produce.

use vstd::prelude::*;
use crate::event::{Event, EventKind};
use crate::registry::{valid_name, Registry};
use crate::wire::{
    frame, line_payload, normalize_name, normalized_name, server_name, server_notice,
    strip_line_end, taken_body, taken_text, to_bytes,
};

verus! {

/// A name that was not accepted: the sink of the connection that asked,
/// and the one line to write to it before it is closed.
pub struct Refusal<S> {
    pub sink: S,
    pub reply: Vec<u8>,
}

/// A registered client's connection, from its `Enter` to its `Exit`.
#[derive(Debug)]
pub struct Session {
    name: Vec<u8>,
    open: bool,
}

impl Session {
    /// The name the client is registered under.
    pub closed spec fn name_view(&self) -> Seq<u8> {
        self.name@
    }

    /// Whether the connection has not ended yet.
    pub closed spec fn is_open(&self) -> bool {
        self.open
    }

    /// The name the client is registered under.
    pub fn name(&self) -> (r: &Vec<u8>)
        ensures
            r@ == self.name_view(),
    {
        &self.name
    }

    /// Whether the connection has not ended yet.
    pub fn open(&self) -> (r: bool)
        ensures
            r == self.is_open(),
    {
        self.open
    }

    /// A chat line read from the connection becomes a `Relay`; after the
    /// end of the connection nothing does.
    pub fn on_line(&self, raw: &[u8]) -> (r: Option<Event>)
        ensures
            self.is_open() ==> (r matches Some(e)
                && e@ == (EventKind::Relay, self.name_view(), line_payload(raw@))),
            !self.is_open() ==> r is None,
    {
        if !self.open {
            return None;
        }
        Some(Event::relay(self.name.as_slice(), strip_line_end(raw)))
    }

    /// The end of the connection, by close or by a read failure, becomes
    /// the one `Exit` of this client; any later end becomes nothing.
    pub fn on_close(&mut self) -> (r: Option<Event>)
        ensures
            final(self).name_view() == old(self).name_view(),
            !final(self).is_open(),
            old(self).is_open() ==> (r matches Some(e)
                && e@ == (EventKind::Exit, old(self).name_view(), Seq::<u8>::empty())),
            !old(self).is_open() ==> r is None,
    {
        if !self.open {
            return None;
        }
        self.open = false;
        Some(Event::exit(self.name.as_slice()))
    }
}

/// Whether a first line `raw` is accepted while `names` are registered:
/// its normalized form is a valid name that nobody holds.
pub open spec fn admits(names: Seq<Seq<u8>>, raw: Seq<u8>) -> bool {
    valid_name(normalized_name(raw)) && !names.contains(normalized_name(raw))
}

/// Two requests for the same name, handled one after the other, are never
/// both accepted: once the first is registered, the second is refused.
pub proof fn lemma_one_claim_wins(names: Seq<Seq<u8>>, first: Seq<u8>, second: Seq<u8>)
    requires
        normalized_name(first) == normalized_name(second),
    ensures
        !(admits(names, first) && admits(names.push(normalized_name(first)), second)),
{
    let grown = names.push(normalized_name(first));
    assert(grown[names.len() as int] == normalized_name(second));
}

/// Takes the first line of a connection as the name it asks for, normalizes
/// it, and registers it with `sink` in one step, as not yet entered: it is
/// sent nothing until its `Enter` is dispatched. On success the client's
/// session and its `Enter` event are returned; when the name is not valid
/// or already taken, the registry is unchanged and the sink is handed back
/// with the refusal to write to it.
pub fn negotiate<S>(reg: &mut Registry<S>, raw: &[u8], sink: S) -> (r: Result<(Session, Event), Refusal<S>>)
    requires
        old(reg).wf(),
    ensures
        final(reg).wf(),
        r is Ok <==> admits(old(reg).names(), raw@),
        r matches Ok((s, e)) ==> {
            &&& s.name_view() == normalized_name(raw@)
            &&& s.is_open()
            &&& e@ == (EventKind::Enter, normalized_name(raw@), Seq::<u8>::empty())
            &&& final(reg).members() == old(reg).members().push((normalized_name(raw@), false))
            &&& final(reg).sinks() == old(reg).sinks().push(sink)
        },
        r matches Err(f) ==> {
            &&& f.sink == sink
            &&& f.reply@ == frame(server_name(), taken_body(normalized_name(raw@)))
            &&& final(reg).members() == old(reg).members()
            &&& final(reg).sinks() == old(reg).sinks()
        },
{
    let name = normalize_name(raw);
    match reg.try_insert(to_bytes(name.as_slice()), sink) {
        Ok(()) => {
            let e = Event::enter(name.as_slice());
            Ok((Session { name, open: true }, e))
        },
        Err(sink) => {
            let reply = server_notice(taken_text(name.as_slice()).as_slice());
            Err(Refusal { sink, reply })
        },
    }
}

} // verus!
