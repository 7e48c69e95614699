//! The dispatcher: applies one event at a time to the registry and says
//! which bytes go to which client, so that every broadcast falls into one
//! global order.

use vstd::prelude::*;
use vstd::string::StringSliceAdditionalSpecFns;
use crate::event::{Event, EventKind, EventQueue};
use crate::registry::{
    distinct_names, has_entered, mark_entered, names_of, position_of, remove_member, Registry,
};
use crate::wire::{
    append_bytes, bytes_eq, entered_body, entered_text, frame, join_names, left_body, left_text,
    make_frame, no_users_body, no_users_text, server_name, server_notice, to_bytes, users_body,
    welcome_body, welcome_text,
};

verus! {

/// Bytes to be written to the sink of the client registered as `to`.
#[derive(Debug)]
pub struct Delivery {
    pub to: Vec<u8>,
    pub text: Vec<u8>,
}

impl View for Delivery {
    type V = (Seq<u8>, Seq<u8>);

    open spec fn view(&self) -> (Seq<u8>, Seq<u8>) {
        (self.to@, self.text@)
    }
}

/// The abstract value of a list of deliveries, in order.
pub open spec fn deliveries_view(ds: Seq<Delivery>) -> Seq<(Seq<u8>, Seq<u8>)> {
    ds.map_values(|d: Delivery| d@)
}

/// Whether a member hears about `sender`: it has entered and is not
/// `sender` itself.
pub open spec fn hears(sender: Seq<u8>) -> spec_fn((Seq<u8>, bool)) -> bool {
    |m: (Seq<u8>, bool)| m.1 && m.0 != sender
}

/// Whether a member is written to in the sweep of `sender`'s `Enter`: it is
/// the entrant, or it has entered before.
pub open spec fn swept_by(sender: Seq<u8>) -> spec_fn((Seq<u8>, bool)) -> bool {
    |m: (Seq<u8>, bool)| m.0 == sender || m.1
}

/// The clients that hear about `sender`, in registry order.
pub open spec fn listeners(members: Seq<(Seq<u8>, bool)>, sender: Seq<u8>) -> Seq<Seq<u8>> {
    names_of(members.filter(hears(sender)))
}

/// The same text to each of `names`, in order.
pub open spec fn to_each(names: Seq<Seq<u8>>, text: Seq<u8>) -> Seq<(Seq<u8>, Seq<u8>)> {
    names.map_values(|n: Seq<u8>| (n, text))
}

/// The one-pass sweep of an `Enter`: the entrant is welcomed, every member
/// that has entered before is told that it has entered.
pub open spec fn enter_sweep(members: Seq<(Seq<u8>, bool)>, sender: Seq<u8>) -> Seq<(Seq<u8>, Seq<u8>)> {
    members.filter(swept_by(sender)).map_values(
        |m: (Seq<u8>, bool)|
            if m.0 == sender {
                (m.0, frame(server_name(), welcome_body(sender)))
            } else {
                (m.0, frame(server_name(), entered_body(sender)))
            },
    )
}

/// What the entrant is told after the sweep: who else is in the room.
pub open spec fn roll_call(members: Seq<(Seq<u8>, bool)>, sender: Seq<u8>) -> Seq<u8> {
    if listeners(members, sender).len() > 0 {
        frame(server_name(), users_body(listeners(members, sender)))
    } else {
        frame(server_name(), no_users_body())
    }
}

/// The writes an event causes, given the registry's members. Writes go
/// only to members whose `Enter` has been dispatched, but for the entrant's
/// own welcome and list. An `Enter` of an unregistered name, or an `Exit`
/// of a name that has not entered, writes nothing.
pub open spec fn deliveries_for(
    members: Seq<(Seq<u8>, bool)>,
    e: (EventKind, Seq<u8>, Seq<u8>),
) -> Seq<(Seq<u8>, Seq<u8>)> {
    let (kind, sender, payload) = e;
    match kind {
        EventKind::Enter => if names_of(members).contains(sender) {
            enter_sweep(members, sender).push((sender, roll_call(members, sender)))
        } else {
            Seq::empty()
        },
        EventKind::Relay => to_each(listeners(members, sender), frame(sender, payload)),
        EventKind::Exit => if has_entered(members, sender) {
            to_each(listeners(members, sender), frame(server_name(), left_body(sender)))
        } else {
            Seq::empty()
        },
    }
}

/// The registry's members after an event: an `Enter` marks its sender as
/// entered, an `Exit` removes it, a `Relay` changes nothing.
pub open spec fn members_after(
    members: Seq<(Seq<u8>, bool)>,
    e: (EventKind, Seq<u8>, Seq<u8>),
) -> Seq<(Seq<u8>, bool)> {
    match e.0 {
        EventKind::Enter => mark_entered(members, e.1),
        EventKind::Relay => members,
        EventKind::Exit => remove_member(members, e.1),
    }
}

/// The members and all writes, in order, after the events of `events` are
/// dispatched one after another, starting from `members`.
pub open spec fn run(members: Seq<(Seq<u8>, bool)>, events: Seq<(EventKind, Seq<u8>, Seq<u8>)>) -> (
    Seq<(Seq<u8>, bool)>,
    Seq<(Seq<u8>, Seq<u8>)>,
)
    decreases events.len(),
{
    if events.len() == 0 {
        (members, Seq::empty())
    } else {
        let (before, done) = run(members, events.drop_last());
        (members_after(before, events.last()), done + deliveries_for(before, events.last()))
    }
}

/// `text` for every listener of `sender`, in registry order.
fn to_listeners<S>(reg: &Registry<S>, sender: &[u8], text: &[u8]) -> (r: Vec<Delivery>)
    requires
        reg.wf(),
    ensures
        deliveries_view(r@) == to_each(listeners(reg.members(), sender@), text@),
{
    let ghost ms = reg.members();
    let ghost p = hears(sender@);
    let mut out: Vec<Delivery> = Vec::new();
    let mut i: usize = 0;
    while i < reg.len()
        invariant
            reg.wf(),
            ms == reg.members(),
            p == hears(sender@),
            i <= ms.len(),
            deliveries_view(out@) == to_each(names_of(ms.take(i as int).filter(p)), text@),
        decreases ms.len() - i,
    {
        let name = reg.name_at(i);
        let entered = reg.entered_at(i);
        let ghost before = out@;
        proof {
            assert(ms.take(i + 1) =~= ms.take(i as int).push(ms[i as int]));
            ms.take(i as int).lemma_filter_push(ms[i as int], p);
            assert(name@ == ms[i as int].0);
        }
        if entered && !bytes_eq(name.as_slice(), sender) {
            out.push(Delivery { to: to_bytes(name.as_slice()), text: to_bytes(text) });
            assert(deliveries_view(out@) =~= deliveries_view(before).push((ms[i as int].0, text@)));
        }
        i = i + 1;
        assert(deliveries_view(out@) =~= to_each(names_of(ms.take(i as int).filter(p)), text@));
    }
    assert(ms.take(ms.len() as int) =~= ms);
    out
}

/// Joining one more name onto a list adds it after a `, `, or alone where
/// the list was empty.
proof fn lemma_join_push(names: Seq<Seq<u8>>, name: Seq<u8>)
    ensures
        join_names(names.push(name)) == if names.len() == 0 {
            name
        } else {
            join_names(names) + ", ".spec_bytes() + name
        },
{
    assert(names.push(name).drop_last() =~= names);
}

/// The body listing the listeners of `sender`.
/// Says too whether there is any listener.
fn users_text<S>(reg: &Registry<S>, sender: &[u8]) -> (r: (Vec<u8>, bool))
    requires
        reg.wf(),
    ensures
        r.0@ == users_body(listeners(reg.members(), sender@)),
        r.1 == (listeners(reg.members(), sender@).len() > 0),
{
    let ghost ms = reg.members();
    let ghost p = hears(sender@);
    let mut joined: Vec<u8> = Vec::new();
    let mut any = false;
    let mut i: usize = 0;
    while i < reg.len()
        invariant
            reg.wf(),
            ms == reg.members(),
            p == hears(sender@),
            i <= ms.len(),
            joined@ == join_names(names_of(ms.take(i as int).filter(p))),
            any == (ms.take(i as int).filter(p).len() > 0),
        decreases ms.len() - i,
    {
        let name = reg.name_at(i);
        let entered = reg.entered_at(i);
        let ghost so_far = ms.take(i as int).filter(p);
        proof {
            assert(ms.take(i + 1) =~= ms.take(i as int).push(ms[i as int]));
            ms.take(i as int).lemma_filter_push(ms[i as int], p);
            assert(name@ == ms[i as int].0);
        }
        if entered && !bytes_eq(name.as_slice(), sender) {
            proof {
                lemma_join_push(names_of(so_far), ms[i as int].0);
                assert(names_of(so_far.push(ms[i as int])) =~= names_of(so_far).push(ms[i as int].0));
            }
            if any {
                append_bytes(&mut joined, ", ".as_bytes());
            }
            append_bytes(&mut joined, name.as_slice());
            any = true;
            assert(joined@ =~= join_names(names_of(ms.take(i + 1).filter(p))));
        }
        i = i + 1;
    }
    assert(ms.take(ms.len() as int) =~= ms);
    let mut r = to_bytes("users in chat: ".as_bytes());
    append_bytes(&mut r, joined.as_slice());
    (r, any)
}

/// The sweep of an `Enter`: the welcome for the entrant, the notice for
/// every member that has entered before, in registry order.
fn sweep_enter<S>(reg: &Registry<S>, sender: &[u8]) -> (r: Vec<Delivery>)
    requires
        reg.wf(),
    ensures
        deliveries_view(r@) == enter_sweep(reg.members(), sender@),
{
    let ghost ms = reg.members();
    let ghost p = swept_by(sender@);
    let ghost f = |m: (Seq<u8>, bool)|
        if m.0 == sender@ {
            (m.0, frame(server_name(), welcome_body(sender@)))
        } else {
            (m.0, frame(server_name(), entered_body(sender@)))
        };
    let welcome = server_notice(welcome_text(sender).as_slice());
    let entered_notice = server_notice(entered_text(sender).as_slice());
    let mut out: Vec<Delivery> = Vec::new();
    let mut i: usize = 0;
    while i < reg.len()
        invariant
            reg.wf(),
            ms == reg.members(),
            p == swept_by(sender@),
            f == (|m: (Seq<u8>, bool)|
                if m.0 == sender@ {
                    (m.0, frame(server_name(), welcome_body(sender@)))
                } else {
                    (m.0, frame(server_name(), entered_body(sender@)))
                }),
            i <= ms.len(),
            welcome@ == frame(server_name(), welcome_body(sender@)),
            entered_notice@ == frame(server_name(), entered_body(sender@)),
            deliveries_view(out@) == ms.take(i as int).filter(p).map_values(f),
        decreases ms.len() - i,
    {
        let name = reg.name_at(i);
        let entered = reg.entered_at(i);
        let ghost before = out@;
        proof {
            assert(ms.take(i + 1) =~= ms.take(i as int).push(ms[i as int]));
            ms.take(i as int).lemma_filter_push(ms[i as int], p);
            assert(name@ == ms[i as int].0);
        }
        let is_sender = bytes_eq(name.as_slice(), sender);
        if is_sender || entered {
            let text = if is_sender {
                to_bytes(welcome.as_slice())
            } else {
                to_bytes(entered_notice.as_slice())
            };
            out.push(Delivery { to: to_bytes(name.as_slice()), text });
            assert(deliveries_view(out@) =~= deliveries_view(before).push(f(ms[i as int])));
        }
        i = i + 1;
        assert(deliveries_view(out@) =~= ms.take(i as int).filter(p).map_values(f));
    }
    assert(ms.take(ms.len() as int) =~= ms);
    out
}

/// Applies one event to the registry and returns the writes it causes, in
/// the order they are to be made. An `Enter` marks its sender as entered
/// once its sweep and list are made; an `Exit` removes its sender once
/// every listener has been told.
pub fn dispatch<S>(reg: &mut Registry<S>, event: &Event) -> (r: Vec<Delivery>)
    requires
        old(reg).wf(),
    ensures
        final(reg).wf(),
        final(reg).members() == members_after(old(reg).members(), event@),
        deliveries_view(r@) == deliveries_for(old(reg).members(), event@),
        event.kind != EventKind::Exit || !old(reg).names().contains(event.sender@)
            ==> final(reg).sinks() == old(reg).sinks(),
        event.kind == EventKind::Exit && old(reg).names().contains(event.sender@)
            ==> final(reg).sinks() == old(reg).sinks().remove(
            position_of(old(reg).names(), event.sender@),
        ),
{
    let sender = event.sender.as_slice();
    match event.kind {
        EventKind::Enter => {
            if !reg.contains(sender) {
                reg.set_entered(sender);
                assert(deliveries_view(Seq::<Delivery>::empty()) =~= Seq::empty());
                return Vec::new();
            }
            let mut out = sweep_enter(reg, sender);
            let (users, any) = users_text(reg, sender);
            let body = if any {
                users
            } else {
                no_users_text()
            };
            let ghost before = out@;
            out.push(Delivery { to: to_bytes(sender), text: server_notice(body.as_slice()) });
            assert(deliveries_view(out@) =~= deliveries_view(before).push(
                (event.sender@, roll_call(reg.members(), event.sender@)),
            ));
            reg.set_entered(sender);
            out
        },
        EventKind::Relay => {
            let text = make_frame(sender, event.payload.as_slice());
            to_listeners(reg, sender, text.as_slice())
        },
        EventKind::Exit => {
            let out = match reg.find(sender) {
                Some(i) => {
                    if reg.entered_at(i) {
                        proof {
                            assert(reg.members()[i as int] == (event.sender@, true));
                        }
                        let text = server_notice(left_text(sender).as_slice());
                        to_listeners(reg, sender, text.as_slice())
                    } else {
                        proof {
                            lemma_entered_at_position(reg.members(), event.sender@, i as int);
                        }
                        assert(deliveries_view(Seq::<Delivery>::empty()) =~= Seq::empty());
                        Vec::new()
                    }
                },
                None => {
                    proof {
                        if has_entered(reg.members(), event.sender@) {
                            let k = choose|k: int| 0 <= k < reg.members().len() && reg.members()[k] == (event.sender@, true);
                            assert(reg.names()[k] == event.sender@);
                        }
                    }
                    assert(deliveries_view(Seq::<Delivery>::empty()) =~= Seq::empty());
                    Vec::new()
                },
            };
            reg.remove(sender);
            out
        },
    }
}

/// The abstract values of a list of events, in order.
pub open spec fn events_view(es: Seq<Event>) -> Seq<(EventKind, Seq<u8>, Seq<u8>)> {
    es.map_values(|e: Event| e@)
}

/// Dispatches every waiting event, oldest first, each one in full before
/// the next, and returns all their writes in that order; the queue is left
/// empty.
pub fn dispatch_all<S>(reg: &mut Registry<S>, queue: &mut EventQueue) -> (r: Vec<Delivery>)
    requires
        old(reg).wf(),
        old(queue).wf(),
    ensures
        final(reg).wf(),
        final(queue).wf(),
        final(queue).pending() == Seq::<Event>::empty(),
        final(queue).bound() == old(queue).bound(),
        (final(reg).members(), deliveries_view(r@)) == run(
            old(reg).members(),
            events_view(old(queue).pending()),
        ),
{
    let ghost start = reg.members();
    let ghost all = events_view(queue.pending());
    let mut out: Vec<Delivery> = Vec::new();
    assert(all.take(0) =~= Seq::<(EventKind, Seq<u8>, Seq<u8>)>::empty());
    assert(deliveries_view(out@) =~= Seq::empty());
    loop
        invariant
            reg.wf(),
            queue.wf(),
            queue.bound() == old(queue).bound(),
            all == events_view(old(queue).pending()),
            queue.pending().len() <= all.len(),
            events_view(queue.pending()) == all.skip(all.len() - queue.pending().len()),
            (reg.members(), deliveries_view(out@)) == run(
                start,
                all.take(all.len() - queue.pending().len()),
            ),
        ensures
            queue.pending().len() == 0,
            (reg.members(), deliveries_view(out@)) == run(start, all),
        decreases queue.pending().len(),
    {
        let ghost done = all.len() - queue.pending().len();
        let ghost cur = queue.pending();
        match queue.pop() {
            None => {
                assert(all.take(all.len() as int) =~= all);
                break;
            },
            Some(e) => {
                proof {
                    assert(e == cur[0]);
                    assert(e@ == events_view(cur)[0]);
                    assert(all.skip(done)[0] == all[done]);
                    assert(e@ == all[done]);
                    assert(queue.pending() == cur.drop_first());
                    assert forall|k: int| 0 <= k < queue.pending().len() implies
                        events_view(queue.pending())[k] == all.skip(done + 1)[k] by {
                        assert(queue.pending()[k] == cur[k + 1]);
                        assert(events_view(cur)[k + 1] == all.skip(done)[k + 1]);
                    }
                    assert(events_view(queue.pending()) =~= all.skip(done + 1));
                    assert(all.take(done + 1).drop_last() =~= all.take(done));
                    assert(all.take(done + 1).last() == all[done]);
                }
                let mut ds = dispatch(reg, &e);
                let ghost before = out@;
                out.append(&mut ds);
                assert(deliveries_view(out@) =~= deliveries_view(before) + deliveries_for(
                    run(start, all.take(done)).0,
                    all[done],
                ));
            },
        }
    }
    out
}

/// With unique names, a member has entered exactly when the entry at its
/// position says so.
proof fn lemma_entered_at_position(members: Seq<(Seq<u8>, bool)>, name: Seq<u8>, i: int)
    requires
        distinct_names(names_of(members)),
        0 <= i < members.len(),
        members[i].0 == name,
    ensures
        has_entered(members, name) == members[i].1,
{
    if has_entered(members, name) {
        let k = choose|k: int| 0 <= k < members.len() && members[k] == (name, true);
        assert(names_of(members)[k] == name);
        assert(names_of(members)[i] == name);
        if k < i {
            assert(names_of(members)[k] != names_of(members)[i]);
        } else if k > i {
            assert(names_of(members)[i] != names_of(members)[k]);
        }
    } else if members[i].1 {
        assert(members[i] == (name, true));
    }
}

/// Dispatch keeps the order of the events: the writes for a run of events
/// followed by another run are all the writes of the first run, then all
/// those of the second, made on the registry the first run left.
pub proof fn lemma_run_append(
    members: Seq<(Seq<u8>, bool)>,
    first: Seq<(EventKind, Seq<u8>, Seq<u8>)>,
    then: Seq<(EventKind, Seq<u8>, Seq<u8>)>,
)
    ensures
        run(members, first + then) == (
            run(run(members, first).0, then).0,
            run(members, first).1 + run(run(members, first).0, then).1,
        ),
    decreases then.len(),
{
    let mid = run(members, first).0;
    if then.len() == 0 {
        assert(first + then =~= first);
        assert(run(members, first).1 + Seq::empty() =~= run(members, first).1);
    } else {
        assert((first + then).drop_last() =~= first + then.drop_last());
        assert((first + then).last() == then.last());
        lemma_run_append(members, first, then.drop_last());
        let (before, _) = run(mid, then.drop_last());
        assert(run(members, first).1 + run(mid, then.drop_last()).1 + deliveries_for(before, then.last())
            =~= run(members, first).1 + (run(mid, then.drop_last()).1 + deliveries_for(before, then.last())));
    }
}

/// An `Exit` for a name that is not registered writes nothing to anyone
/// and leaves the registry as it was.
pub proof fn lemma_exit_of_absent_name(members: Seq<(Seq<u8>, bool)>, sender: Seq<u8>, payload: Seq<u8>)
    requires
        !names_of(members).contains(sender),
    ensures
        deliveries_for(members, (EventKind::Exit, sender, payload)) == Seq::<(Seq<u8>, Seq<u8>)>::empty(),
        members_after(members, (EventKind::Exit, sender, payload)) == members,
{
    if has_entered(members, sender) {
        let k = choose|k: int| 0 <= k < members.len() && members[k] == (sender, true);
        assert(names_of(members)[k] == sender);
    }
}

/// After its `Exit`, a name is no longer registered and may be taken again.
pub proof fn lemma_exit_frees_name(members: Seq<(Seq<u8>, bool)>, sender: Seq<u8>, payload: Seq<u8>)
    requires
        distinct_names(names_of(members)),
    ensures
        !names_of(members_after(members, (EventKind::Exit, sender, payload))).contains(sender),
{
    let names = names_of(members);
    if names.contains(sender) {
        let p = position_of(names, sender);
        let rest = members.remove(p);
        assert(0 <= p < names.len() && names[p] == sender);
        assert(names_of(rest) =~= names.remove(p));
        assert forall|k: int| 0 <= k < rest.len() implies names_of(rest)[k] != sender by {
            if k < p {
                assert(names_of(rest)[k] == names[k]);
            } else {
                assert(names_of(rest)[k] == names[k + 1]);
            }
        }
    }
}

/// A client is sent nothing before its `Enter` is dispatched but its own
/// welcome and list: every write an event causes goes to a member that
/// has entered, or is the entrant's own.
pub proof fn lemma_writes_only_to_entered(members: Seq<(Seq<u8>, bool)>, e: (EventKind, Seq<u8>, Seq<u8>), i: int)
    requires
        0 <= i < deliveries_for(members, e).len(),
    ensures
        has_entered(members, deliveries_for(members, e)[i].0)
            || (e.0 == EventKind::Enter && deliveries_for(members, e)[i].0 == e.1),
{
    let (kind, sender, payload) = e;
    let ds = deliveries_for(members, e);
    let to = ds[i].0;
    match kind {
        EventKind::Enter => {
            let p = swept_by(sender);
            let swept = members.filter(p);
            let sweep = enter_sweep(members, sender);
            assert(names_of(members).contains(sender));
            assert(ds == sweep.push((sender, roll_call(members, sender))));
            assert(sweep.len() == swept.len());
            if i < swept.len() {
                assert(to == sweep[i].0);
                assert(sweep[i].0 == swept[i].0);
                assert(p(swept[i])) by { members.lemma_filter_pred(p, i); }
                if swept[i].0 != sender {
                    assert(swept.contains(swept[i]));
                    members.lemma_filter_contains_rev(p, swept[i]);
                    assert(swept[i] == (to, true));
                }
            } else {
                assert(to == sender);
            }
        },
        _ => {
            let p = hears(sender);
            let heard = members.filter(p);
            let text = if kind == EventKind::Relay {
                frame(sender, payload)
            } else {
                frame(server_name(), left_body(sender))
            };
            assert(ds == to_each(names_of(heard), text));
            assert(i < heard.len());
            assert(to == names_of(heard)[i]);
            assert(to == heard[i].0);
            assert(p(heard[i])) by { members.lemma_filter_pred(p, i); }
            assert(heard.contains(heard[i]));
            members.lemma_filter_contains_rev(p, heard[i]);
            assert(heard[i] == (to, true));
        },
    }
}

} // verus!
