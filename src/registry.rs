//! The registry of connected clients: each active display name with the
//! sink its messages go to.

use vstd::prelude::*;
use crate::wire::{bytes_eq, server_name, server_name_bytes, MAX_NAME_BYTES};

verus! {

/// Whether a client may go by `name`: one to `MAX_NAME_BYTES` bytes, and not
/// the server's own name.
pub open spec fn valid_name(name: Seq<u8>) -> bool {
    1 <= name.len() <= MAX_NAME_BYTES && name != server_name()
}

/// Whether no name occurs twice in `names`.
pub open spec fn distinct_names(names: Seq<Seq<u8>>) -> bool {
    forall|i: int, j: int| 0 <= i < j < names.len() ==> names[i] != names[j]
}

/// The position of `name` in `names`, where it occurs.
pub open spec fn position_of(names: Seq<Seq<u8>>, name: Seq<u8>) -> int {
    choose|i: int| 0 <= i < names.len() && names[i] == name
}

/// The names of a list of members, in order.
pub open spec fn names_of(members: Seq<(Seq<u8>, bool)>) -> Seq<Seq<u8>> {
    members.map_values(|m: (Seq<u8>, bool)| m.0)
}

/// `members` after `name`'s `Enter` has been dispatched: that member is
/// marked as entered, the others are unchanged.
pub open spec fn mark_entered(members: Seq<(Seq<u8>, bool)>, name: Seq<u8>) -> Seq<(Seq<u8>, bool)> {
    members.map_values(|m: (Seq<u8>, bool)| if m.0 == name { (m.0, true) } else { m })
}

/// `members` after `name` has left; unchanged where it was not there.
pub open spec fn remove_member(members: Seq<(Seq<u8>, bool)>, name: Seq<u8>) -> Seq<(Seq<u8>, bool)> {
    if names_of(members).contains(name) {
        members.remove(position_of(names_of(members), name))
    } else {
        members
    }
}

/// Whether `name` is registered and its `Enter` has been dispatched.
pub open spec fn has_entered(members: Seq<(Seq<u8>, bool)>, name: Seq<u8>) -> bool {
    members.contains((name, true))
}

/// One registered client.
struct Client<S> {
    name: Vec<u8>,
    sink: S,
    /// Whether its `Enter` has been dispatched; until then it is sent
    /// nothing but its own welcome.
    entered: bool,
}

/// The active clients, in the order in which they registered.
pub struct Registry<S> {
    clients: Vec<Client<S>>,
}

impl<S> Registry<S> {
    /// The registered clients, in registration order: each one's name, and
    /// whether its `Enter` has been dispatched.
    pub closed spec fn members(&self) -> Seq<(Seq<u8>, bool)> {
        self.clients@.map_values(|c: Client<S>| (c.name@, c.entered))
    }

    /// The names of the registered clients, in registration order.
    pub open spec fn names(&self) -> Seq<Seq<u8>> {
        names_of(self.members())
    }

    /// The sinks of the registered clients, each at its client's position in
    /// `names`.
    pub closed spec fn sinks(&self) -> Seq<S> {
        self.clients@.map_values(|c: Client<S>| c.sink)
    }

    /// Names are unique and valid, and each has one sink.
    pub open spec fn wf(&self) -> bool {
        &&& self.names().len() == self.sinks().len()
        &&& distinct_names(self.names())
        &&& forall|i: int| 0 <= i < self.names().len() ==> valid_name(#[trigger] self.names()[i])
    }

    /// An empty registry.
    pub fn new() -> (r: Self)
        ensures
            r.wf(),
            r.members() == Seq::<(Seq<u8>, bool)>::empty(),
    {
        let r = Registry { clients: Vec::new() };
        assert(r.members() =~= Seq::<(Seq<u8>, bool)>::empty());
        r
    }

    /// The number of registered clients.
    pub fn len(&self) -> (r: usize)
        ensures
            r == self.names().len(),
    {
        self.clients.len()
    }

    /// The name at position `i`.
    pub fn name_at(&self, i: usize) -> (r: &Vec<u8>)
        requires
            i < self.names().len(),
        ensures
            r@ == self.names()[i as int],
    {
        &self.clients[i].name
    }

    /// Whether the `Enter` of the client at position `i` has been dispatched.
    pub fn entered_at(&self, i: usize) -> (r: bool)
        requires
            i < self.names().len(),
        ensures
            r == self.members()[i as int].1,
    {
        self.clients[i].entered
    }

    /// Where `name` stands in the registry, if it is registered.
    pub fn find(&self, name: &[u8]) -> (r: Option<usize>)
        requires
            self.wf(),
        ensures
            match r {
                Some(i) => i < self.names().len() && self.names()[i as int] == name@
                    && i == position_of(self.names(), name@),
                None => !self.names().contains(name@),
            },
    {
        let mut i: usize = 0;
        while i < self.clients.len()
            invariant
                self.wf(),
                i <= self.names().len(),
                forall|j: int| 0 <= j < i ==> self.names()[j] != name@,
            decreases self.names().len() - i,
        {
            if bytes_eq(self.clients[i].name.as_slice(), name) {
                proof {
                    let names = self.names();
                    assert(names[i as int] == self.members()[i as int].0);
                    assert(names[i as int] == name@);
                    assert(names.contains(name@));
                    let p = position_of(names, name@);
                    assert(0 <= p < names.len() && names[p] == name@);
                    if p != i as int {
                        if p < i {
                            assert(names[p] != name@);
                        } else {
                            assert(names[i as int] != names[p]);
                        }
                    }
                }
                return Some(i);
            }
            assert(self.names()[i as int] == self.members()[i as int].0);
            i = i + 1;
        }
        proof {
            let names = self.names();
            if names.contains(name@) {
                let k = choose|k: int| 0 <= k < names.len() && names[k] == name@;
                assert(names[k] != name@);
            }
        }
        None
    }

    /// Whether `name` is registered.
    pub fn contains(&self, name: &[u8]) -> (r: bool)
        requires
            self.wf(),
        ensures
            r == self.names().contains(name@),
    {
        self.find(name).is_some()
    }

    /// The sink of the client registered as `name`.
    pub fn get_sink(&self, name: &[u8]) -> (r: Option<&S>)
        requires
            self.wf(),
        ensures
            match r {
                Some(s) => self.names().contains(name@)
                    && *s == self.sinks()[position_of(self.names(), name@)],
                None => !self.names().contains(name@),
            },
    {
        match self.find(name) {
            Some(i) => Some(&self.clients[i].sink),
            None => None,
        }
    }

    /// Registers `name` with `sink` in one indivisible step, unless the name
    /// is not valid or is taken; then the sink is handed back and nothing
    /// changes.
    pub fn try_insert(&mut self, name: Vec<u8>, sink: S) -> (r: Result<(), S>)
        requires
            old(self).wf(),
        ensures
            final(self).wf(),
            r is Ok <==> valid_name(name@) && !old(self).names().contains(name@),
            r is Ok ==> final(self).members() == old(self).members().push((name@, false))
                && final(self).sinks() == old(self).sinks().push(sink),
            r matches Err(s) ==> s == sink && final(self).members() == old(self).members()
                && final(self).sinks() == old(self).sinks(),
    {
        let reserved = server_name_bytes();
        if name.len() == 0 || name.len() > MAX_NAME_BYTES || bytes_eq(name.as_slice(), reserved.as_slice()) {
            return Err(sink);
        }
        if self.contains(name.as_slice()) {
            return Err(sink);
        }
        let ghost old_members = self.members();
        let ghost old_names = self.names();
        let ghost old_sinks = self.sinks();
        let ghost n = name@;
        self.clients.push(Client { name, sink, entered: false });
        assert(self.members() =~= old_members.push((n, false)));
        assert(self.names() =~= old_names.push(n));
        assert(self.sinks() =~= old_sinks.push(sink));
        Ok(())
    }

    /// Removes the client registered as `name`, if there is one; other
    /// clients keep their order.
    pub fn remove(&mut self, name: &[u8])
        requires
            old(self).wf(),
        ensures
            final(self).wf(),
            final(self).members() == remove_member(old(self).members(), name@),
            old(self).names().contains(name@) ==> final(self).sinks() == old(self).sinks().remove(
                position_of(old(self).names(), name@),
            ),
            !old(self).names().contains(name@) ==> final(self).sinks() == old(self).sinks(),
    {
        match self.find(name) {
            Some(i) => {
                let ghost old_members = self.members();
                let ghost old_names = self.names();
                let ghost old_sinks = self.sinks();
                self.clients.remove(i);
                assert(self.members() =~= old_members.remove(i as int));
                assert(self.names() =~= old_names.remove(i as int));
                assert(self.sinks() =~= old_sinks.remove(i as int));
                assert forall|a: int, b: int| 0 <= a < b < self.names().len() implies
                    self.names()[a] != self.names()[b] by {
                    let a0 = if a < i { a } else { a + 1 };
                    let b0 = if b < i { b } else { b + 1 };
                    assert(self.names()[a] == old_names[a0]);
                    assert(self.names()[b] == old_names[b0]);
                }
                assert forall|k: int| 0 <= k < self.names().len() implies
                    valid_name(#[trigger] self.names()[k]) by {
                    let k0 = if k < i { k } else { k + 1 };
                    assert(self.names()[k] == old_names[k0]);
                }
            },
            None => {},
        }
    }

    /// Marks the client registered as `name` as entered, once its `Enter`
    /// is dispatched; nothing else changes.
    pub fn set_entered(&mut self, name: &[u8])
        requires
            old(self).wf(),
        ensures
            final(self).wf(),
            final(self).members() == mark_entered(old(self).members(), name@),
            final(self).sinks() == old(self).sinks(),
    {
        let ghost old_members = self.members();
        let ghost old_sinks = self.sinks();
        match self.find(name) {
            Some(i) => {
                let c = self.clients.remove(i);
                self.clients.insert(i, Client { name: c.name, sink: c.sink, entered: true });
                assert(self.sinks() =~= old_sinks);
                assert forall|k: int| 0 <= k < old_members.len() implies
                    self.members()[k] == mark_entered(old_members, name@)[k] by {
                    if k != i {
                        assert(old_members[k].0 == old_members.map_values(|m: (Seq<u8>, bool)| m.0)[k]);
                        assert(old_members[i as int].0 == old_members.map_values(|m: (Seq<u8>, bool)| m.0)[i as int]);
                        if k < i {
                            assert(names_of(old_members)[k] != names_of(old_members)[i as int]);
                        } else {
                            assert(names_of(old_members)[i as int] != names_of(old_members)[k]);
                        }
                    }
                }
                assert(self.members() =~= mark_entered(old_members, name@));
                assert(self.names() =~= names_of(old_members));
            },
            None => {
                assert forall|k: int| 0 <= k < old_members.len() implies
                    self.members()[k] == mark_entered(old_members, name@)[k] by {
                    assert(names_of(old_members)[k] == old_members[k].0);
                }
                assert(self.members() =~= mark_entered(old_members, name@));
            },
        }
    }
}

/// However the registry was filled, it never holds two clients under one
/// name, nor one under the server's name.
pub proof fn lemma_names_unique_and_not_reserved<S>(reg: &Registry<S>)
    requires
        reg.wf(),
    ensures
        forall|i: int, j: int|
            0 <= i < reg.names().len() && 0 <= j < reg.names().len() && i != j
                ==> reg.names()[i] != reg.names()[j],
        !reg.names().contains(server_name()),
{
    assert forall|i: int, j: int|
        0 <= i < reg.names().len() && 0 <= j < reg.names().len() && i != j
            implies reg.names()[i] != reg.names()[j] by {
        if i > j {
            assert(reg.names()[j] != reg.names()[i]);
        }
    }
    if reg.names().contains(server_name()) {
        let k = choose|k: int| 0 <= k < reg.names().len() && reg.names()[k] == server_name();
        assert(valid_name(reg.names()[k]));
    }
}

} // verus!
