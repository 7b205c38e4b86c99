//! The hub: the one owner of the registry of connected clients, which fans
//! every shout out to each of them.
use std::sync::mpsc::Sender;
use vstd::prelude::*;

use crate::text::{bytes_eq, copy_bytes, fields4, text, text_bytes};

verus! {

#[verifier::external_type_specification]
#[verifier::external_body]
#[verifier::reject_recursive_types(T)]
pub struct ExSender<T>(Sender<T>);

/// Relies on `std::sync::mpsc::Sender::send`: it hands the value over, and
/// fails only when the receiving end is gone.
#[verifier::external_body]
pub(crate) fn send<T>(tx: &Sender<T>, message: T) -> (accepted: bool) {
    tx.send(message).is_ok()
}

/// What a client's relay flow receives.
pub enum ClientMessage {
    /// A shout to write out: the shouter's nick and the statement.
    Shout(Vec<u8>, Vec<u8>),
    /// The connection is over: stop relaying.
    Terminate,
}

/// What the hub receives.
pub enum ShoutMessage {
    /// A new client: the send end of its relay channel.
    Join(Sender<ClientMessage>),
    /// A shout from a client: its nick and the statement.
    Shout(Vec<u8>, Vec<u8>),
}

/// The fields of the broadcast that relays a shout.
pub open spec fn relay_fields(nick: Seq<u8>, statement: Seq<u8>) -> Seq<Seq<u8>> {
    seq![text("*"), text("shout"), nick, statement]
}

/// The shout that a received broadcast relays, if it is one.
pub open spec fn relayed_shout(fields: Seq<Seq<u8>>) -> Option<(Seq<u8>, Seq<u8>)> {
    if fields.len() == 4 && fields[0] == text("*") && fields[1] == text("shout") {
        Some((fields[2], fields[3]))
    } else {
        None
    }
}

/// A relayed shout reads back as the nick and statement it carried, whatever
/// bytes they hold, spaces and empty statements included.
pub proof fn lemma_relay_round_trip(nick: Seq<u8>, statement: Seq<u8>)
    ensures
        relayed_shout(relay_fields(nick, statement)) == Some((nick, statement)),
{
}

/// A relay's first field, `*`, is not empty.
pub proof fn lemma_relay_fields_start()
    ensures
        forall|nick: Seq<u8>, statement: Seq<u8>|
            #[trigger] relay_fields(nick, statement).len() == 4 && relay_fields(
                nick,
                statement,
            )[0].len() == 1,
{
    broadcast use vstd::string::group_string_axioms;

    reveal_strlit("*");
    assert(vstd::string::is_ascii("*"));
}

/// The message that the relay flow writes for `message`; none for `Terminate`.
pub fn relay_message(message: &ClientMessage) -> (r: Option<Vec<Vec<u8>>>)
    ensures
        match message {
            ClientMessage::Shout(nick, statement) => r is Some && r->Some_0.deep_view()
                == relay_fields(nick@, statement@),
            ClientMessage::Terminate => r is None,
        },
{
    match message {
        ClientMessage::Shout(nick, statement) => Some(
            fields4(
                text_bytes("*"),
                text_bytes("shout"),
                copy_bytes(nick.as_slice()),
                copy_bytes(statement.as_slice()),
            ),
        ),
        ClientMessage::Terminate => None,
    }
}

/// Reads a received message back as the shout it relays, if it is one.
pub fn parse_relay(fields: &Vec<Vec<u8>>) -> (r: Option<(Vec<u8>, Vec<u8>)>)
    ensures
        match relayed_shout(fields.deep_view()) {
            Some((nick, statement)) => r is Some && r->Some_0.0@ == nick && r->Some_0.1@
                == statement,
            None => r is None,
        },
{
    proof {
        if fields@.len() == 4 {
            assert(fields.deep_view()[0] == fields@[0]@);
            assert(fields.deep_view()[1] == fields@[1]@);
            assert(fields@[2].deep_view() =~= fields@[2]@);
            assert(fields@[3].deep_view() =~= fields@[3]@);
            assert(fields@[0].deep_view() =~= fields@[0]@);
            assert(fields@[1].deep_view() =~= fields@[1]@);
        }
    }
    if fields.len() != 4 {
        return None;
    }
    let star = text_bytes("*");
    let shout = text_bytes("shout");
    if !bytes_eq(fields[0].as_slice(), star.as_slice()) || !bytes_eq(
        fields[1].as_slice(),
        shout.as_slice(),
    ) {
        return None;
    }
    Some((copy_bytes(fields[2].as_slice()), copy_bytes(fields[3].as_slice())))
}

/// The registry of connected clients: the send end of each one's relay
/// channel, in the order in which they joined. Entries are never removed.
pub struct Hub {
    clients: Vec<Sender<ClientMessage>>,
}

impl Hub {
    /// The registered clients, in order of joining.
    pub closed spec fn registered(&self) -> Seq<Sender<ClientMessage>> {
        self.clients@
    }

    /// A hub with no client.
    pub fn new() -> (r: Hub)
        ensures
            r.registered() == Seq::<Sender<ClientMessage>>::empty(),
    {
        Hub { clients: Vec::new() }
    }

    /// The number of registered clients.
    pub fn len(&self) -> (r: usize)
        ensures
            r == self.registered().len(),
    {
        self.clients.len()
    }
}

/// Whether `message` relays the shout of `nick` and `statement`.
pub open spec fn carries(message: ClientMessage, nick: Seq<u8>, statement: Seq<u8>) -> bool {
    match message {
        ClientMessage::Shout(n, s) => n@ == nick && s@ == statement,
        ClientMessage::Terminate => false,
    }
}

/// Handles one message of the hub's control channel. A join appends the
/// client to the registry, with no check for one already there. A shout is
/// handed once to each registered client, in registry order; a client whose
/// channel is gone is skipped and stays registered. Returns the hand-offs
/// made, in order: the registry index of the client and the message handed
/// to its channel.
pub fn server(hub: &mut Hub, message: ShoutMessage) -> (handed: Ghost<Seq<(int, ClientMessage)>>)
    ensures
        match message {
            ShoutMessage::Join(client) => final(hub).registered() == old(hub).registered().push(
                client,
            ) && handed@ == Seq::<(int, ClientMessage)>::empty(),
            ShoutMessage::Shout(nick, statement) => {
                &&& final(hub).registered() == old(hub).registered()
                &&& handed@.len() == old(hub).registered().len()
                &&& forall|i: int|
                    0 <= i < handed@.len() ==> #[trigger] handed@[i].0 == i && carries(
                        handed@[i].1,
                        nick@,
                        statement@,
                    )
            },
        },
{
    match message {
        ShoutMessage::Join(client) => {
            hub.clients.push(client);
            Ghost(Seq::empty())
        },
        ShoutMessage::Shout(nick, statement) => {
            let ghost mut log: Seq<(int, ClientMessage)> = Seq::empty();
            let mut i: usize = 0;
            while i < hub.clients.len()
                invariant
                    i <= hub.clients@.len(),
                    hub.clients@ == old(hub).clients@,
                    log.len() == i,
                    forall|k: int|
                        0 <= k < i ==> #[trigger] log[k].0 == k && carries(
                            log[k].1,
                            nick@,
                            statement@,
                        ),
                decreases hub.clients@.len() - i,
            {
                let relay = ClientMessage::Shout(
                    copy_bytes(nick.as_slice()),
                    copy_bytes(statement.as_slice()),
                );
                proof {
                    log = log.push((i as int, relay));
                }
                let _ = send(&hub.clients[i], relay);
                i = i + 1;
            }
            Ghost(log)
        },
    }
}

} // verus!
