//! The per-connection command dispatcher: it reads one message at a time as
//! a command, answers it, and keeps the connection's nick.
use plaintalk::{pullparser, pushgenerator};
use vstd::prelude::*;
use vstd::slice::slice_to_vec;
use vstd::utf8::valid_utf8;

use crate::text::{
    bytes_eq, concat_bytes, copy_bytes, fields2, fields3, fields4, is_utf8, lemma_field_views,
    lossy_text, messages1, messages2, messages3, text, text_bytes, utf8_lossy,
};

verus! {

/// The longest message-id, command or authentication method, in bytes.
pub const MAX_WORD: usize = 10;

pub const BASIC_STRUCTURE: &'static str = "Invalid format. Basic structure of all messages is: <message-ID> <command> [command arguments...] (try `0 help`)";

pub const HELP_USAGE: &'static str = "Usage: <msg-id> help";

pub const HELP: &'static str = "Available commands:\n<msgid> protocol {<feature> ...}    Protocol negotiation (not implemented)\n<msgid> join <channel>              Join (not implemented)\n<msgid> nick <new nick>             Set your nick to <new nick>\n<msgid> shout <statement>           Shout a statement to all connected clients";

pub const PROTOCOL_NOTE: &'static str = "'protocol' currently has no effect";

pub const PROTOCOL_NAME: &'static str = "chattalk";

pub const JOIN_USAGE: &'static str = "Usage: <msg-id> join <channel-name>";

pub const JOIN_NOTE: &'static str = "'join' currently has no effect";

pub const NICK_USAGE: &'static str = "Usage: <msg-id> nick <new-nick>";

pub const SHOUT_USAGE: &'static str = "Usage: <msg-id> shout <statement>";

pub const AUTH_USAGE: &'static str = "Usage: <msg-id> auth <auth-method> ...";

pub const AUTH_UNIX_USAGE: &'static str = "Usage: <msg-id> auth unix";

pub const AUTH_FAILED: &'static str = "Unix authentication failed";

pub const UNKNOWN_METHOD: &'static str = "unknown authentication method: ";

pub const UNKNOWN_COMMAND: &'static str = "unknown command: ";

/// What ends a connection.
#[derive(Debug)]
pub enum ClientError {
    /// A message-id, command or authentication method longer than `MAX_WORD`.
    FieldTooLong,
    /// A text argument that is not UTF-8.
    InvalidUtf8,
    /// The incoming message stream is broken.
    PullParser(pullparser::Error),
    /// The outgoing message stream is broken.
    PushGenerator(pushgenerator::Error),
    /// The shared writer's lock was poisoned.
    PoisonError,
    /// The hub is gone.
    SendError,
    /// An escape header announces more bytes than follow it.
    TruncatedEscape,
}

/// Why a command could not be carried out.
pub enum ProtocolError {
    /// The command was malformed: answer with its usage and go on.
    InvalidCommand(&'static str),
    /// The connection cannot go on.
    PlaintalkError(ClientError),
}

/// The authentication methods that a transport offers.
pub trait ProtocolExtensions {
    /// Whether `auth unix` is offered.
    fn supports_auth_unix(&self) -> bool;

    /// The name of the user at the other end, where it can be found.
    fn auth_unix(&self) -> Option<String>;
}

/// A transport without any authentication method.
pub struct TcpProtocolExtensions;

impl ProtocolExtensions for TcpProtocolExtensions {
    fn supports_auth_unix(&self) -> (r: bool)
        ensures
            !r,
    {
        false
    }

    fn auth_unix(&self) -> (r: Option<String>)
        ensures
            r is None,
    {
        None
    }
}

/// What one incoming message comes to.
pub enum Outcome {
    /// The peer ended the session.
    End,
    /// The connection cannot go on.
    Fatal(ClientError),
    /// The messages to write, in order; the nick afterwards; the shout, if
    /// any, handed to the hub before the replies are written.
    Handled { replies: Seq<Seq<Seq<u8>>>, nick: Seq<u8>, shout: Option<(Seq<u8>, Seq<u8>)> },
}

/// What the connection does with one incoming message.
pub enum Step {
    /// The peer ended the session.
    End,
    /// The messages to write, in order; the nick afterwards; the shout to
    /// hand to the hub, if any, before the messages are written.
    Reply { replies: Vec<Vec<Vec<u8>>>, nick: Vec<u8>, shout: Option<(Vec<u8>, Vec<u8>)> },
}

impl Step {
    /// The outcome that the step carries out.
    pub open spec fn view(&self) -> Outcome {
        match self {
            Step::End => Outcome::End,
            Step::Reply { replies, nick, shout } => Outcome::Handled {
                replies: replies.deep_view(),
                nick: nick@,
                shout: match shout {
                    Some((n, s)) => Some((n@, s@)),
                    None => None,
                },
            },
        }
    }
}

/// A broadcast message.
pub open spec fn broadcast(kind: &str, rest: Seq<Seq<u8>>) -> Seq<Seq<u8>> {
    seq![text("*"), text(kind)] + rest
}

/// A reply to the message `id`.
pub open spec fn reply(id: Seq<u8>, kind: &str, rest: Seq<Seq<u8>>) -> Seq<Seq<u8>> {
    seq![id, text(kind)] + rest
}

/// The replies are written; nothing else changes.
pub open spec fn answer(replies: Seq<Seq<Seq<u8>>>, nick: Seq<u8>) -> Outcome {
    Outcome::Handled { replies, nick, shout: None }
}

/// The answer to a malformed command.
pub open spec fn invalid(nick: Seq<u8>, id: Seq<u8>, usage: &str) -> Outcome {
    answer(seq![reply(id, "error", seq![text("invalid-command"), text(usage)])], nick)
}

/// What stops a command of exactly one text argument, if anything.
pub open spec fn one_argument_problem(
    nick: Seq<u8>,
    id: Seq<u8>,
    args: Seq<Seq<u8>>,
    usage: &str,
) -> Option<Outcome> {
    if args.len() == 0 {
        Some(invalid(nick, id, usage))
    } else if !valid_utf8(args[0]) {
        Some(Outcome::Fatal(ClientError::InvalidUtf8))
    } else if args.len() > 1 {
        Some(invalid(nick, id, usage))
    } else {
        None
    }
}

/// Whether the message is an `auth unix` that the transport offers and that
/// is well formed: only then is the user at the other end looked up.
pub open spec fn asks_unix_auth(message: Seq<Seq<u8>>, unix: bool) -> bool {
    &&& unix
    &&& message.len() == 3
    &&& message[0].len() <= MAX_WORD
    &&& message[1] == text("auth")
    &&& message[2] == text("unix")
}

/// The outcome of `auth`, given whether `auth unix` is offered and, where it
/// is asked for, who the user at the other end turned out to be.
pub open spec fn auth_outcome(
    nick: Seq<u8>,
    id: Seq<u8>,
    args: Seq<Seq<u8>>,
    unix: bool,
    identity: Option<Seq<u8>>,
) -> Outcome {
    if args.len() == 0 {
        invalid(nick, id, AUTH_USAGE)
    } else if args[0].len() > MAX_WORD {
        Outcome::Fatal(ClientError::FieldTooLong)
    } else if unix && args[0] == text("unix") {
        if args.len() > 1 {
            invalid(nick, id, AUTH_UNIX_USAGE)
        } else {
            match identity {
                Some(user) => answer(seq![reply(id, "ok", seq![user])], user),
                None => answer(
                    seq![reply(id, "error", seq![text("auth-failed"), text(AUTH_FAILED)])],
                    nick,
                ),
            }
        }
    } else {
        answer(
            seq![
                reply(
                    id,
                    "error",
                    seq![text("unknown-method"), text(UNKNOWN_METHOD) + utf8_lossy(args[0])],
                ),
            ],
            nick,
        )
    }
}

/// The outcome of `help`.
pub open spec fn help_outcome(nick: Seq<u8>, id: Seq<u8>, args: Seq<Seq<u8>>) -> Outcome {
    if args.len() > 0 {
        invalid(nick, id, HELP_USAGE)
    } else {
        answer(seq![broadcast("note", seq![text(HELP)]), reply(id, "ok", seq![])], nick)
    }
}

/// The outcome of `protocol`, whatever its arguments.
pub open spec fn protocol_outcome(nick: Seq<u8>, id: Seq<u8>) -> Outcome {
    answer(
        seq![
            broadcast("note", seq![text(PROTOCOL_NOTE)]),
            reply(id, "ok", seq![text(PROTOCOL_NAME)]),
        ],
        nick,
    )
}

/// The outcome of `join`.
pub open spec fn join_outcome(nick: Seq<u8>, id: Seq<u8>, args: Seq<Seq<u8>>) -> Outcome {
    match one_argument_problem(nick, id, args, JOIN_USAGE) {
        Some(o) => o,
        None => answer(
            seq![
                broadcast("note", seq![text(JOIN_NOTE)]),
                broadcast("join", seq![nick, args[0]]),
                reply(id, "ok", seq![]),
            ],
            nick,
        ),
    }
}

/// The outcome of `nick`: the change is announced with the old nick.
pub open spec fn nick_outcome(nick: Seq<u8>, id: Seq<u8>, args: Seq<Seq<u8>>) -> Outcome {
    match one_argument_problem(nick, id, args, NICK_USAGE) {
        Some(o) => o,
        None => answer(
            seq![broadcast("nick", seq![nick, args[0]]), reply(id, "ok", seq![])],
            args[0],
        ),
    }
}

/// The outcome of `shout`.
pub open spec fn shout_outcome(nick: Seq<u8>, id: Seq<u8>, args: Seq<Seq<u8>>) -> Outcome {
    match one_argument_problem(nick, id, args, SHOUT_USAGE) {
        Some(o) => o,
        None => Outcome::Handled {
            replies: seq![reply(id, "ok", seq![])],
            nick,
            shout: Some((nick, args[0])),
        },
    }
}

/// The outcome of a command that is not known.
pub open spec fn unknown_outcome(nick: Seq<u8>, id: Seq<u8>, cmd: Seq<u8>) -> Outcome {
    answer(
        seq![
            reply(
                id,
                "error",
                seq![text("invalid-command"), text(UNKNOWN_COMMAND) + utf8_lossy(cmd)],
            ),
        ],
        nick,
    )
}

/// The outcome of the command `cmd` with arguments `args`.
pub open spec fn command_outcome(
    nick: Seq<u8>,
    id: Seq<u8>,
    cmd: Seq<u8>,
    args: Seq<Seq<u8>>,
    unix: bool,
    identity: Option<Seq<u8>>,
) -> Outcome {
    if cmd == text("auth") {
        auth_outcome(nick, id, args, unix, identity)
    } else if cmd == text("help") {
        help_outcome(nick, id, args)
    } else if cmd == text("join") {
        join_outcome(nick, id, args)
    } else if cmd == text("nick") {
        nick_outcome(nick, id, args)
    } else if cmd == text("protocol") {
        protocol_outcome(nick, id)
    } else if cmd == text("shout") {
        shout_outcome(nick, id, args)
    } else {
        unknown_outcome(nick, id, cmd)
    }
}

/// The arguments of a message: the fields after its id and command.
pub open spec fn arguments(message: Seq<Seq<u8>>) -> Seq<Seq<u8>> {
    message.subrange(2, message.len() as int)
}

/// The outcome of a message that does not end the session, once its id has
/// been read.
pub open spec fn dispatch_outcome(
    nick: Seq<u8>,
    message: Seq<Seq<u8>>,
    unix: bool,
    identity: Option<Seq<u8>>,
) -> Outcome {
    if message.len() == 1 {
        invalid(nick, message[0], BASIC_STRUCTURE)
    } else if message[1].len() > MAX_WORD {
        Outcome::Fatal(ClientError::FieldTooLong)
    } else {
        command_outcome(nick, message[0], message[1], arguments(message), unix, identity)
    }
}

/// The outcome of one incoming message, of at least one field, on a
/// connection whose nick is `nick`.
#[verifier::opaque]
pub open spec fn outcome(
    nick: Seq<u8>,
    message: Seq<Seq<u8>>,
    unix: bool,
    identity: Option<Seq<u8>>,
) -> Outcome {
    if message[0].len() > MAX_WORD {
        Outcome::Fatal(ClientError::FieldTooLong)
    } else if message.len() == 1 && message[0].len() == 0 {
        Outcome::End
    } else {
        dispatch_outcome(nick, message, unix, identity)
    }
}

/// A command's result `r` is the outcome `o`.
pub open spec fn settles(nick: Seq<u8>, id: Seq<u8>, r: Result<Step, ProtocolError>, o: Outcome) -> bool {
    match r {
        Ok(step) => step@ == o && step is Reply,
        Err(ProtocolError::InvalidCommand(usage)) => o == invalid(nick, id, usage),
        Err(ProtocolError::PlaintalkError(e)) => o == Outcome::Fatal(e),
    }
}

/// Reads field `next` of `message` as a word: a message-id, a command or an
/// authentication method.
fn read_field_as_slice(message: &Vec<Vec<u8>>, next: usize) -> (r: Result<
    Option<Vec<u8>>,
    ClientError,
>)
    ensures
        next >= message@.len() ==> r == Ok::<Option<Vec<u8>>, ClientError>(None),
        next < message@.len() && message@[next as int]@.len() > MAX_WORD ==> r == Err::<
            Option<Vec<u8>>,
            ClientError,
        >(ClientError::FieldTooLong),
        next < message@.len() && message@[next as int]@.len() <= MAX_WORD ==> r is Ok && r->Ok_0 is Some
            && r->Ok_0->Some_0@ == message@[next as int]@,
{
    if next >= message.len() {
        Ok(None)
    } else if message[next].len() > MAX_WORD {
        Err(ClientError::FieldTooLong)
    } else {
        Ok(Some(copy_bytes(message[next].as_slice())))
    }
}

/// Reads field `next` of `message` as text.
fn read_field_as_string(message: &Vec<Vec<u8>>, next: usize) -> (r: Result<
    Option<Vec<u8>>,
    ClientError,
>)
    ensures
        next >= message@.len() ==> r == Ok::<Option<Vec<u8>>, ClientError>(None),
        next < message@.len() && !valid_utf8(message@[next as int]@) ==> r == Err::<
            Option<Vec<u8>>,
            ClientError,
        >(ClientError::InvalidUtf8),
        next < message@.len() && valid_utf8(message@[next as int]@) ==> r is Ok && r->Ok_0 is Some
            && r->Ok_0->Some_0@ == message@[next as int]@,
{
    if next >= message.len() {
        Ok(None)
    } else if !is_utf8(message[next].as_slice()) {
        Err(ClientError::InvalidUtf8)
    } else {
        Ok(Some(copy_bytes(message[next].as_slice())))
    }
}

/// A field that must be there: its absence is a malformed command, answered
/// with `err`.
pub fn expect<T>(field: Result<Option<T>, ClientError>, err: &'static str) -> (r: Result<
    T,
    ProtocolError,
>)
    ensures
        match field {
            Ok(Some(v)) => r == Ok::<T, ProtocolError>(v),
            Ok(None) => r == Err::<T, ProtocolError>(ProtocolError::InvalidCommand(err)),
            Err(e) => r == Err::<T, ProtocolError>(ProtocolError::PlaintalkError(e)),
        },
{
    match field {
        Ok(Some(v)) => Ok(v),
        Ok(None) => Err(ProtocolError::InvalidCommand(err)),
        Err(e) => Err(ProtocolError::PlaintalkError(e)),
    }
}

/// No field may follow field `next - 1`: one more is a malformed command,
/// answered with `err`.
pub fn expect_end(message: &Vec<Vec<u8>>, next: usize, err: &'static str) -> (r: Result<
    (),
    ProtocolError,
>)
    ensures
        next >= message@.len() ==> r is Ok,
        next < message@.len() ==> r == Err::<(), ProtocolError>(ProtocolError::InvalidCommand(err)),
{
    if next >= message.len() {
        Ok(())
    } else {
        Err(ProtocolError::InvalidCommand(err))
    }
}

fn cmd_help(nick: &Vec<u8>, id: &Vec<u8>, message: &Vec<Vec<u8>>) -> (r: Result<Step, ProtocolError>)
    requires
        message@.len() >= 2,
    ensures
        settles(nick@, id@, r, help_outcome(nick@, id@, arguments(message.deep_view()))),
{
    proof {
        lemma_field_views(message);
    }
    match expect_end(message, 2, HELP_USAGE) {
        Ok(()) => {},
        Err(e) => return Err(e),
    }
    let note = fields3(text_bytes("*"), text_bytes("note"), text_bytes(HELP));
    let ok = fields2(copy_bytes(id.as_slice()), text_bytes("ok"));
    let replies = messages2(note, ok);
    let step = Step::Reply { replies, nick: copy_bytes(nick.as_slice()), shout: None };
    assert(step@->Handled_replies =~~= help_outcome(nick@, id@, arguments(message.deep_view()))->Handled_replies);
    Ok(step)
}

fn cmd_protocol(nick: &Vec<u8>, id: &Vec<u8>) -> (r: Result<Step, ProtocolError>)
    ensures
        settles(nick@, id@, r, protocol_outcome(nick@, id@)),
{
    let note = fields3(text_bytes("*"), text_bytes("note"), text_bytes(PROTOCOL_NOTE));
    let ok = fields3(copy_bytes(id.as_slice()), text_bytes("ok"), text_bytes(PROTOCOL_NAME));
    let step = Step::Reply {
        replies: messages2(note, ok),
        nick: copy_bytes(nick.as_slice()),
        shout: None,
    };
    assert(step@->Handled_replies =~~= protocol_outcome(nick@, id@)->Handled_replies);
    Ok(step)
}

fn cmd_join(nick: &Vec<u8>, id: &Vec<u8>, message: &Vec<Vec<u8>>) -> (r: Result<Step, ProtocolError>)
    requires
        message@.len() >= 2,
    ensures
        settles(nick@, id@, r, join_outcome(nick@, id@, arguments(message.deep_view()))),
{
    proof {
        lemma_field_views(message);
    }
    let ghost args = arguments(message.deep_view());
    let channel = match expect(read_field_as_string(message, 2), JOIN_USAGE) {
        Ok(channel) => channel,
        Err(e) => return Err(e),
    };
    match expect_end(message, 3, JOIN_USAGE) {
        Ok(()) => {},
        Err(e) => return Err(e),
    }
    let note = fields3(text_bytes("*"), text_bytes("note"), text_bytes(JOIN_NOTE));
    let join = fields4(text_bytes("*"), text_bytes("join"), copy_bytes(nick.as_slice()), channel);
    let ok = fields2(copy_bytes(id.as_slice()), text_bytes("ok"));
    let step = Step::Reply {
        replies: messages3(note, join, ok),
        nick: copy_bytes(nick.as_slice()),
        shout: None,
    };
    assert(step@->Handled_replies =~~= join_outcome(nick@, id@, args)->Handled_replies);
    Ok(step)
}

fn cmd_nick(nick: &Vec<u8>, id: &Vec<u8>, message: &Vec<Vec<u8>>) -> (r: Result<Step, ProtocolError>)
    requires
        message@.len() >= 2,
    ensures
        settles(nick@, id@, r, nick_outcome(nick@, id@, arguments(message.deep_view()))),
{
    proof {
        lemma_field_views(message);
    }
    let ghost args = arguments(message.deep_view());
    let new_nick = match expect(read_field_as_string(message, 2), NICK_USAGE) {
        Ok(new_nick) => new_nick,
        Err(e) => return Err(e),
    };
    match expect_end(message, 3, NICK_USAGE) {
        Ok(()) => {},
        Err(e) => return Err(e),
    }
    let change = fields4(
        text_bytes("*"),
        text_bytes("nick"),
        copy_bytes(nick.as_slice()),
        copy_bytes(new_nick.as_slice()),
    );
    let ok = fields2(copy_bytes(id.as_slice()), text_bytes("ok"));
    let step = Step::Reply { replies: messages2(change, ok), nick: new_nick, shout: None };
    assert(step@->Handled_replies =~~= nick_outcome(nick@, id@, args)->Handled_replies);
    Ok(step)
}

fn cmd_shout(nick: &Vec<u8>, id: &Vec<u8>, message: &Vec<Vec<u8>>) -> (r: Result<Step, ProtocolError>)
    requires
        message@.len() >= 2,
    ensures
        settles(nick@, id@, r, shout_outcome(nick@, id@, arguments(message.deep_view()))),
{
    proof {
        lemma_field_views(message);
    }
    let ghost args = arguments(message.deep_view());
    let statement = match expect(read_field_as_string(message, 2), SHOUT_USAGE) {
        Ok(statement) => statement,
        Err(e) => return Err(e),
    };
    match expect_end(message, 3, SHOUT_USAGE) {
        Ok(()) => {},
        Err(e) => return Err(e),
    }
    let ok = fields2(copy_bytes(id.as_slice()), text_bytes("ok"));
    let step = Step::Reply {
        replies: messages1(ok),
        nick: copy_bytes(nick.as_slice()),
        shout: Some((copy_bytes(nick.as_slice()), statement)),
    };
    assert(step@->Handled_replies =~~= shout_outcome(nick@, id@, args)->Handled_replies);
    Ok(step)
}

fn cmd_auth(
    nick: &Vec<u8>,
    id: &Vec<u8>,
    message: &Vec<Vec<u8>>,
    unix: bool,
    identity: Option<Vec<u8>>,
) -> (r: Result<Step, ProtocolError>)
    requires
        message@.len() >= 2,
    ensures
        settles(
            nick@,
            id@,
            r,
            auth_outcome(nick@, id@, arguments(message.deep_view()), unix, identity_view(identity)),
        ),
{
    proof {
        lemma_field_views(message);
    }
    let ghost args = arguments(message.deep_view());
    let method = match expect(read_field_as_slice(message, 2), AUTH_USAGE) {
        Ok(method) => method,
        Err(e) => return Err(e),
    };
    if unix && bytes_eq(method.as_slice(), "unix".as_bytes()) {
        match expect_end(message, 3, AUTH_UNIX_USAGE) {
            Ok(()) => {},
            Err(e) => return Err(e),
        }
        match identity {
            Some(user) => {
                let ok = fields3(copy_bytes(id.as_slice()), text_bytes("ok"), copy_bytes(user.as_slice()));
                let step = Step::Reply { replies: messages1(ok), nick: user, shout: None };
                assert(step@->Handled_replies =~~= auth_outcome(nick@, id@, args, unix, identity_view(identity))->Handled_replies);
                Ok(step)
            },
            None => {
                let failed = fields4(
                    copy_bytes(id.as_slice()),
                    text_bytes("error"),
                    text_bytes("auth-failed"),
                    text_bytes(AUTH_FAILED),
                );
                let step = Step::Reply {
                    replies: messages1(failed),
                    nick: copy_bytes(nick.as_slice()),
                    shout: None,
                };
                assert(step@->Handled_replies =~~= auth_outcome(nick@, id@, args, unix, identity_view(identity))->Handled_replies);
                Ok(step)
            },
        }
    } else {
        let shown = lossy_text(method.as_slice());
        let unknown = fields4(
            copy_bytes(id.as_slice()),
            text_bytes("error"),
            text_bytes("unknown-method"),
            concat_bytes(UNKNOWN_METHOD, shown.as_slice()),
        );
        let step = Step::Reply {
            replies: messages1(unknown),
            nick: copy_bytes(nick.as_slice()),
            shout: None,
        };
        assert(step@->Handled_replies =~~= auth_outcome(nick@, id@, args, unix, identity_view(identity))->Handled_replies);
        Ok(step)
    }
}

/// The view of a looked-up user name.
pub open spec fn identity_view(identity: Option<Vec<u8>>) -> Option<Seq<u8>> {
    match identity {
        Some(user) => Some(user@),
        None => None,
    }
}

/// Reads the command of a message whose id has been read, and carries it out.
fn handle_command(
    nick: &Vec<u8>,
    id: &Vec<u8>,
    message: &Vec<Vec<u8>>,
    unix: bool,
    identity: Option<Vec<u8>>,
) -> (r: Result<Step, ProtocolError>)
    requires
        message@.len() >= 1,
        id@ == message@[0]@,
    ensures
        settles(
            nick@,
            id@,
            r,
            dispatch_outcome(nick@, message.deep_view(), unix, identity_view(identity)),
        ),
{
    proof {
        lemma_field_views(message);
    }
    let command = match expect(read_field_as_slice(message, 1), BASIC_STRUCTURE) {
        Ok(command) => command,
        Err(e) => return Err(e),
    };
    let cmd = command.as_slice();
    if bytes_eq(cmd, "auth".as_bytes()) {
        cmd_auth(nick, id, message, unix, identity)
    } else if bytes_eq(cmd, "help".as_bytes()) {
        cmd_help(nick, id, message)
    } else if bytes_eq(cmd, "join".as_bytes()) {
        cmd_join(nick, id, message)
    } else if bytes_eq(cmd, "nick".as_bytes()) {
        cmd_nick(nick, id, message)
    } else if bytes_eq(cmd, "protocol".as_bytes()) {
        cmd_protocol(nick, id)
    } else if bytes_eq(cmd, "shout".as_bytes()) {
        cmd_shout(nick, id, message)
    } else {
        let shown = lossy_text(cmd);
        let unknown = fields4(
            copy_bytes(id.as_slice()),
            text_bytes("error"),
            text_bytes("invalid-command"),
            concat_bytes(UNKNOWN_COMMAND, shown.as_slice()),
        );
        let step = Step::Reply {
            replies: messages1(unknown),
            nick: copy_bytes(nick.as_slice()),
            shout: None,
        };
        assert(step@->Handled_replies =~~= unknown_outcome(nick@, id@, command@)->Handled_replies);
        Ok(step)
    }
}

/// Answers one incoming message of a connection whose nick is `nick`, given
/// whether the transport offers `auth unix` and, for a well-formed
/// `auth unix`, who the user at the other end is. A malformed command is
/// answered with its usage; only a broken message ends the connection.
pub fn respond(
    nick: &Vec<u8>,
    message: &Vec<Vec<u8>>,
    unix: bool,
    identity: Option<Vec<u8>>,
) -> (r: Result<Step, ClientError>)
    requires
        message@.len() >= 1,
    ensures
        match r {
            Ok(step) => step@ == outcome(
                nick@,
                message.deep_view(),
                unix,
                identity_view(identity),
            ),
            Err(e) => outcome(nick@, message.deep_view(), unix, identity_view(identity))
                == Outcome::Fatal(e),
        },
{
    proof {
        lemma_field_views(message);
        reveal(outcome);
    }
    if message[0].len() > MAX_WORD {
        return Err(ClientError::FieldTooLong);
    }
    if message.len() == 1 && message[0].len() == 0 {
        return Ok(Step::End);
    }
    let id = copy_bytes(message[0].as_slice());
    match handle_command(nick, &id, message, unix, identity) {
        Ok(step) => Ok(step),
        Err(ProtocolError::InvalidCommand(usage)) => {
            let rejection = fields4(
                id,
                text_bytes("error"),
                text_bytes("invalid-command"),
                text_bytes(usage),
            );
            let step = Step::Reply {
                replies: messages1(rejection),
                nick: copy_bytes(nick.as_slice()),
                shout: None,
            };
            assert(step@->Handled_replies =~~= invalid(nick@, message@[0]@, usage)->Handled_replies);
            Ok(step)
        },
        Err(ProtocolError::PlaintalkError(e)) => Err(e),
    }
}

/// A connection whose nick was `before` and now is `after` took the outcome
/// `o` and returned `r`: the step itself, or the error that ended it.
pub open spec fn took(before: Seq<u8>, after: Seq<u8>, r: Result<Step, ClientError>, o: Outcome) -> bool {
    match r {
        Ok(step) => step@ == o && after == match o {
            Outcome::Handled { nick, .. } => nick,
            _ => before,
        },
        Err(e) => after == before && o == Outcome::Fatal(e),
    }
}

/// A connection whose nick was `before` and now is `after`, on a transport
/// that answered `unix` when asked whether it offers `auth unix`, handled
/// `message` and returned `r`: for a well-formed `auth unix` that is offered,
/// the outcome for the user found, or for none found; otherwise the outcome.
pub open spec fn answered(
    before: Seq<u8>,
    after: Seq<u8>,
    r: Result<Step, ClientError>,
    message: Seq<Seq<u8>>,
    unix: bool,
) -> bool {
    if asks_unix_auth(message, unix) {
        took(before, after, r, outcome(before, message, true, None)) || exists|user: Seq<u8>|
            valid_utf8(user) && took(before, after, r, outcome(before, message, true, Some(user)))
    } else {
        took(before, after, r, outcome(before, message, unix, None))
    }
}

/// Whether a message is a well-formed `auth unix`, once the transport offers it.
fn is_unix_auth(message: &Vec<Vec<u8>>) -> (r: bool)
    ensures
        r == asks_unix_auth(message.deep_view(), true),
{
    proof {
        lemma_field_views(message);
    }
    message.len() == 3 && message[0].len() <= MAX_WORD && bytes_eq(
        message[1].as_slice(),
        "auth".as_bytes(),
    ) && bytes_eq(message[2].as_slice(), "unix".as_bytes())
}

/// One connection's session: its nick and its transport's authentication
/// methods. The shout of a step goes to the hub through whoever drives the
/// connection, before the step's replies are written.
pub struct ClientConnection<P: ProtocolExtensions> {
    nick: Vec<u8>,
    protocol_extensions: P,
}

impl<P: ProtocolExtensions> ClientConnection<P> {
    /// The connection's nick.
    pub closed spec fn nick(&self) -> Seq<u8> {
        self.nick@
    }

    /// The connection's authentication methods.
    pub closed spec fn extensions(&self) -> P {
        self.protocol_extensions
    }

    /// A session that has no nick yet.
    pub fn new(protocol_extensions: P) -> (r: ClientConnection<P>)
        ensures
            r.nick() == Seq::<u8>::empty(),
            r.extensions() == protocol_extensions,
    {
        ClientConnection { nick: Vec::new(), protocol_extensions }
    }

    /// Handles one incoming message of at least one field: takes the new
    /// nick, and returns the shout for the hub, if any, and the messages to
    /// write. Whether `auth unix` is offered is the transport's answer; the
    /// user at the other end is looked up only for a well-formed `auth unix`
    /// that is offered, and whoever that turns out to be, the step is the
    /// outcome for that answer.
    pub fn handle_message(&mut self, message: &Vec<Vec<u8>>) -> (r: Result<Step, ClientError>)
        requires
            message@.len() >= 1,
        ensures
            final(self).extensions() == old(self).extensions(),
            exists|unix: bool|
                answered(old(self).nick(), final(self).nick(), r, message.deep_view(), unix),
    {
        let ghost before = self.nick@;
        let unix = self.protocol_extensions.supports_auth_unix();
        let identity = if unix && is_unix_auth(message) {
            match self.protocol_extensions.auth_unix() {
                Some(user) => {
                    let bytes = slice_to_vec(user.as_str().as_bytes());
                    proof {
                        vstd::utf8::encode_utf8_valid_utf8(user@);
                    }
                    Some(bytes)
                },
                None => None,
            }
        } else {
            None
        };
        let ghost who = identity_view(identity);
        let result = respond(&self.nick, message, unix, identity);
        match &result {
            Ok(Step::Reply { nick, .. }) => {
                self.nick = copy_bytes(nick.as_slice());
            },
            _ => {},
        }
        proof {
            let m = message.deep_view();
            assert(took(before, self.nick@, result, outcome(before, m, unix, who)));
            if asks_unix_auth(m, unix) {
                match who {
                    Some(user) => {
                        assert(valid_utf8(user) && took(before, self.nick@, result, outcome(before, m, true, Some(user))));
                    },
                    None => {},
                }
            }
            assert(answered(before, self.nick@, result, m, unix));
            assert(answered(old(self).nick(), self.nick(), result, message.deep_view(), unix));
        }
        result
    }
}

/// A message of only an empty id ends the session: no reply, no error, and
/// the nick stays as it was.
pub proof fn lemma_empty_id_ends_session(nick: Seq<u8>, unix: bool, identity: Option<Seq<u8>>)
    ensures
        outcome(nick, seq![Seq::<u8>::empty()], unix, identity) == Outcome::End,
{
    reveal(outcome);
}

/// The replies of `o`, if any, end with the one addressed to `id`, and all
/// before it are broadcasts.
pub open spec fn addressed_last(o: Outcome, id: Seq<u8>) -> bool {
    match o {
        Outcome::Handled { replies, .. } => {
            &&& replies.len() >= 1
            &&& replies.last()[0] == id
            &&& forall|i: int| 0 <= i < replies.len() - 1 ==> #[trigger] replies[i][0] == text("*")
        },
        _ => true,
    }
}

proof fn lemma_invalid_addressed_last(nick: Seq<u8>, id: Seq<u8>, usage: &str)
    ensures
        addressed_last(invalid(nick, id, usage), id),
{
}

proof fn lemma_one_argument_addressed_last(nick: Seq<u8>, id: Seq<u8>, args: Seq<Seq<u8>>, usage: &str)
    ensures
        match one_argument_problem(nick, id, args, usage) {
            Some(o) => addressed_last(o, id),
            None => true,
        },
{
    lemma_invalid_addressed_last(nick, id, usage);
}

proof fn lemma_command_addressed_last(
    nick: Seq<u8>,
    id: Seq<u8>,
    cmd: Seq<u8>,
    args: Seq<Seq<u8>>,
    unix: bool,
    identity: Option<Seq<u8>>,
)
    ensures
        addressed_last(command_outcome(nick, id, cmd, args, unix, identity), id),
{
    if cmd == text("auth") {
        lemma_invalid_addressed_last(nick, id, AUTH_USAGE);
        lemma_invalid_addressed_last(nick, id, AUTH_UNIX_USAGE);
    } else if cmd == text("help") {
        lemma_invalid_addressed_last(nick, id, HELP_USAGE);
        let o = help_outcome(nick, id, args);
        if args.len() == 0 {
            assert(o->Handled_replies[0][0] == text("*"));
        }
    } else if cmd == text("join") {
        lemma_one_argument_addressed_last(nick, id, args, JOIN_USAGE);
        let o = join_outcome(nick, id, args);
        if one_argument_problem(nick, id, args, JOIN_USAGE) is None {
            assert(o->Handled_replies[0][0] == text("*"));
            assert(o->Handled_replies[1][0] == text("*"));
        }
    } else if cmd == text("nick") {
        lemma_one_argument_addressed_last(nick, id, args, NICK_USAGE);
        let o = nick_outcome(nick, id, args);
        if one_argument_problem(nick, id, args, NICK_USAGE) is None {
            assert(o->Handled_replies[0][0] == text("*"));
        }
    } else if cmd == text("protocol") {
        let o = protocol_outcome(nick, id);
        assert(o->Handled_replies[0][0] == text("*"));
    } else if cmd == text("shout") {
        lemma_one_argument_addressed_last(nick, id, args, SHOUT_USAGE);
    } else {
    }
}

/// Every message that is answered gets exactly one reply addressed to its
/// own id, and it comes last: whatever comes before it is a broadcast.
pub proof fn lemma_direct_reply_comes_last(
    nick: Seq<u8>,
    message: Seq<Seq<u8>>,
    unix: bool,
    identity: Option<Seq<u8>>,
)
    requires
        message.len() >= 1,
    ensures
        addressed_last(outcome(nick, message, unix, identity), message[0]),
{
    reveal(outcome);
    lemma_invalid_addressed_last(nick, message[0], BASIC_STRUCTURE);
    if message.len() >= 2 {
        lemma_command_addressed_last(
            nick,
            message[0],
            message[1],
            arguments(message),
            unix,
            identity,
        );
    }
}

/// The bytes of the command names.
proof fn lemma_command_words()
    ensures
        text("auth") == seq![97u8, 117, 116, 104],
        text("help") == seq![104u8, 101, 108, 112],
        text("join") == seq![106u8, 111, 105, 110],
        text("nick") == seq![110u8, 105, 99, 107],
        text("protocol") == seq![112u8, 114, 111, 116, 111, 99, 111, 108],
        text("shout") == seq![115u8, 104, 111, 117, 116],
        text("unix") == seq![117u8, 110, 105, 120],
{
    broadcast use vstd::string::group_string_axioms;

    reveal_strlit("auth");
    reveal_strlit("help");
    reveal_strlit("join");
    reveal_strlit("nick");
    reveal_strlit("protocol");
    reveal_strlit("shout");
    reveal_strlit("unix");
    assert(vstd::string::is_ascii("auth"));
    assert(vstd::string::is_ascii("help"));
    assert(vstd::string::is_ascii("join"));
    assert(vstd::string::is_ascii("nick"));
    assert(vstd::string::is_ascii("protocol"));
    assert(vstd::string::is_ascii("shout"));
    assert(vstd::string::is_ascii("unix"));
    assert(text("auth") =~= seq![97u8, 117, 116, 104]);
    assert(text("help") =~= seq![104u8, 101, 108, 112]);
    assert(text("join") =~= seq![106u8, 111, 105, 110]);
    assert(text("nick") =~= seq![110u8, 105, 99, 107]);
    assert(text("protocol") =~= seq![112u8, 114, 111, 116, 111, 99, 111, 108]);
    assert(text("shout") =~= seq![115u8, 104, 111, 117, 116]);
    assert(text("unix") =~= seq![117u8, 110, 105, 120]);
}

/// The outcome of `nick` on a connection whose nick is `nick`.
proof fn lemma_nick_command(
    nick: Seq<u8>,
    id: Seq<u8>,
    new_nick: Seq<u8>,
    unix: bool,
    identity: Option<Seq<u8>>,
)
    requires
        id.len() <= MAX_WORD,
        valid_utf8(new_nick),
    ensures
        outcome(nick, seq![id, text("nick"), new_nick], unix, identity) == answer(
            seq![broadcast("nick", seq![nick, new_nick]), reply(id, "ok", seq![])],
            new_nick,
        ),
{
    reveal(outcome);
    lemma_command_words();
    let message = seq![id, text("nick"), new_nick];
    assert(text("nick")[0] != text("auth")[0]);
    assert(text("nick")[0] != text("help")[0]);
    assert(text("nick")[0] != text("join")[0]);
    assert(arguments(message) =~= seq![new_nick]);
}

/// A change of nick is announced with the nick it replaces: after
/// `nick bob`, `nick carol` announces `* nick bob carol`.
pub proof fn lemma_nick_change_announces_old_nick(
    nick: Seq<u8>,
    first_id: Seq<u8>,
    second_id: Seq<u8>,
    bob: Seq<u8>,
    carol: Seq<u8>,
    unix: bool,
    identity: Option<Seq<u8>>,
)
    requires
        first_id.len() <= MAX_WORD,
        second_id.len() <= MAX_WORD,
        valid_utf8(bob),
        valid_utf8(carol),
    ensures
        ({
            let first = outcome(nick, seq![first_id, text("nick"), bob], unix, identity);
            let second = outcome(
                first->Handled_nick,
                seq![second_id, text("nick"), carol],
                unix,
                identity,
            );
            &&& first is Handled
            &&& first->Handled_nick == bob
            &&& second is Handled
            &&& second->Handled_nick == carol
            &&& second->Handled_replies[0] == seq![text("*"), text("nick"), bob, carol]
        }),
{
    lemma_nick_command(nick, first_id, bob, unix, identity);
    lemma_nick_command(bob, second_id, carol, unix, identity);
    assert(broadcast("nick", seq![bob, carol]) =~= seq![text("*"), text("nick"), bob, carol]);
}

/// An unknown command is answered with an `invalid-command` error that
/// names it, and leaves the session as it was: whatever message comes next
/// is handled as if the unknown command had not been sent.
pub proof fn lemma_unknown_command(
    nick: Seq<u8>,
    id: Seq<u8>,
    cmd: Seq<u8>,
    args: Seq<Seq<u8>>,
    next: Seq<Seq<u8>>,
    unix: bool,
    identity: Option<Seq<u8>>,
)
    requires
        id.len() <= MAX_WORD,
        cmd.len() <= MAX_WORD,
        cmd != text("auth"),
        cmd != text("help"),
        cmd != text("join"),
        cmd != text("nick"),
        cmd != text("protocol"),
        cmd != text("shout"),
    ensures
        ({
            let o = outcome(nick, seq![id, cmd] + args, unix, identity);
            &&& o == answer(
                seq![
                    seq![
                        id,
                        text("error"),
                        text("invalid-command"),
                        text(UNKNOWN_COMMAND) + utf8_lossy(cmd),
                    ],
                ],
                nick,
            )
            &&& outcome(o->Handled_nick, next, unix, identity) == outcome(nick, next, unix, identity)
        }),
{
    reveal(outcome);
    let message = seq![id, cmd] + args;
    assert(message[0] == id);
    assert(message[1] == cmd);
    assert(reply(id, "error", seq![text("invalid-command"), text(UNKNOWN_COMMAND) + utf8_lossy(cmd)])
        =~= seq![id, text("error"), text("invalid-command"), text(UNKNOWN_COMMAND) + utf8_lossy(cmd)]);
}

/// Where the transport offers no credentials, as over TCP, `auth unix` is an
/// unknown method: an error reply, the nick unchanged, and no user looked up.
pub proof fn lemma_auth_unix_without_support(
    nick: Seq<u8>,
    id: Seq<u8>,
    rest: Seq<Seq<u8>>,
    identity: Option<Seq<u8>>,
)
    requires
        id.len() <= MAX_WORD,
    ensures
        ({
            let message = seq![id, text("auth"), text("unix")] + rest;
            let unix = false;
            &&& !asks_unix_auth(message, unix)
            &&& outcome(nick, message, unix, identity) == answer(
                seq![
                    seq![
                        id,
                        text("error"),
                        text("unknown-method"),
                        text(UNKNOWN_METHOD) + utf8_lossy(text("unix")),
                    ],
                ],
                nick,
            )
        }),
{
    reveal(outcome);
    lemma_command_words();
    let message = seq![id, text("auth"), text("unix")] + rest;
    assert(message[0] == id);
    assert(message[1] == text("auth"));
    assert(arguments(message) =~= seq![text("unix")] + rest);
    assert(arguments(message)[0] == text("unix"));
    assert(reply(
        id,
        "error",
        seq![text("unknown-method"), text(UNKNOWN_METHOD) + utf8_lossy(text("unix"))],
    ) =~= seq![
        id,
        text("error"),
        text("unknown-method"),
        text(UNKNOWN_METHOD) + utf8_lossy(text("unix")),
    ]);
}

/// A shout is handed to the hub under the shouter's current nick, with the
/// statement as it came, and answered with a single `ok`.
pub proof fn lemma_shout_goes_to_hub(
    nick: Seq<u8>,
    id: Seq<u8>,
    statement: Seq<u8>,
    unix: bool,
    identity: Option<Seq<u8>>,
)
    requires
        id.len() <= MAX_WORD,
        valid_utf8(statement),
    ensures
        outcome(nick, seq![id, text("shout"), statement], unix, identity) == (Outcome::Handled {
            replies: seq![seq![id, text("ok")]],
            nick,
            shout: Some((nick, statement)),
        }),
{
    reveal(outcome);
    lemma_command_words();
    let message = seq![id, text("shout"), statement];
    assert(text("shout")[0] != text("auth")[0]);
    assert(text("shout")[0] != text("help")[0]);
    assert(text("shout")[0] != text("join")[0]);
    assert(text("shout")[0] != text("nick")[0]);
    assert(text("shout")[0] != text("protocol")[0]);
    assert(arguments(message) =~= seq![statement]);
    assert(reply(id, "ok", seq![]) =~= seq![id, text("ok")]);
}

} // verus!
