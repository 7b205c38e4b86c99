//! The framing of messages on the wire, done by the plaintalk crate.
use plaintalk::pullparser::{self, PullParser};
use plaintalk::pushgenerator::{self, PushGenerator};
use vstd::prelude::*;

use crate::client::ClientError;
use crate::server::{
    lemma_relay_fields_start, lemma_relay_round_trip, parse_relay, relay_fields, relay_message, relayed_shout, ClientMessage,
};

verus! {

#[verifier::external_type_specification]
#[verifier::external_body]
pub struct ExPullParserError(pullparser::Error);

#[verifier::external_type_specification]
#[verifier::external_body]
pub struct ExPushGeneratorError(pushgenerator::Error);

/// The bytes that plaintalk writes for one message of the given fields.
pub uninterp spec fn plaintalk_encoding(fields: Seq<Seq<u8>>) -> Seq<u8>;

/// The fields of the first message that plaintalk reads from the given bytes.
pub uninterp spec fn plaintalk_first_message(bytes: Seq<u8>) -> Seq<Seq<u8>>;

/// Whether plaintalk reads a first message from the given bytes without an
/// error.
pub uninterp spec fn plaintalk_accepts(bytes: Seq<u8>) -> bool;

/// Whether the walk through `bytes` from position `i`, as plaintalk's reader
/// takes it, meets no escape header `{n}` that announces more bytes than
/// follow it. Every `{` outside escaped bytes starts a header; the `n` bytes
/// after a complete header are skipped unread. A header that is cut short or
/// holds another byte than a digit ends the walk, since the reader stops
/// there with an error; so does a count beyond `usize::MAX`, which counts as
/// too long.
pub open spec fn escapes_complete_from(bytes: Seq<u8>, i: int) -> bool
    decreases bytes.len() - i, 1int,
{
    if i < 0 || i >= bytes.len() {
        true
    } else if bytes[i] != 123u8 {
        escapes_complete_from(bytes, i + 1)
    } else {
        header_complete_from(bytes, i + 1, 0)
    }
}

/// The rest of the walk, inside an escape header whose digits so far make
/// `count`, at position `j`.
pub open spec fn header_complete_from(bytes: Seq<u8>, j: int, count: int) -> bool
    decreases bytes.len() - j, 0int,
{
    if j < 0 || j >= bytes.len() || count < 0 {
        true
    } else if bytes[j] == 125u8 {
        j + 1 + count <= bytes.len() && escapes_complete_from(bytes, j + 1 + count)
    } else if 48u8 <= bytes[j] <= 57u8 {
        count * 10 + (bytes[j] - 48u8) <= usize::MAX && header_complete_from(
            bytes,
            j + 1,
            count * 10 + (bytes[j] - 48u8),
        )
    } else {
        true
    }
}

/// Every escape header in `bytes` is followed by as many bytes as it
/// announces.
pub open spec fn escapes_complete(bytes: Seq<u8>) -> bool {
    escapes_complete_from(bytes, 0)
}

/// Checks that every escape header in `bytes` is followed by as many bytes as
/// it announces: plaintalk's reader waits forever for the missing ones.
pub fn check_escapes(bytes: &[u8]) -> (r: bool)
    ensures
        r == escapes_complete(bytes@),
{
    let mut i: usize = 0;
    let mut in_header = false;
    let mut count: u128 = 0;
    while i < bytes.len()
        invariant
            i <= bytes@.len(),
            count <= usize::MAX,
            escapes_complete(bytes@) == if in_header {
                header_complete_from(bytes@, i as int, count as int)
            } else {
                escapes_complete_from(bytes@, i as int)
            },
        decreases bytes@.len() - i,
    {
        let b = bytes[i];
        if !in_header {
            if b == 123u8 {
                in_header = true;
                count = 0;
            }
            i = i + 1;
        } else if b == 125u8 {
            if count > (bytes.len() - i - 1) as u128 {
                return false;
            }
            i = i + 1 + count as usize;
            in_header = false;
        } else if 48u8 <= b && b <= 57u8 {
            assert(count * 10 <= usize::MAX * 10) by (nonlinear_arith)
                requires
                    count <= usize::MAX,
            ;
            let next = count * 10 + (b - 48u8) as u128;
            if next > usize::MAX as u128 {
                return false;
            }
            count = next;
            i = i + 1;
        } else {
            return true;
        }
    }
    true
}

/// Relies on `plaintalk::pushgenerator::PushGenerator::write_message`, run on
/// a fresh generator over an in-memory buffer: writing into a `Vec` cannot
/// fail, and the buffer then holds the one message written. Each field is
/// written as it is, or, where it is empty, longer than 100 bytes or holds
/// `{`, a space, CR or LF, after a header `{n}` that gives its length n; so
/// every header is followed by the bytes it announces.
#[verifier::external_body]
fn encode_message(fields: &Vec<Vec<u8>>) -> (r: Result<Vec<u8>, pushgenerator::Error>)
    ensures
        r is Ok,
        r is Ok ==> r->Ok_0@ == plaintalk_encoding(fields.deep_view()),
        r is Ok ==> escapes_complete(r->Ok_0@),
{
    let mut out: Vec<u8> = Vec::new();
    let refs: Vec<&[u8]> = fields.iter().map(|f| f.as_slice()).collect();
    let written = PushGenerator::new(&mut out).write_message(&refs);
    written.map(|()| out)
}

/// Relies on `plaintalk::pullparser::PullParser::read_message`, run on a
/// fresh parser over the given bytes: a fresh parser always yields a first
/// message, read every field to its end. On an escape header that announces
/// more bytes than follow, the reader waits for them forever; hence the
/// requirement. A message that plaintalk wrote from fields of which there is
/// at least one and the first is not empty reads back as those fields.
#[verifier::external_body]
fn decode_message(bytes: &Vec<u8>) -> (r: Result<Option<Vec<Vec<u8>>>, pullparser::Error>)
    requires
        escapes_complete(bytes@),
    ensures
        r is Ok ==> r->Ok_0 is Some,
        r is Ok <==> plaintalk_accepts(bytes@),
        r is Ok ==> r->Ok_0->Some_0.deep_view() == plaintalk_first_message(bytes@),
        forall|fields: Seq<Seq<u8>>|
            fields.len() >= 1 && fields[0].len() > 0 && bytes@ == #[trigger] plaintalk_encoding(
                fields,
            ) ==> r is Ok && r->Ok_0->Some_0.deep_view() == fields,
{
    PullParser::new(bytes.as_slice()).read_message()
}

/// The bytes of the given messages, one after the other.
pub open spec fn encoding_of(messages: Seq<Seq<Seq<u8>>>) -> Seq<u8>
    decreases messages.len(),
{
    if messages.len() == 0 {
        Seq::empty()
    } else {
        encoding_of(messages.drop_last()) + plaintalk_encoding(messages.last())
    }
}

/// Frames the given messages for the wire, in order.
pub fn encode_messages(messages: &Vec<Vec<Vec<u8>>>) -> (r: Result<Vec<u8>, ClientError>)
    ensures
        r is Ok,
        r is Ok ==> r->Ok_0@ == encoding_of(messages.deep_view()),
{
    let mut out: Vec<u8> = Vec::new();
    let mut i: usize = 0;
    while i < messages.len()
        invariant
            i <= messages@.len(),
            out@ == encoding_of(messages.deep_view().subrange(0, i as int)),
        decreases messages@.len() - i,
    {
        let mut bytes = match encode_message(&messages[i]) {
            Ok(bytes) => bytes,
            Err(e) => return Err(ClientError::PushGenerator(e)),
        };
        proof {
            let done = messages.deep_view().subrange(0, i + 1);
            assert(done.drop_last() =~= messages.deep_view().subrange(0, i as int));
            assert(done.last() == messages@[i as int].deep_view());
        }
        out.append(&mut bytes);
        i = i + 1;
    }
    assert(messages.deep_view().subrange(0, messages@.len() as int) =~= messages.deep_view());
    Ok(out)
}

/// Frames the broadcast that relays a shout; nothing for `Terminate`.
pub fn encode_relay(message: &ClientMessage) -> (r: Option<Vec<u8>>)
    ensures
        match message {
            ClientMessage::Shout(nick, statement) => r is Some && r->Some_0@ == plaintalk_encoding(
                relay_fields(nick@, statement@),
            ) && escapes_complete(r->Some_0@),
            ClientMessage::Terminate => r is None,
        },
{
    match relay_message(message) {
        Some(fields) => match encode_message(&fields) {
            Ok(bytes) => Some(bytes),
            Err(_) => None,
        },
        None => None,
    }
}

/// Reads the first message of `bytes` as the shout that it relays, if it is a
/// shout broadcast. Bytes with an escape header that announces more bytes
/// than follow are refused unread. A relay that `encode_relay` framed reads
/// back as the nick and statement it carried.
pub fn decode_relay(bytes: &Vec<u8>) -> (r: Result<Option<(Vec<u8>, Vec<u8>)>, ClientError>)
    ensures
        match r {
            Ok(Some((nick, statement))) => escapes_complete(bytes@) && plaintalk_accepts(bytes@)
                && relayed_shout(plaintalk_first_message(bytes@)) == Some((nick@, statement@)),
            Ok(None) => escapes_complete(bytes@) && plaintalk_accepts(bytes@) && relayed_shout(
                plaintalk_first_message(bytes@),
            ) is None,
            Err(e) => (e is TruncatedEscape && !escapes_complete(bytes@)) || (e is PullParser
                && escapes_complete(bytes@) && !plaintalk_accepts(bytes@)),
        },
        forall|nick: Seq<u8>, statement: Seq<u8>|
            escapes_complete(bytes@) && bytes@ == #[trigger] plaintalk_encoding(
                relay_fields(nick, statement),
            ) ==> r is Ok && r->Ok_0 is Some && r->Ok_0->Some_0.0@ == nick && r->Ok_0->Some_0.1@
                == statement,
{
    if !check_escapes(bytes.as_slice()) {
        return Err(ClientError::TruncatedEscape);
    }
    proof {
        lemma_relay_fields_start();
    }
    match decode_message(bytes) {
        Ok(Some(fields)) => {
            let r = parse_relay(&fields);
            assert forall|nick: Seq<u8>, statement: Seq<u8>|
                bytes@ == #[trigger] plaintalk_encoding(
                    relay_fields(nick, statement),
                ) implies r is Some && r->Some_0.0@ == nick && r->Some_0.1@ == statement by {
                lemma_relay_round_trip(nick, statement);
                assert(fields.deep_view() == relay_fields(nick, statement));
            }
            Ok(r)
        },
        Ok(None) => Ok(None),
        Err(e) => Err(ClientError::PullParser(e)),
    }
}

} // verus!
