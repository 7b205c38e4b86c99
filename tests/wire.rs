use chattalk::client::ClientError;
use chattalk::peer_credentials::cvt;
use chattalk::server::{relay_message, ClientMessage};
use chattalk::codec::encode_relay;
use chattalk::{bytes_eq, decode_relay, encode_messages};

fn encode(messages: &[&[&[u8]]]) -> Vec<u8> {
    let v: Vec<Vec<Vec<u8>>> = messages
        .iter()
        .map(|m| m.iter().map(|f| f.to_vec()).collect())
        .collect();
    encode_messages(&v).unwrap()
}

#[test]
fn encodes_replies_in_order() {
    assert_eq!(encode(&[&[b"*", b"nick", b"bob", b"carol"], &[b"2", b"ok"]]), b"* nick bob carol\n2 ok\n".to_vec());
}

#[test]
fn encodes_nothing_as_nothing() {
    assert_eq!(encode(&[]), Vec::<u8>::new());
}

#[test]
fn encodes_empty_and_spaced_fields_escaped() {
    assert_eq!(encode(&[&[b"*", b"nick", b"", b"a b"]]), b"* nick {0} {3}a b\n".to_vec());
}

#[test]
fn shout_round_trips_through_codec() {
    for (nick, statement) in [
        (&b"alice"[..], &b"hello"[..]),
        (b"al ice", b"  spaced  out "),
        (b"bob", b""),
        (b"x", b"line\nbreak {curly}"),
    ] {
        let fields = relay_message(&ClientMessage::Shout(nick.to_vec(), statement.to_vec())).unwrap();
        let bytes = encode_messages(&vec![fields]).unwrap();
        assert_eq!(decode_relay(&bytes).unwrap(), Some((nick.to_vec(), statement.to_vec())));
    }
}

#[test]
fn decode_relay_ignores_other_messages() {
    assert_eq!(decode_relay(&b"1 ok\n".to_vec()).unwrap(), None);
}

#[test]
fn decode_relay_reports_broken_framing() {
    assert!(matches!(decode_relay(&b"* shout {x}\n".to_vec()), Err(ClientError::PullParser(_))));
}

#[test]
fn cvt_passes_non_negative_values() {
    assert_eq!(cvt(0).unwrap(), 0);
    assert_eq!(cvt(17).unwrap(), 17);
    assert!(cvt(-1).is_err());
}

#[test]
fn bytes_eq_compares_contents() {
    assert!(bytes_eq(b"abc", b"abc"));
    assert!(!bytes_eq(b"abc", b"abd"));
    assert!(!bytes_eq(b"abc", b"ab"));
    assert!(bytes_eq(b"", b""));
}

#[test]
fn truncated_escape_is_refused_unread() {
    for bytes in [&b"{5}ab"[..], b"{1}", b"* shout x {4}ab\n"] {
        assert!(matches!(decode_relay(&bytes.to_vec()), Err(ClientError::TruncatedEscape)));
    }
}

#[test]
fn encode_relay_round_trips() {
    let bytes = encode_relay(&ClientMessage::Shout(b"a b".to_vec(), b"".to_vec())).unwrap();
    assert_eq!(bytes, b"* shout {3}a b {0}\n".to_vec());
    assert_eq!(decode_relay(&bytes).unwrap(), Some((b"a b".to_vec(), b"".to_vec())));
    assert_eq!(encode_relay(&ClientMessage::Terminate), None);
}
