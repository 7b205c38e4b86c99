use chattalk::client::{
    respond, ClientConnection, ClientError, ProtocolExtensions, Step, TcpProtocolExtensions,
    HELP,
};

struct Credentials(Option<String>);

impl ProtocolExtensions for Credentials {
    fn supports_auth_unix(&self) -> bool {
        true
    }

    fn auth_unix(&self) -> Option<String> {
        self.0.clone()
    }
}

struct Watched(std::rc::Rc<std::cell::Cell<u32>>);

impl ProtocolExtensions for Watched {
    fn supports_auth_unix(&self) -> bool {
        true
    }

    fn auth_unix(&self) -> Option<String> {
        self.0.set(self.0.get() + 1);
        Some("watched".to_string())
    }
}

fn msg(fields: &[&[u8]]) -> Vec<Vec<u8>> {
    fields.iter().map(|f| f.to_vec()).collect()
}

fn replies_of(step: Step) -> (Vec<Vec<Vec<u8>>>, Vec<u8>, Option<(Vec<u8>, Vec<u8>)>) {
    match step {
        Step::Reply { replies, nick, shout } => (replies, nick, shout),
        Step::End => panic!("session ended"),
    }
}

fn tcp() -> (ClientConnection<TcpProtocolExtensions>, ()) {
    (ClientConnection::new(TcpProtocolExtensions), ())
}

fn handle<P: ProtocolExtensions>(
    c: &mut ClientConnection<P>,
    fields: &[&[u8]],
) -> (Vec<Vec<Vec<u8>>>, Vec<u8>, Option<(Vec<u8>, Vec<u8>)>) {
    replies_of(c.handle_message(&msg(fields)).unwrap())
}

#[test]
fn help_notes_then_acknowledges() {
    let (mut c, _rx) = tcp();
    let (replies, nick, shout) = handle(&mut c, &[b"0", b"help"]);
    assert_eq!(
        replies,
        vec![msg(&[b"*", b"note", HELP.as_bytes()]), msg(&[b"0", b"ok"])]
    );
    assert_eq!(nick, b"".to_vec());
    assert!(shout.is_none());
}

#[test]
fn help_with_arguments_is_a_usage_error() {
    let (mut c, _rx) = tcp();
    let (replies, _, _) = handle(&mut c, &[b"4", b"help", b"me"]);
    assert_eq!(
        replies,
        vec![msg(&[b"4", b"error", b"invalid-command", b"Usage: <msg-id> help"])]
    );
}

#[test]
fn protocol_ignores_arguments() {
    let (mut c, _rx) = tcp();
    let (replies, _, _) = handle(&mut c, &[b"1", b"protocol", b"a", b"b"]);
    assert_eq!(
        replies,
        vec![
            msg(&[b"*", b"note", b"'protocol' currently has no effect"]),
            msg(&[b"1", b"ok", b"chattalk"]),
        ]
    );
}

#[test]
fn join_announces_with_nick() {
    let (mut c, _rx) = tcp();
    handle(&mut c, &[b"1", b"nick", b"alice"]);
    let (replies, _, _) = handle(&mut c, &[b"2", b"join", b"#rust"]);
    assert_eq!(
        replies,
        vec![
            msg(&[b"*", b"note", b"'join' currently has no effect"]),
            msg(&[b"*", b"join", b"alice", b"#rust"]),
            msg(&[b"2", b"ok"]),
        ]
    );
}

#[test]
fn join_needs_exactly_one_channel() {
    let (mut c, _rx) = tcp();
    let usage = msg(&[b"3", b"error", b"invalid-command", b"Usage: <msg-id> join <channel-name>"]);
    assert_eq!(handle(&mut c, &[b"3", b"join"]).0, vec![usage.clone()]);
    assert_eq!(handle(&mut c, &[b"3", b"join", b"a", b"b"]).0, vec![usage]);
}

#[test]
fn nick_change_announces_old_nick() {
    let (mut c, _rx) = tcp();
    let (replies, nick, _) = handle(&mut c, &[b"1", b"nick", b"bob"]);
    assert_eq!(replies, vec![msg(&[b"*", b"nick", b"", b"bob"]), msg(&[b"1", b"ok"])]);
    assert_eq!(nick, b"bob".to_vec());
    let (replies, nick, _) = handle(&mut c, &[b"2", b"nick", b"carol"]);
    assert_eq!(replies, vec![msg(&[b"*", b"nick", b"bob", b"carol"]), msg(&[b"2", b"ok"])]);
    assert_eq!(nick, b"carol".to_vec());
}

#[test]
fn shout_goes_to_hub_with_nick() {
    let (mut c, _) = tcp();
    handle(&mut c, &[b"1", b"nick", b"alice"]);
    let (replies, nick, shout) = handle(&mut c, &[b"2", b"shout", b"hello"]);
    assert_eq!(replies, vec![msg(&[b"2", b"ok"])]);
    assert_eq!(shout, Some((b"alice".to_vec(), b"hello".to_vec())));
    assert_eq!(nick, b"alice".to_vec());
}

#[test]
fn only_shout_goes_to_hub() {
    let (mut c, _) = tcp();
    assert!(handle(&mut c, &[b"1", b"nick", b"alice"]).2.is_none());
    assert!(handle(&mut c, &[b"2", b"join", b"x"]).2.is_none());
    assert!(handle(&mut c, &[b"3", b"shout"]).2.is_none());
}

#[test]
fn empty_id_alone_ends_session() {
    let (mut c, _) = tcp();
    let r = c.handle_message(&msg(&[b""])).unwrap();
    assert!(matches!(r, Step::End));
}

#[test]
fn empty_id_with_command_is_handled() {
    let (mut c, _rx) = tcp();
    let (replies, _, _) = handle(&mut c, &[b"", b"help"]);
    assert_eq!(replies[1], msg(&[b"", b"ok"]));
}

#[test]
fn unknown_command_keeps_connection() {
    let (mut c, _rx) = tcp();
    let (replies, _, _) = handle(&mut c, &[b"5", b"xyz", b"a"]);
    assert_eq!(
        replies,
        vec![msg(&[b"5", b"error", b"invalid-command", b"unknown command: xyz"])]
    );
    let (replies, nick, _) = handle(&mut c, &[b"6", b"nick", b"dave"]);
    assert_eq!(replies[1], msg(&[b"6", b"ok"]));
    assert_eq!(nick, b"dave".to_vec());
}

#[test]
fn unknown_command_shown_lossily() {
    let (mut c, _rx) = tcp();
    let (replies, _, _) = handle(&mut c, &[b"5", b"x\xffy"]);
    assert_eq!(
        replies,
        vec![msg(&[b"5", b"error", b"invalid-command", "unknown command: x\u{fffd}y".as_bytes()])]
    );
}

#[test]
fn missing_command_is_a_structure_error() {
    let (mut c, _rx) = tcp();
    let (replies, _, _) = handle(&mut c, &[b"7"]);
    assert_eq!(
        replies,
        vec![msg(&[
            b"7",
            b"error",
            b"invalid-command",
            b"Invalid format. Basic structure of all messages is: <message-ID> <command> [command arguments...] (try `0 help`)",
        ])]
    );
}

#[test]
fn auth_unix_over_tcp_is_unknown_method() {
    let (mut c, _rx) = tcp();
    let (replies, nick, _) = handle(&mut c, &[b"8", b"auth", b"unix"]);
    assert_eq!(
        replies,
        vec![msg(&[b"8", b"error", b"unknown-method", b"unknown authentication method: unix"])]
    );
    assert_eq!(nick, b"".to_vec());
}

#[test]
fn auth_unix_with_credentials_sets_nick() {
    let mut c = ClientConnection::new(Credentials(Some("root".to_string())));
    let (replies, nick, _) = handle(&mut c, &[b"9", b"auth", b"unix"]);
    assert_eq!(replies, vec![msg(&[b"9", b"ok", b"root"])]);
    assert_eq!(nick, b"root".to_vec());
    let (replies, _, _) = handle(&mut c, &[b"10", b"nick", b"x"]);
    assert_eq!(replies[0], msg(&[b"*", b"nick", b"root", b"x"]));
}

#[test]
fn auth_unix_lookup_failure() {
    let mut c = ClientConnection::new(Credentials(None));
    let (replies, nick, _) = handle(&mut c, &[b"9", b"auth", b"unix"]);
    assert_eq!(
        replies,
        vec![msg(&[b"9", b"error", b"auth-failed", b"Unix authentication failed"])]
    );
    assert_eq!(nick, b"".to_vec());
}

#[test]
fn auth_unix_with_extra_field_is_a_usage_error() {
    let mut c = ClientConnection::new(Credentials(Some("root".to_string())));
    let (replies, _, _) = handle(&mut c, &[b"9", b"auth", b"unix", b"x"]);
    assert_eq!(
        replies,
        vec![msg(&[b"9", b"error", b"invalid-command", b"Usage: <msg-id> auth unix"])]
    );
}

#[test]
fn auth_other_method_and_missing_method() {
    let (mut c, _rx) = tcp();
    let (replies, _, _) = handle(&mut c, &[b"1", b"auth", b"kerberos", b"x"]);
    assert_eq!(
        replies,
        vec![msg(&[b"1", b"error", b"unknown-method", b"unknown authentication method: kerberos"])]
    );
    let (replies, _, _) = handle(&mut c, &[b"2", b"auth"]);
    assert_eq!(
        replies,
        vec![msg(&[b"2", b"error", b"invalid-command", b"Usage: <msg-id> auth <auth-method> ..."])]
    );
}

#[test]
fn overlong_words_end_connection() {
    let (mut c, _rx) = tcp();
    assert!(matches!(
        c.handle_message(&msg(&[b"12345678901", b"help"])),
        Err(ClientError::FieldTooLong)
    ));
    assert!(matches!(
        c.handle_message(&msg(&[b"1", b"protocolxyz"])),
        Err(ClientError::FieldTooLong)
    ));
    assert!(matches!(
        c.handle_message(&msg(&[b"1", b"auth", b"unix-socket"])),
        Err(ClientError::FieldTooLong)
    ));
    let (replies, _, _) = handle(&mut c, &[b"1234567890", b"help"]);
    assert_eq!(replies[1], msg(&[b"1234567890", b"ok"]));
}

#[test]
fn invalid_utf8_argument_ends_connection() {
    let (mut c, _rx) = tcp();
    assert!(matches!(
        c.handle_message(&msg(&[b"1", b"nick", b"\xff"])),
        Err(ClientError::InvalidUtf8)
    ));
    let (_, nick, _) = handle(&mut c, &[b"2", b"nick", b"ok"]);
    assert_eq!(nick, b"ok".to_vec());
}

#[test]
fn respond_is_pure_in_the_nick() {
    let r = respond(&b"eve".to_vec(), &msg(&[b"3", b"shout", b"hi there"]), false, None).unwrap();
    let (replies, nick, shout) = replies_of(r);
    assert_eq!(replies, vec![msg(&[b"3", b"ok"])]);
    assert_eq!(nick, b"eve".to_vec());
    assert_eq!(shout, Some((b"eve".to_vec(), b"hi there".to_vec())));
}

#[test]
fn respond_uses_identity_only_for_auth_unix() {
    let r = respond(&b"eve".to_vec(), &msg(&[b"3", b"auth", b"unix"]), true, Some(b"ann".to_vec()));
    let (replies, nick, _) = replies_of(r.unwrap());
    assert_eq!(replies, vec![msg(&[b"3", b"ok", b"ann"])]);
    assert_eq!(nick, b"ann".to_vec());
}

#[test]
fn user_looked_up_only_for_auth_unix() {
    let lookups = std::rc::Rc::new(std::cell::Cell::new(0));
    let mut c = ClientConnection::new(Watched(lookups.clone()));
    handle(&mut c, &[b"1", b"help"]);
    handle(&mut c, &[b"2", b"auth", b"unix", b"extra"]);
    handle(&mut c, &[b"3", b"auth", b"other"]);
    handle(&mut c, &[b"4", b"nick", b"unix"]);
    assert_eq!(lookups.get(), 0);
    let (replies, nick, _) = handle(&mut c, &[b"5", b"auth", b"unix"]);
    assert_eq!(replies, vec![msg(&[b"5", b"ok", b"watched"])]);
    assert_eq!(nick, b"watched".to_vec());
    assert_eq!(lookups.get(), 1);
}

#[test]
fn tcp_offers_no_unix_auth() {
    assert!(!TcpProtocolExtensions.supports_auth_unix());
    assert_eq!(TcpProtocolExtensions.auth_unix(), None);
}
