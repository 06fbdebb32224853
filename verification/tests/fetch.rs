use imap2slack::imap_extention::command::{fetch_command, message_number, seen_flag, write_number};
use imap2slack::imap_extention::decode::DecodeError;
use imap2slack::imap_extention::fetch::{build_mail, header_string, read_mail, read_mails, FetchError};
use imap2slack::imap_extention::literal::{ProtocolParseError, RawMessage};
use imap2slack::imap_extention::mime::Header;
use imap2slack::imap_extention::path::{Path, Status};
use imap2slack::imap_extention::search::{parse_search_response, search2str, search_command, SEARCH};
use imap2slack::config::default::Slack;
use imap2slack::slack::{compose, compose_all};

fn reply(id: u32, flags: &str, message: &[u8]) -> Vec<Vec<u8>> {
    let mut head = format!("* {} FETCH (FLAGS ({}) BODY[] {{{}}}\r\n", id, flags, message.len()).into_bytes();
    let cut = message.len() / 2;
    head.extend_from_slice(&message[..cut]);
    vec![head, message[cut..].to_vec(), b")\r\na1 OK FETCH completed\r\n".to_vec()]
}

const MESSAGE: &[u8] = b"From: Alice <alice@example.org>\r\nTO: bob@example.org\r\nCc: carol@example.org\r\nReply-To: list@example.org\r\nSubject: [Something]\r\n hi there\r\nDate: Mon, 2 Jan 2006 15:04:05 -0700\r\nX-Other: kept\r\nSubject: second subject\r\nContent-Type: text/plain; charset=utf-8\r\nContent-Transfer-Encoding: quoted-printable\r\n\r\nGr=C3=BC=C3=9Fe=\r\n aus {3}\r\nxyz\r\n";

#[test]
fn a_reply_becomes_a_mail() {
    let mail = read_mail(&reply(42, "\\Seen \\Recent", MESSAGE)).unwrap();
    assert_eq!(mail.uid, 42);
    assert_eq!(mail.flags, "\\Seen \\Recent");
    assert_eq!(mail.from, "Alice <alice@example.org>");
    assert_eq!(mail.to, "bob@example.org");
    assert_eq!(mail.cc, "carol@example.org");
    assert_eq!(mail.bcc, "");
    assert_eq!(mail.reply_to, "list@example.org");
    assert_eq!(mail.subject, "[Something] hi there");
    assert_eq!(mail.date, "Mon, 2 Jan 2006 15:04:05 -0700");
    assert_eq!(mail.text, "Grüße aus {3}\r\nxyz\r\n");
    let names: Vec<&[u8]> = mail.headers.iter().map(|h| h.name.as_slice()).collect();
    let expected: Vec<&[u8]> = vec![
        b"from",
        b"to",
        b"cc",
        b"reply-to",
        b"subject",
        b"date",
        b"x-other",
        b"content-type",
        b"content-transfer-encoding",
    ];
    assert_eq!(names, expected);
    assert_eq!(mail.headers[4].value, b"[Something] hi there".to_vec());
    assert_eq!(mail.headers[6].value, b"kept".to_vec());
}

#[test]
fn a_mail_from_a_raw_message() {
    let raw = RawMessage { id: 3, flags: b"\\Flagged".to_vec(), data: b"Subject: s\n\nbody".to_vec() };
    let mail = build_mail(&raw).unwrap();
    assert_eq!(mail.uid, 3);
    assert_eq!(mail.flags, "\\Flagged");
    assert_eq!(mail.subject, "s");
    assert_eq!(mail.from, "");
    assert_eq!(mail.text, "body");
    let empty = build_mail(&RawMessage { id: 0, flags: Vec::new(), data: Vec::new() }).unwrap();
    assert_eq!(empty.text, "");
    assert_eq!(empty.subject, "");
}

#[test]
fn what_is_no_text_is_an_error() {
    let bad_flags = RawMessage { id: 3, flags: vec![0xff], data: b"Subject: s\n\nbody".to_vec() };
    assert_eq!(build_mail(&bad_flags).err(), Some(DecodeError::InvalidUtf8));
    let bad_subject = RawMessage { id: 3, flags: Vec::new(), data: b"Subject: \xe9t\xe9\n\nbody".to_vec() };
    assert_eq!(build_mail(&bad_subject).err(), Some(DecodeError::InvalidUtf8));
    let other_header = RawMessage { id: 3, flags: Vec::new(), data: b"X-Note: \xe9t\xe9\n\nbody".to_vec() };
    assert!(build_mail(&other_header).is_ok());
    let base64 = RawMessage {
        id: 3,
        flags: Vec::new(),
        data: b"Content-Transfer-Encoding: base64\n\naGk=".to_vec(),
    };
    assert_eq!(build_mail(&base64).unwrap().text, "hi");
    let broken = RawMessage {
        id: 3,
        flags: Vec::new(),
        data: b"Content-Transfer-Encoding: base64\n\naGk".to_vec(),
    };
    assert_eq!(build_mail(&broken).err(), Some(DecodeError::InvalidBase64));
    let unknown = RawMessage {
        id: 3,
        flags: Vec::new(),
        data: b"Content-Transfer-Encoding: x-uuencode\n\nM".to_vec(),
    };
    assert_eq!(build_mail(&unknown).err(), Some(DecodeError::UnsupportedEncoding));
    let first_error = RawMessage {
        id: 3,
        flags: Vec::new(),
        data: b"From: \xff\nContent-Transfer-Encoding: x-uuencode\n\nM".to_vec(),
    };
    assert_eq!(build_mail(&first_error).err(), Some(DecodeError::InvalidUtf8));
    assert_eq!(
        read_mail(&reply(1, "", b"Content-Transfer-Encoding: x-unknown\r\n\r\nhi")).err(),
        Some(FetchError::Decode(DecodeError::UnsupportedEncoding))
    );
    assert_eq!(
        read_mail(&vec![b"* 1 FETCH (FLAGS () {9}\r\nshort".to_vec()]).err(),
        Some(FetchError::Protocol(ProtocolParseError::TruncatedLiteral))
    );
}

#[test]
fn header_values_as_text() {
    let headers = vec![
        Header { name: b"subject".to_vec(), value: "Caf\u{e9}".as_bytes().to_vec() },
        Header { name: b"x".to_vec(), value: vec![0xe9] },
    ];
    assert_eq!(header_string(&headers, b"subject"), Ok("Café".to_string()));
    assert_eq!(header_string(&headers, b"date"), Ok(String::new()));
    assert_eq!(header_string(&headers, b"x"), Err(DecodeError::InvalidUtf8));
}

#[test]
fn a_reply_that_cannot_be_read_does_not_stop_the_batch() {
    let batch = vec![
        reply(1, "", b"Subject: one\r\n\r\n1"),
        vec![b"garbage".to_vec()],
        reply(2, "", b"Subject: two\r\n\r\n2"),
        vec![b"* 3 FETCH (FLAGS () {100}\r\ntoo short".to_vec()],
        vec![b"* nine FETCH (FLAGS ())".to_vec()],
        reply(4, "", b"Subject: four\r\n\r\n4"),
    ];
    let sorted = read_mails(&batch).unwrap();
    assert_eq!(sorted.skipped, vec![1, 3, 4]);
    let subjects: Vec<&str> = sorted.mails.iter().map(|m| m.subject.as_str()).collect();
    assert_eq!(subjects, vec!["one", "two", "four"]);
    let uids: Vec<u32> = sorted.mails.iter().map(|m| m.uid).collect();
    assert_eq!(uids, vec![1, 2, 4]);
    let none = read_mails(&Vec::new()).unwrap();
    assert!(none.mails.is_empty() && none.skipped.is_empty());
}

#[test]
fn a_message_that_is_no_text_ends_the_batch() {
    let batch = vec![
        reply(1, "", b"Subject: one\r\n\r\n1"),
        reply(2, "", b"Subject: two\r\n\r\n\xff"),
        reply(3, "", b"Content-Transfer-Encoding: x-uuencode\r\n\r\nM"),
    ];
    assert_eq!(read_mails(&batch).err(), Some(DecodeError::InvalidUtf8));
}

#[test]
fn mailbox_names() {
    let path = Path::new("INBOX/Lists");
    assert_eq!(path.as_str(), "INBOX/Lists");
    assert_eq!(Path::new("").as_str(), "");
    let status = Status { messages: 3, recent: 1, unseen: 2 };
    assert_eq!(status.messages + status.recent + status.unseen, 6);
}

#[test]
fn search_commands() {
    assert_eq!(search2str(&SEARCH::SEEN), "SEEN");
    assert_eq!(search2str(&SEARCH::UNSEEN), "UNSEEN");
    assert_eq!(search_command(&vec![SEARCH::UNSEEN]), "SEARCH UNSEEN");
    assert_eq!(search_command(&vec![SEARCH::UNSEEN, SEARCH::SEEN]), "SEARCH UNSEEN SEEN");
    assert_eq!(search_command(&Vec::new()), "SEARCH");
}

#[test]
fn search_answers() {
    assert_eq!(parse_search_response(b"* SEARCH 2 84 882\r\n"), vec![2, 84, 882]);
    assert_eq!(parse_search_response(b"* search 7\r\n"), vec![7]);
    assert_eq!(parse_search_response(b"* SEARCH\r\n"), Vec::<usize>::new());
    assert_eq!(parse_search_response(b"* 5 EXISTS\r\n"), Vec::<usize>::new());
    assert_eq!(parse_search_response(b""), Vec::<usize>::new());
    assert_eq!(parse_search_response(b"12 SEARCH 007 x9y"), vec![12, 7, 9]);
    assert_eq!(
        parse_search_response(b"* SEARCH 1 99999999999999999999999999 2"),
        vec![1, 2]
    );
}

#[test]
fn what_a_channel_is_told() {
    let mail = read_mail(&reply(42, "", MESSAGE)).unwrap();
    let slack = Slack {
        webhook: "https://hooks.example.org/x".to_string(),
        username: "BOT".to_string(),
        emoji: "+1".to_string(),
    };
    let n = compose(&mail, &"#general".to_string(), &slack);
    assert_eq!(n.pretext, "From:\t\tAlice <alice@example.org>\nTo:\t\t\tbob@example.org");
    assert_eq!(n.title, "[Something] hi there");
    assert_eq!(n.text, "Grüße aus {3}\r\nxyz\r\n");
    assert_eq!(n.channel, "#general");
    assert_eq!(n.username, "BOT");
    assert_eq!(n.icon_emoji, ":+1:");
    let all = compose_all(&mail, &vec!["#a".to_string(), "#b".to_string()], &slack);
    assert_eq!(all.len(), 2);
    assert_eq!(all[0].channel, "#a");
    assert_eq!(all[1].channel, "#b");
    assert_eq!(all[1].pretext, n.pretext);
    assert!(compose_all(&mail, &Vec::new(), &slack).is_empty());
}

#[test]
fn what_the_server_is_told() {
    assert_eq!(fetch_command(1), "FETCH 1 (FLAGS BODY.PEEK[])");
    assert_eq!(fetch_command(0), "FETCH 0 (FLAGS BODY.PEEK[])");
    assert_eq!(fetch_command(1234567890), "FETCH 1234567890 (FLAGS BODY.PEEK[])");
    assert_eq!(message_number(42), "42");
    assert_eq!(message_number(u32::MAX), "4294967295");
    assert_eq!(seen_flag(), "+FLAGS \\Seen");
    let mut text = String::from("n=");
    write_number(u64::MAX, &mut text);
    write_number(0, &mut text);
    write_number(907, &mut text);
    assert_eq!(text, "n=184467440737095516150907");
}
