use imap2slack::imap_extention::literal::{
    assemble, assemble_stream, split_flags, ProtocolParseError,
};

#[test]
fn assembles_one_literal() {
    let reply = vec![b"* 7 FETCH (FLAGS (\\Seen) BODY[] {5}\r\nhello)\r\na1 OK done\r\n".to_vec()];
    let m = assemble(&reply).unwrap();
    assert_eq!(m.id, 7);
    assert_eq!(m.flags, b"\\Seen".to_vec());
    assert_eq!(m.data, b"hello".to_vec());
}

#[test]
fn literal_may_run_over_chunks() {
    let reply = vec![
        b"* 12 FETCH (FLAGS () BODY[] {1".to_vec(),
        b"0}\r\nabc".to_vec(),
        b"de".to_vec(),
        b"fghij)\r\n".to_vec(),
    ];
    let m = assemble(&reply).unwrap();
    assert_eq!(m.id, 12);
    assert_eq!(m.flags, Vec::<u8>::new());
    assert_eq!(m.data, b"abcdefghij".to_vec());
}

#[test]
fn bytes_of_a_literal_are_no_delimiters() {
    let reply = vec![b"* 1 FETCH (FLAGS (a b) X {9}\r\n{3}\r\n\x00\r\n) Y {2}\r\nok)".to_vec()];
    let m = assemble(&reply).unwrap();
    assert_eq!(m.flags, b"a b".to_vec());
    assert_eq!(m.data, b"{3}\r\n\x00\r\n)ok".to_vec());
}

#[test]
fn length_is_sum_of_declared_sizes() {
    let reply = vec![b"* 3 FETCH (FLAGS () A {4}\r\nabcd B {0}\r\n C {3}\r\nxyz)".to_vec()];
    let m = assemble(&reply).unwrap();
    assert_eq!(m.data.len(), 4 + 0 + 3);
    assert_eq!(m.data, b"abcdxyz".to_vec());
}

#[test]
fn chunks_before_the_response_are_passed_over() {
    let reply = vec![b"noise {2}\r\nzz".to_vec(), Vec::new(), b"* 2 FETCH (FLAGS (x) {1}\r\nq)".to_vec()];
    let m = assemble(&reply).unwrap();
    assert_eq!(m.id, 2);
    assert_eq!(m.data, b"q".to_vec());
}

#[test]
fn no_chunk_with_response_marker() {
    let reply = vec![b"a1 OK".to_vec()];
    assert_eq!(assemble(&reply), Err(ProtocolParseError::NoResponse));
    assert_eq!(assemble(&Vec::new()), Err(ProtocolParseError::NoResponse));
}

#[test]
fn bad_status_line() {
    assert_eq!(assemble_stream(b"* x FETCH (FLAGS ())"), Err(ProtocolParseError::BadStatusLine));
    assert_eq!(assemble_stream(b"* 1 fetch (FLAGS ())"), Err(ProtocolParseError::BadStatusLine));
    assert_eq!(assemble_stream(b"* 1 FETCH (FLAGS (abc"), Err(ProtocolParseError::BadStatusLine));
    assert_eq!(assemble_stream(b"*1 FETCH (FLAGS ())"), Err(ProtocolParseError::BadStatusLine));
    assert_eq!(assemble_stream(b""), Err(ProtocolParseError::BadStatusLine));
}

#[test]
fn id_out_of_range() {
    assert_eq!(
        assemble_stream(b"* 4294967296 FETCH (FLAGS ())"),
        Err(ProtocolParseError::IdOutOfRange)
    );
    assert_eq!(
        assemble_stream(b"* 99999999999999999999999999 FETCH (FLAGS ())"),
        Err(ProtocolParseError::IdOutOfRange)
    );
    assert_eq!(assemble_stream(b"* 4294967295 FETCH (FLAGS ())").unwrap().id, 4294967295);
}

#[test]
fn truncated_literal() {
    assert_eq!(
        assemble_stream(b"* 1 FETCH (FLAGS () {6}\r\nhello"),
        Err(ProtocolParseError::TruncatedLiteral)
    );
    assert_eq!(
        assemble_stream(b"* 1 FETCH (FLAGS () {99999999999999999999999}\r\nhello"),
        Err(ProtocolParseError::TruncatedLiteral)
    );
}

#[test]
fn what_opens_no_marker_is_framing() {
    let m = assemble_stream(b"* 1 FETCH (FLAGS () {} {x} {3} {3}\n {2}\r\nhi").unwrap();
    assert_eq!(m.data, b"hi".to_vec());
    let none = assemble_stream(b"* 1 FETCH (FLAGS ())").unwrap();
    assert_eq!(none.data, Vec::<u8>::new());
}

#[test]
fn a_flag_text_names_flags() {
    assert_eq!(
        split_flags(b"\\Seen \\Answered  $Forwarded "),
        vec![b"\\Seen".to_vec(), b"\\Answered".to_vec(), b"$Forwarded".to_vec()]
    );
    assert_eq!(split_flags(b""), Vec::<Vec<u8>>::new());
    assert_eq!(split_flags(b"   "), Vec::<Vec<u8>>::new());
    assert_eq!(split_flags(b"one"), vec![b"one".to_vec()]);
    let m = assemble_stream(b"* 1 FETCH (FLAGS (\\Seen \\Recent))").unwrap();
    assert_eq!(split_flags(&m.flags), vec![b"\\Seen".to_vec(), b"\\Recent".to_vec()]);
}
