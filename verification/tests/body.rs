use imap2slack::imap_extention::decode::{
    decode_base64, decode_quoted_printable, decode_text, decode_transfer, drop_spaces, read_text,
    DecodeError,
};
use imap2slack::imap_extention::fetch::{find_mail_body_parts, resolve_body};
use imap2slack::imap_extention::mime::{parse_mail, Header, MimePart};

fn leaf(content_type: &str, encoding: Option<&str>, body: &[u8]) -> MimePart {
    let mut headers = Vec::new();
    if let Some(e) = encoding {
        headers.push(Header {
            name: b"content-transfer-encoding".to_vec(),
            value: e.as_bytes().to_vec(),
        });
    }
    MimePart {
        content_type: content_type.as_bytes().to_vec(),
        parameters: Vec::new(),
        headers,
        body: body.to_vec(),
        children: Vec::new(),
    }
}

fn container(content_type: &str, children: Vec<MimePart>) -> MimePart {
    MimePart {
        content_type: content_type.as_bytes().to_vec(),
        parameters: Vec::new(),
        headers: Vec::new(),
        body: Vec::new(),
        children,
    }
}

#[test]
fn quoted_printable_escapes_are_decoded() {
    assert_eq!(decode_quoted_printable(b"Caf=C3=A9"), "Café".as_bytes().to_vec());
    assert_eq!(
        String::from_utf8(decode_quoted_printable(b"Caf=C3=A9")).unwrap(),
        "Café".to_string()
    );
}

#[test]
fn quoted_printable_soft_break_is_removed() {
    assert_eq!(decode_quoted_printable(b"abc=\r\ndef"), b"abcdef".to_vec());
    assert_eq!(decode_quoted_printable(b"abc=\ndef"), b"abcdef".to_vec());
}

#[test]
fn quoted_printable_passes_over_what_is_malformed() {
    assert_eq!(decode_quoted_printable(b"hello world=x"), b"hello world=x".to_vec());
    assert_eq!(decode_quoted_printable(b"a=ZZb"), b"a=ZZb".to_vec());
    assert_eq!(decode_quoted_printable(b"x=3dy"), b"x=y".to_vec());
    assert_eq!(decode_quoted_printable(b""), Vec::<u8>::new());
}

#[test]
fn mixed_alternative_resolves_to_the_plain_leaf() {
    let tree = container(
        "multipart/mixed",
        vec![container(
            "multipart/alternative",
            vec![
                leaf("text/html", None, b"<p>Caf\xc3\xa9</p>"),
                leaf("text/plain", Some("quoted-printable"), b"Caf=C3=A9"),
            ],
        )],
    );
    assert_eq!(resolve_body(&tree), Ok("Café".to_string()));
}

#[test]
fn the_plain_leaf_is_found_whatever_stands_beside_it() {
    let tree = container(
        "multipart/mixed",
        vec![container(
            "multipart/alternative",
            vec![
                leaf("text/plain", Some("quoted-printable"), b"Caf=C3=A9"),
                leaf("text/html", None, b"<p>Caf\xc3\xa9</p>"),
            ],
        )],
    );
    assert_eq!(resolve_body(&tree), Ok("Café".to_string()));
}

#[test]
fn the_first_plain_leaf_in_document_order_wins() {
    let tree = container(
        "multipart/mixed",
        vec![
            leaf("application/pdf", None, b"%PDF"),
            container(
                "multipart/alternative",
                vec![leaf("text/html", None, b"<i>one</i>"), leaf("text/plain", None, b"one")],
            ),
            leaf("text/plain", None, b"two"),
        ],
    );
    assert_eq!(resolve_body(&tree), Ok("one".to_string()));
    let mut leaves: Vec<&MimePart> = Vec::new();
    find_mail_body_parts(&mut leaves, &tree);
    assert_eq!(leaves.len(), 2);
    assert_eq!(leaves[0].body, b"one".to_vec());
    assert_eq!(leaves[1].body, b"two".to_vec());
}

#[test]
fn a_message_without_plain_leaf_has_no_text() {
    let tree = container("multipart/mixed", vec![leaf("text/html", None, b"<p>x</p>")]);
    assert_eq!(resolve_body(&tree), Ok(String::new()));
    assert_eq!(resolve_body(&leaf("text/html", None, b"<p>x</p>")), Ok(String::new()));
    assert_eq!(resolve_body(&container("multipart/mixed", Vec::new())), Ok(String::new()));
}

#[test]
fn a_later_leaf_that_cannot_be_decoded_does_no_harm() {
    let tree = container(
        "multipart/mixed",
        vec![leaf("text/plain", None, b"fine"), leaf("text/plain", Some("x-uuencode"), b"M")],
    );
    assert_eq!(resolve_body(&tree), Ok("fine".to_string()));
}

#[test]
fn transfer_encodings() {
    let none: Vec<Header> = Vec::new();
    assert_eq!(decode_transfer(&none, b"a=3Db"), Ok(b"a=3Db".to_vec()));
    for name in ["7bit", "8BIT", " binary "] {
        let h = vec![Header { name: b"content-transfer-encoding".to_vec(), value: name.as_bytes().to_vec() }];
        assert_eq!(decode_transfer(&h, b"a=3Db"), Ok(b"a=3Db".to_vec()));
    }
    let qp = vec![Header {
        name: b"content-transfer-encoding".to_vec(),
        value: b"Quoted-Printable".to_vec(),
    }];
    assert_eq!(decode_transfer(&qp, b"a=3Db"), Ok(b"a=b".to_vec()));
    let base64 = vec![Header {
        name: b"content-transfer-encoding".to_vec(),
        value: b" BASE64".to_vec(),
    }];
    assert_eq!(decode_transfer(&base64, b"aGk=\r\n"), Ok(b"hi".to_vec()));
    assert_eq!(decode_text(&base64, b"aGk="), Ok("hi".to_string()));
    assert_eq!(decode_transfer(&base64, b"a=3Db"), Err(DecodeError::InvalidBase64));
    let other = vec![Header {
        name: b"content-transfer-encoding".to_vec(),
        value: b"x-uuencode".to_vec(),
    }];
    assert_eq!(decode_transfer(&other, b"aGk="), Err(DecodeError::UnsupportedEncoding));
    assert_eq!(decode_text(&other, b"aGk="), Err(DecodeError::UnsupportedEncoding));
    let empty = vec![Header { name: b"content-transfer-encoding".to_vec(), value: Vec::new() }];
    assert_eq!(decode_transfer(&empty, b"x"), Err(DecodeError::UnsupportedEncoding));
}

#[test]
fn base64_data_is_decoded() {
    assert_eq!(decode_base64(b"aGVsbG8gd29ybGQ="), Ok(b"hello world".to_vec()));
    assert_eq!(decode_base64(b"aGVs\r\nbG8g\r\n d29y\tbGQ=\r\n"), Ok(b"hello world".to_vec()));
    assert_eq!(decode_base64(b"Q2Fmw6k="), Ok("Café".as_bytes().to_vec()));
    assert_eq!(decode_base64(b""), Ok(Vec::new()));
    assert_eq!(decode_base64(b" \r\n"), Ok(Vec::new()));
    assert_eq!(decode_base64(b"/+8="), Ok(vec![0xff, 0xef]));
}

#[test]
fn what_is_no_base64_is_an_error() {
    assert_eq!(decode_base64(b"aGk"), Err(DecodeError::InvalidBase64));
    assert_eq!(decode_base64(b"a"), Err(DecodeError::InvalidBase64));
    assert_eq!(decode_base64(b"aGk=aGk="), Err(DecodeError::InvalidBase64));
    assert_eq!(decode_base64(b"aG*="), Err(DecodeError::InvalidBase64));
    assert_eq!(decode_base64(b"_-8="), Err(DecodeError::InvalidBase64));
    assert_eq!(
        resolve_body(&leaf("text/plain", Some("base64"), b"not base64!")),
        Err(DecodeError::InvalidBase64)
    );
    assert_eq!(
        resolve_body(&leaf("text/plain", Some("base64"), b"/+8=")),
        Err(DecodeError::InvalidUtf8)
    );
    assert_eq!(
        resolve_body(&leaf("text/plain", Some("Base64"), b"R3LDvMOf\r\nZQ==\r\n")),
        Ok("Grüße".to_string())
    );
}

#[test]
fn spaces_and_line_breaks_are_dropped() {
    assert_eq!(drop_spaces(b" a\tb\r\nc \n"), b"abc".to_vec());
    assert_eq!(drop_spaces(b"\x0b\x0c"), b"\x0b\x0c".to_vec());
    assert_eq!(drop_spaces(b""), Vec::<u8>::new());
}

#[test]
fn text_has_to_be_utf8() {
    assert_eq!(read_text("Grüße".as_bytes().to_vec()), Ok("Grüße".to_string()));
    assert_eq!(read_text(Vec::new()), Ok(String::new()));
    assert_eq!(read_text(vec![0x47, 0xfc, 0xdf]), Err(DecodeError::InvalidUtf8));
    assert_eq!(read_text(vec![0xc3]), Err(DecodeError::InvalidUtf8));
    assert_eq!(
        resolve_body(&leaf("text/plain", Some("quoted-printable"), b"Gr=FC=DFe")),
        Err(DecodeError::InvalidUtf8)
    );
    assert_eq!(resolve_body(&leaf("text/plain", None, b"\xff")), Err(DecodeError::InvalidUtf8));
}

#[test]
fn a_parsed_message_resolves_to_its_plain_text() {
    let data = b"Subject: s\r\nContent-Type: multipart/mixed; boundary=o\r\n\r\n--o\r\nContent-Type: multipart/alternative; boundary=i\r\n\r\n--i\r\nContent-Type: text/html\r\n\r\n<p>h</p>\r\n--i\r\nContent-Type: Text/Plain; charset=utf-8\r\nContent-Transfer-Encoding: quoted-printable\r\n\r\nna=C3=AFve=\r\n text\r\n--i--\r\n--o--\r\n";
    let tree = parse_mail(data);
    assert_eq!(resolve_body(&tree), Ok("naïve text".to_string()));
}
