use imap2slack::imap_extention::mime::{
    keep_first, lookup, lookup_any_case, parse_mail, parse_part, read_media_type, read_parameters, scan_headers,
    Header, MAX_NESTING,
};

fn header(name: &str, value: &str) -> Header {
    Header { name: name.as_bytes().to_vec(), value: value.as_bytes().to_vec() }
}

#[test]
fn header_and_body_are_split_at_the_first_empty_line() {
    let (fields, body) = scan_headers(b"Subject: hi\r\nTo: a@b\r\n\r\nbody\r\n\r\nmore");
    assert_eq!(fields, vec![header("subject", "hi"), header("to", "a@b")]);
    assert_eq!(body, 24);
    assert_eq!(&b"Subject: hi\r\nTo: a@b\r\n\r\nbody\r\n\r\nmore"[body..], b"body\r\n\r\nmore");
}

#[test]
fn bare_line_feeds_end_lines_too() {
    let (fields, body) = scan_headers(b"A: 1\nB: 2\n\nx");
    assert_eq!(fields, vec![header("a", "1"), header("b", "2")]);
    assert_eq!(body, 11);
}

#[test]
fn a_message_without_empty_line_is_all_header() {
    let data = b"A: 1\r\nB: 2";
    let (fields, body) = scan_headers(data);
    assert_eq!(fields, vec![header("a", "1"), header("b", "2")]);
    assert_eq!(body, data.len());
    let (none, start) = scan_headers(b"");
    assert!(none.is_empty());
    assert_eq!(start, 0);
}

#[test]
fn folded_lines_are_joined_with_one_space() {
    let (fields, _) = scan_headers(b"Subject: a long\r\n\t  subject\r\n   in three lines  \r\nX: y\r\n\r\n");
    assert_eq!(fields, vec![header("subject", "a long subject in three lines"), header("x", "y")]);
}

#[test]
fn a_continuation_without_a_field_and_a_line_without_colon_say_nothing() {
    let (fields, _) = scan_headers(b" stray\r\nnonsense\r\nA: 1\r\n\r\n");
    assert_eq!(fields, vec![header("a", "1")]);
}

#[test]
fn names_are_lowered_and_the_first_of_a_name_wins() {
    let (all, _) = scan_headers(b"SUBJECT: one\r\nSubject: two\r\n three\r\nsubject: four\r\nTo: x\r\n\r\n");
    assert_eq!(
        all,
        vec![
            header("subject", "one"),
            header("subject", "two three"),
            header("subject", "four"),
            header("to", "x"),
        ]
    );
    let kept = keep_first(&all);
    assert_eq!(kept, vec![header("subject", "one"), header("to", "x")]);
    assert_eq!(lookup(&kept, b"subject"), Some(&b"one".to_vec()));
    assert_eq!(lookup(&all, b"subject"), Some(&b"one".to_vec()));
    assert_eq!(lookup(&kept, b"cc"), None);
    assert_eq!(lookup(&kept, b"Subject"), None);
    assert_eq!(lookup_any_case(&kept, b"Subject"), Some(&b"one".to_vec()));
    assert_eq!(lookup_any_case(&kept, b"TO"), Some(&b"x".to_vec()));
    assert_eq!(lookup_any_case(&kept, b"Cc"), None);
}

#[test]
fn media_type_and_parameters() {
    let value = b" Multipart/Mixed ; Boundary=\"a b;\" ; charset = utf-8; junk; x=\"";
    assert_eq!(read_media_type(value), b"multipart/mixed".to_vec());
    assert_eq!(
        read_parameters(value),
        vec![header("boundary", "\"a b"), header("charset", "utf-8"), header("x", "\"")]
    );
    assert_eq!(read_parameters(b"text/plain"), Vec::<Header>::new());
    assert_eq!(read_parameters(b"text/plain; a=\"b\""), vec![header("a", "b")]);
    assert_eq!(read_parameters(b"t;=v;k="), vec![header("", "v"), header("k", "")]);
}

#[test]
fn a_message_without_content_type_is_a_text_leaf() {
    let part = parse_mail(b"Subject: x\r\n\r\nhello\r\n");
    assert_eq!(part.content_type, b"text/plain".to_vec());
    assert!(part.parameters.is_empty());
    assert_eq!(part.headers, vec![header("subject", "x")]);
    assert_eq!(part.body, b"hello\r\n".to_vec());
    assert!(part.children.is_empty());
}

#[test]
fn a_multipart_body_is_split_on_its_boundary() {
    let data = b"Content-Type: multipart/mixed; boundary=XX\r\n\r\npreamble\r\n--XX\r\nContent-Type: text/html\r\n\r\n<p>hi</p>\r\n--XX\r\n\r\nplain\r\ntext\r\n--XX--\r\nepilogue\r\n--XX\r\nignored";
    let part = parse_mail(data);
    assert_eq!(part.content_type, b"multipart/mixed".to_vec());
    assert_eq!(part.parameters, vec![header("boundary", "XX")]);
    assert!(part.body.is_empty());
    assert_eq!(part.children.len(), 2);
    assert_eq!(part.children[0].content_type, b"text/html".to_vec());
    assert_eq!(part.children[0].body, b"<p>hi</p>".to_vec());
    assert_eq!(part.children[1].content_type, b"text/plain".to_vec());
    assert_eq!(part.children[1].body, b"plain\r\ntext".to_vec());
    assert!(part.children[1].headers.is_empty());
}

#[test]
fn parts_without_closing_delimiter_and_empty_parts() {
    let part = parse_mail(b"Content-Type: multipart/mixed; boundary=b\n\n--b\n--b\nA: 1\n\nlast part\nno end");
    assert_eq!(part.children.len(), 2);
    assert!(part.children[0].headers.is_empty());
    assert!(part.children[0].body.is_empty());
    assert_eq!(part.children[1].headers, vec![header("a", "1")]);
    assert_eq!(part.children[1].body, b"last part\nno end".to_vec());
}

#[test]
fn a_container_without_boundary_or_delimiter_holds_nothing() {
    let none = parse_mail(b"Content-Type: multipart/mixed\r\n\r\n--x\r\n\r\nbody\r\n--x--\r\n");
    assert!(none.children.is_empty());
    assert!(none.body.is_empty());
    let unused = parse_mail(b"Content-Type: multipart/mixed; boundary=x\r\n\r\nno delimiter here\r\n");
    assert!(unused.children.is_empty());
    assert!(unused.body.is_empty());
}

#[test]
fn containers_nest() {
    let data = b"Content-Type: multipart/mixed; boundary=outer\r\n\r\n--outer\r\nContent-Type: multipart/alternative; boundary=\"inner\"\r\n\r\n--inner\r\nContent-Type: text/html\r\n\r\n<b>x</b>\r\n--inner\r\nContent-Type: text/plain\r\n\r\nx\r\n--inner--\r\n--outer\r\nContent-Type: application/pdf\r\n\r\n%PDF\r\n--outer--\r\n";
    let part = parse_mail(data);
    assert_eq!(part.children.len(), 2);
    let inner = &part.children[0];
    assert_eq!(inner.content_type, b"multipart/alternative".to_vec());
    assert_eq!(inner.children.len(), 2);
    assert_eq!(inner.children[0].content_type, b"text/html".to_vec());
    assert_eq!(inner.children[1].content_type, b"text/plain".to_vec());
    assert_eq!(inner.children[1].body, b"x".to_vec());
    assert_eq!(part.children[1].content_type, b"application/pdf".to_vec());
    assert_eq!(part.children[1].body, b"%PDF".to_vec());
}

#[test]
fn nesting_is_followed_to_a_bound() {
    let data = b"Content-Type: multipart/mixed; boundary=a\r\n\r\n--a\r\nContent-Type: multipart/mixed; boundary=b\r\n\r\n--b\r\n\r\ndeep\r\n--b--\r\n--a--\r\n";
    let flat = parse_part(data, 0);
    assert!(flat.children.is_empty());
    let one = parse_part(data, 1);
    assert_eq!(one.children.len(), 1);
    assert!(one.children[0].children.is_empty());
    let two = parse_part(data, 2);
    assert_eq!(two.children[0].children.len(), 1);
    assert_eq!(two.children[0].children[0].body, b"deep".to_vec());
    assert_eq!(parse_mail(data), parse_part(data, MAX_NESTING));
    assert_eq!(MAX_NESTING, 16);
}

#[test]
fn a_delimiter_line_says_the_boundary_and_nothing_else() {
    let data = b"Content-Type: multipart/mixed; boundary=b1\n\n--b1 \t\nA: 1\n\n--b10\nstill the first part\n--b1x--\n--b1-- x\n--b1\n\nsecond\n--b1--  \nafter\n--b1\nnot a part";
    let part = parse_mail(data);
    assert_eq!(part.children.len(), 2);
    assert_eq!(part.children[0].headers, vec![header("a", "1")]);
    assert_eq!(
        part.children[0].body,
        b"--b10\nstill the first part\n--b1x--\n--b1-- x".to_vec()
    );
    assert_eq!(part.children[1].body, b"second".to_vec());
}

#[test]
fn boundaries_that_begin_alike_are_told_apart() {
    let data = b"Content-Type: multipart/mixed; boundary=p_1\r\n\r\n--p_1\r\nContent-Type: multipart/alternative; boundary=p_10\r\n\r\n--p_10\r\nContent-Type: text/plain\r\n\r\none\r\n--p_10\r\nContent-Type: text/html\r\n\r\ntwo\r\n--p_10--\r\n--p_1\r\n\r\nthree\r\n--p_1--\r\n";
    let part = parse_mail(data);
    assert_eq!(part.children.len(), 2);
    assert_eq!(part.children[0].children.len(), 2);
    assert_eq!(part.children[0].children[0].body, b"one".to_vec());
    assert_eq!(part.children[0].children[1].body, b"two".to_vec());
    assert_eq!(part.children[1].body, b"three".to_vec());
}
