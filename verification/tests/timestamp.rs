use imap2slack::config::default::config_template;
use imap2slack::imap_extention::fetch::Mail;
use imap2slack::imap_extention::search::SEARCH;
use imap2slack::timestamp::{
    copy_mail, drop_zone_names, fresh, pick_fresh, poll_command, read_checkpoint, read_mail_time,
    read_mail_times, search_since, since, since_command, DateError, DAY,
};

fn mail(uid: u32, date: &str) -> Mail {
    Mail {
        uid,
        flags: String::new(),
        from: String::new(),
        to: String::new(),
        cc: String::new(),
        bcc: String::new(),
        reply_to: String::new(),
        subject: format!("mail {}", uid),
        date: date.to_string(),
        text: String::new(),
        headers: Vec::new(),
    }
}

#[test]
fn stored_times() {
    assert_eq!(read_checkpoint(b"1136239445"), Some(1136239445));
    assert_eq!(read_checkpoint(b" \t1136239445\n\n"), Some(1136239445));
    assert_eq!(read_checkpoint(b"+5"), Some(5));
    assert_eq!(read_checkpoint(b"-5"), Some(-5));
    assert_eq!(read_checkpoint(b"-0"), Some(0));
    assert_eq!(read_checkpoint(b"007"), Some(7));
    assert_eq!(read_checkpoint(b"9223372036854775807"), Some(i64::MAX));
    assert_eq!(read_checkpoint(b"-9223372036854775808"), Some(i64::MIN));
    assert_eq!(read_checkpoint(b"9223372036854775808"), None);
    assert_eq!(read_checkpoint(b"-9223372036854775809"), None);
    assert_eq!(read_checkpoint(b"99999999999999999999999999"), None);
    assert_eq!(read_checkpoint(b""), None);
    assert_eq!(read_checkpoint(b"  \n"), None);
    assert_eq!(read_checkpoint(b"+"), None);
    assert_eq!(read_checkpoint(b"-"), None);
    assert_eq!(read_checkpoint(b"12 34"), None);
    assert_eq!(read_checkpoint(b"12a"), None);
    assert_eq!(read_checkpoint(b"--1"), None);
    assert_eq!(read_checkpoint(b"1\r\n"), None);
}

#[test]
fn the_time_to_start_from() {
    assert_eq!(since(Some(b"100\n"), 500), 100);
    assert_eq!(since(Some(b"not a time"), 500), 500);
    assert_eq!(since(None, 500), 500);
    let config = config_template();
    assert_eq!(config.get_timestamp(Some(b" 42 "), 7), 42);
    assert_eq!(config.get_timestamp(Some(b""), 7), 7);
    assert_eq!(config.get_timestamp(None, 7), 7);
}

#[test]
fn names_of_time_zones_are_dropped() {
    assert_eq!(drop_zone_names(b"+0000 (UTC)"), b"+0000 ".to_vec());
    assert_eq!(drop_zone_names(b"(CEST)(x1)a(b)"), b"a".to_vec());
    assert_eq!(drop_zone_names(b"() (a b) (a (ab"), b"() (a b) (a (ab".to_vec());
    assert_eq!(drop_zone_names(b"((GMT))"), b"()".to_vec());
    assert_eq!(drop_zone_names(b""), Vec::<u8>::new());
}

#[test]
fn dates_of_mails() {
    assert_eq!(read_mail_time("Mon, 2 Jan 2006 15:04:05 -0700"), Some(1136239445));
    assert_eq!(read_mail_time("Mon, 02 Jan 2006 22:04:05 +0000 (UTC)"), Some(1136239445));
    assert_eq!(read_mail_time("  Mon, 2 Jan 2006 23:04:05 +0100 (CET) "), Some(1136239445));
    assert_eq!(read_mail_time("Thu, 1 Jan 1970 00:00:00 +0000"), Some(0));
    assert_eq!(read_mail_time(""), None);
    assert_eq!(read_mail_time("yesterday"), None);
    assert_eq!(read_mail_time("Mon, 2 Jan 2006 15:04:05"), None);
    assert_eq!(read_mail_time("2 Jan 2006 15:04:05 -0700"), None);
}

#[test]
fn only_mail_that_is_not_older_is_looked_at() {
    let mails = vec![
        mail(1, "Mon, 2 Jan 2006 15:04:04 -0700"),
        mail(2, "Mon, 2 Jan 2006 15:04:05 -0700"),
        mail(3, "Sun, 1 Jan 2006 15:04:06 -0700 (MST)"),
        mail(4, "Mon, 2 Jan 2006 15:04:06 -0700"),
    ];
    let kept = fresh(&mails, 1136239445).unwrap();
    let uids: Vec<u32> = kept.iter().map(|m| m.uid).collect();
    assert_eq!(uids, vec![2, 4]);
    assert_eq!(kept[0].subject, "mail 2");
    assert_eq!(fresh(&mails, i64::MIN).unwrap().len(), 4);
    assert_eq!(fresh(&mails, i64::MAX).unwrap().len(), 0);
    assert!(fresh(&Vec::new(), 0).unwrap().is_empty());
}

#[test]
fn a_date_that_cannot_be_read_is_an_error() {
    let mails = vec![
        mail(1, "Mon, 2 Jan 2006 15:04:04 -0700"),
        mail(8, "some day"),
        mail(9, ""),
    ];
    assert_eq!(fresh(&mails, 0).err(), Some(DateError { uid: 8 }));
}

#[test]
fn a_copy_of_a_mail_is_the_mail() {
    let mail = Mail {
        uid: 77,
        flags: "f".to_string(),
        from: "a".to_string(),
        to: "b".to_string(),
        cc: "c".to_string(),
        bcc: "d".to_string(),
        reply_to: "e".to_string(),
        subject: "s".to_string(),
        date: "t".to_string(),
        text: "x".to_string(),
        headers: vec![imap2slack::imap_extention::mime::Header {
            name: b"subject".to_vec(),
            value: b"s".to_vec(),
        }],
    };
    let copy = copy_mail(&mail);
    assert_eq!(copy, mail);
}

#[test]
fn searches_by_date_start_a_day_early() {
    assert_eq!(DAY, 86_400);
    assert_eq!(since_command(1136239445), Some("SEARCH SINCE 01-Jan-2006".to_string()));
    assert_eq!(since_command(86_400), Some("SEARCH SINCE 01-Jan-1970".to_string()));
    assert_eq!(since_command(0), Some("SEARCH SINCE 31-Dec-1969".to_string()));
    assert_eq!(since_command(i64::MIN), None);
    assert_eq!(since_command(i64::MAX), None);
}

#[test]
fn the_search_of_a_run() {
    let keys = vec![SEARCH::UNSEEN];
    assert_eq!(poll_command(&keys, None), "SEARCH UNSEEN");
    assert_eq!(poll_command(&keys, Some(1136239445)), "SEARCH SINCE 01-Jan-2006");
    assert_eq!(poll_command(&keys, Some(i64::MIN)), "SEARCH UNSEEN");
    assert_eq!(search_since("2-Feb-2002"), "SEARCH SINCE 2-Feb-2002");
}

#[test]
fn mails_are_picked_by_their_times() {
    let mails = vec![mail(1, ""), mail(2, ""), mail(3, "")];
    let picked = pick_fresh(&mails, &vec![Some(5), Some(4), Some(6)], 5).unwrap();
    let uids: Vec<u32> = picked.iter().map(|m| m.uid).collect();
    assert_eq!(uids, vec![1, 3]);
    assert_eq!(pick_fresh(&mails, &vec![Some(9), None, None], 0).err(), Some(DateError { uid: 2 }));
    assert_eq!(pick_fresh(&mails, &vec![Some(9), Some(9)], 0).err(), Some(DateError { uid: 3 }));
    assert!(pick_fresh(&mails, &vec![Some(1), Some(2), Some(3), None], 9).unwrap().is_empty());
    let dated = vec![mail(1, "Thu, 1 Jan 1970 00:00:10 +0000"), mail(2, "never")];
    assert_eq!(read_mail_times(&dated), vec![Some(10), None]);
}
