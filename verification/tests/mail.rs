use mail_search::mail_parse::{
    addr_list, addr_to_string, attachment_names, format_date, mail_from_fields, parse_file,
    part_filename, read_fields, to_utf8, MailAddr, MailDate, MessageFields, PartHeader, ParsedMail,
    NOT_A_MAIL,
};
use mail_search::scanner::{index_file, indexed_mail};
use mail_search::viewer::{
    header_text, html_entities, html_to_shown, mail_view, pane, report, MailView, MailViewer, Pane,
    ViewCache, NO_BODY, READ_FAILED, RULE_LINE,
};
use mail_search::db::SearchHit;

fn text(s: &str) -> Option<String> {
    Some(s.to_string())
}

fn addr(name: Option<&str>, address: Option<&str>) -> MailAddr {
    MailAddr { name: name.map(|s| s.to_string()), address: address.map(|s| s.to_string()) }
}

fn header(name: &str, attributes: &[(&str, &str)]) -> PartHeader {
    PartHeader {
        name: name.to_string(),
        attributes: Some(
            attributes.iter().map(|(k, v)| (k.to_string(), v.to_string())).collect(),
        ),
    }
}

fn empty_mail() -> ParsedMail {
    ParsedMail {
        subject: String::new(),
        from: String::new(),
        to: String::new(),
        date: String::new(),
        body_text: String::new(),
        body_html: String::new(),
        attachments: Vec::new(),
    }
}

fn hit(path: &str) -> SearchHit {
    SearchHit {
        id: 1,
        path: path.to_string(),
        file_name: String::new(),
        subject: String::new(),
        from_addr: String::new(),
        to_addr: String::new(),
        date: String::new(),
        attachments: String::new(),
        score: 0,
    }
}

const MIXED: &str = "From: Alice <alice@example.com>\r\n\
To: bob@example.com, Carol <carol@example.com>\r\n\
Subject: Hello\r\n\
Date: Thu, 7 Mar 2024 09:05:01 +0800\r\n\
MIME-Version: 1.0\r\n\
Content-Type: multipart/mixed; boundary=\"b\"\r\n\
\r\n\
--b\r\n\
Content-Type: text/plain; charset=utf-8\r\n\
\r\n\
Body text\r\n\
--b\r\n\
Content-Type: application/pdf; name=\"report.pdf\"\r\n\
Content-Disposition: attachment; filename=\"other.pdf\"\r\n\
\r\n\
xyz\r\n\
--b--\r\n";

#[test]
fn address_with_and_without_a_name() {
    assert_eq!(addr_to_string(&addr(Some("A"), Some("a@x"))), "A <a@x>");
    assert_eq!(addr_to_string(&addr(None, Some("a@x"))), "a@x");
    assert_eq!(addr_to_string(&addr(Some(""), Some("a@x"))), "a@x");
    assert_eq!(addr_to_string(&addr(Some("A"), None)), "A <>");
    assert_eq!(addr_to_string(&addr(None, None)), "");
}

#[test]
fn addresses_are_separated_by_semicolons() {
    let list = vec![addr(Some("A"), Some("a@x")), addr(None, Some("b@x"))];
    assert_eq!(addr_list(&Some(list)), "A <a@x>; b@x");
    assert_eq!(addr_list(&None), "");
    assert_eq!(addr_list(&Some(Vec::new())), "");
}

#[test]
fn file_name_comes_from_the_first_header_that_gives_one() {
    let headers = vec![
        header("X-Name", &[("name", "no")]),
        header("Content-Disposition", &[("filename", "a.txt")]),
        header("Content-Type", &[("name", "b.txt")]),
    ];
    assert_eq!(part_filename(&headers), "a.txt");
    let both = vec![header("CONTENT-TYPE", &[("filename", "a"), ("name", "b")])];
    assert_eq!(part_filename(&both), "b");
    let plain = vec![PartHeader { name: "Content-Type".to_string(), attributes: None }];
    assert_eq!(part_filename(&plain), "");
    assert_eq!(part_filename(&Vec::new()), "");
}

#[test]
fn listed_attachments_have_names() {
    let parts = vec![
        vec![header("content-type", &[("name", "a")])],
        vec![header("content-type", &[])],
        vec![header("content-type", &[("name", "")])],
        vec![header("content-type", &[("name", "b")])],
    ];
    assert_eq!(attachment_names(&parts), vec!["a".to_string(), "b".to_string()]);
}

#[test]
fn dates_are_filled_with_zeros() {
    let d = MailDate { year: 2024, month: 3, day: 7, hour: 9, minute: 5, second: 1 };
    assert_eq!(format_date(&d), "2024-03-07 09:05:01");
    let old = MailDate { year: 7, month: 12, day: 31, hour: 23, minute: 59, second: 60 };
    assert_eq!(format_date(&old), "0007-12-31 23:59:60");
    let far = MailDate { year: 12345, month: 100, day: 0, hour: 0, minute: 0, second: 0 };
    assert_eq!(format_date(&far), "12345-100-00 00:00:00");
}

#[test]
fn date_texts_are_in_order() {
    let mut dates = Vec::new();
    for (year, month, day, hour, minute, second) in [
        (999u16, 12u8, 31u8, 23u8, 59u8, 59u8),
        (2023, 2, 28, 0, 0, 0),
        (2023, 11, 1, 0, 0, 0),
        (2023, 11, 1, 9, 0, 0),
        (2023, 11, 1, 10, 0, 0),
        (2023, 11, 1, 10, 0, 9),
        (2023, 11, 1, 10, 1, 0),
    ] {
        dates.push(format_date(&MailDate { year, month, day, hour, minute, second }));
    }
    for pair in dates.windows(2) {
        assert!(pair[0] < pair[1]);
    }
}

#[test]
fn fields_become_texts() {
    let f = MessageFields {
        subject: text("S"),
        from: Some(vec![addr(None, Some("a@x"))]),
        to: None,
        date: None,
        attachments: Vec::new(),
        body_text: None,
        body_html: text("<p>"),
    };
    let m = mail_from_fields(&f);
    assert_eq!(m.subject, "S");
    assert_eq!(m.from, "a@x");
    assert_eq!(m.to, "");
    assert_eq!(m.date, "");
    assert_eq!(m.body_text, "");
    assert_eq!(m.body_html, "<p>");
    assert!(m.attachments.is_empty());
}

#[test]
fn utf8_is_kept_and_other_bytes_are_taken_as_gbk() {
    let utf8 = "主题".as_bytes().to_vec();
    assert_eq!(to_utf8(utf8.clone()), utf8);
    let gbk = vec![0xD6u8, 0xF7, 0xCC, 0xE2];
    assert_eq!(to_utf8(gbk), "主题".as_bytes().to_vec());
    assert_eq!(to_utf8(Vec::new()), Vec::<u8>::new());
}

#[test]
fn decoded_bytes_are_always_utf8() {
    for raw in [vec![0xFFu8], vec![0x80, 0x80, 0x41], vec![0xC4, 0xE3, 0xFF]] {
        assert!(std::str::from_utf8(&raw).is_err());
        assert!(std::str::from_utf8(&to_utf8(raw)).is_ok());
    }
}

#[test]
fn mail_with_attachment_is_read() {
    let m = match parse_file(Ok(MIXED.as_bytes().to_vec())) {
        Ok(m) => m,
        Err(e) => panic!("{}", e),
    };
    assert_eq!(m.subject, "Hello");
    assert_eq!(m.from, "Alice <alice@example.com>");
    assert_eq!(m.to, "bob@example.com; Carol <carol@example.com>");
    assert_eq!(m.date, "2024-03-07 09:05:01");
    assert_eq!(m.body_text, "Body text");
    assert_eq!(m.attachments, vec!["report.pdf".to_string()]);
}

#[test]
fn fields_of_a_mail_are_read() {
    let f = match read_fields(MIXED.as_bytes()) {
        Some(f) => f,
        None => panic!("no mail"),
    };
    assert_eq!(f.subject, text("Hello"));
    assert_eq!(
        f.date,
        Some(MailDate { year: 2024, month: 3, day: 7, hour: 9, minute: 5, second: 1 })
    );
    let from = f.from.unwrap();
    assert_eq!(from.len(), 1);
    assert_eq!(from[0].name, text("Alice"));
    assert_eq!(from[0].address, text("alice@example.com"));
    let to = f.to.unwrap();
    assert_eq!(to.len(), 2);
    assert_eq!(to[0].name, None);
    assert_eq!(to[1].address, text("carol@example.com"));
    assert_eq!(f.attachments.len(), 1);
    assert_eq!(f.body_text, text("Body text"));
    assert!(f.body_html.is_some());
}

#[test]
fn alternatives_within_a_mixed_mail_are_read() {
    let html = "Content-Type: text/html\r\n\r\n<p>h</p>\r\n";
    let plain = "Content-Type: text/plain\r\n\r\nt\r\n";
    let raw = format!(
        "Subject: s\r\nContent-Type: multipart/mixed; boundary=mmm\r\n\r\n\
--mmm\r\nContent-Type: multipart/alternative; boundary=aaa\r\n\r\n\
--aaa\r\n{html}--aaa\r\n{html}--aaa\r\n{html}--aaa\r\n{plain}--aaa--\r\n\
--mmm\r\nContent-Type: multipart/alternative; boundary=bbb\r\n\r\n\
--bbb\r\n{plain}--bbb--\r\n--mmm--\r\n"
    );
    let m = parse_file(Ok(raw.into_bytes())).ok().unwrap();
    assert_eq!(m.subject, "s");
    assert_eq!(m.body_text, "t");
    assert_eq!(m.body_html, "<p>h</p>");
}

#[test]
fn declared_charset_is_decoded() {
    let raw = "Subject: =?gb2312?B?1vfM4g==?=\r\nContent-Type: text/plain; charset=gb2312\r\n\
Content-Transfer-Encoding: base64\r\n\r\nxOO6ww==\r\n";
    let m = parse_file(Ok(raw.as_bytes().to_vec())).ok().unwrap();
    assert_eq!(m.subject, "主题");
    assert_eq!(m.body_text, "你好");
}

#[test]
fn addresses_of_a_group_are_read() {
    let raw = "To: Team: A <a@x.org>, b@x.org;\r\nSubject: s\r\n\r\nbody\r\n";
    let m = parse_file(Ok(raw.as_bytes().to_vec())).ok().unwrap();
    assert_eq!(m.to, "A <a@x.org>; b@x.org");
}

#[test]
fn gbk_mail_is_read() {
    let mut raw = b"Subject: ".to_vec();
    raw.extend_from_slice(&[0xD6, 0xF7, 0xCC, 0xE2]);
    raw.extend_from_slice(b"\r\n\r\n");
    raw.extend_from_slice(&[0xC4, 0xE3, 0xBA, 0xC3]);
    let m = parse_file(Ok(raw)).ok().unwrap();
    assert_eq!(m.subject, "主题");
    assert_eq!(m.body_text.trim(), "你好");
}

#[test]
fn nothing_is_no_mail() {
    assert_eq!(parse_file(Ok(Vec::new())).err(), Some(NOT_A_MAIL.to_string()));
    assert_eq!(NOT_A_MAIL, "无法解析为邮件");
    assert!(read_fields(b"").is_none());
}

#[test]
fn unreadable_file_is_reported_with_its_reason() {
    assert_eq!(parse_file(Err("denied".to_string())).err(), text("denied"));
    let r = index_file("/m/a.eml", "a.eml", 1, 2, Err("denied".to_string()));
    assert_eq!(r.err(), text("denied"));
}

#[test]
fn indexed_mail_holds_the_texts() {
    let r = index_file("/m/a.eml", "a.eml", 7, 42, Ok(MIXED.as_bytes().to_vec()));
    let m = r.ok().unwrap();
    assert_eq!(m.path, "/m/a.eml");
    assert_eq!(m.file_name, "a.eml");
    assert_eq!(m.size, 7);
    assert_eq!(m.mtime, 42);
    assert!(m.indexed_at > 1_600_000_000);
    assert_eq!(m.subject, "Hello");
    assert_eq!(m.from_addr, "Alice <alice@example.com>");
    assert_eq!(m.to_addr, "bob@example.com; Carol <carol@example.com>");
    assert_eq!(m.date, "2024-03-07 09:05:01");
    assert_eq!(m.body_text, "Body text");
    assert_eq!(m.attachments, "report.pdf");
    assert_eq!(
        index_file("p", "f", 0, 0, Ok(Vec::new())).err(),
        Some(NOT_A_MAIL.to_string())
    );
}

#[test]
fn stored_body_is_a_beginning() {
    let mut mail = empty_mail();
    mail.body_text = "é".repeat(500_001);
    mail.attachments = vec!["a".to_string(), "b".to_string()];
    let m = indexed_mail("p", "f", 1, 2, mail, 3);
    assert_eq!(m.body_text.chars().count(), 500_000);
    assert_eq!(m.attachments, "a, b");
    assert_eq!(m.indexed_at, 3);
    let mut short = empty_mail();
    short.body_text = "é".repeat(500_000);
    assert_eq!(indexed_mail("p", "f", 1, 2, short, 3).body_text.chars().count(), 500_000);
}

#[test]
fn entities_are_replaced() {
    assert_eq!(html_entities("a&nbsp;b &lt;c&gt; &quot;d&quot; &#39;e&#39; &amp;"), "a b <c> \"d\" 'e' &");
    assert_eq!(html_entities("&amp;lt;"), "<");
    assert_eq!(html_entities("&lt;&amp;"), "<&");
    assert_eq!(html_entities("&amp"), "&amp");
    assert_eq!(html_entities(""), "");
}

#[test]
fn text_without_ampersand_is_kept() {
    assert_eq!(html_entities("plain 文本 <b>"), "plain 文本 <b>");
}

#[test]
fn tags_are_blanked_out() {
    assert_eq!(html_to_shown("<p>x</p>"), " x ");
    assert_eq!(html_to_shown("a<br>b &lt;c&gt;"), "a b <c>");
    assert_eq!(html_to_shown("a<SCRIPT type=x>if (1 < 2)\n{}</script>b"), "a b");
    assert_eq!(html_to_shown("a<style>p > q {}</STYLE>b<script></script>"), "a b ");
    assert_eq!(html_to_shown("<script>a</style>b</script>c"), " c");
    assert_eq!(html_to_shown("1 < 2"), "1 < 2");
    assert_eq!(html_to_shown(""), "");
}

#[test]
fn header_of_a_mail() {
    let mut mail = empty_mail();
    assert_eq!(
        header_text(&mail),
        format!("主题: (无主题)\n发件人: \n收件人: \n日期: \n附件: (无)\n{}", "-".repeat(60))
    );
    mail.subject = "S".to_string();
    mail.from = "F".to_string();
    mail.to = "T".to_string();
    mail.date = "D".to_string();
    mail.attachments = vec!["a".to_string(), "b".to_string()];
    assert_eq!(
        header_text(&mail),
        format!("主题: S\n发件人: F\n收件人: T\n日期: D\n附件: a, b\n{}", RULE_LINE)
    );
    assert_eq!(RULE_LINE.len(), 60);
}

#[test]
fn view_of_a_mail() {
    let mut mail = empty_mail();
    mail.subject = "S".to_string();
    mail.body_text = "B".to_string();
    mail.body_html = "<p>".to_string();
    let v = mail_view(Ok(mail));
    assert_eq!(v.subject, "S");
    assert_eq!(v.body, "B");
    assert!(v.header.starts_with("主题: S\n"));
    let v = mail_view(Ok(empty_mail()));
    assert_eq!(v.subject, "");
    assert_eq!(v.body, NO_BODY);
    let v = mail_view(Err("reason".to_string()));
    assert_eq!(v.subject, READ_FAILED);
    assert_eq!(v.header, "");
    assert_eq!(v.body, "reason");
}

#[test]
fn view_of_a_mail_with_nothing_but_html() {
    let mut mail = empty_mail();
    mail.body_html = "<p>x</p>".to_string();
    mail.subject = "S".to_string();
    let v = mail_view(Ok(mail));
    assert_eq!(v.subject, "S");
    assert_eq!(v.body, " x ");
}

#[test]
fn cache_gives_back_what_was_put_in() {
    let mut cache = ViewCache::new();
    assert!(!cache.contains("a"));
    assert!(cache.get("a").is_none());
    let view = |s: &str| MailView {
        subject: s.to_string(),
        header: String::new(),
        body: String::new(),
    };
    cache.insert("a".to_string(), view("1"));
    cache.insert("b".to_string(), view("2"));
    cache.insert("a".to_string(), view("3"));
    assert!(cache.contains("a"));
    assert_eq!(cache.get("a").unwrap().subject, "3");
    assert_eq!(cache.get("b").unwrap().subject, "2");
}

#[test]
fn viewer_waits_for_the_mail_it_turned_to() {
    let mut v = MailViewer::new();
    let mut cache = ViewCache::new();
    cache.insert(
        "b".to_string(),
        MailView { subject: String::new(), header: String::new(), body: String::new() },
    );
    assert!(!v.open && !v.loading && !v.waiting);
    assert!(v.load("a", &cache));
    assert!(v.open && v.loading && v.waiting);
    v.notice(None);
    assert!(v.loading && v.waiting);
    v.notice(text("b"));
    assert!(v.loading && v.waiting);
    v.notice(text("a"));
    assert!(!v.loading && !v.waiting);
    assert!(!v.load("b", &cache));
    assert_eq!(v.path, "b");
    assert!(v.open && !v.loading && !v.waiting);
    v.loading = true;
    v.notice(text("b"));
    assert!(v.loading);
}

#[test]
fn pane_follows_selection_and_viewer() {
    let hits = vec![hit("a"), hit("b")];
    let mut viewer = MailViewer::new();
    let mut cache = ViewCache::new();
    assert_eq!(pane(None, &hits, &viewer, &cache), Pane::NoSelection);
    assert_eq!(pane(Some(2), &hits, &viewer, &cache), Pane::NoSelection);
    assert_eq!(pane(Some(0), &hits, &viewer, &cache), Pane::Unread);
    viewer.load("a", &cache);
    assert_eq!(pane(Some(0), &hits, &viewer, &cache), Pane::Reading);
    assert_eq!(pane(Some(1), &hits, &viewer, &cache), Pane::Unread);
    cache.insert(
        "a".to_string(),
        MailView { subject: String::new(), header: String::new(), body: String::new() },
    );
    assert_eq!(pane(Some(0), &hits, &viewer, &cache), Pane::Reading);
    viewer.notice(text("a"));
    assert_eq!(pane(Some(0), &hits, &viewer, &cache), Pane::Mail);
}

#[test]
fn report_on_a_mail() {
    let mut mail = empty_mail();
    mail.subject = "S".to_string();
    mail.body_text = "文".repeat(300);
    let lines = report(&mail);
    assert_eq!(lines.len(), 6);
    assert_eq!(lines[0], "主题: S");
    assert_eq!(lines[1], "发件人: ");
    assert_eq!(lines[2], "收件人: ");
    assert_eq!(lines[3], "日期: ");
    assert_eq!(lines[4], "附件: (无)");
    assert_eq!(lines[5], format!("正文前200字: {}", "文".repeat(200)));
}
