//! Reading a mail: from the bytes of a file to the texts that are indexed and
//! shown.
use vstd::prelude::*;
use vstd::utf8::{encode_utf8, encode_utf8_valid_utf8, valid_utf8};

use crate::numerals::{law_padded_order, lemma_padded, pad_number, padded, ten_to};
use crate::order::{
    law_text_rank_same, lemma_text_rank_concat, number_rank, text_rank, Rank,
};
use crate::text::{
    join, joined, law_joined_from_the_front, law_non_empty_in_order, law_non_empty_parts,
    lemma_non_empty_push, lemma_views_push, lowercase, non_empty, opt_view, same_text,
    text_or_empty, views,
};

verus! {

/// The texts of a mail.
pub struct ParsedMail {
    pub subject: String,
    pub from: String,
    pub to: String,
    pub date: String,
    pub body_text: String,
    pub body_html: String,
    pub attachments: Vec<String>,
}

/// What a `ParsedMail` holds.
pub struct MailTexts {
    pub subject: Seq<char>,
    pub from: Seq<char>,
    pub to: Seq<char>,
    pub date: Seq<char>,
    pub body_text: Seq<char>,
    pub body_html: Seq<char>,
    pub attachments: Seq<Seq<char>>,
}

impl View for ParsedMail {
    type V = MailTexts;

    open spec fn view(&self) -> MailTexts {
        MailTexts {
            subject: self.subject@,
            from: self.from@,
            to: self.to@,
            date: self.date@,
            body_text: self.body_text@,
            body_html: self.body_html@,
            attachments: views(self.attachments@),
        }
    }
}

/// An address of a mail: a name to show and the address itself.
pub struct MailAddr {
    pub name: Option<String>,
    pub address: Option<String>,
}

/// What a `MailAddr` holds.
pub struct AddrTexts {
    pub name: Option<Seq<char>>,
    pub address: Option<Seq<char>>,
}

impl View for MailAddr {
    type V = AddrTexts;

    open spec fn view(&self) -> AddrTexts {
        AddrTexts { name: opt_view(self.name), address: opt_view(self.address) }
    }
}

/// What a list of addresses holds.
pub open spec fn addrs_view(list: Seq<MailAddr>) -> Seq<AddrTexts> {
    Seq::new(list.len(), |i: int| list[i]@)
}

/// What a list of addresses holds that may be absent.
pub open spec fn opt_addrs_view(list: Option<Vec<MailAddr>>) -> Option<Seq<AddrTexts>> {
    match list {
        Some(l) => Some(addrs_view(l@)),
        None => None,
    }
}

/// The date and time of a mail, as its sender wrote them.
#[derive(Clone, Copy, Debug, PartialEq, Eq, Structural)]
pub struct MailDate {
    pub year: u16,
    pub month: u8,
    pub day: u8,
    pub hour: u8,
    pub minute: u8,
    pub second: u8,
}

/// A header of a part of a mail: its name and, where it is one that carries
/// attributes, those.
pub struct PartHeader {
    pub name: String,
    pub attributes: Option<Vec<(String, String)>>,
}

/// What a `PartHeader` holds.
pub struct HeaderTexts {
    pub name: Seq<char>,
    pub attributes: Option<Seq<(Seq<char>, Seq<char>)>>,
}

/// What a list of attributes holds.
pub open spec fn attributes_view(list: Seq<(String, String)>) -> Seq<(Seq<char>, Seq<char>)> {
    Seq::new(list.len(), |i: int| (list[i].0@, list[i].1@))
}

impl View for PartHeader {
    type V = HeaderTexts;

    open spec fn view(&self) -> HeaderTexts {
        HeaderTexts {
            name: self.name@,
            attributes: match self.attributes {
                Some(list) => Some(attributes_view(list@)),
                None => None,
            },
        }
    }
}

/// What the headers of a part hold.
pub open spec fn headers_view(headers: Seq<PartHeader>) -> Seq<HeaderTexts> {
    Seq::new(headers.len(), |i: int| headers[i]@)
}

/// What the headers of several parts hold.
pub open spec fn parts_view(parts: Seq<Vec<PartHeader>>) -> Seq<Seq<HeaderTexts>> {
    Seq::new(parts.len(), |i: int| headers_view(parts[i]@))
}

/// What is read from a mail before it is put into words: its header fields, its
/// first bodies, and the headers of each attached part.
pub struct MessageFields {
    pub subject: Option<String>,
    pub from: Option<Vec<MailAddr>>,
    pub to: Option<Vec<MailAddr>>,
    pub date: Option<MailDate>,
    pub attachments: Vec<Vec<PartHeader>>,
    pub body_text: Option<String>,
    pub body_html: Option<String>,
}

/// What a `MessageFields` holds.
pub struct FieldTexts {
    pub subject: Option<Seq<char>>,
    pub from: Option<Seq<AddrTexts>>,
    pub to: Option<Seq<AddrTexts>>,
    pub date: Option<MailDate>,
    pub attachments: Seq<Seq<HeaderTexts>>,
    pub body_text: Option<Seq<char>>,
    pub body_html: Option<Seq<char>>,
}

impl View for MessageFields {
    type V = FieldTexts;

    open spec fn view(&self) -> FieldTexts {
        FieldTexts {
            subject: opt_view(self.subject),
            from: opt_addrs_view(self.from),
            to: opt_addrs_view(self.to),
            date: self.date,
            attachments: parts_view(self.attachments@),
            body_text: opt_view(self.body_text),
            body_html: opt_view(self.body_html),
        }
    }
}

/// An address in words: the name with the address behind it, or the address
/// alone where there is no name.
pub open spec fn addr_text(a: AddrTexts) -> Seq<char> {
    let name = text_or_empty(a.name);
    let address = text_or_empty(a.address);
    if name.len() == 0 {
        address
    } else {
        name + " <"@ + address + ">"@
    }
}

/// The addresses in words, each on its own.
pub open spec fn addr_texts(list: Seq<AddrTexts>) -> Seq<Seq<char>> {
    Seq::new(list.len(), |i: int| addr_text(list[i]))
}

/// A list of addresses in words.
pub open spec fn addr_list_text(list: Option<Seq<AddrTexts>>) -> Seq<char> {
    match list {
        Some(l) => joined(addr_texts(l), "; "@),
        None => Seq::empty(),
    }
}

/// A copy of the text, or an empty one where there is none.
fn or_empty(s: &Option<String>) -> (r: String)
    ensures
        r@ == text_or_empty(opt_view(*s)),
{
    match s {
        Some(t) => t.clone(),
        None => String::new(),
    }
}

/// Puts an address into words.
pub fn addr_to_string(a: &MailAddr) -> (r: String)
    ensures
        r@ == addr_text(a@),
{
    let name = or_empty(&a.name);
    let address = or_empty(&a.address);
    if name.as_str().is_empty() {
        address
    } else {
        let mut out = name;
        out.append(" <");
        out.append(address.as_str());
        out.append(">");
        out
    }
}

/// Puts a list of addresses into words.
pub fn addr_list(list: &Option<Vec<MailAddr>>) -> (r: String)
    ensures
        r@ == addr_list_text(opt_addrs_view(*list)),
{
    match list {
        None => String::new(),
        Some(l) => {
            let ghost all = addr_texts(addrs_view(l@));
            let mut texts: Vec<String> = Vec::new();
            let mut i: usize = 0;
            assert(views(texts@) =~= all.take(0));
            while i < l.len()
                invariant
                    i <= l@.len(),
                    all == addr_texts(addrs_view(l@)),
                    views(texts@) == all.take(i as int),
                decreases l@.len() - i,
            {
                let t = addr_to_string(&l[i]);
                proof {
                    lemma_views_push(texts@, t);
                    assert(all.take(i + 1) =~= all.take(i as int).push(t@));
                }
                texts.push(t);
                i += 1;
            }
            assert(all.take(i as int) =~= all);
            join(&texts, "; ")
        },
    }
}

/// Whether the header is one that can name the file of a part.
pub open spec fn names_file(header: HeaderTexts) -> bool {
    let name = lowercase(header.name);
    name == "content-disposition"@ || name == "content-type"@
}

/// The value of the first attribute with the name `key`.
pub open spec fn attribute_value(
    attributes: Seq<(Seq<char>, Seq<char>)>,
    key: Seq<char>,
) -> Option<Seq<char>>
    decreases attributes.len(),
{
    if attributes.len() == 0 {
        None
    } else if attributes[0].0 == key {
        Some(attributes[0].1)
    } else {
        attribute_value(attributes.drop_first(), key)
    }
}

/// The file name that a header gives: its attribute `name`, or else its
/// attribute `filename`.
pub open spec fn header_file_name(header: HeaderTexts) -> Option<Seq<char>> {
    if !names_file(header) {
        None
    } else {
        match header.attributes {
            None => None,
            Some(list) => match attribute_value(list, "name"@) {
                Some(v) => Some(v),
                None => attribute_value(list, "filename"@),
            },
        }
    }
}

/// The file name of a part: that of the first header which gives one, or
/// nothing.
pub open spec fn file_name_of(headers: Seq<HeaderTexts>) -> Seq<char>
    decreases headers.len(),
{
    if headers.len() == 0 {
        Seq::empty()
    } else {
        match header_file_name(headers[0]) {
            Some(name) => name,
            None => file_name_of(headers.drop_first()),
        }
    }
}

/// The value of the first attribute with the name `key`.
fn find_attribute(list: &Vec<(String, String)>, key: &str) -> (r: Option<String>)
    ensures
        opt_view(r) == attribute_value(attributes_view(list@), key@),
{
    let ghost all = attributes_view(list@);
    let mut i: usize = 0;
    assert(all.skip(0) =~= all);
    while i < list.len()
        invariant
            i <= list@.len(),
            all == attributes_view(list@),
            attribute_value(all, key@) == attribute_value(all.skip(i as int), key@),
        decreases list@.len() - i,
    {
        assert(all.skip(i as int)[0] == (list@[i as int].0@, list@[i as int].1@));
        if same_text(list[i].0.as_str(), key) {
            return Some(list[i].1.clone());
        }
        assert(all.skip(i as int).drop_first() =~= all.skip(i + 1));
        i += 1;
    }
    None
}

/// Reads the file name of a part from its headers.
pub fn part_filename(headers: &Vec<PartHeader>) -> (r: String)
    ensures
        r@ == file_name_of(headers_view(headers@)),
{
    let ghost all = headers_view(headers@);
    let mut i: usize = 0;
    assert(all.skip(0) =~= all);
    while i < headers.len()
        invariant
            i <= headers@.len(),
            all == headers_view(headers@),
            file_name_of(all) == file_name_of(all.skip(i as int)),
        decreases headers@.len() - i,
    {
        let h = &headers[i];
        let ghost rest = all.skip(i as int);
        assert(rest[0] == h@);
        assert(rest.drop_first() =~= all.skip(i + 1));
        let name = h.name.as_str().to_lowercase();
        if same_text(name.as_str(), "content-disposition") || same_text(
            name.as_str(),
            "content-type",
        ) {
            if let Some(list) = &h.attributes {
                if let Some(v) = find_attribute(list, "name") {
                    return v;
                }
                if let Some(v) = find_attribute(list, "filename") {
                    return v;
                }
            }
        }
        i += 1;
    }
    String::new()
}

/// The file names of the parts, where they have one.
pub open spec fn attachment_names_of(parts: Seq<Seq<HeaderTexts>>) -> Seq<Seq<char>> {
    non_empty(Seq::new(parts.len(), |i: int| file_name_of(parts[i])))
}

/// Reads the file names of the parts, where they have one.
pub fn attachment_names(parts: &Vec<Vec<PartHeader>>) -> (r: Vec<String>)
    ensures
        views(r@) == attachment_names_of(parts_view(parts@)),
{
    let ghost given = parts_view(parts@);
    let ghost all = Seq::new(given.len(), |i: int| file_name_of(given[i]));
    let mut out: Vec<String> = Vec::new();
    let mut i: usize = 0;
    proof {
        reveal(Seq::filter);
        assert(all.take(0) =~= Seq::<Seq<char>>::empty());
        assert(views(out@) =~= non_empty(all.take(0)));
    }
    while i < parts.len()
        invariant
            i <= parts@.len(),
            given == parts_view(parts@),
            all == Seq::new(given.len(), |i: int| file_name_of(given[i])),
            views(out@) == non_empty(all.take(i as int)),
        decreases parts@.len() - i,
    {
        let name = part_filename(&parts[i]);
        proof {
            assert(all.take(i + 1) =~= all.take(i as int).push(name@));
            lemma_non_empty_push(all.take(i as int), name@);
            lemma_views_push(out@, name);
        }
        if !name.as_str().is_empty() {
            out.push(name);
        }
        i += 1;
    }
    assert(all.take(i as int) =~= all);
    out
}

/// A date in words: year, month and day, then hour, minute and second, each
/// filled with zeros.
pub open spec fn date_text(d: MailDate) -> Seq<char> {
    padded(d.year as nat, 4) + "-"@ + padded(d.month as nat, 2) + "-"@ + padded(d.day as nat, 2)
        + " "@ + padded(d.hour as nat, 2) + ":"@ + padded(d.minute as nat, 2) + ":"@ + padded(
        d.second as nat,
        2,
    )
}

/// Puts a date into words.
pub fn format_date(d: &MailDate) -> (r: String)
    ensures
        r@ == date_text(*d),
{
    let mut out = pad_number(d.year as u128, 4);
    out.append("-");
    let t = pad_number(d.month as u128, 2);
    out.append(t.as_str());
    out.append("-");
    let t = pad_number(d.day as u128, 2);
    out.append(t.as_str());
    out.append(" ");
    let t = pad_number(d.hour as u128, 2);
    out.append(t.as_str());
    out.append(":");
    let t = pad_number(d.minute as u128, 2);
    out.append(t.as_str());
    out.append(":");
    let t = pad_number(d.second as u128, 2);
    out.append(t.as_str());
    out
}

/// The texts of a mail with the given fields.
pub open spec fn texts_of(f: FieldTexts) -> MailTexts {
    MailTexts {
        subject: text_or_empty(f.subject),
        from: addr_list_text(f.from),
        to: addr_list_text(f.to),
        date: match f.date {
            Some(d) => date_text(d),
            None => Seq::empty(),
        },
        body_text: text_or_empty(f.body_text),
        body_html: text_or_empty(f.body_html),
        attachments: attachment_names_of(f.attachments),
    }
}

/// Puts the fields of a mail into words.
pub fn mail_from_fields(f: &MessageFields) -> (r: ParsedMail)
    ensures
        r@ == texts_of(f@),
{
    let date = match &f.date {
        Some(d) => format_date(d),
        None => String::new(),
    };
    assert(match f.date {
        Some(d) => date@ == date_text(d),
        None => date@ =~= Seq::<char>::empty(),
    });
    ParsedMail {
        subject: or_empty(&f.subject),
        from: addr_list(&f.from),
        to: addr_list(&f.to),
        date,
        body_text: or_empty(&f.body_text),
        body_html: or_empty(&f.body_html),
        attachments: attachment_names(&f.attachments),
    }
}

/// How two dates rank: year first, second last.
pub open spec fn date_rank(a: MailDate, b: MailDate) -> Rank {
    number_rank(a.year as int, b.year as int).refined_by(
        number_rank(a.month as int, b.month as int),
    ).refined_by(number_rank(a.day as int, b.day as int)).refined_by(
        number_rank(a.hour as int, b.hour as int),
    ).refined_by(number_rank(a.minute as int, b.minute as int)).refined_by(
        number_rank(a.second as int, b.second as int),
    )
}

/// Whether every number of the date fits the width it is written with.
pub open spec fn date_fits(d: MailDate) -> bool {
    &&& d.year < 10000
    &&& d.month < 100
    &&& d.day < 100
    &&& d.hour < 100
    &&& d.minute < 100
    &&& d.second < 100
}

/// The same text behind two texts of one length does not change their rank.
proof fn lemma_rank_same_end(a: Seq<char>, b: Seq<char>, end: Seq<char>)
    requires
        a.len() == b.len(),
    ensures
        text_rank(a + end, b + end) == text_rank(a, b),
        (a + end).len() == (b + end).len(),
{
    lemma_text_rank_concat(a, end, b, end);
    law_text_rank_same(end, end);
}

/// Two-digit numbers behind two texts of one length decide where those are
/// level.
proof fn lemma_rank_number_end(a: Seq<char>, b: Seq<char>, m: nat, n: nat)
    requires
        a.len() == b.len(),
        m < 100,
        n < 100,
    ensures
        text_rank(a + padded(m, 2), b + padded(n, 2)) == text_rank(a, b).refined_by(
            number_rank(m as int, n as int),
        ),
        (a + padded(m, 2)).len() == (b + padded(n, 2)).len(),
{
    reveal_with_fuel(ten_to, 3);
    lemma_text_rank_concat(a, padded(m, 2), b, padded(n, 2));
    law_padded_order(m, n, 2);
    lemma_padded(m, 2);
    lemma_padded(n, 2);
}

/// Law: dates in words are ordered as the dates, so that mails sorted by the
/// text of their date are sorted by time. It holds of dates whose numbers fit
/// the width they are written with.
pub proof fn law_date_texts_in_order(a: MailDate, b: MailDate)
    requires
        date_fits(a),
        date_fits(b),
    ensures
        text_rank(date_text(a), date_text(b)) == date_rank(a, b),
{
    reveal_with_fuel(ten_to, 5);
    let x = padded(a.year as nat, 4);
    let y = padded(b.year as nat, 4);
    law_padded_order(a.year as nat, b.year as nat, 4);
    lemma_padded(a.year as nat, 4);
    lemma_padded(b.year as nat, 4);
    lemma_rank_same_end(x, y, "-"@);
    let x = x + "-"@;
    let y = y + "-"@;
    lemma_rank_number_end(x, y, a.month as nat, b.month as nat);
    let x = x + padded(a.month as nat, 2);
    let y = y + padded(b.month as nat, 2);
    lemma_rank_same_end(x, y, "-"@);
    let x = x + "-"@;
    let y = y + "-"@;
    lemma_rank_number_end(x, y, a.day as nat, b.day as nat);
    let x = x + padded(a.day as nat, 2);
    let y = y + padded(b.day as nat, 2);
    lemma_rank_same_end(x, y, " "@);
    let x = x + " "@;
    let y = y + " "@;
    lemma_rank_number_end(x, y, a.hour as nat, b.hour as nat);
    let x = x + padded(a.hour as nat, 2);
    let y = y + padded(b.hour as nat, 2);
    lemma_rank_same_end(x, y, ":"@);
    let x = x + ":"@;
    let y = y + ":"@;
    lemma_rank_number_end(x, y, a.minute as nat, b.minute as nat);
    let x = x + padded(a.minute as nat, 2);
    let y = y + padded(b.minute as nat, 2);
    lemma_rank_same_end(x, y, ":"@);
    let x = x + ":"@;
    let y = y + ":"@;
    lemma_rank_number_end(x, y, a.second as nat, b.second as nat);
}

/// The most bytes of a mail that are parsed. A text read from them can be five
/// times as long, where plain text is made HTML, and the buffer that it grows in
/// twice that, which must fit the address space.
pub open spec fn max_mail_bytes() -> int {
    isize::MAX / 12
}

/// The type `mail_parser::Message`: a parsed mail, carried but never looked
/// into.
#[verifier::external_type_specification]
#[verifier::external_body]
pub struct ExMessage<'x>(mail_parser::Message<'x>);

/// What `mail_parser::MessageParser::parse`, with the default settings, makes
/// of the bytes of a mail.
pub uninterp spec fn message_parse(bytes: Seq<u8>) -> Option<mail_parser::Message<'static>>;

/// What `mail_parser::Message::subject` gives for the mail parsed from `bytes`.
pub uninterp spec fn message_subject(bytes: Seq<u8>) -> Option<Seq<char>>;

/// What `mail_parser::Message::from` gives for the mail parsed from `bytes`:
/// its addresses, those of groups included, in their order.
pub uninterp spec fn message_from(bytes: Seq<u8>) -> Option<Seq<AddrTexts>>;

/// What `mail_parser::Message::to` gives for the mail parsed from `bytes`: its
/// addresses, those of groups included, in their order.
pub uninterp spec fn message_to(bytes: Seq<u8>) -> Option<Seq<AddrTexts>>;

/// What `mail_parser::Message::date` gives for the mail parsed from `bytes`.
pub uninterp spec fn message_date(bytes: Seq<u8>) -> Option<MailDate>;

/// What `mail_parser::Message::attachments` gives for the mail parsed from
/// `bytes`: the headers of each part, with their attributes.
pub uninterp spec fn message_attachments(bytes: Seq<u8>) -> Seq<Seq<HeaderTexts>>;

/// What `mail_parser::Message::body_text` gives at a position for the mail
/// parsed from `bytes`.
pub uninterp spec fn message_body_text(bytes: Seq<u8>, pos: usize) -> Option<Seq<char>>;

/// What `mail_parser::Message::body_html` gives at a position for the mail
/// parsed from `bytes`.
pub uninterp spec fn message_body_html(bytes: Seq<u8>, pos: usize) -> Option<Seq<char>>;

/// What `decode` of `encoding_rs::GBK` makes of bytes. A byte order mark at the
/// beginning takes precedence over the encoding; malformed sequences become the
/// replacement character.
pub uninterp spec fn gbk_decode(bytes: Seq<u8>) -> Seq<char>;

/// `mail_parser::MessageParser::parse` with the default settings: the result
/// depends on the bytes alone. There is none where no headers are found, as in no
/// bytes at all. Text in a declared charset is decoded into a buffer four times
/// its size, which must fit.
///
/// What is said holds of an optimised build, which has neither debug assertions
/// nor overflow checks. With the former the crate stops at some mails in which a
/// nested message is itself nothing but a nested message. With the latter it
/// stops, for instance, at a quoted-printable part that holds just `=` and a line
/// end, and at a `Received` field whose date has the smallest `i64` for its zone.
#[verifier::external_body]
fn parse_bytes<'x>(raw: &'x [u8]) -> (r: Option<mail_parser::Message<'x>>)
    requires
        raw@.len() <= max_mail_bytes(),
    ensures
        r == message_parse(raw@),
        raw@.len() == 0 ==> r is None,
{
    mail_parser::MessageParser::default().parse(raw)
}

/// `mail_parser::Message::subject`: for a parsed mail the result depends on the
/// bytes it was parsed from. A mail that was parsed has a root part, which the
/// call needs.
#[verifier::external_body]
fn read_subject(m: &mail_parser::Message) -> (r: Option<String>)
    requires
        exists|bytes: Seq<u8>| #[trigger] message_parse(bytes) == Some(*m),
    ensures
        (forall|bytes: Seq<u8>| #[trigger]
            message_parse(bytes) == Some(*m) ==> opt_view(r) == message_subject(bytes)),
{
    m.subject().map(|s| s.to_string())
}

/// `mail_parser::Message::from`, with `mail_parser::Address::iter` over the
/// addresses: for a parsed mail the result depends on the bytes it was parsed
/// from. A mail that was parsed has a root part, which the call needs.
#[verifier::external_body]
fn read_from<'x>(m: &'x mail_parser::Message<'x>) -> (r: Option<Vec<MailAddr>>)
    requires
        exists|bytes: Seq<u8>| #[trigger] message_parse(bytes) == Some(*m),
    ensures
        (forall|bytes: Seq<u8>| #[trigger]
            message_parse(bytes) == Some(*m) ==> opt_addrs_view(r) == message_from(bytes)),
{
    m.from().map(|list| {
        list.iter().map(|a| MailAddr {
            name: a.name().map(|s| s.to_string()),
            address: a.address().map(|s| s.to_string()),
        }).collect()
    })
}

/// `mail_parser::Message::to`, with `mail_parser::Address::iter` over the
/// addresses: for a parsed mail the result depends on the bytes it was parsed
/// from. A mail that was parsed has a root part, which the call needs.
#[verifier::external_body]
fn read_to<'x>(m: &'x mail_parser::Message<'x>) -> (r: Option<Vec<MailAddr>>)
    requires
        exists|bytes: Seq<u8>| #[trigger] message_parse(bytes) == Some(*m),
    ensures
        (forall|bytes: Seq<u8>| #[trigger]
            message_parse(bytes) == Some(*m) ==> opt_addrs_view(r) == message_to(bytes)),
{
    m.to().map(|list| {
        list.iter().map(|a| MailAddr {
            name: a.name().map(|s| s.to_string()),
            address: a.address().map(|s| s.to_string()),
        }).collect()
    })
}

/// `mail_parser::Message::date`: for a parsed mail the result depends on the
/// bytes it was parsed from. A mail that was parsed has a root part, which the
/// call needs.
#[verifier::external_body]
fn read_date(m: &mail_parser::Message) -> (r: Option<MailDate>)
    requires
        exists|bytes: Seq<u8>| #[trigger] message_parse(bytes) == Some(*m),
    ensures
        (forall|bytes: Seq<u8>| #[trigger]
            message_parse(bytes) == Some(*m) ==> r == message_date(bytes)),
{
    m.date().map(|d| MailDate {
        year: d.year,
        month: d.month,
        day: d.day,
        hour: d.hour,
        minute: d.minute,
        second: d.second,
    })
}

/// `mail_parser::Message::attachments`, with the headers of each part: for a
/// parsed mail the result depends on the bytes it was parsed from.
#[verifier::external_body]
fn read_attachments<'x>(m: &'x mail_parser::Message<'x>) -> (r: Vec<Vec<PartHeader>>)
    ensures
        (forall|bytes: Seq<u8>| #[trigger]
            message_parse(bytes) == Some(*m) ==> parts_view(r@) == message_attachments(bytes)),
{
    m.attachments().map(|part| {
        part.headers.iter().map(|h| PartHeader {
            name: h.name().to_string(),
            attributes: h.value.as_content_type().and_then(|c| c.attributes()).map(|list| {
                list.iter().map(|a| (a.name.to_string(), a.value.to_string())).collect()
            }),
        }).collect()
    }).collect()
}

/// `mail_parser::Message::body_text`: for a parsed mail the result depends on
/// the bytes it was parsed from and the position. HTML is made plain text, which
/// must fit.
#[verifier::external_body]
fn read_body_text<'x>(m: &'x mail_parser::Message<'x>, pos: usize) -> (r: Option<String>)
    requires
        exists|bytes: Seq<u8>| #[trigger]
            message_parse(bytes) == Some(*m) && bytes.len() <= max_mail_bytes(),
    ensures
        (forall|bytes: Seq<u8>| #[trigger]
            message_parse(bytes) == Some(*m) ==> opt_view(r) == message_body_text(bytes, pos)),
{
    m.body_text(pos).map(|s| s.into_owned())
}

/// `mail_parser::Message::body_html`: for a parsed mail the result depends on
/// the bytes it was parsed from and the position. Plain text is made HTML, which
/// must fit.
#[verifier::external_body]
fn read_body_html<'x>(m: &'x mail_parser::Message<'x>, pos: usize) -> (r: Option<String>)
    requires
        exists|bytes: Seq<u8>| #[trigger]
            message_parse(bytes) == Some(*m) && bytes.len() <= max_mail_bytes(),
    ensures
        (forall|bytes: Seq<u8>| #[trigger]
            message_parse(bytes) == Some(*m) ==> opt_view(r) == message_body_html(bytes, pos)),
{
    m.body_html(pos).map(|s| s.into_owned())
}

/// `std::str::from_utf8` accepts exactly the bytes that are valid UTF-8.
#[verifier::external_body]
fn is_utf8(raw: &[u8]) -> (r: bool)
    ensures
        r == valid_utf8(raw@),
{
    std::str::from_utf8(raw).is_ok()
}

/// `decode` of `encoding_rs::GBK`: the text depends on the bytes alone. In UTF-8
/// it is no longer than the largest of the bounds that `max_utf8_buffer_length`
/// gives for GBK and for the encodings of a byte order mark. The call panics where a buffer of that size does not
/// fit.
#[verifier::external_body]
fn decode_gbk(raw: &[u8]) -> (r: String)
    requires
        raw@.len() <= isize::MAX / 4 - 8,
    ensures
        r@ == gbk_decode(raw@),
        encode_utf8(r@).len() <= 3 * raw@.len() + 3,
{
    encoding_rs::GBK.decode(raw).0.into_owned()
}

/// The bytes of a mail as UTF-8: as they are where they are valid UTF-8, and
/// decoded as GBK otherwise.
pub open spec fn mail_bytes(raw: Seq<u8>) -> Seq<u8> {
    if valid_utf8(raw) {
        raw
    } else {
        encode_utf8(gbk_decode(raw))
    }
}

/// Whether the bytes can be decoded: they must be few enough for the address
/// space to hold what becomes of them, also where they have to be brought to
/// UTF-8 first.
pub open spec fn can_decode(raw: Seq<u8>) -> bool {
    if valid_utf8(raw) {
        raw.len() <= max_mail_bytes()
    } else {
        3 * raw.len() + 3 <= max_mail_bytes()
    }
}

/// Gives the bytes of a mail as UTF-8.
pub fn to_utf8(raw: Vec<u8>) -> (r: Vec<u8>)
    requires
        can_decode(raw@),
    ensures
        r@ == mail_bytes(raw@),
        r@.len() <= max_mail_bytes(),
{
    if is_utf8(raw.as_slice()) {
        raw
    } else {
        let text = decode_gbk(raw.as_slice());
        text.as_str().as_bytes_vec()
    }
}

/// The fields of the mail parsed from `bytes`.
pub open spec fn message_fields(bytes: Seq<u8>) -> FieldTexts {
    FieldTexts {
        subject: message_subject(bytes),
        from: message_from(bytes),
        to: message_to(bytes),
        date: message_date(bytes),
        attachments: message_attachments(bytes),
        body_text: message_body_text(bytes, 0),
        body_html: message_body_html(bytes, 0),
    }
}

/// Reads the fields of a mail, where the bytes are one.
pub fn read_fields(bytes: &[u8]) -> (r: Option<MessageFields>)
    requires
        bytes@.len() <= max_mail_bytes(),
    ensures
        r is Some <==> message_parse(bytes@) is Some,
        r matches Some(f) ==> f@ == message_fields(bytes@),
        bytes@.len() == 0 ==> r is None,
{
    match parse_bytes(bytes) {
        None => None,
        Some(m) => {
            assert(message_parse(bytes@) == Some(m));
            let f = MessageFields {
                subject: read_subject(&m),
                from: read_from(&m),
                to: read_to(&m),
                date: read_date(&m),
                attachments: read_attachments(&m),
                body_text: read_body_text(&m, 0),
                body_html: read_body_html(&m, 0),
            };
            Some(f)
        },
    }
}

/// What is said of a file that is no mail.
pub const NOT_A_MAIL: &'static str = "无法解析为邮件";

/// What can be read from the bytes of a file: the texts of the mail, where the
/// bytes are one.
pub open spec fn mail_in(raw: Seq<u8>) -> Option<MailTexts> {
    match message_parse(mail_bytes(raw)) {
        Some(_) => Some(texts_of(message_fields(mail_bytes(raw)))),
        None => None,
    }
}

/// Reads the mail in a file, given its bytes or why they could not be had. Bytes
/// that are not valid UTF-8 are taken as GBK.
pub fn parse_file(raw: Result<Vec<u8>, String>) -> (r: Result<ParsedMail, String>)
    requires
        raw matches Ok(bytes) ==> can_decode(bytes@),
    ensures
        match raw {
            Ok(bytes) => match r {
                Ok(mail) => mail_in(bytes@) == Some(mail@),
                Err(e) => mail_in(bytes@) is None && e@ == NOT_A_MAIL@,
            },
            Err(reason) => r matches Err(e) && e@ == reason@,
        },
        raw matches Ok(bytes) && bytes@.len() == 0 ==> r is Err,
{
    let bytes = match raw {
        Ok(bytes) => to_utf8(bytes),
        Err(reason) => return Err(reason),
    };
    match read_fields(bytes.as_slice()) {
        Some(f) => Ok(mail_from_fields(&f)),
        None => Err(NOT_A_MAIL.to_string()),
    }
}

/// Law: what is handed to the parser is always valid UTF-8, and bytes that are
/// valid UTF-8 already are handed on unchanged.
pub proof fn law_mail_bytes_are_utf8(raw: Seq<u8>)
    ensures
        valid_utf8(mail_bytes(raw)),
        valid_utf8(raw) ==> mail_bytes(raw) == raw,
{
    encode_utf8_valid_utf8(gbk_decode(raw));
}

/// Law: every attachment that is listed has a name.
pub proof fn law_listed_attachments_have_names(parts: Seq<Seq<HeaderTexts>>, i: int)
    requires
        0 <= i < attachment_names_of(parts).len(),
    ensures
        attachment_names_of(parts)[i].len() > 0,
{
    law_non_empty_parts(Seq::new(parts.len(), |i: int| file_name_of(parts[i])), i);
}

/// A key that no attribute has gives no value, and the first attribute that has
/// it gives its own.
proof fn lemma_attribute_value(list: Seq<(Seq<char>, Seq<char>)>, key: Seq<char>, j: int)
    ensures
        (forall|k: int| 0 <= k < list.len() ==> (#[trigger] list[k]).0 != key) ==> attribute_value(
            list,
            key,
        ) is None,
        0 <= j < list.len() && list[j].0 == key && (forall|k: int|
            0 <= k < j ==> (#[trigger] list[k]).0 != key) ==> attribute_value(list, key) == Some(
            list[j].1,
        ),
    decreases list.len(),
{
    if list.len() > 0 {
        let rest = list.drop_first();
        lemma_attribute_value(rest, key, j - 1);
        if forall|k: int| 0 <= k < list.len() ==> (#[trigger] list[k]).0 != key {
            assert(list[0].0 != key);
            assert forall|k: int| 0 <= k < rest.len() implies (#[trigger] rest[k]).0 != key by {
                assert(rest[k] == list[k + 1]);
            }
        }
        if 0 < j < list.len() && list[j].0 == key && (forall|k: int|
            0 <= k < j ==> (#[trigger] list[k]).0 != key) {
            assert(list[0].0 != key);
            assert(rest[j - 1] == list[j]);
            assert forall|k: int| 0 <= k < j - 1 implies (#[trigger] rest[k]).0 != key by {
                assert(rest[k] == list[k + 1]);
            }
        }
    }
}

/// Law: a header that gives no file name changes nothing, wherever it stands: one
/// that is neither `Content-Disposition` nor `Content-Type`, or carries no
/// attribute `name` or `filename`.
pub proof fn law_header_without_name_changes_nothing(
    before: Seq<PartHeader>,
    h: PartHeader,
    behind: Seq<PartHeader>,
)
    requires
        ({
            ||| lowercase(h.name@) != "content-disposition"@ && lowercase(h.name@)
                != "content-type"@
            ||| h.attributes is None
            ||| forall|j: int|
                0 <= j < h.attributes->Some_0@.len() ==> (#[trigger] h.attributes->Some_0@[j]).0@
                    != "name"@ && h.attributes->Some_0@[j].0@ != "filename"@
        }),
    ensures
        file_name_of(headers_view(before + seq![h] + behind)) == file_name_of(
            headers_view(before + behind),
        ),
    decreases before.len(),
{
    let with = headers_view(before + seq![h] + behind);
    let without = headers_view(before + behind);
    if before.len() == 0 {
        if names_file(h@) && h.attributes is Some {
            let all = attributes_view(h.attributes->Some_0@);
            assert forall|k: int| 0 <= k < all.len() implies (#[trigger] all[k]).0 != "name"@
                && all[k].0 != "filename"@ by {
                assert(h.attributes->Some_0@[k].0@ != "name"@);
            }
            lemma_attribute_value(all, "name"@, 0);
            lemma_attribute_value(all, "filename"@, 0);
        }
        assert(with[0] == h@);
        assert(with.drop_first() =~= without);
    } else {
        let rest = before.drop_first();
        law_header_without_name_changes_nothing(rest, h, behind);
        assert(with[0] == before[0]@ && without[0] == before[0]@);
        assert(with.drop_first() =~= headers_view(rest + seq![h] + behind));
        assert(without.drop_first() =~= headers_view(rest + behind));
    }
}

/// Law: the first header gives the file name where it is `Content-Disposition` or
/// `Content-Type` with an attribute `name` or `filename`, whatever follows. The
/// first `name` counts, and only where there is none the first `filename`. No
/// headers give no name.
pub proof fn law_first_header_with_a_name_gives_it(
    h: PartHeader,
    behind: Seq<PartHeader>,
    j: int,
)
    requires
        lowercase(h.name@) == "content-disposition"@ || lowercase(h.name@) == "content-type"@,
        h.attributes is Some,
        0 <= j < h.attributes->Some_0@.len(),
        ({
            let list = h.attributes->Some_0@;
            ||| {
                &&& list[j].0@ == "name"@
                &&& forall|k: int| 0 <= k < j ==> (#[trigger] list[k]).0@ != "name"@
            }
            ||| {
                &&& list[j].0@ == "filename"@
                &&& forall|k: int| 0 <= k < j ==> (#[trigger] list[k]).0@ != "filename"@
                &&& forall|k: int| 0 <= k < list.len() ==> (#[trigger] list[k]).0@ != "name"@
            }
        }),
    ensures
        file_name_of(headers_view(seq![h] + behind)) == h.attributes->Some_0@[j].1@,
        file_name_of(headers_view(Seq::<PartHeader>::empty())).len() == 0,
{
    let all = headers_view(seq![h] + behind);
    let list = h.attributes->Some_0@;
    let texts = attributes_view(list);
    assert(all[0] == h@);
    assert(texts[j] == (list[j].0@, list[j].1@));
    assert forall|k: int| 0 <= k < texts.len() implies (#[trigger] texts[k]).0 == list[k].0@ by {}
    lemma_attribute_value(texts, "name"@, j);
    lemma_attribute_value(texts, "filename"@, j);
}

/// Law: every attached part with a file name is listed under it, in the order of
/// the parts, and no other part is listed.
pub proof fn law_parts_are_listed_in_order(
    before: Seq<Vec<PartHeader>>,
    part: Vec<PartHeader>,
    behind: Seq<Vec<PartHeader>>,
)
    ensures
        attachment_names_of(parts_view(Seq::<Vec<PartHeader>>::empty())).len() == 0,
        ({
            let name = file_name_of(headers_view(part@));
            let all = attachment_names_of(parts_view(before + seq![part] + behind));
            let a = attachment_names_of(parts_view(before));
            let b = attachment_names_of(parts_view(behind));
            &&& name.len() == 0 ==> all == a + b
            &&& name.len() > 0 ==> all == a + seq![name] + b
        }),
{
    let name = file_name_of(headers_view(part@));
    let x = parts_view(before);
    let y = parts_view(behind);
    let z = parts_view(before + seq![part] + behind);
    let xs = Seq::new(x.len(), |i: int| file_name_of(x[i]));
    let ys = Seq::new(y.len(), |i: int| file_name_of(y[i]));
    assert(Seq::new(z.len(), |i: int| file_name_of(z[i])) =~= xs + seq![name] + ys);
    law_non_empty_in_order(xs, name, ys);
    let none = parts_view(Seq::<Vec<PartHeader>>::empty());
    assert(Seq::new(none.len(), |i: int| file_name_of(none[i])) =~= Seq::<Seq<char>>::empty());
}

/// Law: an address without a name is shown alone, and one with a name stands
/// behind it in angle brackets.
pub proof fn law_address_in_words(a: MailAddr, r: Seq<char>)
    requires
        r == addr_text(a@),
    ensures
        ({
            let name = text_or_empty(opt_view(a.name));
            let address = text_or_empty(opt_view(a.address));
            &&& name.len() == 0 ==> r == address
            &&& name.len() > 0 ==> {
                &&& r.len() == name.len() + address.len() + 3
                &&& r.take(name.len() as int) == name
                &&& r[name.len() as int] == ' '
                &&& r[name.len() as int + 1] == '<'
                &&& r.skip(name.len() as int + 2) == address.push('>')
            }
        }),
{
    reveal_strlit(" <");
    reveal_strlit(">");
    let name = text_or_empty(opt_view(a.name));
    let address = text_or_empty(opt_view(a.address));
    if name.len() > 0 {
        assert(r.take(name.len() as int) =~= name);
        assert(r.skip(name.len() as int + 2) =~= address.push('>'));
    }
}

/// Law: a list of addresses begins with its first one, with a semicolon and a
/// space before the rest where there is one.
pub proof fn law_addresses_in_words(first: MailAddr, rest: Seq<MailAddr>, list: Vec<MailAddr>)
    ensures
        opt_addrs_view(Some(list)) == Some(addrs_view(list@)),
        addr_list_text(opt_addrs_view(None)).len() == 0,
        addr_list_text(Some(addrs_view(Seq::<MailAddr>::empty()))).len() == 0,
        addr_list_text(Some(addrs_view(seq![first]))) == addr_text(first@),
        rest.len() > 0 ==> addr_list_text(Some(addrs_view(seq![first] + rest))) == addr_text(
            first@,
        ) + seq![';', ' '] + addr_list_text(Some(addrs_view(rest))),
{
    reveal_strlit("; ");
    let sep = "; "@;
    assert(sep =~= seq![';', ' ']);
    law_joined_from_the_front(addr_text(first@), addr_texts(addrs_view(rest)), sep);
    assert(addr_texts(addrs_view(seq![first])) =~= seq![addr_text(first@)]);
    assert(addr_texts(addrs_view(seq![first] + rest)) =~= seq![addr_text(first@)] + addr_texts(
        addrs_view(rest),
    ));
    assert(addr_texts(addrs_view(Seq::<MailAddr>::empty())) =~= Seq::<Seq<char>>::empty());
}

/// Law: a date is written as year, month and day with hyphens between them, a
/// space, and hour, minute and second with colons between them. The year has at
/// least four digits, every other number at least two.
pub proof fn law_date_in_words(d: MailDate)
    ensures
        date_text(d) == padded(d.year as nat, 4) + seq!['-'] + padded(d.month as nat, 2) + seq!['-']
            + padded(d.day as nat, 2) + seq![' '] + padded(d.hour as nat, 2) + seq![':'] + padded(
            d.minute as nat,
            2,
        ) + seq![':'] + padded(d.second as nat, 2),
        date_fits(d) ==> date_text(d).len() == 19,
        d.year < 10000 && d.month < 100 && d.day < 100 && d.hour < 100 && d.minute < 100 && d.second
            < 100 ==> date_fits(d),
{
    reveal_strlit("-");
    reveal_strlit(" ");
    reveal_strlit(":");
    assert("-"@ =~= seq!['-']);
    assert(" "@ =~= seq![' ']);
    assert(":"@ =~= seq![':']);
    reveal_with_fuel(ten_to, 5);
    if date_fits(d) {
        lemma_padded(d.year as nat, 4);
        lemma_padded(d.month as nat, 2);
        lemma_padded(d.day as nat, 2);
        lemma_padded(d.hour as nat, 2);
        lemma_padded(d.minute as nat, 2);
        lemma_padded(d.second as nat, 2);
    }
}

/// Law: dates rank by year, then month, day, hour, minute and second.
pub proof fn law_dates_rank_by_their_numbers(a: MailDate, b: MailDate)
    ensures
        a.year < b.year ==> date_rank(a, b) == Rank::Before,
        a.year == b.year && a.month < b.month ==> date_rank(a, b) == Rank::Before,
        a.year == b.year && a.month == b.month && a.day < b.day ==> date_rank(a, b)
            == Rank::Before,
        a.year == b.year && a.month == b.month && a.day == b.day && a.hour < b.hour ==> date_rank(
            a,
            b,
        ) == Rank::Before,
        a.year == b.year && a.month == b.month && a.day == b.day && a.hour == b.hour && a.minute
            < b.minute ==> date_rank(a, b) == Rank::Before,
        a.year == b.year && a.month == b.month && a.day == b.day && a.hour == b.hour && a.minute
            == b.minute && a.second < b.second ==> date_rank(a, b) == Rank::Before,
        date_rank(a, b) == Rank::Same <==> a == b,
        date_rank(b, a) == date_rank(a, b).flipped(),
{
}

/// Law: every field of a mail comes from the field of the same name.
pub proof fn law_fields_become_the_texts_of_their_name(f: MessageFields, m: ParsedMail)
    requires
        m@ == texts_of(f@),
    ensures
        m.subject@ == text_or_empty(opt_view(f.subject)),
        m.from@ == addr_list_text(opt_addrs_view(f.from)),
        m.to@ == addr_list_text(opt_addrs_view(f.to)),
        f.date matches Some(d) ==> m.date@ == date_text(d),
        f.date is None ==> m.date@.len() == 0,
        m.body_text@ == text_or_empty(opt_view(f.body_text)),
        m.body_html@ == text_or_empty(opt_view(f.body_html)),
        views(m.attachments@) == attachment_names_of(parts_view(f.attachments@)),
{
}

/// Law: the fields of a mail are what the parser gives for its bytes. The bodies
/// are the first ones.
pub proof fn law_fields_are_those_of_the_parser(bytes: Seq<u8>, f: MessageFields)
    requires
        f@ == message_fields(bytes),
    ensures
        opt_view(f.subject) == message_subject(bytes),
        opt_addrs_view(f.from) == message_from(bytes),
        opt_addrs_view(f.to) == message_to(bytes),
        f.date == message_date(bytes),
        parts_view(f.attachments@) == message_attachments(bytes),
        opt_view(f.body_text) == message_body_text(bytes, 0),
        opt_view(f.body_html) == message_body_html(bytes, 0),
{
}

/// Law: a mail that was read holds what the parser gives for the bytes of the
/// file, or for the text that they are in GBK where they are not valid UTF-8. A
/// file is no mail exactly where the parser finds none in these bytes.
pub proof fn law_mail_is_what_the_parser_gives(raw: Seq<u8>, bytes: Seq<u8>, m: ParsedMail)
    requires
        bytes == if valid_utf8(raw) {
            raw
        } else {
            encode_utf8(gbk_decode(raw))
        },
    ensures
        mail_in(raw) is None <==> message_parse(bytes) is None,
        mail_in(raw) == Some(m@) ==> {
            &&& m.subject@ == text_or_empty(message_subject(bytes))
            &&& m.from@ == addr_list_text(message_from(bytes))
            &&& m.to@ == addr_list_text(message_to(bytes))
            &&& message_date(bytes) matches Some(d) ==> m.date@ == date_text(d)
            &&& message_date(bytes) is None ==> m.date@.len() == 0
            &&& m.body_text@ == text_or_empty(message_body_text(bytes, 0))
            &&& m.body_html@ == text_or_empty(message_body_html(bytes, 0))
            &&& views(m.attachments@) == attachment_names_of(message_attachments(bytes))
        },
{
}

/// Law: the file name of a part is that of the first header that carries one.
/// Headers before it are passed over, whether they are of another kind or carry
/// neither a `name` nor a `filename`, and those behind it do not matter.
pub proof fn law_first_header_that_carries_a_name_names_the_part(
    headers: Seq<PartHeader>,
    i: int,
    j: int,
)
    requires
        0 <= i < headers.len(),
        forall|n: int|
            0 <= n < i ==> {
                ||| lowercase((#[trigger] headers[n]).name@) != "content-disposition"@
                    && lowercase(headers[n].name@) != "content-type"@
                ||| headers[n].attributes is None
                ||| forall|k: int|
                    0 <= k < headers[n].attributes->Some_0@.len() ==> (
                    #[trigger] headers[n].attributes->Some_0@[k]).0@ != "name"@
                        && headers[n].attributes->Some_0@[k].0@ != "filename"@
            },
        lowercase(headers[i].name@) == "content-disposition"@ || lowercase(headers[i].name@)
            == "content-type"@,
        headers[i].attributes is Some,
        0 <= j < headers[i].attributes->Some_0@.len(),
        ({
            let list = headers[i].attributes->Some_0@;
            ||| {
                &&& list[j].0@ == "name"@
                &&& forall|k: int| 0 <= k < j ==> (#[trigger] list[k]).0@ != "name"@
            }
            ||| {
                &&& list[j].0@ == "filename"@
                &&& forall|k: int| 0 <= k < j ==> (#[trigger] list[k]).0@ != "filename"@
                &&& forall|k: int| 0 <= k < list.len() ==> (#[trigger] list[k]).0@ != "name"@
            }
        }),
    ensures
        file_name_of(headers_view(headers)) == headers[i].attributes->Some_0@[j].1@,
    decreases i,
{
    let rest = headers.drop_first();
    assert(seq![headers[0]] + rest =~= headers);
    if i == 0 {
        law_first_header_with_a_name_gives_it(headers[0], rest, j);
    } else {
        let none = Seq::<PartHeader>::empty();
        law_header_without_name_changes_nothing(none, headers[0], rest);
        assert(none + seq![headers[0]] + rest =~= headers);
        assert(none + rest =~= rest);
        assert(rest[i - 1] == headers[i]);
        assert forall|n: int| 0 <= n < i - 1 implies #[trigger] rest[n] == headers[n + 1] by {}
        law_first_header_that_carries_a_name_names_the_part(rest, i - 1, j);
    }
}

/// Law: a part has no file name where no header carries one.
pub proof fn law_part_without_a_name(headers: Seq<PartHeader>)
    requires
        forall|n: int|
            0 <= n < headers.len() ==> {
                ||| lowercase((#[trigger] headers[n]).name@) != "content-disposition"@
                    && lowercase(headers[n].name@) != "content-type"@
                ||| headers[n].attributes is None
                ||| forall|k: int|
                    0 <= k < headers[n].attributes->Some_0@.len() ==> (
                    #[trigger] headers[n].attributes->Some_0@[k]).0@ != "name"@
                        && headers[n].attributes->Some_0@[k].0@ != "filename"@
            },
    ensures
        file_name_of(headers_view(headers)).len() == 0,
    decreases headers.len(),
{
    if headers.len() > 0 {
        let rest = headers.drop_first();
        let none = Seq::<PartHeader>::empty();
        law_header_without_name_changes_nothing(none, headers[0], rest);
        assert(none + seq![headers[0]] + rest =~= headers);
        assert(none + rest =~= rest);
        assert forall|n: int| 0 <= n < rest.len() implies #[trigger] rest[n] == headers[n + 1] by {}
        law_part_without_a_name(rest);
    }
}

/// Law: which mails can be read. Only their length decides, and those that have to
/// be decoded first may have a third of it.
pub proof fn law_mails_that_can_be_read(raw: Seq<u8>)
    ensures
        valid_utf8(raw) ==> (can_decode(raw) <==> raw.len() <= isize::MAX / 12),
        !valid_utf8(raw) ==> (can_decode(raw) <==> 3 * raw.len() + 3 <= isize::MAX / 12),
{
}

} // verus!
