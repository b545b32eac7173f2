//! Showing one mail: its header and body in words, and what the viewer waits
//! for.
use vstd::hash_map::StringHashMap;
use vstd::prelude::*;

use crate::db::SearchHit;
use crate::mail_parse::{MailTexts, ParsedMail};
use crate::pattern::{regex_replace_all, Pattern, TAG_PATTERN};
use crate::text::{
    join, joined, replace, replaced, same_text, stands_at, truncate, truncated, views,
};

verus! {

/// What stands between the header and the body of a shown mail.
pub const RULE_LINE: &'static str = "------------------------------------------------------------";

/// What is said of a mail without a body.
pub const NO_BODY: &'static str = "(无文本正文)";

/// The subject under which a mail is shown that could not be read.
pub const READ_FAILED: &'static str = "[解析失败]";

/// A text with the entities for space, ampersand, angle brackets and quotation
/// marks replaced, one kind after the other in this order.
pub open spec fn entities_replaced(s: Seq<char>) -> Seq<char> {
    let s = replaced(s, "&nbsp;"@, " "@);
    let s = replaced(s, "&amp;"@, "&"@);
    let s = replaced(s, "&lt;"@, "<"@);
    let s = replaced(s, "&gt;"@, ">"@);
    let s = replaced(s, "&quot;"@, "\""@);
    replaced(s, "&#39;"@, "'"@)
}

/// Replaces the entities of an HTML text.
pub fn html_entities(s: &str) -> (r: String)
    ensures
        r@ == entities_replaced(s@),
{
    proof {
        reveal_strlit("&nbsp;");
        reveal_strlit("&amp;");
        reveal_strlit("&lt;");
        reveal_strlit("&gt;");
        reveal_strlit("&quot;");
        reveal_strlit("&#39;");
    }
    let t = replace(s, "&nbsp;", " ");
    let t = replace(t.as_str(), "&amp;", "&");
    let t = replace(t.as_str(), "&lt;", "<");
    let t = replace(t.as_str(), "&gt;", ">");
    let t = replace(t.as_str(), "&quot;", "\"");
    replace(t.as_str(), "&#39;", "'")
}

/// Where the first character of what is looked for does not occur, nothing is
/// replaced.
proof fn lemma_nothing_to_replace(s: Seq<char>, from: Seq<char>, to: Seq<char>)
    requires
        from.len() > 0,
        !s.contains(from[0]),
    ensures
        replaced(s, from, to) == s,
    decreases s.len(),
{
    if s.len() > 0 {
        assert(s.contains(s[0]));
        if stands_at(s, 0, from) {
            assert(s.subrange(0, from.len() as int)[0] == from[0]);
        }
        let rest = s.skip(1);
        assert forall|i: int| 0 <= i < rest.len() implies rest[i] != from[0] by {
            assert(s.contains(s[i + 1]));
        }
        lemma_nothing_to_replace(rest, from, to);
        assert(seq![s[0]] + rest =~= s);
    }
}

/// Law: a text without an ampersand has no entities to replace.
pub proof fn law_text_without_ampersand_is_kept(s: Seq<char>)
    requires
        !s.contains('&'),
    ensures
        entities_replaced(s) == s,
{
    reveal_strlit("&nbsp;");
    reveal_strlit("&amp;");
    reveal_strlit("&lt;");
    reveal_strlit("&gt;");
    reveal_strlit("&quot;");
    reveal_strlit("&#39;");
    lemma_nothing_to_replace(s, "&nbsp;"@, " "@);
    lemma_nothing_to_replace(s, "&amp;"@, "&"@);
    lemma_nothing_to_replace(s, "&lt;"@, "<"@);
    lemma_nothing_to_replace(s, "&gt;"@, ">"@);
    lemma_nothing_to_replace(s, "&quot;"@, "\""@);
    lemma_nothing_to_replace(s, "&#39;"@, "'"@);
}

/// What is shown of an HTML body: the text with the tags blanked out and the
/// entities replaced.
pub open spec fn html_shown(html: Seq<char>) -> Seq<char> {
    entities_replaced(regex_replace_all(TAG_PATTERN@, false, html, " "@))
}

/// Makes an HTML body readable.
pub fn html_to_shown(html: &str) -> (r: String)
    ensures
        r@ == html_shown(html@),
{
    match Pattern::new(TAG_PATTERN, false) {
        Ok(p) => {
            let blanked = p.replace_all(html, " ");
            html_entities(blanked.as_str())
        },
        // The expression for the tags compiles.
        Err(reason) => {
            assert(false);
            reason
        },
    }
}

/// What is shown as the body of a mail: its text, or else its HTML, or else
/// that there is neither.
pub open spec fn body_shown(mail: MailTexts) -> Seq<char> {
    if mail.body_text.len() > 0 {
        mail.body_text
    } else if mail.body_html.len() > 0 {
        html_shown(mail.body_html)
    } else {
        NO_BODY@
    }
}

/// A text, or `instead` where it is empty.
pub open spec fn or_instead(s: Seq<char>, instead: Seq<char>) -> Seq<char> {
    if s.len() == 0 {
        instead
    } else {
        s
    }
}

/// The names of the attachments, or that there are none.
pub open spec fn attachments_text(names: Seq<Seq<char>>) -> Seq<char> {
    if names.len() == 0 {
        "(无)"@
    } else {
        joined(names, ", "@)
    }
}

/// What is shown above the body of a mail.
pub open spec fn header_shown(mail: MailTexts) -> Seq<char> {
    "主题: "@ + or_instead(mail.subject, "(无主题)"@) + "\n发件人: "@ + mail.from + "\n收件人: "@
        + mail.to + "\n日期: "@ + mail.date + "\n附件: "@ + attachments_text(mail.attachments)
        + "\n"@ + RULE_LINE@
}

/// A mail as it is shown.
pub struct MailView {
    pub subject: String,
    pub header: String,
    pub body: String,
}

/// What a `MailView` holds.
pub struct MailViewTexts {
    pub subject: Seq<char>,
    pub header: Seq<char>,
    pub body: Seq<char>,
}

impl View for MailView {
    type V = MailViewTexts;

    open spec fn view(&self) -> MailViewTexts {
        MailViewTexts { subject: self.subject@, header: self.header@, body: self.body@ }
    }
}

/// How a mail is shown that was read, or could not be.
pub open spec fn view_texts(mail: Result<ParsedMail, String>) -> MailViewTexts {
    match mail {
        Ok(m) => MailViewTexts {
            subject: m@.subject,
            header: header_shown(m@),
            body: body_shown(m@),
        },
        Err(e) => MailViewTexts { subject: READ_FAILED@, header: Seq::empty(), body: e@ },
    }
}

fn attachments_label(names: &Vec<String>) -> (r: String)
    ensures
        r@ == attachments_text(views(names@)),
{
    if names.len() == 0 {
        "(无)".to_string()
    } else {
        join(names, ", ")
    }
}

/// What is shown above the body of a mail.
pub fn header_text(mail: &ParsedMail) -> (r: String)
    ensures
        r@ == header_shown(mail@),
{
    let mut out = "主题: ".to_string();
    if mail.subject.as_str().is_empty() {
        out.append("(无主题)");
    } else {
        out.append(mail.subject.as_str());
    }
    out.append("\n发件人: ");
    out.append(mail.from.as_str());
    out.append("\n收件人: ");
    out.append(mail.to.as_str());
    out.append("\n日期: ");
    out.append(mail.date.as_str());
    out.append("\n附件: ");
    let names = attachments_label(&mail.attachments);
    out.append(names.as_str());
    out.append("\n");
    out.append(RULE_LINE);
    out
}

/// Puts together how a mail is shown.
pub fn mail_view(mail: Result<ParsedMail, String>) -> (r: MailView)
    ensures
        r@ == view_texts(mail),
{
    match mail {
        Ok(m) => {
            let header = header_text(&m);
            let body = if !m.body_text.as_str().is_empty() {
                m.body_text
            } else if !m.body_html.as_str().is_empty() {
                html_to_shown(m.body_html.as_str())
            } else {
                NO_BODY.to_string()
            };
            MailView { subject: m.subject, header, body }
        },
        Err(e) => {
            let v = MailView { subject: READ_FAILED.to_string(), header: String::new(), body: e };
            assert(v@.header =~= Seq::<char>::empty());
            v
        },
    }
}

/// The mails that have been made ready to show, by path.
pub struct ViewCache {
    views: StringHashMap<MailView>,
}

impl View for ViewCache {
    type V = Map<Seq<char>, MailView>;

    closed spec fn view(&self) -> Map<Seq<char>, MailView> {
        self.views@
    }
}

impl ViewCache {
    /// Nothing has been made ready.
    pub fn new() -> (r: ViewCache)
        ensures
            r@ == Map::<Seq<char>, MailView>::empty(),
    {
        ViewCache { views: StringHashMap::new() }
    }

    /// Whether the mail at a path is ready.
    pub fn contains(&self, path: &str) -> (r: bool)
        ensures
            r == self@.contains_key(path@),
    {
        self.views.contains_key(path)
    }

    /// Keeps the mail at a path, in place of what was kept for it.
    pub fn insert(&mut self, path: String, view: MailView)
        ensures
            final(self)@ == old(self)@.insert(path@, view),
    {
        self.views.insert(path, view);
    }

    /// The mail at a path, where it is ready.
    pub fn get(&self, path: &str) -> (r: Option<&MailView>)
        ensures
            match r {
                Some(v) => self@.contains_key(path@) && *v == self@[path@],
                None => !self@.contains_key(path@),
            },
    {
        self.views.get(path)
    }
}

/// Which mail the viewer shows, and what it waits for.
pub struct MailViewer {
    pub open: bool,
    pub loading: bool,
    pub path: String,
    /// Whether a reading has been begun whose end has not been noticed.
    pub waiting: bool,
}

impl MailViewer {
    /// A viewer that shows nothing.
    pub fn new() -> (r: MailViewer)
        ensures
            !r.open,
            !r.loading,
            !r.waiting,
            r.path@ == Seq::<char>::empty(),
    {
        MailViewer { open: false, loading: false, path: String::new(), waiting: false }
    }

    /// Turns to the mail at `path`. Says whether it must be read: it must unless
    /// it is ready already.
    pub fn load(&mut self, path: &str, cache: &ViewCache) -> (must_read: bool)
        ensures
            must_read == !cache@.contains_key(path@),
            final(self).open,
            final(self).loading == must_read,
            final(self).path@ == path@,
            final(self).waiting == (must_read || old(self).waiting),
    {
        self.open = true;
        self.loading = true;
        self.path = path.to_string();
        if cache.contains(path) {
            self.loading = false;
            return false;
        }
        self.waiting = true;
        true
    }

    /// Takes notice of a reading that has come to its end, if one has. Only the
    /// mail that is shown matters; the end of an earlier one is passed over.
    pub fn notice(&mut self, finished: Option<String>)
        ensures
            final(self).open == old(self).open,
            final(self).path == old(self).path,
            ({
                let arrived = old(self).waiting && match finished {
                    Some(p) => p@ == old(self).path@,
                    None => false,
                };
                &&& final(self).loading == (old(self).loading && !arrived)
                &&& final(self).waiting == (old(self).waiting && !arrived)
            }),
    {
        if self.waiting {
            if let Some(p) = finished {
                if same_text(p.as_str(), self.path.as_str()) {
                    self.loading = false;
                    self.waiting = false;
                }
            }
        }
    }
}

/// What is shown beside the list of hits.
#[derive(Clone, Copy, Debug, PartialEq, Eq, Structural)]
pub enum Pane {
    /// Nothing is selected.
    NoSelection,
    /// The selected mail is being read.
    Reading,
    /// The selected mail.
    Mail,
    /// The selected mail has not been asked for.
    Unread,
}

/// What is shown beside the list of hits.
pub open spec fn pane_for(
    selected: Option<usize>,
    hits: Seq<SearchHit>,
    viewer: MailViewer,
    cache: Map<Seq<char>, MailView>,
) -> Pane {
    match selected {
        Some(i) => if i >= hits.len() {
            Pane::NoSelection
        } else if viewer.loading && viewer.path@ == hits[i as int].path@ {
            Pane::Reading
        } else if cache.contains_key(hits[i as int].path@) {
            Pane::Mail
        } else {
            Pane::Unread
        },
        None => Pane::NoSelection,
    }
}

/// Decides what is shown beside the list of hits.
pub fn pane(
    selected: Option<usize>,
    hits: &Vec<SearchHit>,
    viewer: &MailViewer,
    cache: &ViewCache,
) -> (r: Pane)
    ensures
        r == pane_for(selected, hits@, *viewer, cache@),
{
    match selected {
        Some(i) => if i >= hits.len() {
            Pane::NoSelection
        } else if viewer.loading && same_text(viewer.path.as_str(), hits[i].path.as_str()) {
            Pane::Reading
        } else if cache.contains(hits[i].path.as_str()) {
            Pane::Mail
        } else {
            Pane::Unread
        },
        None => Pane::NoSelection,
    }
}

/// How many characters of the body a report shows.
pub const REPORT_BODY_CHARS: usize = 200;

/// A report on a mail, line by line.
pub open spec fn report_lines(mail: MailTexts) -> Seq<Seq<char>> {
    seq![
        "主题: "@ + mail.subject,
        "发件人: "@ + mail.from,
        "收件人: "@ + mail.to,
        "日期: "@ + mail.date,
        "附件: "@ + attachments_text(mail.attachments),
        "正文前200字: "@ + truncated(mail.body_text, REPORT_BODY_CHARS as nat),
    ]
}

fn report_line(label: &str, text: &str) -> (r: String)
    ensures
        r@ == label@ + text@,
{
    let mut out = label.to_string();
    out.append(text);
    out
}

/// Writes a report on a mail.
pub fn report(mail: &ParsedMail) -> (r: Vec<String>)
    ensures
        views(r@) == report_lines(mail@),
{
    let mut out: Vec<String> = Vec::new();
    out.push(report_line("主题: ", mail.subject.as_str()));
    out.push(report_line("发件人: ", mail.from.as_str()));
    out.push(report_line("收件人: ", mail.to.as_str()));
    out.push(report_line("日期: ", mail.date.as_str()));
    let names = attachments_label(&mail.attachments);
    out.push(report_line("附件: ", names.as_str()));
    let start = truncate(mail.body_text.as_str(), REPORT_BODY_CHARS);
    out.push(report_line("正文前200字: ", start.as_str()));
    assert(views(out@) =~= report_lines(mail@));
    out
}

/// The entities and what they stand for, character by character.
proof fn lemma_entity_texts()
    ensures
        "&nbsp;"@ == seq!['&', 'n', 'b', 's', 'p', ';'],
        " "@ == seq![' '],
        "&amp;"@ == seq!['&', 'a', 'm', 'p', ';'],
        "&"@ == seq!['&'],
        "&lt;"@ == seq!['&', 'l', 't', ';'],
        "<"@ == seq!['<'],
        "&gt;"@ == seq!['&', 'g', 't', ';'],
        ">"@ == seq!['>'],
        "&quot;"@ == seq!['&', 'q', 'u', 'o', 't', ';'],
        "\""@ == seq!['"'],
        "&#39;"@ == seq!['&', '#', '3', '9', ';'],
        "'"@ == seq!['\''],
{
    reveal_strlit("&nbsp;");
    reveal_strlit(" ");
    reveal_strlit("&amp;");
    reveal_strlit("&");
    reveal_strlit("&lt;");
    reveal_strlit("<");
    reveal_strlit("&gt;");
    reveal_strlit(">");
    reveal_strlit("&quot;");
    reveal_strlit("\"");
    reveal_strlit("&#39;");
    reveal_strlit("'");
    assert("&nbsp;"@ =~= seq!['&', 'n', 'b', 's', 'p', ';']);
    assert(" "@ =~= seq![' ']);
    assert("&amp;"@ =~= seq!['&', 'a', 'm', 'p', ';']);
    assert("&"@ =~= seq!['&']);
    assert("&lt;"@ =~= seq!['&', 'l', 't', ';']);
    assert("<"@ =~= seq!['<']);
    assert("&gt;"@ =~= seq!['&', 'g', 't', ';']);
    assert(">"@ =~= seq!['>']);
    assert("&quot;"@ =~= seq!['&', 'q', 'u', 'o', 't', ';']);
    assert("\""@ =~= seq!['"']);
    assert("&#39;"@ =~= seq!['&', '#', '3', '9', ';']);
    assert("'"@ =~= seq!['\'']);
}

proof fn lemma_key_is_replaced(s: Seq<char>, from: Seq<char>, to: Seq<char>)
    requires
        from.len() > 0,
    ensures
        replaced(from + s, from, to) == to + replaced(s, from, to),
{
    let all = from + s;
    assert(all.subrange(0, from.len() as int) =~= from);
    assert(all.skip(from.len() as int) =~= s);
}

proof fn lemma_first_character_stays(c: char, s: Seq<char>, from: Seq<char>, to: Seq<char>)
    requires
        from.len() > 0,
        !stands_at(seq![c] + s, 0, from),
    ensures
        replaced(seq![c] + s, from, to) == seq![c] + replaced(s, from, to),
{
    assert((seq![c] + s).skip(1) =~= s);
}

proof fn lemma_other_character_stays(c: char, s: Seq<char>, from: Seq<char>, to: Seq<char>)
    requires
        from.len() > 0,
        from[0] != c,
    ensures
        replaced(seq![c] + s, from, to) == seq![c] + replaced(s, from, to),
{
    let all = seq![c] + s;
    if stands_at(all, 0, from) {
        assert(all.subrange(0, from.len() as int)[0] == all[0]);
    }
    lemma_first_character_stays(c, s, from, to);
}

/// What does not hold the first character of the key stays in front of what is
/// replaced.
proof fn lemma_other_text_stays(t: Seq<char>, s: Seq<char>, from: Seq<char>, to: Seq<char>)
    requires
        from.len() > 0,
        forall|i: int| 0 <= i < t.len() ==> #[trigger] t[i] != from[0],
    ensures
        replaced(t + s, from, to) == t + replaced(s, from, to),
    decreases t.len(),
{
    if t.len() == 0 {
        assert(t + s =~= s);
        assert(t + replaced(s, from, to) =~= replaced(s, from, to));
    } else {
        let rest = t.skip(1);
        lemma_other_text_stays(rest, s, from, to);
        lemma_other_character_stays(t[0], rest + s, from, to);
        assert(seq![t[0]] + (rest + s) =~= t + s);
        assert(seq![t[0]] + (rest + replaced(s, from, to)) =~= t + replaced(s, from, to));
    }
}

/// An entity stays where another is looked for that differs from it at `k`.
proof fn lemma_other_entity_stays(
    e: Seq<char>,
    s: Seq<char>,
    from: Seq<char>,
    to: Seq<char>,
    k: int,
)
    requires
        0 < k < e.len(),
        k < from.len(),
        e[k] != from[k],
        forall|i: int| 0 < i < e.len() ==> #[trigger] e[i] != from[0],
    ensures
        replaced(e + s, from, to) == e + replaced(s, from, to),
{
    let rest = e.skip(1);
    let all = seq![e[0]] + (rest + s);
    assert(all =~= e + s);
    if stands_at(all, 0, from) {
        assert(all.subrange(0, from.len() as int)[k] == all[k]);
        assert(all[k] == e[k]);
    }
    lemma_first_character_stays(e[0], rest + s, from, to);
    lemma_other_text_stays(rest, s, from, to);
    assert(seq![e[0]] + (rest + replaced(s, from, to)) =~= e + replaced(s, from, to));
}

/// Replacing puts no text in front that was not there, where neither what is put
/// in nor the first character of the key occurs in it.
proof fn lemma_beginning_was_there(s: Seq<char>, from: Seq<char>, to: Seq<char>, t: Seq<char>)
    requires
        from.len() > 0,
        to.len() == 1,
        forall|i: int| 0 <= i < t.len() ==> #[trigger] t[i] != to[0] && t[i] != from[0],
        !stands_at(s, 0, t),
    ensures
        !stands_at(replaced(s, from, to), 0, t),
    decreases s.len(),
{
    let r = replaced(s, from, to);
    if stands_at(r, 0, t) {
        if t.len() == 0 {
            assert(s.subrange(0, 0) =~= t);
        } else if s.len() > 0 {
            assert(r.subrange(0, t.len() as int)[0] == r[0]);
            if stands_at(s, 0, from) {
                assert(r[0] == to[0]);
            } else {
                let rest = s.skip(1);
                let tail = t.skip(1);
                let q = replaced(rest, from, to);
                assert(r.subrange(0, t.len() as int).skip(1) =~= q.subrange(0, tail.len() as int));
                if stands_at(rest, 0, tail) {
                    assert(s.subrange(0, t.len() as int) =~= seq![s[0]] + rest.subrange(
                        0,
                        tail.len() as int,
                    ));
                    assert(seq![s[0]] + tail =~= t);
                } else {
                    lemma_beginning_was_there(rest, from, to, tail);
                }
            }
        }
    }
}

/// Law: what stands in front of the entities stays, character by character.
pub proof fn law_other_characters_are_kept(c: char, s: Seq<char>)
    requires
        c != '&',
    ensures
        entities_replaced(Seq::empty()).len() == 0,
        entities_replaced(seq![c] + s) == seq![c] + entities_replaced(s),
{
    lemma_entity_texts();
    let s1 = replaced(s, "&nbsp;"@, " "@);
    let s2 = replaced(s1, "&amp;"@, "&"@);
    let s3 = replaced(s2, "&lt;"@, "<"@);
    let s4 = replaced(s3, "&gt;"@, ">"@);
    let s5 = replaced(s4, "&quot;"@, "\""@);
    let s6 = replaced(s5, "&#39;"@, "'"@);
    lemma_other_character_stays(c, s, "&nbsp;"@, " "@);
    lemma_other_character_stays(c, s1, "&amp;"@, "&"@);
    lemma_other_character_stays(c, s2, "&lt;"@, "<"@);
    lemma_other_character_stays(c, s3, "&gt;"@, ">"@);
    lemma_other_character_stays(c, s4, "&quot;"@, "\""@);
    lemma_other_character_stays(c, s5, "&#39;"@, "'"@);
}

/// Law: each entity for a space becomes that character, wherever it stands and
/// whatever stands behind it.
pub proof fn law_entity_for_space(s: Seq<char>)
    ensures
        entities_replaced(seq!['&', 'n', 'b', 's', 'p', ';'] + s) == seq![' '] + entities_replaced(s),
{
    lemma_entity_texts();
    let s1 = replaced(s, "&nbsp;"@, " "@);
    let s2 = replaced(s1, "&amp;"@, "&"@);
    let s3 = replaced(s2, "&lt;"@, "<"@);
    let s4 = replaced(s3, "&gt;"@, ">"@);
    let s5 = replaced(s4, "&quot;"@, "\""@);
    let s6 = replaced(s5, "&#39;"@, "'"@);
    lemma_key_is_replaced(s, "&nbsp;"@, " "@);
    lemma_other_character_stays(' ', s1, "&amp;"@, "&"@);
    lemma_other_character_stays(' ', s2, "&lt;"@, "<"@);
    lemma_other_character_stays(' ', s3, "&gt;"@, ">"@);
    lemma_other_character_stays(' ', s4, "&quot;"@, "\""@);
    lemma_other_character_stays(' ', s5, "&#39;"@, "'"@);
}

/// Law: each entity for the left angle bracket becomes that character, wherever it stands and
/// whatever stands behind it.
pub proof fn law_entity_for_left_bracket(s: Seq<char>)
    ensures
        entities_replaced(seq!['&', 'l', 't', ';'] + s) == seq!['<'] + entities_replaced(s),
        entities_replaced(seq!['&', 'a', 'm', 'p', ';', 'l', 't', ';'] + s) == seq!['<'] + entities_replaced(s),
{
    lemma_entity_texts();
    let s1 = replaced(s, "&nbsp;"@, " "@);
    let s2 = replaced(s1, "&amp;"@, "&"@);
    let s3 = replaced(s2, "&lt;"@, "<"@);
    let s4 = replaced(s3, "&gt;"@, ">"@);
    let s5 = replaced(s4, "&quot;"@, "\""@);
    let s6 = replaced(s5, "&#39;"@, "'"@);
    lemma_other_entity_stays("&lt;"@, s, "&nbsp;"@, " "@, 1);
    lemma_other_entity_stays("&lt;"@, s1, "&amp;"@, "&"@, 1);
    lemma_key_is_replaced(s2, "&lt;"@, "<"@);
    lemma_other_character_stays('<', s3, "&gt;"@, ">"@);
    lemma_other_character_stays('<', s4, "&quot;"@, "\""@);
    lemma_other_character_stays('<', s5, "&#39;"@, "'"@);
    let tail = seq!['l', 't', ';'];
    assert(seq!['&', 'a', 'm', 'p', ';', 'l', 't', ';'] + s =~= "&amp;"@ + (tail + s));
    lemma_other_entity_stays("&amp;"@, tail + s, "&nbsp;"@, " "@, 1);
    lemma_other_text_stays(tail, s, "&nbsp;"@, " "@);
    lemma_key_is_replaced(tail + s1, "&amp;"@, "&"@);
    lemma_other_text_stays(tail, s1, "&amp;"@, "&"@);
    assert("&"@ + (tail + s2) =~= "&lt;"@ + s2);
}

/// Law: each entity for the right angle bracket becomes that character, wherever it stands and
/// whatever stands behind it.
pub proof fn law_entity_for_right_bracket(s: Seq<char>)
    ensures
        entities_replaced(seq!['&', 'g', 't', ';'] + s) == seq!['>'] + entities_replaced(s),
        entities_replaced(seq!['&', 'a', 'm', 'p', ';', 'g', 't', ';'] + s) == seq!['>'] + entities_replaced(s),
{
    lemma_entity_texts();
    let s1 = replaced(s, "&nbsp;"@, " "@);
    let s2 = replaced(s1, "&amp;"@, "&"@);
    let s3 = replaced(s2, "&lt;"@, "<"@);
    let s4 = replaced(s3, "&gt;"@, ">"@);
    let s5 = replaced(s4, "&quot;"@, "\""@);
    let s6 = replaced(s5, "&#39;"@, "'"@);
    lemma_other_entity_stays("&gt;"@, s, "&nbsp;"@, " "@, 1);
    lemma_other_entity_stays("&gt;"@, s1, "&amp;"@, "&"@, 1);
    lemma_other_entity_stays("&gt;"@, s2, "&lt;"@, "<"@, 1);
    lemma_key_is_replaced(s3, "&gt;"@, ">"@);
    lemma_other_character_stays('>', s4, "&quot;"@, "\""@);
    lemma_other_character_stays('>', s5, "&#39;"@, "'"@);
    let tail = seq!['g', 't', ';'];
    assert(seq!['&', 'a', 'm', 'p', ';', 'g', 't', ';'] + s =~= "&amp;"@ + (tail + s));
    lemma_other_entity_stays("&amp;"@, tail + s, "&nbsp;"@, " "@, 1);
    lemma_other_text_stays(tail, s, "&nbsp;"@, " "@);
    lemma_key_is_replaced(tail + s1, "&amp;"@, "&"@);
    lemma_other_text_stays(tail, s1, "&amp;"@, "&"@);
    assert("&"@ + (tail + s2) =~= "&gt;"@ + s2);
}

/// Law: each entity for the quotation mark becomes that character, wherever it stands and
/// whatever stands behind it.
pub proof fn law_entity_for_quotation_mark(s: Seq<char>)
    ensures
        entities_replaced(seq!['&', 'q', 'u', 'o', 't', ';'] + s) == seq!['"'] + entities_replaced(s),
        entities_replaced(seq!['&', 'a', 'm', 'p', ';', 'q', 'u', 'o', 't', ';'] + s) == seq!['"'] + entities_replaced(s),
{
    lemma_entity_texts();
    let s1 = replaced(s, "&nbsp;"@, " "@);
    let s2 = replaced(s1, "&amp;"@, "&"@);
    let s3 = replaced(s2, "&lt;"@, "<"@);
    let s4 = replaced(s3, "&gt;"@, ">"@);
    let s5 = replaced(s4, "&quot;"@, "\""@);
    let s6 = replaced(s5, "&#39;"@, "'"@);
    lemma_other_entity_stays("&quot;"@, s, "&nbsp;"@, " "@, 1);
    lemma_other_entity_stays("&quot;"@, s1, "&amp;"@, "&"@, 1);
    lemma_other_entity_stays("&quot;"@, s2, "&lt;"@, "<"@, 1);
    lemma_other_entity_stays("&quot;"@, s3, "&gt;"@, ">"@, 1);
    lemma_key_is_replaced(s4, "&quot;"@, "\""@);
    lemma_other_character_stays('"', s5, "&#39;"@, "'"@);
    let tail = seq!['q', 'u', 'o', 't', ';'];
    assert(seq!['&', 'a', 'm', 'p', ';', 'q', 'u', 'o', 't', ';'] + s =~= "&amp;"@ + (tail + s));
    lemma_other_entity_stays("&amp;"@, tail + s, "&nbsp;"@, " "@, 1);
    lemma_other_text_stays(tail, s, "&nbsp;"@, " "@);
    lemma_key_is_replaced(tail + s1, "&amp;"@, "&"@);
    lemma_other_text_stays(tail, s1, "&amp;"@, "&"@);
    assert("&"@ + (tail + s2) =~= "&quot;"@ + s2);
}

/// Law: each entity for the apostrophe becomes that character, wherever it stands and
/// whatever stands behind it.
pub proof fn law_entity_for_apostrophe(s: Seq<char>)
    ensures
        entities_replaced(seq!['&', '#', '3', '9', ';'] + s) == seq!['\''] + entities_replaced(s),
        entities_replaced(seq!['&', 'a', 'm', 'p', ';', '#', '3', '9', ';'] + s) == seq!['\''] + entities_replaced(s),
{
    lemma_entity_texts();
    let s1 = replaced(s, "&nbsp;"@, " "@);
    let s2 = replaced(s1, "&amp;"@, "&"@);
    let s3 = replaced(s2, "&lt;"@, "<"@);
    let s4 = replaced(s3, "&gt;"@, ">"@);
    let s5 = replaced(s4, "&quot;"@, "\""@);
    let s6 = replaced(s5, "&#39;"@, "'"@);
    lemma_other_entity_stays("&#39;"@, s, "&nbsp;"@, " "@, 1);
    lemma_other_entity_stays("&#39;"@, s1, "&amp;"@, "&"@, 1);
    lemma_other_entity_stays("&#39;"@, s2, "&lt;"@, "<"@, 1);
    lemma_other_entity_stays("&#39;"@, s3, "&gt;"@, ">"@, 1);
    lemma_other_entity_stays("&#39;"@, s4, "&quot;"@, "\""@, 1);
    lemma_key_is_replaced(s5, "&#39;"@, "'"@);
    let tail = seq!['#', '3', '9', ';'];
    assert(seq!['&', 'a', 'm', 'p', ';', '#', '3', '9', ';'] + s =~= "&amp;"@ + (tail + s));
    lemma_other_entity_stays("&amp;"@, tail + s, "&nbsp;"@, " "@, 1);
    lemma_other_text_stays(tail, s, "&nbsp;"@, " "@);
    lemma_key_is_replaced(tail + s1, "&amp;"@, "&"@);
    lemma_other_text_stays(tail, s1, "&amp;"@, "&"@);
    assert("&"@ + (tail + s2) =~= "&#39;"@ + s2);
}

proof fn lemma_lone_ampersand(s: Seq<char>, from: Seq<char>, to: Seq<char>)
    requires
        from.len() > 0,
        !stands_at(s, 0, from.skip(1)),
    ensures
        replaced(seq!['&'] + s, from, to) == seq!['&'] + replaced(s, from, to),
{
    let all = seq!['&'] + s;
    if stands_at(all, 0, from) {
        assert(s.subrange(0, from.len() - 1) =~= all.subrange(0, from.len() as int).skip(1));
    }
    lemma_first_character_stays('&', s, from, to);
}

/// Law: an ampersand that begins no entity stays.
pub proof fn law_lone_ampersand_is_kept(s: Seq<char>)
    requires
        !stands_at(s, 0, seq!['n', 'b', 's', 'p', ';']),
        !stands_at(s, 0, seq!['a', 'm', 'p', ';']),
        !stands_at(s, 0, seq!['l', 't', ';']),
        !stands_at(s, 0, seq!['g', 't', ';']),
        !stands_at(s, 0, seq!['q', 'u', 'o', 't', ';']),
        !stands_at(s, 0, seq!['#', '3', '9', ';']),
    ensures
        entities_replaced(seq!['&'] + s) == seq!['&'] + entities_replaced(s),
{
    lemma_entity_texts();
    let s1 = replaced(s, "&nbsp;"@, " "@);
    let s2 = replaced(s1, "&amp;"@, "&"@);
    let s3 = replaced(s2, "&lt;"@, "<"@);
    let s4 = replaced(s3, "&gt;"@, ">"@);
    let s5 = replaced(s4, "&quot;"@, "\""@);
    let s6 = replaced(s5, "&#39;"@, "'"@);
    assert("&nbsp;"@.skip(1) =~= seq!['n', 'b', 's', 'p', ';']);
    assert("&amp;"@.skip(1) =~= seq!['a', 'm', 'p', ';']);
    assert("&lt;"@.skip(1) =~= seq!['l', 't', ';']);
    assert("&gt;"@.skip(1) =~= seq!['g', 't', ';']);
    assert("&quot;"@.skip(1) =~= seq!['q', 'u', 'o', 't', ';']);
    assert("&#39;"@.skip(1) =~= seq!['#', '3', '9', ';']);
    lemma_lone_ampersand(s, "&nbsp;"@, " "@);
    lemma_beginning_was_there(s, "&nbsp;"@, " "@, seq!['a', 'm', 'p', ';']);
    lemma_lone_ampersand(s1, "&amp;"@, "&"@);
    lemma_beginning_was_there(s, "&nbsp;"@, " "@, seq!['l', 't', ';']);
    lemma_beginning_was_there(s1, "&amp;"@, "&"@, seq!['l', 't', ';']);
    lemma_lone_ampersand(s2, "&lt;"@, "<"@);
    lemma_beginning_was_there(s, "&nbsp;"@, " "@, seq!['g', 't', ';']);
    lemma_beginning_was_there(s1, "&amp;"@, "&"@, seq!['g', 't', ';']);
    lemma_beginning_was_there(s2, "&lt;"@, "<"@, seq!['g', 't', ';']);
    lemma_lone_ampersand(s3, "&gt;"@, ">"@);
    lemma_beginning_was_there(s, "&nbsp;"@, " "@, seq!['q', 'u', 'o', 't', ';']);
    lemma_beginning_was_there(s1, "&amp;"@, "&"@, seq!['q', 'u', 'o', 't', ';']);
    lemma_beginning_was_there(s2, "&lt;"@, "<"@, seq!['q', 'u', 'o', 't', ';']);
    lemma_beginning_was_there(s3, "&gt;"@, ">"@, seq!['q', 'u', 'o', 't', ';']);
    lemma_lone_ampersand(s4, "&quot;"@, "\""@);
    lemma_beginning_was_there(s, "&nbsp;"@, " "@, seq!['#', '3', '9', ';']);
    lemma_beginning_was_there(s1, "&amp;"@, "&"@, seq!['#', '3', '9', ';']);
    lemma_beginning_was_there(s2, "&lt;"@, "<"@, seq!['#', '3', '9', ';']);
    lemma_beginning_was_there(s3, "&gt;"@, ">"@, seq!['#', '3', '9', ';']);
    lemma_beginning_was_there(s4, "&quot;"@, "\""@, seq!['#', '3', '9', ';']);
    lemma_lone_ampersand(s5, "&#39;"@, "'"@);
}

/// Law: an entity for the ampersand becomes one, where no entity comes about by
/// that.
pub proof fn law_entity_for_ampersand(s: Seq<char>)
    requires
        !stands_at(s, 0, seq!['l', 't', ';']),
        !stands_at(s, 0, seq!['g', 't', ';']),
        !stands_at(s, 0, seq!['q', 'u', 'o', 't', ';']),
        !stands_at(s, 0, seq!['#', '3', '9', ';']),
    ensures
        entities_replaced(seq!['&', 'a', 'm', 'p', ';'] + s) == seq!['&'] + entities_replaced(s),
{
    lemma_entity_texts();
    let s1 = replaced(s, "&nbsp;"@, " "@);
    let s2 = replaced(s1, "&amp;"@, "&"@);
    let s3 = replaced(s2, "&lt;"@, "<"@);
    let s4 = replaced(s3, "&gt;"@, ">"@);
    let s5 = replaced(s4, "&quot;"@, "\""@);
    let s6 = replaced(s5, "&#39;"@, "'"@);
    assert("&lt;"@.skip(1) =~= seq!['l', 't', ';']);
    assert("&gt;"@.skip(1) =~= seq!['g', 't', ';']);
    assert("&quot;"@.skip(1) =~= seq!['q', 'u', 'o', 't', ';']);
    assert("&#39;"@.skip(1) =~= seq!['#', '3', '9', ';']);
    lemma_other_entity_stays("&amp;"@, s, "&nbsp;"@, " "@, 1);
    lemma_key_is_replaced(s1, "&amp;"@, "&"@);
    lemma_beginning_was_there(s, "&nbsp;"@, " "@, seq!['l', 't', ';']);
    lemma_beginning_was_there(s1, "&amp;"@, "&"@, seq!['l', 't', ';']);
    lemma_lone_ampersand(s2, "&lt;"@, "<"@);
    lemma_beginning_was_there(s, "&nbsp;"@, " "@, seq!['g', 't', ';']);
    lemma_beginning_was_there(s1, "&amp;"@, "&"@, seq!['g', 't', ';']);
    lemma_beginning_was_there(s2, "&lt;"@, "<"@, seq!['g', 't', ';']);
    lemma_lone_ampersand(s3, "&gt;"@, ">"@);
    lemma_beginning_was_there(s, "&nbsp;"@, " "@, seq!['q', 'u', 'o', 't', ';']);
    lemma_beginning_was_there(s1, "&amp;"@, "&"@, seq!['q', 'u', 'o', 't', ';']);
    lemma_beginning_was_there(s2, "&lt;"@, "<"@, seq!['q', 'u', 'o', 't', ';']);
    lemma_beginning_was_there(s3, "&gt;"@, ">"@, seq!['q', 'u', 'o', 't', ';']);
    lemma_lone_ampersand(s4, "&quot;"@, "\""@);
    lemma_beginning_was_there(s, "&nbsp;"@, " "@, seq!['#', '3', '9', ';']);
    lemma_beginning_was_there(s1, "&amp;"@, "&"@, seq!['#', '3', '9', ';']);
    lemma_beginning_was_there(s2, "&lt;"@, "<"@, seq!['#', '3', '9', ';']);
    lemma_beginning_was_there(s3, "&gt;"@, ">"@, seq!['#', '3', '9', ';']);
    lemma_beginning_was_there(s4, "&quot;"@, "\""@, seq!['#', '3', '9', ';']);
    lemma_lone_ampersand(s5, "&#39;"@, "'"@);
}

/// Law: of an HTML body each script, style sheet and tag is blanked out before
/// the entities are replaced.
pub proof fn law_html_is_shown_without_tags(html: Seq<char>)
    ensures
        html_shown(html) == entities_replaced(
            regex_replace_all(
                "(?is)<script[^>]*>.*?</script>|<style[^>]*>.*?</style>|<[^>]+>"@,
                false,
                html,
                " "@,
            ),
        ),
{
}

/// Law: the names of the attachments stand with commas between them, and where
/// there are none that is said.
pub proof fn law_attachments_in_words(names: Seq<Seq<char>>)
    ensures
        names.len() == 0 ==> attachments_text(names) == "(无)"@,
        names.len() > 0 ==> attachments_text(names) == joined(names, seq![',', ' ']),
{
    reveal_strlit(", ");
    assert(", "@ =~= seq![',', ' ']);
}

/// Law: a mail is shown under its subject. Its text is its body; without one the
/// HTML is shown, and without either that there is none.
pub proof fn law_mail_as_it_is_shown(mail: ParsedMail, view: MailView)
    requires
        view@ == view_texts(Ok(mail)),
    ensures
        view.subject@ == mail.subject@,
        mail.body_text@.len() > 0 ==> view.body@ == mail.body_text@,
        mail.body_text@.len() == 0 && mail.body_html@.len() > 0 ==> view.body@ == html_shown(
            mail.body_html@,
        ),
        mail.body_text@.len() == 0 && mail.body_html@.len() == 0 ==> view.body@ == "(无文本正文)"@,
        view.header@ == "主题: "@ + (if mail.subject@.len() == 0 {
            "(无主题)"@
        } else {
            mail.subject@
        }) + "\n发件人: "@ + mail.from@ + "\n收件人: "@ + mail.to@ + "\n日期: "@ + mail.date@
            + "\n附件: "@ + attachments_text(views(mail.attachments@)) + "\n"@ + Seq::new(
            60,
            |i: int| '-',
        ),
{
    reveal_strlit("------------------------------------------------------------");
    assert(RULE_LINE@ =~= Seq::new(60, |i: int| '-'));
}

/// Law: of a mail that could not be read the reason is shown.
pub proof fn law_unreadable_mail_as_it_is_shown(reason: String, view: MailView)
    requires
        view@ == view_texts(Err(reason)),
    ensures
        view.subject@ == "[解析失败]"@,
        view.header@.len() == 0,
        view.body@ == reason@,
{
}

/// Law: a text stands for itself unless it is empty.
pub proof fn law_something_instead_of_nothing(s: Seq<char>, instead: Seq<char>)
    ensures
        s.len() > 0 ==> or_instead(s, instead) == s,
        or_instead(Seq::empty(), instead) == instead,
        or_instead(s, instead).len() == 0 <==> s.len() == 0 && instead.len() == 0,
{
}

/// Law: what is shown beside the hits. Nothing is selected where the selection is
/// none of the hits; the selected mail is being read exactly where the viewer
/// waits for its path; and otherwise it is shown exactly where it is ready.
pub proof fn law_what_is_shown_beside_the_hits(
    selected: Option<usize>,
    hits: Seq<SearchHit>,
    viewer: MailViewer,
    cache: Map<Seq<char>, MailView>,
    i: usize,
)
    ensures
        pane_for(None, hits, viewer, cache) == Pane::NoSelection,
        pane_for(Some(i), hits, viewer, cache) == Pane::NoSelection <==> i >= hits.len(),
        i < hits.len() ==> {
            let path = hits[i as int].path@;
            let waits = viewer.loading && viewer.path@ == path;
            &&& pane_for(Some(i), hits, viewer, cache) == Pane::Reading <==> waits
            &&& pane_for(Some(i), hits, viewer, cache) == Pane::Mail <==> !waits
                && cache.contains_key(path)
            &&& pane_for(Some(i), hits, viewer, cache) == Pane::Unread <==> !waits
                && !cache.contains_key(path)
        },
{
}

/// Law: a report says what a mail holds, line by line, and at most the first two
/// hundred characters of its text.
pub proof fn law_report_in_words(mail: ParsedMail, lines: Seq<String>)
    requires
        views(lines) == report_lines(mail@),
    ensures
        lines.len() == 6,
        lines[0]@ == "主题: "@ + mail.subject@,
        lines[1]@ == "发件人: "@ + mail.from@,
        lines[2]@ == "收件人: "@ + mail.to@,
        lines[3]@ == "日期: "@ + mail.date@,
        lines[4]@ == "附件: "@ + attachments_text(views(mail.attachments@)),
        mail.body_text@.len() <= 200 ==> lines[5]@ == "正文前200字: "@ + mail.body_text@,
        mail.body_text@.len() > 200 ==> lines[5]@ == "正文前200字: "@ + mail.body_text@.take(200),
{
    let shown = views(lines);
    assert(shown.len() == lines.len());
    assert(shown[0] == lines[0]@ && shown[1] == lines[1]@ && shown[2] == lines[2]@);
    assert(shown[3] == lines[3]@ && shown[4] == lines[4]@ && shown[5] == lines[5]@);
}

} // verus!
