//! Laws of the functions that callers see: what their results have to do with
//! what went in, and with each other.
use vstd::prelude::*;
use vstd::utf8::{encode_utf8, valid_utf8};

use crate::db::{
    contents, hit_from_row, law_search_values, readable_of, Db, IndexedMail, SearchHit, SqlValue,
    Statement, SCHEMA_SQL,
};
use crate::mail_parse::{
    addr_list_text, attachment_names_of, gbk_decode,
    law_first_header_that_carries_a_name_names_the_part, law_header_without_name_changes_nothing,
    law_mail_is_what_the_parser_gives, mail_in, message_attachments, message_body_html,
    message_body_text, message_from, message_parse, message_subject, message_to, parse_file,
    part_filename, ParsedMail, PartHeader,
};
use crate::numerals::{digits, signed};
use crate::pattern::{regex_build, regex_is_match};
use crate::scanner::{
    collect_files, extensions_in, index_file, judge_file, law_collected_files_are_those_taken,
    law_counts_of_a_scan, law_every_missing_file_is_listed, mails_of, missing_ids, outcome_of,
    takes_entry, FileMeta, FileOutcome, FilePresence, FileVerdict, Harvest, KnownFiles, ScanEvent,
    ScanOptions, ScanProgress, WalkEntry,
};
use crate::search::{
    all_compile, counted_body, keywords_in, law_every_keyword_is_counted_in_all_texts,
    law_row_is_found_where_a_text_matches, law_score_is_at_least_that_of_each_keyword, new_score,
    score, score_all, RegexSearch,
};
use crate::session::{
    file_to_test, index_failed, index_size, law_log_drops_its_oldest_lines, mail_title,
    opened_message, poll_scan, progress_numbers, result_line, results_title, LogBuffer,
    ScanRequest, ScanState, SearchForm, SearchPlan,
};
use crate::sort::{law_sorting_keeps_every_hit, sorted_from, SortMode};
use crate::text::{lowercase, occurrences, opt_view, text_or_empty, trimmed, views};
use crate::viewer::{MailView, MailViewer, ViewCache};

verus! {

/// Law: `part_filename` gives the same with and without a header that is neither
/// `Content-Disposition` nor `Content-Type`, or carries no `name` or `filename`.
pub proof fn law_part_filename_passes_over_headers(
    with: &Vec<PartHeader>,
    without: &Vec<PartHeader>,
    at: int,
    a: String,
    b: String,
)
    requires
        0 <= at < with@.len(),
        without@ == with@.remove(at),
        ({
            let h = with@[at];
            ||| lowercase(h.name@) != "content-disposition"@ && lowercase(h.name@)
                != "content-type"@
            ||| h.attributes is None
            ||| forall|j: int|
                0 <= j < h.attributes->Some_0@.len() ==> (#[trigger] h.attributes->Some_0@[j]).0@
                    != "name"@ && h.attributes->Some_0@[j].0@ != "filename"@
        }),
        call_ensures(part_filename, (with,), a),
        call_ensures(part_filename, (without,), b),
    ensures
        a@ == b@,
{
    let before = with@.take(at);
    let behind = with@.skip(at + 1);
    assert(before + seq![with@[at]] + behind =~= with@);
    assert(before + behind =~= without@);
    law_header_without_name_changes_nothing(before, with@[at], behind);
}

/// Law: `part_filename` gives what the first header that carries a name says,
/// here its first attribute `name`.
pub proof fn law_part_filename_gives_the_first_name(
    headers: &Vec<PartHeader>,
    i: int,
    j: int,
    r: String,
)
    requires
        call_ensures(part_filename, (headers,), r),
        0 <= i < headers@.len(),
        forall|n: int|
            0 <= n < i ==> {
                ||| lowercase((#[trigger] headers@[n]).name@) != "content-disposition"@
                    && lowercase(headers@[n].name@) != "content-type"@
                ||| headers@[n].attributes is None
                ||| forall|k: int|
                    0 <= k < headers@[n].attributes->Some_0@.len() ==> (
                    #[trigger] headers@[n].attributes->Some_0@[k]).0@ != "name"@
                        && headers@[n].attributes->Some_0@[k].0@ != "filename"@
            },
        lowercase(headers@[i].name@) == "content-disposition"@ || lowercase(headers@[i].name@)
            == "content-type"@,
        headers@[i].attributes is Some,
        0 <= j < headers@[i].attributes->Some_0@.len(),
        headers@[i].attributes->Some_0@[j].0@ == "name"@,
        forall|k: int|
            0 <= k < j ==> (#[trigger] headers@[i].attributes->Some_0@[k]).0@ != "name"@,
    ensures
        r@ == headers@[i].attributes->Some_0@[j].1@,
{
    law_first_header_that_carries_a_name_names_the_part(headers@, i, j);
}

/// Law: `missing_ids` lists the number of every mail whose file is gone, and of no
/// other, and as many numbers as there are such mails.
pub proof fn law_missing_ids_are_all_listed(rows: &Vec<FilePresence>, r: Vec<i64>)
    requires
        call_ensures(missing_ids, (rows,), r),
    ensures
        forall|i: int|
            0 <= i < rows@.len() && !(#[trigger] rows@[i]).exists ==> r@.contains(rows@[i].id),
        forall|k: int|
            0 <= k < r@.len() ==> exists|i: int|
                0 <= i < rows@.len() && !(#[trigger] rows@[i]).exists && rows@[i].id
                    == #[trigger] r@[k],
        r@.len() == rows@.filter(|row: FilePresence| !row.exists).len(),
{
    law_every_missing_file_is_listed(rows@);
}

/// Law: a row that is offered to a search is kept exactly where fewer than twenty
/// thousand have been kept and some expression matches, whatever the case of the
/// letters, one of its six texts or, where bodies are searched, its whole body.
pub proof fn law_offered_row_is_kept_where_a_text_matches(row: SearchHit, body: Option<String>)
    ensures
        forall|s: &mut RegexSearch, more: bool| #[trigger]
            call_ensures(RegexSearch::offer, (s, row, body), more) ==> {
                let matches = exists|i: int|
                    0 <= i < s.sources().len() && {
                        ||| regex_is_match(#[trigger] s.sources()[i], true, row.file_name@)
                        ||| regex_is_match(s.sources()[i], true, row.subject@)
                        ||| regex_is_match(s.sources()[i], true, row.from_addr@)
                        ||| regex_is_match(s.sources()[i], true, row.to_addr@)
                        ||| regex_is_match(s.sources()[i], true, row.date@)
                        ||| regex_is_match(s.sources()[i], true, row.attachments@)
                        ||| s.scope_body() && body is Some && regex_is_match(
                            s.sources()[i],
                            true,
                            body->Some_0@,
                        )
                    };
                &&& final(s).sources() == s.sources()
                &&& final(s).scope_body() == s.scope_body()
                &&& matches && s.hits().len() < 20000 ==> final(s).hits() == s.hits().push(row)
                &&& !matches || s.hits().len() >= 20000 ==> final(s).hits() == s.hits()
                &&& more <==> final(s).hits().len() < 20000
            },
{
    assert forall|s: &mut RegexSearch, more: bool| #[trigger]
        call_ensures(RegexSearch::offer, (s, row, body), more) implies {
        let matches = exists|i: int|
            0 <= i < s.sources().len() && {
                ||| regex_is_match(#[trigger] s.sources()[i], true, row.file_name@)
                ||| regex_is_match(s.sources()[i], true, row.subject@)
                ||| regex_is_match(s.sources()[i], true, row.from_addr@)
                ||| regex_is_match(s.sources()[i], true, row.to_addr@)
                ||| regex_is_match(s.sources()[i], true, row.date@)
                ||| regex_is_match(s.sources()[i], true, row.attachments@)
                ||| s.scope_body() && body is Some && regex_is_match(
                    s.sources()[i],
                    true,
                    body->Some_0@,
                )
            };
        &&& final(s).sources() == s.sources()
        &&& final(s).scope_body() == s.scope_body()
        &&& matches && s.hits().len() < 20000 ==> final(s).hits() == s.hits().push(row)
        &&& !matches || s.hits().len() >= 20000 ==> final(s).hits() == s.hits()
        &&& more <==> final(s).hits().len() < 20000
    } by {
        law_row_is_found_where_a_text_matches(s.sources(), s.scope_body(), row, opt_view(body));
    }
}

/// Law: a search begins with the given expressions and nothing found, and gives
/// out what it has found.
pub proof fn law_search_begins_empty_and_gives_out_its_hits(
    patterns: &[String],
    scope_body: bool,
    begun: RegexSearch,
    ended: RegexSearch,
    hits: Vec<SearchHit>,
)
    requires
        call_ensures(Db::search_regex, (patterns, scope_body), Ok(begun)),
        call_ensures(RegexSearch::into_hits, (ended,), hits),
    ensures
        begun.sources().len() == patterns@.len(),
        forall|i: int| 0 <= i < patterns@.len() ==> #[trigger] begun.sources()[i] == patterns@[i]@,
        begun.scope_body() == scope_body,
        begun.hits().len() == 0,
        hits@ == ended.hits(),
{
    assert forall|i: int| 0 <= i < patterns@.len() implies #[trigger] begun.sources()[i]
        == patterns@[i]@ by {
        assert(views(patterns@)[i] == patterns@[i]@);
    }
}

/// Law: a search by keywords looks in the file name, the subject, the sender, the
/// recipients, the date and the attachments, and in the body where bodies are
/// searched. Each keyword is bound once for each of these, in lower case and with
/// anything before and behind it.
pub proof fn law_search_by_keywords(
    keywords: &[String],
    scope_body: bool,
    r: Statement,
    k: int,
    j: int,
)
    requires
        call_ensures(Db::search, (keywords, scope_body), r),
        0 <= k < keywords@.len(),
        0 <= j < if scope_body {
            7int
        } else {
            6int
        },
    ensures
        ({
            let width = if scope_body {
                7int
            } else {
                6int
            };
            &&& r.params@.len() == width * keywords@.len()
            &&& 0 <= width * k + j < r.params@.len()
            &&& r.params@[width * k + j] matches SqlValue::Text(s)
            &&& s@ == seq!['%'] + lowercase(keywords@[k]@) + seq!['%']
        }),
{
    law_search_values(views(keywords@), scope_body, r.params@, k, j);
    assert(views(keywords@)[k] == keywords@[k]@);
}

/// Law: what `score` gives is the score that the hit had and, for each keyword in
/// lower case, how often it occurs in the lower case of subject, sender,
/// recipients, file name and body. So it is never less than the score that the hit
/// had and the occurrences of any one keyword.
pub proof fn law_score_counts_in_all_texts(
    hit: &SearchHit,
    body: Option<String>,
    keywords: &Vec<String>,
    r: Option<usize>,
    k: int,
)
    requires
        call_ensures(score, (hit, body, keywords), r),
        0 <= k < keywords@.len(),
    ensures
        ({
            let header = hit.subject@ + seq!['\n'] + hit.from_addr@ + seq!['\n'] + hit.to_addr@
                + seq!['\n'] + hit.file_name@;
            let text = lowercase(
                match body {
                    Some(b) => header + seq!['\n'] + b@,
                    None => header,
                },
            );
            &&& r matches Some(n) ==> n >= hit.score + occurrences(text, lowercase(keywords@[k]@))
            &&& keywords@.len() == 1 && hit.score + occurrences(text, lowercase(keywords@[k]@))
                <= usize::MAX ==> {
                &&& r matches Some(n)
                &&& n == hit.score + occurrences(text, lowercase(keywords@[k]@))
            }
        }),
{
    let words = views(keywords@);
    let given = opt_view(body);
    assert(words[k] == keywords@[k]@);
    law_score_is_at_least_that_of_each_keyword(*hit, given, words, k);
    if words.len() == 1 {
        let none = Seq::<Seq<char>>::empty();
        law_every_keyword_is_counted_in_all_texts(*hit, given, none, words[0]);
        assert(none.push(words[0]) =~= words);
    }
}

/// Law: scoring keeps the hits, their order and all that they say, and never takes
/// anything off a score. Without keywords nothing changes.
pub proof fn law_scoring_keeps_the_hits(
    hits: Vec<SearchHit>,
    bodies: Vec<Option<String>>,
    scope_body: bool,
    keywords: &Vec<String>,
    scored: Vec<SearchHit>,
    i: int,
)
    requires
        hits@.len() == bodies@.len(),
        call_ensures(score_all, (hits, bodies, scope_body, keywords), Some(scored)),
        0 <= i < hits@.len(),
    ensures
        scored@.len() == hits@.len(),
        scored@[i].id == hits@[i].id,
        scored@[i].path == hits@[i].path,
        scored@[i].file_name == hits@[i].file_name,
        scored@[i].subject == hits@[i].subject,
        scored@[i].from_addr == hits@[i].from_addr,
        scored@[i].to_addr == hits@[i].to_addr,
        scored@[i].date == hits@[i].date,
        scored@[i].attachments == hits@[i].attachments,
        scored@[i].score >= hits@[i].score,
        keywords@.len() == 0 ==> scored@[i].score == hits@[i].score,
        forall|given: Option<String>, n: usize|
            #![trigger call_ensures(score, (&hits@[i], given, keywords), Some(n))]
            given == (if scope_body {
                bodies@[i]
            } else {
                None
            }) && call_ensures(score, (&hits@[i], given, keywords), Some(n)) ==> scored@[i].score
                == n,
{
    let words = views(keywords@);
    let counted = counted_body(scope_body, bodies@[i]);
    assert(scored@[i] == (SearchHit {
        score: new_score(hits@[i], counted, words) as usize,
        ..hits@[i]
    }));
    if words.len() == 0 {
        assert(words =~= Seq::<Seq<char>>::empty());
        law_every_keyword_is_counted_in_all_texts(hits@[i], counted, words, Seq::empty());
    }
}

/// Law: a row becomes a hit exactly where all its columns can be read. The hit
/// says what they hold and scores nothing.
pub proof fn law_hit_holds_the_columns_of_its_row(
    id: Option<i64>,
    path: Option<String>,
    file_name: Option<String>,
    subject: Option<String>,
    from_addr: Option<String>,
    to_addr: Option<String>,
    date: Option<String>,
    attachments: Option<String>,
    r: Option<SearchHit>,
)
    requires
        call_ensures(
            hit_from_row,
            (id, path, file_name, subject, from_addr, to_addr, date, attachments),
            r,
        ),
    ensures
        r is None <==> {
            ||| id is None
            ||| path is None
            ||| file_name is None
            ||| subject is None
            ||| from_addr is None
            ||| to_addr is None
            ||| date is None
            ||| attachments is None
        },
        r matches Some(hit) ==> {
            &&& hit.id == id->Some_0
            &&& hit.path@ == path->Some_0@
            &&& hit.file_name@ == file_name->Some_0@
            &&& hit.subject@ == subject->Some_0@
            &&& hit.from_addr@ == from_addr->Some_0@
            &&& hit.to_addr@ == to_addr->Some_0@
            &&& hit.date@ == date->Some_0@
            &&& hit.attachments@ == attachments->Some_0@
            &&& hit.score == 0
        },
{
}

/// Law: a mail is written with its values in the order in which the statement
/// names the columns.
pub proof fn law_mail_is_written_column_by_column(m: &IndexedMail, r: Statement)
    requires
        call_ensures(Db::upsert, (m,), r),
    ensures
        r.sql@ == "INSERT INTO mails(path,file_name,size,mtime,indexed_at,subject,from_addr,to_addr,date,body_text,attachments)
             VALUES(?1,?2,?3,?4,?5,?6,?7,?8,?9,?10,?11)
             ON CONFLICT(path) DO UPDATE SET
               file_name=excluded.file_name, size=excluded.size, mtime=excluded.mtime,
               indexed_at=excluded.indexed_at, subject=excluded.subject,
               from_addr=excluded.from_addr, to_addr=excluded.to_addr,
               date=excluded.date, body_text=excluded.body_text, attachments=excluded.attachments"@,
        r.params@.len() == 11,
        r.params@[0] matches SqlValue::Text(s) && s@ == m.path@,
        r.params@[1] matches SqlValue::Text(s) && s@ == m.file_name@,
        r.params@[2] == SqlValue::Unsigned(m.size),
        r.params@[3] == SqlValue::Integer(m.mtime),
        r.params@[4] == SqlValue::Integer(m.indexed_at),
        r.params@[5] matches SqlValue::Text(s) && s@ == m.subject@,
        r.params@[6] matches SqlValue::Text(s) && s@ == m.from_addr@,
        r.params@[7] matches SqlValue::Text(s) && s@ == m.to_addr@,
        r.params@[8] matches SqlValue::Text(s) && s@ == m.date@,
        r.params@[9] matches SqlValue::Text(s) && s@ == m.body_text@,
        r.params@[10] matches SqlValue::Text(s) && s@ == m.attachments@,
{
    let held = contents(r.params@);
    assert(held.len() == r.params@.len());
    assert forall|i: int| 0 <= i < r.params@.len() implies held[i] == (#[trigger] r.params@[i])@ by {}
}

/// Law: the other statements bind the number, the key and the value that they are
/// about, and nothing else.
pub proof fn law_statements_bind_what_they_are_about(
    id: i64,
    key: &str,
    value: &str,
    delete: Statement,
    body: Statement,
    get: Statement,
    set: Statement,
)
    requires
        call_ensures(Db::delete_by_id, (id,), delete),
        call_ensures(Db::get_body, (id,), body),
        call_ensures(Db::get_meta, (key,), get),
        call_ensures(Db::set_meta, (key, value), set),
    ensures
        delete.sql@ == "DELETE FROM mails WHERE id=?1"@,
        delete.params@ == seq![SqlValue::Integer(id)],
        body.sql@ == "SELECT body_text FROM mails WHERE id=?1"@,
        body.params@ == seq![SqlValue::Integer(id)],
        get.sql@ == "SELECT value FROM meta WHERE key=?1"@,
        get.params@.len() == 1,
        get.params@[0] matches SqlValue::Text(s) && s@ == key@,
        set.sql@ == "INSERT INTO meta(key,value) VALUES(?1,?2)
             ON CONFLICT(key) DO UPDATE SET value=excluded.value"@,
        set.params@.len() == 2,
        set.params@[0] matches SqlValue::Text(s) && s@ == key@,
        set.params@[1] matches SqlValue::Text(s) && s@ == value@,
{
    assert(contents(delete.params@).len() == delete.params@.len());
    assert(contents(body.params@).len() == body.params@.len());
    assert(contents(get.params@).len() == get.params@.len());
    assert(contents(set.params@).len() == set.params@.len());
    assert(contents(delete.params@)[0] == delete.params@[0]@);
    assert(contents(body.params@)[0] == body.params@[0]@);
    assert(contents(get.params@)[0] == get.params@[0]@);
    assert(contents(set.params@)[0] == set.params@[0]@);
    assert(contents(set.params@)[1] == set.params@[1]@);
}

/// Law: a file that was read is stored, and one that was not is rejected with its
/// path and the reason.
pub proof fn law_outcome_of_a_file(
    path: &str,
    read: Result<IndexedMail, String>,
    r: FileOutcome,
)
    requires
        call_ensures(outcome_of, (path, read), r),
    ensures
        read matches Ok(m) ==> r == (FileOutcome::Indexed { mail: m }),
        read is Err <==> r is Rejected,
        read matches Err(e) ==> {
            &&& r->Rejected_path@ == path@
            &&& r->reason@ == e@
        },
{
}

/// Law: progress is reported with every two hundredth file and with the last one.
/// Beginning a file counts it and nothing else.
pub proof fn law_progress_is_reported(total: usize)
    ensures
        forall|p: &mut ScanProgress, report: Option<String>| #[trigger]
            call_ensures(ScanProgress::start_file, (p, total), report) && p.scanned < usize::MAX
                ==> {
                &&& final(p).scanned == p.scanned + 1
                &&& final(p).indexed == p.indexed
                &&& final(p).failed == p.failed
                &&& final(p).skipped == p.skipped
                &&& final(p).done == p.done
                &&& final(p).cancelled == p.cancelled
                &&& report is Some <==> (p.scanned + 1) % 200 == 0 || p.scanned + 1 == total
                &&& report matches Some(line) ==> line@ == seq!['进', '度', ' '] + digits(
                    (p.scanned + 1) as nat,
                ) + seq!['/'] + digits(total as nat)
            },
{
    reveal_strlit("进度 ");
    reveal_strlit("/");
    assert("进度 "@ =~= seq!['进', '度', ' ']);
    assert("/"@ =~= seq!['/']);
}

/// Law: of the files that end a scan, only those that are rejected are reported,
/// with path and reason, and only while no more than twenty files have failed.
pub proof fn law_rejections_are_reported(outcome: &FileOutcome)
    ensures
        forall|p: &mut ScanProgress, report: Option<String>| #[trigger]
            call_ensures(ScanProgress::finish_file, (p, outcome), report) && p.finished()
                < p.scanned ==> {
                &&& final(p).scanned == p.scanned
                &&& final(p).done == p.done
                &&& final(p).cancelled == p.cancelled
                &&& final(p).indexed == p.indexed + if outcome is Indexed {
                    1int
                } else {
                    0
                }
                &&& final(p).failed == p.failed + if outcome is Unreadable || outcome is Rejected {
                    1int
                } else {
                    0
                }
                &&& final(p).skipped == p.skipped + if outcome is Unchanged {
                    1int
                } else {
                    0
                }
                &&& report is Some <==> outcome is Rejected && p.failed < 20
                &&& report matches Some(line) ==> line@ == "[跳过] "@ + outcome->Rejected_path@
                    + ": "@ + outcome->reason@
            },
{
}

/// Law: closing a scan says that it is over and whether it was cancelled, and
/// leaves the counts.
pub proof fn law_closing_keeps_the_counts(cancelled: bool)
    ensures
        forall|p: &mut ScanProgress| #[trigger]
            call_ensures(ScanProgress::close, (p, cancelled), ()) ==> {
                &&& final(p).done
                &&& final(p).cancelled == cancelled
                &&& final(p).scanned == p.scanned
                &&& final(p).indexed == p.indexed
                &&& final(p).failed == p.failed
                &&& final(p).skipped == p.skipped
            },
{
}

/// Law: what a scan gathers. Its mails are those of the files that gave one, in
/// their order; its counts are the numbers of the files that ended so; and what
/// it is told of is the number of the mails.
pub proof fn law_harvest_of_a_scan(
    outcomes: Vec<Option<FileOutcome>>,
    ended: Seq<FileOutcome>,
    harvest: Harvest,
    mails: &Vec<IndexedMail>,
    progress: &ScanProgress,
    cancelled: bool,
    event: ScanEvent,
)
    requires
        outcomes@ == ended.map_values(|o: FileOutcome| Some(o)),
        ended.len() <= usize::MAX,
        call_ensures(Harvest::gather, (outcomes,), harvest),
        call_ensures(Harvest::mails, (&harvest,), mails),
        call_ensures(Harvest::progress, (&harvest,), progress),
        call_ensures(Harvest::parsed, (&harvest, cancelled), event),
    ensures
        mails@ == mails_of(ended),
        progress.scanned == ended.len(),
        progress.indexed == ended.filter(|o: FileOutcome| o is Indexed).len(),
        progress.failed == ended.filter(|o: FileOutcome| o is Unreadable || o is Rejected).len(),
        progress.skipped == ended.filter(|o: FileOutcome| o is Unchanged).len(),
        event == (ScanEvent::Parsed { mails: mails@.len() as usize, cancelled }),
{
    lemma_all_readable(ended);
    assert(outcomes@ =~= ended.map_values(|o: FileOutcome| Some(o)));
    law_counts_of_a_scan(ended);
}

/// Where every row can be read, all are.
proof fn lemma_all_readable(items: Seq<FileOutcome>)
    ensures
        readable_of(items.map_values(|o: FileOutcome| Some(o))) == items,
    decreases items.len(),
{
    let rows = items.map_values(|o: FileOutcome| Some(o));
    if items.len() > 0 {
        lemma_all_readable(items.drop_last());
        assert(rows.drop_last() =~= items.drop_last().map_values(|o: FileOutcome| Some(o)));
        assert(items.drop_last().push(items.last()) =~= items);
    }
}

/// Law: a file is unchanged exactly where its time is the one that was recorded
/// last for its path. What is recorded for other paths does not matter.
pub proof fn law_recorded_times_are_found_again(
    path: String,
    mtime: i64,
    asked: &str,
    time: i64,
    fresh: KnownFiles,
)
    requires
        call_ensures(KnownFiles::new, (), fresh),
    ensures
        forall|r: bool| #[trigger]
            call_ensures(KnownFiles::is_unchanged, (&fresh, asked, time), r) ==> !r,
        forall|k: &mut KnownFiles, before: bool, after: bool|
            call_ensures(KnownFiles::record, (k, path, mtime), ()) && #[trigger] call_ensures(
                KnownFiles::is_unchanged,
                (&*k, asked, time),
                before,
            ) && #[trigger] call_ensures(
                KnownFiles::is_unchanged,
                (&*final(k), asked, time),
                after,
            ) ==> after == if asked@ == path@ {
                time == mtime
            } else {
                before
            },
{
}

/// Law: what `index_file` stores is what the parser finds in the file; a file that
/// could not be read gives its reason, and one that is no mail says so.
pub proof fn law_index_file_passes_failures_on(
    path: &str,
    file_name: &str,
    size: u64,
    mtime: i64,
    reason: String,
    bytes: Vec<u8>,
    unread: Result<IndexedMail, String>,
    read: Result<IndexedMail, String>,
)
    requires
        call_ensures(index_file, (path, file_name, size, mtime, Err(reason)), unread),
        call_ensures(index_file, (path, file_name, size, mtime, Ok(bytes)), read),
    ensures
        unread matches Err(e) && e@ == reason@,
        read is Err <==> mail_in(bytes@) is None,
        read matches Err(e) ==> e@ == "无法解析为邮件"@,
        read matches Ok(m) ==> {
            &&& m.path@ == path@
            &&& m.file_name@ == file_name@
            &&& m.size == size
            &&& m.mtime == mtime
            &&& m.indexed_at >= 0
            &&& m.subject@ == mail_in(bytes@)->Some_0.subject
            &&& m.from_addr@ == mail_in(bytes@)->Some_0.from
            &&& m.to_addr@ == mail_in(bytes@)->Some_0.to
            &&& m.date@ == mail_in(bytes@)->Some_0.date
        },
{
}

/// Law: a scan is accepted exactly where a directory has been given, white space
/// apart, and exists. It is made with what the form says; otherwise what is
/// missing is reported.
pub proof fn law_scan_is_accepted_or_refused(
    form: &SearchForm,
    root_is_dir: bool,
    r: ScanRequest,
)
    requires
        call_ensures(SearchForm::start_scan, (form, root_is_dir), r),
    ensures
        r is Accepted <==> trimmed(form.root_dir@).len() > 0 && root_is_dir,
        trimmed(form.root_dir@).len() == 0 ==> r->message@ == "[提示] 请先选择目录"@,
        trimmed(form.root_dir@).len() > 0 && !root_is_dir ==> r->message@ == "[错误] 目录不存在"@,
        r matches ScanRequest::Accepted { opts, log } ==> {
            &&& opts.root@ == trimmed(form.root_dir@)
            &&& views(opts.include_exts@) == extensions_in(form.ext_include@)
            &&& opts.exclude_by_ext == form.exclude_by_ext
            &&& opts.incremental == form.use_last_db
            &&& log@.len() == 2
            &&& log@[0]@ == "=== 开始扫描 "@ + trimmed(form.root_dir@) + " ==="@
        },
{
    if let ScanRequest::Accepted { opts, log } = r {
        let lines = views(log@);
        assert(lines.len() == log@.len());
        assert(lines[0] == log@[0]@);
    }
}

/// Law: what the form holds at first, and which words and directory it gives.
pub proof fn law_form_gives_what_was_typed(
    last_root: Option<String>,
    first: SearchForm,
    form: &SearchForm,
    root: Option<String>,
    words: Option<Vec<String>>,
)
    requires
        call_ensures(SearchForm::initial, (last_root,), first),
        call_ensures(SearchForm::scan_root, (form,), root),
        call_ensures(SearchForm::search_words, (form,), words),
    ensures
        last_root matches Some(dir) ==> first.root_dir@ == dir@,
        last_root is None ==> first.root_dir@.len() == 0,
        first.ext_include@ == seq!['e', 'm', 'l'],
        first.exclude_by_ext && first.scope_body && first.use_last_db && !first.use_regex,
        first.sort_mode == SortMode::TimeDesc,
        first.keywords@.len() == 0,
        root is Some <==> trimmed(form.root_dir@).len() > 0,
        root matches Some(dir) ==> dir@ == trimmed(form.root_dir@),
        words is Some <==> keywords_in(form.keywords@, form.use_regex).len() > 0,
        words matches Some(list) ==> views(list@) == keywords_in(form.keywords@, form.use_regex),
{
    reveal_strlit("eml");
    assert("eml"@ =~= seq!['e', 'm', 'l']);
    if let Some(list) = words {
        assert(views(list@).len() == list@.len());
    }
}

/// Law: looking after a scan changes only one that runs and has come to its end.
/// It is then over, as its worker said, and a line ends the log.
pub proof fn law_only_a_running_scan_ends(
    state: ScanState,
    finished: Option<bool>,
    r: (ScanState, Option<String>),
)
    requires
        call_ensures(poll_scan, (state, finished), r),
    ensures
        state != ScanState::Running || finished is None ==> r.0 == state && r.1 is None,
        state == ScanState::Running ==> (finished matches Some(ok) ==> {
            &&& r.0 == ScanState::Done(ok)
            &&& r.1 is Some
            &&& ok ==> r.1->Some_0@ == "=== 扫描完成 ==="@
            &&& !ok ==> r.1->Some_0@ == "=== 扫描已取消/结束 ==="@
        }),
{
}

/// Law: the lines and titles that are shown.
pub proof fn law_lines_that_are_shown(
    hit: &SearchHit,
    reason: &str,
    count: usize,
    held: i64,
    done: usize,
    total: usize,
    line: String,
    title: String,
    list_title: String,
    size: String,
    numbers: String,
    opened: String,
    failed: String,
)
    requires
        call_ensures(result_line, (hit,), line),
        call_ensures(mail_title, (hit,), title),
        call_ensures(results_title, (count,), list_title),
        call_ensures(index_size, (held,), size),
        call_ensures(progress_numbers, (done, total), numbers),
        call_ensures(opened_message, (hit,), opened),
        call_ensures(index_failed, (reason,), failed),
    ensures
        line@ == hit.date@ + "  |  "@ + hit.from_addr@ + "  |  "@ + hit.subject@,
        hit.subject@.len() > 0 ==> title@ == hit.subject@,
        hit.subject@.len() == 0 ==> title@ == "(无主题)"@,
        list_title@ == "检索结果 ("@ + digits(count as nat) + " 条)"@,
        size@ == "库内 "@ + signed(held as int) + " 封"@,
        numbers@ == digits(done as nat) + "/"@ + digits(total as nat),
        opened@ == "已用 Outlook/默认邮件程序打开: "@ + hit.file_name@,
        failed@ == "[错误] 打开索引库失败: "@ + reason@,
{
}

/// Law: the program tests a file exactly where its first argument says so and a
/// second one follows, which is the file.
pub proof fn law_file_to_test_is_the_second_argument(args: &Vec<String>, r: Option<String>)
    requires
        call_ensures(file_to_test, (args,), r),
    ensures
        r is Some <==> args@.len() >= 3 && args@[1]@ == "--test-parse"@,
        r matches Some(file) ==> file@ == args@[2]@,
{
}

/// Law: each order has its own name, and all five are offered.
pub proof fn law_orders_that_are_offered(mode: SortMode, all: [SortMode; 5], label: &'static str)
    requires
        call_ensures(SortMode::all, (), all),
        call_ensures(SortMode::label, (&mode,), label),
    ensures
        all@ == seq![
            SortMode::TimeDesc,
            SortMode::TimeAsc,
            SortMode::ScoreDesc,
            SortMode::ScoreAsc,
            SortMode::Subject,
        ],
        mode == SortMode::TimeDesc ==> label@ == "时间 新→旧"@,
        mode == SortMode::TimeAsc ==> label@ == "时间 旧→新"@,
        mode == SortMode::ScoreDesc ==> label@ == "词频 高→低"@,
        mode == SortMode::ScoreAsc ==> label@ == "词频 低→高"@,
        mode == SortMode::Subject ==> label@ == "主题 A→Z"@,
{
}

/// Law: turning to a mail opens the viewer on it. It waits exactly for a mail that
/// is not ready.
pub proof fn law_viewer_waits_for_what_is_not_ready(path: &str, cache: &ViewCache)
    ensures
        forall|v: &mut MailViewer, must_read: bool| #[trigger]
            call_ensures(MailViewer::load, (v, path, cache), must_read) ==> {
                &&& final(v).open
                &&& final(v).path@ == path@
                &&& must_read <==> !cache@.contains_key(path@)
                &&& final(v).loading == must_read
                &&& final(v).waiting <==> must_read || v.waiting
            },
{
}

/// Law: a viewer that waits stops doing so exactly when the mail it shows has been
/// read. The end of any other reading changes nothing.
pub proof fn law_viewer_notices_only_its_own_mail(finished: Option<String>)
    ensures
        forall|v: &mut MailViewer| #[trigger]
            call_ensures(MailViewer::notice, (v, finished), ()) ==> {
                let arrived = v.waiting && finished is Some && finished->Some_0@ == v.path@;
                &&& final(v).open == v.open
                &&& final(v).path@ == v.path@
                &&& arrived ==> !final(v).loading && !final(v).waiting
                &&& !arrived ==> final(v).loading == v.loading && final(v).waiting == v.waiting
            },
{
}

/// Law: what is kept for a path is found again under it, and only there.
pub proof fn law_kept_views_are_found_again(
    path: String,
    view: MailView,
    asked: &str,
    fresh: ViewCache,
)
    requires
        call_ensures(ViewCache::new, (), fresh),
    ensures
        forall|r: bool| #[trigger]
            call_ensures(ViewCache::contains, (&fresh, asked), r) ==> !r,
        forall|c: &mut ViewCache, r: Option<&MailView>|
            call_ensures(ViewCache::insert, (c, path, view), ()) && asked@ == path@
                && #[trigger] call_ensures(ViewCache::get, (&*final(c), asked), r) ==> r
                is Some && *r->Some_0 == view,
        forall|c: &mut ViewCache, before: bool, after: bool|
            call_ensures(ViewCache::insert, (c, path, view), ()) && #[trigger] call_ensures(
                ViewCache::contains,
                (&*c, asked),
                before,
            ) && #[trigger] call_ensures(ViewCache::contains, (&*final(c), asked), after) ==> after
                == (before || asked@ == path@),
{
}

/// Law: a search goes by regular expressions exactly where that was chosen. It
/// cannot be carried out exactly where one of them does not compile. By keywords
/// it asks what `Db::search` asks.
pub proof fn law_search_goes_as_it_was_chosen(
    form: &SearchForm,
    words: &[String],
    plan: SearchPlan,
    query: Statement,
)
    requires
        call_ensures(SearchForm::do_search, (form, words), plan),
        call_ensures(Db::search, (words, form.scope_body), query),
    ensures
        plan is ByKeywords <==> !form.use_regex,
        plan is Failed <==> form.use_regex && exists|i: int|
            0 <= i < words@.len() && regex_build((#[trigger] words@[i])@, true) is Err,
        plan matches SearchPlan::ByKeywords { query: q } ==> q.sql@ == query.sql@ && contents(
            q.params@,
        ) == contents(query.params@),
        plan matches SearchPlan::ByRegex { search, rows } ==> {
            &&& search.sources().len() == words@.len()
            &&& forall|i: int|
                0 <= i < words@.len() ==> #[trigger] search.sources()[i] == words@[i]@
            &&& search.scope_body() == form.scope_body
            &&& search.hits().len() == 0
            &&& rows.sql@ == "SELECT id, path, file_name, subject, from_addr, to_addr, date, attachments, body_text FROM mails ORDER BY id LIMIT 200000"@
            &&& rows.params@.len() == 0
        },
{
    let sources = views(words@);
    if all_compile(sources) {
        assert forall|i: int| 0 <= i < words@.len() implies regex_build(
            (#[trigger] words@[i])@,
            true,
        ) is Ok by {
            assert(sources[i] == words@[i]@);
        }
    } else {
        let i = choose|i: int|
            0 <= i < sources.len() && !(regex_build(#[trigger] sources[i], true) is Ok);
        assert(regex_build(words@[i]@, true) is Err);
    }
    assert forall|i: int| 0 <= i < words@.len() implies #[trigger] sources[i] == words@[i]@ by {}
}

/// Law: the statements that bind nothing.
pub proof fn law_statements_that_bind_nothing(
    open: Statement,
    count: Statement,
    paths: Statement,
    known: Statement,
    rows: Statement,
)
    requires
        call_ensures(Db::open, (), open),
        call_ensures(Db::count, (), count),
        call_ensures(Db::all_paths, (), paths),
        call_ensures(Db::known_files, (), known),
        call_ensures(Db::regex_rows, (), rows),
    ensures
        open.sql@ == SCHEMA_SQL@ && open.params@.len() == 0,
        count.sql@ == "SELECT COUNT(*) FROM mails"@ && count.params@.len() == 0,
        paths.sql@ == "SELECT id, path FROM mails"@ && paths.params@.len() == 0,
        known.sql@ == "SELECT path, mtime FROM mails"@ && known.params@.len() == 0,
        rows.sql@ == "SELECT id, path, file_name, subject, from_addr, to_addr, date, attachments, body_text FROM mails ORDER BY id LIMIT 200000"@,
        rows.params@.len() == 0,
{
}

/// Law: a line that is logged is the last one. A log of fewer than five thousand
/// lines keeps all that it held, and a full one all but its first two thousand. A
/// new log and one that was emptied hold nothing.
pub proof fn law_logged_line_comes_last(line: &str, fresh: LogBuffer)
    requires
        call_ensures(LogBuffer::new, (), fresh),
    ensures
        fresh@.len() == 0,
        forall|b: &mut LogBuffer| #[trigger]
            call_ensures(LogBuffer::clear, (b,), ()) ==> final(b)@.len() == 0,
        forall|b: &mut LogBuffer| #[trigger]
            call_ensures(LogBuffer::log, (b, line), ()) ==> {
                &&& b@.len() < 5000 ==> final(b)@ == b@.push(line@)
                &&& b@.len() >= 5000 ==> final(b)@ == b@.skip(2000).push(line@)
            },
        forall|lines: &Vec<String>, b: LogBuffer| #[trigger]
            call_ensures(LogBuffer::lines, (&b,), lines) ==> views(lines@) == b@,
{
    assert forall|b: &mut LogBuffer| #[trigger]
        call_ensures(LogBuffer::log, (b, line), ()) implies {
        &&& b@.len() < 5000 ==> final(b)@ == b@.push(line@)
        &&& b@.len() >= 5000 ==> final(b)@ == b@.skip(2000).push(line@)
    } by {
        law_log_drops_its_oldest_lines(b@, line@);
    }
}

/// Law: a file that could not be read gives its reason. One that was read is no
/// mail exactly where the parser finds none in its bytes, or in the text that
/// they are in GBK where they are not valid UTF-8.
pub proof fn law_parse_file_reads_what_the_parser_finds(
    raw: Vec<u8>,
    reason: String,
    bytes: Seq<u8>,
    read: Result<ParsedMail, String>,
    unread: Result<ParsedMail, String>,
)
    requires
        bytes == if valid_utf8(raw@) {
            raw@
        } else {
            encode_utf8(gbk_decode(raw@))
        },
        call_ensures(parse_file, (Ok(raw),), read),
        call_ensures(parse_file, (Err(reason),), unread),
    ensures
        unread is Err && unread->Err_0@ == reason@,
        read is Ok <==> message_parse(bytes) is Some,
        raw@.len() == 0 ==> read is Err,
        read matches Err(e) ==> e@ == "无法解析为邮件"@,
        read matches Ok(m) ==> {
            &&& m.subject@ == text_or_empty(message_subject(bytes))
            &&& m.from@ == addr_list_text(message_from(bytes))
            &&& m.to@ == addr_list_text(message_to(bytes))
            &&& m.body_text@ == text_or_empty(message_body_text(bytes, 0))
            &&& m.body_html@ == text_or_empty(message_body_html(bytes, 0))
            &&& views(m.attachments@) == attachment_names_of(message_attachments(bytes))
        },
{
    if let Ok(m) = read {
        law_mail_is_what_the_parser_gives(raw@, bytes, m);
    }
}

/// Law: what is collected is what would be taken entry by entry, each once.
pub proof fn law_collected_files_are_taken_one_by_one(
    entries: &Vec<WalkEntry>,
    opts: &ScanOptions,
    kept: Vec<usize>,
    k: usize,
    taken: bool,
)
    requires
        k < entries@.len(),
        call_ensures(collect_files, (entries, opts), kept),
        call_ensures(takes_entry, (&entries@[k as int], opts), taken),
    ensures
        kept@.contains(k) <==> taken,
        kept@.no_duplicates(),
        taken ==> entries@[k as int].is_file,
        opts.include_exts@.len() == 0 || !opts.exclude_by_ext ==> taken
            == entries@[k as int].is_file,
{
    law_collected_files_are_those_taken(kept@, entries@, *opts, k);
}

/// Law: a file that cannot be looked up is not read. It is skipped exactly where
/// the scan is incremental and its time is known and recorded, and read with that
/// time otherwise.
pub proof fn law_file_is_skipped_where_its_time_is_recorded(
    opts: &ScanOptions,
    known: &KnownFiles,
    path: &str,
    meta: &Option<FileMeta>,
    r: FileVerdict,
)
    requires
        call_ensures(judge_file, (opts, known, path, meta), r),
    ensures
        meta is None <==> r == FileVerdict::Unreadable,
        meta matches Some(m) ==> {
            &&& r == FileVerdict::Unchanged <==> opts.incremental && m.modified is Some && known@
                .contains_key(path@) && known@[path@] == m.modified->Some_0 as i64
            &&& r matches FileVerdict::Read { mtime } ==> mtime == match m.modified {
                Some(seconds) => seconds as i64,
                None => 0i64,
            }
        },
{
}

/// Law: sorting puts the hits of the slice in the order of the mode: each stays as
/// it is, and none comes before one that ranks before it.
pub proof fn law_slice_is_sorted(mode: SortMode, hit: SearchHit)
    ensures
        forall|s: &mut [SearchHit]| #[trigger]
            call_ensures(SortMode::sort_hits, (s, mode), ()) ==> {
                &&& final(s)@.len() == s@.len()
                &&& final(s)@.contains(hit) <==> s@.contains(hit)
                &&& sorted_from(mode, s@, final(s)@)
            },
{
    assert forall|s: &mut [SearchHit]| #[trigger]
        call_ensures(SortMode::sort_hits, (s, mode), ()) implies {
        &&& final(s)@.len() == s@.len()
        &&& final(s)@.contains(hit) <==> s@.contains(hit)
        &&& sorted_from(mode, s@, final(s)@)
    } by {
        law_sorting_keeps_every_hit(mode, s@, final(s)@, hit);
    }
}

} // verus!
