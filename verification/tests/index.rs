use mail_search::db::{hit_from_row, readable, Db, IndexedMail, SearchHit, SqlValue, Statement};
use mail_search::search::RegexSearch;
use mail_search::session::{SearchForm, SearchPlan};
use rusqlite::functions::FunctionFlags;
use rusqlite::types::Value;
use rusqlite::Connection;

fn strings(list: &[&str]) -> Vec<String> {
    list.iter().map(|s| s.to_string()).collect()
}

fn values(statement: &Statement) -> Vec<Value> {
    statement
        .params
        .iter()
        .map(|p| match p {
            SqlValue::Text(s) => Value::Text(s.clone()),
            SqlValue::Integer(n) => Value::Integer(*n),
            SqlValue::Unsigned(n) => Value::Integer(*n as i64),
        })
        .collect()
}

fn open() -> Connection {
    let conn = Connection::open_in_memory().unwrap();
    conn.create_scalar_function("LOWER", 1, FunctionFlags::SQLITE_UTF8, |ctx| {
        let text: String = ctx.get(0)?;
        Ok(Db::lower(&text))
    })
    .unwrap();
    conn.execute_batch(&Db::open().sql).unwrap();
    conn
}

fn run(conn: &Connection, statement: &Statement) {
    conn.execute(&statement.sql, rusqlite::params_from_iter(values(statement))).unwrap();
}

fn one_text(conn: &Connection, statement: &Statement) -> Option<String> {
    conn.query_row(&statement.sql, rusqlite::params_from_iter(values(statement)), |r| r.get(0)).ok()
}

fn one_number(conn: &Connection, statement: &Statement) -> Option<i64> {
    conn.query_row(&statement.sql, rusqlite::params_from_iter(values(statement)), |r| r.get(0)).ok()
}

fn rows(conn: &Connection, statement: &Statement) -> Vec<SearchHit> {
    let mut prepared = conn.prepare(&statement.sql).unwrap();
    let found: Vec<Option<SearchHit>> = prepared
        .query_map(rusqlite::params_from_iter(values(statement)), |r| {
            Ok(hit_from_row(
                r.get(0).ok(),
                r.get(1).ok(),
                r.get(2).ok(),
                r.get(3).ok(),
                r.get(4).ok(),
                r.get(5).ok(),
                r.get(6).ok(),
                r.get(7).ok(),
            ))
        })
        .unwrap()
        .map(|x| x.unwrap())
        .collect();
    readable(found)
}

fn mail(path: &str, subject: &str, body: &str) -> IndexedMail {
    IndexedMail {
        path: path.to_string(),
        file_name: format!("{}.eml", path),
        size: 12,
        mtime: 34,
        indexed_at: 56,
        subject: subject.to_string(),
        from_addr: "alice@example.com".to_string(),
        to_addr: "bob@example.com".to_string(),
        date: "2024-03-07 09:05:01".to_string(),
        body_text: body.to_string(),
        attachments: "plan.pdf".to_string(),
    }
}

fn paths(hits: &Vec<SearchHit>) -> Vec<String> {
    hits.iter().map(|h| h.path.clone()).collect()
}

#[test]
fn stored_value_is_read_back() {
    let conn = open();
    assert_eq!(one_text(&conn, &Db::get_meta("last_root")), None);
    run(&conn, &Db::set_meta("last_root", "/a"));
    run(&conn, &Db::set_meta("last_root", "/b"));
    run(&conn, &Db::set_meta("other", "x"));
    assert_eq!(one_text(&conn, &Db::get_meta("last_root")), Some("/b".to_string()));
    assert_eq!(one_text(&conn, &Db::get_meta("other")), Some("x".to_string()));
}

#[test]
fn stored_mail_is_read_back() {
    let conn = open();
    assert_eq!(one_number(&conn, &Db::count()), Some(0));
    run(&conn, &Db::upsert(&mail("a", "S", "B")));
    assert_eq!(one_number(&conn, &Db::count()), Some(1));
    let hits = rows(&conn, &Db::search(&strings(&["s"]), false));
    assert_eq!(hits.len(), 1);
    assert_eq!(hits[0].path, "a");
    assert_eq!(hits[0].file_name, "a.eml");
    assert_eq!(hits[0].subject, "S");
    assert_eq!(hits[0].from_addr, "alice@example.com");
    assert_eq!(hits[0].to_addr, "bob@example.com");
    assert_eq!(hits[0].date, "2024-03-07 09:05:01");
    assert_eq!(hits[0].attachments, "plan.pdf");
    assert_eq!(hits[0].score, 0);
    assert_eq!(one_text(&conn, &Db::get_body(hits[0].id)), Some("B".to_string()));
}

#[test]
fn path_decides_whether_a_mail_is_new() {
    let conn = open();
    run(&conn, &Db::upsert(&mail("a", "old", "B")));
    run(&conn, &Db::upsert(&mail("b", "other", "B")));
    run(&conn, &Db::upsert(&mail("a", "new", "C")));
    assert_eq!(one_number(&conn, &Db::count()), Some(2));
    assert!(rows(&conn, &Db::search(&strings(&["old"]), true)).is_empty());
    assert_eq!(paths(&rows(&conn, &Db::search(&strings(&["new"]), true))), strings(&["a"]));
}

#[test]
fn paths_and_times_are_read() {
    let conn = open();
    run(&conn, &Db::upsert(&mail("a", "S", "B")));
    run(&conn, &Db::upsert(&mail("b", "S", "B")));
    let statement = Db::all_paths();
    let mut prepared = conn.prepare(&statement.sql).unwrap();
    let all: Vec<(i64, String)> = prepared
        .query_map(rusqlite::params_from_iter(values(&statement)), |r| Ok((r.get(0)?, r.get(1)?)))
        .unwrap()
        .map(|x| x.unwrap())
        .collect();
    assert_eq!(all, vec![(1, "a".to_string()), (2, "b".to_string())]);
    let statement = Db::known_files();
    let mut prepared = conn.prepare(&statement.sql).unwrap();
    let known: Vec<(String, i64)> = prepared
        .query_map(rusqlite::params_from_iter(values(&statement)), |r| Ok((r.get(0)?, r.get(1)?)))
        .unwrap()
        .map(|x| x.unwrap())
        .collect();
    assert_eq!(known, vec![("a".to_string(), 34), ("b".to_string(), 34)]);
}

#[test]
fn removed_mail_is_gone() {
    let conn = open();
    run(&conn, &Db::upsert(&mail("a", "S", "B")));
    run(&conn, &Db::upsert(&mail("b", "S", "B")));
    run(&conn, &Db::delete_by_id(1));
    assert_eq!(one_number(&conn, &Db::count()), Some(1));
    assert_eq!(one_text(&conn, &Db::get_body(1)), None);
    assert_eq!(one_text(&conn, &Db::get_body(2)), Some("B".to_string()));
}

#[test]
fn any_keyword_finds_whatever_the_case() {
    let conn = open();
    run(&conn, &Db::upsert(&mail("a", "Budget", "x")));
    run(&conn, &Db::upsert(&mail("b", "x", "the BUDGET")));
    run(&conn, &Db::upsert(&mail("c", "Holiday", "x")));
    let find = |words: &[&str], body: bool| paths(&rows(&conn, &Db::search(&strings(words), body)));
    assert_eq!(find(&["bUDGET"], false), strings(&["a"]));
    assert_eq!(find(&["bUDGET"], true), strings(&["a", "b"]));
    assert_eq!(find(&["budget", "holiday"], true), strings(&["a", "b", "c"]));
    assert_eq!(find(&["nothing"], true), Vec::<String>::new());
    for word in ["c.eml", "ALICE", "bob@", "2024-03", "Plan.PDF"] {
        assert!(find(&[word], false).contains(&"c".to_string()));
    }
}

#[test]
fn keywords_separated_by_a_space_find_either() {
    let conn = open();
    run(&conn, &Db::upsert(&mail("1", "foo", "")));
    run(&conn, &Db::upsert(&mail("2", "bar", "")));
    run(&conn, &Db::upsert(&mail("3", "baz", "")));
    let mut form = SearchForm::initial(None);
    form.keywords = "foo bar".to_string();
    let words = form.search_words().unwrap();
    match form.do_search(&words) {
        SearchPlan::ByKeywords { query } => {
            let found = rows(&conn, &query);
            assert_eq!(found.iter().map(|h| h.id).collect::<Vec<i64>>(), vec![1, 2]);
        }
        _ => panic!("no query"),
    }
}

#[test]
fn case_of_letters_beyond_ascii_does_not_matter() {
    let conn = open();
    run(&conn, &Db::upsert(&mail("a", "ÄRGER", "x")));
    run(&conn, &Db::upsert(&mail("b", "x", "viel ärger")));
    for word in ["Ä", "ä", "ärger", "ÄRGER"] {
        let found = rows(&conn, &Db::search(&strings(&[word]), true));
        assert_eq!(paths(&found), strings(&["a", "b"]));
    }
    assert_eq!(Db::lower("ÄRGER"), "ärger");
}

#[test]
fn keywords_with_the_same_lower_case_make_the_same_search() {
    let a = Db::search(&strings(&["Budget", "ÄB"]), true);
    let b = Db::search(&strings(&["bUDGET", "äb"]), true);
    assert_eq!(a.sql, b.sql);
    assert_eq!(values(&a), values(&b));
}

#[test]
fn text_of_a_search() {
    let s = Db::search(&strings(&["A", "b"]), false);
    assert_eq!(
        s.sql,
        "SELECT id, path, file_name, subject, from_addr, to_addr, date, attachments FROM mails WHERE (\
(LOWER(file_name) LIKE ?1 OR LOWER(subject) LIKE ?2 OR LOWER(from_addr) LIKE ?3 OR \
LOWER(to_addr) LIKE ?4 OR LOWER(date) LIKE ?5 OR LOWER(attachments) LIKE ?6) OR \
(LOWER(file_name) LIKE ?7 OR LOWER(subject) LIKE ?8 OR LOWER(from_addr) LIKE ?9 OR \
LOWER(to_addr) LIKE ?10 OR LOWER(date) LIKE ?11 OR LOWER(attachments) LIKE ?12)\
) ORDER BY id LIMIT 20000"
    );
    let t = Db::search(&strings(&["x"]), true);
    assert!(t.sql.ends_with(" OR LOWER(body_text) LIKE ?7)) ORDER BY id LIMIT 20000"));
}

#[test]
fn every_placeholder_has_its_value() {
    let words = strings(&["A", "b", "C"]);
    let s = Db::search(&words, true);
    let v = values(&s);
    assert_eq!(v.len(), 21);
    for (k, word) in words.iter().enumerate() {
        for j in 0..7 {
            assert_eq!(v[k * 7 + j], Value::Text(format!("%{}%", word.to_lowercase())));
        }
    }
    assert!(s.sql.contains("?21)") && !s.sql.contains("?22"));
}

#[test]
fn search_by_expressions_goes_through_the_rows() {
    let conn = open();
    run(&conn, &Db::upsert(&mail("a", "Flight 123", "x")));
    run(&conn, &Db::upsert(&mail("b", "x", "flight 77")));
    run(&conn, &Db::upsert(&mail("c", "x", "train")));
    let mut search: RegexSearch = Db::search_regex(&strings(&["flight \\d+"]), true).ok().unwrap();
    for row in rows(&conn, &Db::regex_rows()) {
        let body = if search.needs_body(&row) {
            one_text(&conn, &Db::get_body(row.id))
        } else {
            None
        };
        if !search.offer(row, body) {
            break;
        }
    }
    assert_eq!(paths(&search.into_hits()), strings(&["a", "b"]));
    assert!(Db::search_regex(&strings(&["["]), true).is_err());
}

#[test]
fn rows_that_cannot_be_read_are_dropped() {
    assert_eq!(readable(vec![Some(1), None, Some(3)]), vec![1, 3]);
    assert_eq!(readable(Vec::<Option<i64>>::new()), Vec::<i64>::new());
    let text = || Some("t".to_string());
    let full = hit_from_row(Some(5), text(), text(), text(), text(), text(), text(), text());
    assert_eq!(full.unwrap().id, 5);
    assert!(hit_from_row(None, text(), text(), text(), text(), text(), text(), text()).is_none());
    assert!(hit_from_row(Some(5), text(), text(), text(), text(), text(), text(), None).is_none());
    let conn = open();
    run(&conn, &Db::upsert(&mail("a", "S", "B")));
    run(&conn, &Db::upsert(&mail("b", "S", "B")));
    conn.execute("UPDATE mails SET subject=NULL WHERE path='a'", []).unwrap();
    assert_eq!(paths(&rows(&conn, &Db::regex_rows())), strings(&["b"]));
}
