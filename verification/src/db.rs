//! The mail index: its rows, the statements that read and write it, and the
//! two searches.
use vstd::prelude::*;

use crate::numerals::{digits, number};
use crate::search::{all_compile, first_failure, RegexSearch};
use crate::text::{join, joined, lemma_views_push, lowercase, views};

verus! {

/// A mail as the index stores it.
pub struct IndexedMail {
    pub path: String,
    pub file_name: String,
    pub size: u64,
    pub mtime: i64,
    pub indexed_at: i64,
    pub subject: String,
    pub from_addr: String,
    pub to_addr: String,
    pub date: String,
    pub body_text: String,
    pub attachments: String,
}

/// A mail that a search found.
pub struct SearchHit {
    pub id: i64,
    pub path: String,
    pub file_name: String,
    pub subject: String,
    pub from_addr: String,
    pub to_addr: String,
    pub date: String,
    pub attachments: String,
    /// How often the keywords occur in the mail.
    pub score: usize,
}

impl Clone for SearchHit {
    fn clone(&self) -> (r: SearchHit)
        ensures
            r == *self,
    {
        SearchHit {
            id: self.id,
            path: self.path.clone(),
            file_name: self.file_name.clone(),
            subject: self.subject.clone(),
            from_addr: self.from_addr.clone(),
            to_addr: self.to_addr.clone(),
            date: self.date.clone(),
            attachments: self.attachments.clone(),
            score: self.score,
        }
    }
}

/// A value bound to a placeholder of a statement.
pub enum SqlValue {
    Text(String),
    Integer(i64),
    Unsigned(u64),
}

/// What a bound value holds.
pub enum SqlContent {
    Text(Seq<char>),
    Integer(i64),
    Unsigned(u64),
}

impl View for SqlValue {
    type V = SqlContent;

    open spec fn view(&self) -> SqlContent {
        match *self {
            SqlValue::Text(s) => SqlContent::Text(s@),
            SqlValue::Integer(n) => SqlContent::Integer(n),
            SqlValue::Unsigned(n) => SqlContent::Unsigned(n),
        }
    }
}

/// An SQL statement with its bound values: the value at position `n` belongs to
/// the placeholder `?(n+1)`.
pub struct Statement {
    pub sql: String,
    pub params: Vec<SqlValue>,
}

/// What a list of bound values holds.
pub open spec fn contents(params: Seq<SqlValue>) -> Seq<SqlContent> {
    Seq::new(params.len(), |i: int| params[i]@)
}

/// One more bound value: what it holds comes last.
proof fn lemma_contents_push(params: Seq<SqlValue>, value: SqlValue)
    ensures
        contents(params.push(value)) == contents(params).push(value@),
{
    assert(contents(params.push(value)) =~= contents(params).push(value@));
}

/// The tables of the index, created where they are missing.
pub const SCHEMA_SQL: &'static str = "PRAGMA journal_mode=WAL;
             PRAGMA synchronous=NORMAL;
             CREATE TABLE IF NOT EXISTS meta (key TEXT PRIMARY KEY, value TEXT);
             CREATE TABLE IF NOT EXISTS mails (
                 id INTEGER PRIMARY KEY AUTOINCREMENT,
                 path TEXT UNIQUE NOT NULL,
                 file_name TEXT NOT NULL,
                 size INTEGER NOT NULL,
                 mtime INTEGER NOT NULL,
                 indexed_at INTEGER NOT NULL,
                 subject TEXT DEFAULT '',
                 from_addr TEXT DEFAULT '',
                 to_addr TEXT DEFAULT '',
                 date TEXT DEFAULT '',
                 body_text TEXT DEFAULT '',
                 attachments TEXT DEFAULT ''
             );
             CREATE INDEX IF NOT EXISTS idx_subject ON mails(subject);
             ";

/// Reads one value of the table `meta`.
pub const GET_META_SQL: &'static str = "SELECT value FROM meta WHERE key=?1";

/// Writes one value of the table `meta`.
pub const SET_META_SQL: &'static str = "INSERT INTO meta(key,value) VALUES(?1,?2)
             ON CONFLICT(key) DO UPDATE SET value=excluded.value";

/// Counts the mails.
pub const COUNT_SQL: &'static str = "SELECT COUNT(*) FROM mails";

/// Writes one mail. The path decides whether it is a new one.
pub const UPSERT_SQL: &'static str = "INSERT INTO mails(path,file_name,size,mtime,indexed_at,subject,from_addr,to_addr,date,body_text,attachments)
             VALUES(?1,?2,?3,?4,?5,?6,?7,?8,?9,?10,?11)
             ON CONFLICT(path) DO UPDATE SET
               file_name=excluded.file_name, size=excluded.size, mtime=excluded.mtime,
               indexed_at=excluded.indexed_at, subject=excluded.subject,
               from_addr=excluded.from_addr, to_addr=excluded.to_addr,
               date=excluded.date, body_text=excluded.body_text, attachments=excluded.attachments";

/// Reads the path of every mail.
pub const ALL_PATHS_SQL: &'static str = "SELECT id, path FROM mails";

/// Reads the recorded modification time of every mail.
pub const KNOWN_FILES_SQL: &'static str = "SELECT path, mtime FROM mails";

/// Removes one mail.
pub const DELETE_BY_ID_SQL: &'static str = "DELETE FROM mails WHERE id=?1";

/// Reads the body of one mail.
pub const GET_BODY_SQL: &'static str = "SELECT body_text FROM mails WHERE id=?1";

/// Reads the mails that a search by regular expressions goes through.
pub const REGEX_ROWS_SQL: &'static str = "SELECT id, path, file_name, subject, from_addr, to_addr, date, attachments, body_text FROM mails ORDER BY id LIMIT 200000";

/// How a search by keywords begins.
pub const SEARCH_HEAD: &'static str = "SELECT id, path, file_name, subject, from_addr, to_addr, date, attachments FROM mails WHERE (";

/// How a search by keywords ends.
pub const SEARCH_TAIL: &'static str = ") ORDER BY id LIMIT 20000";

/// The columns that a keyword is looked for in.
pub open spec fn search_columns(scope_body: bool) -> Seq<Seq<char>> {
    let header = seq![
        "file_name"@,
        "subject"@,
        "from_addr"@,
        "to_addr"@,
        "date"@,
        "attachments"@,
    ];
    if scope_body {
        header.push("body_text"@)
    } else {
        header
    }
}

/// The test of one column against the placeholder `n`.
pub open spec fn column_test(column: Seq<char>, n: nat) -> Seq<char> {
    "LOWER("@ + column + ") LIKE ?"@ + digits(n)
}

/// The tests of the first `count` columns against the placeholders that follow
/// `base`.
pub open spec fn column_tests(columns: Seq<Seq<char>>, base: nat, count: nat) -> Seq<Seq<char>> {
    Seq::new(count, |j: int| column_test(columns[j], (base + j + 1) as nat))
}

/// The condition of one keyword: some column holds it. Its placeholders are
/// those that follow `base`.
pub open spec fn keyword_condition(columns: Seq<Seq<char>>, base: nat) -> Seq<char> {
    "("@ + joined(column_tests(columns, base, columns.len()), " OR "@) + ")"@
}

/// The conditions of `count` keywords, each with its own placeholders.
pub open spec fn keyword_conditions(columns: Seq<Seq<char>>, count: nat) -> Seq<Seq<char>> {
    Seq::new(count, |k: int| keyword_condition(columns, (k * columns.len()) as nat))
}

/// The pattern that a column is compared with: the keyword in lower case with
/// anything before and behind it.
pub open spec fn like_pattern(keyword: Seq<char>) -> Seq<char> {
    "%"@ + lowercase(keyword) + "%"@
}

/// `n` times the same bound text.
pub open spec fn repeated(text: Seq<char>, n: nat) -> Seq<SqlContent> {
    Seq::new(n, |i: int| SqlContent::Text(text))
}

/// The bound values of a search: the pattern of each keyword, once per column.
pub open spec fn search_params(keywords: Seq<Seq<char>>, width: nat) -> Seq<SqlContent>
    decreases keywords.len(),
{
    if keywords.len() == 0 {
        Seq::empty()
    } else {
        search_params(keywords.drop_last(), width) + repeated(like_pattern(keywords.last()), width)
    }
}

/// The text of a search for `count` keywords.
pub open spec fn search_sql(columns: Seq<Seq<char>>, count: nat) -> Seq<char> {
    SEARCH_HEAD@ + joined(keyword_conditions(columns, count), " OR "@) + SEARCH_TAIL@
}

/// The columns that a keyword is looked for in.
fn search_column_list(scope_body: bool) -> (r: Vec<String>)
    ensures
        views(r@) == search_columns(scope_body),
{
    let mut out: Vec<String> = Vec::new();
    out.push("file_name".to_string());
    out.push("subject".to_string());
    out.push("from_addr".to_string());
    out.push("to_addr".to_string());
    out.push("date".to_string());
    out.push("attachments".to_string());
    if scope_body {
        out.push("body_text".to_string());
    }
    assert(views(out@) =~= search_columns(scope_body));
    out
}

/// The statements that the index is read and written with.
pub struct Db;

impl Db {
    /// Creates the tables where they are missing.
    pub fn open() -> (r: Statement)
        ensures
            r.sql@ == SCHEMA_SQL@,
            r.params@.len() == 0,
    {
        Statement { sql: SCHEMA_SQL.to_string(), params: Vec::new() }
    }

    /// Reads the value stored under `key`.
    pub fn get_meta(key: &str) -> (r: Statement)
        ensures
            r.sql@ == GET_META_SQL@,
            contents(r.params@) == seq![SqlContent::Text(key@)],
    {
        let mut params: Vec<SqlValue> = Vec::new();
        params.push(SqlValue::Text(key.to_string()));
        assert(contents(params@) =~= seq![SqlContent::Text(key@)]);
        Statement { sql: GET_META_SQL.to_string(), params }
    }

    /// Stores `value` under `key`, in place of what stood there.
    pub fn set_meta(key: &str, value: &str) -> (r: Statement)
        ensures
            r.sql@ == SET_META_SQL@,
            contents(r.params@) == seq![SqlContent::Text(key@), SqlContent::Text(value@)],
    {
        let mut params: Vec<SqlValue> = Vec::new();
        params.push(SqlValue::Text(key.to_string()));
        params.push(SqlValue::Text(value.to_string()));
        assert(contents(params@) =~= seq![SqlContent::Text(key@), SqlContent::Text(value@)]);
        Statement { sql: SET_META_SQL.to_string(), params }
    }

    /// Counts the mails.
    pub fn count() -> (r: Statement)
        ensures
            r.sql@ == COUNT_SQL@,
            r.params@.len() == 0,
    {
        Statement { sql: COUNT_SQL.to_string(), params: Vec::new() }
    }

    /// Stores a mail, in place of the one with the same path where there is one.
    pub fn upsert(m: &IndexedMail) -> (r: Statement)
        ensures
            r.sql@ == UPSERT_SQL@,
            contents(r.params@) == seq![
                SqlContent::Text(m.path@),
                SqlContent::Text(m.file_name@),
                SqlContent::Unsigned(m.size),
                SqlContent::Integer(m.mtime),
                SqlContent::Integer(m.indexed_at),
                SqlContent::Text(m.subject@),
                SqlContent::Text(m.from_addr@),
                SqlContent::Text(m.to_addr@),
                SqlContent::Text(m.date@),
                SqlContent::Text(m.body_text@),
                SqlContent::Text(m.attachments@),
            ],
    {
        let mut params: Vec<SqlValue> = Vec::new();
        params.push(SqlValue::Text(m.path.clone()));
        params.push(SqlValue::Text(m.file_name.clone()));
        params.push(SqlValue::Unsigned(m.size));
        params.push(SqlValue::Integer(m.mtime));
        params.push(SqlValue::Integer(m.indexed_at));
        params.push(SqlValue::Text(m.subject.clone()));
        params.push(SqlValue::Text(m.from_addr.clone()));
        params.push(SqlValue::Text(m.to_addr.clone()));
        params.push(SqlValue::Text(m.date.clone()));
        params.push(SqlValue::Text(m.body_text.clone()));
        params.push(SqlValue::Text(m.attachments.clone()));
        assert(contents(params@) =~= seq![
            SqlContent::Text(m.path@),
            SqlContent::Text(m.file_name@),
            SqlContent::Unsigned(m.size),
            SqlContent::Integer(m.mtime),
            SqlContent::Integer(m.indexed_at),
            SqlContent::Text(m.subject@),
            SqlContent::Text(m.from_addr@),
            SqlContent::Text(m.to_addr@),
            SqlContent::Text(m.date@),
            SqlContent::Text(m.body_text@),
            SqlContent::Text(m.attachments@),
        ]);
        Statement { sql: UPSERT_SQL.to_string(), params }
    }

    /// Reads the number and the path of every mail.
    pub fn all_paths() -> (r: Statement)
        ensures
            r.sql@ == ALL_PATHS_SQL@,
            r.params@.len() == 0,
    {
        Statement { sql: ALL_PATHS_SQL.to_string(), params: Vec::new() }
    }

    /// Reads the path and the recorded modification time of every mail.
    pub fn known_files() -> (r: Statement)
        ensures
            r.sql@ == KNOWN_FILES_SQL@,
            r.params@.len() == 0,
    {
        Statement { sql: KNOWN_FILES_SQL.to_string(), params: Vec::new() }
    }

    /// Removes the mail with the number `id`.
    pub fn delete_by_id(id: i64) -> (r: Statement)
        ensures
            r.sql@ == DELETE_BY_ID_SQL@,
            contents(r.params@) == seq![SqlContent::Integer(id)],
    {
        let mut params: Vec<SqlValue> = Vec::new();
        params.push(SqlValue::Integer(id));
        assert(contents(params@) =~= seq![SqlContent::Integer(id)]);
        Statement { sql: DELETE_BY_ID_SQL.to_string(), params }
    }

    /// Reads the body of the mail with the number `id`.
    pub fn get_body(id: i64) -> (r: Statement)
        ensures
            r.sql@ == GET_BODY_SQL@,
            contents(r.params@) == seq![SqlContent::Integer(id)],
    {
        let mut params: Vec<SqlValue> = Vec::new();
        params.push(SqlValue::Integer(id));
        assert(contents(params@) =~= seq![SqlContent::Integer(id)]);
        Statement { sql: GET_BODY_SQL.to_string(), params }
    }

    /// Reads the rows that a search by regular expressions goes through.
    pub fn regex_rows() -> (r: Statement)
        ensures
            r.sql@ == REGEX_ROWS_SQL@,
            r.params@.len() == 0,
    {
        Statement { sql: REGEX_ROWS_SQL.to_string(), params: Vec::new() }
    }

    /// Begins a search by regular expressions.
    pub fn search_regex(patterns: &[String], scope_body: bool) -> (r: Result<
        RegexSearch,
        String,
    >)
        ensures
            r is Ok <==> all_compile(views(patterns@)),
            match r {
                Ok(s) => {
                    &&& s.sources() == views(patterns@)
                    &&& s.scope_body() == scope_body
                    &&& s.hits() == Seq::<SearchHit>::empty()
                },
                Err(e) => e@ == first_failure(views(patterns@)),
            },
    {
        RegexSearch::compile(patterns, scope_body)
    }

    /// What the index has for `LOWER`: the text of a column in lower case, by the
    /// same mapping as the patterns that it is compared with.
    pub fn lower(text: &str) -> (r: String)
        ensures
            r@ == lowercase(text@),
    {
        text.to_lowercase()
    }

    /// Finds the mails in which some keyword occurs, whatever the case of its
    /// letters, in a header column or, with `scope_body`, in the body. The index
    /// has `Db::lower` for `LOWER`, so that both sides of a comparison are
    /// brought to lower case alike.
    pub fn search(keywords: &[String], scope_body: bool) -> (r: Statement)
        ensures
            r.sql@ == search_sql(search_columns(scope_body), keywords@.len()),
            contents(r.params@) == search_params(
                views(keywords@),
                search_columns(scope_body).len(),
            ),
    {
        let columns = search_column_list(scope_body);
        let ghost cols = search_columns(scope_body);
        let ghost width = cols.len();
        let mut params: Vec<SqlValue> = Vec::new();
        let mut conditions: Vec<String> = Vec::new();
        let mut n: u128 = 0;
        let mut k: usize = 0;
        assert(views(conditions@) =~= keyword_conditions(cols, 0));
        assert(views(keywords@).take(0) =~= Seq::<Seq<char>>::empty());
        assert(contents(params@) =~= Seq::<SqlContent>::empty());
        while k < keywords.len()
            invariant
                k <= keywords@.len(),
                cols == views(columns@),
                width == cols.len(),
                width <= 7,
                n == k * width,
                views(conditions@) == keyword_conditions(cols, k as nat),
                contents(params@) == search_params(views(keywords@).take(k as int), width),
            decreases keywords@.len() - k,
        {
            let ghost base = n as nat;
            let ghost params_before = contents(params@);
            let pattern = like_text(keywords[k].as_str());
            let mut tests: Vec<String> = Vec::new();
            let mut j: usize = 0;
            assert(k * width <= usize::MAX * 7) by (nonlinear_arith)
                requires
                    k <= usize::MAX,
                    width <= 7,
            ;
            assert(views(tests@) =~= column_tests(cols, base, 0));
            assert(contents(params@) =~= params_before + repeated(pattern@, 0));
            while j < columns.len()
                invariant
                    j <= columns@.len(),
                    cols == views(columns@),
                    columns@.len() <= 7,
                    base <= usize::MAX * 7,
                    n == base + j,
                    views(tests@) == column_tests(cols, base, j as nat),
                    contents(params@) == params_before + repeated(pattern@, j as nat),
                decreases columns@.len() - j,
            {
                n += 1;
                let test = test_column(columns[j].as_str(), n);
                let value = SqlValue::Text(pattern.clone());
                proof {
                    lemma_views_push(tests@, test);
                    lemma_contents_push(params@, value);
                    assert(views(tests@).push(test@) =~= column_tests(cols, base, (j + 1) as nat));
                    assert((params_before + repeated(pattern@, j as nat)).push(value@)
                        =~= params_before + repeated(pattern@, (j + 1) as nat));
                }
                tests.push(test);
                params.push(value);
                j += 1;
            }
            let mut condition = String::new();
            condition.push('(');
            let body = join(&tests, " OR ");
            condition.append(body.as_str());
            condition.push(')');
            proof {
                reveal_strlit("(");
                reveal_strlit(")");
                assert(condition@ =~= keyword_condition(cols, base));
                assert((k + 1) * width == k * width + width) by (nonlinear_arith);
                lemma_views_push(conditions@, condition);
                assert(views(conditions@).push(condition@) =~= keyword_conditions(
                    cols,
                    (k + 1) as nat,
                ));
            }
            conditions.push(condition);
            proof {
                let next = views(keywords@).take(k + 1);
                assert(next.drop_last() =~= views(keywords@).take(k as int));
                assert(next.last() == keywords@[k as int]@);
            }
            k += 1;
        }
        assert(views(keywords@).take(k as int) =~= views(keywords@));
        let mut sql = SEARCH_HEAD.to_string();
        let body = join(&conditions, " OR ");
        sql.append(body.as_str());
        sql.append(SEARCH_TAIL);
        Statement { sql, params }
    }
}

/// The rows that could be read, in their order.
pub open spec fn readable_of<T>(rows: Seq<Option<T>>) -> Seq<T>
    decreases rows.len(),
{
    if rows.len() == 0 {
        Seq::empty()
    } else {
        let before = readable_of(rows.drop_last());
        match rows.last() {
            Some(row) => before.push(row),
            None => before,
        }
    }
}

/// Keeps the rows that could be read, in their order.
pub fn readable<T>(rows: Vec<Option<T>>) -> (r: Vec<T>)
    ensures
        r@ == readable_of(rows@),
{
    let mut out: Vec<T> = Vec::new();
    for row in it: rows
        invariant
            it.seq() == rows@,
            out@ == readable_of(rows@.take(it.index() as int)),
    {
        assert(rows@.take(it.index() + 1).drop_last() =~= rows@.take(it.index() as int));
        if let Some(value) = row {
            out.push(value);
        }
    }
    assert(rows@.take(rows@.len() as int) =~= rows@);
    out
}

/// A hit from the columns of a row. There is none where a column could not be
/// read. Nothing has been counted yet.
pub fn hit_from_row(
    id: Option<i64>,
    path: Option<String>,
    file_name: Option<String>,
    subject: Option<String>,
    from_addr: Option<String>,
    to_addr: Option<String>,
    date: Option<String>,
    attachments: Option<String>,
) -> (r: Option<SearchHit>)
    ensures
        r is Some <==> id is Some && path is Some && file_name is Some && subject is Some
            && from_addr is Some && to_addr is Some && date is Some && attachments is Some,
        r matches Some(hit) ==> {
            &&& Some(hit.id) == id
            &&& Some(hit.path) == path
            &&& Some(hit.file_name) == file_name
            &&& Some(hit.subject) == subject
            &&& Some(hit.from_addr) == from_addr
            &&& Some(hit.to_addr) == to_addr
            &&& Some(hit.date) == date
            &&& Some(hit.attachments) == attachments
            &&& hit.score == 0
        },
{
    match (id, path, file_name, subject, from_addr, to_addr, date, attachments) {
        (
            Some(id),
            Some(path),
            Some(file_name),
            Some(subject),
            Some(from_addr),
            Some(to_addr),
            Some(date),
            Some(attachments),
        ) => Some(
            SearchHit {
                id,
                path,
                file_name,
                subject,
                from_addr,
                to_addr,
                date,
                attachments,
                score: 0,
            },
        ),
        _ => None,
    }
}

/// The pattern that a column is compared with.
fn like_text(keyword: &str) -> (r: String)
    ensures
        r@ == like_pattern(keyword@),
{
    let lower = keyword.to_lowercase();
    let mut out = "%".to_string();
    out.append(lower.as_str());
    out.append("%");
    out
}

/// The test of one column against the placeholder `n`.
fn test_column(column: &str, n: u128) -> (r: String)
    ensures
        r@ == column_test(column@, n as nat),
{
    let mut out = "LOWER(".to_string();
    out.append(column);
    out.append(") LIKE ?");
    let placeholder = number(n);
    out.append(placeholder.as_str());
    out
}

/// Law: every placeholder of a search has its value. The test of column `j` for
/// keyword `k` uses a placeholder of its own, which is one of those that have a
/// value, and its value is the pattern of keyword `k`.
pub proof fn law_search_placeholders_bound(
    keywords: Seq<Seq<char>>,
    columns: Seq<Seq<char>>,
    k: int,
    j: int,
)
    requires
        0 <= k < keywords.len(),
        0 <= j < columns.len(),
    ensures
        ({
            let width = columns.len();
            let base = (k * width) as nat;
            let params = search_params(keywords, width);
            &&& keyword_conditions(columns, keywords.len())[k] == keyword_condition(columns, base)
            &&& column_tests(columns, base, width)[j] == column_test(columns[j], base + j as nat + 1)
            &&& params.len() == keywords.len() * width
            &&& base + j < params.len()
            &&& params[base + j] == SqlContent::Text(like_pattern(keywords[k]))
        }),
{
    let width = columns.len();
    lemma_search_params_len(keywords, width);
    lemma_search_params_at(keywords, width, k, j);
    assert(0 <= k * width && k * width + width <= keywords.len() * width) by (nonlinear_arith)
        requires
            0 <= k < keywords.len(),
            0 <= width,
    ;
}

proof fn lemma_search_params_len(keywords: Seq<Seq<char>>, width: nat)
    ensures
        search_params(keywords, width).len() == keywords.len() * width,
    decreases keywords.len(),
{
    if keywords.len() > 0 {
        let n = keywords.drop_last().len();
        lemma_search_params_len(keywords.drop_last(), width);
        assert((n + 1) * width == n * width + width) by (nonlinear_arith);
    } else {
        assert(0 * width == 0);
    }
}

proof fn lemma_search_params_at(keywords: Seq<Seq<char>>, width: nat, k: int, j: int)
    requires
        0 <= k < keywords.len(),
        0 <= j < width,
    ensures
        search_params(keywords, width)[k * width + j] == SqlContent::Text(
            like_pattern(keywords[k]),
        ),
    decreases keywords.len(),
{
    let init = keywords.drop_last();
    let n = init.len();
    lemma_search_params_len(init, width);
    if k == n {
        assert(search_params(keywords, width)[n * width + j] == repeated(
            like_pattern(keywords.last()),
            width,
        )[j]) by {
            assert(0 <= n * width) by (nonlinear_arith);
        }
    } else {
        lemma_search_params_at(init, width, k, j);
        assert(0 <= k * width && k * width + width <= n * width) by (nonlinear_arith)
            requires
                0 <= k < n,
                0 <= width,
        ;
    }
}

/// The two texts that the index compares to find a keyword in a column.
pub open spec fn compared(column: Seq<char>, keyword: Seq<char>) -> (Seq<char>, Seq<char>) {
    (lowercase(column), like_pattern(keyword))
}

/// Law: what is compared to find a keyword in a column depends on neither's
/// upper and lower case.
pub proof fn law_comparison_ignores_case(
    column: Seq<char>,
    other_column: Seq<char>,
    keyword: Seq<char>,
    other_keyword: Seq<char>,
)
    requires
        lowercase(column) == lowercase(other_column),
        lowercase(keyword) == lowercase(other_keyword),
    ensures
        compared(column, keyword) == compared(other_column, other_keyword),
{
}

/// Law: keywords that are the same in lower case make the same search.
pub proof fn law_search_ignores_case(
    a: Seq<Seq<char>>,
    b: Seq<Seq<char>>,
    columns: Seq<Seq<char>>,
)
    requires
        a.len() == b.len(),
        forall|i: int| 0 <= i < a.len() ==> lowercase(#[trigger] a[i]) == lowercase(b[i]),
    ensures
        search_sql(columns, a.len()) == search_sql(columns, b.len()),
        search_params(a, columns.len()) == search_params(b, columns.len()),
    decreases a.len(),
{
    if a.len() > 0 {
        assert(lowercase(a[a.len() - 1]) == lowercase(b[a.len() - 1]));
        law_search_ignores_case(a.drop_last(), b.drop_last(), columns);
    }
}

/// Law: a keyword is looked for in the file name, the subject, the sender, the
/// recipients, the date and the attachments whether or not bodies are searched,
/// and in the body exactly where they are.
pub proof fn law_columns_of_a_search(scope_body: bool, column: Seq<char>)
    ensures
        search_columns(scope_body).contains(column) <==> {
            ||| column == "file_name"@
            ||| column == "subject"@
            ||| column == "from_addr"@
            ||| column == "to_addr"@
            ||| column == "date"@
            ||| column == "attachments"@
            ||| scope_body && column == "body_text"@
        },
        search_columns(scope_body).len() == if scope_body {
            7nat
        } else {
            6nat
        },
        search_columns(true).take(6) == search_columns(false),
{
    let columns = search_columns(scope_body);
    assert(columns[0] == "file_name"@);
    assert(columns[1] == "subject"@);
    assert(columns[2] == "from_addr"@);
    assert(columns[3] == "to_addr"@);
    assert(columns[4] == "date"@);
    assert(columns[5] == "attachments"@);
    if scope_body {
        assert(columns[6] == "body_text"@);
    }
    assert(search_columns(true).take(6) =~= search_columns(false));
}

proof fn lemma_column_tests_grow(columns: Seq<Seq<char>>, base: nat, n: nat)
    ensures
        joined(column_tests(columns, base, 1), " OR "@) == column_test(columns[0], base + 1),
        n > 0 ==> joined(column_tests(columns, base, n + 1), " OR "@) == joined(
            column_tests(columns, base, n),
            " OR "@,
        ) + " OR "@ + column_test(columns[n as int], base + n + 1),
{
    let one = column_tests(columns, base, 1);
    assert(one.drop_last() =~= Seq::<Seq<char>>::empty());
    let more = column_tests(columns, base, n + 1);
    assert(more.drop_last() =~= column_tests(columns, base, n));
}

/// Law: a search for keywords asks for the mails of which some keyword is in some
/// column, each compared with a placeholder of its own.
pub proof fn law_search_text(count: nat, scope_body: bool, k: int)
    requires
        0 <= k < count,
    ensures
        search_sql(search_columns(scope_body), count) == "SELECT id, path, file_name, subject, from_addr, to_addr, date, attachments FROM mails WHERE ("@ + joined(
            keyword_conditions(search_columns(scope_body), count),
            " OR "@,
        ) + ") ORDER BY id LIMIT 20000"@,
        keyword_conditions(search_columns(scope_body), count).len() == count,
        scope_body ==> keyword_conditions(search_columns(scope_body), count)[k] == ({
            let base = 7 * k;
            "("@ + (("LOWER("@ + "file_name"@ + ") LIKE ?"@ + digits((base + 1) as nat)) + " OR "@ + ("LOWER("@ + "subject"@ + ") LIKE ?"@ + digits((base + 2) as nat)) + " OR "@ + ("LOWER("@ + "from_addr"@ + ") LIKE ?"@ + digits((base + 3) as nat)) + " OR "@ + ("LOWER("@ + "to_addr"@ + ") LIKE ?"@ + digits((base + 4) as nat)) + " OR "@ + ("LOWER("@ + "date"@ + ") LIKE ?"@ + digits((base + 5) as nat)) + " OR "@ + ("LOWER("@ + "attachments"@ + ") LIKE ?"@ + digits((base + 6) as nat)) + " OR "@ + ("LOWER("@ + "body_text"@ + ") LIKE ?"@ + digits((base + 7) as nat))) + ")"@
        }),
        !scope_body ==> keyword_conditions(search_columns(scope_body), count)[k] == ({
            let base = 6 * k;
            "("@ + (("LOWER("@ + "file_name"@ + ") LIKE ?"@ + digits((base + 1) as nat)) + " OR "@ + ("LOWER("@ + "subject"@ + ") LIKE ?"@ + digits((base + 2) as nat)) + " OR "@ + ("LOWER("@ + "from_addr"@ + ") LIKE ?"@ + digits((base + 3) as nat)) + " OR "@ + ("LOWER("@ + "to_addr"@ + ") LIKE ?"@ + digits((base + 4) as nat)) + " OR "@ + ("LOWER("@ + "date"@ + ") LIKE ?"@ + digits((base + 5) as nat)) + " OR "@ + ("LOWER("@ + "attachments"@ + ") LIKE ?"@ + digits((base + 6) as nat))) + ")"@
        }),
{
    let columns = search_columns(scope_body);
    law_columns_of_a_search(scope_body, "date"@);
    let base = (k * columns.len()) as nat;
    if scope_body {
        assert(k * 7 == 7 * k);
    } else {
        assert(k * 6 == 6 * k);
    }
    lemma_column_tests_grow(columns, base, 1);
    lemma_column_tests_grow(columns, base, 2);
    lemma_column_tests_grow(columns, base, 3);
    lemma_column_tests_grow(columns, base, 4);
    lemma_column_tests_grow(columns, base, 5);
    lemma_column_tests_grow(columns, base, 6);
}

/// Law: every value of a search is the keyword in lower case with anything before
/// and behind it, once for each column.
pub proof fn law_search_values(
    keywords: Seq<Seq<char>>,
    scope_body: bool,
    params: Seq<SqlValue>,
    k: int,
    j: int,
)
    requires
        contents(params) == search_params(keywords, search_columns(scope_body).len()),
        0 <= k < keywords.len(),
        0 <= j < if scope_body {
            7int
        } else {
            6int
        },
    ensures
        ({
            let width = if scope_body {
                7int
            } else {
                6int
            };
            &&& params.len() == width * keywords.len()
            &&& 0 <= width * k + j < params.len()
            &&& params[width * k + j] matches SqlValue::Text(s)
            &&& s@ == seq!['%'] + lowercase(keywords[k]) + seq!['%']
        }),
{
    law_columns_of_a_search(scope_body, "date"@);
    let columns = search_columns(scope_body);
    law_search_placeholders_bound(keywords, columns, k, j);
    reveal_strlit("%");
    assert("%"@ =~= seq!['%']);
    let at = k * columns.len() + j;
    assert(contents(params)[at] == params[at]@);
    if scope_body {
        assert(k * 7 == 7 * k);
        assert(keywords.len() * 7 == 7 * keywords.len());
    } else {
        assert(k * 6 == 6 * k);
        assert(keywords.len() * 6 == 6 * keywords.len());
    }
}

/// Law: a search for no keywords has no condition and binds no values.
pub proof fn law_search_for_nothing(columns: Seq<Seq<char>>, width: nat)
    ensures
        search_params(Seq::empty(), width).len() == 0,
        search_sql(columns, 0)
            == "SELECT id, path, file_name, subject, from_addr, to_addr, date, attachments FROM mails WHERE ("@
            + ") ORDER BY id LIMIT 20000"@,
{
    assert(keyword_conditions(columns, 0) =~= Seq::<Seq<char>>::empty());
    assert(SEARCH_HEAD@ + joined(Seq::<Seq<char>>::empty(), " OR "@) =~= SEARCH_HEAD@);
}

/// Law: the bound values keep their places, and each holds what was bound.
pub proof fn law_bound_values_keep_places(params: Seq<SqlValue>, i: int)
    requires
        0 <= i < params.len(),
    ensures
        contents(params).len() == params.len(),
        params[i] matches SqlValue::Text(s) ==> contents(params)[i] == SqlContent::Text(s@),
        params[i] matches SqlValue::Integer(n) ==> contents(params)[i] == SqlContent::Integer(n),
        params[i] matches SqlValue::Unsigned(n) ==> contents(params)[i] == SqlContent::Unsigned(n),
{
}

/// Law: a row is kept exactly where it could be read, and the rows keep their
/// order.
pub proof fn law_readable_rows_in_order<T>(a: Seq<Option<T>>, row: Option<T>, b: Seq<Option<T>>)
    ensures
        readable_of(Seq::<Option<T>>::empty()).len() == 0,
        readable_of(a + seq![row] + b) == readable_of(a) + match row {
            Some(value) => seq![value],
            None => Seq::empty(),
        } + readable_of(b),
    decreases b.len(),
{
    let all = a + seq![row] + b;
    let here = match row {
        Some(value) => seq![value],
        None => Seq::empty(),
    };
    if b.len() == 0 {
        assert(all.drop_last() =~= a);
        assert(readable_of(all) =~= readable_of(a) + here + readable_of(b));
    } else {
        let init = b.drop_last();
        law_readable_rows_in_order(a, row, init);
        assert(all.drop_last() =~= a + seq![row] + init);
        assert(readable_of(all) =~= readable_of(a) + here + readable_of(b));
    }
}

/// Law: the texts of the statements.
pub proof fn law_texts_of_the_statements()
    ensures
        SCHEMA_SQL@ == "PRAGMA journal_mode=WAL;
             PRAGMA synchronous=NORMAL;
             CREATE TABLE IF NOT EXISTS meta (key TEXT PRIMARY KEY, value TEXT);
             CREATE TABLE IF NOT EXISTS mails (
                 id INTEGER PRIMARY KEY AUTOINCREMENT,
                 path TEXT UNIQUE NOT NULL,
                 file_name TEXT NOT NULL,
                 size INTEGER NOT NULL,
                 mtime INTEGER NOT NULL,
                 indexed_at INTEGER NOT NULL,
                 subject TEXT DEFAULT '',
                 from_addr TEXT DEFAULT '',
                 to_addr TEXT DEFAULT '',
                 date TEXT DEFAULT '',
                 body_text TEXT DEFAULT '',
                 attachments TEXT DEFAULT ''
             );
             CREATE INDEX IF NOT EXISTS idx_subject ON mails(subject);
             "@,
        GET_META_SQL@ == "SELECT value FROM meta WHERE key=?1"@,
        SET_META_SQL@ == "INSERT INTO meta(key,value) VALUES(?1,?2)
             ON CONFLICT(key) DO UPDATE SET value=excluded.value"@,
        COUNT_SQL@ == "SELECT COUNT(*) FROM mails"@,
        UPSERT_SQL@ == "INSERT INTO mails(path,file_name,size,mtime,indexed_at,subject,from_addr,to_addr,date,body_text,attachments)
             VALUES(?1,?2,?3,?4,?5,?6,?7,?8,?9,?10,?11)
             ON CONFLICT(path) DO UPDATE SET
               file_name=excluded.file_name, size=excluded.size, mtime=excluded.mtime,
               indexed_at=excluded.indexed_at, subject=excluded.subject,
               from_addr=excluded.from_addr, to_addr=excluded.to_addr,
               date=excluded.date, body_text=excluded.body_text, attachments=excluded.attachments"@,
        ALL_PATHS_SQL@ == "SELECT id, path FROM mails"@,
        KNOWN_FILES_SQL@ == "SELECT path, mtime FROM mails"@,
        DELETE_BY_ID_SQL@ == "DELETE FROM mails WHERE id=?1"@,
        GET_BODY_SQL@ == "SELECT body_text FROM mails WHERE id=?1"@,
        REGEX_ROWS_SQL@ == "SELECT id, path, file_name, subject, from_addr, to_addr, date, attachments, body_text FROM mails ORDER BY id LIMIT 200000"@,
{
}

} // verus!
