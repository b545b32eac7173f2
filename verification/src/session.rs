//! The window's state: what has been typed and chosen, the log, the scan that
//! runs, and the lines that are shown.
use vstd::prelude::*;

use crate::db::{
    contents, search_columns, search_params, search_sql, Db, SearchHit, Statement, REGEX_ROWS_SQL,
};
use crate::numerals::{digits, number, signed, signed_number};
use crate::scanner::{
    extensions_in, parse_extensions, rejection_text, summary_text, ScanOptions, ScanProgress,
};
use crate::search::{all_compile, first_failure, keywords_in, parse_keywords, RegexSearch};
use crate::sort::SortMode;
use crate::text::{
    join, joined, law_standing_is_letter_by_letter, opt_view, same_text, stands_at, starts_with,
    text_or_empty, trim, trimmed, views,
};
use crate::viewer::or_instead;

verus! {

/// What has been typed and chosen.
pub struct SearchForm {
    pub root_dir: String,
    /// The extensions to index, separated by commas.
    pub ext_include: String,
    /// Whether files with other extensions are left out.
    pub exclude_by_ext: bool,
    /// Whether bodies are searched.
    pub scope_body: bool,
    /// Whether the keywords are regular expressions.
    pub use_regex: bool,
    pub sort_mode: SortMode,
    pub keywords: String,
    /// Whether files that have not changed since the last scan are skipped.
    pub use_last_db: bool,
}

/// What comes of asking for a scan.
pub enum ScanRequest {
    /// No scan: the reason is reported.
    Refused { message: String },
    /// A scan with these options. The log begins anew with these lines.
    Accepted { opts: ScanOptions, log: Vec<String> },
}

/// What is said where no directory has been given.
pub const NO_ROOT: &'static str = "[提示] 请先选择目录";

/// What is said where the directory does not exist.
pub const NO_SUCH_ROOT: &'static str = "[错误] 目录不存在";

/// What is said where no keyword has been given.
pub const NO_KEYWORDS: &'static str = "[提示] 请输入关键词（多个用逗号或空格分隔）";

/// The lines with which the log of a scan begins.
pub open spec fn opening_lines(
    root: Seq<char>,
    exts: Seq<Seq<char>>,
    exclude_by_ext: bool,
) -> Seq<Seq<char>> {
    let first = "=== 开始扫描 "@ + root + " ==="@;
    let second = if exts.len() > 0 {
        "扩展名过滤: ["@ + joined(exts, ", "@) + "]，排除列表外文件: "@ + if exclude_by_ext {
            "是"@
        } else {
            "否"@
        }
    } else {
        "扩展名过滤: 未设置（所有文件都尝试解析）"@
    };
    seq![first, second]
}

impl SearchForm {
    /// What the form holds at first: the directory of the last scan, where there
    /// was one, and the usual choices.
    pub fn initial(last_root: Option<String>) -> (r: SearchForm)
        ensures
            r.root_dir@ == text_or_empty(opt_view(last_root)),
            r.ext_include@ == "eml"@,
            r.exclude_by_ext,
            r.scope_body,
            !r.use_regex,
            r.sort_mode == SortMode::TimeDesc,
            r.keywords@ == Seq::<char>::empty(),
            r.use_last_db,
    {
        let root_dir = match last_root {
            Some(dir) => dir,
            None => String::new(),
        };
        SearchForm {
            root_dir,
            ext_include: "eml".to_string(),
            exclude_by_ext: true,
            scope_body: true,
            use_regex: false,
            sort_mode: SortMode::TimeDesc,
            keywords: String::new(),
            use_last_db: true,
        }
    }

    /// The directory to scan, without white space at its ends, where one has
    /// been given.
    pub fn scan_root(&self) -> (r: Option<String>)
        ensures
            match r {
                Some(root) => root@ == trimmed(self.root_dir@) && root@.len() > 0,
                None => trimmed(self.root_dir@).len() == 0,
            },
    {
        let root = trim(self.root_dir.as_str());
        if root.as_str().is_empty() {
            None
        } else {
            Some(root)
        }
    }

    /// Asks for a scan. It is refused where no directory has been given or where
    /// what was given is none.
    pub fn start_scan(&self, root_is_dir: bool) -> (r: ScanRequest)
        ensures
            match r {
                ScanRequest::Refused { message } => {
                    ||| trimmed(self.root_dir@).len() == 0 && message@ == NO_ROOT@
                    ||| trimmed(self.root_dir@).len() > 0 && !root_is_dir && message@
                        == NO_SUCH_ROOT@
                },
                ScanRequest::Accepted { opts, log } => {
                    &&& trimmed(self.root_dir@).len() > 0
                    &&& root_is_dir
                    &&& opts.root@ == trimmed(self.root_dir@)
                    &&& views(opts.include_exts@) == extensions_in(self.ext_include@)
                    &&& opts.exclude_by_ext == self.exclude_by_ext
                    &&& opts.incremental == self.use_last_db
                    &&& views(log@) == opening_lines(
                        opts.root@,
                        views(opts.include_exts@),
                        self.exclude_by_ext,
                    )
                },
            },
    {
        let root = match self.scan_root() {
            Some(root) => root,
            None => return ScanRequest::Refused { message: NO_ROOT.to_string() },
        };
        if !root_is_dir {
            return ScanRequest::Refused { message: NO_SUCH_ROOT.to_string() };
        }
        let exts = parse_extensions(self.ext_include.as_str());
        let mut log: Vec<String> = Vec::new();
        let mut first = "=== 开始扫描 ".to_string();
        first.append(root.as_str());
        first.append(" ===");
        log.push(first);
        let mut second: String;
        if exts.len() > 0 {
            second = "扩展名过滤: [".to_string();
            let list = join(&exts, ", ");
            second.append(list.as_str());
            second.append("]，排除列表外文件: ");
            if self.exclude_by_ext {
                second.append("是");
            } else {
                second.append("否");
            }
        } else {
            second = "扩展名过滤: 未设置（所有文件都尝试解析）".to_string();
        }
        log.push(second);
        assert(views(log@) =~= opening_lines(root@, views(exts@), self.exclude_by_ext));
        let opts = ScanOptions {
            root,
            include_exts: exts,
            exclude_by_ext: self.exclude_by_ext,
            incremental: self.use_last_db,
        };
        ScanRequest::Accepted { opts, log }
    }

    /// The keywords or the regular expressions to search for, where some have been
    /// given.
    pub fn search_words(&self) -> (r: Option<Vec<String>>)
        ensures
            match r {
                Some(words) => {
                    &&& views(words@) == keywords_in(self.keywords@, self.use_regex)
                    &&& words@.len() > 0
                },
                None => keywords_in(self.keywords@, self.use_regex).len() == 0,
            },
    {
        let words = parse_keywords(self.keywords.as_str(), self.use_regex);
        assert(views(words@).len() == words@.len());
        if words.len() == 0 {
            None
        } else {
            Some(words)
        }
    }

    /// Plans the search for the words: by regular expressions where that has
    /// been chosen, and by keywords otherwise. The plan is a failure where an
    /// expression does not compile.
    pub fn do_search(&self, words: &[String]) -> (r: SearchPlan)
        ensures
            match r {
                SearchPlan::ByRegex { search, rows } => {
                    &&& self.use_regex && all_compile(views(words@))
                    &&& search.sources() == views(words@)
                    &&& search.scope_body() == self.scope_body
                    &&& search.hits() == Seq::<SearchHit>::empty()
                    &&& rows.sql@ == REGEX_ROWS_SQL@
                    &&& rows.params@.len() == 0
                },
                SearchPlan::ByKeywords { query } => {
                    let columns = search_columns(self.scope_body);
                    &&& !self.use_regex
                    &&& query.sql@ == search_sql(columns, words@.len())
                    &&& contents(query.params@) == search_params(views(words@), columns.len())
                },
                SearchPlan::Failed { message } => {
                    &&& self.use_regex && !all_compile(views(words@))
                    &&& message@ == search_failed_text(first_failure(views(words@)))
                },
            },
    {
        if self.use_regex {
            match Db::search_regex(words, self.scope_body) {
                Ok(search) => SearchPlan::ByRegex { search, rows: Db::regex_rows() },
                Err(e) => SearchPlan::Failed { message: search_failed(e.as_str()) },
            }
        } else {
            SearchPlan::ByKeywords { query: Db::search(words, self.scope_body) }
        }
    }
}

/// How a search is carried out.
pub enum SearchPlan {
    /// The rows are offered to the search, one after the other.
    ByRegex { search: RegexSearch, rows: Statement },
    /// The hits are the rows of the query.
    ByKeywords { query: Statement },
    /// The search cannot be carried out: the reason is reported.
    Failed { message: String },
}

/// What is said of a search that failed.
pub open spec fn search_failed_text(reason: Seq<char>) -> Seq<char> {
    "[错误] 检索失败: "@ + reason
}

/// What is said of a search that failed.
pub fn search_failed(reason: &str) -> (r: String)
    ensures
        r@ == search_failed_text(reason@),
{
    let mut out = "[错误] 检索失败: ".to_string();
    out.append(reason);
    out
}

/// What is said where the index cannot be opened for a search.
pub fn index_failed(reason: &str) -> (r: String)
    ensures
        r@ == "[错误] 打开索引库失败: "@ + reason@,
{
    let mut out = "[错误] 打开索引库失败: ".to_string();
    out.append(reason);
    out
}

/// What is said of a mail that was handed to the mail program.
pub fn opened_message(hit: &SearchHit) -> (r: String)
    ensures
        r@ == "已用 Outlook/默认邮件程序打开: "@ + hit.file_name@,
{
    let mut out = "已用 Outlook/默认邮件程序打开: ".to_string();
    out.append(hit.file_name.as_str());
    out
}

/// The most lines that the log holds.
pub const MAX_LOG_LINES: usize = 5000;

/// How many lines the log drops when it is full.
pub const DROPPED_LOG_LINES: usize = 2000;

/// The log once one more line has been written: where it grows too long, its
/// oldest lines are dropped.
pub open spec fn log_after(lines: Seq<Seq<char>>, line: Seq<char>) -> Seq<Seq<char>> {
    let all = lines.push(line);
    if all.len() > MAX_LOG_LINES {
        all.skip(DROPPED_LOG_LINES as int)
    } else {
        all
    }
}

/// The lines that are reported to the user.
pub struct LogBuffer {
    lines: Vec<String>,
}

impl View for LogBuffer {
    type V = Seq<Seq<char>>;

    closed spec fn view(&self) -> Seq<Seq<char>> {
        views(self.lines@)
    }
}

impl LogBuffer {
    /// The log never holds more than `MAX_LOG_LINES` lines.
    pub open spec fn wf(self) -> bool {
        self@.len() <= MAX_LOG_LINES
    }

    /// An empty log.
    pub fn new() -> (r: LogBuffer)
        ensures
            r@ == Seq::<Seq<char>>::empty(),
            r.wf(),
    {
        let r = LogBuffer { lines: Vec::new() };
        assert(r@ =~= Seq::<Seq<char>>::empty());
        r
    }

    /// Writes a line.
    pub fn log(&mut self, line: &str)
        ensures
            final(self)@ == log_after(old(self)@, line@),
            old(self).wf() ==> final(self).wf(),
    {
        let ghost before = self@;
        self.lines.push(line.to_string());
        assert(self@ =~= before.push(line@));
        if self.lines.len() > MAX_LOG_LINES {
            let rest = self.lines.split_off(DROPPED_LOG_LINES);
            self.lines = rest;
            assert(self@ =~= before.push(line@).skip(DROPPED_LOG_LINES as int));
        }
    }

    /// Empties the log.
    pub fn clear(&mut self)
        ensures
            final(self)@ == Seq::<Seq<char>>::empty(),
            final(self).wf(),
    {
        self.lines = Vec::new();
        assert(self@ =~= Seq::<Seq<char>>::empty());
    }

    /// The lines of the log, the oldest first.
    pub fn lines(&self) -> (r: &Vec<String>)
        ensures
            views(r@) == self@,
    {
        &self.lines
    }
}

/// The log once all the lines have been written, one after the other.
pub open spec fn log_of_run(written: Seq<Seq<char>>) -> Seq<Seq<char>>
    decreases written.len(),
{
    if written.len() == 0 {
        Seq::empty()
    } else {
        log_after(log_of_run(written.drop_last()), written.last())
    }
}

/// Law: the log is always the end of all that was written. It holds everything
/// until it is full, never more than `MAX_LOG_LINES` lines, and never drops more
/// than it must.
pub proof fn law_log_is_the_end_of_what_was_written(written: Seq<Seq<char>>)
    ensures
        log_of_run(written).len() <= MAX_LOG_LINES,
        written.len() <= MAX_LOG_LINES ==> log_of_run(written) == written,
        written.len() > MAX_LOG_LINES ==> log_of_run(written).len() > MAX_LOG_LINES
            - DROPPED_LOG_LINES,
        exists|n: int|
            0 <= n <= written.len() && log_of_run(written) == #[trigger] written.skip(n),
    decreases written.len(),
{
    if written.len() == 0 {
        assert(written.skip(0) =~= written);
    } else {
        let init = written.drop_last();
        law_log_is_the_end_of_what_was_written(init);
        let n = choose|n: int|
            0 <= n <= init.len() && log_of_run(init) == #[trigger] init.skip(n);
        let all = log_of_run(init).push(written.last());
        assert(all =~= written.skip(n));
        if all.len() > MAX_LOG_LINES {
            assert(all.skip(DROPPED_LOG_LINES as int) =~= written.skip(n + DROPPED_LOG_LINES));
        } else if written.len() <= MAX_LOG_LINES {
            assert(all =~= written);
        }
    }
}

/// Whether a scan runs.
#[derive(Clone, Copy, Debug, PartialEq, Eq, Structural)]
pub enum ScanState {
    Idle,
    Running,
    /// The last scan is over, and whether it went through.
    Done(bool),
}

/// The line that ends the log of a scan.
pub open spec fn closing_line(ok: bool) -> Seq<char> {
    if ok {
        "=== 扫描完成 ==="@
    } else {
        "=== 扫描已取消/结束 ==="@
    }
}

/// Looks after a scan: where it runs and its worker has come to an end, it is
/// over. What the worker said is `finished`; one that broke down said `false`.
/// A line to log comes with the end, and the mails are to be counted again.
pub fn poll_scan(state: ScanState, finished: Option<bool>) -> (r: (ScanState, Option<String>))
    ensures
        match (state, finished) {
            (ScanState::Running, Some(ok)) => r.0 == ScanState::Done(ok) && opt_view(r.1) == Some(
                closing_line(ok),
            ),
            _ => r.0 == state && r.1 is None,
        },
{
    match (state, finished) {
        (ScanState::Running, Some(ok)) => {
            let line = if ok {
                "=== 扫描完成 ===".to_string()
            } else {
                "=== 扫描已取消/结束 ===".to_string()
            };
            (ScanState::Done(ok), Some(line))
        },
        _ => (state, None),
    }
}

/// What kind of line of the log this is.
#[derive(Clone, Copy, Debug, PartialEq, Eq, Structural)]
pub enum LineKind {
    Error,
    Skipped,
    Milestone,
    Plain,
}

/// What kind of line of the log this is, by how it begins.
pub open spec fn line_kind_of(line: Seq<char>) -> LineKind {
    if stands_at(line, 0, "[错误"@) {
        LineKind::Error
    } else if stands_at(line, 0, "[跳过"@) {
        LineKind::Skipped
    } else if stands_at(line, 0, "==="@) || stands_at(line, 0, "完成"@) {
        LineKind::Milestone
    } else {
        LineKind::Plain
    }
}

/// Tells what kind of line of the log this is.
pub fn line_kind(line: &str) -> (r: LineKind)
    ensures
        r == line_kind_of(line@),
{
    if starts_with(line, "[错误") {
        LineKind::Error
    } else if starts_with(line, "[跳过") {
        LineKind::Skipped
    } else if starts_with(line, "===") || starts_with(line, "完成") {
        LineKind::Milestone
    } else {
        LineKind::Plain
    }
}

/// Law: what is reported has the kind that it is shown as. Failures are errors,
/// rejected files are skipped, and where a scan begins and ends are milestones.
pub proof fn law_reports_have_their_kind(
    a: Seq<char>,
    b: Seq<char>,
    exts: Seq<Seq<char>>,
    yes: bool,
    progress: ScanProgress,
    count: i64,
)
    ensures
        line_kind_of(search_failed_text(a)) == LineKind::Error,
        line_kind_of(NO_SUCH_ROOT@) == LineKind::Error,
        line_kind_of(rejection_text(a, b)) == LineKind::Skipped,
        line_kind_of(opening_lines(a, exts, yes)[0]) == LineKind::Milestone,
        line_kind_of(closing_line(yes)) == LineKind::Milestone,
        line_kind_of(summary_text(progress, count)) == LineKind::Milestone,
{
    reveal_strlit("[错误");
    reveal_strlit("[跳过");
    reveal_strlit("===");
    reveal_strlit("完成");
    reveal_strlit("[错误] 检索失败: ");
    reveal_strlit("[错误] 目录不存在");
    reveal_strlit("[跳过] ");
    reveal_strlit("=== 开始扫描 ");
    reveal_strlit("=== 扫描完成 ===");
    reveal_strlit("=== 扫描已取消/结束 ===");
    reveal_strlit("完成：扫描 ");
    assert(search_failed_text(a).subrange(0, 3) =~= "[错误"@);
    assert(NO_SUCH_ROOT@.subrange(0, 3) =~= "[错误"@);
    let rejected = rejection_text(a, b);
    assert(rejected.subrange(0, 3) =~= "[跳过"@);
    assert(rejected.subrange(0, 3)[1] != "[错误"@[1]);
    let first = opening_lines(a, exts, yes)[0];
    assert(first.subrange(0, 3) =~= "==="@);
    assert(first.subrange(0, 3)[0] != "[错误"@[0]);
    let last = closing_line(yes);
    assert(last.subrange(0, 3) =~= "==="@);
    assert(last.subrange(0, 3)[0] != "[错误"@[0]);
    let summary = summary_text(progress, count);
    assert(summary.subrange(0, 2) =~= "完成"@);
    assert(summary.subrange(0, 3)[0] != "[错误"@[0]);
}

/// The line of the result list for a hit.
pub fn result_line(hit: &SearchHit) -> (r: String)
    ensures
        r@ == hit.date@ + "  |  "@ + hit.from_addr@ + "  |  "@ + hit.subject@,
{
    let mut out = hit.date.clone();
    out.append("  |  ");
    out.append(hit.from_addr.as_str());
    out.append("  |  ");
    out.append(hit.subject.as_str());
    out
}

/// The title of the result list.
pub fn results_title(count: usize) -> (r: String)
    ensures
        r@ == "检索结果 ("@ + digits(count as nat) + " 条)"@,
{
    let mut out = "检索结果 (".to_string();
    let n = number(count as u128);
    out.append(n.as_str());
    out.append(" 条)");
    out
}

/// The title over the mail that is shown.
pub fn mail_title(hit: &SearchHit) -> (r: String)
    ensures
        r@ == or_instead(hit.subject@, "(无主题)"@),
{
    if hit.subject.as_str().is_empty() {
        "(无主题)".to_string()
    } else {
        hit.subject.clone()
    }
}

/// The size of the index, in words.
pub fn index_size(count: i64) -> (r: String)
    ensures
        r@ == "库内 "@ + signed(count as int) + " 封"@,
{
    let mut out = "库内 ".to_string();
    let n = signed_number(count);
    out.append(n.as_str());
    out.append(" 封");
    out
}

/// How far a scan has come, in numbers.
pub fn progress_numbers(done: usize, total: usize) -> (r: String)
    ensures
        r@ == digits(done as nat) + "/"@ + digits(total as nat),
{
    let mut out = number(done as u128);
    out.append("/");
    let t = number(total as u128);
    out.append(t.as_str());
    out
}

/// The file that the program was called to test, if it was.
pub fn file_to_test(args: &Vec<String>) -> (r: Option<String>)
    ensures
        opt_view(r) == if args@.len() >= 3 && args@[1]@ == "--test-parse"@ {
            Some(args@[2]@)
        } else {
            None
        },
{
    if args.len() >= 3 && same_text(args[1].as_str(), "--test-parse") {
        Some(args[2].clone())
    } else {
        None
    }
}

/// Law: the log of a scan begins with the directory, and then says which files
/// are taken.
pub proof fn law_first_lines_of_a_scan(root: Seq<char>, exts: Seq<Seq<char>>, yes: bool)
    ensures
        opening_lines(root, exts, yes).len() == 2,
        opening_lines(root, exts, yes)[0] == "=== 开始扫描 "@ + root + " ==="@,
        exts.len() == 0 ==> opening_lines(root, exts, yes)[1]
            == "扩展名过滤: 未设置（所有文件都尝试解析）"@,
        exts.len() > 0 ==> opening_lines(root, exts, yes)[1] == "扩展名过滤: ["@ + joined(
            exts,
            seq![',', ' '],
        ) + "]，排除列表外文件: "@ + if yes {
            "是"@
        } else {
            "否"@
        },
{
    reveal_strlit(", ");
    assert(", "@ =~= seq![',', ' ']);
}

/// Law: what is said when something cannot be done, and when a scan is over.
pub proof fn law_messages_in_words(reason: Seq<char>)
    ensures
        NO_ROOT@ == "[提示] 请先选择目录"@,
        NO_SUCH_ROOT@ == "[错误] 目录不存在"@,
        NO_KEYWORDS@ == "[提示] 请输入关键词（多个用逗号或空格分隔）"@,
        search_failed_text(reason) == "[错误] 检索失败: "@ + reason,
        closing_line(true) == "=== 扫描完成 ==="@,
        closing_line(false) == "=== 扫描已取消/结束 ==="@,
{
}

/// Law: a line is added at the end of the log. Only a log of five thousand lines
/// grows too long by that, and loses its first two thousand.
pub proof fn law_log_drops_its_oldest_lines(lines: Seq<Seq<char>>, line: Seq<char>)
    ensures
        lines.len() < 5000 ==> log_after(lines, line) == lines.push(line),
        lines.len() >= 5000 ==> log_after(lines, line) == lines.skip(2000).push(line),
        log_after(lines, line).last() == line,
{
    if lines.len() >= 5000 {
        assert(lines.push(line).skip(2000) =~= lines.skip(2000).push(line));
    }
}

/// Law: the log of a run is that of all but the last line, with that line added.
pub proof fn law_log_grows_line_by_line(written: Seq<Seq<char>>, line: Seq<char>)
    ensures
        log_of_run(Seq::empty()).len() == 0,
        log_of_run(written.push(line)) == log_after(log_of_run(written), line),
{
    assert(written.push(line).drop_last() =~= written);
}

/// Law: the first characters of a line decide its kind.
pub proof fn law_kinds_of_lines(line: Seq<char>)
    ensures
        line_kind_of(line) == LineKind::Error <==> line.len() >= 3 && line[0] == '[' && line[1]
            == '错' && line[2] == '误',
        line_kind_of(line) == LineKind::Skipped <==> line.len() >= 3 && line[0] == '[' && line[1]
            == '跳' && line[2] == '过',
        line_kind_of(line) == LineKind::Milestone <==> {
            ||| line.len() >= 3 && line[0] == '=' && line[1] == '=' && line[2] == '='
            ||| line.len() >= 2 && line[0] == '完' && line[1] == '成'
        },
{
    reveal_strlit("[错误");
    reveal_strlit("[跳过");
    reveal_strlit("===");
    reveal_strlit("完成");
    assert("[错误"@ =~= seq!['[', '错', '误']);
    assert("[跳过"@ =~= seq!['[', '跳', '过']);
    assert("==="@ =~= seq!['=', '=', '=']);
    assert("完成"@ =~= seq!['完', '成']);
    law_standing_is_letter_by_letter(line, 0, "[错误"@);
    law_standing_is_letter_by_letter(line, 0, "[跳过"@);
    law_standing_is_letter_by_letter(line, 0, "==="@);
    law_standing_is_letter_by_letter(line, 0, "完成"@);
}

} // verus!
