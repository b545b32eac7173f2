use mail_search::open_file::{
    open_or_reveal, open_with_mail_client, open_with_system, reveal_in_explorer, Platform,
};
use mail_search::scanner::{
    collect_files, index_file, judge_file, missing_ids, outcome_of, parse_extensions, parse_progress, progress_line,
    run_scan, takes_entry, FileMeta, FileOutcome, FilePresence, FileVerdict, Harvest, KnownFiles, ScanEvent,
    ScanOptions, ScanProgress, ScanTask, WalkEntry,
};
use mail_search::session::{
    file_to_test, index_failed, index_size, line_kind, mail_title, opened_message, poll_scan,
    progress_numbers, result_line, results_title, search_failed, LineKind, LogBuffer, ScanRequest,
    ScanState, SearchForm, SearchPlan, NO_KEYWORDS, NO_ROOT, NO_SUCH_ROOT,
};
use mail_search::db::{IndexedMail, SearchHit};
use mail_search::sort::SortMode;

fn strings(list: &[&str]) -> Vec<String> {
    list.iter().map(|s| s.to_string()).collect()
}

fn options(exts: &[&str], exclude_by_ext: bool, incremental: bool) -> ScanOptions {
    ScanOptions {
        root: "/mail".to_string(),
        include_exts: strings(exts),
        exclude_by_ext,
        incremental,
    }
}

fn entry(is_file: bool, extension: Option<&str>) -> WalkEntry {
    WalkEntry { is_file, names: Vec::new(), extension: extension.map(|s| s.to_string()) }
}

fn entry_at(path: &str) -> WalkEntry {
    WalkEntry {
        is_file: true,
        names: path.split('/').map(|n| n.as_bytes().to_vec()).collect(),
        extension: None,
    }
}

fn indexed(path: &str) -> FileOutcome {
    let text = String::new;
    FileOutcome::Indexed {
        mail: IndexedMail {
            path: path.to_string(),
            file_name: text(),
            size: 0,
            mtime: 0,
            indexed_at: 0,
            subject: text(),
            from_addr: text(),
            to_addr: text(),
            date: text(),
            body_text: text(),
            attachments: text(),
        },
    }
}

fn sample_hit() -> SearchHit {
    SearchHit {
        id: 1,
        path: "/m/a.eml".to_string(),
        file_name: "a.eml".to_string(),
        subject: "S".to_string(),
        from_addr: "F".to_string(),
        to_addr: "T".to_string(),
        date: "D".to_string(),
        attachments: String::new(),
        score: 0,
    }
}

#[test]
fn extensions_are_brought_to_one_form() {
    assert_eq!(parse_extensions(" .EML,msg;; ..Txt eml"), strings(&["eml", "msg", "txt", "eml"]));
    assert_eq!(parse_extensions(" , . ;"), Vec::<String>::new());
    assert_eq!(parse_extensions("tar.gz"), strings(&["tar.gz"]));
}

#[test]
fn extensions_have_no_leading_dot() {
    for ext in parse_extensions("...a .b,c ; .d.e") {
        assert!(!ext.is_empty() && !ext.starts_with('.'));
    }
}

#[test]
fn only_listed_extensions_are_taken() {
    let opts = options(&["eml"], true, false);
    assert!(takes_entry(&entry(true, Some("eml")), &opts));
    assert!(takes_entry(&entry(true, Some("EML")), &opts));
    assert!(!takes_entry(&entry(true, Some("txt")), &opts));
    assert!(!takes_entry(&entry(true, None), &opts));
    assert!(!takes_entry(&entry(false, Some("eml")), &opts));
}

#[test]
fn without_filter_every_file_is_taken() {
    for opts in [options(&[], true, false), options(&["eml"], false, false)] {
        assert!(takes_entry(&entry(true, Some("txt")), &opts));
        assert!(takes_entry(&entry(true, None), &opts));
        assert!(!takes_entry(&entry(false, Some("eml")), &opts));
    }
}

#[test]
fn files_are_collected_in_order() {
    let entries = vec![
        entry(false, None),
        entry(true, Some("eml")),
        entry(true, Some("txt")),
        entry(true, Some("Eml")),
    ];
    assert_eq!(collect_files(&entries, &options(&["eml"], true, false)), vec![1, 3]);
    assert_eq!(collect_files(&entries, &options(&[], true, false)), vec![1, 2, 3]);
    assert_eq!(collect_files(&Vec::new(), &options(&[], true, false)), Vec::<usize>::new());
}

#[test]
fn collected_files_ascend_in_the_order_of_their_paths() {
    let paths = ["b", "a.eml", "a/z", "a/b/c", "a", "é", "Z", "a/b", "a-1", "b/a", "10", "9"];
    let entries: Vec<WalkEntry> = paths.iter().map(|p| entry_at(p)).collect();
    let kept = collect_files(&entries, &options(&[], true, false));
    let mine: Vec<&str> = kept.iter().map(|i| paths[*i]).collect();
    let mut theirs: Vec<std::path::PathBuf> = paths.iter().map(std::path::PathBuf::from).collect();
    theirs.sort();
    let theirs: Vec<&str> = theirs.iter().map(|p| p.to_str().unwrap()).collect();
    assert_eq!(mine, theirs);
    assert_eq!(mine[..3], ["10", "9", "Z"]);
    let twice = vec![entry_at("x"), entry_at("w"), entry_at("x")];
    assert_eq!(collect_files(&twice, &options(&[], true, false)), vec![1, 0, 2]);
}

#[test]
fn only_unchanged_files_are_skipped() {
    let mut known = KnownFiles::new();
    known.record("/m/a".to_string(), 10);
    known.record("/m/a".to_string(), 20);
    known.record("/m/z".to_string(), 0);
    let meta = |modified: Option<u64>| Some(FileMeta { size: 1, modified });
    let inc = options(&[], true, true);
    assert_eq!(judge_file(&inc, &known, "/m/a", &meta(Some(20))), FileVerdict::Unchanged);
    assert_eq!(judge_file(&inc, &known, "/m/a", &meta(Some(10))), FileVerdict::Read { mtime: 10 });
    assert_eq!(judge_file(&inc, &known, "/m/b", &meta(Some(20))), FileVerdict::Read { mtime: 20 });
    assert_eq!(judge_file(&inc, &known, "/m/z", &meta(None)), FileVerdict::Read { mtime: 0 });
    assert_eq!(judge_file(&inc, &known, "/m/z", &meta(Some(0))), FileVerdict::Unchanged);
    assert_eq!(judge_file(&inc, &known, "/m/b", &meta(None)), FileVerdict::Read { mtime: 0 });
    assert_eq!(judge_file(&inc, &known, "/m/a", &None), FileVerdict::Unreadable);
    let full = options(&[], true, false);
    assert_eq!(judge_file(&full, &known, "/m/a", &meta(Some(20))), FileVerdict::Read { mtime: 20 });
}

#[test]
fn indexed_file_is_read_again_once_changed() {
    let opts = options(&[], true, true);
    let mut known = KnownFiles::new();
    let meta = |t: u64| Some(FileMeta { size: 1, modified: Some(t) });
    let mtime = match judge_file(&opts, &known, "/m/a", &meta(5)) {
        FileVerdict::Read { mtime } => mtime,
        _ => panic!("not read"),
    };
    known.record("/m/a".to_string(), mtime);
    assert_eq!(judge_file(&opts, &known, "/m/a", &meta(5)), FileVerdict::Unchanged);
    assert_eq!(judge_file(&opts, &known, "/m/a", &meta(6)), FileVerdict::Read { mtime: 6 });
}

#[test]
fn progress_is_read_back() {
    assert_eq!(progress_line(200, 1234), "进度 200/1234");
    for (a, b) in [(0usize, 0usize), (1, 10), (usize::MAX, 7)] {
        assert_eq!(parse_progress(&progress_line(a, b)), Some((a, b)));
    }
    assert_eq!(parse_progress("进度 1"), None);
    assert_eq!(parse_progress("进度 /1"), None);
    assert_eq!(parse_progress("进度 1/2/3"), None);
    assert_eq!(parse_progress("进度 +1/02"), Some((1, 2)));
    assert_eq!(parse_progress(" 进度 1/2"), None);
    assert_eq!(parse_progress("[跳过] x"), None);
}

#[test]
fn progress_is_reported_now_and_then() {
    let mut p = ScanProgress::new();
    let mut lines = Vec::new();
    for _ in 0..450 {
        if let Some(line) = p.start_file(450) {
            lines.push(line);
        }
        assert!(p.finish_file(&indexed("a")).is_none());
    }
    assert_eq!(lines, strings(&["进度 200/450", "进度 400/450", "进度 450/450"]));
    assert_eq!(p.scanned, 450);
    assert_eq!(p.indexed, 450);
}

#[test]
fn first_rejections_are_reported() {
    let mut p = ScanProgress::new();
    let mut lines = Vec::new();
    for i in 0..30 {
        p.start_file(100);
        let outcome = if i < 5 {
            FileOutcome::Unreadable
        } else {
            FileOutcome::Rejected { path: format!("/m/{}", i), reason: "no".to_string() }
        };
        if let Some(line) = p.finish_file(&outcome) {
            lines.push(line);
        }
    }
    assert_eq!(lines.len(), 15);
    assert_eq!(lines[0], "[跳过] /m/5: no");
    assert_eq!(lines[14], "[跳过] /m/19: no");
    assert_eq!(p.failed, 30);
}

#[test]
fn every_file_is_counted_once() {
    let mut p = ScanProgress::new();
    let outcomes = [
        FileOutcome::Unreadable,
        FileOutcome::Unchanged,
        FileOutcome::Unchanged,
        indexed("a"),
        FileOutcome::Rejected { path: String::new(), reason: String::new() },
    ];
    for o in outcomes.iter() {
        p.start_file(5);
        p.finish_file(o);
    }
    assert_eq!((p.scanned, p.indexed, p.failed, p.skipped), (5, 1, 2, 2));
    assert!(!p.done && !p.cancelled);
    p.close(true);
    assert!(p.done && p.cancelled);
    assert_eq!(p.scanned, 5);
}

#[test]
fn outcome_of_a_file_that_was_read() {
    match outcome_of("/m/a", Err("no".to_string())) {
        FileOutcome::Rejected { path, reason } => assert_eq!((path.as_str(), reason.as_str()), ("/m/a", "no")),
        _ => panic!("not rejected"),
    }
    let raw = b"Subject: s\r\n\r\nbody\r\n".to_vec();
    match outcome_of("/m/a", index_file("/m/a", "a", 1, 2, Ok(raw))) {
        FileOutcome::Indexed { mail } => assert_eq!(mail.subject, "s"),
        _ => panic!("not indexed"),
    }
}

#[test]
fn as_many_mails_are_stored_as_counted() {
    let outcomes = vec![
        Some(indexed("a")),
        None,
        Some(FileOutcome::Unchanged),
        Some(indexed("b")),
        Some(FileOutcome::Unreadable),
        None,
    ];
    let h = Harvest::gather(outcomes);
    let paths: Vec<&str> = h.mails().iter().map(|m| m.path.as_str()).collect();
    assert_eq!(paths, vec!["a", "b"]);
    let p = h.progress();
    assert_eq!((p.scanned, p.indexed, p.failed, p.skipped), (4, 2, 1, 1));
    match h.parsed(true) {
        ScanEvent::Parsed { mails, cancelled } => assert!(mails == 2 && cancelled),
        _ => panic!("another event"),
    }
    assert!(Harvest::gather(Vec::new()).mails().is_empty());
}

#[test]
fn missing_files_are_found() {
    let row = |id: i64, exists: bool| FilePresence { id, exists };
    assert_eq!(missing_ids(&vec![row(4, false), row(2, true), row(9, false)]), vec![4, 9]);
    assert_eq!(missing_ids(&Vec::new()), Vec::<i64>::new());
}

#[test]
fn scan_goes_from_task_to_task() {
    let opts = options(&["eml", "msg"], true, true);
    let p = ScanProgress { scanned: 9, indexed: 4, failed: 2, skipped: 3, done: false, cancelled: false };
    let s = run_scan(&opts, &p, &ScanEvent::Requested { db_path: "x.db".to_string() });
    assert_eq!(s.log, strings(&["打开索引库: x.db"]));
    assert_eq!(s.next, ScanTask::OpenIndex);
    let s = run_scan(&opts, &p, &ScanEvent::Opened { error: None });
    assert_eq!(s.log, strings(&["扫描目录: /mail"]));
    assert_eq!(s.next, ScanTask::WalkRoot);
    let s = run_scan(&opts, &p, &ScanEvent::Walked { total: 9 });
    assert_eq!(s.log, strings(&["发现 9 个候选文件（扩展名过滤: eml,msg （排除列表外））"]));
    assert_eq!(s.next, ScanTask::ParseFiles);
    let s = run_scan(&opts, &p, &ScanEvent::Parsed { mails: 4, cancelled: false });
    assert_eq!(s.log, strings(&["写入数据库 4 条…"]));
    assert_eq!(s.next, ScanTask::WriteMails);
    let s = run_scan(&opts, &p, &ScanEvent::Written { cancelled: false });
    assert!(s.log.is_empty());
    assert_eq!(s.next, ScanTask::RemoveMissing);
    let s = run_scan(&opts, &p, &ScanEvent::Removed { count: 2 });
    assert_eq!(s.log, strings(&["清理已删除文件 2 条"]));
    assert_eq!(s.next, ScanTask::CountMails);
    let s = run_scan(&opts, &p, &ScanEvent::Counted { held: 40, cancelled: false });
    assert_eq!(s.log, strings(&["完成：扫描 9，新索引 4，跳过(未变) 3，失败 2。库内共 40 条。"]));
    assert_eq!(s.next, ScanTask::Finish(true));
}

#[test]
fn scan_without_filter_says_so() {
    let p = ScanProgress::new();
    let s = run_scan(&options(&[], true, true), &p, &ScanEvent::Walked { total: 0 });
    assert_eq!(s.log, strings(&["发现 0 个候选文件（扩展名过滤: 无（全部文件））"]));
    let s = run_scan(&options(&["eml"], false, true), &p, &ScanEvent::Walked { total: 1 });
    assert_eq!(s.log, strings(&["发现 1 个候选文件（扩展名过滤: eml （列表外也尝试解析））"]));
    let s = run_scan(&options(&[], true, true), &p, &ScanEvent::Removed { count: 0 });
    assert!(s.log.is_empty());
}

#[test]
fn scan_without_index_fails() {
    let p = ScanProgress::new();
    let e = ScanEvent::Opened { error: Some("locked".to_string()) };
    let s = run_scan(&options(&[], true, true), &p, &e);
    assert_eq!(s.log, strings(&["[错误] 打开索引库失败: locked"]));
    assert_eq!(s.next, ScanTask::Finish(false));
}

#[test]
fn cancelled_scan_still_stores_but_removes_nothing() {
    let p = ScanProgress::new();
    let opts = options(&[], true, true);
    let s = run_scan(&opts, &p, &ScanEvent::Parsed { mails: 1, cancelled: true });
    assert_eq!(s.log, strings(&["[已取消]", "写入数据库 1 条…"]));
    assert_eq!(s.next, ScanTask::WriteMails);
    let s = run_scan(&opts, &p, &ScanEvent::Written { cancelled: true });
    assert_eq!(s.next, ScanTask::CountMails);
    let s = run_scan(&options(&[], true, false), &p, &ScanEvent::Written { cancelled: false });
    assert_eq!(s.next, ScanTask::CountMails);
    let s = run_scan(&opts, &p, &ScanEvent::Counted { held: 0, cancelled: true });
    assert_eq!(s.next, ScanTask::Finish(false));
}

#[test]
fn scan_comes_to_its_end() {
    let p = ScanProgress::new();
    for incremental in [false, true] {
        for cancelled in [false, true] {
            let opts = options(&[], true, incremental);
            let mut event = ScanEvent::Requested { db_path: String::new() };
            let mut tasks = 0;
            loop {
                tasks += 1;
                event = match run_scan(&opts, &p, &event).next {
                    ScanTask::OpenIndex => ScanEvent::Opened { error: None },
                    ScanTask::WalkRoot => ScanEvent::Walked { total: 0 },
                    ScanTask::ParseFiles => ScanEvent::Parsed { mails: 0, cancelled },
                    ScanTask::WriteMails => ScanEvent::Written { cancelled },
                    ScanTask::RemoveMissing => ScanEvent::Removed { count: 0 },
                    ScanTask::CountMails => ScanEvent::Counted { held: 0, cancelled },
                    ScanTask::Finish(ok) => {
                        assert_eq!(ok, !cancelled);
                        break;
                    }
                };
            }
            assert_eq!(tasks, if incremental && !cancelled { 7 } else { 6 });
        }
    }
}

#[test]
fn form_at_first() {
    let f = SearchForm::initial(None);
    assert_eq!(f.root_dir, "");
    assert_eq!(f.ext_include, "eml");
    assert!(f.exclude_by_ext && f.scope_body && !f.use_regex && f.use_last_db);
    assert_eq!(f.sort_mode, SortMode::TimeDesc);
    assert_eq!(f.keywords, "");
    assert_eq!(SearchForm::initial(Some("/mail".to_string())).root_dir, "/mail");
}

#[test]
fn scan_needs_a_directory() {
    let mut f = SearchForm::initial(Some("  ".to_string()));
    assert!(f.scan_root().is_none());
    match f.start_scan(true) {
        ScanRequest::Refused { message } => assert_eq!(message, NO_ROOT),
        _ => panic!("accepted"),
    }
    f.root_dir = " /mail ".to_string();
    assert_eq!(f.scan_root(), Some("/mail".to_string()));
    match f.start_scan(false) {
        ScanRequest::Refused { message } => assert_eq!(message, NO_SUCH_ROOT),
        _ => panic!("accepted"),
    }
}

#[test]
fn scan_takes_its_options_from_the_form() {
    let mut f = SearchForm::initial(Some(" /mail ".to_string()));
    f.ext_include = "EML, .msg".to_string();
    f.use_last_db = false;
    match f.start_scan(true) {
        ScanRequest::Accepted { opts, log } => {
            assert_eq!(opts.root, "/mail");
            assert_eq!(opts.include_exts, strings(&["eml", "msg"]));
            assert!(opts.exclude_by_ext && !opts.incremental);
            assert_eq!(
                log,
                strings(&["=== 开始扫描 /mail ===", "扩展名过滤: [eml, msg]，排除列表外文件: 是"])
            );
        }
        _ => panic!("refused"),
    }
    f.exclude_by_ext = false;
    match f.start_scan(true) {
        ScanRequest::Accepted { log, .. } => {
            assert_eq!(log[1], "扩展名过滤: [eml, msg]，排除列表外文件: 否")
        }
        _ => panic!("refused"),
    }
    f.ext_include = String::new();
    match f.start_scan(true) {
        ScanRequest::Accepted { opts, log } => {
            assert!(opts.include_exts.is_empty());
            assert_eq!(log[1], "扩展名过滤: 未设置（所有文件都尝试解析）");
        }
        _ => panic!("refused"),
    }
}

#[test]
fn search_is_planned_from_the_form() {
    let mut f = SearchForm::initial(None);
    assert!(f.search_words().is_none());
    assert_eq!(NO_KEYWORDS, "[提示] 请输入关键词（多个用逗号或空格分隔）");
    f.keywords = "a, b".to_string();
    let words = f.search_words().unwrap();
    assert_eq!(words, strings(&["a", "b"]));
    match f.do_search(&words) {
        SearchPlan::ByKeywords { query } => assert_eq!(query.params.len(), 14),
        _ => panic!("no query"),
    }
    f.scope_body = false;
    match f.do_search(&words) {
        SearchPlan::ByKeywords { query } => assert_eq!(query.params.len(), 12),
        _ => panic!("no query"),
    }
    f.use_regex = true;
    match f.do_search(&words) {
        SearchPlan::ByRegex { search, rows } => {
            assert!(!search.needs_body(&sample_hit()));
            assert!(rows.sql.ends_with("ORDER BY id LIMIT 200000"));
            assert!(rows.params.is_empty());
        }
        _ => panic!("no expressions"),
    }
    match f.do_search(&strings(&["*"])) {
        SearchPlan::Failed { message } => {
            assert!(message.starts_with("[错误] 检索失败: 正则表达式无效 \"*\": "))
        }
        _ => panic!("compiled"),
    }
}

#[test]
fn log_is_the_end_of_what_was_written() {
    let mut log = LogBuffer::new();
    for i in 0..5000 {
        log.log(&format!("{}", i));
    }
    assert_eq!(log.lines().len(), 5000);
    assert_eq!(log.lines()[0], "0");
    log.log("5000");
    assert_eq!(log.lines().len(), 3001);
    assert_eq!(log.lines()[0], "2000");
    assert_eq!(log.lines()[3000], "5000");
    log.clear();
    assert!(log.lines().is_empty());
}

#[test]
fn scan_that_is_over_is_noticed() {
    assert_eq!(poll_scan(ScanState::Running, None), (ScanState::Running, None));
    assert_eq!(
        poll_scan(ScanState::Running, Some(true)),
        (ScanState::Done(true), Some("=== 扫描完成 ===".to_string()))
    );
    assert_eq!(
        poll_scan(ScanState::Running, Some(false)),
        (ScanState::Done(false), Some("=== 扫描已取消/结束 ===".to_string()))
    );
    assert_eq!(poll_scan(ScanState::Idle, Some(true)), (ScanState::Idle, None));
    assert_eq!(poll_scan(ScanState::Done(true), Some(false)), (ScanState::Done(true), None));
}

#[test]
fn kinds_of_lines() {
    assert_eq!(line_kind("[错误] x"), LineKind::Error);
    assert_eq!(line_kind("[跳过] x"), LineKind::Skipped);
    assert_eq!(line_kind("=== x"), LineKind::Milestone);
    assert_eq!(line_kind("完成：x"), LineKind::Milestone);
    assert_eq!(line_kind("[提示] x"), LineKind::Plain);
    assert_eq!(line_kind(""), LineKind::Plain);
}

#[test]
fn reports_have_their_kind() {
    assert_eq!(line_kind(&search_failed("x")), LineKind::Error);
    assert_eq!(line_kind(&index_failed("x")), LineKind::Error);
    assert_eq!(line_kind(NO_SUCH_ROOT), LineKind::Error);
    let mut p = ScanProgress::new();
    p.start_file(1);
    let outcome = FileOutcome::Rejected { path: "a".to_string(), reason: "b".to_string() };
    assert_eq!(line_kind(&p.finish_file(&outcome).unwrap()), LineKind::Skipped);
    let e = ScanEvent::Counted { held: 1, cancelled: false };
    let s = run_scan(&options(&[], true, true), &p, &e);
    assert_eq!(line_kind(&s.log[0]), LineKind::Milestone);
    for ok in [false, true] {
        let line = poll_scan(ScanState::Running, Some(ok)).1.unwrap();
        assert_eq!(line_kind(&line), LineKind::Milestone);
    }
}

#[test]
fn lines_of_the_window() {
    let mut hit = sample_hit();
    assert_eq!(result_line(&hit), "D  |  F  |  S");
    assert_eq!(mail_title(&hit), "S");
    hit.subject = String::new();
    assert_eq!(mail_title(&hit), "(无主题)");
    assert_eq!(results_title(3), "检索结果 (3 条)");
    assert_eq!(index_size(-1), "库内 -1 封");
    assert_eq!(progress_numbers(1, 2), "1/2");
    assert_eq!(search_failed("x"), "[错误] 检索失败: x");
    assert_eq!(index_failed("x"), "[错误] 打开索引库失败: x");
    assert_eq!(opened_message(&hit), "已用 Outlook/默认邮件程序打开: a.eml");
}

#[test]
fn file_to_test_is_the_second_argument() {
    assert_eq!(file_to_test(&strings(&["p", "--test-parse", "a"])), Some("a".to_string()));
    assert_eq!(file_to_test(&strings(&["p", "--test-parse", "a", "b"])), Some("a".to_string()));
    assert_eq!(file_to_test(&strings(&["p", "--test-parse"])), None);
    assert_eq!(file_to_test(&strings(&["p", "-x", "a"])), None);
    assert_eq!(file_to_test(&Vec::new()), None);
}

#[test]
fn programs_that_open_things() {
    let l = open_with_system("a b", Platform::Windows);
    assert_eq!(l.program, "cmd");
    assert_eq!(l.args, strings(&["/C", "start", "", "a b"]));
    assert!(!l.no_window);
    let l = open_with_mail_client("a", Platform::Windows);
    assert_eq!(l.args, strings(&["/C", "start", "", "a"]));
    assert!(l.no_window);
    let l = reveal_in_explorer("d", Platform::Windows);
    assert_eq!((l.program.as_str(), l.no_window), ("explorer", false));
    let l = open_or_reveal("d", Platform::Windows);
    assert_eq!(l.program, "cmd");
    for (platform, program) in [(Platform::MacOs, "open"), (Platform::Unix, "xdg-open")] {
        for l in [
            open_with_system("x", platform),
            open_or_reveal("x", platform),
            open_with_mail_client("x", platform),
            reveal_in_explorer("x", platform),
        ] {
            assert_eq!(l.program, program);
            assert_eq!(l.args, strings(&["x"]));
            assert!(!l.no_window);
        }
    }
}

#[test]
fn target_is_the_last_argument() {
    for platform in [Platform::Windows, Platform::MacOs, Platform::Unix] {
        for l in [
            open_with_system("t", platform),
            open_with_mail_client("t", platform),
            reveal_in_explorer("t", platform),
        ] {
            assert_eq!(l.args.last(), Some(&"t".to_string()));
        }
    }
}
