use mail_search::db::SearchHit;
use mail_search::numerals::{number, pad_number, parse_usize, signed_number};
use mail_search::order::{rank_numbers, rank_texts, Rank};
use mail_search::pattern::Pattern;
use mail_search::search::{
    count_keywords, parse_keywords, score, score_all, search_message, RegexSearch, MAX_REGEX_HITS,
};
use mail_search::sort::SortMode;
use mail_search::text::{
    chars_of, count_occurrences, join, replace, same_text, split, starts_with, trim, trim_leading,
    truncate,
};

fn strings(list: &[&str]) -> Vec<String> {
    list.iter().map(|s| s.to_string()).collect()
}

fn hit(id: i64, date: &str, subject: &str, score: usize) -> SearchHit {
    SearchHit {
        id,
        path: format!("/m/{}.eml", id),
        file_name: format!("{}.eml", id),
        subject: subject.to_string(),
        from_addr: "Alice <alice@example.com>".to_string(),
        to_addr: "bob@example.com".to_string(),
        date: date.to_string(),
        attachments: "plan.pdf".to_string(),
        score,
    }
}

fn ids(hits: &Vec<SearchHit>) -> Vec<i64> {
    hits.iter().map(|h| h.id).collect()
}

fn sorted(list: &[(i64, &str, &str, usize)], mode: SortMode) -> Vec<i64> {
    let mut hits: Vec<SearchHit> = list.iter().map(|(i, d, s, n)| hit(*i, d, s, *n)).collect();
    SortMode::sort_hits(&mut hits, mode);
    ids(&hits)
}

#[test]
fn keywords_are_split_and_trimmed() {
    assert_eq!(parse_keywords("foo bar", false), strings(&["foo", "bar"]));
    assert_eq!(parse_keywords("a, b;c　d e,,", false), strings(&["a", "b", "c", "d", "e"]));
    for use_regex in [false, true] {
        assert_eq!(parse_keywords(" \t, ;　", use_regex), Vec::<String>::new());
        assert_eq!(parse_keywords("", use_regex), Vec::<String>::new());
        assert_eq!(parse_keywords("\u{a0}x\n", use_regex), strings(&["x"]));
    }
}

#[test]
fn space_belongs_to_an_expression() {
    assert_eq!(parse_keywords("foo bar", true), strings(&["foo bar"]));
    assert_eq!(parse_keywords("a, b;c　d e,,", true), strings(&["a", "b", "c", "d e"]));
}

#[test]
fn keywords_are_bare() {
    for use_regex in [false, true] {
        for word in parse_keywords("  one two ;, three　四 ;", use_regex) {
            assert!(!word.is_empty());
            assert_eq!(word.trim(), word);
            assert!(!word.contains(|c| c == ',' || c == ';' || c == '　'));
            assert!(use_regex || !word.contains(' '));
        }
    }
}

#[test]
fn expressions_ignore_case() {
    let p = Pattern::new("a+b", true).ok().unwrap();
    assert!(p.is_match("xxAAB"));
    assert!(!p.is_match("ac"));
    let q = Pattern::new("a+b", false).ok().unwrap();
    assert!(!q.is_match("AAB"));
    assert!(q.is_match("aab"));
    assert_eq!(q.replace_all("aab-ab-AB", "*"), "*-*-AB");
    assert_eq!(p.replace_all("aab-ab-AB", "*"), "*-*-*");
}

#[test]
fn expression_that_does_not_compile_is_reported() {
    assert!(Pattern::new("(", true).is_err());
    let r = RegexSearch::compile(&strings(&["ok", "(", "["]), true);
    let e = r.err().unwrap();
    assert!(e.starts_with("正则表达式无效 \"(\": "));
    assert!(e.contains("unclosed group"));
}

#[test]
fn every_header_column_is_searched() {
    let row = hit(7, "2024-03-07", "Subject", 0);
    for source in ["7\\.eml", "^sub", "ALICE", "bob@", "2024-\\d\\d", "plan\\.pdf$"] {
        let mut s = RegexSearch::compile(&strings(&[source]), false).ok().unwrap();
        assert!(!s.needs_body(&row));
        assert!(s.offer(row.clone(), None));
        assert_eq!(ids(&s.into_hits()), vec![7]);
    }
    let mut s = RegexSearch::compile(&strings(&["/m/"]), false).ok().unwrap();
    assert!(s.offer(row.clone(), None));
    assert!(s.into_hits().is_empty());
}

#[test]
fn bodies_are_searched_on_request() {
    let row = hit(1, "", "x", 0);
    let mut s = RegexSearch::compile(&strings(&["needle"]), true).ok().unwrap();
    assert!(s.needs_body(&row));
    s.offer(row.clone(), Some("a NEEDLE here".to_string()));
    s.offer(hit(2, "", "x", 0), Some("nothing".to_string()));
    s.offer(hit(3, "", "x", 0), None);
    s.offer(hit(4, "", "needle", 0), None);
    assert_eq!(ids(&s.into_hits()), vec![1, 4]);
    let mut s = RegexSearch::compile(&strings(&["needle"]), false).ok().unwrap();
    assert!(!s.needs_body(&row));
    s.offer(row, Some("needle".to_string()));
    assert!(s.into_hits().is_empty());
}

#[test]
fn body_that_is_not_asked_for_decides_nothing() {
    let named = hit(1, "", "needle", 0);
    for body in [None, Some("needle".to_string()), Some("other".to_string())] {
        let mut s = RegexSearch::compile(&strings(&["needle"]), true).ok().unwrap();
        assert!(!s.needs_body(&named));
        s.offer(named.clone(), body);
        assert_eq!(ids(&s.into_hits()), vec![1]);
    }
}

#[test]
fn any_expression_finds() {
    let mut s = RegexSearch::compile(&strings(&["one", "two"]), true).ok().unwrap();
    s.offer(hit(1, "", "one", 0), None);
    s.offer(hit(2, "", "two", 0), None);
    s.offer(hit(3, "", "three", 0), Some("two".to_string()));
    s.offer(hit(4, "", "three", 0), Some("four".to_string()));
    assert_eq!(ids(&s.into_hits()), vec![1, 2, 3]);
    let mut none = RegexSearch::compile(&Vec::new(), true).ok().unwrap();
    none.offer(hit(1, "", "one", 0), Some("two".to_string()));
    assert!(none.into_hits().is_empty());
}

#[test]
fn search_finds_the_first_matches_only() {
    let mut s = RegexSearch::compile(&strings(&["x"]), false).ok().unwrap();
    let mut offered: i64 = 0;
    loop {
        offered += 1;
        if !s.offer(hit(offered, "", "x", 0), None) {
            break;
        }
    }
    assert_eq!(offered, 20000);
    assert!(!s.offer(hit(offered + 1, "", "x", 0), None));
    let hits = s.into_hits();
    assert_eq!(hits.len(), MAX_REGEX_HITS);
    assert_eq!(hits[0].id, 1);
    assert_eq!(hits[19999].id, 20000);
}

#[test]
fn keywords_are_counted() {
    assert_eq!(count_keywords("aaaa b", &strings(&["aa", "b", "", "c"]), 10), Some(13));
    assert_eq!(count_keywords("abc", &strings(&["b"]), usize::MAX), None);
    assert_eq!(count_keywords("abc", &strings(&["x"]), usize::MAX), Some(usize::MAX));
}

#[test]
fn score_counts_in_all_texts_whatever_the_case() {
    let h = hit(5, "2024", "Alice meets ALICE", 0);
    // twice in the subject, and twice in the sender
    assert_eq!(score(&h, None, &strings(&["alice"])), Some(4));
    assert_eq!(score(&h, Some("alIce\n".to_string()), &strings(&["Alice"])), Some(5));
    // once in the file name
    assert_eq!(score(&h, None, &strings(&["5.EML"])), Some(1));
    // dates and attachments are not counted
    assert_eq!(score(&h, None, &strings(&["2024", "plan"])), Some(0));
    // the texts are counted as one, line by line
    assert_eq!(score(&h, None, &strings(&["alice\nalice"])), Some(1));
    let before = hit(5, "", "one", 3);
    assert_eq!(score(&before, None, &strings(&["one"])), Some(4));
    assert_eq!(score(&hit(5, "", "one", usize::MAX), None, &strings(&["one"])), None);
}

#[test]
fn every_hit_gets_its_score() {
    let hits = || vec![hit(1, "2024", "one", 0), hit(2, "2023", "two", 5), hit(3, "", "one one", 0)];
    let bodies = || vec![Some("one one".to_string()), None, Some("one".to_string())];
    let words = strings(&["one"]);
    let scored = score_all(hits(), bodies(), true, &words).unwrap();
    assert_eq!(ids(&scored), vec![1, 2, 3]);
    assert_eq!(scored.iter().map(|h| h.score).collect::<Vec<usize>>(), vec![3, 5, 3]);
    assert_eq!((scored[0].date.as_str(), scored[0].subject.as_str()), ("2024", "one"));
    let scored = score_all(hits(), bodies(), false, &words).unwrap();
    assert_eq!(scored.iter().map(|h| h.score).collect::<Vec<usize>>(), vec![1, 5, 2]);
    assert!(score_all(Vec::new(), Vec::new(), true, &words).unwrap().is_empty());
    let full = vec![hit(1, "", "x", 0), hit(2, "", "one", usize::MAX)];
    assert!(score_all(full, vec![None, None], true, &words).is_none());
}

#[test]
fn scores_add_up() {
    let h = hit(5, "", "one two one", 0);
    let one = score(&h, None, &strings(&["one"])).unwrap();
    let two = score(&h, None, &strings(&["two", "m"])).unwrap();
    assert_eq!(score(&h, None, &strings(&["one", "two", "m"])), Some(one + two));
}

#[test]
fn message_after_a_search() {
    assert_eq!(search_message(12, false, &strings(&["a", "b"])), "检索到 12 条结果（关键词: a, b）");
    assert_eq!(search_message(0, true, &strings(&["x"])), "检索到 0 条结果（正则: x）");
}

#[test]
fn sorting_by_time() {
    let list = [(1, "2023", "b", 0), (2, "2024", "z", 0), (3, "2023", "a", 0), (4, "", "q", 0)];
    assert_eq!(sorted(&list, SortMode::TimeDesc), vec![2, 3, 1, 4]);
    assert_eq!(sorted(&list, SortMode::TimeAsc), vec![4, 3, 1, 2]);
}

#[test]
fn sorting_by_score() {
    let list = [(1, "2023", "", 5), (2, "2024", "", 5), (3, "2020", "", 9), (4, "2025", "", 1)];
    assert_eq!(sorted(&list, SortMode::ScoreDesc), vec![3, 2, 1, 4]);
    assert_eq!(sorted(&list, SortMode::ScoreAsc), vec![4, 2, 1, 3]);
}

#[test]
fn sorting_by_subject_ignores_case() {
    let list = [(1, "", "beta", 0), (2, "", "Alpha", 0), (3, "", "ALPHA", 0), (4, "", "中", 0)];
    assert_eq!(sorted(&list, SortMode::Subject), vec![2, 3, 1, 4]);
}

#[test]
fn sorting_keeps_level_hits_in_order() {
    let list = [(3, "2024", "s", 1), (1, "2024", "s", 1), (2, "2024", "s", 1)];
    for mode in SortMode::all() {
        assert_eq!(sorted(&list, mode), vec![3, 1, 2]);
    }
}

#[test]
fn sorting_agrees_with_the_order_of_strings() {
    let words = ["b", "", "ab", "é", "a", "Z", "abc", "中", "\u{ffff}", "\u{10000}", "z"];
    let mut hits: Vec<SearchHit> = Vec::new();
    for i in 0..200usize {
        hits.push(hit(i as i64, words[(i * 7) % 11], words[(i * 5 + i / 11) % 11], (i * 13) % 4));
    }
    for mode in SortMode::all() {
        let mut mine = hits.clone();
        SortMode::sort_hits(&mut mine, mode);
        let mut theirs = hits.clone();
        match mode {
            SortMode::TimeDesc => {
                theirs.sort_by(|a, b| b.date.cmp(&a.date).then(a.subject.cmp(&b.subject)))
            }
            SortMode::TimeAsc => {
                theirs.sort_by(|a, b| a.date.cmp(&b.date).then(a.subject.cmp(&b.subject)))
            }
            SortMode::ScoreDesc => {
                theirs.sort_by(|a, b| b.score.cmp(&a.score).then(b.date.cmp(&a.date)))
            }
            SortMode::ScoreAsc => {
                theirs.sort_by(|a, b| a.score.cmp(&b.score).then(b.date.cmp(&a.date)))
            }
            SortMode::Subject => {
                theirs.sort_by(|a, b| a.subject.to_lowercase().cmp(&b.subject.to_lowercase()))
            }
        }
        assert_eq!(ids(&mine), ids(&theirs));
        let mut again = mine.clone();
        SortMode::sort_hits(&mut again, mode);
        assert_eq!(ids(&again), ids(&mine));
        let mut kept = ids(&mine);
        kept.sort();
        assert_eq!(kept, ids(&hits));
    }
}

#[test]
fn names_of_the_orders() {
    let labels: Vec<&str> = SortMode::all().iter().map(|m| m.label()).collect();
    assert_eq!(labels, vec!["时间 新→旧", "时间 旧→新", "词频 高→低", "词频 低→高", "主题 A→Z"]);
}

#[test]
fn ranks_of_texts() {
    let rank = |a: &str, b: &str| rank_texts(&chars_of(a), &chars_of(b));
    assert_eq!(rank("", ""), Rank::Same);
    assert_eq!(rank("a", "ab"), Rank::Before);
    assert_eq!(rank("b", "ab"), Rank::After);
    assert_eq!(rank("ab", "ab"), Rank::Same);
    assert_eq!(rank("\u{ffff}", "\u{10000}"), Rank::Before);
    assert_eq!(rank_numbers(1, 2), Rank::Before);
    assert_eq!(rank_numbers(2, 2), Rank::Same);
    assert_eq!(rank_numbers(3, 2), Rank::After);
    assert_eq!(Rank::Same.refine(Rank::After), Rank::After);
    assert_eq!(Rank::Before.refine(Rank::After), Rank::Before);
}

#[test]
fn numbers_are_written_and_read_back() {
    for n in [0usize, 7, 10, 99, 100, 12345, usize::MAX] {
        assert_eq!(number(n as u128), format!("{}", n));
        assert_eq!(parse_usize(&number(n as u128)), Some(n));
    }
    assert_eq!(pad_number(7, 3), "007");
    assert_eq!(pad_number(1234, 3), "1234");
    assert_eq!(signed_number(-12), "-12");
    assert_eq!(signed_number(i64::MIN), format!("{}", i64::MIN));
    assert_eq!(signed_number(0), "0");
}

#[test]
fn numbers_are_read_as_std_reads_them() {
    for s in ["", "+", "-1", "+5", "++5", "007", "1a", " 1", "18446744073709551615",
        "18446744073709551616", "99999999999999999999999", "٣"] {
        assert_eq!(parse_usize(s), s.parse::<usize>().ok());
    }
}

#[test]
fn texts_are_cut_and_put_together() {
    assert_eq!(split("a,b;;c", ",;"), strings(&["a", "b", "", "c"]));
    assert_eq!(split("", ","), strings(&[""]));
    assert_eq!(join(&strings(&["a", "b", "c"]), ", "), "a, b, c");
    assert_eq!(join(&Vec::new(), ", "), "");
    assert_eq!(join(&strings(&["", ""]), "-"), "-");
    assert_eq!(trim("\u{3000} a b\t\n"), "a b");
    assert_eq!(trim(" \n"), "");
    assert_eq!(trim_leading("..a.", '.'), "a.");
    assert_eq!(truncate("主题abc", 3), "主题a");
    assert_eq!(truncate("abc", 3), "abc");
    assert_eq!(truncate("abc", 0), "");
}

#[test]
fn white_space_is_cut_off_and_nothing_else() {
    let listed = |c: char| {
        matches!(c, '\u{9}'..='\u{d}' | '\u{20}' | '\u{85}' | '\u{a0}' | '\u{1680}')
            || matches!(c, '\u{2000}'..='\u{200a}' | '\u{2028}' | '\u{2029}' | '\u{202f}')
            || matches!(c, '\u{205f}' | '\u{3000}')
    };
    for n in 0..0x110000u32 {
        if let Some(c) = char::from_u32(n) {
            assert_eq!(c.is_whitespace(), listed(c));
        }
    }
    for c in ['\u{85}', '\u{2009}', '\u{3000}', '\u{200b}', 'x'] {
        let s = format!("{}{}a{}", c, c, c);
        assert_eq!(trim(&s), s.trim());
    }
}

#[test]
fn texts_are_compared_and_replaced() {
    assert!(same_text("主题", "主题"));
    assert!(!same_text("ab", "abc"));
    assert!(!same_text("abd", "abc"));
    assert!(starts_with("abc", "ab"));
    assert!(starts_with("abc", ""));
    assert!(!starts_with("ab", "abc"));
    assert_eq!(replace("aaaa", "aa", "b"), "bb");
    assert_eq!(replace("xaax", "aa", ""), "xx");
    assert_eq!(count_occurrences(&chars_of("aaaaa"), &chars_of("aa")), 2);
    assert_eq!(count_occurrences(&chars_of("abc"), &chars_of("")), 0);
}
