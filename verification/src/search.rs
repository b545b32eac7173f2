//! Searching: which words to look for, which mails a regular expression finds,
//! and how often the words occur in a mail.
use vstd::prelude::*;

use crate::db::SearchHit;
use crate::numerals::{digits, number};
use crate::pattern::{regex_build, regex_is_match, Pattern};
use crate::text::{
    chars_of, count_occurrences, join, joined, law_non_empty_parts, law_occurrences_across_a_break,
    law_occurrences_in_a_part, law_pieces_hold_no_separator, law_separator_parts_the_text,
    law_text_without_separator_is_one_piece, law_trimmed_has_bare_ends, lemma_non_empty_of_two,
    lemma_non_empty_push, lemma_views_push, lowercase, non_empty, occurrences, opt_view, pieces,
    split, trim, trimmed, views, white_space,
};

verus! {

/// What separates keywords: a comma, a semicolon, a space or an ideographic
/// space.
pub const KEYWORD_SEPARATORS: &'static str = ",; \u{3000}";

/// What separates regular expressions: a comma, a semicolon or an ideographic
/// space. An ordinary space belongs to an expression.
pub const EXPRESSION_SEPARATORS: &'static str = ",;\u{3000}";

/// What separates the words of a search.
pub open spec fn separators(use_regex: bool) -> Seq<char> {
    if use_regex {
        EXPRESSION_SEPARATORS@
    } else {
        KEYWORD_SEPARATORS@
    }
}

/// The most mails that a search by regular expressions finds.
pub const MAX_REGEX_HITS: usize = 20000;

/// Each part without the white space at its ends.
pub open spec fn all_trimmed(parts: Seq<Seq<char>>) -> Seq<Seq<char>> {
    Seq::new(parts.len(), |i: int| trimmed(parts[i]))
}

/// The keywords, or the regular expressions, in what was typed.
pub open spec fn keywords_in(typed: Seq<char>, use_regex: bool) -> Seq<Seq<char>> {
    non_empty(all_trimmed(pieces(typed, separators(use_regex))))
}

/// Reads the keywords, or the regular expressions, from what was typed.
pub fn parse_keywords(typed: &str, use_regex: bool) -> (r: Vec<String>)
    ensures
        views(r@) == keywords_in(typed@, use_regex),
{
    let parts = if use_regex {
        split(typed, EXPRESSION_SEPARATORS)
    } else {
        split(typed, KEYWORD_SEPARATORS)
    };
    let ghost all = all_trimmed(views(parts@));
    let mut out: Vec<String> = Vec::new();
    let mut i: usize = 0;
    proof {
        reveal(Seq::filter);
        assert(all.take(0) =~= Seq::<Seq<char>>::empty());
        assert(views(out@) =~= non_empty(all.take(0)));
    }
    while i < parts.len()
        invariant
            i <= parts@.len(),
            all == all_trimmed(views(parts@)),
            views(out@) == non_empty(all.take(i as int)),
        decreases parts@.len() - i,
    {
        let word = trim(parts[i].as_str());
        proof {
            assert(all.take(i + 1) =~= all.take(i as int).push(word@));
            lemma_non_empty_push(all.take(i as int), word@);
            lemma_views_push(out@, word);
        }
        if !word.as_str().is_empty() {
            out.push(word);
        }
        i += 1;
    }
    assert(all.take(i as int) =~= all);
    out
}

/// Law: a keyword is never empty, holds no separator, and has no white space at
/// its ends.
pub proof fn law_keywords_are_bare(typed: Seq<char>, use_regex: bool, i: int)
    requires
        0 <= i < keywords_in(typed, use_regex).len(),
    ensures
        ({
            let word = keywords_in(typed, use_regex)[i];
            &&& word.len() > 0
            &&& !white_space(word[0])
            &&& !white_space(word.last())
            &&& forall|j: int|
                0 <= j < word.len() ==> !separators(use_regex).contains(#[trigger] word[j])
        }),
{
    let parts = pieces(typed, separators(use_regex));
    let word = keywords_in(typed, use_regex)[i];
    law_non_empty_parts(all_trimmed(parts), i);
    let k = choose|k: int| 0 <= k < parts.len() && all_trimmed(parts)[k] == word;
    law_trimmed_has_bare_ends(parts[k]);
    assert forall|j: int| 0 <= j < word.len() implies !separators(use_regex).contains(
        #[trigger] word[j],
    ) by {
        assert(parts[k].contains(trimmed(parts[k])[j]));
        let n = choose|n: int| 0 <= n < parts[k].len() && parts[k][n] == word[j];
        law_pieces_hold_no_separator(typed, separators(use_regex), k, n);
    }
}

/// Whether the expression matches one of the header columns of a row.
pub open spec fn header_matches(source: Seq<char>, row: SearchHit) -> bool {
    ||| regex_is_match(source, true, row.file_name@)
    ||| regex_is_match(source, true, row.subject@)
    ||| regex_is_match(source, true, row.from_addr@)
    ||| regex_is_match(source, true, row.to_addr@)
    ||| regex_is_match(source, true, row.date@)
    ||| regex_is_match(source, true, row.attachments@)
}

/// Whether the expression matches the body, where there is one to look at.
pub open spec fn body_matches(source: Seq<char>, body: Option<Seq<char>>) -> bool {
    match body {
        Some(text) => regex_is_match(source, true, text),
        None => false,
    }
}

/// Whether some expression matches a header column of the row.
pub open spec fn some_header_matches(sources: Seq<Seq<char>>, row: SearchHit) -> bool {
    exists|i: int| 0 <= i < sources.len() && header_matches(#[trigger] sources[i], row)
}

/// Whether some expression matches the body.
pub open spec fn some_body_matches(sources: Seq<Seq<char>>, body: Option<Seq<char>>) -> bool {
    exists|i: int| 0 <= i < sources.len() && body_matches(#[trigger] sources[i], body)
}

/// Whether a search finds a row: some expression matches a header column or,
/// with `scope_body`, the body.
pub open spec fn row_matches(
    sources: Seq<Seq<char>>,
    scope_body: bool,
    row: SearchHit,
    body: Option<Seq<char>>,
) -> bool {
    some_header_matches(sources, row) || (scope_body && some_body_matches(sources, body))
}

/// What has been found once one more row has been offered.
pub open spec fn hits_after(
    hits: Seq<SearchHit>,
    sources: Seq<Seq<char>>,
    scope_body: bool,
    row: SearchHit,
    body: Option<Seq<char>>,
) -> Seq<SearchHit> {
    if hits.len() < MAX_REGEX_HITS && row_matches(sources, scope_body, row, body) {
        hits.push(row)
    } else {
        hits
    }
}

/// The message for an expression that does not compile.
pub open spec fn invalid_pattern_text(source: Seq<char>, reason: Seq<char>) -> Seq<char> {
    "正则表达式无效 \""@ + source + "\": "@ + reason
}

/// Whether all expressions compile.
pub open spec fn all_compile(sources: Seq<Seq<char>>) -> bool {
    forall|i: int| 0 <= i < sources.len() ==> regex_build(#[trigger] sources[i], true) is Ok
}

/// The message for the first expression that does not compile.
pub open spec fn first_failure(sources: Seq<Seq<char>>) -> Seq<char>
    decreases sources.len(),
{
    if sources.len() == 0 {
        Seq::empty()
    } else {
        match regex_build(sources[0], true) {
            Err(reason) => invalid_pattern_text(sources[0], reason),
            Ok(_) => first_failure(sources.drop_first()),
        }
    }
}

fn invalid_pattern(source: &str, reason: &str) -> (r: String)
    ensures
        r@ == invalid_pattern_text(source@, reason@),
{
    let mut out = "正则表达式无效 \"".to_string();
    out.append(source);
    out.append("\": ");
    out.append(reason);
    out
}

/// A search by regular expressions, with what it has found so far.
pub struct RegexSearch {
    patterns: Vec<Pattern>,
    scope_body: bool,
    hits: Vec<SearchHit>,
}

impl RegexSearch {
    /// The expressions that are looked for.
    pub closed spec fn sources(self) -> Seq<Seq<char>> {
        Seq::new(self.patterns@.len(), |i: int| self.patterns@[i].source())
    }

    /// Whether the bodies are searched too.
    pub closed spec fn scope_body(self) -> bool {
        self.scope_body
    }

    /// What has been found so far, in the order in which it was offered.
    pub closed spec fn hits(self) -> Seq<SearchHit> {
        self.hits@
    }

    #[verifier::type_invariant]
    closed spec fn wf(self) -> bool {
        &&& forall|i: int|
            0 <= i < self.patterns@.len() ==> (#[trigger] self.patterns@[i]).ignores_case()
        &&& self.hits@.len() <= MAX_REGEX_HITS
    }

    /// Compiles the expressions, which ignore case. The first one that does not
    /// compile is reported.
    pub fn compile(patterns: &[String], scope_body: bool) -> (r: Result<RegexSearch, String>)
        ensures
            r is Ok <==> all_compile(views(patterns@)),
            match r {
                Ok(s) => {
                    &&& s.sources() == views(patterns@)
                    &&& s.scope_body() == scope_body
                    &&& s.hits() == Seq::<SearchHit>::empty()
                },
                Err(e) => e@ == first_failure(views(patterns@)),
            },
    {
        let mut compiled: Vec<Pattern> = Vec::new();
        let ghost all = views(patterns@);
        let mut i: usize = 0;
        assert(all.skip(0) =~= all);
        while i < patterns.len()
            invariant
                i <= patterns@.len(),
                all == views(patterns@),
                compiled@.len() == i,
                forall|j: int|
                    0 <= j < i ==> (#[trigger] compiled@[j]).ignores_case()
                        && compiled@[j].source() == patterns@[j]@,
                forall|j: int| 0 <= j < i ==> regex_build(#[trigger] all[j], true) is Ok,
                first_failure(all) == first_failure(all.skip(i as int)),
            decreases patterns@.len() - i,
        {
            assert(all.skip(i as int)[0] == all[i as int]);
            assert(all.skip(i as int).drop_first() =~= all.skip(i + 1));
            match Pattern::new(patterns[i].as_str(), true) {
                Ok(p) => {
                    compiled.push(p);
                },
                Err(e) => {
                    return Err(invalid_pattern(patterns[i].as_str(), e.as_str()));
                },
            }
            i += 1;
        }
        let s = RegexSearch { patterns: compiled, scope_body, hits: Vec::new() };
        assert(s.sources() =~= views(patterns@));
        Ok(s)
    }

    /// Whether some expression matches a header column of the row.
    fn header_hit(&self, row: &SearchHit) -> (r: bool)
        ensures
            r == some_header_matches(self.sources(), *row),
    {
        proof {
            use_type_invariant(self);
        }
        let mut i: usize = 0;
        while i < self.patterns.len()
            invariant
                i <= self.patterns@.len(),
                self.wf(),
                forall|j: int|
                    0 <= j < i ==> !header_matches(#[trigger] self.sources()[j], *row),
            decreases self.patterns@.len() - i,
        {
            let p = &self.patterns[i];
            assert(self.sources()[i as int] == p.source());
            assert(self.patterns@[i as int].ignores_case());
            if p.is_match(row.file_name.as_str()) || p.is_match(row.subject.as_str())
                || p.is_match(row.from_addr.as_str()) || p.is_match(row.to_addr.as_str())
                || p.is_match(row.date.as_str()) || p.is_match(row.attachments.as_str()) {
                return true;
            }
            i += 1;
        }
        false
    }

    /// Whether some expression matches the body.
    fn body_hit(&self, text: &str) -> (r: bool)
        ensures
            r == some_body_matches(self.sources(), Some(text@)),
    {
        proof {
            use_type_invariant(self);
        }
        let mut i: usize = 0;
        while i < self.patterns.len()
            invariant
                i <= self.patterns@.len(),
                self.wf(),
                forall|j: int|
                    0 <= j < i ==> !body_matches(#[trigger] self.sources()[j], Some(text@)),
            decreases self.patterns@.len() - i,
        {
            assert(self.sources()[i as int] == self.patterns@[i as int].source());
            assert(self.patterns@[i as int].ignores_case());
            if self.patterns[i].is_match(text) {
                assert(body_matches(self.sources()[i as int], Some(text@)));
                return true;
            }
            i += 1;
        }
        false
    }

    /// Whether the body of the row can still decide: the bodies are searched
    /// and no header column of the row matches.
    pub fn needs_body(&self, row: &SearchHit) -> (r: bool)
        ensures
            r == (self.scope_body() && !some_header_matches(self.sources(), *row)),
    {
        self.scope_body && !self.header_hit(row)
    }

    /// Takes the next row, with its body where that has been read, and keeps it
    /// where the search finds it. Says whether more rows are wanted.
    pub fn offer(&mut self, row: SearchHit, body: Option<String>) -> (more: bool)
        ensures
            final(self).sources() == old(self).sources(),
            final(self).scope_body() == old(self).scope_body(),
            final(self).hits() == hits_after(
                old(self).hits(),
                old(self).sources(),
                old(self).scope_body(),
                row,
                opt_view(body),
            ),
            more == (final(self).hits().len() < MAX_REGEX_HITS),
    {
        proof {
            use_type_invariant(&*self);
        }
        if self.hits.len() >= MAX_REGEX_HITS {
            return false;
        }
        let mut found: bool = self.header_hit(&row);
        if !found && self.scope_body {
            found = match &body {
                Some(text) => self.body_hit(text.as_str()),
                None => false,
            };
        }
        if found {
            let mut hits: Vec<SearchHit> = Vec::new();
            std::mem::swap(&mut hits, &mut self.hits);
            hits.push(row);
            self.hits = hits;
        }
        self.hits.len() < MAX_REGEX_HITS
    }

    /// Gives out what has been found.
    pub fn into_hits(self) -> (r: Vec<SearchHit>)
        ensures
            r@ == self.hits(),
    {
        self.hits
    }
}

/// A row that a search goes through, with its body where there is one.
pub type OfferedRow = (SearchHit, Option<Seq<char>>);

/// What a search has found once all the rows have been offered, in their order.
pub open spec fn hits_of_run(
    sources: Seq<Seq<char>>,
    scope_body: bool,
    rows: Seq<OfferedRow>,
) -> Seq<SearchHit>
    decreases rows.len(),
{
    if rows.len() == 0 {
        Seq::empty()
    } else {
        hits_after(
            hits_of_run(sources, scope_body, rows.drop_last()),
            sources,
            scope_body,
            rows.last().0,
            rows.last().1,
        )
    }
}

/// The rows that a search finds, in their order and however many they are.
pub open spec fn matching_rows(
    sources: Seq<Seq<char>>,
    scope_body: bool,
    rows: Seq<OfferedRow>,
) -> Seq<SearchHit> {
    rows.filter(|r: OfferedRow| row_matches(sources, scope_body, r.0, r.1)).map_values(
        |r: OfferedRow| r.0,
    )
}

/// Law: a search by regular expressions finds the matching rows, in the order
/// of the rows, and no more than the first `MAX_REGEX_HITS` of them.
pub proof fn law_regex_search_finds_first_matches(
    sources: Seq<Seq<char>>,
    scope_body: bool,
    rows: Seq<OfferedRow>,
)
    ensures
        ({
            let all = matching_rows(sources, scope_body, rows);
            let found = hits_of_run(sources, scope_body, rows);
            if all.len() <= MAX_REGEX_HITS {
                found == all
            } else {
                found == all.take(MAX_REGEX_HITS as int)
            }
        }),
    decreases rows.len(),
{
    reveal(Seq::filter);
    let all = matching_rows(sources, scope_body, rows);
    if rows.len() == 0 {
        assert(all =~= Seq::<SearchHit>::empty());
    } else {
        let init = rows.drop_last();
        law_regex_search_finds_first_matches(sources, scope_body, init);
        let before = matching_rows(sources, scope_body, init);
        let found = hits_of_run(sources, scope_body, rows);
        if row_matches(sources, scope_body, rows.last().0, rows.last().1) {
            assert(all =~= before.push(rows.last().0));
            if before.len() >= MAX_REGEX_HITS {
                assert(before.take(before.len() as int) =~= before);
                assert(found =~= all.take(MAX_REGEX_HITS as int));
            }
        } else {
            assert(all =~= before);
        }
    }
}

/// Law: where the body of a row is not asked for, it decides nothing.
pub proof fn law_unneeded_body_decides_nothing(
    sources: Seq<Seq<char>>,
    scope_body: bool,
    row: SearchHit,
    a: Option<Seq<char>>,
    b: Option<Seq<char>>,
)
    requires
        !(scope_body && !some_header_matches(sources, row)),
    ensures
        row_matches(sources, scope_body, row, a) == row_matches(sources, scope_body, row, b),
{
}

/// Law: a row is found by several expressions exactly where one of them finds
/// it.
pub proof fn law_any_expression_finds(
    first: Seq<Seq<char>>,
    second: Seq<Seq<char>>,
    scope_body: bool,
    row: SearchHit,
    body: Option<Seq<char>>,
)
    ensures
        row_matches(first + second, scope_body, row, body) == (row_matches(
            first,
            scope_body,
            row,
            body,
        ) || row_matches(second, scope_body, row, body)),
{
    let both = first + second;
    assert forall|i: int| 0 <= i < first.len() implies both[i] == #[trigger] first[i] by {}
    assert forall|i: int| 0 <= i < second.len() implies both[first.len() + i]
        == #[trigger] second[i] by {}
    if some_header_matches(both, row) {
        let i = choose|i: int| 0 <= i < both.len() && header_matches(#[trigger] both[i], row);
        if i < first.len() {
            assert(header_matches(first[i], row));
        } else {
            assert(header_matches(second[i - first.len()], row));
        }
    }
    if some_body_matches(both, body) {
        let i = choose|i: int| 0 <= i < both.len() && body_matches(#[trigger] both[i], body);
        if i < first.len() {
            assert(body_matches(first[i], body));
        } else {
            assert(body_matches(second[i - first.len()], body));
        }
    }
    if some_header_matches(first, row) {
        let i = choose|i: int| 0 <= i < first.len() && header_matches(#[trigger] first[i], row);
        assert(header_matches(both[i], row));
    }
    if some_header_matches(second, row) {
        let i = choose|i: int| 0 <= i < second.len() && header_matches(#[trigger] second[i], row);
        assert(header_matches(both[first.len() + i], row));
    }
    if some_body_matches(first, body) {
        let i = choose|i: int| 0 <= i < first.len() && body_matches(#[trigger] first[i], body);
        assert(body_matches(both[i], body));
    }
    if some_body_matches(second, body) {
        let i = choose|i: int| 0 <= i < second.len() && body_matches(#[trigger] second[i], body);
        assert(body_matches(both[first.len() + i], body));
    }
}

/// The texts of a mail in which keywords are counted.
pub open spec fn counted_parts(hit: SearchHit, body: Option<Seq<char>>) -> Seq<Seq<char>> {
    let header = seq![hit.subject@, hit.from_addr@, hit.to_addr@, hit.file_name@];
    match body {
        Some(text) => header.push(text),
        None => header,
    }
}

/// The text of a mail in which keywords are counted, in lower case.
pub open spec fn counted_text(hit: SearchHit, body: Option<Seq<char>>) -> Seq<char> {
    lowercase(joined(counted_parts(hit, body), "\n"@))
}

/// How often the keywords occur in the text, all together.
pub open spec fn total_occurrences(text: Seq<char>, keywords: Seq<Seq<char>>) -> nat
    decreases keywords.len(),
{
    if keywords.len() == 0 {
        0
    } else {
        total_occurrences(text, keywords.drop_last()) + occurrences(text, keywords.last())
    }
}

/// Each keyword in lower case.
pub open spec fn all_lowercase(keywords: Seq<Seq<char>>) -> Seq<Seq<char>> {
    Seq::new(keywords.len(), |i: int| lowercase(keywords[i]))
}

/// A number, where it fits the machine.
pub open spec fn as_count(n: int) -> Option<usize> {
    if n <= usize::MAX {
        Some(n as usize)
    } else {
        None
    }
}

proof fn lemma_total_grows(text: Seq<char>, keywords: Seq<Seq<char>>, k: int)
    requires
        0 <= k <= keywords.len(),
    ensures
        total_occurrences(text, keywords.take(k)) <= total_occurrences(text, keywords),
    decreases keywords.len() - k,
{
    if k == keywords.len() {
        assert(keywords.take(k) =~= keywords);
    } else {
        lemma_total_grows(text, keywords, k + 1);
        assert(keywords.take(k + 1).drop_last() =~= keywords.take(k));
    }
}

/// Adds to `score` how often the keywords occur in the text, all together.
/// There is no result where the sum does not fit.
pub fn count_keywords(text: &str, keywords: &Vec<String>, score: usize) -> (r: Option<usize>)
    ensures
        r == as_count(score + total_occurrences(text@, views(keywords@))),
{
    let t = chars_of(text);
    let ghost all = views(keywords@);
    let mut sum: usize = score;
    let mut i: usize = 0;
    assert(all.take(0) =~= Seq::<Seq<char>>::empty());
    while i < keywords.len()
        invariant
            i <= keywords@.len(),
            t@ == text@,
            all == views(keywords@),
            sum == score + total_occurrences(t@, all.take(i as int)),
        decreases keywords@.len() - i,
    {
        let key = chars_of(keywords[i].as_str());
        let n: usize = count_occurrences(&t, &key);
        proof {
            assert(all.take(i + 1).drop_last() =~= all.take(i as int));
            assert(all.take(i + 1).last() == key@);
            lemma_total_grows(t@, all, i + 1);
        }
        match sum.checked_add(n) {
            Some(next) => {
                sum = next;
            },
            None => {
                return None;
            },
        }
        i += 1;
    }
    assert(all.take(i as int) =~= all);
    Some(sum)
}

/// What a hit scores: what it had, and how often the keywords occur in the
/// subject, the addresses, the file name and the body where one is given,
/// whatever the case of the letters.
pub open spec fn new_score(
    hit: SearchHit,
    body: Option<Seq<char>>,
    keywords: Seq<Seq<char>>,
) -> int {
    hit.score + total_occurrences(counted_text(hit, body), all_lowercase(keywords))
}

/// The new score of a hit. There is none where the sum does not fit.
pub fn score(hit: &SearchHit, body: Option<String>, keywords: &Vec<String>) -> (r: Option<usize>)
    ensures
        r == as_count(new_score(*hit, opt_view(body), views(keywords@))),
{
    let ghost given = opt_view(body);
    let mut parts: Vec<String> = Vec::new();
    parts.push(hit.subject.clone());
    parts.push(hit.from_addr.clone());
    parts.push(hit.to_addr.clone());
    parts.push(hit.file_name.clone());
    if let Some(text) = body {
        parts.push(text);
    }
    assert(views(parts@) =~= counted_parts(*hit, given));
    let whole = join(&parts, "\n");
    let text = whole.as_str().to_lowercase();
    let ghost all = all_lowercase(views(keywords@));
    let mut lower: Vec<String> = Vec::new();
    let mut i: usize = 0;
    assert(views(lower@) =~= all.take(0));
    while i < keywords.len()
        invariant
            i <= keywords@.len(),
            all == all_lowercase(views(keywords@)),
            views(lower@) == all.take(i as int),
        decreases keywords@.len() - i,
    {
        let word = keywords[i].as_str().to_lowercase();
        proof {
            lemma_views_push(lower@, word);
            assert(all.take(i + 1) =~= all.take(i as int).push(word@));
        }
        lower.push(word);
        i += 1;
    }
    assert(all.take(i as int) =~= all);
    count_keywords(text.as_str(), &lower, hit.score)
}

/// The body of a hit as far as it counts: it does where bodies are searched.
pub open spec fn counted_body(scope_body: bool, body: Option<String>) -> Option<Seq<char>> {
    if scope_body {
        opt_view(body)
    } else {
        None
    }
}

/// Gives every hit of a search its new score and leaves all else of it as it is.
/// The bodies belong to the hits of their place and count where bodies are
/// searched. There is no result where some sum does not fit.
pub fn score_all(
    hits: Vec<SearchHit>,
    bodies: Vec<Option<String>>,
    scope_body: bool,
    keywords: &Vec<String>,
) -> (r: Option<Vec<SearchHit>>)
    requires
        hits@.len() == bodies@.len(),
    ensures
        r is Some <==> forall|i: int|
            0 <= i < hits@.len() ==> new_score(
                #[trigger] hits@[i],
                counted_body(scope_body, bodies@[i]),
                views(keywords@),
            ) <= usize::MAX,
        r matches Some(scored) ==> {
            &&& scored@.len() == hits@.len()
            &&& forall|i: int|
                0 <= i < hits@.len() ==> #[trigger] scored@[i] == (SearchHit {
                    score: new_score(
                        hits@[i],
                        counted_body(scope_body, bodies@[i]),
                        views(keywords@),
                    ) as usize,
                    ..hits@[i]
                })
        },
{
    let ghost words = views(keywords@);
    let mut scored: Vec<SearchHit> = Vec::new();
    let total: usize = hits.len();
    let mut i: usize = 0;
    for body in it: bodies
        invariant
            it.seq() == bodies@,
            total == hits@.len() == bodies@.len(),
            words == views(keywords@),
            i == it.index(),
            scored@.len() == i,
            forall|k: int|
                0 <= k < i ==> new_score(
                    #[trigger] hits@[k],
                    counted_body(scope_body, bodies@[k]),
                    words,
                ) <= usize::MAX,
            forall|k: int|
                0 <= k < i ==> #[trigger] scored@[k] == (SearchHit {
                    score: new_score(hits@[k], counted_body(scope_body, bodies@[k]), words) as usize,
                    ..hits@[k]
                }),
    {
        let counted = if scope_body {
            body
        } else {
            None
        };
        assert(opt_view(counted) == counted_body(scope_body, bodies@[i as int]));
        let mut hit = hits[i].clone();
        match score(&hit, counted, keywords) {
            Some(n) => {
                hit.score = n;
                scored.push(hit);
            },
            None => {
                assert(hits@[i as int] == hit);
                return None;
            },
        }
        i += 1;
    }
    Some(scored)
}

/// Law: what several keywords score is the sum of what they score apart.
pub proof fn law_score_adds_up(text: Seq<char>, first: Seq<Seq<char>>, second: Seq<Seq<char>>)
    ensures
        total_occurrences(text, first + second) == total_occurrences(text, first)
            + total_occurrences(text, second),
    decreases second.len(),
{
    if second.len() == 0 {
        assert(first + second =~= first);
    } else {
        law_score_adds_up(text, first, second.drop_last());
        assert((first + second).drop_last() =~= first + second.drop_last());
    }
}

/// The message after a search.
pub open spec fn search_message_text(
    found: nat,
    use_regex: bool,
    keywords: Seq<Seq<char>>,
) -> Seq<char> {
    let kind = if use_regex {
        "正则"@
    } else {
        "关键词"@
    };
    "检索到 "@ + digits(found) + " 条结果（"@ + kind + ": "@ + joined(keywords, ", "@) + "）"@
}

/// The message after a search that found `found` mails.
pub fn search_message(found: usize, use_regex: bool, keywords: &Vec<String>) -> (r: String)
    ensures
        r@ == search_message_text(found as nat, use_regex, views(keywords@)),
{
    let mut out = "检索到 ".to_string();
    let n = number(found as u128);
    out.append(n.as_str());
    out.append(" 条结果（");
    if use_regex {
        out.append("正则");
    } else {
        out.append("关键词");
    }
    out.append(": ");
    let words = join(keywords, ", ");
    out.append(words.as_str());
    out.append("）");
    out
}

/// Law: each separator parts what was typed into the words before it and those
/// behind it. Commas, semicolons and ideographic spaces always separate, and
/// ordinary spaces where the words are keywords.
pub proof fn law_separators_part_the_words(
    a: Seq<char>,
    c: char,
    b: Seq<char>,
    use_regex: bool,
)
    requires
        c == ',' || c == ';' || c == '\u{3000}' || (!use_regex && c == ' '),
    ensures
        keywords_in(a.push(c) + b, use_regex) == keywords_in(a, use_regex) + keywords_in(
            b,
            use_regex,
        ),
{
    let seps = separators(use_regex);
    reveal_strlit(",; \u{3000}");
    reveal_strlit(",;\u{3000}");
    assert(seps.contains(c)) by {
        if c == ',' {
            assert(seps[0] == c);
        } else if c == ';' {
            assert(seps[1] == c);
        } else if c == ' ' {
            assert(seps[2] == c);
        } else {
            assert(seps[seps.len() - 1] == c);
        }
    }
    law_separator_parts_the_text(a, c, b, seps);
    let x = all_trimmed(pieces(a, seps));
    let y = all_trimmed(pieces(b, seps));
    assert(all_trimmed(pieces(a.push(c) + b, seps)) =~= x + y);
    lemma_non_empty_of_two(x, y);
}

/// Law: what was typed without a separator is one word, without the white space
/// at its ends, or none where nothing else was typed.
pub proof fn law_text_without_separator_is_one_word(typed: Seq<char>, use_regex: bool)
    requires
        forall|i: int|
            0 <= i < typed.len() ==> #[trigger] typed[i] != ',' && typed[i] != ';' && typed[i]
                != '\u{3000}' && (use_regex || typed[i] != ' '),
    ensures
        keywords_in(typed, use_regex) == if trimmed(typed).len() > 0 {
            seq![trimmed(typed)]
        } else {
            Seq::empty()
        },
{
    reveal(Seq::filter);
    let seps = separators(use_regex);
    reveal_strlit(",; \u{3000}");
    reveal_strlit(",;\u{3000}");
    assert forall|i: int| 0 <= i < typed.len() implies !seps.contains(#[trigger] typed[i]) by {}
    law_text_without_separator_is_one_piece(typed, seps);
    let one = all_trimmed(seq![typed]);
    assert(one =~= Seq::<Seq<char>>::empty().push(trimmed(typed)));
    lemma_non_empty_push(Seq::empty(), trimmed(typed));
    assert(non_empty(Seq::<Seq<char>>::empty()) =~= Seq::<Seq<char>>::empty());
    assert(Seq::<Seq<char>>::empty().push(trimmed(typed)) =~= seq![trimmed(typed)]);
}

/// Law: a row is found exactly where some expression matches, whatever the case
/// of the letters, its file name, subject, sender, recipients, date or
/// attachments, or, where bodies are searched, the whole of its body.
pub proof fn law_row_is_found_where_a_text_matches(
    sources: Seq<Seq<char>>,
    scope_body: bool,
    row: SearchHit,
    body: Option<Seq<char>>,
)
    ensures
        row_matches(sources, scope_body, row, body) <==> exists|i: int|
            0 <= i < sources.len() && {
                ||| regex_is_match(#[trigger] sources[i], true, row.file_name@)
                ||| regex_is_match(sources[i], true, row.subject@)
                ||| regex_is_match(sources[i], true, row.from_addr@)
                ||| regex_is_match(sources[i], true, row.to_addr@)
                ||| regex_is_match(sources[i], true, row.date@)
                ||| regex_is_match(sources[i], true, row.attachments@)
                ||| scope_body && body is Some && regex_is_match(sources[i], true, body->Some_0)
            },
{
    if some_header_matches(sources, row) {
        let i = choose|i: int|
            0 <= i < sources.len() && header_matches(#[trigger] sources[i], row);
        assert(header_matches(sources[i], row));
    }
    if scope_body && some_body_matches(sources, body) {
        let i = choose|i: int| 0 <= i < sources.len() && body_matches(#[trigger] sources[i], body);
        assert(body_matches(sources[i], body));
    }
    if exists|i: int|
        0 <= i < sources.len() && {
            ||| regex_is_match(#[trigger] sources[i], true, row.file_name@)
            ||| regex_is_match(sources[i], true, row.subject@)
            ||| regex_is_match(sources[i], true, row.from_addr@)
            ||| regex_is_match(sources[i], true, row.to_addr@)
            ||| regex_is_match(sources[i], true, row.date@)
            ||| regex_is_match(sources[i], true, row.attachments@)
            ||| scope_body && body is Some && regex_is_match(sources[i], true, body->Some_0)
        } {
        let i = choose|i: int|
            0 <= i < sources.len() && {
                ||| regex_is_match(#[trigger] sources[i], true, row.file_name@)
                ||| regex_is_match(sources[i], true, row.subject@)
                ||| regex_is_match(sources[i], true, row.from_addr@)
                ||| regex_is_match(sources[i], true, row.to_addr@)
                ||| regex_is_match(sources[i], true, row.date@)
                ||| regex_is_match(sources[i], true, row.attachments@)
                ||| scope_body && body is Some && regex_is_match(sources[i], true, body->Some_0)
            };
        assert(header_matches(sources[i], row) || (scope_body && body_matches(sources[i], body)));
    }
}

/// Law: the body is asked for exactly where it is searched and no expression
/// matches one of the six header texts.
pub proof fn law_header_texts_decide_first(sources: Seq<Seq<char>>, row: SearchHit)
    ensures
        some_header_matches(sources, row) <==> exists|i: int|
            0 <= i < sources.len() && {
                ||| regex_is_match(#[trigger] sources[i], true, row.file_name@)
                ||| regex_is_match(sources[i], true, row.subject@)
                ||| regex_is_match(sources[i], true, row.from_addr@)
                ||| regex_is_match(sources[i], true, row.to_addr@)
                ||| regex_is_match(sources[i], true, row.date@)
                ||| regex_is_match(sources[i], true, row.attachments@)
            },
{
    law_row_is_found_where_a_text_matches(sources, false, row, None);
}

/// Law: a row that is found is added behind those found before it, as long as
/// fewer than twenty thousand have been found. Any other row changes nothing.
pub proof fn law_found_rows_are_added(
    hits: Seq<SearchHit>,
    sources: Seq<Seq<char>>,
    scope_body: bool,
    row: SearchHit,
    body: Option<Seq<char>>,
)
    ensures
        row_matches(sources, scope_body, row, body) && hits.len() < 20000 ==> hits_after(
            hits,
            sources,
            scope_body,
            row,
            body,
        ) == hits.push(row),
        !row_matches(sources, scope_body, row, body) || hits.len() >= 20000 ==> hits_after(
            hits,
            sources,
            scope_body,
            row,
            body,
        ) == hits,
{
}

/// Law: the first expression that does not compile is the one reported, with the
/// reason. All compile where none fails.
pub proof fn law_first_bad_expression_is_reported(sources: Seq<Seq<char>>, i: int)
    requires
        0 <= i < sources.len(),
        forall|j: int| 0 <= j < i ==> regex_build(#[trigger] sources[j], true) is Ok,
        regex_build(sources[i], true) is Err,
    ensures
        !all_compile(sources),
        first_failure(sources) == "正则表达式无效 \""@ + sources[i] + "\": "@ + regex_build(
            sources[i],
            true,
        )->Err_0,
    decreases i,
{
    if i > 0 {
        let rest = sources.drop_first();
        assert(regex_build(sources[0], true) is Ok);
        assert(rest[i - 1] == sources[i]);
        assert forall|j: int| 0 <= j < i - 1 implies regex_build(#[trigger] rest[j], true) is Ok by {
            assert(rest[j] == sources[j + 1]);
        }
        law_first_bad_expression_is_reported(rest, i - 1);
    }
}

/// Law: expressions compile where each of them does.
pub proof fn law_all_expressions_compile(sources: Seq<Seq<char>>)
    requires
        forall|j: int| 0 <= j < sources.len() ==> regex_build(#[trigger] sources[j], true) is Ok,
    ensures
        all_compile(sources),
{
}

/// Law: keywords are counted in the subject, the sender, the recipients, the file
/// name and the body where one counts, in lower case. Each keyword adds how often
/// it occurs there in lower case to what the hit scores already.
pub proof fn law_every_keyword_is_counted_in_all_texts(
    hit: SearchHit,
    body: Option<Seq<char>>,
    keywords: Seq<Seq<char>>,
    word: Seq<char>,
)
    ensures
        new_score(hit, body, Seq::empty()) == hit.score,
        new_score(hit, body, keywords.push(word)) == new_score(hit, body, keywords) + occurrences(
            lowercase(({
                let header = hit.subject@ + seq!['\n'] + hit.from_addr@ + seq!['\n'] + hit.to_addr@
                    + seq!['\n'] + hit.file_name@;
                match body {
                    Some(text) => header + seq!['\n'] + text,
                    None => header,
                }
            })),
            lowercase(word),
        ),
{
    reveal_strlit("\n");
    let sep = "\n"@;
    assert(sep =~= seq!['\n']);
    let parts = counted_parts(hit, body);
    reveal_with_fuel(joined, 6);
    assert(joined(parts, sep) =~= ({
                let header = hit.subject@ + seq!['\n'] + hit.from_addr@ + seq!['\n'] + hit.to_addr@
                    + seq!['\n'] + hit.file_name@;
                match body {
                    Some(text) => header + seq!['\n'] + text,
                    None => header,
                }
            })) by {
        let header = seq![hit.subject@, hit.from_addr@, hit.to_addr@, hit.file_name@];
        assert(header.drop_last() =~= seq![hit.subject@, hit.from_addr@, hit.to_addr@]);
        assert(header.drop_last().drop_last() =~= seq![hit.subject@, hit.from_addr@]);
        assert(header.drop_last().drop_last().drop_last() =~= seq![hit.subject@]);
        assert(seq![hit.subject@].drop_last() =~= Seq::<Seq<char>>::empty());
        if body is Some {
            assert(parts.drop_last() =~= header);
        } else {
            assert(parts =~= header);
        }
    }
    let text = counted_text(hit, body);
    let lower = all_lowercase(keywords);
    assert(all_lowercase(keywords.push(word)) =~= lower.push(lowercase(word)));
    assert(lower.push(lowercase(word)).drop_last() =~= lower);
    assert(all_lowercase(Seq::<Seq<char>>::empty()) =~= Seq::<Seq<char>>::empty());
}

/// Law: a hit scores at least as often as any one keyword occurs in its texts.
pub proof fn law_score_is_at_least_that_of_each_keyword(
    hit: SearchHit,
    body: Option<Seq<char>>,
    keywords: Seq<Seq<char>>,
    k: int,
)
    requires
        0 <= k < keywords.len(),
    ensures
        new_score(hit, body, keywords) >= hit.score + occurrences(
            lowercase(({
                let header = hit.subject@ + seq!['\n'] + hit.from_addr@ + seq!['\n'] + hit.to_addr@
                    + seq!['\n'] + hit.file_name@;
                match body {
                    Some(text) => header + seq!['\n'] + text,
                    None => header,
                }
            })),
            lowercase(keywords[k]),
        ),
    decreases keywords.len(),
{
    let init = keywords.drop_last();
    assert(init.push(keywords.last()) =~= keywords);
    law_every_keyword_is_counted_in_all_texts(hit, body, init, keywords.last());
    if k < init.len() {
        law_score_is_at_least_that_of_each_keyword(hit, body, init, k);
    }
}

/// Law: a keyword without a line break scores the sum of its occurrences in the
/// subject, the sender, the recipients, the file name and the body. It holds where
/// the lower case of the texts together is that of each with line breaks between
/// them.
pub proof fn law_keyword_scores_the_sum_over_the_texts(
    hit: SearchHit,
    body: Option<Seq<char>>,
    keywords: Seq<Seq<char>>,
    word: Seq<char>,
)
    requires
        !lowercase(word).contains('\n'),
        lowercase(({
                let header = hit.subject@ + seq!['\n'] + hit.from_addr@ + seq!['\n'] + hit.to_addr@
                    + seq!['\n'] + hit.file_name@;
                match body {
                    Some(text) => header + seq!['\n'] + text,
                    None => header,
                }
            })) == ({
            let header = lowercase(hit.subject@) + seq!['\n'] + lowercase(hit.from_addr@)
                + seq!['\n'] + lowercase(hit.to_addr@) + seq!['\n'] + lowercase(hit.file_name@);
            match body {
                Some(text) => header + seq!['\n'] + lowercase(text),
                None => header,
            }
        }),
    ensures
        new_score(hit, body, keywords.push(word)) == new_score(hit, body, keywords) + occurrences(
            lowercase(hit.subject@),
            lowercase(word),
        ) + occurrences(lowercase(hit.from_addr@), lowercase(word)) + occurrences(
            lowercase(hit.to_addr@),
            lowercase(word),
        ) + occurrences(lowercase(hit.file_name@), lowercase(word)) + match body {
            Some(text) => occurrences(lowercase(text), lowercase(word)) as int,
            None => 0,
        },
{
    law_every_keyword_is_counted_in_all_texts(hit, body, keywords, word);
    let key = lowercase(word);
    let s = lowercase(hit.subject@);
    let f = lowercase(hit.from_addr@);
    let t = lowercase(hit.to_addr@);
    let n = lowercase(hit.file_name@);
    let header = s + seq!['\n'] + f + seq!['\n'] + t + seq!['\n'] + n;
    assert(s.push('\n') + f =~= s + seq!['\n'] + f);
    law_occurrences_across_a_break(s, '\n', f, key);
    let sf = s + seq!['\n'] + f;
    assert(sf.push('\n') + t =~= sf + seq!['\n'] + t);
    law_occurrences_across_a_break(sf, '\n', t, key);
    let sft = sf + seq!['\n'] + t;
    assert(sft.push('\n') + n =~= header);
    law_occurrences_across_a_break(sft, '\n', n, key);
    if let Some(text) = body {
        let b = lowercase(text);
        assert(header.push('\n') + b =~= header + seq!['\n'] + b);
        law_occurrences_across_a_break(header, '\n', b, key);
    }
}

/// Law: a sum is given out where it fits and nowhere else, and a body counts
/// where bodies are searched and nowhere else.
pub proof fn law_sums_and_bodies_that_count(n: nat, body: Option<String>)
    ensures
        n <= usize::MAX ==> as_count(n as int) == Some(n as usize),
        n > usize::MAX ==> as_count(n as int) is None,
        counted_body(true, body) == opt_view(body),
        counted_body(false, body) is None,
{
}

/// Law: the message after a search tells how many mails were found, how they were
/// looked for, and the words.
pub proof fn law_search_message_in_words(found: nat, words: Seq<Seq<char>>)
    ensures
        search_message_text(found, true, words) == "检索到 "@ + digits(found) + " 条结果（"@ + "正则"@
            + ": "@ + joined(words, ", "@) + "）"@,
        search_message_text(found, false, words) == "检索到 "@ + digits(found) + " 条结果（"@
            + "关键词"@ + ": "@ + joined(words, ", "@) + "）"@,
{
}

/// Law: a hit scores at least as often as any one keyword occurs in any one of its
/// subject, sender, recipients, file name and body. It holds where the lower case
/// of the texts together is that of each with line breaks between them.
pub proof fn law_score_is_at_least_that_in_each_text(
    hit: SearchHit,
    body: Option<Seq<char>>,
    keywords: Seq<Seq<char>>,
    k: int,
)
    requires
        0 <= k < keywords.len(),
        lowercase(({
                let header = hit.subject@ + seq!['\n'] + hit.from_addr@ + seq!['\n'] + hit.to_addr@
                    + seq!['\n'] + hit.file_name@;
                match body {
                    Some(text) => header + seq!['\n'] + text,
                    None => header,
                }
            })) == ({
            let header = lowercase(hit.subject@) + seq!['\n'] + lowercase(hit.from_addr@)
                + seq!['\n'] + lowercase(hit.to_addr@) + seq!['\n'] + lowercase(hit.file_name@);
            match body {
                Some(text) => header + seq!['\n'] + lowercase(text),
                None => header,
            }
        }),
    ensures
        ({
            let found = new_score(hit, body, keywords) - hit.score;
            let word = lowercase(keywords[k]);
            &&& found >= occurrences(lowercase(hit.subject@), word)
            &&& found >= occurrences(lowercase(hit.from_addr@), word)
            &&& found >= occurrences(lowercase(hit.to_addr@), word)
            &&& found >= occurrences(lowercase(hit.file_name@), word)
            &&& body matches Some(text) ==> found >= occurrences(lowercase(text), word)
        }),
{
    law_score_is_at_least_that_of_each_keyword(hit, body, keywords, k);
    let word = lowercase(keywords[k]);
    let none = Seq::<char>::empty();
    let s = lowercase(hit.subject@);
    let f = lowercase(hit.from_addr@);
    let t = lowercase(hit.to_addr@);
    let n = lowercase(hit.file_name@);
    let end = match body {
        Some(text) => seq!['\n'] + lowercase(text),
        None => none,
    };
    let all = s + seq!['\n'] + f + seq!['\n'] + t + seq!['\n'] + n + end;
    assert(all =~= ({
        let header = s + seq!['\n'] + f + seq!['\n'] + t + seq!['\n'] + n;
        match body {
            Some(text) => header + seq!['\n'] + lowercase(text),
            None => header,
        }
    }));
    let behind_s = seq!['\n'] + f + seq!['\n'] + t + seq!['\n'] + n + end;
    law_occurrences_in_a_part(none, s, behind_s, word);
    assert(none + s + behind_s =~= all);
    let behind_f = seq!['\n'] + t + seq!['\n'] + n + end;
    law_occurrences_in_a_part(s + seq!['\n'], f, behind_f, word);
    assert(s + seq!['\n'] + f + behind_f =~= all);
    let behind_t = seq!['\n'] + n + end;
    law_occurrences_in_a_part(s + seq!['\n'] + f + seq!['\n'], t, behind_t, word);
    assert(s + seq!['\n'] + f + seq!['\n'] + t + behind_t =~= all);
    let before_n = s + seq!['\n'] + f + seq!['\n'] + t + seq!['\n'];
    law_occurrences_in_a_part(before_n, n, end, word);
    if let Some(text) = body {
        let b = lowercase(text);
        law_occurrences_in_a_part(before_n + n + seq!['\n'], b, none, word);
        assert(before_n + n + seq!['\n'] + b + none =~= all);
    }
}

} // verus!
