//! Scanning a directory into the index: which files are taken, which are
//! skipped, what is stored of each, and what is reported on the way.
use vstd::hash_map::StringHashMap;
use vstd::prelude::*;

use crate::arrange::{arrange, goes_first, lists_range, Ranked};
use crate::db::{readable, readable_of, IndexedMail};
use crate::mail_parse::{can_decode, mail_in, parse_file, MailTexts, ParsedMail, NOT_A_MAIL};
use crate::numerals::{
    digits, is_digit, law_number_read_back, lemma_digits_value, number, parse_usize, signed,
    signed_number, usize_in,
};
use crate::order::{
    law_path_rank_flips, law_path_rank_same, law_path_rank_transitive, names_view, path_rank,
    rank_paths, Rank,
};
use crate::text::{
    chars_of, join, joined, law_non_empty_parts, law_separator_parts_the_text,
    law_text_without_separator_is_one_piece, law_without_leading, lemma_non_empty_of_two,
    lemma_non_empty_push, lemma_views_push, lowercase, non_empty, pieces, same_text, split,
    stands_at, stands_at_position, string_from, trim, trim_leading, trimmed, truncate, truncated,
    views, without_leading,
};

verus! {

/// What to scan, and how.
pub struct ScanOptions {
    pub root: String,
    /// The extensions that are asked for, in lower case and without a dot. None
    /// means that extensions do not matter.
    pub include_exts: Vec<String>,
    /// Whether files with other extensions are left out.
    pub exclude_by_ext: bool,
    /// Whether files that have not changed are skipped.
    pub incremental: bool,
}

/// How far a scan has come.
pub struct ScanProgress {
    pub scanned: usize,
    pub indexed: usize,
    pub failed: usize,
    pub skipped: usize,
    pub done: bool,
    pub cancelled: bool,
}

/// What the walk through a directory comes upon.
pub struct WalkEntry {
    pub is_file: bool,
    /// The names that lead to it from the directory, each in the bytes that the
    /// system orders names by.
    pub names: Vec<Vec<u8>>,
    /// What stands behind the last dot of the file name, if anything does.
    pub extension: Option<String>,
}

/// What separates extensions: a comma, a semicolon or a space.
pub const EXTENSION_SEPARATORS: &'static str = ",; ";

/// The most characters of a body that are stored.
pub const MAX_BODY_CHARS: usize = 500000;

/// How many files go by between two reports of progress.
pub const REPORT_EVERY: usize = 200;

/// How many rejected files are reported.
pub const MAX_REJECTIONS_REPORTED: usize = 20;

/// An extension as it was typed, brought to the form it is compared in.
pub open spec fn extension_of(typed: Seq<char>) -> Seq<char> {
    lowercase(without_leading(trimmed(typed), '.'))
}

/// The extensions in what was typed.
pub open spec fn extensions_in(typed: Seq<char>) -> Seq<Seq<char>> {
    let parts = pieces(typed, EXTENSION_SEPARATORS@);
    non_empty(Seq::new(parts.len(), |i: int| extension_of(parts[i])))
}

/// Reads the extensions from what was typed.
pub fn parse_extensions(typed: &str) -> (r: Vec<String>)
    ensures
        views(r@) == extensions_in(typed@),
{
    let parts = split(typed, EXTENSION_SEPARATORS);
    let ghost given = views(parts@);
    let ghost all = Seq::new(given.len(), |i: int| extension_of(given[i]));
    let mut out: Vec<String> = Vec::new();
    let mut i: usize = 0;
    proof {
        reveal(Seq::filter);
        assert(all.take(0) =~= Seq::<Seq<char>>::empty());
        assert(views(out@) =~= non_empty(all.take(0)));
    }
    while i < parts.len()
        invariant
            i <= parts@.len(),
            given == views(parts@),
            all == Seq::new(given.len(), |i: int| extension_of(given[i])),
            views(out@) == non_empty(all.take(i as int)),
        decreases parts@.len() - i,
    {
        let bare = trim(parts[i].as_str());
        let name = trim_leading(bare.as_str(), '.');
        let ext = name.as_str().to_lowercase();
        proof {
            assert(all.take(i + 1) =~= all.take(i as int).push(ext@));
            lemma_non_empty_push(all.take(i as int), ext@);
            lemma_views_push(out@, ext);
        }
        if !ext.as_str().is_empty() {
            out.push(ext);
        }
        i += 1;
    }
    assert(all.take(i as int) =~= all);
    out
}

/// Law: an extension that is asked for is never empty, and is the lower case of
/// a text that does not begin with a dot.
pub proof fn law_extensions_have_no_leading_dot(typed: Seq<char>, i: int)
    requires
        0 <= i < extensions_in(typed).len(),
    ensures
        extensions_in(typed)[i].len() > 0,
        exists|bare: Seq<char>|
            extensions_in(typed)[i] == #[trigger] lowercase(bare) && (bare.len() > 0 ==> bare[0]
                != '.'),
{
    let parts = pieces(typed, EXTENSION_SEPARATORS@);
    let all = Seq::new(parts.len(), |i: int| extension_of(parts[i]));
    law_non_empty_parts(all, i);
    let k = choose|k: int| 0 <= k < all.len() && all[k] == extensions_in(typed)[i];
    law_without_leading(trimmed(parts[k]), '.');
    assert(extensions_in(typed)[i] == lowercase(without_leading(trimmed(parts[k]), '.')));
}

/// The extension of an entry in lower case, empty where it has none.
pub open spec fn entry_extension(entry: WalkEntry) -> Seq<char> {
    match entry.extension {
        Some(e) => lowercase(e@),
        None => Seq::empty(),
    }
}

/// Whether a scan takes an entry: it is a file and, where extensions are asked
/// for and others are left out, it has one of those.
pub open spec fn is_candidate(entry: WalkEntry, opts: ScanOptions) -> bool {
    &&& entry.is_file
    &&& opts.include_exts@.len() > 0 && opts.exclude_by_ext ==> views(opts.include_exts@).contains(
        entry_extension(entry),
    )
}

/// Law: where no extensions are asked for, or where others are not left out,
/// every file is taken.
pub proof fn law_without_filter_every_file_is_taken(entry: WalkEntry, opts: ScanOptions)
    requires
        opts.include_exts@.len() == 0 || !opts.exclude_by_ext,
    ensures
        is_candidate(entry, opts) == entry.is_file,
{
}

/// Law: upper and lower case make no difference to whether a file is taken.
pub proof fn law_extension_case_does_not_matter(a: WalkEntry, b: WalkEntry, opts: ScanOptions)
    requires
        a.is_file == b.is_file,
        entry_extension(a) == entry_extension(b),
    ensures
        is_candidate(a, opts) == is_candidate(b, opts),
{
}

/// Whether `list` holds the text.
fn list_contains(list: &Vec<String>, text: &str) -> (r: bool)
    ensures
        r == views(list@).contains(text@),
{
    let mut i: usize = 0;
    while i < list.len()
        invariant
            i <= list@.len(),
            forall|j: int| 0 <= j < i ==> views(list@)[j] != text@,
        decreases list@.len() - i,
    {
        if same_text(list[i].as_str(), text) {
            assert(views(list@)[i as int] == text@);
            return true;
        }
        i += 1;
    }
    false
}

/// Whether a scan takes an entry.
pub fn takes_entry(entry: &WalkEntry, opts: &ScanOptions) -> (r: bool)
    ensures
        r == is_candidate(*entry, *opts),
{
    if !entry.is_file {
        return false;
    }
    if opts.include_exts.len() > 0 {
        let ext = match &entry.extension {
            Some(e) => e.as_str().to_lowercase(),
            None => String::new(),
        };
        assert(ext@ =~= entry_extension(*entry));
        let listed = list_contains(&opts.include_exts, ext.as_str());
        if opts.exclude_by_ext && !listed {
            return false;
        }
    }
    true
}

/// The path of an entry below the directory.
pub open spec fn entry_path(entry: WalkEntry) -> Seq<Seq<u8>> {
    names_view(entry.names@)
}

/// Whether `kept` lists the positions of the entries that a scan takes, each
/// once, in the order of their paths. Entries of one path would stand as they
/// stood.
pub open spec fn lists_candidates(
    kept: Seq<usize>,
    entries: Seq<WalkEntry>,
    opts: ScanOptions,
) -> bool {
    &&& forall|i: int|
        0 <= i < kept.len() ==> 0 <= #[trigger] kept[i] < entries.len() && is_candidate(
            entries[kept[i] as int],
            opts,
        )
    &&& forall|k: usize|
        0 <= k < entries.len() && is_candidate(entries[k as int], opts)
            ==> #[trigger] kept.contains(k)
    &&& forall|i: int, j: int|
        0 <= i < j < kept.len() ==> match path_rank(
            entry_path(entries[#[trigger] kept[i] as int]),
            entry_path(entries[#[trigger] kept[j] as int]),
        ) {
            Rank::Before => true,
            Rank::Same => kept[i] < kept[j],
            Rank::After => false,
        }
}

/// The path that an entry is put in order by.
struct PathKey {
    names: Vec<Vec<u8>>,
}

impl Ranked for PathKey {
    closed spec fn rank(self, other: Self) -> Rank {
        path_rank(names_view(self.names@), names_view(other.names@))
    }

    proof fn rank_flips(a: Self, b: Self) {
        law_path_rank_flips(names_view(a.names@), names_view(b.names@));
    }

    proof fn rank_transitive(a: Self, b: Self, c: Self) {
        law_path_rank_transitive(
            names_view(a.names@),
            names_view(b.names@),
            names_view(c.names@),
        );
    }

    fn rank_with(&self, other: &Self) -> (r: Rank) {
        rank_paths(&self.names, &other.names)
    }
}

/// A copy of the names of a path.
fn copy_names(names: &Vec<Vec<u8>>) -> (r: Vec<Vec<u8>>)
    ensures
        names_view(r@) == names_view(names@),
{
    let mut out: Vec<Vec<u8>> = Vec::new();
    let mut i: usize = 0;
    while i < names.len()
        invariant
            i <= names@.len(),
            out@.len() == i,
            forall|k: int| 0 <= k < i ==> (#[trigger] out@[k])@ == names@[k]@,
        decreases names@.len() - i,
    {
        let name = names[i].clone();
        assert(name@ =~= names@[i as int]@);
        out.push(name);
        i += 1;
    }
    assert(names_view(out@) =~= names_view(names@));
    out
}

/// The positions of the entries that a scan takes, in the order of their paths.
pub fn collect_files(entries: &Vec<WalkEntry>, opts: &ScanOptions) -> (kept: Vec<usize>)
    ensures
        lists_candidates(kept@, entries@, *opts),
{
    let mut found: Vec<usize> = Vec::new();
    let mut keys: Vec<PathKey> = Vec::new();
    let mut i: usize = 0;
    while i < entries.len()
        invariant
            i <= entries@.len(),
            keys@.len() == found@.len(),
            forall|a: int, b: int| 0 <= a < b < found@.len() ==> found@[a] < found@[b],
            forall|a: int|
                0 <= a < found@.len() ==> 0 <= #[trigger] found@[a] < i && is_candidate(
                    entries@[found@[a] as int],
                    *opts,
                ),
            forall|a: int|
                0 <= a < keys@.len() ==> names_view((#[trigger] keys@[a]).names@) == entry_path(
                    entries@[found@[a] as int],
                ),
            forall|k: usize|
                0 <= k < i && is_candidate(entries@[k as int], *opts)
                    ==> #[trigger] found@.contains(k),
        decreases entries@.len() - i,
    {
        let ghost before = found@;
        if takes_entry(&entries[i], opts) {
            found.push(i);
            keys.push(PathKey { names: copy_names(&entries[i].names) });
            assert(found@[found@.len() - 1] == i);
        }
        assert forall|k: usize|
            0 <= k < i + 1 && is_candidate(
                entries@[k as int],
                *opts,
            ) implies #[trigger] found@.contains(k) by {
            if k < i {
                assert(before.contains(k));
                let a = choose|a: int| 0 <= a < before.len() && before[a] == k;
                assert(found@[a] == k);
            }
        }
        i += 1;
    }
    let order = arrange(&keys);
    let mut kept: Vec<usize> = Vec::new();
    let mut n: usize = 0;
    while n < order.len()
        invariant
            n <= order@.len(),
            keys@.len() == found@.len(),
            lists_range(order@, 0, keys@.len() as int),
            kept@.len() == n,
            forall|a: int| 0 <= a < n ==> #[trigger] kept@[a] == found@[order@[a] as int],
        decreases order@.len() - n,
    {
        kept.push(found[order[n]]);
        n += 1;
    }
    proof {
        assert forall|k: usize|
            0 <= k < entries@.len() && is_candidate(
                entries@[k as int],
                *opts,
            ) implies #[trigger] kept@.contains(k) by {
            assert(found@.contains(k));
            let a = choose|a: int| 0 <= a < found@.len() && found@[a] == k;
            assert(order@.contains(a as usize));
            let b = choose|b: int| 0 <= b < order@.len() && order@[b] == a as usize;
            assert(kept@[b] == k);
        }
        assert forall|a: int, b: int| 0 <= a < b < kept@.len() implies match path_rank(
            entry_path(entries@[#[trigger] kept@[a] as int]),
            entry_path(entries@[#[trigger] kept@[b] as int]),
        ) {
            Rank::Before => true,
            Rank::Same => kept@[a] < kept@[b],
            Rank::After => false,
        } by {
            let x = order@[a] as int;
            let y = order@[b] as int;
            assert(goes_first(keys@, x, y));
            assert(names_view(keys@[x].names@) == entry_path(entries@[found@[x] as int]));
            assert(names_view(keys@[y].names@) == entry_path(entries@[found@[y] as int]));
        }
    }
    kept
}

/// Law: the files of a scan ascend in the order of their paths, and no file comes
/// twice, where no two entries of the walk have the same path.
pub proof fn law_collected_files_ascend(
    kept: Seq<usize>,
    entries: Seq<WalkEntry>,
    opts: ScanOptions,
    i: int,
    j: int,
)
    requires
        lists_candidates(kept, entries, opts),
        forall|x: int, y: int|
            0 <= x < y < entries.len() ==> entry_path(#[trigger] entries[x]) != entry_path(
                #[trigger] entries[y],
            ),
        0 <= i < j < kept.len(),
    ensures
        path_rank(entry_path(entries[kept[i] as int]), entry_path(entries[kept[j] as int]))
            == Rank::Before,
        kept[i] != kept[j],
{
    let a = entry_path(entries[kept[i] as int]);
    let b = entry_path(entries[kept[j] as int]);
    law_path_rank_same(a, b);
    assert(0 <= kept[j] < entries.len());
}

/// The modification times that the index has recorded, by path.
pub struct KnownFiles {
    mtimes: StringHashMap<i64>,
}

impl View for KnownFiles {
    type V = Map<Seq<char>, i64>;

    closed spec fn view(&self) -> Map<Seq<char>, i64> {
        self.mtimes@
    }
}

impl KnownFiles {
    /// No recorded files.
    pub fn new() -> (r: KnownFiles)
        ensures
            r@ == Map::<Seq<char>, i64>::empty(),
    {
        KnownFiles { mtimes: StringHashMap::new() }
    }

    /// Adds what is recorded of a path, in place of what was.
    pub fn record(&mut self, path: String, mtime: i64)
        ensures
            final(self)@ == old(self)@.insert(path@, mtime),
    {
        self.mtimes.insert(path, mtime);
    }

    /// Whether the file has the modification time that is recorded for it.
    pub fn is_unchanged(&self, path: &str, mtime: i64) -> (r: bool)
        ensures
            r == (self@.contains_key(path@) && self@[path@] == mtime),
    {
        match self.mtimes.get(path) {
            Some(old_mtime) => *old_mtime == mtime,
            None => false,
        }
    }
}

/// What the system says of a file.
pub struct FileMeta {
    pub size: u64,
    /// When the file was last changed, in seconds since 1970, where that is
    /// known and not before 1970.
    pub modified: Option<u64>,
}

/// The modification time that is stored for a file: zero where it is not known.
pub open spec fn mtime_of(meta: FileMeta) -> i64 {
    match meta.modified {
        Some(seconds) => seconds as i64,
        None => 0,
    }
}

/// What is to be done with a file.
#[derive(Clone, Copy, Debug, PartialEq, Eq, Structural)]
pub enum FileVerdict {
    /// The file could not be looked up.
    Unreadable,
    /// The file has not changed since it was indexed.
    Unchanged,
    /// The file is to be read. Its modification time goes with it.
    Read { mtime: i64 },
}

/// Whether a file is skipped: the scan is incremental and the file has the
/// modification time that is recorded for it. A file whose modification time is
/// not known is never skipped.
pub open spec fn is_skipped(
    incremental: bool,
    known: Map<Seq<char>, i64>,
    path: Seq<char>,
    meta: FileMeta,
) -> bool {
    incremental && meta.modified is Some && known.contains_key(path) && known[path] == mtime_of(
        meta,
    )
}

/// What is to be done with a file, given what the system says of it.
pub open spec fn verdict_on(
    opts: ScanOptions,
    known: Map<Seq<char>, i64>,
    path: Seq<char>,
    meta: Option<FileMeta>,
) -> FileVerdict {
    match meta {
        None => FileVerdict::Unreadable,
        Some(m) => if is_skipped(opts.incremental, known, path, m) {
            FileVerdict::Unchanged
        } else {
            FileVerdict::Read { mtime: mtime_of(m) }
        },
    }
}

/// Decides what is to be done with a file.
pub fn judge_file(
    opts: &ScanOptions,
    known: &KnownFiles,
    path: &str,
    meta: &Option<FileMeta>,
) -> (r: FileVerdict)
    ensures
        r == verdict_on(*opts, known@, path@, *meta),
{
    match meta {
        None => FileVerdict::Unreadable,
        Some(m) => {
            let mtime: i64 = match m.modified {
                Some(seconds) => seconds as i64,
                None => 0,
            };
            if opts.incremental && m.modified.is_some() && known.is_unchanged(path, mtime) {
                FileVerdict::Unchanged
            } else {
                FileVerdict::Read { mtime }
            }
        },
    }
}

/// Whether `m` is what the index stores of a mail with the given texts.
pub open spec fn stores(
    m: IndexedMail,
    path: Seq<char>,
    file_name: Seq<char>,
    size: u64,
    mtime: i64,
    texts: MailTexts,
) -> bool {
    &&& m.path@ == path
    &&& m.file_name@ == file_name
    &&& m.size == size
    &&& m.mtime == mtime
    &&& m.subject@ == texts.subject
    &&& m.from_addr@ == texts.from
    &&& m.to_addr@ == texts.to
    &&& m.date@ == texts.date
    &&& m.body_text@ == truncated(texts.body_text, MAX_BODY_CHARS as nat)
    &&& m.attachments@ == joined(texts.attachments, ", "@)
}

/// `chrono::Utc::now`, in seconds since 1970. The clock decides, so nothing is
/// said of the result but that it is not negative: a clock that stands before
/// 1970 makes the call panic.
#[verifier::external_body]
fn current_timestamp() -> (r: i64)
    ensures
        r >= 0,
{
    chrono::Utc::now().timestamp()
}

/// What the index stores of a mail.
pub fn indexed_mail(
    path: &str,
    file_name: &str,
    size: u64,
    mtime: i64,
    mail: ParsedMail,
    indexed_at: i64,
) -> (r: IndexedMail)
    ensures
        stores(r, path@, file_name@, size, mtime, mail@),
        r.indexed_at == indexed_at,
{
    let body_text = truncate(mail.body_text.as_str(), MAX_BODY_CHARS);
    let attachments = join(&mail.attachments, ", ");
    IndexedMail {
        path: path.to_string(),
        file_name: file_name.to_string(),
        size,
        mtime,
        indexed_at,
        subject: mail.subject,
        from_addr: mail.from,
        to_addr: mail.to,
        date: mail.date,
        body_text,
        attachments,
    }
}

/// Reads the mail in a file, given its bytes or why they could not be had, and
/// gives what the index stores of it. The time of indexing is the clock's.
pub fn index_file(
    path: &str,
    file_name: &str,
    size: u64,
    mtime: i64,
    raw: Result<Vec<u8>, String>,
) -> (r: Result<IndexedMail, String>)
    requires
        raw matches Ok(bytes) ==> can_decode(bytes@),
    ensures
        match raw {
            Ok(bytes) => match r {
                Ok(m) => {
                    &&& mail_in(bytes@) matches Some(texts)
                    &&& stores(m, path@, file_name@, size, mtime, texts)
                    &&& m.indexed_at >= 0
                },
                Err(e) => mail_in(bytes@) is None && e@ == NOT_A_MAIL@,
            },
            Err(reason) => r matches Err(e) && e@ == reason@,
        },
{
    match parse_file(raw) {
        Ok(mail) => Ok(indexed_mail(path, file_name, size, mtime, mail, current_timestamp())),
        Err(e) => Err(e),
    }
}

/// Law: what is stored of a body is its beginning, and never more than
/// `MAX_BODY_CHARS` characters.
pub proof fn law_stored_body_is_a_beginning(
    m: IndexedMail,
    path: Seq<char>,
    file_name: Seq<char>,
    size: u64,
    mtime: i64,
    texts: MailTexts,
)
    requires
        stores(m, path, file_name, size, mtime, texts),
    ensures
        m.body_text@.len() <= MAX_BODY_CHARS,
        m.body_text@.is_prefix_of(texts.body_text),
        texts.body_text.len() <= MAX_BODY_CHARS ==> m.body_text@ == texts.body_text,
{
}

/// The report of progress.
pub open spec fn progress_text(done: nat, total: nat) -> Seq<char> {
    "进度 "@ + digits(done) + "/"@ + digits(total)
}

/// The report of progress.
pub fn progress_line(done: usize, total: usize) -> (r: String)
    ensures
        r@ == progress_text(done as nat, total as nat),
{
    let mut out = "进度 ".to_string();
    let n = number(done as u128);
    out.append(n.as_str());
    out.append("/");
    let t = number(total as u128);
    out.append(t.as_str());
    out
}

/// Where `c` first occurs in `s`, or the end of `s` where it does not.
pub open spec fn first_position(s: Seq<char>, c: char) -> int
    decreases s.len(),
{
    if s.len() == 0 || s[0] == c {
        0
    } else {
        1 + first_position(s.drop_first(), c)
    }
}

/// The two numbers of a report of progress, where the line is one: the prefix,
/// a number, a slash and a number.
pub open spec fn progress_in(line: Seq<char>) -> Option<(usize, usize)> {
    let prefix = "进度 "@;
    if !stands_at(line, 0, prefix) {
        None
    } else {
        let rest = line.skip(prefix.len() as int);
        let at = first_position(rest, '/');
        if at >= rest.len() {
            None
        } else {
            match (usize_in(rest.take(at)), usize_in(rest.skip(at + 1))) {
                (Some(a), Some(b)) => Some((a, b)),
                _ => None,
            }
        }
    }
}

proof fn lemma_first_position(s: Seq<char>, c: char, k: int)
    requires
        0 <= k <= s.len(),
        forall|i: int| 0 <= i < k ==> s[i] != c,
        k < s.len() ==> s[k] == c,
    ensures
        first_position(s, c) == k,
    decreases s.len(),
{
    if k > 0 {
        lemma_first_position(s.drop_first(), c, k - 1);
    }
}

/// Reads the two numbers of a report of progress, where the line is one.
pub fn parse_progress(line: &str) -> (r: Option<(usize, usize)>)
    ensures
        r == progress_in(line@),
{
    let v = chars_of(line);
    let prefix = chars_of("进度 ");
    if !stands_at_position(&v, 0, &prefix) {
        return None;
    }
    let start: usize = prefix.len();
    let end: usize = v.len();
    let ghost rest = v@.skip(start as int);
    let mut i: usize = start;
    while i < end && v[i] != '/'
        invariant
            start <= i <= end == v@.len(),
            rest == v@.skip(start as int),
            forall|j: int| 0 <= j < i - start ==> #[trigger] rest[j] != '/',
        decreases end - i,
    {
        i += 1;
    }
    proof {
        lemma_first_position(rest, '/', i - start);
    }
    if i == end {
        return None;
    }
    let a = string_from(&v, start, i);
    let b = string_from(&v, i + 1, end);
    proof {
        assert(a@ =~= rest.take(i - start));
        assert(b@ =~= rest.skip(i - start + 1));
    }
    match (parse_usize(a.as_str()), parse_usize(b.as_str())) {
        (Some(x), Some(y)) => Some((x, y)),
        _ => None,
    }
}

/// Law: a report of progress is read back as the numbers it was written for.
pub proof fn law_progress_read_back(done: usize, total: usize)
    ensures
        progress_in(progress_text(done as nat, total as nat)) == Some((done, total)),
{
    let line = progress_text(done as nat, total as nat);
    let prefix = "进度 "@;
    let a = digits(done as nat);
    let b = digits(total as nat);
    reveal_strlit("/");
    assert(line.subrange(0, prefix.len() as int) =~= prefix);
    let rest = line.skip(prefix.len() as int);
    assert(rest =~= a + "/"@ + b);
    lemma_digits_value(done as nat);
    assert forall|i: int| 0 <= i < a.len() implies rest[i] != '/' by {
        assert(is_digit(a[i]));
        assert(rest[i] == a[i]);
    }
    lemma_first_position(rest, '/', a.len() as int);
    assert(rest.take(a.len() as int) =~= a);
    assert(rest.skip(a.len() as int + 1) =~= b);
    law_number_read_back(done);
    law_number_read_back(total);
}

/// How the scan of one file ended.
pub enum FileOutcome {
    /// The file could not be looked up.
    Unreadable,
    /// The file has not changed since it was indexed.
    Unchanged,
    /// The file was read and is no mail, or could not be read.
    Rejected { path: String, reason: String },
    /// The mail in the file is to be stored.
    Indexed { mail: IndexedMail },
}

/// How the scan of a file that was read ended.
pub fn outcome_of(path: &str, read: Result<IndexedMail, String>) -> (r: FileOutcome)
    ensures
        match read {
            Ok(m) => r == (FileOutcome::Indexed { mail: m }),
            Err(e) => {
                &&& r matches FileOutcome::Rejected { path: p, reason }
                &&& p@ == path@
                &&& reason@ == e@
            },
        },
{
    match read {
        Ok(mail) => FileOutcome::Indexed { mail },
        Err(reason) => FileOutcome::Rejected { path: path.to_string(), reason },
    }
}

/// The report of a rejected file.
pub open spec fn rejection_text(path: Seq<char>, reason: Seq<char>) -> Seq<char> {
    "[跳过] "@ + path + ": "@ + reason
}

/// The report of a rejected file.
fn rejection_line(path: &str, reason: &str) -> (r: String)
    ensures
        r@ == rejection_text(path@, reason@),
{
    let mut out = "[跳过] ".to_string();
    out.append(path);
    out.append(": ");
    out.append(reason);
    out
}

impl ScanProgress {
    /// How many files have been dealt with.
    pub open spec fn finished(self) -> int {
        self.indexed + self.failed + self.skipped
    }

    /// No more files have been dealt with than were begun.
    pub open spec fn wf(self) -> bool {
        self.finished() <= self.scanned
    }

    /// What a scan has come to once one more file was begun.
    pub open spec fn after_start(self) -> ScanProgress {
        ScanProgress { scanned: (self.scanned + 1) as usize, ..self }
    }

    /// What a scan has come to once one more file was dealt with.
    pub open spec fn after_finish(self, outcome: FileOutcome) -> ScanProgress {
        match outcome {
            FileOutcome::Unreadable => ScanProgress { failed: (self.failed + 1) as usize, ..self },
            FileOutcome::Unchanged => ScanProgress { skipped: (self.skipped + 1) as usize, ..self },
            FileOutcome::Rejected { .. } => ScanProgress {
                failed: (self.failed + 1) as usize,
                ..self
            },
            FileOutcome::Indexed { .. } => ScanProgress { indexed: (self.indexed + 1) as usize, ..self },
        }
    }

    /// The progress of a scan that has not begun.
    pub open spec fn none() -> ScanProgress {
        ScanProgress {
            scanned: 0,
            indexed: 0,
            failed: 0,
            skipped: 0,
            done: false,
            cancelled: false,
        }
    }

    /// The progress of a scan that has not begun.
    pub fn new() -> (r: ScanProgress)
        ensures
            r == ScanProgress::none(),
            r.wf(),
    {
        ScanProgress {
            scanned: 0,
            indexed: 0,
            failed: 0,
            skipped: 0,
            done: false,
            cancelled: false,
        }
    }

    /// Begins one of `total` files. Every `REPORT_EVERY` files, and with the
    /// last one, the progress is reported.
    pub fn start_file(&mut self, total: usize) -> (report: Option<String>)
        requires
            old(self).wf(),
            old(self).scanned < usize::MAX,
        ensures
            *final(self) == old(self).after_start(),
            final(self).wf(),
            match report {
                Some(line) => {
                    &&& final(self).scanned % REPORT_EVERY == 0 || final(self).scanned == total
                    &&& line@ == progress_text(final(self).scanned as nat, total as nat)
                },
                None => final(self).scanned % REPORT_EVERY != 0 && final(self).scanned != total,
            },
    {
        self.scanned = self.scanned + 1;
        if self.scanned % REPORT_EVERY == 0 || self.scanned == total {
            Some(progress_line(self.scanned, total))
        } else {
            None
        }
    }

    /// Deals with a file that was begun. The first `MAX_REJECTIONS_REPORTED`
    /// failures are reported, as far as they are rejected files.
    pub fn finish_file(&mut self, outcome: &FileOutcome) -> (report: Option<String>)
        requires
            old(self).finished() < old(self).scanned,
        ensures
            *final(self) == old(self).after_finish(*outcome),
            final(self).wf(),
            final(self).finished() == old(self).finished() + 1,
            match (report, *outcome) {
                (Some(line), FileOutcome::Rejected { path, reason }) => {
                    &&& final(self).failed <= MAX_REJECTIONS_REPORTED
                    &&& line@ == rejection_text(path@, reason@)
                },
                (Some(_), _) => false,
                (None, FileOutcome::Rejected { .. }) => final(self).failed
                    > MAX_REJECTIONS_REPORTED,
                (None, _) => true,
            },
    {
        match outcome {
            FileOutcome::Unreadable => {
                self.failed = self.failed + 1;
                None
            },
            FileOutcome::Unchanged => {
                self.skipped = self.skipped + 1;
                None
            },
            FileOutcome::Rejected { path, reason } => {
                self.failed = self.failed + 1;
                if self.failed <= MAX_REJECTIONS_REPORTED {
                    Some(rejection_line(path.as_str(), reason.as_str()))
                } else {
                    None
                }
            },
            FileOutcome::Indexed { .. } => {
                self.indexed = self.indexed + 1;
                None
            },
        }
    }

    /// Ends the scan.
    pub fn close(&mut self, cancelled: bool)
        ensures
            *final(self) == (ScanProgress { done: true, cancelled, ..*old(self) }),
    {
        self.done = true;
        self.cancelled = cancelled;
    }
}

/// What a scan has come to once files with the given outcomes have been begun
/// and dealt with, one after the other.
pub open spec fn progress_of_run(outcomes: Seq<FileOutcome>) -> ScanProgress
    decreases outcomes.len(),
{
    if outcomes.len() == 0 {
        ScanProgress::none()
    } else {
        progress_of_run(outcomes.drop_last()).after_start().after_finish(outcomes.last())
    }
}

/// Law: a scan counts every file once. Of `n` files it says that it scanned
/// `n`, and those that it indexed, skipped or failed on are together as many.
pub proof fn law_every_file_counted_once(outcomes: Seq<FileOutcome>)
    requires
        outcomes.len() <= usize::MAX,
    ensures
        progress_of_run(outcomes).scanned == outcomes.len(),
        progress_of_run(outcomes).finished() == outcomes.len(),
    decreases outcomes.len(),
{
    if outcomes.len() > 0 {
        law_every_file_counted_once(outcomes.drop_last());
    }
}

/// The mails that are to be stored, in the order of the files.
pub open spec fn mails_of(outcomes: Seq<FileOutcome>) -> Seq<IndexedMail>
    decreases outcomes.len(),
{
    if outcomes.len() == 0 {
        Seq::empty()
    } else {
        let before = mails_of(outcomes.drop_last());
        match outcomes.last() {
            FileOutcome::Indexed { mail } => before.push(mail),
            _ => before,
        }
    }
}

/// Law: as many mails are stored as the scan counts as indexed.
pub proof fn law_as_many_mails_stored_as_counted(outcomes: Seq<FileOutcome>)
    requires
        outcomes.len() <= usize::MAX,
    ensures
        mails_of(outcomes).len() == progress_of_run(outcomes).indexed,
    decreases outcomes.len(),
{
    if outcomes.len() > 0 {
        law_as_many_mails_stored_as_counted(outcomes.drop_last());
        law_every_file_counted_once(outcomes.drop_last());
    }
}

/// What a scan has read: the mails that are to be stored, and how far it came.
pub struct Harvest {
    mails: Vec<IndexedMail>,
    progress: ScanProgress,
}

impl Harvest {
    /// The mails that are to be stored.
    pub closed spec fn stored(self) -> Seq<IndexedMail> {
        self.mails@
    }

    /// How far the scan came.
    pub closed spec fn reached(self) -> ScanProgress {
        self.progress
    }

    /// As many mails are stored as are counted as indexed.
    #[verifier::type_invariant]
    closed spec fn wf(self) -> bool {
        self.mails@.len() == self.progress.indexed
    }

    /// Gathers how the files of a scan ended, in their order. Files that the
    /// scan did not come to have no outcome.
    pub fn gather(outcomes: Vec<Option<FileOutcome>>) -> (r: Harvest)
        ensures
            r.stored() == mails_of(readable_of(outcomes@)),
            r.reached() == progress_of_run(readable_of(outcomes@)),
    {
        let ended = readable(outcomes);
        let ghost all = ended@;
        let mut mails: Vec<IndexedMail> = Vec::new();
        let mut progress = ScanProgress::new();
        assert(all.take(0) =~= Seq::<FileOutcome>::empty());
        let total: usize = ended.len();
        for outcome in it: ended
            invariant
                it.seq() == all,
                all.len() == total,
                mails@ == mails_of(all.take(it.index() as int)),
                progress == progress_of_run(all.take(it.index() as int)),
        {
            let ghost i = it.index() as int;
            proof {
                assert(all.take(i + 1).drop_last() =~= all.take(i));
                assert(all.take(i + 1).last() == outcome);
                law_every_file_counted_once(all.take(i));
            }
            progress.start_file(total);
            progress.finish_file(&outcome);
            if let FileOutcome::Indexed { mail } = outcome {
                mails.push(mail);
            }
        }
        assert(all.take(all.len() as int) =~= all);
        proof {
            law_as_many_mails_stored_as_counted(all);
        }
        Harvest { mails, progress }
    }

    /// The mails that are to be stored, in the order of the files.
    pub fn mails(&self) -> (r: &Vec<IndexedMail>)
        ensures
            r@ == self.stored(),
            r@.len() == self.reached().indexed,
    {
        proof {
            use_type_invariant(self);
        }
        &self.mails
    }

    /// How far the scan came.
    pub fn progress(&self) -> (r: &ScanProgress)
        ensures
            *r == self.reached(),
    {
        &self.progress
    }

    /// What the scan is told once its files have been read.
    pub fn parsed(&self, cancelled: bool) -> (r: ScanEvent)
        ensures
            r == (ScanEvent::Parsed { mails: self.reached().indexed, cancelled }),
            self.stored().len() == self.reached().indexed,
    {
        proof {
            use_type_invariant(self);
        }
        ScanEvent::Parsed { mails: self.mails.len(), cancelled }
    }
}

/// A mail of the index, and whether its file is still there.
pub struct FilePresence {
    pub id: i64,
    pub exists: bool,
}

/// The numbers of the mails whose file is gone, in the order of the rows.
pub open spec fn missing_of(rows: Seq<FilePresence>) -> Seq<i64>
    decreases rows.len(),
{
    if rows.len() == 0 {
        Seq::empty()
    } else {
        let before = missing_of(rows.drop_last());
        if rows.last().exists {
            before
        } else {
            before.push(rows.last().id)
        }
    }
}

/// The numbers of the mails whose file is gone, in the order of the rows.
pub fn missing_ids(rows: &Vec<FilePresence>) -> (r: Vec<i64>)
    ensures
        r@ == missing_of(rows@),
{
    let mut out: Vec<i64> = Vec::new();
    let mut i: usize = 0;
    assert(rows@.take(0) =~= Seq::<FilePresence>::empty());
    while i < rows.len()
        invariant
            i <= rows@.len(),
            out@ == missing_of(rows@.take(i as int)),
        decreases rows@.len() - i,
    {
        assert(rows@.take(i + 1).drop_last() =~= rows@.take(i as int));
        if !rows[i].exists {
            out.push(rows[i].id);
        }
        i += 1;
    }
    assert(rows@.take(i as int) =~= rows@);
    out
}

/// What a scan has been told.
pub enum ScanEvent {
    /// The scan is to begin, with the index at this path.
    Requested { db_path: String },
    /// The index is open, or why it is not.
    Opened { error: Option<String> },
    /// So many files are to be looked at.
    Walked { total: usize },
    /// So many mails are to be stored.
    Parsed { mails: usize, cancelled: bool },
    /// The mails are stored.
    Written { cancelled: bool },
    /// So many mails have been removed because their file is gone.
    Removed { count: usize },
    /// The index holds so many mails.
    Counted { held: i64, cancelled: bool },
}

/// What a scan does next.
#[derive(Clone, Copy, Debug, PartialEq, Eq, Structural)]
pub enum ScanTask {
    OpenIndex,
    WalkRoot,
    ParseFiles,
    WriteMails,
    RemoveMissing,
    CountMails,
    /// The scan is over, and whether it went through.
    Finish(bool),
}

/// What a scan reports, and what it does next.
pub struct ScanStep {
    pub log: Vec<String>,
    pub next: ScanTask,
}

/// How the extensions that a scan asks for are reported.
pub open spec fn filter_text(opts: ScanOptions) -> Seq<char> {
    if opts.include_exts@.len() == 0 {
        "无（全部文件）"@
    } else {
        joined(views(opts.include_exts@), ","@) + " "@ + if opts.exclude_by_ext {
            "（排除列表外）"@
        } else {
            "（列表外也尝试解析）"@
        }
    }
}

/// The report at the end of a scan.
pub open spec fn summary_text(progress: ScanProgress, count: i64) -> Seq<char> {
    "完成：扫描 "@ + digits(progress.scanned as nat) + "，新索引 "@ + digits(
        progress.indexed as nat,
    ) + "，跳过(未变) "@ + digits(progress.skipped as nat) + "，失败 "@ + digits(
        progress.failed as nat,
    ) + "。库内共 "@ + signed(count as int) + " 条。"@
}

/// What a scan reports when it is told of an event.
pub open spec fn scan_log(
    opts: ScanOptions,
    progress: ScanProgress,
    event: ScanEvent,
) -> Seq<Seq<char>> {
    match event {
        ScanEvent::Requested { db_path } => seq!["打开索引库: "@ + db_path@],
        ScanEvent::Opened { error: Some(e) } => seq!["[错误] 打开索引库失败: "@ + e@],
        ScanEvent::Opened { error: None } => seq!["扫描目录: "@ + opts.root@],
        ScanEvent::Walked { total } => seq![
            "发现 "@ + digits(total as nat) + " 个候选文件（扩展名过滤: "@ + filter_text(opts)
                + "）"@,
        ],
        ScanEvent::Parsed { mails, cancelled } => {
            let writing = "写入数据库 "@ + digits(mails as nat) + " 条…"@;
            if cancelled {
                seq!["[已取消]"@, writing]
            } else {
                seq![writing]
            }
        },
        ScanEvent::Written { .. } => Seq::empty(),
        ScanEvent::Removed { count } => if count > 0 {
            seq!["清理已删除文件 "@ + digits(count as nat) + " 条"@]
        } else {
            Seq::empty()
        },
        ScanEvent::Counted { held, .. } => seq![summary_text(progress, held)],
    }
}

/// What a scan does next when it is told of an event. A scan that was cancelled
/// still stores what it has parsed, but removes nothing.
pub open spec fn scan_next(opts: ScanOptions, event: ScanEvent) -> ScanTask {
    match event {
        ScanEvent::Requested { .. } => ScanTask::OpenIndex,
        ScanEvent::Opened { error: Some(_) } => ScanTask::Finish(false),
        ScanEvent::Opened { error: None } => ScanTask::WalkRoot,
        ScanEvent::Walked { .. } => ScanTask::ParseFiles,
        ScanEvent::Parsed { .. } => ScanTask::WriteMails,
        ScanEvent::Written { cancelled } => if opts.incremental && !cancelled {
            ScanTask::RemoveMissing
        } else {
            ScanTask::CountMails
        },
        ScanEvent::Removed { .. } => ScanTask::CountMails,
        ScanEvent::Counted { cancelled, .. } => ScanTask::Finish(!cancelled),
    }
}

fn filter_label(opts: &ScanOptions) -> (r: String)
    ensures
        r@ == filter_text(*opts),
{
    if opts.include_exts.len() == 0 {
        "无（全部文件）".to_string()
    } else {
        let mut out = join(&opts.include_exts, ",");
        out.append(" ");
        if opts.exclude_by_ext {
            out.append("（排除列表外）");
        } else {
            out.append("（列表外也尝试解析）");
        }
        out
    }
}

fn summary_line(progress: &ScanProgress, count: i64) -> (r: String)
    ensures
        r@ == summary_text(*progress, count),
{
    let mut out = "完成：扫描 ".to_string();
    let n = number(progress.scanned as u128);
    out.append(n.as_str());
    out.append("，新索引 ");
    let n = number(progress.indexed as u128);
    out.append(n.as_str());
    out.append("，跳过(未变) ");
    let n = number(progress.skipped as u128);
    out.append(n.as_str());
    out.append("，失败 ");
    let n = number(progress.failed as u128);
    out.append(n.as_str());
    out.append("。库内共 ");
    let n = signed_number(count);
    out.append(n.as_str());
    out.append(" 条。");
    out
}

/// A text with another behind it.
fn labelled(label: &str, text: &str) -> (r: String)
    ensures
        r@ == label@ + text@,
{
    let mut out = label.to_string();
    out.append(text);
    out
}

/// A number with a text before and one behind it.
fn counted(before: &str, n: usize, behind: &str) -> (r: String)
    ensures
        r@ == before@ + digits(n as nat) + behind@,
{
    let mut out = before.to_string();
    let t = number(n as u128);
    out.append(t.as_str());
    out.append(behind);
    out
}

/// Takes a scan one step further: from what it has been told to what it reports
/// and does next.
pub fn run_scan(opts: &ScanOptions, progress: &ScanProgress, event: &ScanEvent) -> (r: ScanStep)
    ensures
        views(r.log@) == scan_log(*opts, *progress, *event),
        r.next == scan_next(*opts, *event),
{
    let mut log: Vec<String> = Vec::new();
    let next = match event {
        ScanEvent::Requested { db_path } => {
            log.push(labelled("打开索引库: ", db_path.as_str()));
            ScanTask::OpenIndex
        },
        ScanEvent::Opened { error } => {
            match error {
                Some(e) => {
                    log.push(labelled("[错误] 打开索引库失败: ", e.as_str()));
                    ScanTask::Finish(false)
                },
                None => {
                    log.push(labelled("扫描目录: ", opts.root.as_str()));
                    ScanTask::WalkRoot
                },
            }
        },
        ScanEvent::Walked { total } => {
            let mut line = counted("发现 ", *total, " 个候选文件（扩展名过滤: ");
            let filter = filter_label(opts);
            line.append(filter.as_str());
            line.append("）");
            log.push(line);
            ScanTask::ParseFiles
        },
        ScanEvent::Parsed { mails, cancelled } => {
            if *cancelled {
                log.push("[已取消]".to_string());
            }
            log.push(counted("写入数据库 ", *mails, " 条…"));
            ScanTask::WriteMails
        },
        ScanEvent::Written { cancelled } => if opts.incremental && !*cancelled {
            ScanTask::RemoveMissing
        } else {
            ScanTask::CountMails
        },
        ScanEvent::Removed { count } => {
            if *count > 0 {
                log.push(counted("清理已删除文件 ", *count, " 条"));
            }
            ScanTask::CountMails
        },
        ScanEvent::Counted { held, cancelled } => {
            log.push(summary_line(progress, *held));
            ScanTask::Finish(!*cancelled)
        },
    };
    assert(views(log@) =~= scan_log(*opts, *progress, *event));
    ScanStep { log, next }
}

/// Law: mails are removed only by an incremental scan that was not cancelled.
pub proof fn law_removal_needs_an_uncancelled_incremental_scan(opts: ScanOptions, event: ScanEvent)
    requires
        scan_next(opts, event) == ScanTask::RemoveMissing,
    ensures
        opts.incremental,
        event == (ScanEvent::Written { cancelled: false }),
{
}

/// Law: a scan that is over has gone through exactly where its index was opened
/// and it was not cancelled.
pub proof fn law_success_needs_an_uncancelled_scan(opts: ScanOptions, event: ScanEvent, ok: bool)
    requires
        scan_next(opts, event) == ScanTask::Finish(ok),
    ensures
        match event {
            ScanEvent::Opened { error } => error is Some && !ok,
            ScanEvent::Counted { cancelled, .. } => ok == !cancelled,
            _ => false,
        },
{
}

/// Whether the event is what comes of the task.
pub open spec fn comes_of(event: ScanEvent, task: ScanTask) -> bool {
    match task {
        ScanTask::OpenIndex => event is Opened,
        ScanTask::WalkRoot => event is Walked,
        ScanTask::ParseFiles => event is Parsed,
        ScanTask::WriteMails => event is Written,
        ScanTask::RemoveMissing => event is Removed,
        ScanTask::CountMails => event is Counted,
        ScanTask::Finish(_) => false,
    }
}

/// How many tasks may still follow.
pub open spec fn tasks_left(task: ScanTask) -> nat {
    match task {
        ScanTask::OpenIndex => 6,
        ScanTask::WalkRoot => 5,
        ScanTask::ParseFiles => 4,
        ScanTask::WriteMails => 3,
        ScanTask::RemoveMissing => 2,
        ScanTask::CountMails => 1,
        ScanTask::Finish(_) => 0,
    }
}

/// Law: a scan comes to its end. It begins with opening the index, and each task
/// leads on to a later one.
pub proof fn law_scan_comes_to_its_end(opts: ScanOptions, task: ScanTask, event: ScanEvent)
    ensures
        event is Requested ==> scan_next(opts, event) == ScanTask::OpenIndex,
        comes_of(event, task) ==> tasks_left(scan_next(opts, event)) < tasks_left(task),
        tasks_left(task) == 0 <==> task is Finish,
{
}

/// Law: a scan that was cancelled still stores what it has parsed.
pub proof fn law_cancelled_scan_still_stores(opts: ScanOptions, mails: usize, cancelled: bool)
    ensures
        scan_next(opts, ScanEvent::Parsed { mails, cancelled }) == ScanTask::WriteMails,
{
}

/// Law: an incremental scan passes over exactly the files whose modification
/// time is known and the recorded one, and any other scan passes over none.
pub proof fn law_only_unchanged_files_are_skipped(
    opts: ScanOptions,
    known: Map<Seq<char>, i64>,
    path: Seq<char>,
    meta: FileMeta,
)
    ensures
        verdict_on(opts, known, path, Some(meta)) == FileVerdict::Unchanged <==> opts.incremental
            && meta.modified is Some && known.contains_key(path) && known[path] == mtime_of(meta),
        !opts.incremental ==> verdict_on(opts, known, path, Some(meta)) == (FileVerdict::Read {
            mtime: mtime_of(meta),
        }),
{
}

/// Law: once a mail is stored, an incremental scan passes over its file until
/// the modification time of the file is another one or not known.
pub proof fn law_indexed_file_is_read_again_once_changed(
    opts: ScanOptions,
    known: Map<Seq<char>, i64>,
    m: IndexedMail,
    path: Seq<char>,
    file_name: Seq<char>,
    meta: FileMeta,
    texts: MailTexts,
    later: FileMeta,
)
    requires
        opts.incremental,
        stores(m, path, file_name, meta.size, mtime_of(meta), texts),
    ensures
        verdict_on(opts, known.insert(m.path@, m.mtime), path, Some(later)) == if later.modified
            is Some && mtime_of(later) == mtime_of(meta) {
            FileVerdict::Unchanged
        } else {
            FileVerdict::Read { mtime: mtime_of(later) }
        },
{
}

/// Law: each comma, semicolon and space parts what was typed into the extensions
/// before it and those behind it.
pub proof fn law_separators_part_the_extensions(a: Seq<char>, c: char, b: Seq<char>)
    requires
        c == ',' || c == ';' || c == ' ',
    ensures
        extensions_in(a.push(c) + b) == extensions_in(a) + extensions_in(b),
{
    let seps = EXTENSION_SEPARATORS@;
    reveal_strlit(",; ");
    assert(seps.contains(c)) by {
        if c == ',' {
            assert(seps[0] == c);
        } else if c == ';' {
            assert(seps[1] == c);
        } else {
            assert(seps[2] == c);
        }
    }
    law_separator_parts_the_text(a, c, b, seps);
    let p = pieces(a, seps);
    let q = pieces(b, seps);
    let r = pieces(a.push(c) + b, seps);
    let x = Seq::new(p.len(), |i: int| extension_of(p[i]));
    let y = Seq::new(q.len(), |i: int| extension_of(q[i]));
    assert(Seq::new(r.len(), |i: int| extension_of(r[i])) =~= x + y);
    lemma_non_empty_of_two(x, y);
}

/// Law: what was typed without a separator is one extension: without white space
/// at its ends, then without leading dots, then in lower case. Where nothing is
/// left there is none.
pub proof fn law_text_without_separator_is_one_extension(typed: Seq<char>)
    requires
        forall|i: int|
            0 <= i < typed.len() ==> #[trigger] typed[i] != ',' && typed[i] != ';' && typed[i]
                != ' ',
    ensures
        ({
            let ext = lowercase(without_leading(trimmed(typed), '.'));
            extensions_in(typed) == if ext.len() > 0 {
                seq![ext]
            } else {
                Seq::empty()
            }
        }),
{
    reveal(Seq::filter);
    let seps = EXTENSION_SEPARATORS@;
    reveal_strlit(",; ");
    assert forall|i: int| 0 <= i < typed.len() implies !seps.contains(#[trigger] typed[i]) by {}
    law_text_without_separator_is_one_piece(typed, seps);
    let ext = lowercase(without_leading(trimmed(typed), '.'));
    let parts = pieces(typed, seps);
    let none = Seq::<Seq<char>>::empty();
    assert(Seq::new(parts.len(), |i: int| extension_of(parts[i])) =~= none.push(ext));
    lemma_non_empty_push(none, ext);
    assert(non_empty(none) =~= none);
    assert(none.push(ext) =~= seq![ext]);
}

/// Law: a scan takes exactly the files, and where extensions are asked for and
/// others left out, only those with one of them in lower case. A file without an
/// extension has the empty one.
pub proof fn law_files_that_a_scan_takes(entry: WalkEntry, opts: ScanOptions)
    ensures
        is_candidate(entry, opts) <==> entry.is_file && (opts.include_exts@.len() == 0
            || !opts.exclude_by_ext || exists|i: int|
            0 <= i < opts.include_exts@.len() && (#[trigger] opts.include_exts@[i])@ == match entry.extension {
                Some(e) => lowercase(e@),
                None => Seq::empty(),
            }),
{
    let wanted = match entry.extension {
        Some(e) => lowercase(e@),
        None => Seq::empty(),
    };
    let list = views(opts.include_exts@);
    if exists|i: int|
        0 <= i < opts.include_exts@.len() && (#[trigger] opts.include_exts@[i])@ == wanted {
        let i = choose|i: int|
            0 <= i < opts.include_exts@.len() && (#[trigger] opts.include_exts@[i])@ == wanted;
        assert(list[i] == wanted);
    }
    if list.contains(wanted) {
        let i = choose|i: int| 0 <= i < list.len() && list[i] == wanted;
        assert(opts.include_exts@[i]@ == wanted);
    }
}

/// Law: the files that are collected are all those that the scan takes, and no
/// others, each at the path that its names give.
pub proof fn law_collected_files_are_those_taken(
    kept: Seq<usize>,
    entries: Seq<WalkEntry>,
    opts: ScanOptions,
    k: usize,
)
    requires
        lists_candidates(kept, entries, opts),
        k < entries.len(),
    ensures
        kept.contains(k) <==> is_candidate(entries[k as int], opts),
        forall|i: int| 0 <= i < kept.len() ==> #[trigger] kept[i] < entries.len(),
        kept.no_duplicates(),
        entry_path(entries[k as int]) == names_view(entries[k as int].names@),
{
    assert forall|i: int, j: int| 0 <= i < j < kept.len() implies kept[i] != kept[j] by {
        if kept[i] == kept[j] {
            let a = entry_path(entries[kept[i] as int]);
            law_path_rank_same(a, a);
        }
    }
}

/// Law: what cannot be looked up is not read, and anything else that is not
/// skipped is read with the modification time in seconds, or zero where it is not
/// known.
pub proof fn law_files_are_read_with_their_time(
    opts: ScanOptions,
    known: Map<Seq<char>, i64>,
    path: Seq<char>,
    meta: FileMeta,
)
    ensures
        verdict_on(opts, known, path, None) == FileVerdict::Unreadable,
        verdict_on(opts, known, path, Some(meta)) != FileVerdict::Unreadable,
        verdict_on(opts, known, path, Some(meta)) matches FileVerdict::Read { mtime } ==> mtime
            == match meta.modified {
            Some(seconds) => seconds as i64,
            None => 0i64,
        },
        verdict_on(opts, known, path, Some(meta)) == FileVerdict::Unchanged <==> {
            &&& opts.incremental
            &&& meta.modified matches Some(seconds) && known.contains_key(path) && known[path]
                == seconds as i64
        },
{
}

/// Law: the index stores the texts of a mail under their names: at most the first
/// five hundred thousand characters of the body, and the attachments with commas
/// between them.
pub proof fn law_stored_texts_are_those_of_the_mail(
    m: IndexedMail,
    path: Seq<char>,
    file_name: Seq<char>,
    size: u64,
    mtime: i64,
    mail: ParsedMail,
)
    requires
        stores(m, path, file_name, size, mtime, mail@),
    ensures
        m.path@ == path,
        m.file_name@ == file_name,
        m.size == size,
        m.mtime == mtime,
        m.subject@ == mail.subject@,
        m.from_addr@ == mail.from@,
        m.to_addr@ == mail.to@,
        m.date@ == mail.date@,
        mail.body_text@.len() <= 500000 ==> m.body_text@ == mail.body_text@,
        mail.body_text@.len() > 500000 ==> m.body_text@ == mail.body_text@.take(500000),
        m.attachments@ == joined(views(mail.attachments@), seq![',', ' ']),
{
    reveal_strlit(", ");
    assert(", "@ =~= seq![',', ' ']);
}

/// Law: a report of progress is the word, a space, the number of files done, a
/// slash and the number of all.
pub proof fn law_progress_in_words(done: nat, total: nat)
    ensures
        progress_text(done, total) == seq!['进', '度', ' '] + digits(done) + seq!['/'] + digits(total),
{
    reveal_strlit("进度 ");
    reveal_strlit("/");
    assert("进度 "@ =~= seq!['进', '度', ' ']);
    assert("/"@ =~= seq!['/']);
}

/// Law: a line reports progress exactly where it begins with the word and a space
/// and goes on with a number, a slash and a number. The first slash counts.
pub proof fn law_lines_that_report_progress(line: Seq<char>, a: Seq<char>, b: Seq<char>)
    requires
        !a.contains('/'),
    ensures
        progress_in(seq!['进', '度', ' '] + a + seq!['/'] + b) == match (usize_in(a), usize_in(b)) {
            (Some(x), Some(y)) => Some((x, y)),
            _ => None,
        },
        progress_in(seq!['进', '度', ' '] + a) is None,
        line.len() < 3 || line[0] != '进' || line[1] != '度' || line[2] != ' ' ==> progress_in(
            line,
        ) is None,
{
    reveal_strlit("进度 ");
    let prefix = "进度 "@;
    assert(prefix =~= seq!['进', '度', ' ']);
    let whole = prefix + a + seq!['/'] + b;
    assert(whole.subrange(0, 3) =~= prefix);
    let rest = whole.skip(3);
    assert(rest =~= a + seq!['/'] + b);
    assert forall|i: int| 0 <= i < a.len() implies rest[i] != '/' by {
        assert(rest[i] == a[i]);
        assert(a.contains(a[i]));
    }
    lemma_first_position(rest, '/', a.len() as int);
    assert(rest.take(a.len() as int) =~= a);
    assert(rest.skip(a.len() as int + 1) =~= b);
    let short = prefix + a;
    assert(short.subrange(0, 3) =~= prefix);
    assert(short.skip(3) =~= a);
    assert forall|i: int| 0 <= i < a.len() implies a[i] != '/' by {
        assert(a.contains(a[i]));
    }
    lemma_first_position(a, '/', a.len() as int);
    if stands_at(line, 0, prefix) {
        assert(line.subrange(0, 3)[0] == line[0]);
        assert(line.subrange(0, 3)[1] == line[1]);
        assert(line.subrange(0, 3)[2] == line[2]);
    }
}

/// Law: beginning a file counts it as scanned, and dealing with it counts it as
/// indexed, failed or skipped. Nothing else changes.
pub proof fn law_each_count_is_its_own(p: ScanProgress, outcome: FileOutcome)
    requires
        p.scanned < usize::MAX,
        p.indexed < usize::MAX,
        p.failed < usize::MAX,
        p.skipped < usize::MAX,
    ensures
        ({
            let q = p.after_start();
            &&& q.scanned == p.scanned + 1
            &&& q.indexed == p.indexed && q.failed == p.failed && q.skipped == p.skipped
            &&& q.done == p.done && q.cancelled == p.cancelled
        }),
        ({
            let q = p.after_finish(outcome);
            &&& q.indexed == p.indexed + if outcome is Indexed {
                1int
            } else {
                0
            }
            &&& q.failed == p.failed + if outcome is Unreadable || outcome is Rejected {
                1int
            } else {
                0
            }
            &&& q.skipped == p.skipped + if outcome is Unchanged {
                1int
            } else {
                0
            }
            &&& q.scanned == p.scanned && q.done == p.done && q.cancelled == p.cancelled
        }),
        p.finished() == p.indexed + p.failed + p.skipped,
        p.wf() <==> p.indexed + p.failed + p.skipped <= p.scanned,
        ScanProgress::none().scanned == 0,
        ScanProgress::none().indexed == 0,
        ScanProgress::none().failed == 0,
        ScanProgress::none().skipped == 0,
        !ScanProgress::none().done && !ScanProgress::none().cancelled,
{
}

/// Law: over a whole scan, every count is the number of the files that ended so.
pub proof fn law_counts_of_a_scan(outcomes: Seq<FileOutcome>)
    requires
        outcomes.len() <= usize::MAX,
    ensures
        ({
            let p = progress_of_run(outcomes);
            &&& p.scanned == outcomes.len()
            &&& p.indexed == outcomes.filter(|o: FileOutcome| o is Indexed).len()
            &&& p.failed == outcomes.filter(|o: FileOutcome| o is Unreadable || o is Rejected).len()
            &&& p.skipped == outcomes.filter(|o: FileOutcome| o is Unchanged).len()
            &&& !p.done && !p.cancelled
        }),
    decreases outcomes.len(),
{
    reveal(Seq::filter);
    if outcomes.len() > 0 {
        law_counts_of_a_scan(outcomes.drop_last());
        law_every_file_counted_once(outcomes.drop_last());
    }
}

/// Law: the mails to store are those of the files that gave one, in the order of
/// the files.
pub proof fn law_mails_in_the_order_of_the_files(
    a: Seq<FileOutcome>,
    outcome: FileOutcome,
    b: Seq<FileOutcome>,
)
    ensures
        mails_of(Seq::empty()).len() == 0,
        outcome matches FileOutcome::Indexed { mail } ==> mails_of(a + seq![outcome] + b)
            == mails_of(a) + seq![mail] + mails_of(b),
        !(outcome is Indexed) ==> mails_of(a + seq![outcome] + b) == mails_of(a) + mails_of(b),
    decreases b.len(),
{
    let all = a + seq![outcome] + b;
    if b.len() == 0 {
        assert(all.drop_last() =~= a);
        if let FileOutcome::Indexed { mail } = outcome {
            assert(mails_of(all) =~= mails_of(a) + seq![mail] + mails_of(b));
        } else {
            assert(mails_of(all) =~= mails_of(a) + mails_of(b));
        }
    } else {
        law_mails_in_the_order_of_the_files(a, outcome, b.drop_last());
        assert(all.drop_last() =~= a + seq![outcome] + b.drop_last());
        if let FileOutcome::Indexed { mail } = outcome {
            assert(mails_of(all) =~= mails_of(a) + seq![mail] + mails_of(b));
        } else {
            assert(mails_of(all) =~= mails_of(a) + mails_of(b));
        }
    }
}

/// Law: a mail is missing exactly where its file is gone. Every such row is
/// listed once, in the order of the rows.
pub proof fn law_every_missing_file_is_listed(rows: Seq<FilePresence>)
    ensures
        missing_of(rows) == rows.filter(|row: FilePresence| !row.exists).map_values(
            |row: FilePresence| row.id,
        ),
        missing_of(rows).len() == rows.filter(|row: FilePresence| !row.exists).len(),
        forall|i: int|
            0 <= i < rows.len() && !(#[trigger] rows[i]).exists ==> missing_of(rows).contains(
                rows[i].id,
            ),
        forall|k: int|
            0 <= k < missing_of(rows).len() ==> exists|i: int|
                0 <= i < rows.len() && !(#[trigger] rows[i]).exists && rows[i].id
                    == #[trigger] missing_of(rows)[k],
    decreases rows.len(),
{
    reveal(Seq::filter);
    let gone = |row: FilePresence| !row.exists;
    let id = |row: FilePresence| row.id;
    if rows.len() > 0 {
        let init = rows.drop_last();
        law_every_missing_file_is_listed(init);
        let before = missing_of(init);
        assert(missing_of(rows) =~= rows.filter(gone).map_values(id));
        assert forall|i: int| 0 <= i < rows.len() && !(#[trigger] rows[i]).exists implies missing_of(
            rows,
        ).contains(rows[i].id) by {
            if i < init.len() {
                assert(!init[i].exists);
                assert(before.contains(init[i].id));
                let k = choose|k: int| 0 <= k < before.len() && before[k] == init[i].id;
                assert(missing_of(rows)[k] == rows[i].id);
            } else {
                assert(missing_of(rows)[before.len() as int] == rows[i].id);
            }
        }
        assert forall|k: int| 0 <= k < missing_of(rows).len() implies exists|i: int|
            0 <= i < rows.len() && !(#[trigger] rows[i]).exists && rows[i].id
                == #[trigger] missing_of(rows)[k] by {
            if k < before.len() {
                assert(missing_of(rows)[k] == before[k]);
                let i = choose|i: int|
                    0 <= i < init.len() && !(#[trigger] init[i]).exists && init[i].id == before[k];
                assert(rows[i] == init[i]);
            } else {
                assert(!rows[rows.len() - 1].exists);
            }
        }
    } else {
        assert(missing_of(rows) =~= rows.filter(gone).map_values(id));
    }
}

/// Law: how often progress is reported, how many rejected files are, and how much
/// of a body is stored.
pub proof fn law_limits_of_a_scan()
    ensures
        REPORT_EVERY == 200,
        MAX_REJECTIONS_REPORTED == 20,
        MAX_BODY_CHARS == 500000,
{
}

/// Law: what a scan does next, whatever it has been told.
pub proof fn law_tasks_of_a_scan(opts: ScanOptions, event: ScanEvent)
    ensures
        match scan_next(opts, event) {
            ScanTask::OpenIndex => event is Requested,
            ScanTask::WalkRoot => event matches ScanEvent::Opened { error: None },
            ScanTask::ParseFiles => event is Walked,
            ScanTask::WriteMails => event is Parsed,
            ScanTask::RemoveMissing => opts.incremental && event
                == (ScanEvent::Written { cancelled: false }),
            ScanTask::CountMails => event is Removed || (event is Written && (!opts.incremental
                || event == (ScanEvent::Written { cancelled: true }))),
            ScanTask::Finish(ok) => match event {
                ScanEvent::Opened { error } => error is Some && !ok,
                ScanEvent::Counted { cancelled, .. } => ok == !cancelled,
                _ => false,
            },
        },
{
}

/// Law: what a scan reports, line by line.
pub proof fn law_reports_of_a_scan(
    opts: ScanOptions,
    progress: ScanProgress,
    text: String,
    n: usize,
    held: i64,
    path: Seq<char>,
    reason: Seq<char>,
)
    ensures
        scan_log(opts, progress, ScanEvent::Requested { db_path: text }) == seq![
            "打开索引库: "@ + text@,
        ],
        scan_log(opts, progress, ScanEvent::Opened { error: Some(text) }) == seq![
            "[错误] 打开索引库失败: "@ + text@,
        ],
        scan_log(opts, progress, ScanEvent::Opened { error: None }) == seq!["扫描目录: "@ + opts.root@],
        scan_log(opts, progress, ScanEvent::Walked { total: n }) == seq![
            "发现 "@ + digits(n as nat) + " 个候选文件（扩展名过滤: "@ + (if opts.include_exts@.len() == 0 {
                "无（全部文件）"@
            } else {
                joined(views(opts.include_exts@), ","@) + " "@ + if opts.exclude_by_ext {
                    "（排除列表外）"@
                } else {
                    "（列表外也尝试解析）"@
                }
            }) + "）"@,
        ],
        scan_log(opts, progress, ScanEvent::Parsed { mails: n, cancelled: false }) == seq![
            "写入数据库 "@ + digits(n as nat) + " 条…"@,
        ],
        scan_log(opts, progress, ScanEvent::Parsed { mails: n, cancelled: true }) == seq![
            "[已取消]"@,
            "写入数据库 "@ + digits(n as nat) + " 条…"@,
        ],
        scan_log(opts, progress, ScanEvent::Written { cancelled: true }).len() == 0,
        scan_log(opts, progress, ScanEvent::Written { cancelled: false }).len() == 0,
        n == 0 ==> scan_log(opts, progress, ScanEvent::Removed { count: n }).len() == 0,
        n > 0 ==> scan_log(opts, progress, ScanEvent::Removed { count: n }) == seq![
            "清理已删除文件 "@ + digits(n as nat) + " 条"@,
        ],
        forall|cancelled: bool| #[trigger]
            scan_log(opts, progress, ScanEvent::Counted { held, cancelled }) == seq![
                "完成：扫描 "@ + digits(progress.scanned as nat) + "，新索引 "@ + digits(
                    progress.indexed as nat,
                ) + "，跳过(未变) "@ + digits(progress.skipped as nat) + "，失败 "@ + digits(
                    progress.failed as nat,
                ) + "。库内共 "@ + signed(held as int) + " 条。"@,
            ],
        rejection_text(path, reason) == "[跳过] "@ + path + ": "@ + reason,
{
}

/// Law: no file is collected before one that its path comes behind, and entries of
/// one path keep the order in which the walk came upon them.
pub proof fn law_collected_files_never_descend(
    kept: Seq<usize>,
    entries: Seq<WalkEntry>,
    opts: ScanOptions,
    i: int,
    j: int,
)
    requires
        lists_candidates(kept, entries, opts),
        0 <= i < j < kept.len(),
    ensures
        ({
            let a = names_view(entries[kept[i] as int].names@);
            let b = names_view(entries[kept[j] as int].names@);
            &&& path_rank(a, b) != Rank::After
            &&& path_rank(a, b) == Rank::Same ==> kept[i] < kept[j]
        }),
{
}

} // verus!
