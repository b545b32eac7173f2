//! The order in which hits are shown.
use vstd::prelude::*;

use crate::arrange::{
    arrange, goes_first, in_order, lemma_in_order_no_duplicates, lists_range, Ranked,
};
use crate::db::SearchHit;
use crate::mail_parse::{date_fits, date_rank, date_text, law_date_texts_in_order, MailDate};
use crate::order::{
    law_text_rank_flips, law_text_rank_same, law_text_rank_transitive, number_rank, rank_numbers,
    rank_texts, text_rank, Rank,
};
use crate::text::{chars_of, lowercase};

verus! {

/// What the hits are sorted by.
#[derive(Clone, Copy, Debug, PartialEq, Eq, Structural)]
pub enum SortMode {
    /// By time, the newest first.
    TimeDesc,
    /// By time, the oldest first.
    TimeAsc,
    /// By score, the highest first.
    ScoreDesc,
    /// By score, the lowest first.
    ScoreAsc,
    /// By subject, whatever the case of its letters.
    Subject,
}

/// How two hits rank. Hits of one time rank by subject, hits of one score by
/// time with the newest first.
pub open spec fn hit_rank(mode: SortMode, a: SearchHit, b: SearchHit) -> Rank {
    match mode {
        SortMode::TimeDesc => text_rank(b.date@, a.date@).refined_by(
            text_rank(a.subject@, b.subject@),
        ),
        SortMode::TimeAsc => text_rank(a.date@, b.date@).refined_by(
            text_rank(a.subject@, b.subject@),
        ),
        SortMode::ScoreDesc => number_rank(b.score as int, a.score as int).refined_by(
            text_rank(b.date@, a.date@),
        ),
        SortMode::ScoreAsc => number_rank(a.score as int, b.score as int).refined_by(
            text_rank(b.date@, a.date@),
        ),
        SortMode::Subject => text_rank(lowercase(a.subject@), lowercase(b.subject@)),
    }
}

/// Whether the hit at `i` is to stand before the hit at `j`: it ranks before
/// it, or level with it and stood before it already.
pub open spec fn comes_first(mode: SortMode, hits: Seq<SearchHit>, i: int, j: int) -> bool {
    match hit_rank(mode, hits[i], hits[j]) {
        Rank::Before => true,
        Rank::Same => i < j,
        Rank::After => false,
    }
}

/// Whether `p` names each of the positions below `n` once.
pub open spec fn is_arrangement(p: Seq<int>, n: nat) -> bool {
    &&& p.len() == n
    &&& p.no_duplicates()
    &&& forall|i: int| 0 <= i < p.len() ==> 0 <= #[trigger] p[i] < n
    &&& forall|k: int| 0 <= k < n ==> #[trigger] p.contains(k)
}

/// Whether `sorted` holds the hits in the arrangement `p`, which puts each hit
/// before those it comes first of.
pub open spec fn sorted_by_arrangement(
    mode: SortMode,
    hits: Seq<SearchHit>,
    sorted: Seq<SearchHit>,
    p: Seq<int>,
) -> bool {
    &&& is_arrangement(p, hits.len())
    &&& sorted.len() == hits.len()
    &&& forall|i: int| 0 <= i < p.len() ==> #[trigger] sorted[i] == hits[p[i]]
    &&& forall|i: int, j: int| 0 <= i < j < p.len() ==> comes_first(mode, hits, p[i], p[j])
}

/// Whether `sorted` is `hits` in the order of `mode`, with level hits in the
/// order they had.
pub open spec fn sorted_from(
    mode: SortMode,
    hits: Seq<SearchHit>,
    sorted: Seq<SearchHit>,
) -> bool {
    exists|p: Seq<int>| sorted_by_arrangement(mode, hits, sorted, p)
}

/// Law: exchanging two hits turns their rank around.
pub proof fn law_hit_rank_flips(mode: SortMode, a: SearchHit, b: SearchHit)
    ensures
        hit_rank(mode, b, a) == hit_rank(mode, a, b).flipped(),
{
    law_text_rank_flips(a.date@, b.date@);
    law_text_rank_flips(a.subject@, b.subject@);
    law_text_rank_flips(lowercase(a.subject@), lowercase(b.subject@));
}

/// Law: every order of hits is transitive.
pub proof fn law_hit_rank_transitive(mode: SortMode, a: SearchHit, b: SearchHit, c: SearchHit)
    requires
        hit_rank(mode, a, b) != Rank::After,
        hit_rank(mode, b, c) != Rank::After,
    ensures
        hit_rank(mode, a, c) != Rank::After,
        hit_rank(mode, a, c) == Rank::Same ==> hit_rank(mode, a, b) == Rank::Same && hit_rank(
            mode,
            b,
            c,
        ) == Rank::Same,
{
    match mode {
        SortMode::TimeDesc => {
            law_text_rank_transitive(c.date@, b.date@, a.date@);
            if text_rank(a.subject@, b.subject@) != Rank::After && text_rank(b.subject@, c.subject@)
                != Rank::After {
                law_text_rank_transitive(a.subject@, b.subject@, c.subject@);
            }
        },
        SortMode::TimeAsc => {
            law_text_rank_transitive(a.date@, b.date@, c.date@);
            if text_rank(a.subject@, b.subject@) != Rank::After && text_rank(b.subject@, c.subject@)
                != Rank::After {
                law_text_rank_transitive(a.subject@, b.subject@, c.subject@);
            }
        },
        SortMode::ScoreDesc | SortMode::ScoreAsc => {
            if text_rank(b.date@, a.date@) != Rank::After && text_rank(c.date@, b.date@)
                != Rank::After {
                law_text_rank_transitive(c.date@, b.date@, a.date@);
            }
        },
        SortMode::Subject => {
            law_text_rank_transitive(
                lowercase(a.subject@),
                lowercase(b.subject@),
                lowercase(c.subject@),
            );
        },
    }
}

/// Of two hits, exactly one comes first.
proof fn lemma_comes_first_one_way(mode: SortMode, hits: Seq<SearchHit>, i: int, j: int)
    requires
        i != j,
    ensures
        comes_first(mode, hits, i, j) == !comes_first(mode, hits, j, i),
{
    law_hit_rank_flips(mode, hits[i], hits[j]);
}

/// The place of an order among all.
spec fn mode_place(mode: SortMode) -> int {
    match mode {
        SortMode::TimeDesc => 0,
        SortMode::TimeAsc => 1,
        SortMode::ScoreDesc => 2,
        SortMode::ScoreAsc => 3,
        SortMode::Subject => 4,
    }
}

/// What a hit is sorted by, laid out for comparing.
struct HitKey {
    mode: SortMode,
    date: Vec<char>,
    title: Vec<char>,
    score: usize,
}

impl HitKey {
    /// How two keys of this key's order rank.
    spec fn rank_in_mode(self, other: HitKey) -> Rank {
        match self.mode {
            SortMode::TimeDesc => text_rank(other.date@, self.date@).refined_by(
                text_rank(self.title@, other.title@),
            ),
            SortMode::TimeAsc => text_rank(self.date@, other.date@).refined_by(
                text_rank(self.title@, other.title@),
            ),
            SortMode::ScoreDesc => number_rank(other.score as int, self.score as int).refined_by(
                text_rank(other.date@, self.date@),
            ),
            SortMode::ScoreAsc => number_rank(self.score as int, other.score as int).refined_by(
                text_rank(other.date@, self.date@),
            ),
            SortMode::Subject => text_rank(self.title@, other.title@),
        }
    }

    spec fn belongs_to(self, mode: SortMode, hit: SearchHit) -> bool {
        &&& self.mode == mode
        &&& self.date@ == hit.date@
        &&& self.title@ == if mode == SortMode::Subject {
            lowercase(hit.subject@)
        } else {
            hit.subject@
        }
        &&& self.score == hit.score
    }

    fn of(mode: SortMode, hit: &SearchHit) -> (r: HitKey)
        ensures
            r.belongs_to(mode, *hit),
    {
        let title = if mode == SortMode::Subject {
            let lower = hit.subject.as_str().to_lowercase();
            chars_of(lower.as_str())
        } else {
            chars_of(hit.subject.as_str())
        };
        HitKey { mode, date: chars_of(hit.date.as_str()), title, score: hit.score }
    }
}

fn place_of(mode: SortMode) -> (r: usize)
    ensures
        r == mode_place(mode),
{
    match mode {
        SortMode::TimeDesc => 0,
        SortMode::TimeAsc => 1,
        SortMode::ScoreDesc => 2,
        SortMode::ScoreAsc => 3,
        SortMode::Subject => 4,
    }
}

impl Ranked for HitKey {
    /// Keys of one order rank by that order, other keys by the place of theirs.
    closed spec fn rank(self, other: Self) -> Rank {
        number_rank(mode_place(self.mode), mode_place(other.mode)).refined_by(
            self.rank_in_mode(other),
        )
    }

    proof fn rank_flips(a: Self, b: Self) {
        law_text_rank_flips(a.date@, b.date@);
        law_text_rank_flips(a.title@, b.title@);
    }

    proof fn rank_transitive(a: Self, b: Self, c: Self) {
        if a.mode == b.mode && b.mode == c.mode {
            if text_rank(a.date@, b.date@) != Rank::After && text_rank(b.date@, c.date@)
                != Rank::After {
                law_text_rank_transitive(a.date@, b.date@, c.date@);
            }
            if text_rank(b.date@, a.date@) != Rank::After && text_rank(c.date@, b.date@)
                != Rank::After {
                law_text_rank_transitive(c.date@, b.date@, a.date@);
            }
            if text_rank(a.title@, b.title@) != Rank::After && text_rank(b.title@, c.title@)
                != Rank::After {
                law_text_rank_transitive(a.title@, b.title@, c.title@);
            }
        }
    }

    fn rank_with(&self, other: &Self) -> (r: Rank) {
        let within = match self.mode {
            SortMode::TimeDesc => rank_texts(&other.date, &self.date).refine(
                rank_texts(&self.title, &other.title),
            ),
            SortMode::TimeAsc => rank_texts(&self.date, &other.date).refine(
                rank_texts(&self.title, &other.title),
            ),
            SortMode::ScoreDesc => rank_numbers(other.score, self.score).refine(
                rank_texts(&other.date, &self.date),
            ),
            SortMode::ScoreAsc => rank_numbers(self.score, other.score).refine(
                rank_texts(&other.date, &self.date),
            ),
            SortMode::Subject => rank_texts(&self.title, &other.title),
        };
        rank_numbers(place_of(self.mode), place_of(other.mode)).refine(within)
    }
}

impl SortMode {
    /// The name under which the order is offered.
    pub fn label(&self) -> (r: &'static str)
        ensures
            r@ == match *self {
                SortMode::TimeDesc => "时间 新→旧"@,
                SortMode::TimeAsc => "时间 旧→新"@,
                SortMode::ScoreDesc => "词频 高→低"@,
                SortMode::ScoreAsc => "词频 低→高"@,
                SortMode::Subject => "主题 A→Z"@,
            },
    {
        match self {
            SortMode::TimeDesc => "时间 新→旧",
            SortMode::TimeAsc => "时间 旧→新",
            SortMode::ScoreDesc => "词频 高→低",
            SortMode::ScoreAsc => "词频 低→高",
            SortMode::Subject => "主题 A→Z",
        }
    }

    /// All orders, as they are offered.
    pub fn all() -> (r: [SortMode; 5])
        ensures
            r@ == seq![
                SortMode::TimeDesc,
                SortMode::TimeAsc,
                SortMode::ScoreDesc,
                SortMode::ScoreAsc,
                SortMode::Subject,
            ],
    {
        let r = [
            SortMode::TimeDesc,
            SortMode::TimeAsc,
            SortMode::ScoreDesc,
            SortMode::ScoreAsc,
            SortMode::Subject,
        ];
        assert(r@ =~= seq![
            SortMode::TimeDesc,
            SortMode::TimeAsc,
            SortMode::ScoreDesc,
            SortMode::ScoreAsc,
            SortMode::Subject,
        ]);
        r
    }

    /// Puts the hits into the order of `mode`. Level hits keep their order.
    pub fn sort_hits(hits: &mut [SearchHit], mode: SortMode)
        ensures
            sorted_from(mode, old(hits)@, final(hits)@),
    {
        let ghost given = hits@;
        let mut keys: Vec<HitKey> = Vec::new();
        let mut i: usize = 0;
        while i < hits.len()
            invariant
                i <= hits@.len(),
                hits@ == given,
                keys@.len() == i,
                forall|k: int|
                    0 <= k < i ==> (#[trigger] keys@[k]).belongs_to(mode, given[k]),
            decreases hits@.len() - i,
        {
            keys.push(HitKey::of(mode, &hits[i]));
            i += 1;
        }
        let n: usize = hits.len();
        let order = arrange(&keys);
        let ghost p = Seq::new(order@.len(), |k: int| order@[k] as int);
        let mut out: Vec<SearchHit> = Vec::new();
        let mut k: usize = 0;
        while k < order.len()
            invariant
                k <= order@.len(),
                hits@ == given,
                n == given.len(),
                lists_range(order@, 0, n as int),
                out@.len() == k,
                forall|x: int| 0 <= x < k ==> #[trigger] out@[x] == given[order@[x] as int],
            decreases order@.len() - k,
        {
            out.push(hits[order[k]].clone());
            k += 1;
        }
        proof {
            lemma_arrangement(mode, given, keys@, order@);
            assert(sorted_by_arrangement(mode, given, out@, p));
        }
        let mut m: usize = 0;
        while m < n
            invariant
                m <= n,
                n == hits@.len(),
                n == out@.len(),
                forall|x: int| 0 <= x < m ==> #[trigger] hits@[x] == out@[x],
            decreases n - m,
        {
            hits[m] = out[m].clone();
            m += 1;
        }
        assert(hits@ =~= out@);
    }
}

/// An ordered list of all positions is an arrangement, which puts each hit before
/// those it comes first of.
proof fn lemma_arrangement(
    mode: SortMode,
    hits: Seq<SearchHit>,
    keys: Seq<HitKey>,
    order: Seq<usize>,
)
    requires
        hits.len() <= usize::MAX,
        keys.len() == hits.len(),
        forall|k: int| 0 <= k < keys.len() ==> (#[trigger] keys[k]).belongs_to(mode, hits[k]),
        lists_range(order, 0, hits.len() as int),
        in_order(keys, order),
    ensures
        is_arrangement(Seq::new(order.len(), |k: int| order[k] as int), hits.len()),
        forall|i: int, j: int|
            0 <= i < j < order.len() ==> comes_first(
                mode,
                hits,
                #[trigger] order[i] as int,
                #[trigger] order[j] as int,
            ),
{
    let p = Seq::new(order.len(), |k: int| order[k] as int);
    lemma_in_order_no_duplicates(keys, order);
    assert forall|k: int| 0 <= k < hits.len() implies #[trigger] p.contains(k) by {
        assert(order.contains(k as usize));
        let y = choose|y: int| 0 <= y < order.len() && order[y] == k as usize;
        assert(p[y] == k);
    }
    assert forall|i: int, j: int| 0 <= i < j < order.len() implies comes_first(
        mode,
        hits,
        #[trigger] order[i] as int,
        #[trigger] order[j] as int,
    ) by {
        assert(goes_first(keys, order[i] as int, order[j] as int));
        assert(keys[order[i] as int].belongs_to(mode, hits[order[i] as int]));
        assert(keys[order[j] as int].belongs_to(mode, hits[order[j] as int]));
    }
}

/// Law: sorting has one outcome. What is sorted from the same hits in the same
/// order is the same.
pub proof fn law_sorting_is_unique(
    mode: SortMode,
    hits: Seq<SearchHit>,
    a: Seq<SearchHit>,
    b: Seq<SearchHit>,
)
    requires
        sorted_from(mode, hits, a),
        sorted_from(mode, hits, b),
    ensures
        a == b,
{
    let p = choose|p: Seq<int>| sorted_by_arrangement(mode, hits, a, p);
    let q = choose|q: Seq<int>| sorted_by_arrangement(mode, hits, b, q);
    lemma_same_arrangement(mode, hits, a, b, p, q, hits.len() as int);
    assert(p =~= q);
    assert(a =~= b);
}

proof fn lemma_same_arrangement(
    mode: SortMode,
    hits: Seq<SearchHit>,
    a: Seq<SearchHit>,
    b: Seq<SearchHit>,
    p: Seq<int>,
    q: Seq<int>,
    n: int,
)
    requires
        sorted_by_arrangement(mode, hits, a, p),
        sorted_by_arrangement(mode, hits, b, q),
        0 <= n <= hits.len(),
    ensures
        forall|i: int| 0 <= i < n ==> p[i] == q[i],
    decreases n,
{
    if n > 0 {
        lemma_same_arrangement(mode, hits, a, b, p, q, n - 1);
        let i = n - 1;
        if p[i] != q[i] {
            assert(p.contains(q[i]) && q.contains(p[i]));
            let j = choose|j: int| 0 <= j < p.len() && p[j] == q[i];
            let k = choose|k: int| 0 <= k < q.len() && q[k] == p[i];
            assert(j > i) by {
                if j < i {
                    assert(q[j] == q[i]);
                }
            }
            assert(k > i) by {
                if k < i {
                    assert(p[k] == p[i]);
                }
            }
            assert(comes_first(mode, hits, p[i], p[j]));
            assert(comes_first(mode, hits, q[i], q[k]));
            lemma_comes_first_one_way(mode, hits, p[i], q[i]);
        }
    }
}

/// Law: sorting what is sorted already changes nothing.
pub proof fn law_sorting_again_changes_nothing(
    mode: SortMode,
    hits: Seq<SearchHit>,
    once: Seq<SearchHit>,
    twice: Seq<SearchHit>,
)
    requires
        sorted_from(mode, hits, once),
        sorted_from(mode, once, twice),
    ensures
        twice == once,
{
    let p = choose|p: Seq<int>| sorted_by_arrangement(mode, hits, once, p);
    let id = Seq::new(once.len(), |i: int| i);
    assert forall|k: int| 0 <= k < once.len() implies #[trigger] id.contains(k) by {
        assert(id[k] == k);
    }
    assert forall|i: int, j: int| 0 <= i < j < id.len() implies comes_first(
        mode,
        once,
        id[i],
        id[j],
    ) by {
        assert(comes_first(mode, hits, p[i], p[j]));
        assert(once[i] == hits[p[i]] && once[j] == hits[p[j]]);
    }
    assert(sorted_by_arrangement(mode, once, once, id));
    law_sorting_is_unique(mode, once, once, twice);
}

/// Law: hits sorted by time stand in the order of their dates, the newest first
/// or the oldest first. It holds of dates whose numbers fit the width they are
/// written with.
pub proof fn law_sorted_by_time(
    newest_first: bool,
    hits: Seq<SearchHit>,
    sorted: Seq<SearchHit>,
    i: int,
    j: int,
    first: MailDate,
    second: MailDate,
)
    requires
        sorted_from(
            if newest_first {
                SortMode::TimeDesc
            } else {
                SortMode::TimeAsc
            },
            hits,
            sorted,
        ),
        0 <= i < j < sorted.len(),
        date_fits(first),
        date_fits(second),
        sorted[i].date@ == date_text(first),
        sorted[j].date@ == date_text(second),
    ensures
        newest_first ==> date_rank(second, first) != Rank::After,
        !newest_first ==> date_rank(first, second) != Rank::After,
{
    let mode = if newest_first {
        SortMode::TimeDesc
    } else {
        SortMode::TimeAsc
    };
    let p = choose|p: Seq<int>| sorted_by_arrangement(mode, hits, sorted, p);
    assert(comes_first(mode, hits, p[i], p[j]));
    assert(sorted[i] == hits[p[i]] && sorted[j] == hits[p[j]]);
    law_date_texts_in_order(first, second);
    law_date_texts_in_order(second, first);
}

/// Law: hits sorted by score stand in the order of their scores, and hits of one
/// score in the order of the text of their date, the latest first.
pub proof fn law_sorted_by_score(
    highest_first: bool,
    hits: Seq<SearchHit>,
    sorted: Seq<SearchHit>,
    i: int,
    j: int,
)
    requires
        sorted_from(
            if highest_first {
                SortMode::ScoreDesc
            } else {
                SortMode::ScoreAsc
            },
            hits,
            sorted,
        ),
        0 <= i < j < sorted.len(),
    ensures
        highest_first ==> sorted[i].score >= sorted[j].score,
        !highest_first ==> sorted[i].score <= sorted[j].score,
        sorted[i].score == sorted[j].score ==> text_rank(sorted[j].date@, sorted[i].date@)
            != Rank::After,
{
    let mode = if highest_first {
        SortMode::ScoreDesc
    } else {
        SortMode::ScoreAsc
    };
    let p = choose|p: Seq<int>| sorted_by_arrangement(mode, hits, sorted, p);
    assert(comes_first(mode, hits, p[i], p[j]));
    assert(sorted[i] == hits[p[i]] && sorted[j] == hits[p[j]]);
}

/// Law: hits sorted by subject stand in the order of their subjects in lower
/// case.
pub proof fn law_sorted_by_subject(hits: Seq<SearchHit>, sorted: Seq<SearchHit>, i: int, j: int)
    requires
        sorted_from(SortMode::Subject, hits, sorted),
        0 <= i < j < sorted.len(),
    ensures
        text_rank(lowercase(sorted[i].subject@), lowercase(sorted[j].subject@)) != Rank::After,
{
    let p = choose|p: Seq<int>| sorted_by_arrangement(SortMode::Subject, hits, sorted, p);
    assert(comes_first(SortMode::Subject, hits, p[i], p[j]));
    assert(sorted[i] == hits[p[i]] && sorted[j] == hits[p[j]]);
}

/// Law: sorting neither adds nor drops a hit.
pub proof fn law_sorting_keeps_every_hit(
    mode: SortMode,
    hits: Seq<SearchHit>,
    sorted: Seq<SearchHit>,
    hit: SearchHit,
)
    requires
        sorted_from(mode, hits, sorted),
    ensures
        sorted.len() == hits.len(),
        sorted.contains(hit) <==> hits.contains(hit),
{
    let p = choose|p: Seq<int>| sorted_by_arrangement(mode, hits, sorted, p);
    if hits.contains(hit) {
        let k = choose|k: int| 0 <= k < hits.len() && hits[k] == hit;
        assert(p.contains(k));
        let i = choose|i: int| 0 <= i < p.len() && p[i] == k;
        assert(sorted[i] == hit);
    }
    if sorted.contains(hit) {
        let i = choose|i: int| 0 <= i < sorted.len() && sorted[i] == hit;
        assert(hits[p[i]] == hit);
    }
}

/// Law: hits sorted by time stand in the order of the texts of their dates, and
/// those of one date in the order of their subjects.
pub proof fn law_sorted_by_date_and_subject(
    newest_first: bool,
    hits: Seq<SearchHit>,
    sorted: Seq<SearchHit>,
    i: int,
    j: int,
)
    requires
        sorted_from(
            if newest_first {
                SortMode::TimeDesc
            } else {
                SortMode::TimeAsc
            },
            hits,
            sorted,
        ),
        0 <= i < j < sorted.len(),
    ensures
        newest_first ==> text_rank(sorted[j].date@, sorted[i].date@) != Rank::After,
        !newest_first ==> text_rank(sorted[i].date@, sorted[j].date@) != Rank::After,
        sorted[i].date@ == sorted[j].date@ ==> text_rank(sorted[i].subject@, sorted[j].subject@)
            != Rank::After,
{
    let mode = if newest_first {
        SortMode::TimeDesc
    } else {
        SortMode::TimeAsc
    };
    let p = choose|p: Seq<int>| sorted_by_arrangement(mode, hits, sorted, p);
    assert(comes_first(mode, hits, p[i], p[j]));
    assert(sorted[i] == hits[p[i]] && sorted[j] == hits[p[j]]);
    law_text_rank_same(sorted[i].date@, sorted[j].date@);
    law_text_rank_same(sorted[j].date@, sorted[i].date@);
}

/// Law: sorting moves each hit to one place and keeps it as it is. Hits that the
/// order does not tell apart stay in the order they had: those of one date and
/// subject, of one score and date, or of one subject in lower case.
pub proof fn law_sorting_keeps_level_hits_in_order(
    mode: SortMode,
    hits: Seq<SearchHit>,
    sorted: Seq<SearchHit>,
)
    requires
        sorted_from(mode, hits, sorted),
    ensures
        exists|p: Seq<int>|
            #![trigger p.len()]
            {
                &&& p.len() == hits.len() == sorted.len()
                &&& forall|i: int| 0 <= i < p.len() ==> 0 <= #[trigger] p[i] < hits.len()
                &&& forall|i: int, j: int| 0 <= i < j < p.len() ==> p[i] != p[j]
                &&& forall|i: int| 0 <= i < p.len() ==> #[trigger] sorted[i] == hits[p[i]]
                &&& forall|i: int, j: int|
                    0 <= i < j < p.len() && (match mode {
                        SortMode::TimeDesc | SortMode::TimeAsc => sorted[i].date@
                            == sorted[j].date@ && sorted[i].subject@ == sorted[j].subject@,
                        SortMode::ScoreDesc | SortMode::ScoreAsc => sorted[i].score
                            == sorted[j].score && sorted[i].date@ == sorted[j].date@,
                        SortMode::Subject => lowercase(sorted[i].subject@) == lowercase(
                            sorted[j].subject@,
                        ),
                    }) ==> p[i] < p[j]
            },
{
    let p = choose|p: Seq<int>| sorted_by_arrangement(mode, hits, sorted, p);
    assert forall|i: int, j: int|
        0 <= i < j < p.len() && (match mode {
            SortMode::TimeDesc | SortMode::TimeAsc => sorted[i].date@ == sorted[j].date@
                && sorted[i].subject@ == sorted[j].subject@,
            SortMode::ScoreDesc | SortMode::ScoreAsc => sorted[i].score == sorted[j].score
                && sorted[i].date@ == sorted[j].date@,
            SortMode::Subject => lowercase(sorted[i].subject@) == lowercase(sorted[j].subject@),
        }) implies p[i] < p[j] by {
        assert(comes_first(mode, hits, p[i], p[j]));
        assert(sorted[i] == hits[p[i]] && sorted[j] == hits[p[j]]);
        law_text_rank_same(sorted[i].date@, sorted[j].date@);
        law_text_rank_same(sorted[j].date@, sorted[i].date@);
        law_text_rank_same(sorted[i].subject@, sorted[j].subject@);
        law_text_rank_same(lowercase(sorted[i].subject@), lowercase(sorted[j].subject@));
    }
    assert(p.len() == hits.len());
}

} // verus!
