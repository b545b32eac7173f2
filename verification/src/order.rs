//! The order of texts and of paths: item by item, a beginning before what it
//! begins.
use vstd::prelude::*;

verus! {

/// Where the first of two things stands relative to the second.
#[derive(Clone, Copy, Debug, PartialEq, Eq, Structural)]
pub enum Rank {
    Before,
    Same,
    After,
}

impl Rank {
    /// The same relation seen from the second thing.
    pub open spec fn flipped(self) -> Rank {
        match self {
            Rank::Before => Rank::After,
            Rank::Same => Rank::Same,
            Rank::After => Rank::Before,
        }
    }

    /// This rank, or `next` where this one leaves the two things level.
    pub open spec fn refined_by(self, next: Rank) -> Rank {
        match self {
            Rank::Same => next,
            _ => self,
        }
    }

    /// This rank, or `next` where this one leaves the two things level.
    pub fn refine(self, next: Rank) -> (r: Rank)
        ensures
            r == self.refined_by(next),
    {
        match self {
            Rank::Same => next,
            _ => self,
        }
    }
}

/// The rank of two numbers.
pub open spec fn number_rank(a: int, b: int) -> Rank {
    if a < b {
        Rank::Before
    } else if a == b {
        Rank::Same
    } else {
        Rank::After
    }
}

/// The rank of two numbers.
pub fn rank_numbers(a: usize, b: usize) -> (r: Rank)
    ensures
        r == number_rank(a as int, b as int),
{
    if a < b {
        Rank::Before
    } else if a == b {
        Rank::Same
    } else {
        Rank::After
    }
}

/// The rank of two texts: the first place where they differ decides, and a
/// text stands before every longer one that begins with it.
pub open spec fn text_rank(a: Seq<char>, b: Seq<char>) -> Rank
    decreases a.len(),
{
    if a.len() == 0 {
        if b.len() == 0 {
            Rank::Same
        } else {
            Rank::Before
        }
    } else if b.len() == 0 {
        Rank::After
    } else {
        number_rank(a[0] as int, b[0] as int).refined_by(text_rank(a.drop_first(), b.drop_first()))
    }
}

/// The rank of two texts given by their characters.
pub fn rank_texts(a: &Vec<char>, b: &Vec<char>) -> (r: Rank)
    ensures
        r == text_rank(a@, b@),
{
    let mut i: usize = 0;
    assert(a@.skip(0) =~= a@);
    assert(b@.skip(0) =~= b@);
    while i < a.len() && i < b.len()
        invariant
            i <= a@.len(),
            i <= b@.len(),
            text_rank(a@, b@) == text_rank(a@.skip(i as int), b@.skip(i as int)),
        decreases a@.len() - i,
    {
        let ghost x = a@.skip(i as int);
        let ghost y = b@.skip(i as int);
        assert(x[0] == a@[i as int] && y[0] == b@[i as int]);
        if a[i] < b[i] {
            return Rank::Before;
        }
        if a[i] > b[i] {
            return Rank::After;
        }
        assert(x.drop_first() =~= a@.skip(i + 1));
        assert(y.drop_first() =~= b@.skip(i + 1));
        i += 1;
    }
    if i < b.len() {
        Rank::Before
    } else if i < a.len() {
        Rank::After
    } else {
        Rank::Same
    }
}

/// Law: two texts are level exactly where they are the same text.
pub proof fn law_text_rank_same(a: Seq<char>, b: Seq<char>)
    ensures
        text_rank(a, b) == Rank::Same <==> a == b,
    decreases a.len(),
{
    if a.len() > 0 && b.len() > 0 {
        law_text_rank_same(a.drop_first(), b.drop_first());
        assert(a =~= seq![a[0]] + a.drop_first());
        assert(b =~= seq![b[0]] + b.drop_first());
    } else if a.len() == 0 && b.len() == 0 {
        assert(a =~= b);
    }
}

/// Law: exchanging two texts turns their rank around.
pub proof fn law_text_rank_flips(a: Seq<char>, b: Seq<char>)
    ensures
        text_rank(b, a) == text_rank(a, b).flipped(),
    decreases a.len(),
{
    if a.len() > 0 && b.len() > 0 {
        law_text_rank_flips(a.drop_first(), b.drop_first());
    }
}

/// Law: the order of texts is transitive.
pub proof fn law_text_rank_transitive(a: Seq<char>, b: Seq<char>, c: Seq<char>)
    requires
        text_rank(a, b) != Rank::After,
        text_rank(b, c) != Rank::After,
    ensures
        text_rank(a, c) != Rank::After,
        text_rank(a, c) == Rank::Same ==> text_rank(a, b) == Rank::Same && text_rank(b, c)
            == Rank::Same,
    decreases a.len(),
{
    if a.len() > 0 && b.len() > 0 && c.len() > 0 && a[0] == b[0] && b[0] == c[0] {
        law_text_rank_transitive(a.drop_first(), b.drop_first(), c.drop_first());
    }
}

/// Where two texts begin with parts of one length, those parts decide first.
pub proof fn lemma_text_rank_concat(a: Seq<char>, x: Seq<char>, b: Seq<char>, y: Seq<char>)
    requires
        a.len() == b.len(),
    ensures
        text_rank(a + x, b + y) == text_rank(a, b).refined_by(text_rank(x, y)),
    decreases a.len(),
{
    if a.len() == 0 {
        assert(a + x =~= x);
        assert(b + y =~= y);
    } else {
        lemma_text_rank_concat(a.drop_first(), x, b.drop_first(), y);
        assert((a + x).drop_first() =~= a.drop_first() + x);
        assert((b + y).drop_first() =~= b.drop_first() + y);
    }
}

/// The rank of two names given by their bytes: the first byte that differs
/// decides, and a name stands before every longer one that begins with it.
pub open spec fn name_rank(a: Seq<u8>, b: Seq<u8>) -> Rank
    decreases a.len(),
{
    if a.len() == 0 {
        if b.len() == 0 {
            Rank::Same
        } else {
            Rank::Before
        }
    } else if b.len() == 0 {
        Rank::After
    } else {
        number_rank(a[0] as int, b[0] as int).refined_by(name_rank(a.drop_first(), b.drop_first()))
    }
}

/// The rank of two paths given by their names: the first name that differs
/// decides, and a directory stands before what is in it.
pub open spec fn path_rank(a: Seq<Seq<u8>>, b: Seq<Seq<u8>>) -> Rank
    decreases a.len(),
{
    if a.len() == 0 {
        if b.len() == 0 {
            Rank::Same
        } else {
            Rank::Before
        }
    } else if b.len() == 0 {
        Rank::After
    } else {
        name_rank(a[0], b[0]).refined_by(path_rank(a.drop_first(), b.drop_first()))
    }
}

/// What the names of a path hold.
pub open spec fn names_view(names: Seq<Vec<u8>>) -> Seq<Seq<u8>> {
    Seq::new(names.len(), |i: int| names[i]@)
}

/// The rank of two names.
fn rank_names(a: &Vec<u8>, b: &Vec<u8>) -> (r: Rank)
    ensures
        r == name_rank(a@, b@),
{
    let mut i: usize = 0;
    assert(a@.skip(0) =~= a@);
    assert(b@.skip(0) =~= b@);
    while i < a.len() && i < b.len()
        invariant
            i <= a@.len(),
            i <= b@.len(),
            name_rank(a@, b@) == name_rank(a@.skip(i as int), b@.skip(i as int)),
        decreases a@.len() - i,
    {
        let ghost x = a@.skip(i as int);
        let ghost y = b@.skip(i as int);
        assert(x[0] == a@[i as int] && y[0] == b@[i as int]);
        if a[i] < b[i] {
            return Rank::Before;
        }
        if a[i] > b[i] {
            return Rank::After;
        }
        assert(x.drop_first() =~= a@.skip(i + 1));
        assert(y.drop_first() =~= b@.skip(i + 1));
        i += 1;
    }
    if i < b.len() {
        Rank::Before
    } else if i < a.len() {
        Rank::After
    } else {
        Rank::Same
    }
}

/// The rank of two paths.
pub fn rank_paths(a: &Vec<Vec<u8>>, b: &Vec<Vec<u8>>) -> (r: Rank)
    ensures
        r == path_rank(names_view(a@), names_view(b@)),
{
    let ghost p = names_view(a@);
    let ghost q = names_view(b@);
    let mut i: usize = 0;
    assert(p.skip(0) =~= p);
    assert(q.skip(0) =~= q);
    while i < a.len() && i < b.len()
        invariant
            i <= a@.len(),
            i <= b@.len(),
            p == names_view(a@),
            q == names_view(b@),
            path_rank(p, q) == path_rank(p.skip(i as int), q.skip(i as int)),
        decreases a@.len() - i,
    {
        let ghost x = p.skip(i as int);
        let ghost y = q.skip(i as int);
        assert(x[0] == a@[i as int]@ && y[0] == b@[i as int]@);
        let here = rank_names(&a[i], &b[i]);
        if here != Rank::Same {
            return here;
        }
        assert(x.drop_first() =~= p.skip(i + 1));
        assert(y.drop_first() =~= q.skip(i + 1));
        i += 1;
    }
    if i < b.len() {
        Rank::Before
    } else if i < a.len() {
        Rank::After
    } else {
        Rank::Same
    }
}

proof fn lemma_name_rank_same(a: Seq<u8>, b: Seq<u8>)
    ensures
        name_rank(a, b) == Rank::Same <==> a == b,
    decreases a.len(),
{
    if a.len() > 0 && b.len() > 0 {
        lemma_name_rank_same(a.drop_first(), b.drop_first());
        assert(a =~= seq![a[0]] + a.drop_first());
        assert(b =~= seq![b[0]] + b.drop_first());
    } else if a.len() == 0 && b.len() == 0 {
        assert(a =~= b);
    }
}

proof fn lemma_name_rank_flips(a: Seq<u8>, b: Seq<u8>)
    ensures
        name_rank(b, a) == name_rank(a, b).flipped(),
    decreases a.len(),
{
    if a.len() > 0 && b.len() > 0 {
        lemma_name_rank_flips(a.drop_first(), b.drop_first());
    }
}

proof fn lemma_name_rank_transitive(a: Seq<u8>, b: Seq<u8>, c: Seq<u8>)
    requires
        name_rank(a, b) != Rank::After,
        name_rank(b, c) != Rank::After,
    ensures
        name_rank(a, c) != Rank::After,
        name_rank(a, c) == Rank::Same ==> name_rank(a, b) == Rank::Same && name_rank(b, c)
            == Rank::Same,
    decreases a.len(),
{
    if a.len() > 0 && b.len() > 0 && c.len() > 0 && a[0] == b[0] && b[0] == c[0] {
        lemma_name_rank_transitive(a.drop_first(), b.drop_first(), c.drop_first());
    }
}

/// Law: two paths are level exactly where they are the same path.
pub proof fn law_path_rank_same(a: Seq<Seq<u8>>, b: Seq<Seq<u8>>)
    ensures
        path_rank(a, b) == Rank::Same <==> a == b,
    decreases a.len(),
{
    if a.len() > 0 && b.len() > 0 {
        lemma_name_rank_same(a[0], b[0]);
        law_path_rank_same(a.drop_first(), b.drop_first());
        assert(a =~= seq![a[0]] + a.drop_first());
        assert(b =~= seq![b[0]] + b.drop_first());
    } else if a.len() == 0 && b.len() == 0 {
        assert(a =~= b);
    }
}

/// Law: exchanging two paths turns their rank around.
pub proof fn law_path_rank_flips(a: Seq<Seq<u8>>, b: Seq<Seq<u8>>)
    ensures
        path_rank(b, a) == path_rank(a, b).flipped(),
    decreases a.len(),
{
    if a.len() > 0 && b.len() > 0 {
        lemma_name_rank_flips(a[0], b[0]);
        law_path_rank_flips(a.drop_first(), b.drop_first());
    }
}

/// Law: the order of paths is transitive.
pub proof fn law_path_rank_transitive(a: Seq<Seq<u8>>, b: Seq<Seq<u8>>, c: Seq<Seq<u8>>)
    requires
        path_rank(a, b) != Rank::After,
        path_rank(b, c) != Rank::After,
    ensures
        path_rank(a, c) != Rank::After,
        path_rank(a, c) == Rank::Same ==> path_rank(a, b) == Rank::Same && path_rank(b, c)
            == Rank::Same,
    decreases a.len(),
{
    if a.len() > 0 && b.len() > 0 && c.len() > 0 {
        lemma_name_rank_transitive(a[0], b[0], c[0]);
        if name_rank(a[0], b[0]) == Rank::Same && name_rank(b[0], c[0]) == Rank::Same {
            law_path_rank_transitive(a.drop_first(), b.drop_first(), c.drop_first());
        }
    }
}

/// Law: numbers rank by size.
pub proof fn law_numbers_rank_by_size(a: int, b: int)
    ensures
        number_rank(a, b) == Rank::Before <==> a < b,
        number_rank(a, b) == Rank::Same <==> a == b,
        number_rank(a, b) == Rank::After <==> a > b,
{
}

/// Law: a rank is refined only where it is level, and flips twice to itself.
pub proof fn law_ranks_are_refined(a: Rank, b: Rank)
    ensures
        a == Rank::Same ==> a.refined_by(b) == b,
        a != Rank::Same ==> a.refined_by(b) == a,
        a.flipped().flipped() == a,
        a.flipped() == a <==> a == Rank::Same,
{
}

/// Law: the first place where two texts differ decides: the smaller character
/// stands before the larger one, and the end of a text before any character.
pub proof fn law_texts_rank_by_their_first_difference(a: Seq<char>, b: Seq<char>, k: int)
    requires
        0 <= k <= a.len(),
        k < b.len(),
        forall|i: int| 0 <= i < k ==> a[i] == b[i],
        k < a.len() ==> a[k] < b[k],
    ensures
        text_rank(a, b) == Rank::Before,
        text_rank(b, a) == Rank::After,
    decreases k,
{
    law_text_rank_flips(a, b);
    if k > 0 {
        law_texts_rank_by_their_first_difference(a.drop_first(), b.drop_first(), k - 1);
    }
}

proof fn lemma_names_rank_by_their_first_difference(a: Seq<u8>, b: Seq<u8>, k: int)
    requires
        0 <= k <= a.len(),
        k < b.len(),
        forall|i: int| 0 <= i < k ==> a[i] == b[i],
        k < a.len() ==> a[k] < b[k],
    ensures
        name_rank(a, b) == Rank::Before,
    decreases k,
{
    if k > 0 {
        lemma_names_rank_by_their_first_difference(a.drop_first(), b.drop_first(), k - 1);
    }
}

/// Law: the first name in which two paths differ decides, and in it the first
/// byte. The end of a path stands before any name, the end of a name before any
/// byte.
pub proof fn law_paths_rank_by_their_first_difference(
    a: Seq<Seq<u8>>,
    b: Seq<Seq<u8>>,
    k: int,
    n: int,
)
    requires
        0 <= k <= a.len(),
        k < b.len(),
        forall|i: int| 0 <= i < k ==> a[i] == b[i],
        k < a.len() ==> {
            &&& 0 <= n <= a[k].len()
            &&& n < b[k].len()
            &&& forall|i: int| 0 <= i < n ==> a[k][i] == b[k][i]
            &&& n < a[k].len() ==> a[k][n] < b[k][n]
        },
    ensures
        path_rank(a, b) == Rank::Before,
        path_rank(b, a) == Rank::After,
    decreases k,
{
    law_path_rank_flips(a, b);
    if k > 0 {
        lemma_name_rank_same(a[0], b[0]);
        law_paths_rank_by_their_first_difference(a.drop_first(), b.drop_first(), k - 1, n);
    } else if a.len() > 0 {
        lemma_names_rank_by_their_first_difference(a[0], b[0], n);
    }
}

/// Law: the names of a path keep their places and their bytes.
pub proof fn law_names_keep_places(names: Seq<Vec<u8>>)
    ensures
        names_view(names).len() == names.len(),
        forall|i: int| 0 <= i < names.len() ==> #[trigger] names_view(names)[i] == names[i]@,
{
}

} // verus!
