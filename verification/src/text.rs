//! Text as sequences of characters: splitting, trimming, joining, replacing,
//! counting, and the few functions of `std` that the rest of the crate takes
//! on trust.
use vstd::prelude::*;

verus! {

/// What `str::to_lowercase` makes of a text. The mapping follows Unicode and
/// is not one character to one character.
pub uninterp spec fn lowercase(text: Seq<char>) -> Seq<char>;

/// `str::to_lowercase`: the result depends on the text alone.
pub assume_specification[ str::to_lowercase ](s: &str) -> (r: String)
    ensures
        r@ == lowercase(s@),
;

/// Whether a character has the Unicode property `White_Space`.
pub open spec fn white_space(c: char) -> bool {
    ||| '\u{9}' <= c <= '\u{d}'
    ||| c == '\u{20}'
    ||| c == '\u{85}'
    ||| c == '\u{a0}'
    ||| c == '\u{1680}'
    ||| '\u{2000}' <= c <= '\u{200a}'
    ||| c == '\u{2028}'
    ||| c == '\u{2029}'
    ||| c == '\u{202f}'
    ||| c == '\u{205f}'
    ||| c == '\u{3000}'
}

/// `char::is_whitespace`: whether the character has the Unicode property
/// `White_Space`.
pub assume_specification[ char::is_whitespace ](c: char) -> (r: bool)
    ensures
        r == white_space(c),
;

/// `String::push` puts the character behind what the string holds.
pub assume_specification[ String::push ](s: &mut String, c: char)
    ensures
        final(s)@ == old(s)@.push(c),
;

/// The characters of each string.
pub open spec fn views(strings: Seq<String>) -> Seq<Seq<char>> {
    Seq::new(strings.len(), |i: int| strings[i]@)
}

/// One more string: its characters come last.
pub proof fn lemma_views_push(strings: Seq<String>, s: String)
    ensures
        views(strings.push(s)) == views(strings).push(s@),
{
    assert(views(strings.push(s)) =~= views(strings).push(s@));
}

/// The characters of a string that may be absent.
pub open spec fn opt_view(s: Option<String>) -> Option<Seq<char>> {
    match s {
        Some(t) => Some(t@),
        None => None,
    }
}

/// An absent text read as the empty one.
pub open spec fn text_or_empty(t: Option<Seq<char>>) -> Seq<char> {
    match t {
        Some(s) => s,
        None => Seq::empty(),
    }
}

/// The characters of `s`, one by one.
pub fn chars_of(s: &str) -> (r: Vec<char>)
    ensures
        r@ == s@,
{
    let mut out: Vec<char> = Vec::new();
    for c in it: s.chars()
        invariant
            it.seq() == s@,
            out@ == s@.take(it.index() as int),
    {
        out.push(c);
        assert(out@ =~= s@.take(it.index() + 1));
    }
    assert(s@.take(s@.len() as int) =~= s@);
    out
}

/// The string of the characters `v[from..to]`.
pub fn string_from(v: &Vec<char>, from: usize, to: usize) -> (r: String)
    requires
        from <= to <= v@.len(),
    ensures
        r@ == v@.subrange(from as int, to as int),
{
    let mut out = String::new();
    let mut i: usize = from;
    assert(out@ =~= v@.subrange(from as int, from as int));
    while i < to
        invariant
            from <= i <= to <= v@.len(),
            out@ == v@.subrange(from as int, i as int),
        decreases to - i,
    {
        out.push(v[i]);
        assert(out@ =~= v@.subrange(from as int, i + 1));
        i += 1;
    }
    out
}

/// Whether `key` stands in `s` from position `at` on.
pub open spec fn stands_at(s: Seq<char>, at: int, key: Seq<char>) -> bool {
    at + key.len() <= s.len() && s.subrange(at, at + key.len()) == key
}

/// Whether `key` stands in `s` from position `at` on.
pub fn stands_at_position(s: &Vec<char>, at: usize, key: &Vec<char>) -> (r: bool)
    requires
        at <= s@.len(),
    ensures
        r == stands_at(s@, at as int, key@),
{
    let end: usize = s.len();
    if key.len() > end - at {
        return false;
    }
    let mut i: usize = 0;
    while i < key.len()
        invariant
            i <= key@.len(),
            at + key@.len() <= s@.len() == end,
            forall|j: int| 0 <= j < i ==> s@[at + j] == #[trigger] key@[j],
        decreases key@.len() - i,
    {
        if s[at + i] != key[i] {
            assert(s@.subrange(at as int, at + key@.len())[i as int] != key@[i as int]);
            return false;
        }
        i += 1;
    }
    assert(s@.subrange(at as int, at + key@.len()) =~= key@);
    true
}

/// Whether `text` begins with `prefix`.
pub fn starts_with(text: &str, prefix: &str) -> (r: bool)
    ensures
        r == stands_at(text@, 0, prefix@),
{
    let t = chars_of(text);
    let p = chars_of(prefix);
    stands_at_position(&t, 0, &p)
}

/// Whether the two texts have the same characters.
pub fn same_text(a: &str, b: &str) -> (r: bool)
    ensures
        r == (a@ == b@),
{
    let x = chars_of(a);
    let y = chars_of(b);
    if x.len() != y.len() {
        return false;
    }
    let r = stands_at_position(&x, 0, &y);
    assert(x@.subrange(0, x@.len() as int) =~= x@);
    r
}

/// The parts with `sep` between each two neighbours.
pub open spec fn joined(parts: Seq<Seq<char>>, sep: Seq<char>) -> Seq<char>
    decreases parts.len(),
{
    if parts.len() == 0 {
        Seq::empty()
    } else {
        let init = parts.drop_last();
        if init.len() == 0 {
            parts.last()
        } else {
            joined(init, sep) + sep + parts.last()
        }
    }
}

/// Writes the parts one behind the other, with `sep` between each two.
pub fn join(parts: &Vec<String>, sep: &str) -> (r: String)
    ensures
        r@ == joined(views(parts@), sep@),
{
    let mut out = String::new();
    let mut i: usize = 0;
    let ghost all = views(parts@);
    assert(all.take(0) =~= Seq::<Seq<char>>::empty());
    while i < parts.len()
        invariant
            i <= parts@.len(),
            all == views(parts@),
            out@ == joined(all.take(i as int), sep@),
        decreases parts@.len() - i,
    {
        if i > 0 {
            out.append(sep);
        }
        out.append(parts[i].as_str());
        proof {
            let next = all.take(i + 1);
            assert(next.drop_last() =~= all.take(i as int));
            assert(next.last() == parts@[i as int]@);
            assert(all.take(0) =~= Seq::<Seq<char>>::empty());
            assert(Seq::<char>::empty() + parts@[i as int]@ =~= parts@[i as int]@);
        }
        i += 1;
    }
    assert(all.take(i as int) =~= all);
    out
}

/// The pieces of `text` between the characters that occur in `seps`: one more
/// than there are such characters, empty pieces included.
pub open spec fn pieces(text: Seq<char>, seps: Seq<char>) -> Seq<Seq<char>>
    decreases text.len(),
{
    if text.len() == 0 {
        seq![Seq::empty()]
    } else {
        let before = pieces(text.drop_last(), seps);
        if seps.contains(text.last()) {
            before.push(Seq::empty())
        } else {
            before.drop_last().push(before.last().push(text.last()))
        }
    }
}

/// Whether `c` is one of `list`.
fn is_one_of(c: char, list: &Vec<char>) -> (r: bool)
    ensures
        r == list@.contains(c),
{
    let mut i: usize = 0;
    while i < list.len()
        invariant
            i <= list@.len(),
            forall|j: int| 0 <= j < i ==> list@[j] != c,
        decreases list@.len() - i,
    {
        if list[i] == c {
            return true;
        }
        i += 1;
    }
    false
}

/// Cuts `text` at every character that occurs in `seps`.
pub fn split(text: &str, seps: &str) -> (r: Vec<String>)
    ensures
        views(r@) == pieces(text@, seps@),
        r@.len() > 0,
{
    let t = chars_of(text);
    let s = chars_of(seps);
    let mut out: Vec<String> = Vec::new();
    let mut current = String::new();
    let mut i: usize = 0;
    assert(views(out@).push(current@) =~= pieces(t@.take(0), s@));
    while i < t.len()
        invariant
            i <= t@.len(),
            views(out@).push(current@) == pieces(t@.take(i as int), s@),
        decreases t@.len() - i,
    {
        let ghost before = pieces(t@.take(i as int), s@);
        let ghost done = views(out@);
        proof {
            assert(t@.take(i + 1).drop_last() =~= t@.take(i as int));
            assert(before.drop_last() =~= done);
            assert(before.last() == current@);
        }
        if is_one_of(t[i], &s) {
            out.push(current);
            current = String::new();
            assert(views(out@) =~= before);
        } else {
            current.push(t[i]);
        }
        i += 1;
    }
    assert(t@.take(i as int) =~= t@);
    let ghost done = views(out@);
    let ghost rest = current@;
    out.push(current);
    assert(views(out@) =~= done.push(rest));
    out
}

/// Law: the pieces of a text hold none of the characters that it was cut at.
pub proof fn law_pieces_hold_no_separator(text: Seq<char>, seps: Seq<char>, i: int, j: int)
    requires
        0 <= i < pieces(text, seps).len(),
        0 <= j < pieces(text, seps)[i].len(),
    ensures
        !seps.contains(pieces(text, seps)[i][j]),
    decreases text.len(),
{
    if text.len() > 0 {
        let before = pieces(text.drop_last(), seps);
        lemma_pieces_exist(text.drop_last(), seps);
        if i < before.len() && j < before[i].len() {
            law_pieces_hold_no_separator(text.drop_last(), seps, i, j);
        }
    }
}

/// There is always a piece.
proof fn lemma_pieces_exist(text: Seq<char>, seps: Seq<char>)
    ensures
        pieces(text, seps).len() > 0,
    decreases text.len(),
{
    if text.len() > 0 {
        lemma_pieces_exist(text.drop_last(), seps);
    }
}

/// `s` without its leading white space.
pub open spec fn trim_start(s: Seq<char>) -> Seq<char>
    decreases s.len(),
{
    if s.len() > 0 && white_space(s[0]) {
        trim_start(s.drop_first())
    } else {
        s
    }
}

/// `s` without its trailing white space.
pub open spec fn trim_end(s: Seq<char>) -> Seq<char>
    decreases s.len(),
{
    if s.len() > 0 && white_space(s.last()) {
        trim_end(s.drop_last())
    } else {
        s
    }
}

/// `s` without the white space at both its ends.
pub open spec fn trimmed(s: Seq<char>) -> Seq<char> {
    trim_end(trim_start(s))
}

/// Removes the white space at both ends.
pub fn trim(s: &str) -> (r: String)
    ensures
        r@ == trimmed(s@),
{
    let v = chars_of(s);
    let mut from: usize = 0;
    let mut to: usize = v.len();
    assert(v@.skip(0) =~= v@);
    while from < to && v[from].is_whitespace()
        invariant
            from <= to == v@.len(),
            trim_start(v@) == trim_start(v@.skip(from as int)),
        decreases to - from,
    {
        assert(v@.skip(from as int).drop_first() =~= v@.skip(from + 1));
        from += 1;
    }
    let ghost rest = v@.skip(from as int);
    assert(trim_start(v@) == rest);
    assert(rest =~= v@.subrange(from as int, to as int));
    while from < to && v[to - 1].is_whitespace()
        invariant
            from <= to <= v@.len(),
            trim_end(rest) == trim_end(v@.subrange(from as int, to as int)),
        decreases to - from,
    {
        assert(v@.subrange(from as int, to as int).drop_last() =~= v@.subrange(
            from as int,
            to - 1,
        ));
        to -= 1;
    }
    string_from(&v, from, to)
}

/// Law: a trimmed text has no white space at its ends, and holds nothing that
/// the text did not hold.
pub proof fn law_trimmed_has_bare_ends(s: Seq<char>)
    ensures
        trimmed(s).len() > 0 ==> !white_space(trimmed(s)[0]) && !white_space(trimmed(s).last()),
        forall|i: int| 0 <= i < trimmed(s).len() ==> s.contains(#[trigger] trimmed(s)[i]),
{
    let t = trim_start(s);
    lemma_trim_start(s);
    lemma_trim_end(t);
    assert forall|i: int| 0 <= i < trimmed(s).len() implies s.contains(#[trigger] trimmed(s)[i]) by {
        assert(trimmed(s)[i] == t[i]);
    }
}

proof fn lemma_trim_start(s: Seq<char>)
    ensures
        trim_start(s).len() > 0 ==> !white_space(trim_start(s)[0]),
        forall|i: int| 0 <= i < trim_start(s).len() ==> s.contains(#[trigger] trim_start(s)[i]),
    decreases s.len(),
{
    if s.len() > 0 && white_space(s[0]) {
        let rest = s.drop_first();
        lemma_trim_start(rest);
        assert forall|i: int| 0 <= i < trim_start(s).len() implies s.contains(
            #[trigger] trim_start(s)[i],
        ) by {
            assert(rest.contains(trim_start(rest)[i]));
            let k = choose|k: int| 0 <= k < rest.len() && rest[k] == trim_start(rest)[i];
            assert(s[k + 1] == rest[k]);
        }
    }
}

proof fn lemma_trim_end(s: Seq<char>)
    ensures
        trim_end(s).len() <= s.len(),
        trim_end(s) == s.take(trim_end(s).len() as int),
        trim_end(s).len() > 0 ==> !white_space(trim_end(s).last()),
    decreases s.len(),
{
    if s.len() > 0 && white_space(s.last()) {
        let rest = s.drop_last();
        lemma_trim_end(rest);
        assert(rest.take(trim_end(rest).len() as int) =~= s.take(trim_end(rest).len() as int));
    } else {
        assert(s.take(s.len() as int) =~= s);
    }
}

/// `s` without the leading characters that are `c`.
pub open spec fn without_leading(s: Seq<char>, c: char) -> Seq<char>
    decreases s.len(),
{
    if s.len() > 0 && s[0] == c {
        without_leading(s.drop_first(), c)
    } else {
        s
    }
}

/// Removes the leading characters that are `c`.
pub fn trim_leading(s: &str, c: char) -> (r: String)
    ensures
        r@ == without_leading(s@, c),
{
    let v = chars_of(s);
    let mut from: usize = 0;
    assert(v@.skip(0) =~= v@);
    while from < v.len() && v[from] == c
        invariant
            from <= v@.len(),
            without_leading(v@, c) == without_leading(v@.skip(from as int), c),
        decreases v@.len() - from,
    {
        assert(v@.skip(from as int).drop_first() =~= v@.skip(from + 1));
        from += 1;
    }
    assert(v@.skip(from as int) =~= v@.subrange(from as int, v@.len() as int));
    string_from(&v, from, v.len())
}

/// Law: what is left does not begin with the character.
pub proof fn law_without_leading(s: Seq<char>, c: char)
    ensures
        without_leading(s, c).len() > 0 ==> without_leading(s, c)[0] != c,
    decreases s.len(),
{
    if s.len() > 0 && s[0] == c {
        law_without_leading(s.drop_first(), c);
    }
}

/// The parts that are not empty, in their order.
pub open spec fn non_empty(parts: Seq<Seq<char>>) -> Seq<Seq<char>> {
    parts.filter(|p: Seq<char>| p.len() > 0)
}

/// One more part: it is kept unless it is empty.
pub proof fn lemma_non_empty_push(parts: Seq<Seq<char>>, part: Seq<char>)
    ensures
        non_empty(parts.push(part)) == if part.len() > 0 {
            non_empty(parts).push(part)
        } else {
            non_empty(parts)
        },
{
    reveal(Seq::filter);
    assert(parts.push(part).drop_last() =~= parts);
}

/// Law: what is kept as not empty is one of the parts, and not empty.
pub proof fn law_non_empty_parts(parts: Seq<Seq<char>>, i: int)
    requires
        0 <= i < non_empty(parts).len(),
    ensures
        non_empty(parts)[i].len() > 0,
        parts.contains(non_empty(parts)[i]),
    decreases parts.len(),
{
    reveal(Seq::filter);
    if parts.len() > 0 {
        let init = parts.drop_last();
        if i < non_empty(init).len() {
            law_non_empty_parts(init, i);
            let k = choose|k: int| 0 <= k < init.len() && init[k] == non_empty(init)[i];
            assert(parts[k] == init[k]);
        } else {
            assert(parts[parts.len() - 1] == non_empty(parts)[i]);
        }
    }
}

/// `s` with every occurrence of `from` replaced by `to`: occurrences are taken
/// from the left and do not overlap.
pub open spec fn replaced(s: Seq<char>, from: Seq<char>, to: Seq<char>) -> Seq<char>
    decreases s.len(),
{
    if from.len() == 0 || s.len() == 0 {
        s
    } else if stands_at(s, 0, from) {
        to + replaced(s.skip(from.len() as int), from, to)
    } else {
        seq![s[0]] + replaced(s.skip(1), from, to)
    }
}

/// Replaces every occurrence of the text `from` by the text `to`.
pub fn replace(s: &str, from: &str, to: &str) -> (r: String)
    requires
        from@.len() > 0,
    ensures
        r@ == replaced(s@, from@, to@),
{
    let v = chars_of(s);
    let key = chars_of(from);
    let mut out = String::new();
    let mut i: usize = 0;
    assert(v@.skip(0) =~= v@);
    assert(out@ + replaced(v@, key@, to@) =~= replaced(v@, key@, to@));
    while i < v.len()
        invariant
            i <= v@.len(),
            key@.len() > 0,
            out@ + replaced(v@.skip(i as int), key@, to@) == replaced(v@, key@, to@),
        decreases v@.len() - i,
    {
        let ghost rest = v@.skip(i as int);
        let ghost before = out@;
        assert(stands_at(rest, 0, key@) == stands_at(v@, i as int, key@)) by {
            if i + key@.len() <= v@.len() {
                assert(rest.subrange(0, key@.len() as int) =~= v@.subrange(
                    i as int,
                    i + key@.len(),
                ));
            }
        }
        if stands_at_position(&v, i, &key) {
            out.append(to);
            assert(rest.skip(key@.len() as int) =~= v@.skip(i + key@.len()));
            assert((before + to@) + replaced(v@.skip(i + key@.len()), key@, to@) =~= before + (to@
                + replaced(v@.skip(i + key@.len()), key@, to@)));
            i += key.len();
        } else {
            out.push(v[i]);
            assert(rest.skip(1) =~= v@.skip(i + 1));
            assert(out@ + replaced(v@.skip(i + 1), key@, to@) =~= before + (seq![rest[0]]
                + replaced(v@.skip(i + 1), key@, to@)));
            i += 1;
        }
    }
    assert(v@.skip(i as int) =~= Seq::<char>::empty());
    assert(out@ + Seq::<char>::empty() =~= out@);
    out
}

/// How often `key` occurs in `s`, counted from the left without overlaps. An
/// empty key is not counted.
pub open spec fn occurrences(s: Seq<char>, key: Seq<char>) -> nat
    decreases s.len(),
{
    if key.len() == 0 || s.len() == 0 {
        0
    } else if stands_at(s, 0, key) {
        1 + occurrences(s.skip(key.len() as int), key)
    } else {
        occurrences(s.skip(1), key)
    }
}

/// Counts the occurrences of `key` in `s`.
pub fn count_occurrences(s: &Vec<char>, key: &Vec<char>) -> (r: usize)
    ensures
        r == occurrences(s@, key@),
{
    if key.len() == 0 {
        return 0;
    }
    let mut n: usize = 0;
    let mut i: usize = 0;
    assert(s@.skip(0) =~= s@);
    while i < s.len()
        invariant
            i <= s@.len(),
            key@.len() > 0,
            n <= i,
            n + occurrences(s@.skip(i as int), key@) == occurrences(s@, key@),
        decreases s@.len() - i,
    {
        let ghost rest = s@.skip(i as int);
        assert(stands_at(rest, 0, key@) == stands_at(s@, i as int, key@)) by {
            if i + key@.len() <= s@.len() {
                assert(rest.subrange(0, key@.len() as int) =~= s@.subrange(
                    i as int,
                    i + key@.len(),
                ));
            }
        }
        if stands_at_position(s, i, key) {
            assert(rest.skip(key@.len() as int) =~= s@.skip(i + key@.len()));
            n += 1;
            i += key.len();
        } else {
            assert(rest.skip(1) =~= s@.skip(i + 1));
            i += 1;
        }
    }
    n
}

/// At most the first `max` characters of `s`.
pub open spec fn truncated(s: Seq<char>, max: nat) -> Seq<char> {
    if s.len() <= max {
        s
    } else {
        s.take(max as int)
    }
}

/// At most the first `max_chars` characters of `s`.
pub fn truncate(s: &str, max_chars: usize) -> (r: String)
    ensures
        r@ == truncated(s@, max_chars as nat),
{
    let v = chars_of(s);
    if v.len() <= max_chars {
        assert(v@.subrange(0, v@.len() as int) =~= v@);
        string_from(&v, 0, v.len())
    } else {
        assert(v@.subrange(0, max_chars as int) =~= v@.take(max_chars as int));
        string_from(&v, 0, max_chars)
    }
}

/// Law: every string keeps its place and its characters.
pub proof fn law_views_keep_places(strings: Seq<String>)
    ensures
        views(strings).len() == strings.len(),
        forall|i: int| 0 <= i < strings.len() ==> #[trigger] views(strings)[i] == strings[i]@,
{
}

/// Law: a string that may be absent has its characters where it is there, and
/// reads as the empty text where it is not.
pub proof fn law_absent_strings(s: String)
    ensures
        opt_view(Some(s)) == Some(s@),
        opt_view(None) == None::<Seq<char>>,
        text_or_empty(Some(s@)) == s@,
        text_or_empty(None).len() == 0,
{
}

/// Law: a key stands at a place exactly where the text has each of its
/// characters from there on.
pub proof fn law_standing_is_letter_by_letter(s: Seq<char>, at: int, key: Seq<char>)
    requires
        0 <= at,
    ensures
        stands_at(s, at, key) <==> at + key.len() <= s.len() && forall|j: int|
            0 <= j < key.len() ==> s[at + j] == #[trigger] key[j],
{
    if at + key.len() <= s.len() {
        let there = s.subrange(at, at + key.len());
        if there == key {
            assert forall|j: int| 0 <= j < key.len() implies s[at + j] == #[trigger] key[j] by {
                assert(there[j] == s[at + j]);
            }
        }
        if forall|j: int| 0 <= j < key.len() ==> s[at + j] == #[trigger] key[j] {
            assert(there =~= key);
        }
    }
}

/// Law: joined parts begin with the first of them, and the separator stands
/// between it and the rest where there is a rest.
pub proof fn law_joined_from_the_front(first: Seq<char>, rest: Seq<Seq<char>>, sep: Seq<char>)
    ensures
        joined(Seq::empty(), sep).len() == 0,
        joined(seq![first], sep) == first,
        rest.len() > 0 ==> joined(seq![first] + rest, sep) == first + sep + joined(rest, sep),
    decreases rest.len(),
{
    assert(seq![first].drop_last() =~= Seq::<Seq<char>>::empty());
    let all = seq![first] + rest;
    if rest.len() == 1 {
        assert(all.drop_last() =~= seq![first]);
        assert(rest.drop_last() =~= Seq::<Seq<char>>::empty());
        assert(all.last() == rest.last());
        assert(joined(seq![first], sep) == first);
        assert(joined(all, sep) == joined(all.drop_last(), sep) + sep + all.last());
        assert(joined(rest, sep) == rest.last());
        assert(joined(all, sep) =~= first + sep + joined(rest, sep));
    } else if rest.len() > 1 {
        law_joined_from_the_front(first, rest.drop_last(), sep);
        assert(all.drop_last() =~= seq![first] + rest.drop_last());
        assert(joined(all, sep) =~= first + sep + joined(rest, sep));
    }
}

/// Law: a text without a separator is its only piece.
pub proof fn law_text_without_separator_is_one_piece(text: Seq<char>, seps: Seq<char>)
    requires
        forall|i: int| 0 <= i < text.len() ==> !seps.contains(#[trigger] text[i]),
    ensures
        pieces(text, seps) == seq![text],
    decreases text.len(),
{
    if text.len() > 0 {
        let init = text.drop_last();
        assert forall|i: int| 0 <= i < init.len() implies !seps.contains(#[trigger] init[i]) by {
            assert(init[i] == text[i]);
        }
        law_text_without_separator_is_one_piece(init, seps);
        assert(!seps.contains(text[text.len() - 1]));
        assert(init.push(text.last()) =~= text);
        assert(pieces(text, seps) =~= seq![text]);
    } else {
        assert(text =~= Seq::<char>::empty());
    }
}

/// Law: a separator parts a text into the pieces before it and those behind it.
pub proof fn law_separator_parts_the_text(a: Seq<char>, c: char, b: Seq<char>, seps: Seq<char>)
    requires
        seps.contains(c),
    ensures
        pieces(a.push(c) + b, seps) == pieces(a, seps) + pieces(b, seps),
    decreases b.len(),
{
    let text = a.push(c) + b;
    if b.len() == 0 {
        assert(text =~= a.push(c));
        assert(text.drop_last() =~= a);
        assert(pieces(text, seps) =~= pieces(a, seps) + pieces(b, seps));
    } else {
        let init = b.drop_last();
        law_separator_parts_the_text(a, c, init, seps);
        assert(text.drop_last() =~= a.push(c) + init);
        lemma_pieces_exist(init, seps);
        let left = pieces(a, seps);
        let right = pieces(init, seps);
        assert((left + right).last() == right.last());
        assert(pieces(text, seps) =~= left + pieces(b, seps));
    }
}

/// Law: trimming cuts off white space at the ends and nothing else.
pub proof fn law_trimming_cuts_off_white_space_only(s: Seq<char>)
    ensures
        exists|i: int, j: int|
            0 <= i <= j <= s.len() && trimmed(s) == #[trigger] s.subrange(i, j) && (forall|k: int|
                0 <= k < i || j <= k < s.len() ==> white_space(#[trigger] s[k])),
{
    lemma_trim_start_cuts(s);
    let i = choose|i: int|
        0 <= i <= s.len() && trim_start(s) == #[trigger] s.skip(i) && forall|k: int|
            0 <= k < i ==> white_space(#[trigger] s[k]);
    let t = s.skip(i);
    lemma_trim_end_cuts(t);
    let n = choose|n: int|
        0 <= n <= t.len() && trim_end(t) == #[trigger] t.take(n) && forall|k: int|
            n <= k < t.len() ==> white_space(#[trigger] t[k]);
    assert(trimmed(s) =~= s.subrange(i, i + n));
    assert forall|k: int| 0 <= k < i || i + n <= k < s.len() implies white_space(
        #[trigger] s[k],
    ) by {
        if k >= i {
            assert(t[k - i] == s[k]);
        }
    }
}

proof fn lemma_trim_start_cuts(s: Seq<char>)
    ensures
        exists|i: int|
            0 <= i <= s.len() && trim_start(s) == #[trigger] s.skip(i) && forall|k: int|
                0 <= k < i ==> white_space(#[trigger] s[k]),
    decreases s.len(),
{
    if s.len() > 0 && white_space(s[0]) {
        let rest = s.drop_first();
        lemma_trim_start_cuts(rest);
        let i = choose|i: int|
            0 <= i <= rest.len() && trim_start(rest) == #[trigger] rest.skip(i) && forall|k: int|
                0 <= k < i ==> white_space(#[trigger] rest[k]);
        assert(rest.skip(i) =~= s.skip(i + 1));
        assert forall|k: int| 0 <= k < i + 1 implies white_space(#[trigger] s[k]) by {
            if k > 0 {
                assert(rest[k - 1] == s[k]);
            }
        }
    } else {
        assert(s.skip(0) =~= s);
    }
}

proof fn lemma_trim_end_cuts(s: Seq<char>)
    ensures
        exists|n: int|
            0 <= n <= s.len() && trim_end(s) == #[trigger] s.take(n) && forall|k: int|
                n <= k < s.len() ==> white_space(#[trigger] s[k]),
    decreases s.len(),
{
    if s.len() > 0 && white_space(s.last()) {
        let rest = s.drop_last();
        lemma_trim_end_cuts(rest);
        let n = choose|n: int|
            0 <= n <= rest.len() && trim_end(rest) == #[trigger] rest.take(n) && forall|k: int|
                n <= k < rest.len() ==> white_space(#[trigger] rest[k]);
        assert(rest.take(n) =~= s.take(n));
        assert forall|k: int| n <= k < s.len() implies white_space(#[trigger] s[k]) by {
            if k < rest.len() {
                assert(rest[k] == s[k]);
            }
        }
    } else {
        assert(s.take(s.len() as int) =~= s);
    }
}

/// Law: only the leading characters that are `c` are removed.
pub proof fn law_only_leading_characters_go(s: Seq<char>, c: char)
    ensures
        exists|n: int|
            0 <= n <= s.len() && without_leading(s, c) == #[trigger] s.skip(n) && forall|k: int|
                0 <= k < n ==> #[trigger] s[k] == c,
    decreases s.len(),
{
    if s.len() > 0 && s[0] == c {
        let rest = s.drop_first();
        law_only_leading_characters_go(rest, c);
        let n = choose|n: int|
            0 <= n <= rest.len() && without_leading(rest, c) == #[trigger] rest.skip(n)
                && forall|k: int| 0 <= k < n ==> #[trigger] rest[k] == c;
        assert(rest.skip(n) =~= s.skip(n + 1));
        assert forall|k: int| 0 <= k < n + 1 implies #[trigger] s[k] == c by {
            if k > 0 {
                assert(rest[k - 1] == s[k]);
            }
        }
    } else {
        assert(s.skip(0) =~= s);
    }
}

/// Law: a part is kept exactly where it is not empty, and the parts keep their
/// order.
pub proof fn law_non_empty_in_order(a: Seq<Seq<char>>, part: Seq<char>, b: Seq<Seq<char>>)
    ensures
        non_empty(Seq::empty()).len() == 0,
        part.len() == 0 ==> non_empty(a + seq![part] + b) == non_empty(a) + non_empty(b),
        part.len() > 0 ==> non_empty(a + seq![part] + b) == non_empty(a) + seq![part] + non_empty(
            b,
        ),
    decreases b.len(),
{
    reveal(Seq::filter);
    let all = a + seq![part] + b;
    if b.len() == 0 {
        assert(all =~= a.push(part));
        lemma_non_empty_push(a, part);
        assert(non_empty(b) =~= Seq::<Seq<char>>::empty());
        assert(non_empty(a) + non_empty(b) =~= non_empty(a));
        assert(non_empty(a) + seq![part] + non_empty(b) =~= non_empty(a).push(part));
    } else {
        let init = b.drop_last();
        law_non_empty_in_order(a, part, init);
        assert(all =~= (a + seq![part] + init).push(b.last()));
        assert(b =~= init.push(b.last()));
        lemma_non_empty_push(a + seq![part] + init, b.last());
        lemma_non_empty_push(init, b.last());
        assert(non_empty(a) + non_empty(init).push(b.last()) =~= (non_empty(a) + non_empty(
            init,
        )).push(b.last()));
        assert(non_empty(a) + seq![part] + non_empty(init).push(b.last()) =~= (non_empty(a)
            + seq![part] + non_empty(init)).push(b.last()));
    }
}

/// Law: where the key does not occur, nothing is replaced and nothing counted.
pub proof fn law_key_that_does_not_occur(s: Seq<char>, key: Seq<char>, to: Seq<char>)
    requires
        key.len() > 0,
        forall|at: int|
            0 <= at <= s.len() - key.len() ==> #[trigger] s.subrange(at, at + key.len()) != key,
    ensures
        replaced(s, key, to) == s,
        occurrences(s, key) == 0,
    decreases s.len(),
{
    if s.len() > 0 {
        let rest = s.skip(1);
        if key.len() <= s.len() {
            assert(s.subrange(0, 0int + key.len()) != key);
        }
        assert forall|at: int| 0 <= at <= rest.len() - key.len() implies #[trigger] rest.subrange(
            at,
            at + key.len(),
        ) != key by {
            assert(rest.subrange(at, at + key.len()) =~= s.subrange(at + 1, at + 1 + key.len()));
        }
        law_key_that_does_not_occur(rest, key, to);
        assert(seq![s[0]] + rest =~= s);
    }
}

/// Law: the first occurrence of the key is replaced and counted, and what stands
/// behind it is treated alike.
pub proof fn law_first_occurrence(s: Seq<char>, key: Seq<char>, to: Seq<char>, at: int)
    requires
        key.len() > 0,
        0 <= at <= s.len() - key.len(),
        s.subrange(at, at + key.len()) == key,
        forall|k: int| 0 <= k < at ==> #[trigger] s.subrange(k, k + key.len()) != key,
    ensures
        replaced(s, key, to) == s.take(at) + to + replaced(s.skip(at + key.len()), key, to),
        occurrences(s, key) == 1 + occurrences(s.skip(at + key.len()), key),
    decreases at,
{
    let behind = s.skip(at + key.len());
    if at == 0 {
        assert(s.take(0) + to =~= to);
    } else {
        let rest = s.skip(1);
        assert(s.subrange(0, 0int + key.len()) != key);
        assert(rest.subrange(at - 1, at - 1 + key.len()) =~= s.subrange(at, at + key.len()));
        assert forall|k: int| 0 <= k < at - 1 implies #[trigger] rest.subrange(k, k + key.len())
            != key by {
            assert(rest.subrange(k, k + key.len()) =~= s.subrange(k + 1, k + 1 + key.len()));
        }
        law_first_occurrence(rest, key, to, at - 1);
        assert(rest.skip(at - 1 + key.len()) =~= behind);
        assert(seq![s[0]] + (rest.take(at - 1) + to + replaced(behind, key, to)) =~= s.take(at)
            + to + replaced(behind, key, to));
    }
}

/// Law: a key that does not hold a character is counted apart before and behind
/// it.
pub proof fn law_occurrences_across_a_break(a: Seq<char>, c: char, b: Seq<char>, key: Seq<char>)
    requires
        !key.contains(c),
    ensures
        occurrences(a.push(c) + b, key) == occurrences(a, key) + occurrences(b, key),
    decreases a.len(),
{
    let s = a.push(c) + b;
    if key.len() == 0 {
    } else if a.len() == 0 {
        assert(s[0] == c);
        assert(key.contains(key[0]));
        if stands_at(s, 0, key) {
            assert(s.subrange(0, key.len() as int)[0] == c);
        }
        assert(s.skip(1) =~= b);
    } else {
        if stands_at(s, 0, key) {
            if key.len() > a.len() {
                assert(s.subrange(0, key.len() as int)[a.len() as int] == c);
                assert(key.contains(key[a.len() as int]));
            } else {
                assert(a.subrange(0, key.len() as int) =~= s.subrange(0, key.len() as int));
                law_occurrences_across_a_break(a.skip(key.len() as int), c, b, key);
                assert(s.skip(key.len() as int) =~= a.skip(key.len() as int).push(c) + b);
            }
        } else {
            if stands_at(a, 0, key) {
                assert(a.subrange(0, key.len() as int) =~= s.subrange(0, key.len() as int));
            }
            law_occurrences_across_a_break(a.skip(1), c, b, key);
            assert(s.skip(1) =~= a.skip(1).push(c) + b);
        }
    }
}

/// Law: a text is cut to its beginning, as long as the limit allows.
pub proof fn law_truncated_is_the_beginning(s: Seq<char>, max: nat)
    ensures
        truncated(s, max).len() == if s.len() <= max {
            s.len()
        } else {
            max
        },
        forall|i: int| 0 <= i < truncated(s, max).len() ==> #[trigger] truncated(s, max)[i] == s[i],
{
}

/// What is kept of two lists is what is kept of each.
pub proof fn lemma_non_empty_of_two(x: Seq<Seq<char>>, y: Seq<Seq<char>>)
    ensures
        non_empty(x + y) == non_empty(x) + non_empty(y),
{
    law_non_empty_in_order(x, Seq::empty(), y);
    lemma_skip_empty(x, y);
}

proof fn lemma_skip_empty(x: Seq<Seq<char>>, y: Seq<Seq<char>>)
    ensures
        non_empty(x + seq![Seq::empty()] + y) == non_empty(x + y),
    decreases y.len(),
{
    let hole: Seq<char> = Seq::empty();
    if y.len() == 0 {
        assert(x + seq![hole] + y =~= x.push(hole));
        assert(x + y =~= x);
        lemma_non_empty_push(x, hole);
    } else {
        let init = y.drop_last();
        lemma_skip_empty(x, init);
        assert(x + seq![hole] + y =~= (x + seq![hole] + init).push(y.last()));
        assert(x + y =~= (x + init).push(y.last()));
        lemma_non_empty_push(x + seq![hole] + init, y.last());
        lemma_non_empty_push(x + init, y.last());
    }
}

/// Law: white space is tab, line feed, vertical tab, form feed, carriage return,
/// the space, the next-line character, and the spaces and separators that Unicode
/// has beside them. Letters, digits and marks are none.
pub proof fn law_characters_that_are_white_space(c: char)
    ensures
        white_space(c) <==> {
            let n = c as int;
            ||| n == 9 || n == 10 || n == 11 || n == 12 || n == 13
            ||| n == 32 || n == 133 || n == 160 || n == 5760
            ||| 8192 <= n <= 8202
            ||| n == 8232 || n == 8233 || n == 8239 || n == 8287 || n == 12288
        },
        33 <= c as int <= 126 ==> !white_space(c),
{
}

/// Where the key stands first, what remains from any later position holds at most
/// one occurrence more than what stands behind it.
proof fn lemma_occurrences_from(s: Seq<char>, key: Seq<char>, i: int)
    requires
        key.len() > 0,
        stands_at(s, 0, key),
        0 < i <= s.len(),
    ensures
        occurrences(s.skip(i), key) <= 1 + occurrences(s.skip(key.len() as int), key),
    decreases s.len(), 0int, s.len() - i,
{
    let t = s.skip(i);
    let behind = s.skip(key.len() as int);
    if t.len() > 0 {
        if stands_at(t, 0, key) {
            lemma_occurrences_never_grow(behind, key, i);
            assert(t.skip(key.len() as int) =~= behind.skip(i));
        } else {
            lemma_occurrences_from(s, key, i + 1);
            assert(t.skip(1) =~= s.skip(i + 1));
        }
    }
}

/// What remains of a text holds no more occurrences than the whole.
proof fn lemma_occurrences_never_grow(s: Seq<char>, key: Seq<char>, i: int)
    requires
        0 <= i <= s.len(),
    ensures
        occurrences(s.skip(i), key) <= occurrences(s, key),
    decreases s.len(), 1int, i,
{
    if key.len() == 0 || s.len() == 0 || i == 0 {
        assert(s.skip(0) =~= s);
    } else if stands_at(s, 0, key) {
        lemma_occurrences_from(s, key, i);
    } else {
        lemma_occurrences_never_grow(s.skip(1), key, i - 1);
        assert(s.skip(1).skip(i - 1) =~= s.skip(i));
    }
}

/// Law: a key occurs in a text at least as often as in any part of it.
pub proof fn law_occurrences_in_a_part(a: Seq<char>, s: Seq<char>, b: Seq<char>, key: Seq<char>)
    ensures
        occurrences(s, key) <= occurrences(a + s + b, key),
    decreases s.len(),
{
    let all = a + s + b;
    let rest = s + b;
    assert(all.skip(a.len() as int) =~= rest);
    lemma_occurrences_never_grow(all, key, a.len() as int);
    if key.len() > 0 && s.len() > 0 {
        let none = Seq::<char>::empty();
        if stands_at(s, 0, key) {
            let n = key.len() as int;
            assert(rest.subrange(0, n) =~= s.subrange(0, n));
            law_occurrences_in_a_part(none, s.skip(n), b, key);
            assert(none + s.skip(n) + b =~= rest.skip(n));
        } else {
            law_occurrences_in_a_part(none, s.skip(1), b, key);
            assert(none + s.skip(1) + b =~= rest.skip(1));
            lemma_occurrences_never_grow(rest, key, 1);
        }
    }
}

} // verus!
