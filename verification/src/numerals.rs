//! Numbers written in decimal, and read back.
use vstd::prelude::*;

use crate::order::{lemma_text_rank_concat, number_rank, text_rank, Rank};
use crate::text::chars_of;

verus! {

/// The character of a digit.
pub open spec fn digit(d: int) -> char {
    (48 + d) as char
}

/// The decimal digits of `n`, the highest first and without leading zeros.
pub open spec fn digits(n: nat) -> Seq<char>
    decreases n,
{
    if n < 10 {
        seq![digit(n as int)]
    } else {
        digits(n / 10).push(digit((n % 10) as int))
    }
}

/// `n` zeros.
pub open spec fn zeros(n: nat) -> Seq<char> {
    Seq::new(n, |i: int| '0')
}

/// `n` in decimal, filled with leading zeros to at least `width` characters.
pub open spec fn padded(n: nat, width: nat) -> Seq<char> {
    if digits(n).len() < width {
        zeros((width - digits(n).len()) as nat) + digits(n)
    } else {
        digits(n)
    }
}

/// `n` in decimal, with a minus sign where it is negative.
pub open spec fn signed(n: int) -> Seq<char> {
    if n < 0 {
        seq!['-'] + digits((-n) as nat)
    } else {
        digits(n as nat)
    }
}

fn digit_char(d: u8) -> (r: char)
    requires
        d < 10,
    ensures
        r == digit(d as int),
{
    (48u8 + d) as char
}

/// The digits of `n`, the lowest first.
fn digits_reversed(n: u128) -> (r: Vec<char>)
    ensures
        r@.reverse() == digits(n as nat),
{
    let mut out: Vec<char> = Vec::new();
    let mut m: u128 = n;
    assert(digits(m as nat) + out@.reverse() =~= digits(n as nat));
    while m >= 10
        invariant
            digits(m as nat) + out@.reverse() == digits(n as nat),
        decreases m,
    {
        let ghost before = out@.reverse();
        let d: u8 = (m % 10) as u8;
        out.push(digit_char(d));
        assert(out@.reverse() =~= seq![digit((m % 10) as int)] + before);
        assert(digits((m / 10) as nat) + out@.reverse() =~= digits(m as nat) + before);
        m = m / 10;
    }
    let ghost before = out@.reverse();
    out.push(digit_char(m as u8));
    assert(out@.reverse() =~= seq![digit(m as int)] + before);
    out
}

/// Writes `n` in decimal, filled with leading zeros to at least `width`
/// characters.
pub fn pad_number(n: u128, width: usize) -> (r: String)
    ensures
        r@ == padded(n as nat, width as nat),
{
    let rev = digits_reversed(n);
    let len: usize = rev.len();
    let mut out = String::new();
    let ghost fill: int = if len < width { width - len } else { 0 };
    let mut i: usize = 0;
    while len < width && i < width - len
        invariant
            fill == if len < width { width - len } else { 0 },
            i <= fill,
            out@ == zeros(i as nat),
        decreases fill - i,
    {
        out.push('0');
        assert(out@ =~= zeros((i + 1) as nat));
        i += 1;
    }
    let ghost front = out@;
    assert(front =~= zeros(fill as nat));
    let mut left: usize = len;
    assert(out@ =~= front + rev@.reverse().take(0));
    while left > 0
        invariant
            left <= len == rev@.len(),
            out@ == front + rev@.reverse().take(len - left),
        decreases left,
    {
        left -= 1;
        out.push(rev[left]);
        assert(out@ =~= front + rev@.reverse().take(len - left));
    }
    assert(rev@.reverse().take(len as int) =~= rev@.reverse());
    assert(zeros(0) + digits(n as nat) =~= digits(n as nat));
    out
}

/// Writes `n` in decimal.
pub fn number(n: u128) -> (r: String)
    ensures
        r@ == digits(n as nat),
{
    pad_number(n, 0)
}

/// Writes `n` in decimal, with a minus sign where it is negative.
pub fn signed_number(n: i64) -> (r: String)
    ensures
        r@ == signed(n as int),
{
    if n < 0 {
        let mut out = String::new();
        out.push('-');
        let m: i128 = -(n as i128);
        let tail = number(m as u128);
        out.append(tail.as_str());
        assert(out@ =~= seq!['-'] + digits((-(n as int)) as nat));
        out
    } else {
        number(n as u128)
    }
}

/// Whether `c` is one of the ten digits.
pub open spec fn is_digit(c: char) -> bool {
    '0' <= c <= '9'
}

/// The number that a run of digits stands for.
pub open spec fn digits_value(s: Seq<char>) -> nat
    decreases s.len(),
{
    if s.len() == 0 {
        0
    } else {
        (10 * digits_value(s.drop_last()) + (s.last() as int - 48)) as nat
    }
}

/// A text without the one plus sign that may lead a number.
pub open spec fn without_plus(s: Seq<char>) -> Seq<char> {
    if s.len() > 0 && s[0] == '+' {
        s.drop_first()
    } else {
        s
    }
}

/// The number that a text stands for: digits, at least one, with at most one
/// plus sign before them.
pub open spec fn number_in(s: Seq<char>) -> Option<nat> {
    let body = without_plus(s);
    if body.len() > 0 && (forall|i: int| 0 <= i < body.len() ==> is_digit(#[trigger] body[i])) {
        Some(digits_value(body))
    } else {
        None
    }
}

/// The number that a text stands for, where it is at most `usize::MAX`.
pub open spec fn usize_in(s: Seq<char>) -> Option<usize> {
    match number_in(s) {
        Some(n) => if n <= usize::MAX {
            Some(n as usize)
        } else {
            None
        },
        None => None,
    }
}

/// More digits never make the number smaller.
proof fn lemma_value_grows(s: Seq<char>, k: int)
    requires
        0 <= k <= s.len(),
        forall|i: int| 0 <= i < s.len() ==> is_digit(#[trigger] s[i]),
    ensures
        digits_value(s.take(k)) <= digits_value(s),
    decreases s.len() - k,
{
    if k == s.len() {
        assert(s.take(k) =~= s);
    } else {
        lemma_value_grows(s, k + 1);
        assert(s.take(k + 1).drop_last() =~= s.take(k));
        assert(is_digit(s[k]));
    }
}

/// Reads a number, as far as it is at most `usize::MAX`.
pub fn parse_usize(s: &str) -> (r: Option<usize>)
    ensures
        r == usize_in(s@),
{
    let v = chars_of(s);
    let from: usize = if v.len() > 0 && v[0] == '+' {
        1
    } else {
        0
    };
    let ghost body = without_plus(s@);
    assert(body =~= v@.skip(from as int));
    if from == v.len() {
        return None;
    }
    let mut n: usize = 0;
    let mut i: usize = from;
    assert(body.take(0) =~= Seq::<char>::empty());
    while i < v.len()
        invariant
            from <= i <= v@.len(),
            from < v@.len(),
            body == v@.skip(from as int),
            body == without_plus(s@),
            n == digits_value(body.take(i - from)),
            forall|j: int| 0 <= j < i - from ==> is_digit(#[trigger] body[j]),
        decreases v@.len() - i,
    {
        let c = v[i];
        assert(c == body[i - from]);
        if !('0' <= c && c <= '9') {
            return None;
        }
        let d: usize = (c as u32 - 48) as usize;
        proof {
            assert(body.take(i + 1 - from).drop_last() =~= body.take(i - from));
            assert(digits_value(body.take(i + 1 - from)) == 10 * n + d);
            if number_in(s@) is Some {
                lemma_value_grows(body, i + 1 - from);
            }
        }
        let tens = match n.checked_mul(10) {
            Some(t) => t,
            None => return None,
        };
        n = match tens.checked_add(d) {
            Some(t) => t,
            None => return None,
        };
        i += 1;
    }
    assert(body.take(i - from) =~= body);
    Some(n)
}

/// Digits are digits, and stand for the number they were written for.
pub proof fn lemma_digits_value(n: nat)
    ensures
        digits(n).len() > 0,
        forall|i: int| 0 <= i < digits(n).len() ==> is_digit(#[trigger] digits(n)[i]),
        digits_value(digits(n)) == n,
    decreases n,
{
    if n >= 10 {
        lemma_digits_value(n / 10);
        assert(digits(n).drop_last() =~= digits(n / 10));
    } else {
        assert(digits(n).drop_last() =~= Seq::<char>::empty());
        assert(digits_value(Seq::<char>::empty()) == 0);
    }
}

/// Law: a number that was written in decimal is read back as itself.
pub proof fn law_number_read_back(n: usize)
    ensures
        usize_in(digits(n as nat)) == Some(n),
{
    lemma_digits_value(n as nat);
    assert(is_digit(digits(n as nat)[0]));
    assert(without_plus(digits(n as nat)) == digits(n as nat));
}

/// Ten to the power `n`.
pub open spec fn ten_to(n: nat) -> nat
    decreases n,
{
    if n == 0 {
        1
    } else {
        10 * ten_to((n - 1) as nat)
    }
}

/// A number below `10^w` has at most `w` digits, for `w` above zero.
proof fn lemma_digits_len(n: nat, w: nat)
    requires
        n < ten_to(w),
        w > 0,
    ensures
        digits(n).len() <= w,
    decreases w,
{
    if n >= 10 {
        if w == 1 {
            assert(ten_to(1) == 10 * ten_to(0));
        } else {
            lemma_digits_len(n / 10, (w - 1) as nat);
        }
    }
}

/// Leading zeros do not change what a run of digits stands for.
proof fn lemma_zeros_value(k: nat, s: Seq<char>)
    ensures
        digits_value(zeros(k) + s) == digits_value(s),
    decreases k + s.len(),
{
    if s.len() > 0 {
        lemma_zeros_value(k, s.drop_last());
        assert((zeros(k) + s).drop_last() =~= zeros(k) + s.drop_last());
    } else if k > 0 {
        lemma_zeros_value((k - 1) as nat, s);
        assert((zeros(k) + s).drop_last() =~= zeros((k - 1) as nat) + s);
    } else {
        assert(zeros(0) + s =~= s);
    }
}

/// A padded number that fits its width has exactly that width, consists of
/// digits and stands for the number.
pub proof fn lemma_padded(n: nat, w: nat)
    requires
        n < ten_to(w),
        w > 0,
    ensures
        padded(n, w).len() == w,
        forall|i: int| 0 <= i < w ==> is_digit(#[trigger] padded(n, w)[i]),
        digits_value(padded(n, w)) == n,
{
    lemma_digits_len(n, w);
    lemma_digits_value(n);
    let k = (w - digits(n).len()) as nat;
    lemma_zeros_value(k, digits(n));
    assert(padded(n, w) =~= zeros(k) + digits(n));
    assert forall|i: int| 0 <= i < w implies is_digit(#[trigger] padded(n, w)[i]) by {
        if i >= k {
            assert(padded(n, w)[i] == digits(n)[i - k]);
        }
    }
}

/// Runs of digits of one length are ordered as the numbers they stand for.
proof fn lemma_digit_order(a: Seq<char>, b: Seq<char>)
    requires
        a.len() == b.len(),
        forall|i: int| 0 <= i < a.len() ==> is_digit(#[trigger] a[i]),
        forall|i: int| 0 <= i < b.len() ==> is_digit(#[trigger] b[i]),
    ensures
        text_rank(a, b) == number_rank(digits_value(a) as int, digits_value(b) as int),
    decreases a.len(),
{
    if a.len() > 0 {
        let x = a.drop_last();
        let y = b.drop_last();
        lemma_digit_order(x, y);
        assert(a =~= x + seq![a.last()]);
        assert(b =~= y + seq![b.last()]);
        lemma_text_rank_concat(x, seq![a.last()], y, seq![b.last()]);
        assert(is_digit(a[a.len() - 1]) && is_digit(b[b.len() - 1]));
        assert(seq![a.last()].drop_first() =~= Seq::<char>::empty());
        assert(seq![b.last()].drop_first() =~= Seq::<char>::empty());
        assert(text_rank(Seq::<char>::empty(), Seq::<char>::empty()) == Rank::Same);
    }
}

/// Law: numbers padded to one width that holds them are ordered as numbers.
pub proof fn law_padded_order(a: nat, b: nat, w: nat)
    requires
        a < ten_to(w),
        b < ten_to(w),
        w > 0,
    ensures
        text_rank(padded(a, w), padded(b, w)) == number_rank(a as int, b as int),
{
    lemma_padded(a, w);
    lemma_padded(b, w);
    lemma_digit_order(padded(a, w), padded(b, w));
}

/// Law: a number is written with its digits, the highest first: one digit more
/// makes ten times the number and the digit.
pub proof fn law_digits_in_their_places(q: nat, d: nat)
    requires
        d < 10,
    ensures
        digits(d) == seq![(48 + d) as char],
        q > 0 ==> digits(10 * q + d) == digits(q).push((48 + d) as char),
{
    if q > 0 {
        assert((10 * q + d) / 10 == q);
        assert((10 * q + d) % 10 == d);
    }
}

/// Law: a padded number is the number with zeros before it, just enough to reach
/// the width.
pub proof fn law_padding_is_zeros(n: nat, width: nat)
    ensures
        ({
            let fill = padded(n, width).len() - digits(n).len();
            &&& fill >= 0
            &&& padded(n, width).len() >= width
            &&& fill > 0 ==> padded(n, width).len() == width
            &&& padded(n, width).skip(fill) == digits(n)
            &&& forall|i: int| 0 <= i < fill ==> #[trigger] padded(n, width)[i] == '0'
        }),
{
    let fill = padded(n, width).len() - digits(n).len();
    assert(padded(n, width).skip(fill) =~= digits(n));
}

/// Law: a negative number is a minus sign and its size.
pub proof fn law_signed_numbers(n: nat)
    ensures
        signed(n as int) == digits(n),
        n > 0 ==> signed(-(n as int)) == seq!['-'] + digits(n),
{
}

/// Law: a text that holds anything but digits, apart from one leading plus sign,
/// is no number, and neither is one without digits.
pub proof fn law_other_texts_are_no_numbers(s: Seq<char>, i: int)
    ensures
        s.len() == 0 ==> usize_in(s) is None,
        s == seq!['+'] ==> usize_in(s) is None,
        0 <= i < s.len() && !('0' <= s[i] <= '9') && (i > 0 || s[i] != '+') ==> usize_in(s) is None,
{
    let body = without_plus(s);
    if 0 <= i < s.len() && !('0' <= s[i] <= '9') && (i > 0 || s[i] != '+') {
        if s[0] == '+' {
            assert(body[i - 1] == s[i]);
            assert(!is_digit(body[i - 1]));
        } else {
            assert(!is_digit(body[i]));
        }
    }
}

/// Law: one digit more at the end makes ten times the number and the digit, as
/// far as it fits, whether or not a plus sign leads.
pub proof fn law_numbers_are_read_digit_by_digit(s: Seq<char>, d: nat)
    requires
        d < 10,
    ensures
        usize_in(seq![(48 + d) as char]) == Some(d as usize),
        usize_in(s) matches Some(n) ==> usize_in(s.push((48 + d) as char)) == if 10 * n + d
            <= usize::MAX {
            Some((10 * n + d) as usize)
        } else {
            None
        },
        (s.len() > 0 && s[0] != '+') ==> usize_in(seq!['+'] + s) == usize_in(s),
{
    let c = (48 + d) as char;
    let one = seq![c];
    assert(one.drop_last() =~= Seq::<char>::empty());
    assert(digits_value(Seq::<char>::empty()) == 0);
    assert(without_plus(one) == one);
    assert(is_digit(c));
    assert(forall|i: int| 0 <= i < one.len() ==> is_digit(#[trigger] one[i]));
    if usize_in(s) is Some {
        let body = without_plus(s);
        let more = s.push(c);
        assert(without_plus(more) =~= body.push(c));
        assert(body.push(c).drop_last() =~= body);
        assert forall|i: int| 0 <= i < body.push(c).len() implies is_digit(
            #[trigger] body.push(c)[i],
        ) by {
            if i < body.len() {
                assert(is_digit(body[i]));
            }
        }
    }
    assert((seq!['+'] + s).drop_first() =~= s);
}

} // verus!
