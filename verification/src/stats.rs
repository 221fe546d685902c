//! Number formatting for the statistics report.
use crate::text::{decimal, decimal_chars, digit_char, slice_chars, string_from_chars};
use vstd::prelude::*;

verus! {

/// Digits grouped by three from the right, groups separated by a space.
pub open spec fn group_thousands(d: Seq<char>) -> Seq<char>
    decreases d.len(),
{
    if d.len() <= 3 {
        d
    } else {
        group_thousands(d.take(d.len() - 3)) + seq![' '] + d.skip(d.len() - 3)
    }
}

fn group_digits(d: &[char]) -> (r: Vec<char>)
    ensures
        r@ == group_thousands(d@),
    decreases d@.len(),
{
    let n = d.len();
    if n <= 3 {
        return slice_chars(d, 0, n);
    }
    let head = slice_chars(d, 0, n - 3);
    let mut r = group_digits(&head);
    r.push(' ');
    let mut k = n - 3;
    while k < n
        invariant
            n > 3,
            n - 3 <= k <= n,
            n == d@.len(),
            r@ == group_thousands(d@.take(n - 3)) + seq![' '] + d@.subrange(n - 3, k as int),
        decreases n - k,
    {
        let ghost k0 = k as int;
        r.push(d[k]);
        k = k + 1;
        assert(d@.subrange(n - 3, k as int) =~= d@.subrange(n - 3, k0).push(d@[k0]));
    }
    assert(d@.subrange(n - 3, n as int) =~= d@.skip(n - 3));
    r
}

/// `n` in decimal with its digits grouped by three (`1 000 000`).
pub fn format_number(n: u64) -> (r: String)
    ensures
        r@ == group_thousands(decimal(n as nat)),
{
    let d = decimal_chars(n);
    string_from_chars(&group_digits(&d))
}

} // verus!

verus! {

/// `s` without its spaces.
pub open spec fn strip_spaces(s: Seq<char>) -> Seq<char>
    decreases s.len(),
{
    if s.len() == 0 {
        Seq::empty()
    } else if s.last() == ' ' {
        strip_spaces(s.drop_last())
    } else {
        strip_spaces(s.drop_last()).push(s.last())
    }
}

proof fn lemma_strip_spaces_concat(a: Seq<char>, b: Seq<char>)
    ensures
        strip_spaces(a + b) == strip_spaces(a) + strip_spaces(b),
    decreases b.len(),
{
    if b.len() == 0 {
        assert(a + b =~= a);
        assert(strip_spaces(a) + strip_spaces(b) =~= strip_spaces(a));
    } else {
        lemma_strip_spaces_concat(a, b.drop_last());
        assert((a + b).drop_last() =~= a + b.drop_last());
        assert((a + b).last() == b.last());
        if b.last() != ' ' {
            assert(strip_spaces(a) + strip_spaces(b.drop_last()).push(b.last()) =~= (strip_spaces(a)
                + strip_spaces(b.drop_last())).push(b.last()));
        }
    }
}

proof fn lemma_strip_spaces_none(s: Seq<char>)
    requires
        forall|i: int| 0 <= i < s.len() ==> s[i] != ' ',
    ensures
        strip_spaces(s) == s,
    decreases s.len(),
{
    if s.len() > 0 {
        lemma_strip_spaces_none(s.drop_last());
        assert(s.drop_last().push(s.last()) =~= s);
    }
}

/// Grouping only inserts spaces: without them the digits are unchanged.
pub proof fn lemma_group_thousands_keeps_digits(d: Seq<char>)
    requires
        forall|i: int| 0 <= i < d.len() ==> d[i] != ' ',
    ensures
        strip_spaces(group_thousands(d)) == d,
    decreases d.len(),
{
    if d.len() <= 3 {
        lemma_strip_spaces_none(d);
    } else {
        let head = d.take(d.len() - 3);
        let tail = d.skip(d.len() - 3);
        lemma_group_thousands_keeps_digits(head);
        lemma_strip_spaces_concat(group_thousands(head) + seq![' '], tail);
        lemma_strip_spaces_concat(group_thousands(head), seq![' ']);
        assert(strip_spaces(seq![' ']) =~= Seq::<char>::empty()) by {
            assert(seq![' '].drop_last() =~= Seq::<char>::empty());
            assert(seq![' '].last() == ' ');
            assert(strip_spaces(Seq::<char>::empty()) =~= Seq::<char>::empty());
        }
        lemma_strip_spaces_none(tail);
        assert(head + Seq::<char>::empty() + tail =~= d);
    }
}

/// Decimal digits hold no space.
pub proof fn lemma_decimal_has_no_space(n: nat)
    ensures
        forall|i: int| 0 <= i < decimal(n).len() ==> #[trigger] decimal(n)[i] != ' ',
    decreases n,
{
    assert((digit_char(n % 10) as u32) == n % 10 + 48);
    if n >= 10 {
        lemma_decimal_has_no_space(n / 10);
        assert(decimal(n) == decimal(n / 10).push(digit_char(n % 10)));
    } else {
        assert(n % 10 == n);
    }
}

/// `format_number` only groups the decimal digits: without its spaces it is
/// the plain decimal notation.
pub proof fn lemma_format_number_digits(n: nat)
    ensures
        strip_spaces(group_thousands(decimal(n))) == decimal(n),
{
    lemma_decimal_has_no_space(n);
    lemma_group_thousands_keeps_digits(decimal(n));
}

} // verus!
