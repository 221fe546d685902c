//! Character-level helpers shared by the parser and the configuration code.
//!
//! Text is handled as sequences of `char`s: a `&str` is turned into a
//! `Vec<char>` once, and all scanning, trimming and comparing is done on that.
use vstd::prelude::*;

verus! {

/// The characters of `s`, in order.
pub fn chars_of(s: &str) -> (v: Vec<char>)
    ensures
        v@ == s@,
{
    let mut v: Vec<char> = Vec::new();
    for c in it: s.chars()
        invariant
            v@ == it.seq().take(it.index() as int),
    {
        v.push(c);
    }
    v
}

/// Collects characters into a `String` (std's `FromIterator<&char> for String`).
/// Claimed: the string holds exactly the given characters, in order.
#[verifier::external_body]
pub fn string_from_chars(v: &[char]) -> (s: String)
    ensures
        s@ == v@,
{
    v.iter().collect()
}

/// Rust's `char::is_whitespace`: the Unicode `White_Space` property.
pub open spec fn is_ws(c: char) -> bool {
    let u = c as u32;
    ||| 0x09 <= u <= 0x0D
    ||| u == 0x20
    ||| u == 0x85
    ||| u == 0xA0
    ||| u == 0x1680
    ||| 0x2000 <= u <= 0x200A
    ||| u == 0x2028
    ||| u == 0x2029
    ||| u == 0x202F
    ||| u == 0x205F
    ||| u == 0x3000
}

pub fn is_whitespace(c: char) -> (r: bool)
    ensures
        r == is_ws(c),
{
    let u = c as u32;
    (0x09 <= u && u <= 0x0D) || u == 0x20 || u == 0x85 || u == 0xA0 || u == 0x1680 || (0x2000
        <= u && u <= 0x200A) || u == 0x2028 || u == 0x2029 || u == 0x202F || u == 0x205F || u
        == 0x3000
}

/// Index of the first character at or after `i` that is not whitespace
/// (`s.len()` when there is none).
pub open spec fn skip_ws_from(s: Seq<char>, i: int) -> int
    decreases s.len() - i,
{
    if 0 <= i < s.len() && is_ws(s[i]) {
        skip_ws_from(s, i + 1)
    } else {
        i
    }
}

/// End of `s.take(j)` once its trailing whitespace is removed.
pub open spec fn strip_ws_back(s: Seq<char>, j: int) -> int
    decreases j,
{
    if 0 < j <= s.len() && is_ws(s[j - 1]) {
        strip_ws_back(s, j - 1)
    } else {
        j
    }
}

/// `str::trim`: `s` without leading and trailing whitespace.
pub open spec fn trim(s: Seq<char>) -> Seq<char> {
    let a = skip_ws_from(s, 0);
    let b = strip_ws_back(s, s.len() as int);
    if a < b {
        s.subrange(a, b)
    } else {
        Seq::empty()
    }
}

pub proof fn lemma_skip_ws_from_bounds(s: Seq<char>, i: int)
    requires
        0 <= i <= s.len(),
    ensures
        i <= skip_ws_from(s, i) <= s.len(),
        skip_ws_from(s, i) < s.len() ==> !is_ws(s[skip_ws_from(s, i)]),
        forall|k: int| i <= k < skip_ws_from(s, i) ==> is_ws(#[trigger] s[k]),
    decreases s.len() - i,
{
    if i < s.len() && is_ws(s[i]) {
        lemma_skip_ws_from_bounds(s, i + 1);
    }
}

pub proof fn lemma_strip_ws_back_bounds(s: Seq<char>, j: int)
    requires
        0 <= j <= s.len(),
    ensures
        0 <= strip_ws_back(s, j) <= j,
        strip_ws_back(s, j) > 0 ==> !is_ws(s[strip_ws_back(s, j) - 1]),
        forall|k: int| strip_ws_back(s, j) <= k < j ==> is_ws(#[trigger] s[k]),
    decreases j,
{
    if 0 < j && is_ws(s[j - 1]) {
        lemma_strip_ws_back_bounds(s, j - 1);
    }
}

/// The trimmed text is empty exactly when every character is whitespace.
pub proof fn lemma_trim_empty(s: Seq<char>)
    ensures
        trim(s).len() == 0 <==> forall|k: int| 0 <= k < s.len() ==> is_ws(#[trigger] s[k]),
{
    lemma_skip_ws_from_bounds(s, 0);
    lemma_strip_ws_back_bounds(s, s.len() as int);
    let a = skip_ws_from(s, 0);
    if a < s.len() {
        assert(!is_ws(s[a]));
    }
}

/// `str::trim` on a character sequence.
pub fn trim_chars(s: &[char]) -> (r: Vec<char>)
    ensures
        r@ == trim(s@),
{
    let n = s.len();
    let mut a: usize = 0;
    while a < n && is_whitespace(s[a])
        invariant
            0 <= a <= n,
            n == s@.len(),
            skip_ws_from(s@, a as int) == skip_ws_from(s@, 0),
        decreases n - a,
    {
        a = a + 1;
    }
    let mut b: usize = n;
    while b > 0 && is_whitespace(s[b - 1])
        invariant
            0 <= b <= n,
            n == s@.len(),
            strip_ws_back(s@, b as int) == strip_ws_back(s@, n as int),
        decreases b,
    {
        b = b - 1;
    }
    let mut r: Vec<char> = Vec::new();
    if a < b {
        let mut k = a;
        while k < b
            invariant
                a <= k <= b <= n,
                n == s@.len(),
                r@ == s@.subrange(a as int, k as int),
            decreases b - k,
        {
            r.push(s[k]);
            k = k + 1;
        }
    }
    r
}

/// True when every character is whitespace (`str::trim(..).is_empty()`).
pub fn is_blank(s: &[char]) -> (r: bool)
    ensures
        r == (trim(s@).len() == 0),
{
    proof {
        lemma_trim_empty(s@);
    }
    let n = s.len();
    let mut k: usize = 0;
    while k < n
        invariant
            0 <= k <= n,
            n == s@.len(),
            forall|j: int| 0 <= j < k ==> is_ws(#[trigger] s@[j]),
        decreases n - k,
    {
        if !is_whitespace(s[k]) {
            proof {
                lemma_trim_empty(s@);
                assert(!is_ws(s@[k as int]));
            }
            return false;
        }
        k = k + 1;
    }
    true
}

/// `char::to_ascii_lowercase`.
pub open spec fn ascii_lower(c: char) -> char {
    if 'A' <= c <= 'Z' {
        ((c as u32) + 32) as char
    } else {
        c
    }
}

/// `str::to_ascii_lowercase` on a character sequence.
pub open spec fn ascii_lowercase(s: Seq<char>) -> Seq<char> {
    s.map_values(|c: char| ascii_lower(c))
}

pub fn ascii_lowercase_chars(s: &[char]) -> (r: Vec<char>)
    ensures
        r@ == ascii_lowercase(s@),
{
    let n = s.len();
    let mut r: Vec<char> = Vec::new();
    let mut k: usize = 0;
    while k < n
        invariant
            0 <= k <= n,
            n == s@.len(),
            r@ == ascii_lowercase(s@.take(k as int)),
        decreases n - k,
    {
        let c = s[k];
        let l = if 'A' <= c && c <= 'Z' {
            ((c as u8) + 32) as char
        } else {
            c
        };
        r.push(l);
        assert(s@.take(k + 1) == s@.take(k as int).push(c));
        k = k + 1;
    }
    assert(s@.take(n as int) == s@);
    r
}

/// True when `s` begins with the characters of `lit`.
pub fn starts_with_str(s: &[char], lit: &str) -> (r: bool)
    ensures
        r == (lit@.len() <= s@.len() && s@.subrange(0, lit@.len() as int) == lit@),
{
    let l = chars_of(lit);
    starts_with_chars(s, &l)
}

/// True when `s` begins with the characters of `p`.
pub fn starts_with_chars(s: &[char], p: &[char]) -> (r: bool)
    ensures
        r == (p@.len() <= s@.len() && s@.subrange(0, p@.len() as int) == p@),
{
    let n = s.len();
    let m = p.len();
    if m > n {
        return false;
    }
    let mut k: usize = 0;
    while k < m
        invariant
            m <= n,
            n == s@.len(),
            m == p@.len(),
            0 <= k <= m,
            forall|j: int| 0 <= j < k ==> s@[j] == p@[j],
        decreases m - k,
    {
        if s[k] != p[k] {
            assert(s@.subrange(0, m as int)[k as int] != p@[k as int]);
            return false;
        }
        k = k + 1;
    }
    assert(s@.subrange(0, m as int) =~= p@);
    true
}

/// True when `s` and `lit` hold the same characters.
pub fn equals_str(s: &[char], lit: &str) -> (r: bool)
    ensures
        r == (s@ == lit@),
{
    let l = chars_of(lit);
    if s.len() == l.len() && starts_with_chars(s, &l) {
        assert(s@ =~= s@.subrange(0, lit@.len() as int));
        true
    } else {
        proof {
            if s@ == lit@ {
                assert(s@.subrange(0, lit@.len() as int) =~= s@);
            }
        }
        false
    }
}

} // verus!

verus! {

/// `s[from..to]` as a new vector.
pub fn slice_chars(s: &[char], from: usize, to: usize) -> (r: Vec<char>)
    requires
        from <= to <= s@.len(),
    ensures
        r@ == s@.subrange(from as int, to as int),
{
    let mut r: Vec<char> = Vec::new();
    let mut k = from;
    while k < to
        invariant
            from <= k <= to <= s@.len(),
            r@ == s@.subrange(from as int, k as int),
        decreases to - k,
    {
        r.push(s[k]);
        k = k + 1;
    }
    r
}

} // verus!

verus! {

/// End of `s.take(j)` once trailing `'\r'` and `'\n'` characters are removed.
pub open spec fn strip_breaks_back(s: Seq<char>, j: int) -> int
    decreases j,
{
    if 0 < j <= s.len() && (s[j - 1] == '\r' || s[j - 1] == '\n') {
        strip_breaks_back(s, j - 1)
    } else {
        j
    }
}

/// `s.trim_end_matches(&['\r', '\n'][..])`.
pub open spec fn strip_line_break(s: Seq<char>) -> Seq<char> {
    s.take(strip_breaks_back(s, s.len() as int))
}

/// `s` without its trailing line-break characters.
pub fn strip_line_break_chars(s: &[char]) -> (r: Vec<char>)
    ensures
        r@ == strip_line_break(s@),
{
    let n = s.len();
    let mut b = n;
    while b > 0 && (s[b - 1] == '\r' || s[b - 1] == '\n')
        invariant
            0 <= b <= n,
            n == s@.len(),
            strip_breaks_back(s@, b as int) == strip_breaks_back(s@, n as int),
        decreases b,
    {
        b = b - 1;
    }
    slice_chars(s, 0, b)
}

/// Index of the first `c` at or after `i` (`s.len()` when there is none).
pub open spec fn find_from(s: Seq<char>, c: char, i: int) -> int
    decreases s.len() - i,
{
    if i < 0 || i >= s.len() {
        s.len() as int
    } else if s[i] == c {
        i
    } else {
        find_from(s, c, i + 1)
    }
}

pub proof fn lemma_find_from_bounds(s: Seq<char>, c: char, i: int)
    requires
        0 <= i <= s.len(),
    ensures
        i <= find_from(s, c, i) <= s.len(),
        find_from(s, c, i) < s.len() ==> s[find_from(s, c, i)] == c,
        forall|k: int| i <= k < find_from(s, c, i) ==> #[trigger] s[k] != c,
    decreases s.len() - i,
{
    if i < s.len() && s[i] != c {
        lemma_find_from_bounds(s, c, i + 1);
    }
}

/// Index of the first `c` in `s` (`s.len()` when there is none).
pub fn find_char(s: &[char], c: char) -> (r: usize)
    ensures
        r == find_from(s@, c, 0),
{
    let n = s.len();
    let mut i: usize = 0;
    while i < n && s[i] != c
        invariant
            0 <= i <= n,
            n == s@.len(),
            find_from(s@, c, i as int) == find_from(s@, c, 0),
        decreases n - i,
    {
        i = i + 1;
    }
    i
}

/// The decimal digit for `d < 10`.
pub open spec fn digit_char(d: nat) -> char {
    ((d + 48) as u32) as char
}

/// Decimal notation of `n`, without sign or leading zeros.
pub open spec fn decimal(n: nat) -> Seq<char>
    decreases n,
{
    if n < 10 {
        seq![digit_char(n)]
    } else {
        decimal(n / 10).push(digit_char(n % 10))
    }
}

/// The decimal digits of `n` (`u64::to_string`).
pub fn decimal_chars(n: u64) -> (r: Vec<char>)
    ensures
        r@ == decimal(n as nat),
    decreases n,
{
    if n < 10 {
        let d = ((n as u8) + 48) as char;
        let mut r: Vec<char> = Vec::new();
        r.push(d);
        assert(r@ =~= seq![digit_char(n as nat)]);
        r
    } else {
        let mut r = decimal_chars(n / 10);
        let d = (((n % 10) as u8) + 48) as char;
        r.push(d);
        r
    }
}

} // verus!

verus! {

/// The view of an optional text.
pub open spec fn opt_text(o: Option<String>) -> Option<Seq<char>> {
    match o {
        Some(s) => Some(s@),
        None => None,
    }
}

/// The views of a sequence of texts.
pub open spec fn texts(v: Seq<String>) -> Seq<Seq<char>> {
    v.map_values(|s: String| s@)
}

/// A copy of an optional text.
pub fn copy_opt_text(o: &Option<String>) -> (r: Option<String>)
    ensures
        opt_text(r) == opt_text(*o),
{
    match o {
        Some(s) => Some(s.clone()),
        None => None,
    }
}

/// A copy of a list of texts.
pub fn copy_texts(v: &Vec<String>) -> (r: Vec<String>)
    ensures
        texts(r@) == texts(v@),
{
    let n = v.len();
    let mut r: Vec<String> = Vec::new();
    let mut k: usize = 0;
    while k < n
        invariant
            0 <= k <= n,
            n == v@.len(),
            r@.len() == k,
            forall|j: int| 0 <= j < k ==> #[trigger] r@[j]@ == v@[j]@,
        decreases n - k,
    {
        let s = v[k].clone();
        r.push(s);
        k = k + 1;
    }
    assert(texts(r@) =~= texts(v@));
    r
}

} // verus!

verus! {

proof fn lemma_skip_ws_lower(s: Seq<char>, i: int)
    ensures
        skip_ws_from(ascii_lowercase(s), i) == skip_ws_from(s, i),
    decreases s.len() - i,
{
    if 0 <= i < s.len() {
        assert(ascii_lowercase(s)[i] == ascii_lower(s[i]));
        lemma_skip_ws_lower(s, i + 1);
    }
}

proof fn lemma_strip_ws_lower(s: Seq<char>, j: int)
    ensures
        strip_ws_back(ascii_lowercase(s), j) == strip_ws_back(s, j),
    decreases j,
{
    if 0 < j <= s.len() {
        assert(ascii_lowercase(s)[j - 1] == ascii_lower(s[j - 1]));
        lemma_strip_ws_lower(s, j - 1);
    }
}

/// Trimming and ASCII lowercasing commute, and lowercasing twice is
/// lowercasing once.
pub proof fn lemma_trim_ascii_lowercase(s: Seq<char>)
    ensures
        trim(ascii_lowercase(s)) == ascii_lowercase(trim(s)),
        ascii_lowercase(ascii_lowercase(s)) == ascii_lowercase(s),
{
    let l = ascii_lowercase(s);
    assert(l.len() == s.len());
    lemma_skip_ws_lower(s, 0);
    lemma_strip_ws_lower(s, s.len() as int);
    lemma_skip_ws_from_bounds(s, 0);
    lemma_strip_ws_back_bounds(s, s.len() as int);
    let a = skip_ws_from(s, 0);
    let b = strip_ws_back(s, s.len() as int);
    if a < b {
        assert(trim(l) == l.subrange(a, b));
        assert(trim(s) == s.subrange(a, b));
        assert(l.subrange(a, b) =~= ascii_lowercase(s.subrange(a, b)));
    } else {
        assert(ascii_lowercase(trim(s)) =~= Seq::<char>::empty());
    }
    assert(ascii_lowercase(ascii_lowercase(s)) =~= ascii_lowercase(s));
}

} // verus!
