//! Character-level helpers shared by the request parser, the router and the
//! response encoder: white space, searching, trimming, decimal numbers and
//! ASCII case folding, each with the mathematical definition it follows.
use vstd::prelude::*;

verus! {

// ---------------------------------------------------------------------------
// Definitions
// ---------------------------------------------------------------------------

/// The Unicode `White_Space` property, the set that `char::is_whitespace`,
/// `str::split_whitespace` and `str::trim` work with.
pub open spec fn is_white_space(c: char) -> bool {
    ||| ('\u{9}' <= c && c <= '\u{d}')
    ||| c == ' '
    ||| c == '\u{85}'
    ||| c == '\u{a0}'
    ||| c == '\u{1680}'
    ||| ('\u{2000}' <= c && c <= '\u{200a}')
    ||| c == '\u{2028}'
    ||| c == '\u{2029}'
    ||| c == '\u{202f}'
    ||| c == '\u{205f}'
    ||| c == '\u{3000}'
}

/// The first index at or after `i` whose character is not white space
/// (the length of `s` if there is none).
pub open spec fn skip_white_space(s: Seq<char>, i: int) -> int
    decreases s.len() - i,
{
    if 0 <= i < s.len() && is_white_space(s[i]) {
        skip_white_space(s, i + 1)
    } else {
        i
    }
}

/// The first index at or after `i` whose character is white space
/// (the length of `s` if there is none): the end of a token starting at `i`.
pub open spec fn token_end(s: Seq<char>, i: int) -> int
    decreases s.len() - i,
{
    if 0 <= i < s.len() && !is_white_space(s[i]) {
        token_end(s, i + 1)
    } else {
        i
    }
}

/// The end of `s[..end]` once trailing white space is removed.
pub open spec fn trim_end(s: Seq<char>, end: int) -> int
    decreases end,
{
    if 0 < end <= s.len() && is_white_space(s[end - 1]) {
        trim_end(s, end - 1)
    } else {
        end
    }
}

/// `s` without leading and trailing white space (what `str::trim` gives).
pub open spec fn trim(s: Seq<char>) -> Seq<char> {
    let start = skip_white_space(s, 0);
    let end = trim_end(s, s.len() as int);
    if start < end {
        s.subrange(start, end)
    } else {
        Seq::empty()
    }
}

/// The first index at or after `i` at which `s` holds `c`, if any.
pub open spec fn find_char(s: Seq<char>, c: char, i: int) -> Option<int>
    decreases s.len() - i,
{
    if 0 <= i < s.len() {
        if s[i] == c {
            Some(i)
        } else {
            find_char(s, c, i + 1)
        }
    } else {
        None
    }
}

/// The first index at or after `i` at which `s` holds `a` directly followed
/// by `b`, if any.
pub open spec fn find_pair(s: Seq<char>, a: char, b: char, i: int) -> Option<int>
    decreases s.len() - i,
{
    if 0 <= i && i + 1 < s.len() {
        if s[i] == a && s[i + 1] == b {
            Some(i)
        } else {
            find_pair(s, a, b, i + 1)
        }
    } else {
        None
    }
}

/// `s` cut at the first `c`: the text before it and the text after it
/// (what `str::split_once` gives for a one-character separator).
pub open spec fn split_once(s: Seq<char>, c: char) -> Option<(Seq<char>, Seq<char>)> {
    match find_char(s, c, 0) {
        Some(i) => Some((s.subrange(0, i), s.subrange(i + 1, s.len() as int))),
        None => None,
    }
}

/// The ten decimal digits, in order.
pub open spec fn digit_chars() -> Seq<char> {
    seq!['0', '1', '2', '3', '4', '5', '6', '7', '8', '9']
}

/// The decimal representation of `n`, without sign or leading zeros
/// (what `Display` writes for an unsigned integer).
pub open spec fn decimal_text(n: nat) -> Seq<char>
    decreases n,
{
    if n < 10 {
        seq![digit_chars()[n as int]]
    } else {
        decimal_text(n / 10).push(digit_chars()[(n % 10) as int])
    }
}

pub open spec fn is_ascii_digit(c: char) -> bool {
    '0' <= c && c <= '9'
}

pub open spec fn digit_value(c: char) -> nat {
    (c as u32 - '0' as u32) as nat
}

/// The number that a string of ASCII digits denotes.
pub open spec fn decimal_value(s: Seq<char>) -> nat
    decreases s.len(),
{
    if s.len() == 0 {
        0
    } else {
        decimal_value(s.drop_last()) * 10 + digit_value(s.last())
    }
}

pub open spec fn all_ascii_digits(s: Seq<char>) -> bool {
    forall|i: int| 0 <= i < s.len() ==> is_ascii_digit(#[trigger] s[i])
}

/// `s` without one leading `+`, if it has one.
pub open spec fn unsigned_digits(s: Seq<char>) -> Seq<char> {
    if s.len() > 0 && s[0] == '+' {
        s.drop_first()
    } else {
        s
    }
}

/// What `str::parse::<usize>` accepts and gives back: an optional `+`, then
/// one or more ASCII digits whose value fits in a `usize`.
pub open spec fn parse_usize(s: Seq<char>) -> Option<usize> {
    let digits = unsigned_digits(s);
    if digits.len() > 0 && all_ascii_digits(digits) && decimal_value(digits) <= usize::MAX {
        Some(decimal_value(digits) as usize)
    } else {
        None
    }
}

/// A character's code with ASCII upper case letters folded to lower case.
pub open spec fn ascii_fold(c: char) -> u32 {
    if 'A' <= c && c <= 'Z' {
        (c as u32 + 32) as u32
    } else {
        c as u32
    }
}

/// Equality up to ASCII case, character by character. For a `b` made of
/// ASCII characters this is what `str::eq_ignore_ascii_case` decides.
pub open spec fn eq_ignore_ascii_case(a: Seq<char>, b: Seq<char>) -> bool {
    &&& a.len() == b.len()
    &&& forall|i: int| 0 <= i < a.len() ==> ascii_fold(#[trigger] a[i]) == ascii_fold(b[i])
}

// ---------------------------------------------------------------------------
// Executable helpers
// ---------------------------------------------------------------------------

/// Copies the characters of `s` into a vector.
pub fn char_vec(s: &str) -> (v: Vec<char>)
    ensures
        v@ == s@,
{
    let mut v: Vec<char> = Vec::new();
    for c in it: s.chars()
        invariant
            v@ == it.seq().take(it.index() as int),
            it.seq() == s@,
    {
        v.push(c);
    }
    v
}

/// The characters `from..to` of `s`, as an owned string.
pub fn substring(s: &str, from: usize, to: usize) -> (r: String)
    requires
        from <= to <= s@.len(),
    ensures
        r@ == s@.subrange(from as int, to as int),
{
    s.substring_char(from, to).to_owned()
}

pub fn is_white_space_char(c: char) -> (b: bool)
    ensures
        b == is_white_space(c),
{
    ('\u{9}' <= c && c <= '\u{d}') || c == ' ' || c == '\u{85}' || c == '\u{a0}' || c == '\u{1680}'
        || ('\u{2000}' <= c && c <= '\u{200a}') || c == '\u{2028}' || c == '\u{2029}' || c
        == '\u{202f}' || c == '\u{205f}' || c == '\u{3000}'
}

pub fn skip_white_space_from(v: &Vec<char>, i: usize) -> (r: usize)
    requires
        i <= v@.len(),
    ensures
        r == skip_white_space(v@, i as int),
        i <= r <= v@.len(),
{
    let mut j = i;
    while j < v.len() && is_white_space_char(v[j])
        invariant
            i <= j <= v@.len(),
            skip_white_space(v@, j as int) == skip_white_space(v@, i as int),
        decreases v@.len() - j,
    {
        j = j + 1;
    }
    j
}

pub fn token_end_from(v: &Vec<char>, i: usize) -> (r: usize)
    requires
        i <= v@.len(),
    ensures
        r == token_end(v@, i as int),
        i <= r <= v@.len(),
{
    let mut j = i;
    while j < v.len() && !is_white_space_char(v[j])
        invariant
            i <= j <= v@.len(),
            token_end(v@, j as int) == token_end(v@, i as int),
        decreases v@.len() - j,
    {
        j = j + 1;
    }
    j
}

pub fn trim_end_from(v: &Vec<char>, end: usize) -> (r: usize)
    requires
        end <= v@.len(),
    ensures
        r == trim_end(v@, end as int),
        r <= end,
{
    let mut j = end;
    while j > 0 && is_white_space_char(v[j - 1])
        invariant
            j <= end <= v@.len(),
            trim_end(v@, j as int) == trim_end(v@, end as int),
        decreases j,
    {
        j = j - 1;
    }
    j
}

pub fn find_char_from(v: &Vec<char>, c: char, i: usize) -> (r: Option<usize>)
    requires
        i <= v@.len(),
    ensures
        r is Some <==> find_char(v@, c, i as int) is Some,
        r matches Some(k) ==> find_char(v@, c, i as int) == Some(k as int),
        r matches Some(k) ==> i <= k < v@.len() && v@[k as int] == c,
{
    let mut j = i;
    while j < v.len()
        invariant
            i <= j <= v@.len(),
            find_char(v@, c, j as int) == find_char(v@, c, i as int),
        decreases v@.len() - j,
    {
        if v[j] == c {
            return Some(j);
        }
        j = j + 1;
    }
    None
}

pub fn find_pair_from(v: &Vec<char>, a: char, b: char, i: usize) -> (r: Option<usize>)
    requires
        i <= v@.len(),
    ensures
        r is Some <==> find_pair(v@, a, b, i as int) is Some,
        r matches Some(k) ==> find_pair(v@, a, b, i as int) == Some(k as int),
        r matches Some(k) ==> i <= k && k + 1 < v@.len(),
{
    let mut j = i;
    while j < v.len() && j + 1 < v.len()
        invariant
            i <= j <= v@.len(),
            find_pair(v@, a, b, j as int) == find_pair(v@, a, b, i as int),
        decreases v@.len() - j,
    {
        if v[j] == a && v[j + 1] == b {
            return Some(j);
        }
        j = j + 1;
    }
    None
}

proof fn lemma_decimal_value_prefix(s: Seq<char>, k: int)
    requires
        0 <= k <= s.len(),
    ensures
        decimal_value(s.take(k)) <= decimal_value(s),
    decreases s.len(),
{
    if k < s.len() {
        lemma_decimal_value_prefix(s.drop_last(), k);
        assert(s.drop_last().take(k) =~= s.take(k));
    } else {
        assert(s.take(k) =~= s);
    }
}

/// The value of `v[start..end]` under `str::parse::<usize>`.
pub fn parse_usize_range(v: &Vec<char>, start: usize, end: usize) -> (r: Option<usize>)
    requires
        start <= end <= v@.len(),
    ensures
        r == parse_usize(v@.subrange(start as int, end as int)),
{
    let ghost s = v@.subrange(start as int, end as int);
    let mut i = start;
    if i < end && v[i] == '+' {
        i = i + 1;
    }
    let ghost digits = v@.subrange(i as int, end as int);
    assert(digits =~= unsigned_digits(s));
    if i == end {
        return None;
    }
    let mut acc: usize = 0;
    let mut j = i;
    while j < end
        invariant
            i <= j <= end <= v@.len(),
            s == v@.subrange(start as int, end as int),
            digits == v@.subrange(i as int, end as int),
            digits == unsigned_digits(s),
            digits.len() > 0,
            forall|k: int| 0 <= k < j - i ==> is_ascii_digit(#[trigger] digits[k]),
            acc as nat == decimal_value(digits.take(j - i)),
        decreases end - j,
    {
        let c = v[j];
        if !('0' <= c && c <= '9') {
            assert(digits[j - i] == c);
            assert(!is_ascii_digit(digits[j - i]));
            return None;
        }
        let d = (c as u32 - '0' as u32) as usize;
        assert(digits.take(j - i + 1).drop_last() =~= digits.take(j - i));
        assert(digits.take(j - i + 1).last() == c);
        match acc.checked_mul(10) {
            Some(m) => match m.checked_add(d) {
                Some(n) => {
                    acc = n;
                },
                None => {
                    proof {
                        lemma_decimal_value_prefix(digits, j - i + 1);
                    }
                    return None;
                },
            },
            None => {
                proof {
                    lemma_decimal_value_prefix(digits, j - i + 1);
                }
                return None;
            },
        }
        j = j + 1;
    }
    assert(digits.take(j - i) =~= digits);
    Some(acc)
}

pub fn ascii_fold_char(c: char) -> (r: u32)
    ensures
        r == ascii_fold(c),
{
    if 'A' <= c && c <= 'Z' {
        c as u32 + 32
    } else {
        c as u32
    }
}

pub fn eq_ignore_ascii_case_chars(a: &Vec<char>, b: &Vec<char>) -> (r: bool)
    ensures
        r == eq_ignore_ascii_case(a@, b@),
{
    if a.len() != b.len() {
        return false;
    }
    let mut i: usize = 0;
    while i < a.len()
        invariant
            a@.len() == b@.len(),
            i <= a@.len(),
            forall|k: int| 0 <= k < i ==> ascii_fold(#[trigger] a@[k]) == ascii_fold(b@[k]),
        decreases a@.len() - i,
    {
        if ascii_fold_char(a[i]) != ascii_fold_char(b[i]) {
            return false;
        }
        i = i + 1;
    }
    true
}

/// Appends the decimal representation of `n` to `out`.
pub fn push_decimal(out: &mut String, n: usize)
    ensures
        final(out)@ == old(out)@ + decimal_text(n as nat),
    decreases n,
{
    if n >= 10 {
        push_decimal(out, n / 10);
    }
    let digits = "0123456789";
    proof {
        reveal_strlit("0123456789");
    }
    let d = n % 10;
    out.append(digits.substring_char(d, d + 1));
    assert(digits@.subrange(d as int, d + 1) =~= seq![digit_chars()[d as int]]);
}

/// Whether two character vectors hold the same text.
pub fn chars_equal(a: &Vec<char>, b: &Vec<char>) -> (r: bool)
    ensures
        r == (a@ == b@),
{
    if a.len() != b.len() {
        return false;
    }
    let mut i: usize = 0;
    while i < a.len()
        invariant
            a@.len() == b@.len(),
            i <= a@.len(),
            forall|k: int| 0 <= k < i ==> a@[k] == b@[k],
        decreases a@.len() - i,
    {
        if a[i] != b[i] {
            return false;
        }
        i = i + 1;
    }
    assert(a@ =~= b@);
    true
}

// ---------------------------------------------------------------------------
// Facts about the definitions
// ---------------------------------------------------------------------------

/// Where `find_char` stops, when it stops, is at or after where it started,
/// on the character searched for.
pub proof fn lemma_find_char_bounds(s: Seq<char>, c: char, i: int)
    ensures
        find_char(s, c, i) matches Some(j) ==> 0 <= i <= j < s.len() && s[j] == c,
    decreases s.len() - i,
{
    if 0 <= i < s.len() && s[i] != c {
        lemma_find_char_bounds(s, c, i + 1);
    }
}

/// Searching `x + y` from inside `x` finds what searching `x` finds, and
/// otherwise goes on at the start of `y`.
pub proof fn lemma_find_char_append(x: Seq<char>, y: Seq<char>, c: char, i: int)
    requires
        0 <= i <= x.len(),
    ensures
        find_char(x + y, c, i) == (match find_char(x, c, i) {
            Some(j) => Some(j),
            None => find_char(x + y, c, x.len() as int),
        }),
    decreases x.len() - i,
{
    if i < x.len() {
        assert((x + y)[i] == x[i]);
        if x[i] != c {
            lemma_find_char_append(x, y, c, i + 1);
        }
    }
}

/// Searching `p + y` past `p` is searching `y`, shifted by the length of `p`.
pub proof fn lemma_find_char_shift(p: Seq<char>, y: Seq<char>, c: char, k: int)
    requires
        0 <= k,
    ensures
        find_char(p + y, c, p.len() + k) == (match find_char(y, c, k) {
            Some(j) => Some(p.len() + j),
            None => None::<int>,
        }),
    decreases y.len() - k,
{
    if k < y.len() {
        assert((p + y)[p.len() + k] == y[k]);
        if y[k] != c {
            lemma_find_char_shift(p, y, c, k + 1);
        }
    }
}

/// `s` cut at its first `c` gives back the parts it was joined from, when
/// the first part holds no `c`.
pub proof fn lemma_split_once_join(a: Seq<char>, b: Seq<char>, c: char)
    requires
        find_char(a, c, 0) is None,
    ensures
        split_once(a + seq![c] + b, c) == Some((a, b)),
{
    let s = a + seq![c] + b;
    assert(s =~= a + (seq![c] + b));
    lemma_find_char_append(a, seq![c] + b, c, 0);
    assert(s[a.len() as int] == c);
    assert(s.subrange(0, a.len() as int) =~= a);
    assert(s.subrange(a.len() as int + 1, s.len() as int) =~= b);
}

/// A run of white space from `i` to `k`, followed by a character that is not
/// white space (or by the end), is skipped to `k`.
pub proof fn lemma_skip_white_space_run(s: Seq<char>, i: int, k: int)
    requires
        0 <= i <= k <= s.len(),
        forall|j: int| i <= j < k ==> is_white_space(#[trigger] s[j]),
        k < s.len() ==> !is_white_space(s[k]),
    ensures
        skip_white_space(s, i) == k,
    decreases k - i,
{
    if i < k {
        lemma_skip_white_space_run(s, i + 1, k);
    }
}

/// A run of characters that are not white space from `i` to `k`, followed by
/// white space (or by the end), is a token ending at `k`.
pub proof fn lemma_token_end_run(s: Seq<char>, i: int, k: int)
    requires
        0 <= i <= k <= s.len(),
        forall|j: int| i <= j < k ==> !is_white_space(#[trigger] s[j]),
        k < s.len() ==> is_white_space(s[k]),
    ensures
        token_end(s, i) == k,
    decreases k - i,
{
    if i < k {
        lemma_token_end_run(s, i + 1, k);
    }
}

/// `find_char` finds nothing from `i` on exactly when no character from `i`
/// on is `c`.
pub proof fn lemma_find_char_none(s: Seq<char>, c: char, i: int)
    requires
        0 <= i,
    ensures
        find_char(s, c, i) is None <==> forall|j: int| i <= j < s.len() ==> s[j] != c,
    decreases s.len() - i,
{
    if i < s.len() {
        lemma_find_char_none(s, c, i + 1);
    }
}

proof fn lemma_digit(d: int)
    requires
        0 <= d < 10,
    ensures
        is_ascii_digit(digit_chars()[d]),
        digit_value(digit_chars()[d]) == d,
        !is_white_space(digit_chars()[d]),
        digit_chars()[d] != '+',
{
    assert(digit_chars()[0] == '0');
    assert(digit_chars()[1] == '1');
    assert(digit_chars()[2] == '2');
    assert(digit_chars()[3] == '3');
    assert(digit_chars()[4] == '4');
    assert(digit_chars()[5] == '5');
    assert(digit_chars()[6] == '6');
    assert(digit_chars()[7] == '7');
    assert(digit_chars()[8] == '8');
    assert(digit_chars()[9] == '9');
}

proof fn lemma_decimal_text_digits(n: nat)
    ensures
        decimal_text(n).len() > 0,
        all_ascii_digits(decimal_text(n)),
        forall|i: int| 0 <= i < decimal_text(n).len() ==> !is_white_space(#[trigger] decimal_text(n)[i]),
        decimal_text(n)[0] != '+',
        decimal_value(decimal_text(n)) == n,
    decreases n,
{
    if n < 10 {
        lemma_digit(n as int);
        assert(decimal_text(n).drop_last() =~= Seq::<char>::empty());
        assert(decimal_text(n).last() == digit_chars()[n as int]);
        assert(decimal_value(Seq::<char>::empty()) == 0);
        assert(decimal_value(decimal_text(n)) == decimal_value(decimal_text(n).drop_last()) * 10 + digit_value(
            decimal_text(n).last(),
        ));
    } else {
        let t = decimal_text(n / 10);
        let x = digit_chars()[(n % 10) as int];
        lemma_decimal_text_digits(n / 10);
        lemma_digit((n % 10) as int);
        assert(decimal_text(n) == t.push(x));
        assert(t.push(x).drop_last() =~= t);
        assert(decimal_value(decimal_text(n)) == decimal_value(t) * 10 + digit_value(x));
        assert((n / 10) * 10 + n % 10 == n);
        assert(decimal_value(t) * 10 + digit_value(x) == (n / 10) * 10 + n % 10);
        assert forall|i: int| 0 <= i < decimal_text(n).len() implies is_ascii_digit(#[trigger] decimal_text(n)[i])
            && !is_white_space(decimal_text(n)[i]) by {
            if i < t.len() {
                assert(decimal_text(n)[i] == t[i]);
            }
        }
    }
}

/// The decimal text of a number parses back (as `str::parse::<usize>` does)
/// to that number, also once trimmed.
pub proof fn lemma_decimal_text_parses_back(n: usize)
    ensures
        parse_usize(decimal_text(n as nat)) == Some(n),
        parse_usize(trim(decimal_text(n as nat))) == Some(n),
{
    let s = decimal_text(n as nat);
    lemma_decimal_text_digits(n as nat);
    assert(unsigned_digits(s) == s);
    lemma_skip_white_space_run(s, 0, 0);
    assert(trim_end(s, s.len() as int) == s.len());
    assert(s.subrange(0, s.len() as int) =~= s);
}

} // verus!
