//! Characters and strings: whitespace, trimming, searching, ordering and
//! decimal formatting.

use vstd::prelude::*;

verus! {

/// Whether `c` is whitespace in the sense of Unicode's `White_Space` property.
pub open spec fn is_ws(c: char) -> bool {
    let x = c as u32;
    (0x09 <= x && x <= 0x0d) || x == 0x20 || x == 0x85 || x == 0xa0 || x == 0x1680
        || (0x2000 <= x && x <= 0x200a) || x == 0x2028 || x == 0x2029 || x == 0x202f
        || x == 0x205f || x == 0x3000
}

/// Whitespace test, as `char::is_whitespace` defines it.
pub fn char_is_whitespace(c: char) -> (r: bool)
    ensures
        r == is_ws(c),
{
    let x = c as u32;
    (0x09 <= x && x <= 0x0d) || x == 0x20 || x == 0x85 || x == 0xa0 || x == 0x1680
        || (0x2000 <= x && x <= 0x200a) || x == 0x2028 || x == 0x2029 || x == 0x202f
        || x == 0x205f || x == 0x3000
}

} // verus!

verus! {

/// The characters of `s`, in order.
pub fn chars_of(s: &str) -> (v: Vec<char>)
    ensures
        v@ == s@,
{
    broadcast use vstd::string::group_string_axioms;
    let mut v: Vec<char> = Vec::new();
    for c in it: s.chars()
        invariant
            v@ == it.seq().take(it.index() as int),
            it.seq() == s@,
    {
        v.push(c);
    }
    v
}

/// Appends one character, as `String::push` does.
#[verifier::external_body]
pub(crate) fn push_char(s: &mut String, c: char)
    ensures
        final(s)@ == old(s)@.push(c),
{
    s.push(c);
}

/// The string made of the characters of `v`, in order.
pub fn string_of(v: &Vec<char>) -> (s: String)
    ensures
        s@ == v@,
{
    let mut s = String::new();
    let mut i: usize = 0;
    while i < v.len()
        invariant
            i <= v.len(),
            s@ == v@.take(i as int),
        decreases v.len() - i,
    {
        push_char(&mut s, v[i]);
        i += 1;
        assert(v@.take(i as int) == v@.take(i - 1).push(v@[i - 1]));
    }
    assert(v@.take(v.len() as int) == v@);
    s
}

} // verus!

verus! {

// ---------------------------------------------------------------------------
// Trimming
// ---------------------------------------------------------------------------

/// The first position at or after `i` that does not hold whitespace, or the
/// length when there is none.
pub open spec fn lead_from(s: Seq<char>, i: int) -> int
    decreases s.len() - i,
{
    if 0 <= i < s.len() && is_ws(s[i]) {
        lead_from(s, i + 1)
    } else if i < s.len() {
        i
    } else {
        s.len() as int
    }
}

/// The end of `s[lo..j]` once trailing whitespace is dropped.
pub open spec fn end_from(s: Seq<char>, lo: int, j: int) -> int
    decreases j - lo,
{
    if lo < j && j <= s.len() && is_ws(s[j - 1]) {
        end_from(s, lo, j - 1)
    } else {
        j
    }
}

/// `s` without leading and trailing whitespace, as `str::trim` gives it.
pub open spec fn trim_spec(s: Seq<char>) -> Seq<char> {
    let a = lead_from(s, 0);
    s.subrange(a, end_from(s, a, s.len() as int))
}

pub proof fn lemma_lead_from_bounds(s: Seq<char>, i: int)
    requires
        0 <= i <= s.len(),
    ensures
        i <= lead_from(s, i) <= s.len(),
        forall|k: int| i <= k < lead_from(s, i) ==> is_ws(#[trigger] s[k]),
        lead_from(s, i) < s.len() ==> !is_ws(s[lead_from(s, i)]),
    decreases s.len() - i,
{
    if i < s.len() && is_ws(s[i]) {
        lemma_lead_from_bounds(s, i + 1);
    }
}

pub proof fn lemma_end_from_bounds(s: Seq<char>, lo: int, j: int)
    requires
        0 <= lo <= j <= s.len(),
    ensures
        lo <= end_from(s, lo, j) <= j,
        forall|k: int| end_from(s, lo, j) <= k < j ==> is_ws(#[trigger] s[k]),
        lo < end_from(s, lo, j) ==> !is_ws(s[end_from(s, lo, j) - 1]),
    decreases j - lo,
{
    if lo < j && is_ws(s[j - 1]) {
        lemma_end_from_bounds(s, lo, j - 1);
    }
}

/// What trimming keeps: a middle part that starts and ends with a
/// non-whitespace character, with only whitespace cut away around it.
pub proof fn lemma_trim_shape(s: Seq<char>)
    ensures
        ({
            let a = lead_from(s, 0);
            let b = end_from(s, a, s.len() as int);
            &&& 0 <= a <= b <= s.len()
            &&& trim_spec(s) == s.subrange(a, b)
            &&& forall|k: int| 0 <= k < a ==> is_ws(#[trigger] s[k])
            &&& forall|k: int| b <= k < s.len() ==> is_ws(#[trigger] s[k])
            &&& a < b ==> !is_ws(s[a]) && !is_ws(s[b - 1])
        }),
{
    lemma_lead_from_bounds(s, 0);
    let a = lead_from(s, 0);
    lemma_end_from_bounds(s, a, s.len() as int);
}

/// A sequence holding no whitespace is its own trim.
pub proof fn lemma_trim_no_ws(s: Seq<char>)
    requires
        forall|k: int| 0 <= k < s.len() ==> !is_ws(#[trigger] s[k]),
    ensures
        trim_spec(s) == s,
{
    lemma_trim_shape(s);
    let a = lead_from(s, 0);
    let b = end_from(s, a, s.len() as int);
    if a > 0 {
        assert(is_ws(s[0]));
    }
    if b < s.len() {
        assert(is_ws(s[s.len() - 1]));
    }
    assert(s.subrange(0, s.len() as int) =~= s);
}

/// The characters of `v` without leading and trailing whitespace.
pub fn trim_chars(v: &Vec<char>) -> (r: Vec<char>)
    ensures
        r@ == trim_spec(v@),
{
    let ghost s = v@;
    let mut a: usize = 0;
    while a < v.len() && char_is_whitespace(v[a])
        invariant
            a <= v.len(),
            lead_from(s, 0) == lead_from(s, a as int),
            s == v@,
        decreases v.len() - a,
    {
        a += 1;
    }
    let mut b: usize = v.len();
    while a < b && char_is_whitespace(v[b - 1])
        invariant
            a <= b <= v.len(),
            end_from(s, a as int, v.len() as int) == end_from(s, a as int, b as int),
            s == v@,
        decreases b - a,
    {
        b -= 1;
    }
    let mut r: Vec<char> = Vec::new();
    let mut k: usize = a;
    while k < b
        invariant
            a <= k <= b <= v.len(),
            r@ == s.subrange(a as int, k as int),
            s == v@,
        decreases b - k,
    {
        r.push(v[k]);
        k += 1;
        assert(s.subrange(a as int, k as int) == s.subrange(a as int, k - 1).push(s[k - 1]));
    }
    r
}

/// `s` without leading and trailing whitespace, as `str::trim` gives it.
pub fn trim(s: &str) -> (r: String)
    ensures
        r@ == trim_spec(s@),
{
    let v = chars_of(s);
    let t = trim_chars(&v);
    string_of(&t)
}

} // verus!

verus! {

// ---------------------------------------------------------------------------
// ASCII classes and case
// ---------------------------------------------------------------------------

pub open spec fn is_ascii_char(c: char) -> bool {
    (c as u32) < 128
}

pub open spec fn all_ascii(s: Seq<char>) -> bool {
    forall|i: int| 0 <= i < s.len() ==> is_ascii_char(#[trigger] s[i])
}

pub open spec fn is_ascii_upper(c: char) -> bool {
    'A' <= c && c <= 'Z'
}

pub open spec fn is_ascii_lower(c: char) -> bool {
    'a' <= c && c <= 'z'
}

pub open spec fn is_ascii_digit(c: char) -> bool {
    '0' <= c && c <= '9'
}

pub open spec fn is_ascii_alnum(c: char) -> bool {
    is_ascii_upper(c) || is_ascii_lower(c) || is_ascii_digit(c)
}

/// The ASCII lower-case form of one character; others are left alone.
pub open spec fn ascii_lower_char(c: char) -> char {
    if is_ascii_upper(c) {
        ((c as u32) + 32) as char
    } else {
        c
    }
}

/// The ASCII upper-case form of one character; others are left alone.
pub open spec fn ascii_upper_char(c: char) -> char {
    if is_ascii_lower(c) {
        ((c as u32) - 32) as char
    } else {
        c
    }
}

pub open spec fn ascii_lower(s: Seq<char>) -> Seq<char> {
    Seq::new(s.len(), |i: int| ascii_lower_char(s[i]))
}

/// ASCII letter or digit test, as `char::is_ascii_alphanumeric` defines it.
pub fn char_is_ascii_alphanumeric(c: char) -> (r: bool)
    ensures
        r == is_ascii_alnum(c),
{
    ('A' <= c && c <= 'Z') || ('a' <= c && c <= 'z') || ('0' <= c && c <= '9')
}

/// What `str::to_lowercase` makes of a string: Unicode's full lower-case
/// mapping, which depends on the string alone.
pub uninterp spec fn lowercase_of(s: Seq<char>) -> Seq<char>;

/// Unicode lower case of `s`, through `str::to_lowercase`.
///
/// The contract names the result `lowercase_of(s)` and states the one fact the
/// documentation gives in a line: on ASCII text the mapping turns `A`-`Z` into
/// `a`-`z` and keeps every other character.
#[verifier::external_body]
pub(crate) fn to_lowercase(s: &str) -> (r: String)
    ensures
        r@ == lowercase_of(s@),
        all_ascii(s@) ==> r@ == ascii_lower(s@),
{
    s.to_lowercase()
}

/// Whether `char::is_alphanumeric` holds of `c`: Unicode's `Alphabetic` or
/// `Numeric` property, which depends on the character alone.
pub uninterp spec fn alphanumeric(c: char) -> bool;

/// Unicode letter-or-number test, through `char::is_alphanumeric`.
///
/// The contract names the result and states what the documentation gives for
/// ASCII: there the test holds of `A`-`Z`, `a`-`z` and `0`-`9` and of nothing
/// else.
#[verifier::external_body]
pub(crate) fn char_is_alphanumeric(c: char) -> (r: bool)
    ensures
        r == alphanumeric(c),
        is_ascii_char(c) ==> (r == is_ascii_alnum(c)),
{
    c.is_alphanumeric()
}

/// What `char::to_uppercase` yields for `c`: Unicode's full upper-case
/// mapping, one or more characters, depending on `c` alone.
pub uninterp spec fn uppercase_of(c: char) -> Seq<char>;

/// Unicode upper case of one character, through `char::to_uppercase`.
///
/// The contract names the result and states the ASCII case the
/// documentation gives: an ASCII character maps to its ASCII upper case alone.
#[verifier::external_body]
pub(crate) fn char_to_uppercase(c: char) -> (r: String)
    ensures
        r@ == uppercase_of(c),
        is_ascii_char(c) ==> r@ == seq![ascii_upper_char(c)],
{
    c.to_uppercase().to_string()
}

// ---------------------------------------------------------------------------
// Searching
// ---------------------------------------------------------------------------

pub open spec fn starts_with_spec(h: Seq<char>, n: Seq<char>) -> bool {
    n.len() <= h.len() && h.subrange(0, n.len() as int) == n
}

pub open spec fn ends_with_spec(h: Seq<char>, n: Seq<char>) -> bool {
    n.len() <= h.len() && h.subrange(h.len() - n.len(), h.len() as int) == n
}

/// Whether `n` occurs in `h` starting at `i`.
pub open spec fn occurs_at(h: Seq<char>, n: Seq<char>, i: int) -> bool {
    0 <= i && i + n.len() <= h.len() && h.subrange(i, i + n.len()) == n
}

pub open spec fn contains_spec(h: Seq<char>, n: Seq<char>) -> bool {
    exists|i: int| occurs_at(h, n, i)
}

/// Whether `n` matches `h` from position `i` on.
pub fn matches_at(h: &Vec<char>, n: &Vec<char>, i: usize) -> (r: bool)
    requires
        i <= h.len(),
    ensures
        r == occurs_at(h@, n@, i as int),
{
    if n.len() > h.len() - i {
        return false;
    }
    let mut k: usize = 0;
    while k < n.len()
        invariant
            k <= n.len(),
            i + n.len() <= h.len(),
            forall|j: int| 0 <= j < k ==> h@[i + j] == n@[j],
        decreases n.len() - k,
    {
        if h[i + k] != n[k] {
            assert(h@.subrange(i as int, i + n.len())[k as int] != n@[k as int]);
            return false;
        }
        k += 1;
    }
    assert(h@.subrange(i as int, i + n.len()) =~= n@);
    true
}

/// Substring search on characters.
pub fn contains_chars(h: &Vec<char>, n: &Vec<char>) -> (r: bool)
    ensures
        r == contains_spec(h@, n@),
{
    if n.len() > h.len() {
        assert forall|i: int| !occurs_at(h@, n@, i) by {}
        return false;
    }
    let last = h.len() - n.len();
    let mut i: usize = 0;
    loop
        invariant
            last + n.len() == h.len(),
            i <= last,
            forall|j: int| 0 <= j < i ==> !occurs_at(h@, n@, j),
        ensures
            forall|j: int| 0 <= j <= last ==> !occurs_at(h@, n@, j),
        decreases last - i,
    {
        if matches_at(h, n, i) {
            return true;
        }
        if i == last {
            break;
        }
        i += 1;
    }
    assert forall|j: int| !occurs_at(h@, n@, j) by {
        if 0 <= j && j <= last {
        }
    }
    false
}

/// Whether `n` occurs in `h`, as `str::contains` answers for a string pattern.
pub fn str_contains(h: &str, n: &str) -> (r: bool)
    ensures
        r == contains_spec(h@, n@),
{
    let hv = chars_of(h);
    let nv = chars_of(n);
    contains_chars(&hv, &nv)
}

/// Prefix test on characters.
pub fn starts_with_chars(h: &Vec<char>, n: &Vec<char>) -> (r: bool)
    ensures
        r == starts_with_spec(h@, n@),
{
    let r = matches_at(h, n, 0);
    assert(r == occurs_at(h@, n@, 0));
    r
}

/// Suffix test on characters.
pub fn ends_with_chars(h: &Vec<char>, n: &Vec<char>) -> (r: bool)
    ensures
        r == ends_with_spec(h@, n@),
{
    if n.len() > h.len() {
        return false;
    }
    matches_at(h, n, h.len() - n.len())
}

} // verus!

verus! {

// ---------------------------------------------------------------------------
// Ordering
// ---------------------------------------------------------------------------

/// Lexicographic order on character sequences, character by character by
/// code point, with a prefix before any longer sequence: the order `String`'s
/// `Ord` gives, since UTF-8 keeps code point order byte by byte.
pub open spec fn lex_le(a: Seq<char>, b: Seq<char>) -> bool
    decreases a.len(),
{
    if a.len() == 0 {
        true
    } else if b.len() == 0 {
        false
    } else if a[0] != b[0] {
        a[0] < b[0]
    } else {
        lex_le(a.drop_first(), b.drop_first())
    }
}

pub proof fn lemma_lex_reflexive(a: Seq<char>)
    ensures
        lex_le(a, a),
    decreases a.len(),
{
    if a.len() > 0 {
        lemma_lex_reflexive(a.drop_first());
    }
}

pub proof fn lemma_lex_total(a: Seq<char>, b: Seq<char>)
    ensures
        lex_le(a, b) || lex_le(b, a),
    decreases a.len(),
{
    if a.len() > 0 && b.len() > 0 && a[0] == b[0] {
        lemma_lex_total(a.drop_first(), b.drop_first());
    }
}

pub proof fn lemma_lex_antisymmetric(a: Seq<char>, b: Seq<char>)
    requires
        lex_le(a, b),
        lex_le(b, a),
    ensures
        a == b,
    decreases a.len(),
{
    if a.len() > 0 && b.len() > 0 {
        lemma_lex_antisymmetric(a.drop_first(), b.drop_first());
        assert(a =~= seq![a[0]] + a.drop_first());
        assert(b =~= seq![b[0]] + b.drop_first());
    }
}

pub proof fn lemma_lex_transitive(a: Seq<char>, b: Seq<char>, c: Seq<char>)
    requires
        lex_le(a, b),
        lex_le(b, c),
    ensures
        lex_le(a, c),
    decreases a.len(),
{
    if a.len() > 0 && b.len() > 0 && c.len() > 0 && a[0] == b[0] && b[0] == c[0] {
        lemma_lex_transitive(a.drop_first(), b.drop_first(), c.drop_first());
    }
}

/// Lexicographic comparison of two character sequences.
pub fn lex_le_chars(a: &Vec<char>, b: &Vec<char>) -> (r: bool)
    ensures
        r == lex_le(a@, b@),
{
    let mut i: usize = 0;
    assert(a@.skip(0) =~= a@);
    assert(b@.skip(0) =~= b@);
    while i < a.len() && i < b.len() && a[i] == b[i]
        invariant
            i <= a.len(),
            i <= b.len(),
            lex_le(a@, b@) == lex_le(a@.skip(i as int), b@.skip(i as int)),
        decreases a.len() - i,
    {
        assert(a@.skip(i as int).drop_first() =~= a@.skip(i + 1));
        assert(b@.skip(i as int).drop_first() =~= b@.skip(i + 1));
        i += 1;
    }
    if i == a.len() {
        true
    } else if i == b.len() {
        false
    } else {
        a[i] < b[i]
    }
}

// ---------------------------------------------------------------------------
// Decimal numerals
// ---------------------------------------------------------------------------

pub open spec fn digit_char(d: nat) -> char {
    let d = d % 10;
    if d == 0 {
        '0'
    } else if d == 1 {
        '1'
    } else if d == 2 {
        '2'
    } else if d == 3 {
        '3'
    } else if d == 4 {
        '4'
    } else if d == 5 {
        '5'
    } else if d == 6 {
        '6'
    } else if d == 7 {
        '7'
    } else if d == 8 {
        '8'
    } else {
        '9'
    }
}

/// The decimal numeral of `n`, with no leading zeros: what `{}` prints for an
/// unsigned integer.
pub open spec fn decimal(n: nat) -> Seq<char>
    decreases n,
{
    if n < 10 {
        seq![digit_char(n)]
    } else {
        decimal(n / 10).push(digit_char(n % 10))
    }
}

pub proof fn lemma_decimal_digits(n: nat)
    ensures
        decimal(n).len() >= 1,
        forall|i: int| 0 <= i < decimal(n).len() ==> is_ascii_digit(#[trigger] decimal(n)[i]),
    decreases n,
{
    if n >= 10 {
        lemma_decimal_digits(n / 10);
    }
}

pub proof fn lemma_digit_char_injective(a: nat, b: nat)
    requires
        a < 10,
        b < 10,
        digit_char(a) == digit_char(b),
    ensures
        a == b,
{
}

/// Different numbers have different numerals.
pub proof fn lemma_decimal_injective(m: nat, n: nat)
    requires
        decimal(m) == decimal(n),
    ensures
        m == n,
    decreases m + n,
{
    lemma_decimal_digits(m / 10);
    lemma_decimal_digits(n / 10);
    if m < 10 && n < 10 {
        assert(decimal(m) == seq![digit_char(m)]);
        assert(decimal(n) == seq![digit_char(n)]);
        assert(decimal(m)[0] == digit_char(m));
        assert(decimal(n)[0] == digit_char(n));
        lemma_digit_char_injective(m, n);
    } else if m < 10 {
        assert(decimal(n).len() >= 2);
    } else if n < 10 {
        assert(decimal(m).len() >= 2);
    } else {
        assert(decimal(m) == decimal(m / 10).push(digit_char(m % 10)));
        assert(decimal(n) == decimal(n / 10).push(digit_char(n % 10)));
        assert(decimal(m).last() == digit_char(m % 10));
        assert(decimal(n).last() == digit_char(n % 10));
        assert(digit_char(m % 10) == digit_char(n % 10));
        lemma_digit_char_injective(m % 10, n % 10);
        assert(m % 10 == n % 10);
        assert(decimal(m).drop_last() =~= decimal(m / 10));
        assert(decimal(n).drop_last() =~= decimal(n / 10));
        lemma_decimal_injective(m / 10, n / 10);
        assert(m == 10 * (m / 10) + m % 10);
        assert(n == 10 * (n / 10) + n % 10);
    }
}

/// Appends the decimal numeral of `n`.
pub fn push_decimal(out: &mut Vec<char>, n: u64)
    ensures
        final(out)@ == old(out)@ + decimal(n as nat),
    decreases n,
{
    if n >= 10 {
        push_decimal(out, n / 10);
    }
    let d: u64 = n % 10;
    let c: char = if d == 0 { '0' } else if d == 1 { '1' } else if d == 2 { '2' } else if d == 3 {
        '3'
    } else if d == 4 { '4' } else if d == 5 { '5' } else if d == 6 { '6' } else if d == 7 {
        '7'
    } else if d == 8 { '8' } else { '9' };
    assert(c == digit_char(n as nat)) by {
        assert((n as nat) % 10 == d);
    }
    out.push(c);
    proof {
        if n >= 10 {
            assert(decimal(n as nat) == decimal((n / 10) as nat).push(digit_char((n % 10) as nat)));
        }
    }
    assert(final(out)@ =~= old(out)@ + decimal(n as nat));
}

} // verus!

verus! {

// ---------------------------------------------------------------------------
// Sorting strings
// ---------------------------------------------------------------------------

/// The character sequences of a list of strings.
pub open spec fn views(v: Seq<String>) -> Seq<Seq<char>> {
    v.map_values(|s: String| s@)
}

pub open spec fn sorted_lex(s: Seq<Seq<char>>) -> bool {
    forall|i: int, j: int| 0 <= i < j < s.len() ==> lex_le(#[trigger] s[i], #[trigger] s[j])
}

/// Sorts strings into lexicographic order, as `Vec<String>::sort` does.
pub fn sort_strings(v: Vec<String>) -> (r: Vec<String>)
    ensures
        sorted_lex(views(r@)),
        views(r@).to_multiset() == views(v@).to_multiset(),
        r@.len() == v@.len(),
{
    broadcast use vstd::seq_lib::group_to_multiset_ensures;
    let mut out: Vec<String> = Vec::new();
    let mut i: usize = 0;
    while i < v.len()
        invariant
            i <= v.len(),
            sorted_lex(views(out@)),
            views(out@).to_multiset() == views(v@.take(i as int)).to_multiset(),
            out@.len() == i,
        decreases v.len() - i,
    {
        let x = v[i].clone();
        let xc = chars_of(x.as_str());
        let mut p: usize = 0;
        while p < out.len() && lex_le_chars(&chars_of(out[p].as_str()), &xc)
            invariant
                p <= out.len(),
                xc@ == x@,
                forall|k: int| 0 <= k < p ==> lex_le(#[trigger] views(out@)[k], x@),
            decreases out.len() - p,
        {
            p += 1;
        }
        let ghost before = views(out@);
        proof {
            if p < out.len() {
                lemma_lex_total(before[p as int], x@);
            }
        }
        out.insert(p, x);
        proof {
            let after = views(out@);
            assert(after =~= before.insert(p as int, x@));
            assert forall|a: int, b: int| 0 <= a < b < after.len() implies lex_le(
                #[trigger] after[a],
                #[trigger] after[b],
            ) by {
                if a < p && b == p {
                } else if a == p && b > p {
                    if b - 1 > p {
                        lemma_lex_transitive(x@, before[p as int], before[b - 1]);
                    }
                } else if a < p && b > p {
                    if b - 1 > p {
                        lemma_lex_transitive(x@, before[p as int], before[b - 1]);
                    }
                    lemma_lex_transitive(before[a], x@, before[b - 1]);
                } else if a > p {
                    assert(after[a] == before[a - 1]);
                    assert(after[b] == before[b - 1]);
                } else {
                }
            }
            assert(v@.take(i + 1) =~= v@.take(i as int).push(v@[i as int]));
            assert(views(v@.take(i + 1)) =~= views(v@.take(i as int)).push(v@[i as int]@));
            vstd::seq_lib::to_multiset_insert(before, p as int, x@);
            vstd::seq_lib::to_multiset_build(views(v@.take(i as int)), v@[i as int]@);
        }
        i += 1;
    }
    assert(v@.take(v.len() as int) =~= v@);
    out
}

} // verus!

verus! {

/// Equality of two character vectors.
pub fn chars_eq(a: &Vec<char>, b: &Vec<char>) -> (r: bool)
    ensures
        r == (a@ == b@),
{
    if a.len() != b.len() {
        return false;
    }
    let mut i: usize = 0;
    while i < a.len()
        invariant
            i <= a.len(),
            a.len() == b.len(),
            forall|k: int| 0 <= k < i ==> a@[k] == b@[k],
        decreases a.len() - i,
    {
        if a[i] != b[i] {
            return false;
        }
        i += 1;
    }
    assert(a@ =~= b@);
    true
}

/// Equality of two strings, character by character.
pub fn str_eq(a: &str, b: &str) -> (r: bool)
    ensures
        r == (a@ == b@),
{
    chars_eq(&chars_of(a), &chars_of(b))
}

/// `parts` joined with `sep` between neighbours, as `[String]::join` gives it.
pub open spec fn join_spec(parts: Seq<Seq<char>>, sep: Seq<char>) -> Seq<char>
    decreases parts.len(),
{
    if parts.len() == 0 {
        Seq::empty()
    } else if parts.len() == 1 {
        parts[0]
    } else {
        join_spec(parts.drop_last(), sep) + sep + parts.last()
    }
}

/// Joins strings with a separator between neighbours.
pub fn join(parts: &Vec<String>, sep: &str) -> (r: String)
    ensures
        r@ == join_spec(views(parts@), sep@),
{
    let sepv = chars_of(sep);
    let mut out: Vec<char> = Vec::new();
    let mut i: usize = 0;
    while i < parts.len()
        invariant
            i <= parts.len(),
            sepv@ == sep@,
            out@ == join_spec(views(parts@.take(i as int)), sep@),
        decreases parts.len() - i,
    {
        let pv = chars_of(parts[i].as_str());
        if i > 0 {
            out.append(&mut sepv.clone());
        }
        let mut pc = pv.clone();
        out.append(&mut pc);
        proof {
            let ps = views(parts@.take(i + 1));
            assert(ps.drop_last() =~= views(parts@.take(i as int)));
            assert(ps.last() == parts@[i as int]@);
            if i == 0 {
                assert(views(parts@.take(0)) =~= Seq::<Seq<char>>::empty());
                assert(ps.len() == 1);
            }
        }
        i += 1;
        assert(out@ =~= join_spec(views(parts@.take(i as int)), sep@));
    }
    assert(parts@.take(parts.len() as int) =~= parts@);
    string_of(&out)
}

} // verus!

verus! {

// ---------------------------------------------------------------------------
// Stable ordering by key
// ---------------------------------------------------------------------------

/// Whether position `i` comes before position `j` when positions are ordered
/// by their keys, ties keeping the order they came in: the order a stable sort
/// by key leaves.
pub open spec fn key_before(keys: Seq<Seq<char>>, i: int, j: int) -> bool {
    lex_le(keys[i], keys[j]) && (keys[i] != keys[j] || i < j)
}

/// `order` lists every position below `n` exactly once.
pub open spec fn is_permutation_of_range(order: Seq<usize>, n: nat) -> bool {
    &&& order.len() == n
    &&& order.no_duplicates()
    &&& forall|k: int| 0 <= k < order.len() ==> order[k] < n
    &&& forall|i: usize| i < n ==> #[trigger] order.contains(i)
}

/// The positions `0..keys.len()` in the order a stable sort by key puts
/// them in.
pub fn stable_order(keys: &Vec<Vec<char>>) -> (order: Vec<usize>)
    ensures
        is_permutation_of_range(order@, keys@.len()),
        forall|a: int, b: int|
            0 <= a < b < order@.len() ==> key_before(
                keys@.map_values(|k: Vec<char>| k@),
                #[trigger] order@[a] as int,
                #[trigger] order@[b] as int,
            ),
{
    let ghost ks = keys@.map_values(|k: Vec<char>| k@);
    let mut out: Vec<usize> = Vec::new();
    let mut i: usize = 0;
    while i < keys.len()
        invariant
            i <= keys.len(),
            ks == keys@.map_values(|k: Vec<char>| k@),
            out@.len() == i,
            out@.no_duplicates(),
            forall|k: int| 0 <= k < out@.len() ==> out@[k] < i,
            forall|m: usize| m < i ==> #[trigger] out@.contains(m),
            forall|a: int, b: int|
                0 <= a < b < out@.len() ==> key_before(
                    ks,
                    #[trigger] out@[a] as int,
                    #[trigger] out@[b] as int,
                ),
        decreases keys.len() - i,
    {
        let mut p: usize = 0;
        while p < out.len() && lex_le_chars(&keys[out[p]], &keys[i])
            invariant
                p <= out.len(),
                i < keys.len(),
                ks == keys@.map_values(|k: Vec<char>| k@),
                forall|k: int| 0 <= k < out@.len() ==> out@[k] < i,
                forall|k: int| 0 <= k < p ==> lex_le(ks[#[trigger] out@[k] as int], ks[i as int]),
            decreases out.len() - p,
        {
            p += 1;
        }
        let ghost before = out@;
        proof {
            if p < out.len() {
                lemma_lex_total(ks[before[p as int] as int], ks[i as int]);
            }
        }
        out.insert(p, i);
        proof {
            let after = out@;
            assert(after =~= before.insert(p as int, i));
            assert forall|a: int, b: int| 0 <= a < b < after.len() implies key_before(
                ks,
                #[trigger] after[a] as int,
                #[trigger] after[b] as int,
            ) by {
                let ki = ks[i as int];
                if b == p {
                    // a < p: its key is at most the new key, and its position is earlier.
                    assert(after[a] == before[a]);
                } else if a == p {
                    let q = before[b - 1] as int;
                    let p0 = before[p as int] as int;
                    if b - 1 > p {
                        assert(key_before(ks, p0, q));
                        lemma_lex_transitive(ki, ks[p0], ks[q]);
                    }
                    if ki == ks[q] {
                        lemma_lex_antisymmetric(ks[p0], ki);
                    }
                } else if a < p && b > p {
                    let x = before[a] as int;
                    let q = before[b - 1] as int;
                    let p0 = before[p as int] as int;
                    if b - 1 > p {
                        assert(key_before(ks, p0, q));
                        lemma_lex_transitive(ki, ks[p0], ks[q]);
                    }
                    lemma_lex_transitive(ks[x], ki, ks[q]);
                    assert(key_before(ks, x, q));
                } else if a > p {
                    assert(after[a] == before[a - 1]);
                    assert(after[b] == before[b - 1]);
                } else {
                    assert(after[a] == before[a]);
                    assert(after[b] == before[b]);
                }
            }
            assert forall|m: usize| m < i + 1 implies #[trigger] after.contains(m) by {
                if m == i {
                    assert(after[p as int] == i);
                } else {
                    assert(before.contains(m));
                    let k = choose|k: int| 0 <= k < before.len() && before[k] == m;
                    if k < p {
                        assert(after[k] == m);
                    } else {
                        assert(after[k + 1] == m);
                    }
                }
            }
            assert forall|x: int, y: int|
                0 <= x < after.len() && 0 <= y < after.len() && x != y implies after[x]
                != after[y] by {
                if x != p && y != p {
                    let x0 = if x < p { x } else { x - 1 };
                    let y0 = if y < p { y } else { y - 1 };
                    assert(after[x] == before[x0]);
                    assert(after[y] == before[y0]);
                } else if x == p {
                    let y0 = if y < p { y } else { y - 1 };
                    assert(after[y] == before[y0]);
                } else {
                    let x0 = if x < p { x } else { x - 1 };
                    assert(after[x] == before[x0]);
                }
            }
        }
        i += 1;
    }
    out
}

/// Order on pairs of character sequences: by the first, then by the second.
pub open spec fn pair_le(a: (Seq<char>, Seq<char>), b: (Seq<char>, Seq<char>)) -> bool {
    if a.0 == b.0 {
        lex_le(a.1, b.1)
    } else {
        lex_le(a.0, b.0)
    }
}

/// Whether position `i` comes before position `j` when positions are ordered
/// by their pair keys, ties keeping the order they came in.
pub open spec fn pair_before(keys: Seq<(Seq<char>, Seq<char>)>, i: int, j: int) -> bool {
    pair_le(keys[i], keys[j]) && (keys[i] != keys[j] || i < j)
}

pub proof fn lemma_pair_total(a: (Seq<char>, Seq<char>), b: (Seq<char>, Seq<char>))
    ensures
        pair_le(a, b) || pair_le(b, a),
{
    lemma_lex_total(a.0, b.0);
    lemma_lex_total(a.1, b.1);
}

pub proof fn lemma_pair_antisymmetric(a: (Seq<char>, Seq<char>), b: (Seq<char>, Seq<char>))
    requires
        pair_le(a, b),
        pair_le(b, a),
    ensures
        a == b,
{
    if a.0 == b.0 {
        lemma_lex_antisymmetric(a.1, b.1);
    } else {
        lemma_lex_antisymmetric(a.0, b.0);
    }
}

pub proof fn lemma_pair_transitive(a: (Seq<char>, Seq<char>), b: (Seq<char>, Seq<char>), c: (Seq<char>, Seq<char>))
    requires
        pair_le(a, b),
        pair_le(b, c),
    ensures
        pair_le(a, c),
{
    if a.0 == b.0 && b.0 == c.0 {
        lemma_lex_transitive(a.1, b.1, c.1);
    } else if a.0 != b.0 && b.0 != c.0 {
        lemma_lex_transitive(a.0, b.0, c.0);
        if a.0 == c.0 {
            lemma_lex_antisymmetric(a.0, b.0);
        }
    }
}

/// Pair-key comparison.
fn pair_le_chars(a0: &Vec<char>, a1: &Vec<char>, b0: &Vec<char>, b1: &Vec<char>) -> (r: bool)
    ensures
        r == pair_le((a0@, a1@), (b0@, b1@)),
{
    if chars_eq(a0, b0) {
        lex_le_chars(a1, b1)
    } else {
        lex_le_chars(a0, b0)
    }
}

/// The pair keys `(firsts[i], seconds[i])`.
pub open spec fn pair_keys(firsts: Seq<Vec<char>>, seconds: Seq<Vec<char>>) -> Seq<(Seq<char>, Seq<char>)> {
    Seq::new(firsts.len(), |i: int| (firsts[i]@, seconds[i]@))
}

/// The positions `0..firsts.len()` in the order a stable sort by the pair
/// `(firsts[i], seconds[i])` puts them in.
pub fn stable_order_by_pair(firsts: &Vec<Vec<char>>, seconds: &Vec<Vec<char>>) -> (order: Vec<usize>)
    requires
        firsts@.len() == seconds@.len(),
    ensures
        is_permutation_of_range(order@, firsts@.len()),
        forall|a: int, b: int|
            0 <= a < b < order@.len() ==> pair_before(
                pair_keys(firsts@, seconds@),
                #[trigger] order@[a] as int,
                #[trigger] order@[b] as int,
            ),
{
    let ghost ks = pair_keys(firsts@, seconds@);
    let mut out: Vec<usize> = Vec::new();
    let mut i: usize = 0;
    while i < firsts.len()
        invariant
            i <= firsts.len(),
            firsts@.len() == seconds@.len(),
            ks == pair_keys(firsts@, seconds@),
            out@.len() == i,
            out@.no_duplicates(),
            forall|k: int| 0 <= k < out@.len() ==> out@[k] < i,
            forall|m: usize| m < i ==> #[trigger] out@.contains(m),
            forall|a: int, b: int|
                0 <= a < b < out@.len() ==> pair_before(ks, #[trigger] out@[a] as int, #[trigger] out@[b] as int),
        decreases firsts.len() - i,
    {
        let mut p: usize = 0;
        while p < out.len() && pair_le_chars(&firsts[out[p]], &seconds[out[p]], &firsts[i], &seconds[i])
            invariant
                p <= out.len(),
                i < firsts.len(),
                firsts@.len() == seconds@.len(),
                ks == pair_keys(firsts@, seconds@),
                forall|k: int| 0 <= k < out@.len() ==> out@[k] < i,
                forall|k: int| 0 <= k < p ==> pair_le(ks[#[trigger] out@[k] as int], ks[i as int]),
            decreases out.len() - p,
        {
            p += 1;
        }
        let ghost before = out@;
        proof {
            if p < out.len() {
                lemma_pair_total(ks[before[p as int] as int], ks[i as int]);
            }
        }
        out.insert(p, i);
        proof {
            let after = out@;
            assert(after =~= before.insert(p as int, i));
            assert forall|a: int, b: int| 0 <= a < b < after.len() implies pair_before(
                ks,
                #[trigger] after[a] as int,
                #[trigger] after[b] as int,
            ) by {
                let ki = ks[i as int];
                if b == p {
                    assert(after[a] == before[a]);
                } else if a == p {
                    let q = before[b - 1] as int;
                    let p0 = before[p as int] as int;
                    if b - 1 > p {
                        assert(pair_before(ks, p0, q));
                        lemma_pair_transitive(ki, ks[p0], ks[q]);
                    }
                    if ki == ks[q] {
                        lemma_pair_antisymmetric(ks[p0], ki);
                    }
                } else if a < p && b > p {
                    let x = before[a] as int;
                    let q = before[b - 1] as int;
                    let p0 = before[p as int] as int;
                    if b - 1 > p {
                        assert(pair_before(ks, p0, q));
                        lemma_pair_transitive(ki, ks[p0], ks[q]);
                    }
                    lemma_pair_transitive(ks[x], ki, ks[q]);
                    assert(pair_before(ks, x, q));
                } else if a > p {
                    assert(after[a] == before[a - 1]);
                    assert(after[b] == before[b - 1]);
                } else {
                    assert(after[a] == before[a]);
                    assert(after[b] == before[b]);
                }
            }
            assert forall|m: usize| m < i + 1 implies #[trigger] after.contains(m) by {
                if m == i {
                    assert(after[p as int] == i);
                } else {
                    assert(before.contains(m));
                    let k = choose|k: int| 0 <= k < before.len() && before[k] == m;
                    if k < p {
                        assert(after[k] == m);
                    } else {
                        assert(after[k + 1] == m);
                    }
                }
            }
            assert forall|x: int, y: int|
                0 <= x < after.len() && 0 <= y < after.len() && x != y implies after[x] != after[y] by {
                if x != p && y != p {
                    let x0 = if x < p { x } else { x - 1 };
                    let y0 = if y < p { y } else { y - 1 };
                    assert(after[x] == before[x0]);
                    assert(after[y] == before[y0]);
                } else if x == p {
                    let y0 = if y < p { y } else { y - 1 };
                    assert(after[y] == before[y0]);
                } else {
                    let x0 = if x < p { x } else { x - 1 };
                    assert(after[x] == before[x0]);
                }
            }
        }
        i += 1;
    }
    out
}

} // verus!

verus! {

/// The last position of `c` in `s`, if it occurs.
pub open spec fn last_index_of(s: Seq<char>, c: char) -> Option<int> {
    if s.contains(c) {
        Some(choose|i: int| 0 <= i < s.len() && s[i] == c && forall|k: int| i < k < s.len() ==> s[k] != c)
    } else {
        None
    }
}

/// What `str::rsplit_once` gives for a one-character pattern: the text before
/// and after the last occurrence of `c`, if there is one.
pub open spec fn rsplit_once_spec(s: Seq<char>, c: char) -> Option<(Seq<char>, Seq<char>)> {
    match last_index_of(s, c) {
        Some(i) => Some((s.subrange(0, i), s.subrange(i + 1, s.len() as int))),
        None => None,
    }
}

/// Split `s` at the last occurrence of `c`, as `str::rsplit_once` does.
pub fn rsplit_once_char(s: &str, c: char) -> (r: Option<(String, String)>)
    ensures
        match rsplit_once_spec(s@, c) {
            Some((a, b)) => r matches Some(p) && p.0@ == a && p.1@ == b,
            None => r is None,
        },
{
    let v = chars_of(s);
    let mut i: usize = v.len();
    while i > 0 && v[i - 1] != c
        invariant
            i <= v.len(),
            v@ == s@,
            forall|k: int| i <= k < v.len() ==> v@[k] != c,
        decreases i,
    {
        i -= 1;
    }
    if i == 0 {
        assert(!s@.contains(c)) by {
            if s@.contains(c) {
                let k = choose|k: int| 0 <= k < s@.len() && s@[k] == c;
                assert(v@[k] != c);
            }
        }
        return None;
    }
    let p = i - 1;
    proof {
        assert(s@.contains(c)) by {
            assert(s@[p as int] == c);
        }
        let j = choose|j: int| 0 <= j < s@.len() && s@[j] == c && forall|k: int| j < k < s@.len() ==> s@[k] != c;
        assert(j == p) by {
            if j < p {
                assert(s@[p as int] != c);
            }
            if j > p {
                assert(v@[j] != c);
            }
        }
    }
    let mut left: Vec<char> = Vec::new();
    let mut k: usize = 0;
    while k < p
        invariant
            k <= p,
            p < v.len(),
            left@ == v@.subrange(0, k as int),
        decreases p - k,
    {
        left.push(v[k]);
        k += 1;
        assert(left@ =~= v@.subrange(0, k as int));
    }
    let mut right: Vec<char> = Vec::new();
    let mut m: usize = p + 1;
    while m < v.len()
        invariant
            p + 1 <= m <= v.len(),
            right@ == v@.subrange(p + 1, m as int),
        decreases v.len() - m,
    {
        right.push(v[m]);
        m += 1;
        assert(right@ =~= v@.subrange(p + 1, m as int));
    }
    Some((string_of(&left), string_of(&right)))
}

/// Concatenation of two strings.
pub fn concat(a: &str, b: &str) -> (r: String)
    ensures
        r@ == a@ + b@,
{
    let mut v = chars_of(a);
    let mut w = chars_of(b);
    v.append(&mut w);
    string_of(&v)
}

} // verus!
