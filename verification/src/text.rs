//! Character-sequence utilities used throughout the library.
//!
//! Strings are modelled by their views, `Seq<char>`; the executable
//! helpers work on `Vec<char>` / `&[char]` and are proved against the
//! spec functions defined here.
use vstd::prelude::*;

verus! {

broadcast use vstd::string::group_string_axioms;

// ---------------------------------------------------------------------
// Specifications
// ---------------------------------------------------------------------

/// `n` occurs in `h` starting at position `i`.
pub open spec fn matches_at(h: Seq<char>, n: Seq<char>, i: int) -> bool {
    0 <= i && i + n.len() <= h.len() && h.subrange(i, i + n.len()) == n
}

/// `n` occurs somewhere in `h` (what `str::contains` decides).
pub open spec fn seq_contains(h: Seq<char>, n: Seq<char>) -> bool {
    exists|i: int| matches_at(h, n, i)
}

/// `h` begins with `p`.
pub open spec fn seq_starts_with(h: Seq<char>, p: Seq<char>) -> bool {
    matches_at(h, p, 0)
}

/// First position at or after `i` where `n` occurs in `h`.
pub open spec fn find_from(h: Seq<char>, n: Seq<char>, i: int) -> Option<int>
    decreases h.len() + 1 - i,
{
    if i < 0 || i + n.len() > h.len() {
        None
    } else if matches_at(h, n, i) {
        Some(i)
    } else {
        find_from(h, n, i + 1)
    }
}

/// First position where `n` occurs in `h` (what `str::find` returns, in chars).
pub open spec fn seq_find(h: Seq<char>, n: Seq<char>) -> Option<int> {
    find_from(h, n, 0)
}

/// The characters for which `char::is_whitespace` holds (the Unicode
/// `White_Space` property).
pub open spec fn is_ws(c: char) -> bool {
    ||| c == ' '
    ||| ('\u{9}' <= c && c <= '\u{d}')
    ||| c == '\u{85}'
    ||| c == '\u{a0}'
    ||| c == '\u{1680}'
    ||| ('\u{2000}' <= c && c <= '\u{200a}')
    ||| c == '\u{2028}'
    ||| c == '\u{2029}'
    ||| c == '\u{202f}'
    ||| c == '\u{205f}'
    ||| c == '\u{3000}'
}

/// `s` with leading whitespace removed.
pub open spec fn trim_start(s: Seq<char>) -> Seq<char>
    decreases s.len(),
{
    if s.len() > 0 && is_ws(s[0]) {
        trim_start(s.drop_first())
    } else {
        s
    }
}

/// `s` with trailing whitespace removed.
pub open spec fn trim_end(s: Seq<char>) -> Seq<char>
    decreases s.len(),
{
    if s.len() > 0 && is_ws(s.last()) {
        trim_end(s.drop_last())
    } else {
        s
    }
}

/// `s` with whitespace removed at both ends (what `str::trim` returns).
pub open spec fn spec_trim(s: Seq<char>) -> Seq<char> {
    trim_end(trim_start(s))
}

/// The Unicode lower-case mapping of a string, as `str::to_lowercase` computes it.
pub uninterp spec fn spec_to_lowercase(s: Seq<char>) -> Seq<char>;

/// The `application/x-www-form-urlencoded` encoding of the UTF-8 bytes of a
/// string, as `url::form_urlencoded::byte_serialize` produces it.
pub uninterp spec fn spec_form_urlencode(s: Seq<char>) -> Seq<char>;

// ---------------------------------------------------------------------
// Trusted wrappers
// ---------------------------------------------------------------------

/// Appends one character to a `String` (std `String::push`): the view gains
/// `c` at its end.
#[verifier::external_body]
pub(crate) fn push_char(s: &mut String, c: char)
    ensures
        final(s)@ == old(s)@.push(c),
{
    s.push(c);
}

/// std `str::to_lowercase`: the result is the Unicode lower-case mapping of
/// `s`, a function of `s` alone, given here by the name `spec_to_lowercase`.
#[verifier::external_body]
pub(crate) fn to_lowercase(s: &str) -> (r: String)
    ensures
        r@ == spec_to_lowercase(s@),
{
    s.to_lowercase()
}

/// `url::form_urlencoded::byte_serialize` over the UTF-8 bytes of `s`,
/// collected into a `String`; the result is named `spec_form_urlencode`.
#[verifier::external_body]
pub(crate) fn form_urlencode(s: &str) -> (r: String)
    ensures
        r@ == spec_form_urlencode(s@),
{
    url::form_urlencoded::byte_serialize(s.as_bytes()).collect()
}

// ---------------------------------------------------------------------
// Verified helpers
// ---------------------------------------------------------------------

/// Collects the characters of `s` into a vector.
pub fn chars_of(s: &str) -> (v: Vec<char>)
    ensures
        v@ == s@,
{
    let mut v: Vec<char> = Vec::new();
    for c in it: s.chars()
        invariant
            v@ == it.seq().take(it.index() as int),
    {
        v.push(c);
    }
    v
}

/// Builds a `String` whose view is `v`.
pub fn string_of(v: &[char]) -> (s: String)
    ensures
        s@ == v@,
{
    let mut s = String::new();
    let mut i: usize = 0;
    while i < v.len()
        invariant
            i <= v.len(),
            s@ == v@.take(i as int),
        decreases v.len() - i,
    {
        push_char(&mut s, v[i]);
        i = i + 1;
        assert(s@ == v@.take(i as int));
    }
    assert(v@.take(v.len() as int) == v@);
    s
}

/// Concatenation of two strings.
pub fn concat2(a: &str, b: &str) -> (r: String)
    ensures
        r@ == a@ + b@,
{
    let mut r = a.to_owned();
    r.append(b);
    r
}

/// Decides whether `n` occurs in `h` at position `i`.
pub fn matches_at_exec(h: &[char], n: &[char], i: usize) -> (r: bool)
    ensures
        r == matches_at(h@, n@, i as int),
{
    if n.len() > h.len() || i > h.len() - n.len() {
        return false;
    }
    let mut j: usize = 0;
    while j < n.len()
        invariant
            i + n.len() <= h.len(),
            j <= n.len(),
            forall|k: int| 0 <= k < j ==> h@[i + k] == n@[k],
        decreases n.len() - j,
    {
        if h[i + j] != n[j] {
            assert(h@.subrange(i as int, i + n.len())[j as int] != n@[j as int]);
            return false;
        }
        j = j + 1;
    }
    assert(h@.subrange(i as int, i + n.len()) =~= n@);
    true
}

/// An empty needle occurs at every position up to the end of `h`.
pub proof fn lemma_empty_matches(h: Seq<char>, n: Seq<char>, i: int)
    requires
        n.len() == 0,
        0 <= i <= h.len(),
    ensures
        matches_at(h, n, i),
{
    assert(h.subrange(i, i) =~= n);
}

/// Lemma: `find_from` returns a match position, and no earlier one exists.
pub proof fn lemma_find_from(h: Seq<char>, n: Seq<char>, i: int)
    requires
        0 <= i,
    ensures
        find_from(h, n, i) matches Some(k) ==> i <= k && matches_at(h, n, k)
            && forall|j: int| i <= j < k ==> !matches_at(h, n, j),
        find_from(h, n, i) is None ==> forall|j: int| i <= j ==> !matches_at(h, n, j),
    decreases h.len() + 1 - i,
{
    if i + n.len() > h.len() {
    } else if matches_at(h, n, i) {
    } else {
        if n.len() == 0 {
            lemma_empty_matches(h, n, i);
        }
        lemma_find_from(h, n, i + 1);
    }
}

/// First position at or after `i` where `n` occurs in `h`.
pub fn find_from_exec(h: &[char], n: &[char], i: usize) -> (r: Option<usize>)
    ensures
        r matches Some(k) ==> find_from(h@, n@, i as int) == Some(k as int),
        r is None ==> find_from(h@, n@, i as int) is None,
{
    if n.len() > h.len() || i > h.len() - n.len() {
        return None;
    }
    let mut j: usize = i;
    while j <= h.len() - n.len()
        invariant
            i <= j,
            n.len() <= h.len(),
            j <= h.len() - n.len() + 1,
            find_from(h@, n@, i as int) == find_from(h@, n@, j as int),
        decreases h.len() - n.len() + 1 - j,
    {
        if matches_at_exec(h, n, j) {
            return Some(j);
        }
        proof {
            if n.len() == 0 {
                lemma_empty_matches(h@, n@, j as int);
            }
        }
        j = j + 1;
    }
    None
}

/// Decides whether `n` occurs in `h`.
pub fn contains_exec(h: &[char], n: &[char]) -> (r: bool)
    ensures
        r == seq_contains(h@, n@),
{
    let f = find_from_exec(h, n, 0);
    proof {
        lemma_find_from(h@, n@, 0);
        if f is None {
            assert forall|j: int| !matches_at(h@, n@, j) by {
                if 0 <= j {
                }
            }
        }
    }
    f.is_some()
}

/// Decides whether `n` occurs in `h` (strings).
pub fn str_contains(h: &str, n: &str) -> (r: bool)
    ensures
        r == seq_contains(h@, n@),
{
    let hv = chars_of(h);
    let nv = chars_of(n);
    contains_exec(hv.as_slice(), nv.as_slice())
}

/// Decides whether `h` starts with `p` (strings).
pub fn str_starts_with(h: &str, p: &str) -> (r: bool)
    ensures
        r == seq_starts_with(h@, p@),
{
    let hv = chars_of(h);
    let pv = chars_of(p);
    matches_at_exec(hv.as_slice(), pv.as_slice(), 0)
}

/// Equality of two character slices.
pub fn chars_eq(a: &[char], b: &[char]) -> (r: bool)
    ensures
        r == (a@ == b@),
{
    if a.len() != b.len() {
        return false;
    }
    let r = matches_at_exec(a, b, 0);
    proof {
        assert(a@.subrange(0, b@.len() as int) =~= a@);
    }
    r
}

/// Equality of two strings.
pub fn str_eq(a: &str, b: &str) -> (r: bool)
    ensures
        r == (a@ == b@),
{
    let av = chars_of(a);
    let bv = chars_of(b);
    chars_eq(av.as_slice(), bv.as_slice())
}

/// Decides `char::is_whitespace`.
pub fn is_ws_exec(c: char) -> (r: bool)
    ensures
        r == is_ws(c),
{
    c == ' ' || ('\u{9}' <= c && c <= '\u{d}') || c == '\u{85}' || c == '\u{a0}' || c
        == '\u{1680}' || ('\u{2000}' <= c && c <= '\u{200a}') || c == '\u{2028}' || c
        == '\u{2029}' || c == '\u{202f}' || c == '\u{205f}' || c == '\u{3000}'
}

proof fn lemma_trim_start_skip(s: Seq<char>, i: int)
    requires
        0 <= i <= s.len(),
        forall|k: int| 0 <= k < i ==> is_ws(s[k]),
    ensures
        trim_start(s) == trim_start(s.subrange(i, s.len() as int)),
    decreases i,
{
    if i > 0 {
        assert(is_ws(s[0]));
        lemma_trim_start_skip(s.drop_first(), i - 1);
        assert(s.drop_first().subrange(i - 1, s.drop_first().len() as int) =~= s.subrange(
            i,
            s.len() as int,
        ));
    } else {
        assert(s.subrange(0, s.len() as int) =~= s);
    }
}

proof fn lemma_trim_end_skip(s: Seq<char>, e: int)
    requires
        0 <= e <= s.len(),
        forall|k: int| e <= k < s.len() ==> is_ws(s[k]),
    ensures
        trim_end(s) == trim_end(s.subrange(0, e)),
    decreases s.len() - e,
{
    if e < s.len() {
        assert(is_ws(s.last()));
        lemma_trim_end_skip(s.drop_last(), e);
        assert(s.drop_last().subrange(0, e) =~= s.subrange(0, e));
    } else {
        assert(s.subrange(0, e) =~= s);
    }
}

/// Whitespace trimmed at both ends (`str::trim`).
pub fn trim_chars(s: &[char]) -> (r: Vec<char>)
    ensures
        r@ == spec_trim(s@),
{
    let mut b: usize = 0;
    while b < s.len() && is_ws_exec(s[b])
        invariant
            b <= s.len(),
            forall|k: int| 0 <= k < b ==> is_ws(s@[k]),
        decreases s.len() - b,
    {
        b = b + 1;
    }
    proof {
        lemma_trim_start_skip(s@, b as int);
    }
    let ghost mid = s@.subrange(b as int, s@.len() as int);
    assert(trim_start(mid) == mid);
    let mut e: usize = s.len();
    while e > b && is_ws_exec(s[e - 1])
        invariant
            b <= e <= s.len(),
            forall|k: int| e <= k < s.len() ==> is_ws(s@[k]),
        decreases e,
    {
        e = e - 1;
    }
    proof {
        lemma_trim_end_skip(mid, e - b);
        assert(mid.subrange(0, e - b) =~= s@.subrange(b as int, e as int));
    }
    let mut r: Vec<char> = Vec::new();
    let mut i: usize = b;
    while i < e
        invariant
            b <= i <= e <= s.len(),
            r@ == s@.subrange(b as int, i as int),
        decreases e - i,
    {
        r.push(s[i]);
        i = i + 1;
        assert(r@ =~= s@.subrange(b as int, i as int));
    }
    r
}

/// `str::trim` on a string.
pub fn str_trim(s: &str) -> (r: String)
    ensures
        r@ == spec_trim(s@),
{
    let v = chars_of(s);
    let t = trim_chars(v.as_slice());
    string_of(t.as_slice())
}

/// The pieces of `s` between occurrences of `c` (what `str::split` with a
/// character gives): always at least one piece.
pub open spec fn split_char(s: Seq<char>, c: char) -> Seq<Seq<char>>
    decreases s.len(),
{
    if s.len() == 0 {
        seq![Seq::empty()]
    } else if s.last() == c {
        split_char(s.drop_last(), c).push(Seq::empty())
    } else {
        let p = split_char(s.drop_last(), c);
        p.update(p.len() - 1, p.last().push(s.last()))
    }
}

proof fn lemma_split_char_nonempty(s: Seq<char>, c: char)
    ensures
        split_char(s, c).len() >= 1,
    decreases s.len(),
{
    if s.len() > 0 {
        lemma_split_char_nonempty(s.drop_last(), c);
    }
}

/// Splits `s` at every occurrence of `c` (see [`split_char`]).
pub fn split_chars(s: &[char], c: char) -> (r: Vec<Vec<char>>)
    ensures
        r@.len() >= 1,
        r@.map_values(|v: Vec<char>| v@) == split_char(s@, c),
{
    let mut pieces: Vec<Vec<char>> = Vec::new();
    let mut cur: Vec<char> = Vec::new();
    let mut i: usize = 0;
    while i < s.len()
        invariant
            i <= s@.len(),
            pieces@.map_values(|v: Vec<char>| v@).push(cur@) == split_char(s@.take(i as int), c),
        decreases s@.len() - i,
    {
        let ghost before = pieces@.map_values(|v: Vec<char>| v@).push(cur@);
        proof {
            assert(s@.take(i + 1).drop_last() =~= s@.take(i as int));
            assert(s@.take(i + 1).last() == s@[i as int]);
            lemma_split_char_nonempty(s@.take(i as int), c);
        }
        if s[i] == c {
            let mut done: Vec<char> = Vec::new();
            std::mem::swap(&mut done, &mut cur);
            pieces.push(done);
            assert(pieces@.map_values(|v: Vec<char>| v@).push(cur@) =~= before.push(Seq::empty()));
        } else {
            cur.push(s[i]);
            assert(pieces@.map_values(|v: Vec<char>| v@).push(cur@) =~= before.update(
                before.len() - 1,
                before.last().push(s@[i as int]),
            ));
        }
        i = i + 1;
    }
    assert(s@.take(s@.len() as int) =~= s@);
    let ghost before = pieces@.map_values(|v: Vec<char>| v@);
    pieces.push(cur);
    assert(pieces@.map_values(|v: Vec<char>| v@) =~= before.push(cur@));
    pieces
}


/// `h` with every occurrence of `n` at or after position `i` replaced by
/// `r`, scanning left to right without overlaps (for a non-empty `n`).
pub open spec fn replace_from(h: Seq<char>, n: Seq<char>, r: Seq<char>, i: int) -> Seq<char>
    decreases h.len() - i,
{
    if i < 0 || i >= h.len() || n.len() == 0 {
        if 0 <= i < h.len() { h.subrange(i, h.len() as int) } else { Seq::empty() }
    } else if matches_at(h, n, i) {
        r + replace_from(h, n, r, i + n.len())
    } else {
        seq![h[i]] + replace_from(h, n, r, i + 1)
    }
}

/// `h` with every occurrence of the non-empty `n` replaced by `r` (what
/// `str::replace` returns).
pub open spec fn spec_replace(h: Seq<char>, n: Seq<char>, r: Seq<char>) -> Seq<char> {
    replace_from(h, n, r, 0)
}

/// Replaces every occurrence of the non-empty `n` in `h` by `r`.
pub fn replace_chars(h: &[char], n: &[char], r: &[char]) -> (out: Vec<char>)
    requires
        n@.len() > 0,
    ensures
        out@ == spec_replace(h@, n@, r@),
{
    let mut out: Vec<char> = Vec::new();
    let mut i: usize = 0;
    while i < h.len()
        invariant
            n@.len() > 0,
            i <= h@.len(),
            out@ + replace_from(h@, n@, r@, i as int) == spec_replace(h@, n@, r@),
        decreases h@.len() - i,
    {
        let ghost before = out@;
        if matches_at_exec(h, n, i) {
            let mut k: usize = 0;
            while k < r.len()
                invariant
                    k <= r@.len(),
                    out@ == before + r@.take(k as int),
                decreases r@.len() - k,
            {
                out.push(r[k]);
                k = k + 1;
                assert(out@ =~= before + r@.take(k as int));
            }
            assert(r@.take(r@.len() as int) =~= r@);
            assert(before + (r@ + replace_from(h@, n@, r@, i + n@.len())) =~= out@
                + replace_from(h@, n@, r@, i + n@.len()));
            i = i + n.len();
        } else {
            out.push(h[i]);
            assert(before + (seq![h@[i as int]] + replace_from(h@, n@, r@, i + 1)) =~= out@
                + replace_from(h@, n@, r@, i + 1));
            i = i + 1;
        }
    }
    assert(out@ + replace_from(h@, n@, r@, i as int) =~= out@);
    out
}

/// `str::replace` for a non-empty pattern.
pub fn str_replace(h: &str, n: &str, r: &str) -> (out: String)
    requires
        n@.len() > 0,
    ensures
        out@ == spec_replace(h@, n@, r@),
{
    let hv = chars_of(h);
    let nv = chars_of(n);
    let rv = chars_of(r);
    let o = replace_chars(hv.as_slice(), nv.as_slice(), rv.as_slice());
    string_of(o.as_slice())
}

/// The pieces joined with `sep` between consecutive pieces.
pub open spec fn join_with(ps: Seq<Seq<char>>, sep: Seq<char>) -> Seq<char>
    decreases ps.len(),
{
    if ps.len() == 0 {
        Seq::empty()
    } else if ps.len() == 1 {
        ps[0]
    } else {
        join_with(ps.drop_last(), sep) + sep + ps.last()
    }
}

/// Joins character vectors with `sep` between consecutive ones.
pub fn join_chars(ps: &Vec<Vec<char>>, sep: &[char]) -> (out: Vec<char>)
    ensures
        out@ == join_with(ps@.map_values(|v: Vec<char>| v@), sep@),
{
    let ghost pv = ps@.map_values(|v: Vec<char>| v@);
    let mut out: Vec<char> = Vec::new();
    let mut i: usize = 0;
    while i < ps.len()
        invariant
            i <= ps@.len(),
            pv == ps@.map_values(|v: Vec<char>| v@),
            out@ == join_with(pv.take(i as int), sep@),
        decreases ps@.len() - i,
    {
        let ghost before = out@;
        proof {
            assert(pv.take(i + 1).drop_last() =~= pv.take(i as int));
            assert(pv.take(i + 1).last() == ps@[i as int]@);
        }
        if i > 0 {
            let mut k: usize = 0;
            while k < sep.len()
                invariant
                    k <= sep@.len(),
                    out@ == before + sep@.take(k as int),
                decreases sep@.len() - k,
            {
                out.push(sep[k]);
                k = k + 1;
                assert(out@ =~= before + sep@.take(k as int));
            }
            assert(sep@.take(sep@.len() as int) =~= sep@);
        }
        let ghost mid = out@;
        let p = &ps[i];
        let mut k: usize = 0;
        while k < p.len()
            invariant
                k <= p@.len(),
                out@ == mid + p@.take(k as int),
            decreases p@.len() - k,
        {
            out.push(p[k]);
            k = k + 1;
            assert(out@ =~= mid + p@.take(k as int));
        }
        assert(p@.take(p@.len() as int) =~= p@);
        if i == 0 {
            assert(out@ =~= join_with(pv.take(1), sep@));
        }
        i = i + 1;
    }
    assert(pv.take(pv.len() as int) =~= pv);
    out
}


/// The digit character of a value below 16 (lower-case letters from 10).
pub open spec fn digit_char(d: nat) -> char {
    if d == 0 { '0' } else if d == 1 { '1' } else if d == 2 { '2' } else if d == 3 { '3' }
    else if d == 4 { '4' } else if d == 5 { '5' } else if d == 6 { '6' } else if d == 7 { '7' }
    else if d == 8 { '8' } else if d == 9 { '9' } else if d == 10 { 'a' } else if d == 11 { 'b' }
    else if d == 12 { 'c' } else if d == 13 { 'd' } else if d == 14 { 'e' } else { 'f' }
}

/// The digits of `n` in base `b` (2 to 16), most significant first, with
/// no leading zeros (`"0"` for zero).
pub open spec fn digits_in_base(n: nat, b: nat) -> Seq<char>
    recommends
        2 <= b <= 16,
    decreases n,
{
    if n < b || b < 2 {
        seq![digit_char(n)]
    } else {
        proof {
            assert(n / b < n) by (nonlinear_arith)
                requires
                    n >= b,
                    b >= 2,
            ;
        }
        digits_in_base(n / b, b).push(digit_char(n % b))
    }
}

/// Decimal text of an integer, with a leading `-` when negative (what
/// `format!("{}", n)` gives).
pub open spec fn int_text(n: int) -> Seq<char> {
    if n < 0 {
        seq!['-'] + digits_in_base((-n) as nat, 10)
    } else {
        digits_in_base(n as nat, 10)
    }
}

fn digit_of(d: u64) -> (c: char)
    requires
        d < 16,
    ensures
        c == digit_char(d as nat),
{
    if d == 0 { '0' } else if d == 1 { '1' } else if d == 2 { '2' } else if d == 3 { '3' }
    else if d == 4 { '4' } else if d == 5 { '5' } else if d == 6 { '6' } else if d == 7 { '7' }
    else if d == 8 { '8' } else if d == 9 { '9' } else if d == 10 { 'a' } else if d == 11 { 'b' }
    else if d == 12 { 'c' } else if d == 13 { 'd' } else if d == 14 { 'e' } else { 'f' }
}

/// Appends the digits of `n` in base `b` to `out`.
pub fn push_digits(out: &mut Vec<char>, n: u64, b: u64)
    requires
        2 <= b <= 16,
    ensures
        final(out)@ == old(out)@ + digits_in_base(n as nat, b as nat),
    decreases n,
{
    proof {
        if n < b {
            assert(n % b == n) by (nonlinear_arith)
                requires
                    n < b,
            ;
        } else {
            assert(n / b < n) by (nonlinear_arith)
                requires
                    n >= b,
                    b >= 2,
            ;
        }
    }
    if n >= b {
        push_digits(out, n / b, b);
    }
    out.push(digit_of(n % b));
}

/// Decimal text of an unsigned integer.
pub fn u64_text(n: u64) -> (r: String)
    ensures
        r@ == digits_in_base(n as nat, 10),
{
    let mut v: Vec<char> = Vec::new();
    push_digits(&mut v, n, 10);
    assert(v@ =~= digits_in_base(n as nat, 10));
    string_of(v.as_slice())
}

/// Decimal text of a signed integer (see [`int_text`]).
pub fn i64_text(n: i64) -> (r: String)
    ensures
        r@ == int_text(n as int),
{
    let mut v: Vec<char> = Vec::new();
    if n < 0 {
        v.push('-');
        let m: u64 = if n == i64::MIN { 9_223_372_036_854_775_808u64 } else { (-n) as u64 };
        push_digits(&mut v, m, 10);
        assert(v@ =~= int_text(n as int));
    } else {
        push_digits(&mut v, n as u64, 10);
        assert(v@ =~= int_text(n as int));
    }
    string_of(v.as_slice())
}

/// The pieces of `s` between whitespace characters (always at least one).
pub open spec fn split_ws(s: Seq<char>) -> Seq<Seq<char>>
    decreases s.len(),
{
    if s.len() == 0 {
        seq![Seq::empty()]
    } else if is_ws(s.last()) {
        split_ws(s.drop_last()).push(Seq::empty())
    } else {
        let p = split_ws(s.drop_last());
        p.update(p.len() - 1, p.last().push(s.last()))
    }
}

/// The non-empty pieces of a sequence of pieces.
pub open spec fn nonempty_pieces(ps: Seq<Seq<char>>) -> Seq<Seq<char>>
    decreases ps.len(),
{
    if ps.len() == 0 {
        ps
    } else if ps.last().len() > 0 {
        nonempty_pieces(ps.drop_last()).push(ps.last())
    } else {
        nonempty_pieces(ps.drop_last())
    }
}

/// The whitespace-separated words of `s` (what `str::split_whitespace` yields).
pub open spec fn ws_words(s: Seq<char>) -> Seq<Seq<char>> {
    nonempty_pieces(split_ws(s))
}

proof fn lemma_split_ws_nonempty(s: Seq<char>)
    ensures
        split_ws(s).len() >= 1,
    decreases s.len(),
{
    if s.len() > 0 {
        lemma_split_ws_nonempty(s.drop_last());
    }
}

/// The whitespace-separated words of `s` (see [`ws_words`]).
pub fn words_of(s: &[char]) -> (r: Vec<Vec<char>>)
    ensures
        r@.map_values(|v: Vec<char>| v@) == ws_words(s@),
{
    let mut words: Vec<Vec<char>> = Vec::new();
    let mut cur: Vec<char> = Vec::new();
    let mut i: usize = 0;
    while i < s.len()
        invariant
            i <= s@.len(),
            split_ws(s@.take(i as int)).len() >= 1,
            cur@ == split_ws(s@.take(i as int)).last(),
            words@.map_values(|v: Vec<char>| v@) == nonempty_pieces(
                split_ws(s@.take(i as int)).drop_last(),
            ),
        decreases s@.len() - i,
    {
        let ghost ps = split_ws(s@.take(i as int));
        proof {
            assert(s@.take(i + 1).drop_last() =~= s@.take(i as int));
            assert(s@.take(i + 1).last() == s@[i as int]);
            lemma_split_ws_nonempty(s@.take(i + 1));
        }
        if is_ws_exec(s[i]) {
            let ghost before = words@.map_values(|v: Vec<char>| v@);
            if cur.len() > 0 {
                let mut done: Vec<char> = Vec::new();
                std::mem::swap(&mut done, &mut cur);
                words.push(done);
                assert(words@.map_values(|v: Vec<char>| v@) =~= before.push(ps.last()));
            } else {
                let mut done: Vec<char> = Vec::new();
                std::mem::swap(&mut done, &mut cur);
            }
            assert(split_ws(s@.take(i + 1)).drop_last() =~= ps);
        } else {
            cur.push(s[i]);
            assert(split_ws(s@.take(i + 1)).drop_last() =~= ps.drop_last());
        }
        i = i + 1;
    }
    assert(s@.take(s@.len() as int) =~= s@);
    let ghost ps = split_ws(s@);
    let ghost before = words@.map_values(|v: Vec<char>| v@);
    if cur.len() > 0 {
        words.push(cur);
        assert(words@.map_values(|v: Vec<char>| v@) =~= before.push(ps.last()));
    }
    assert(ps.drop_last().push(ps.last()) =~= ps);
    words
}


/// The characters of `s` from position `a` up to (not including) `b`.
pub fn sub_chars(s: &[char], a: usize, b: usize) -> (r: Vec<char>)
    requires
        a <= b <= s@.len(),
    ensures
        r@ == s@.subrange(a as int, b as int),
{
    let mut r: Vec<char> = Vec::new();
    let mut i: usize = a;
    while i < b
        invariant
            a <= i <= b <= s@.len(),
            r@ == s@.subrange(a as int, i as int),
        decreases b - i,
    {
        r.push(s[i]);
        i = i + 1;
        assert(r@ =~= s@.subrange(a as int, i as int));
    }
    r
}


/// Every piece kept by [`nonempty_pieces`] is non-empty.
pub proof fn lemma_nonempty_pieces(ps: Seq<Seq<char>>)
    ensures
        forall|i: int| 0 <= i < nonempty_pieces(ps).len() ==> (#[trigger] nonempty_pieces(ps)[i]).len() > 0,
    decreases ps.len(),
{
    if ps.len() > 0 {
        lemma_nonempty_pieces(ps.drop_last());
        let prev = nonempty_pieces(ps.drop_last());
        if ps.last().len() > 0 {
            assert forall|i: int| 0 <= i < prev.push(ps.last()).len() implies (#[trigger] prev.push(
                ps.last(),
            )[i]).len() > 0 by {
                if i < prev.len() {
                    assert(prev.push(ps.last())[i] == prev[i]);
                }
            }
        }
    }
}

} // verus!
