//! Character-level helpers on strings, stated over `Seq<char>` views.
use vstd::prelude::*;

verus! {

/// Appends one character to a string (std's `String::push`).
/// Trusted: the new contents are the old ones followed by `c`.
#[verifier::external_body]
pub(crate) fn push_char(s: &mut String, c: char)
    ensures
        final(s)@ == old(s)@.push(c),
{
    s.push(c);
}

/// The characters of a string slice, in order.
pub fn chars_of(s: &str) -> (v: Vec<char>)
    ensures
        v@ == s@,
{
    let mut v: Vec<char> = Vec::new();
    for c in it: s.chars()
        invariant
            v@ == it.seq().take(it.index() as int),
    {
        v.push(c);
    }
    v
}

/// Builds a string from the characters `v[lo..hi]`.
pub fn string_of_range(v: &Vec<char>, lo: usize, hi: usize) -> (s: String)
    requires
        lo <= hi <= v.len(),
    ensures
        s@ == v@.subrange(lo as int, hi as int),
{
    let mut s = String::new();
    let mut i = lo;
    while i < hi
        invariant
            lo <= i <= hi <= v.len(),
            s@ == v@.subrange(lo as int, i as int),
        decreases hi - i,
    {
        push_char(&mut s, v[i]);
        i = i + 1;
        assert(s@ =~= v@.subrange(lo as int, i as int));
    }
    s
}

/// Builds a string from all characters of `v`.
pub fn string_of(v: &Vec<char>) -> (s: String)
    ensures
        s@ == v@,
{
    let s = string_of_range(v, 0, v.len());
    assert(v@.subrange(0, v@.len() as int) =~= v@);
    s
}

/// Appends the contents of `t` to `s`.
pub fn push_text(s: &mut String, t: &str)
    ensures
        final(s)@ == old(s)@ + t@,
{
    s.append(t);
}

/// Whether two strings have the same characters.
pub fn same_text(a: &str, b: &str) -> (r: bool)
    ensures
        r == (a@ == b@),
{
    let va = chars_of(a);
    let vb = chars_of(b);
    if va.len() != vb.len() {
        return false;
    }
    let mut i: usize = 0;
    while i < va.len()
        invariant
            i <= va@.len(),
            va@.len() == vb@.len(),
            va@ == a@,
            vb@ == b@,
            forall|j: int| 0 <= j < i ==> va@[j] == vb@[j],
        decreases va.len() - i,
    {
        if va[i] != vb[i] {
            return false;
        }
        i = i + 1;
    }
    assert(va@ =~= vb@);
    true
}

/// Unicode `White_Space`, the set that `char::is_whitespace` documents.
pub open spec fn is_ws(c: char) -> bool {
    ||| ('\t' <= c && c <= '\r')
    ||| c == ' '
    ||| c == '\u{85}'
    ||| c == '\u{a0}'
    ||| c == '\u{1680}'
    ||| ('\u{2000}' <= c && c <= '\u{200a}')
    ||| c == '\u{2028}'
    ||| c == '\u{2029}'
    ||| c == '\u{202f}'
    ||| c == '\u{205f}'
    ||| c == '\u{3000}'
}

/// Whitespace test on one character.
pub fn char_is_ws(c: char) -> (r: bool)
    ensures
        r == is_ws(c),
{
    ('\t' <= c && c <= '\r') || c == ' ' || c == '\u{85}' || c == '\u{a0}' || c == '\u{1680}'
        || ('\u{2000}' <= c && c <= '\u{200a}') || c == '\u{2028}' || c == '\u{2029}'
        || c == '\u{202f}' || c == '\u{205f}' || c == '\u{3000}'
}

/// `s` without its leading whitespace.
pub open spec fn trim_start(s: Seq<char>) -> Seq<char>
    decreases s.len(),
{
    if s.len() > 0 && is_ws(s[0]) {
        trim_start(s.drop_first())
    } else {
        s
    }
}

/// `s` without its trailing whitespace.
pub open spec fn trim_end(s: Seq<char>) -> Seq<char>
    decreases s.len(),
{
    if s.len() > 0 && is_ws(s.last()) {
        trim_end(s.drop_last())
    } else {
        s
    }
}

/// `s` without leading and trailing whitespace (std's `str::trim`).
pub open spec fn trim(s: Seq<char>) -> Seq<char> {
    trim_end(trim_start(s))
}

/// Index of the first character of `v` from `lo` on that is not whitespace.
fn skip_ws_forward(v: &Vec<char>, lo: usize) -> (k: usize)
    requires
        lo <= v.len(),
    ensures
        lo <= k <= v.len(),
        trim_start(v@.skip(lo as int)) == v@.skip(k as int),
{
    let mut k = lo;
    while k < v.len() && char_is_ws(v[k])
        invariant
            lo <= k <= v.len(),
            trim_start(v@.skip(lo as int)) == trim_start(v@.skip(k as int)),
        decreases v.len() - k,
    {
        assert(v@.skip(k as int).drop_first() =~= v@.skip(k + 1));
        k = k + 1;
    }
    k
}

/// End index of `v[lo..hi]` once its trailing whitespace is dropped.
fn skip_ws_backward(v: &Vec<char>, lo: usize, hi: usize) -> (k: usize)
    requires
        lo <= hi <= v.len(),
    ensures
        lo <= k <= hi,
        trim_end(v@.subrange(lo as int, hi as int)) == v@.subrange(lo as int, k as int),
{
    let mut k = hi;
    while k > lo && char_is_ws(v[k - 1])
        invariant
            lo <= k <= hi <= v.len(),
            trim_end(v@.subrange(lo as int, hi as int)) == trim_end(
                v@.subrange(lo as int, k as int),
            ),
        decreases k,
    {
        assert(v@.subrange(lo as int, k as int).drop_last() =~= v@.subrange(
            lo as int,
            k - 1,
        ));
        k = k - 1;
    }
    k
}

/// std's `str::trim`: the text without leading and trailing whitespace.
pub fn trim_text(s: &str) -> (r: String)
    ensures
        r@ == trim(s@),
{
    let v = chars_of(s);
    assert(v@.skip(0) =~= v@);
    let lo = skip_ws_forward(&v, 0);
    assert(v@.skip(lo as int) =~= v@.subrange(lo as int, v@.len() as int));
    let hi = skip_ws_backward(&v, lo, v.len());
    string_of_range(&v, lo, hi)
}

/// std's `str::trim_end`: the text without trailing whitespace.
pub fn trim_end_text(s: &str) -> (r: String)
    ensures
        r@ == trim_end(s@),
{
    let v = chars_of(s);
    assert(v@.subrange(0, v@.len() as int) =~= v@);
    let hi = skip_ws_backward(&v, 0, v.len());
    string_of_range(&v, 0, hi)
}

/// Whether `needle` occurs in `hay` at position `k`.
pub open spec fn occurs_at(hay: Seq<char>, needle: Seq<char>, k: int) -> bool {
    0 <= k && k + needle.len() <= hay.len() && hay.subrange(k, k + needle.len()) == needle
}

/// Whether `needle` occurs in `hay` (std's `str::contains` with a string pattern).
pub open spec fn has_sub(hay: Seq<char>, needle: Seq<char>) -> bool {
    exists|k: int| occurs_at(hay, needle, k)
}

fn occurs_at_exec(hay: &Vec<char>, needle: &Vec<char>, k: usize) -> (r: bool)
    requires
        k + needle.len() <= hay.len(),
    ensures
        r == occurs_at(hay@, needle@, k as int),
{
    let mut j: usize = 0;
    while j < needle.len()
        invariant
            j <= needle.len(),
            k + needle.len() <= hay.len(),
            forall|m: int| 0 <= m < j ==> hay@[k + m] == needle@[m],
        decreases needle.len() - j,
    {
        if hay[k + j] != needle[j] {
            assert(hay@.subrange(k as int, k + needle.len())[j as int] != needle@[j as int]);
            return false;
        }
        j = j + 1;
    }
    assert(hay@.subrange(k as int, k + needle.len()) =~= needle@);
    true
}

/// std's `str::contains` with a string pattern.
pub fn contains_text(hay: &str, needle: &str) -> (r: bool)
    ensures
        r == has_sub(hay@, needle@),
{
    let h = chars_of(hay);
    let n = chars_of(needle);
    if n.len() > h.len() {
        return false;
    }
    let last = h.len() - n.len();
    let mut k: usize = 0;
    loop
        invariant
            h@ == hay@,
            n@ == needle@,
            last == h@.len() - n@.len(),
            k <= last,
            forall|m: int| 0 <= m < k ==> !occurs_at(hay@, needle@, m),
        decreases last - k,
    {
        if occurs_at_exec(&h, &n, k) {
            return true;
        }
        if k == last {
            assert forall|m: int| !occurs_at(hay@, needle@, m) by {
                if 0 <= m && m + needle@.len() <= hay@.len() && m != k {
                    assert(m < k);
                }
            }
            return false;
        }
        k = k + 1;
    }
}

/// Whether `c` occurs in `s`.
pub open spec fn has_char(s: Seq<char>, c: char) -> bool {
    exists|i: int| 0 <= i < s.len() && s[i] == c
}

/// Whether `c` occurs in `s` (std's `str::contains` with a `char` pattern).
pub fn contains_char(s: &str, c: char) -> (r: bool)
    ensures
        r == has_char(s@, c),
{
    let v = chars_of(s);
    let mut i: usize = 0;
    while i < v.len()
        invariant
            i <= v@.len(),
            v@ == s@,
            forall|j: int| 0 <= j < i ==> v@[j] != c,
        decreases v.len() - i,
    {
        if v[i] == c {
            return true;
        }
        i = i + 1;
    }
    false
}

/// The decimal digit for `d < 10`.
pub open spec fn digit(d: nat) -> char {
    if d == 0 { '0' }
    else if d == 1 { '1' }
    else if d == 2 { '2' }
    else if d == 3 { '3' }
    else if d == 4 { '4' }
    else if d == 5 { '5' }
    else if d == 6 { '6' }
    else if d == 7 { '7' }
    else if d == 8 { '8' }
    else { '9' }
}

/// The decimal numeral of `n`, without leading zeros (as `format!("{}", n)` writes it).
pub open spec fn decimal(n: nat) -> Seq<char>
    decreases n,
{
    if n < 10 {
        seq![digit(n)]
    } else {
        decimal(n / 10).push(digit(n % 10))
    }
}

fn digit_char(d: usize) -> (c: char)
    requires
        d < 10,
    ensures
        c == digit(d as nat),
{
    if d == 0 { '0' }
    else if d == 1 { '1' }
    else if d == 2 { '2' }
    else if d == 3 { '3' }
    else if d == 4 { '4' }
    else if d == 5 { '5' }
    else if d == 6 { '6' }
    else if d == 7 { '7' }
    else if d == 8 { '8' }
    else { '9' }
}

/// The decimal numeral of `n`.
pub fn decimal_string(n: usize) -> (s: String)
    ensures
        s@ == decimal(n as nat),
    decreases n,
{
    if n < 10 {
        let mut s = String::new();
        push_char(&mut s, digit_char(n));
        assert(s@ =~= seq![digit(n as nat)]);
        s
    } else {
        let mut s = decimal_string(n / 10);
        push_char(&mut s, digit_char(n % 10));
        s
    }
}

} // verus!
