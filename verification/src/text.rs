//! Byte-level text operations that the directive grammar and the matcher are
//! stated over: searching, trimming, case-insensitive comparison, prefixes and
//! substrings. All input is treated as UTF-8 bytes; nothing here requires it to
//! be valid.

use vstd::prelude::*;

verus! {

/// Index of the first occurrence of `d` in `s`, or `s.len()` if there is none.
pub open spec fn first_index(s: Seq<u8>, d: u8) -> int
    decreases s.len(),
{
    if s.len() == 0 {
        0
    } else if s[0] == d {
        0
    } else {
        1 + first_index(s.skip(1), d)
    }
}

/// What `first_index` means: it stays in range, nothing before it is `d`, and
/// unless it ran off the end it points at `d`.
pub proof fn lemma_first_index(s: Seq<u8>, d: u8)
    ensures
        0 <= first_index(s, d) <= s.len(),
        forall|j: int| 0 <= j < first_index(s, d) ==> s[j] != d,
        first_index(s, d) < s.len() ==> s[first_index(s, d)] == d,
    decreases s.len(),
{
    if s.len() != 0 && s[0] != d {
        let t = s.skip(1);
        lemma_first_index(t, d);
        let r = first_index(t, d);
        assert forall|j: int| 0 <= j < 1 + r implies s[j] != d by {
            if j > 0 {
                assert(t[j - 1] == s[j]);
            }
        }
        if 1 + r < s.len() {
            assert(t[r] == s[1 + r]);
        }
    }
}

/// The three properties of `lemma_first_index` determine the index.
pub proof fn lemma_first_index_is(s: Seq<u8>, d: u8, i: int)
    requires
        0 <= i <= s.len(),
        forall|j: int| 0 <= j < i ==> s[j] != d,
        i < s.len() ==> s[i] == d,
    ensures
        first_index(s, d) == i,
{
    lemma_first_index(s, d);
    let r = first_index(s, d);
    if r < i {
        assert(s[r] != d);
    } else if i < r {
        assert(s[i] == d);
    }
}

/// Finds the first `d` in `s[from..to]`; returns `to` if there is none.
pub fn find_byte(s: &[u8], from: usize, to: usize, d: u8) -> (i: usize)
    requires
        from <= to <= s.len(),
    ensures
        from <= i <= to,
        i - from == first_index(s@.subrange(from as int, to as int), d),
{
    let mut i: usize = from;
    while i < to && s[i] != d
        invariant
            from <= i <= to <= s.len(),
            forall|j: int| from <= j < i ==> s@[j] != d,
        decreases to - i,
    {
        i += 1;
    }
    proof {
        lemma_first_index_is(s@.subrange(from as int, to as int), d, i - from);
    }
    i
}

/// A one-byte whitespace character: U+0009..U+000D and U+0020.
pub open spec fn is_ws1(a: u8) -> bool {
    (0x09 <= a <= 0x0d) || a == 0x20
}

/// A two-byte whitespace character: U+0085 and U+00A0.
pub open spec fn is_ws2(a: u8, b: u8) -> bool {
    a == 0xc2 && (b == 0x85 || b == 0xa0)
}

/// A three-byte whitespace character: U+1680, U+2000..U+200A, U+2028, U+2029,
/// U+202F, U+205F and U+3000.
pub open spec fn is_ws3(a: u8, b: u8, c: u8) -> bool {
    ||| a == 0xe1 && b == 0x9a && c == 0x80
    ||| a == 0xe2 && b == 0x80 && ((0x80 <= c <= 0x8a) || c == 0xa8 || c == 0xa9 || c == 0xaf)
    ||| a == 0xe2 && b == 0x81 && c == 0x9f
    ||| a == 0xe3 && b == 0x80 && c == 0x80
}

/// Length in bytes of the whitespace character that `s` starts with, 0 if it
/// starts with none.
pub open spec fn leading_ws(s: Seq<u8>) -> int {
    if s.len() >= 1 && is_ws1(s[0]) {
        1
    } else if s.len() >= 2 && is_ws2(s[0], s[1]) {
        2
    } else if s.len() >= 3 && is_ws3(s[0], s[1], s[2]) {
        3
    } else {
        0
    }
}

/// Length in bytes of the whitespace character that `s` ends with, 0 if it ends
/// with none.
pub open spec fn trailing_ws(s: Seq<u8>) -> int {
    let n = s.len() as int;
    if n >= 1 && is_ws1(s[n - 1]) {
        1
    } else if n >= 2 && is_ws2(s[n - 2], s[n - 1]) {
        2
    } else if n >= 3 && is_ws3(s[n - 3], s[n - 2], s[n - 1]) {
        3
    } else {
        0
    }
}

/// `s` without the whitespace characters it starts with.
pub open spec fn trim_start(s: Seq<u8>) -> Seq<u8>
    decreases s.len(),
{
    let n = leading_ws(s);
    if n == 0 {
        s
    } else {
        trim_start(s.skip(n))
    }
}

/// `s` without the whitespace characters it ends with.
pub open spec fn trim_end(s: Seq<u8>) -> Seq<u8>
    decreases s.len(),
{
    let n = trailing_ws(s);
    if n == 0 {
        s
    } else {
        trim_end(s.take(s.len() - n))
    }
}

/// `s` without surrounding whitespace.
pub open spec fn trim(s: Seq<u8>) -> Seq<u8> {
    trim_end(trim_start(s))
}

proof fn lemma_trim_start(s: Seq<u8>)
    ensures
        leading_ws(trim_start(s)) == 0,
        trim_start(s).len() <= s.len(),
        trailing_ws(s) == 0 ==> trailing_ws(trim_start(s)) == 0 || trim_start(s).len() == 0,
    decreases s.len(),
{
    let n = leading_ws(s);
    if n != 0 {
        let t = s.skip(n);
        lemma_trim_start(t);
        if trailing_ws(s) == 0 && t.len() > 0 {
            let len = s.len() as int;
            let m = t.len() as int;
            assert(t[m - 1] == s[len - 1]);
            if m >= 2 {
                assert(t[m - 2] == s[len - 2]);
            }
            if m >= 3 {
                assert(t[m - 3] == s[len - 3]);
            }
        }
    }
}

proof fn lemma_trim_end(s: Seq<u8>)
    ensures
        trailing_ws(trim_end(s)) == 0,
        trim_end(s).len() <= s.len(),
        leading_ws(s) == 0 ==> leading_ws(trim_end(s)) == 0,
    decreases s.len(),
{
    let n = trailing_ws(s);
    if n != 0 {
        let t = s.take(s.len() - n);
        lemma_trim_end(t);
        if leading_ws(s) == 0 {
            if t.len() >= 1 {
                assert(t[0] == s[0]);
            }
            if t.len() >= 2 {
                assert(t[1] == s[1]);
            }
            if t.len() >= 3 {
                assert(t[2] == s[2]);
            }
        }
    }
}

/// What is left after trimming neither starts nor ends with a whitespace
/// character, and trimming it again changes nothing.
pub proof fn law_trimmed_is_trim(s: Seq<u8>)
    ensures
        leading_ws(trim(s)) == 0,
        trailing_ws(trim(s)) == 0,
        trim(trim(s)) == trim(s),
        trim(s).len() <= s.len(),
{
    lemma_trim_start(s);
    lemma_trim_end(trim_start(s));
}

fn leading_ws_at(s: &[u8], lo: usize, hi: usize) -> (n: usize)
    requires
        lo <= hi <= s.len(),
    ensures
        n == leading_ws(s@.subrange(lo as int, hi as int)),
        n <= hi - lo,
{
    let len: usize = hi - lo;
    if len >= 1 {
        let a: u8 = s[lo];
        if (0x09 <= a && a <= 0x0d) || a == 0x20 {
            return 1;
        }
        if len >= 2 {
            let b: u8 = s[lo + 1];
            if a == 0xc2 && (b == 0x85 || b == 0xa0) {
                return 2;
            }
            if len >= 3 {
                let c: u8 = s[lo + 2];
                if (a == 0xe1 && b == 0x9a && c == 0x80) || (a == 0xe2 && b == 0x80 && ((0x80 <= c
                    && c <= 0x8a) || c == 0xa8 || c == 0xa9 || c == 0xaf)) || (a == 0xe2 && b
                    == 0x81 && c == 0x9f) || (a == 0xe3 && b == 0x80 && c == 0x80) {
                    return 3;
                }
            }
        }
    }
    0
}

fn trailing_ws_at(s: &[u8], lo: usize, hi: usize) -> (n: usize)
    requires
        lo <= hi <= s.len(),
    ensures
        n == trailing_ws(s@.subrange(lo as int, hi as int)),
        n <= hi - lo,
{
    let len: usize = hi - lo;
    if len >= 1 {
        let c: u8 = s[hi - 1];
        if (0x09 <= c && c <= 0x0d) || c == 0x20 {
            return 1;
        }
        if len >= 2 {
            let b: u8 = s[hi - 2];
            if b == 0xc2 && (c == 0x85 || c == 0xa0) {
                return 2;
            }
            if len >= 3 {
                let a: u8 = s[hi - 3];
                if (a == 0xe1 && b == 0x9a && c == 0x80) || (a == 0xe2 && b == 0x80 && ((0x80 <= c
                    && c <= 0x8a) || c == 0xa8 || c == 0xa9 || c == 0xaf)) || (a == 0xe2 && b
                    == 0x81 && c == 0x9f) || (a == 0xe3 && b == 0x80 && c == 0x80) {
                    return 3;
                }
            }
        }
    }
    0
}

/// Trims `s[from..to]`: returns the bounds of what is left.
pub fn trim_range(s: &[u8], from: usize, to: usize) -> (r: (usize, usize))
    requires
        from <= to <= s.len(),
    ensures
        from <= r.0 <= r.1 <= to,
        s@.subrange(r.0 as int, r.1 as int) == trim(s@.subrange(from as int, to as int)),
{
    let mut lo: usize = from;
    loop
        invariant
            from <= lo <= to <= s.len(),
            trim_start(s@.subrange(from as int, to as int)) == trim_start(
                s@.subrange(lo as int, to as int),
            ),
        ensures
            from <= lo <= to,
            trim_start(s@.subrange(from as int, to as int)) == s@.subrange(lo as int, to as int),
        decreases to - lo,
    {
        let n: usize = leading_ws_at(s, lo, to);
        if n == 0 {
            break ;
        }
        assert(s@.subrange(lo as int, to as int).skip(n as int) == s@.subrange(
            lo + n as int,
            to as int,
        ));
        lo += n;
    }
    let mut hi: usize = to;
    loop
        invariant
            lo <= hi <= to <= s.len(),
            trim_end(s@.subrange(lo as int, to as int)) == trim_end(
                s@.subrange(lo as int, hi as int),
            ),
        ensures
            lo <= hi <= to,
            trim_end(s@.subrange(lo as int, to as int)) == s@.subrange(lo as int, hi as int),
        decreases hi - lo,
    {
        let n: usize = trailing_ws_at(s, lo, hi);
        if n == 0 {
            break ;
        }
        assert(s@.subrange(lo as int, hi as int).take(hi - lo - n) == s@.subrange(
            lo as int,
            hi - n as int,
        ));
        hi -= n;
    }
    (lo, hi)
}

/// The lower-case form of an ASCII letter; every other byte is left alone.
pub open spec fn ascii_lower(b: u8) -> u8 {
    if 0x41 <= b <= 0x5a {
        (b + 0x20) as u8
    } else {
        b
    }
}

/// Equality that ignores the case of ASCII letters.
pub open spec fn eq_ignore_ascii_case(a: Seq<u8>, b: Seq<u8>) -> bool {
    &&& a.len() == b.len()
    &&& forall|i: int| 0 <= i < a.len() ==> ascii_lower(a[i]) == ascii_lower(b[i])
}

fn lower(b: u8) -> (r: u8)
    ensures
        r == ascii_lower(b),
{
    if 0x41 <= b && b <= 0x5a {
        b + 0x20
    } else {
        b
    }
}

/// Compares `s[from..to]` with `word`, ignoring the case of ASCII letters.
pub fn range_eq_ignore_ascii_case(s: &[u8], from: usize, to: usize, word: &[u8]) -> (r: bool)
    requires
        from <= to <= s.len(),
    ensures
        r == eq_ignore_ascii_case(s@.subrange(from as int, to as int), word@),
{
    if to - from != word.len() {
        return false;
    }
    let ghost a = s@.subrange(from as int, to as int);
    let mut i: usize = 0;
    while i < word.len()
        invariant
            from <= to <= s.len(),
            to - from == word.len(),
            i <= word.len(),
            a == s@.subrange(from as int, to as int),
            forall|j: int| 0 <= j < i ==> ascii_lower(a[j]) == ascii_lower(word@[j]),
        decreases word.len() - i,
    {
        if lower(s[from + i]) != lower(word[i]) {
            assert(ascii_lower(a[i as int]) != ascii_lower(word@[i as int]));
            return false;
        }
        i += 1;
    }
    true
}

/// Whether `s` begins with `p`. The empty sequence is a prefix of everything.
pub fn starts_with(s: &[u8], p: &[u8]) -> (r: bool)
    ensures
        r == p@.is_prefix_of(s@),
{
    if p.len() > s.len() {
        return false;
    }
    let mut i: usize = 0;
    while i < p.len()
        invariant
            i <= p.len() <= s.len(),
            forall|j: int| 0 <= j < i ==> s@[j] == p@[j],
        decreases p.len() - i,
    {
        if s[i] != p[i] {
            return false;
        }
        i += 1;
    }
    assert(p@ =~= s@.subrange(0, p@.len() as int));
    true
}

/// Whether `needle` occurs somewhere in `hay`. The empty sequence occurs in
/// everything.
pub open spec fn contains_bytes(hay: Seq<u8>, needle: Seq<u8>) -> bool {
    exists|i: int| occurs_at(hay, needle, i)
}

/// Whether `needle` occurs in `hay` at offset `i`.
pub open spec fn occurs_at(hay: Seq<u8>, needle: Seq<u8>, i: int) -> bool {
    &&& 0 <= i
    &&& i + needle.len() <= hay.len()
    &&& hay.subrange(i, i + needle.len()) == needle
}

fn matches_at(hay: &[u8], needle: &[u8], at: usize) -> (r: bool)
    requires
        at + needle.len() <= hay.len(),
    ensures
        r == occurs_at(hay@, needle@, at as int),
{
    let mut j: usize = 0;
    while j < needle.len()
        invariant
            j <= needle.len(),
            at + needle.len() <= hay.len(),
            forall|k: int| 0 <= k < j ==> hay@[at + k] == needle@[k],
        decreases needle.len() - j,
    {
        if hay[at + j] != needle[j] {
            assert(hay@.subrange(at as int, at + needle@.len())[j as int] != needle@[j as int]);
            return false;
        }
        j += 1;
    }
    assert(hay@.subrange(at as int, at + needle@.len()) =~= needle@);
    true
}

/// Searches `hay` for `needle`.
pub fn contains(hay: &[u8], needle: &[u8]) -> (r: bool)
    ensures
        r == contains_bytes(hay@, needle@),
{
    if needle.len() > hay.len() {
        return false;
    }
    let last: usize = hay.len() - needle.len();
    let mut i: usize = 0;
    loop
        invariant
            last == hay.len() - needle.len(),
            i <= last,
            forall|k: int| 0 <= k < i ==> !occurs_at(hay@, needle@, k),
        decreases last - i,
    {
        if matches_at(hay, needle, i) {
            return true;
        }
        if i == last {
            return false;
        }
        i += 1;
    }
}

/// Copies `s[from..to]` into a vector of its own.
pub fn copy_range(s: &[u8], from: usize, to: usize) -> (v: Vec<u8>)
    requires
        from <= to <= s.len(),
    ensures
        v@ == s@.subrange(from as int, to as int),
{
    let mut v: Vec<u8> = Vec::new();
    let mut i: usize = from;
    while i < to
        invariant
            from <= i <= to <= s.len(),
            v@ == s@.subrange(from as int, i as int),
        decreases to - i,
    {
        v.push(s[i]);
        assert(v@ =~= s@.subrange(from as int, i + 1));
        i += 1;
    }
    v
}

} // verus!
