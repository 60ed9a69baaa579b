//! Byte-level scanning primitives shared by the wire codec: first-occurrence
//! searches for the HTTP delimiters (`\r\n`, `\r\n\r\n`, `": "`), whitespace
//! token scanning for the request line, and byte-sequence comparison.

use vstd::prelude::*;

verus! {

/// Carriage return, the first byte of the HTTP line terminator.
pub const CR: u8 = 13;

/// Line feed, the second byte of the HTTP line terminator.
pub const LF: u8 = 10;

/// The two-byte pattern `x y` occurs in `s` at index `i`.
pub open spec fn at2(s: Seq<u8>, i: int, x: u8, y: u8) -> bool {
    0 <= i && i + 2 <= s.len() && s[i] == x && s[i + 1] == y
}

/// A `\r\n` pair occurs in `s` at index `i`.
pub open spec fn crlf_at(s: Seq<u8>, i: int) -> bool {
    at2(s, i, CR, LF)
}

/// A blank-line separator `\r\n\r\n` occurs in `s` at index `i`.
pub open spec fn blank_at(s: Seq<u8>, i: int) -> bool {
    crlf_at(s, i) && crlf_at(s, i + 2)
}

/// `s` contains no `\r\n` pair anywhere.
pub open spec fn crlf_free(s: Seq<u8>) -> bool {
    forall|i: int| !crlf_at(s, i)
}

/// Index of the first occurrence of the two-byte pattern `x y` in `s` at or
/// after `from`, or -1 if there is none.
pub open spec fn find2_from(s: Seq<u8>, from: int, x: u8, y: u8) -> int
    decreases s.len() - from,
{
    if from + 2 > s.len() {
        -1
    } else if s[from] == x && s[from + 1] == y {
        from
    } else {
        find2_from(s, from + 1, x, y)
    }
}

/// Index of the first `\r\n\r\n` in `s` at or after `from`, or -1.
pub open spec fn find_blank_from(s: Seq<u8>, from: int) -> int
    decreases s.len() - from,
{
    if from + 4 > s.len() {
        -1
    } else if s[from] == CR && s[from + 1] == LF && s[from + 2] == CR && s[from + 3] == LF {
        from
    } else {
        find_blank_from(s, from + 1)
    }
}

/// `find2_from` returns exactly the first occurrence: a match where it points,
/// and no match strictly before it.
pub proof fn lemma_find2_from(s: Seq<u8>, from: int, x: u8, y: u8)
    requires
        0 <= from,
    ensures
        ({
            let r = find2_from(s, from, x, y);
            &&& (r == -1 || r >= from)
            &&& (r == -1 ==> forall|j: int| from <= j ==> !at2(s, j, x, y))
            &&& (r >= 0 ==> from <= r && at2(s, r, x, y) && (forall|j: int|
                from <= j < r ==> !at2(s, j, x, y)))
        }),
    decreases s.len() - from,
{
    if from + 2 > s.len() {
    } else if s[from] == x && s[from + 1] == y {
    } else {
        lemma_find2_from(s, from + 1, x, y);
    }
}

/// `find_blank_from` returns exactly the first `\r\n\r\n`.
pub proof fn lemma_find_blank_from(s: Seq<u8>, from: int)
    requires
        0 <= from,
    ensures
        ({
            let r = find_blank_from(s, from);
            &&& (r == -1 || r >= from)
            &&& (r == -1 ==> forall|j: int| from <= j ==> !blank_at(s, j))
            &&& (r >= 0 ==> from <= r && blank_at(s, r) && (forall|j: int|
                from <= j < r ==> !blank_at(s, j)))
        }),
    decreases s.len() - from,
{
    if from + 4 > s.len() {
    } else if s[from] == CR && s[from + 1] == LF && s[from + 2] == CR && s[from + 3] == LF {
    } else {
        lemma_find_blank_from(s, from + 1);
    }
}

/// First occurrence of the two-byte pattern `x y` in `v` at or after `from`.
pub fn find2(v: &[u8], from: usize, x: u8, y: u8) -> (r: Option<usize>)
    requires
        from <= v@.len(),
    ensures
        match r {
            Some(i) => find2_from(v@, from as int, x, y) == i && at2(v@, i as int, x, y)
                && from <= i,
            None => find2_from(v@, from as int, x, y) == -1,
        },
{
    let n = v.len();
    let mut i = from;
    while n - i > 1
        invariant
            from <= i <= n,
            n == v@.len(),
            find2_from(v@, from as int, x, y) == find2_from(v@, i as int, x, y),
        decreases n - i,
    {
        if v[i] == x && v[i + 1] == y {
            return Some(i);
        }
        i = i + 1;
    }
    None
}

/// First occurrence of `\r\n\r\n` in `v` at or after `from`.
pub fn find_blank(v: &[u8], from: usize) -> (r: Option<usize>)
    requires
        from <= v@.len(),
    ensures
        match r {
            Some(i) => find_blank_from(v@, from as int) == i && blank_at(v@, i as int)
                && from <= i,
            None => find_blank_from(v@, from as int) == -1,
        },
{
    let n = v.len();
    let mut i = from;
    while n - i > 3
        invariant
            from <= i <= n,
            n == v@.len(),
            find_blank_from(v@, from as int) == find_blank_from(v@, i as int),
        decreases n - i,
    {
        if v[i] == CR && v[i + 1] == LF && v[i + 2] == CR && v[i + 3] == LF {
            return Some(i);
        }
        i = i + 1;
    }
    None
}

/// The byte is ASCII whitespace, as the request-line tokenizer understands it.
pub open spec fn is_ws(b: u8) -> bool {
    b == 9 || b == 10 || b == 11 || b == 12 || b == 13 || b == 32
}

/// Index of the first non-whitespace byte at or after `from`, or the length.
pub open spec fn skip_ws(s: Seq<u8>, from: int) -> int
    decreases s.len() - from,
{
    if from >= s.len() {
        s.len() as int
    } else if is_ws(s[from]) {
        skip_ws(s, from + 1)
    } else {
        from
    }
}

/// Index of the first whitespace byte at or after `from`, or the length; the
/// bytes in between form one token.
pub open spec fn skip_tok(s: Seq<u8>, from: int) -> int
    decreases s.len() - from,
{
    if from >= s.len() {
        s.len() as int
    } else if is_ws(s[from]) {
        from
    } else {
        skip_tok(s, from + 1)
    }
}

/// Everything skipped by `skip_ws` is whitespace, and it stops at the first
/// non-whitespace byte.
pub proof fn lemma_skip_ws(s: Seq<u8>, from: int)
    requires
        0 <= from <= s.len(),
    ensures
        ({
            let r = skip_ws(s, from);
            &&& from <= r <= s.len()
            &&& forall|j: int| from <= j < r ==> is_ws(s[j])
            &&& (r < s.len() ==> !is_ws(s[r]))
        }),
    decreases s.len() - from,
{
    if from >= s.len() {
    } else if is_ws(s[from]) {
        lemma_skip_ws(s, from + 1);
    }
}

/// A token delivered by `skip_tok` contains no whitespace, and it ends at the
/// first whitespace byte.
pub proof fn lemma_skip_tok(s: Seq<u8>, from: int)
    requires
        0 <= from <= s.len(),
    ensures
        ({
            let r = skip_tok(s, from);
            &&& from <= r <= s.len()
            &&& forall|j: int| from <= j < r ==> !is_ws(s[j])
            &&& (r < s.len() ==> is_ws(s[r]))
        }),
    decreases s.len() - from,
{
    if from >= s.len() {
    } else if is_ws(s[from]) {
    } else {
        lemma_skip_tok(s, from + 1);
    }
}

/// Runtime test for `is_ws`.
pub fn is_ws_byte(b: u8) -> (r: bool)
    ensures
        r == is_ws(b),
{
    b == 9 || b == 10 || b == 11 || b == 12 || b == 13 || b == 32
}

/// First non-whitespace index at or after `from`.
pub fn skip_ws_exec(v: &[u8], from: usize) -> (r: usize)
    requires
        from <= v@.len(),
    ensures
        r == skip_ws(v@, from as int),
        from <= r <= v@.len(),
{
    let n = v.len();
    let mut i = from;
    while i < n && is_ws_byte(v[i])
        invariant
            from <= i <= n,
            n == v@.len(),
            skip_ws(v@, from as int) == skip_ws(v@, i as int),
        decreases n - i,
    {
        i = i + 1;
    }
    i
}

/// First whitespace index at or after `from` (the end of the current token).
pub fn skip_tok_exec(v: &[u8], from: usize) -> (r: usize)
    requires
        from <= v@.len(),
    ensures
        r == skip_tok(v@, from as int),
        from <= r <= v@.len(),
{
    let n = v.len();
    let mut i = from;
    while i < n && !is_ws_byte(v[i])
        invariant
            from <= i <= n,
            n == v@.len(),
            skip_tok(v@, from as int) == skip_tok(v@, i as int),
        decreases n - i,
    {
        i = i + 1;
    }
    i
}

/// Byte-for-byte equality of two slices.
pub fn bytes_eq(a: &[u8], b: &[u8]) -> (r: bool)
    ensures
        r == (a@ == b@),
{
    if a.len() != b.len() {
        return false;
    }
    let mut i: usize = 0;
    while i < a.len()
        invariant
            i <= a@.len(),
            a@.len() == b@.len(),
            forall|j: int| 0 <= j < i ==> a@[j] == b@[j],
        decreases a@.len() - i,
    {
        if a[i] != b[i] {
            return false;
        }
        i = i + 1;
    }
    proof {
        assert(a@ =~= b@);
    }
    true
}

/// `p` is a prefix of `s`.
pub open spec fn has_prefix(s: Seq<u8>, p: Seq<u8>) -> bool {
    p.len() <= s.len() && s.subrange(0, p.len() as int) == p
}

/// Runtime prefix test.
pub fn starts_with(v: &[u8], p: &[u8]) -> (r: bool)
    ensures
        r == has_prefix(v@, p@),
{
    if p.len() > v.len() {
        return false;
    }
    bytes_eq(&v[0..p.len()], p)
}

/// Appends all of `s` to `out`.
pub fn push_bytes(out: &mut Vec<u8>, s: &[u8])
    ensures
        final(out)@ == old(out)@ + s@,
{
    out.extend_from_slice(s);
    proof {
        assert(out@ =~= old(out)@ + s@);
    }
}

} // verus!
