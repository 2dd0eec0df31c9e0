//! Byte-string helpers shared by the statement parsers: trimming,
//! ASCII lower-casing, and searching. Statements and stored values are
//! treated as opaque byte strings throughout the library.

use vstd::prelude::*;

verus! {

/// ASCII whitespace, as recognised when a statement is trimmed.
pub open spec fn is_space(b: u8) -> bool {
    b == 32 || (9 <= b && b <= 13)
}

/// Lower-cases one ASCII letter; every other byte is unchanged.
pub open spec fn lower_byte(b: u8) -> u8 {
    if 65 <= b && b <= 90 {
        (b + 32) as u8
    } else {
        b
    }
}

/// The byte string with each ASCII letter lower-cased.
pub open spec fn lower(s: Seq<u8>) -> Seq<u8> {
    Seq::new(s.len(), |i: int| lower_byte(s[i]))
}

/// The byte string with leading and trailing whitespace removed.
pub open spec fn trim(s: Seq<u8>) -> Seq<u8>
    decreases s.len(),
{
    if s.len() > 0 && is_space(s[0]) {
        trim(s.subrange(1, s.len() as int))
    } else if s.len() > 0 && is_space(s[s.len() - 1]) {
        trim(s.subrange(0, s.len() - 1))
    } else {
        s
    }
}

/// `trim` keeps exactly the bytes between the first and the last
/// non-whitespace byte.
proof fn lemma_trim_range(s: Seq<u8>, lo: int, hi: int)
    requires
        0 <= lo <= hi <= s.len(),
        forall|i: int| 0 <= i < lo ==> is_space(s[i]),
        forall|i: int| hi <= i < s.len() ==> is_space(s[i]),
        lo < hi ==> !is_space(s[lo]) && !is_space(s[hi - 1]),
        lo == hi ==> lo == 0 && hi == 0,
    ensures
        trim(s) == s.subrange(lo, hi),
    decreases s.len(),
{
    if s.len() > 0 && is_space(s[0]) {
        let t = s.subrange(1, s.len() as int);
        if lo == hi {
            lemma_trim_range(t, 0, 0);
            assert(t.subrange(0, 0) =~= s.subrange(lo, hi));
        } else {
            lemma_trim_range(t, lo - 1, hi - 1);
            assert(t.subrange(lo - 1, hi - 1) =~= s.subrange(lo, hi));
        }
    } else if s.len() > 0 && is_space(s[s.len() - 1]) {
        let t = s.subrange(0, s.len() - 1);
        lemma_trim_range(t, lo, hi);
        assert(t.subrange(lo, hi) =~= s.subrange(lo, hi));
    } else {
        assert(s.subrange(lo, hi) =~= s);
    }
}

/// Copies `s[lo..hi]` into a fresh vector.
pub fn copy_range(s: &[u8], lo: usize, hi: usize) -> (r: Vec<u8>)
    requires
        lo <= hi <= s@.len(),
    ensures
        r@ == s@.subrange(lo as int, hi as int),
{
    let mut r: Vec<u8> = Vec::new();
    let mut i: usize = lo;
    while i < hi
        invariant
            lo <= i <= hi <= s@.len(),
            r@ == s@.subrange(lo as int, i as int),
        decreases hi - i,
    {
        r.push(s[i]);
        assert(s@.subrange(lo as int, i + 1) =~= s@.subrange(lo as int, i as int).push(s@[i as int]));
        i = i + 1;
    }
    r
}

/// Trims ASCII whitespace from both ends of `s`.
pub fn trim_bytes(s: &[u8]) -> (r: Vec<u8>)
    ensures
        r@ == trim(s@),
{
    let n = s.len();
    let mut lo: usize = 0;
    while lo < n && (s[lo] == 32 || (9 <= s[lo] && s[lo] <= 13))
        invariant
            0 <= lo <= n == s@.len(),
            forall|i: int| 0 <= i < lo ==> is_space(s@[i]),
        decreases n - lo,
    {
        lo = lo + 1;
    }
    if lo == n {
        proof {
            lemma_trim_range(s@, 0, 0);
        }
        let r: Vec<u8> = Vec::new();
        assert(r@ =~= s@.subrange(0, 0));
        return r;
    }
    let mut hi: usize = n;
    while hi > lo + 1 && (s[hi - 1] == 32 || (9 <= s[hi - 1] && s[hi - 1] <= 13))
        invariant
            lo < hi <= n == s@.len(),
            forall|i: int| hi <= i < n ==> is_space(s@[i]),
            !is_space(s@[lo as int]),
        decreases hi,
    {
        hi = hi - 1;
    }
    proof {
        lemma_trim_range(s@, lo as int, hi as int);
    }
    copy_range(s, lo, hi)
}

/// Lower-cases every byte of `s`.
pub fn lower_bytes(s: &[u8]) -> (r: Vec<u8>)
    ensures
        r@ == lower(s@),
{
    let n = s.len();
    let mut r: Vec<u8> = Vec::new();
    let mut i: usize = 0;
    while i < n
        invariant
            0 <= i <= n == s@.len(),
            r@.len() == i,
            forall|j: int| 0 <= j < i ==> r@[j] == lower_byte(s@[j]),
        decreases n - i,
    {
        let b = s[i];
        if 65 <= b && b <= 90 {
            r.push(b + 32);
        } else {
            r.push(b);
        }
        i = i + 1;
    }
    proof {
        assert(r@ =~= lower(s@));
    }
    r
}

/// Whether the two byte strings hold the same bytes.
pub fn bytes_eq(a: &[u8], b: &[u8]) -> (r: bool)
    ensures
        r == (a@ == b@),
{
    if a.len() != b.len() {
        return false;
    }
    let n = a.len();
    let mut i: usize = 0;
    while i < n
        invariant
            0 <= i <= n,
            n == a@.len() == b@.len(),
            forall|j: int| 0 <= j < i ==> a@[j] == b@[j],
        decreases n - i,
    {
        if a[i] != b[i] {
            return false;
        }
        i = i + 1;
    }
    proof {
        assert(a@ =~= b@);
    }
    true
}

/// Whether `p` is a prefix of `s`.
pub open spec fn has_prefix(s: Seq<u8>, p: Seq<u8>) -> bool {
    p.len() <= s.len() && s.subrange(0, p.len() as int) == p
}

/// Whether the byte string `s` starts with `p`.
pub fn bytes_starts_with(s: &[u8], p: &[u8]) -> (r: bool)
    ensures
        r == has_prefix(s@, p@),
{
    let m = p.len();
    if s.len() < m {
        return false;
    }
    let mut i: usize = 0;
    while i < m
        invariant
            0 <= i <= m == p@.len(),
            m <= s@.len(),
            forall|j: int| 0 <= j < i ==> s@[j] == p@[j],
        decreases m - i,
    {
        if s[i] != p[i] {
            assert(s@.subrange(0, p@.len() as int)[i as int] == s@[i as int]);
            return false;
        }
        i = i + 1;
    }
    proof {
        assert(s@.subrange(0, p@.len() as int) =~= p@);
    }
    true
}

/// The position of the first occurrence of `b` in `s`, if any.
pub open spec fn index_of(s: Seq<u8>, b: u8) -> Option<int>
    decreases s.len(),
{
    if s.len() == 0 {
        Option::None
    } else if s[0] == b {
        Option::Some(0int)
    } else {
        match index_of(s.subrange(1, s.len() as int), b) {
            Option::Some(i) => Option::Some(i + 1),
            Option::None => Option::None,
        }
    }
}

/// `index_of` points at the first occurrence, and reports `None` only
/// when the byte does not occur.
pub proof fn lemma_index_of(s: Seq<u8>, b: u8)
    ensures
        index_of(s, b) matches Option::Some(i) ==> 0 <= i < s.len() && s[i] == b && forall|j: int|
            0 <= j < i ==> s[j] != b,
        index_of(s, b) is None ==> forall|j: int| 0 <= j < s.len() ==> s[j] != b,
    decreases s.len(),
{
    if s.len() == 0 {
    } else if s[0] == b {
    } else {
        let t = s.subrange(1, s.len() as int);
        lemma_index_of(t, b);
        assert(forall|j: int| 1 <= j < s.len() ==> s[j] == t[j - 1]);
    }
}

/// Finds the first occurrence of `b` in `s`.
pub fn find_byte(s: &[u8], b: u8) -> (r: Option<usize>)
    ensures
        r matches Option::Some(i) ==> index_of(s@, b) == Option::Some(i as int),
        r is None ==> index_of(s@, b) is None,
{
    let n = s.len();
    let mut i: usize = 0;
    while i < n
        invariant
            0 <= i <= n == s@.len(),
            forall|j: int| 0 <= j < i ==> s@[j] != b,
        decreases n - i,
    {
        if s[i] == b {
            proof {
                lemma_index_of(s@, b);
            }
            return Some(i);
        }
        i = i + 1;
    }
    proof {
        lemma_index_of(s@, b);
    }
    None
}

/// Whether the literal upper-case marker `FROM` starts at position `i`.
pub open spec fn from_at(s: Seq<u8>, i: int) -> bool {
    &&& 0 <= i
    &&& i + 4 <= s.len()
    &&& s[i] == 70
    &&& s[i + 1] == 82
    &&& s[i + 2] == 79
    &&& s[i + 3] == 77
}

/// The position of the first occurrence of `FROM` in `s`, if any.
pub open spec fn index_of_from(s: Seq<u8>) -> Option<int>
    decreases s.len(),
{
    if s.len() < 4 {
        Option::None
    } else if from_at(s, 0) {
        Option::Some(0int)
    } else {
        match index_of_from(s.subrange(1, s.len() as int)) {
            Option::Some(i) => Option::Some(i + 1),
            Option::None => Option::None,
        }
    }
}

/// `index_of_from` points at the first occurrence of `FROM`, and
/// reports `None` only when `FROM` does not occur.
pub proof fn lemma_index_of_from(s: Seq<u8>)
    ensures
        index_of_from(s) matches Option::Some(i) ==> from_at(s, i) && forall|j: int|
            0 <= j < i ==> !from_at(s, j),
        index_of_from(s) is None ==> forall|j: int| !from_at(s, j),
    decreases s.len(),
{
    if s.len() < 4 {
    } else if from_at(s, 0) {
    } else {
        let t = s.subrange(1, s.len() as int);
        lemma_index_of_from(t);
        match index_of_from(t) {
            Option::Some(i) => {
                lemma_from_at_shift(s, i + 1);
                assert forall|j: int| 0 <= j < i + 1 implies !from_at(s, j) by {
                    if j >= 1 {
                        lemma_from_at_shift(s, j);
                    }
                }
            },
            Option::None => {
                assert forall|j: int| !from_at(s, j) by {
                    if j >= 1 {
                        lemma_from_at_shift(s, j);
                    }
                }
            },
        }
    }
}

/// Dropping the first byte shifts every occurrence of `FROM` by one.
proof fn lemma_from_at_shift(s: Seq<u8>, j: int)
    requires
        1 <= j,
        1 <= s.len(),
    ensures
        from_at(s, j) <==> from_at(s.subrange(1, s.len() as int), j - 1),
{
    let t = s.subrange(1, s.len() as int);
    if j + 4 <= s.len() {
        assert(t[j - 1] == s[j]);
        assert(t[j] == s[j + 1]);
        assert(t[j + 1] == s[j + 2]);
        assert(t[j + 2] == s[j + 3]);
    }
}

/// Finds the first occurrence of the upper-case marker `FROM` in `s`.
pub fn find_from(s: &[u8]) -> (r: Option<usize>)
    ensures
        r matches Option::Some(i) ==> index_of_from(s@) == Option::Some(i as int),
        r is None ==> index_of_from(s@) is None,
{
    let n = s.len();
    if n < 4 {
        proof {
            lemma_index_of_from(s@);
        }
        return None;
    }
    let mut i: usize = 0;
    while i <= n - 4
        invariant
            0 <= i <= n - 3,
            4 <= n == s@.len(),
            forall|j: int| 0 <= j < i ==> !from_at(s@, j),
        decreases n - i,
    {
        if s[i] == 70 && s[i + 1] == 82 && s[i + 2] == 79 && s[i + 3] == 77 {
            proof {
                lemma_index_of_from(s@);
                assert(from_at(s@, i as int));
            }
            return Some(i);
        }
        i = i + 1;
    }
    proof {
        lemma_index_of_from(s@);
        assert(forall|j: int| j + 4 > s@.len() ==> !from_at(s@, j));
    }
    None
}

/// Splits `s` on commas and trims each piece. Splitting an empty
/// string yields one empty piece, as the original statement grammar
/// expects.
pub open spec fn split_commas(s: Seq<u8>) -> Seq<Seq<u8>>
    decreases s.len(),
    via split_commas_decreases
{
    match index_of(s, 44) {
        Option::None => seq![trim(s)],
        Option::Some(i) => seq![trim(s.subrange(0, i))] + split_commas(
            s.subrange(i + 1, s.len() as int),
        ),
    }
}

#[via_fn]
proof fn split_commas_decreases(s: Seq<u8>) {
    lemma_index_of(s, 44);
}

/// Splits `s[from..]` on commas and trims each piece.
pub fn split_commas_bytes(s: &[u8], from: usize) -> (r: Vec<Vec<u8>>)
    requires
        from <= s@.len(),
    ensures
        r.deep_view() == split_commas(s@.subrange(from as int, s@.len() as int)),
    decreases s@.len() - from,
{
    let n = s.len();
    let ghost sub = s@.subrange(from as int, n as int);
    let mut i: usize = from;
    while i < n && s[i] != 44
        invariant
            from <= i <= n == s@.len(),
            forall|j: int| from <= j < i ==> s@[j] != 44,
        decreases n - i,
    {
        i = i + 1;
    }
    proof {
        lemma_index_of(sub, 44);
        assert(forall|k: int| 0 <= k < sub.len() ==> sub[k] == s@[from + k]);
    }
    if i == n {
        proof {
            match index_of(sub, 44) {
                Option::Some(c) => {
                    assert(sub[c] == s@[from + c]);
                    assert(false);
                },
                Option::None => {},
            }
        }
        let piece = trim_bytes_range(s, from, n);
        let mut r: Vec<Vec<u8>> = Vec::new();
        r.push(piece);
        proof {
            assert(r.deep_view() =~~= split_commas(sub));
        }
        r
    } else {
        proof {
            assert(sub[i - from] == 44);
            match index_of(sub, 44) {
                Option::Some(c) => {
                    if c < i - from {
                        assert(sub[c] == s@[from + c]);
                        assert(false);
                    }
                    if c > i - from {
                        assert(false);
                    }
                },
                Option::None => {
                    assert(false);
                },
            }
            assert(index_of(sub, 44) == Option::Some(i - from));
        }
        let piece = trim_bytes_range(s, from, i);
        let rest = split_commas_bytes(s, i + 1);
        let mut r: Vec<Vec<u8>> = Vec::new();
        r.push(piece);
        let mut rest = rest;
        r.append(&mut rest);
        proof {
            assert(sub.subrange(0, i - from) =~= s@.subrange(from as int, i as int));
            assert(sub.subrange(i - from + 1, sub.len() as int) =~= s@.subrange(
                i + 1,
                s@.len() as int,
            ));
            assert(r.deep_view() =~~= split_commas(sub));
        }
        r
    }
}

/// Trims ASCII whitespace from both ends of `s[lo..hi]`.
pub fn trim_bytes_range(s: &[u8], lo: usize, hi: usize) -> (r: Vec<u8>)
    requires
        lo <= hi <= s@.len(),
    ensures
        r@ == trim(s@.subrange(lo as int, hi as int)),
{
    let piece = copy_range(s, lo, hi);
    trim_bytes(piece.as_slice())
}

} // verus!
