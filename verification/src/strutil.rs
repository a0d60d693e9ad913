//! Verified helpers over `&str` and its `Seq<char>` view: equality, substring
//! occurrence and search, character search, and lexicographic order.
use vstd::prelude::*;

verus! {

/// `n` occurs in `h` starting at position `i`.
pub open spec fn contains_at(h: Seq<char>, n: Seq<char>, i: int) -> bool {
    0 <= i && i + n.len() <= h.len() && h.subrange(i, i + n.len() as int) == n
}

/// `n` occurs somewhere in `h`.
pub open spec fn contains_seq(h: Seq<char>, n: Seq<char>) -> bool {
    exists|i: int| contains_at(h, n, i)
}

/// Index of the first occurrence of `n` in `h`, or -1 if there is none.
pub open spec fn first_sub(h: Seq<char>, n: Seq<char>) -> int
    decreases h.len(),
{
    if n.is_prefix_of(h) {
        0
    } else if h.len() == 0 {
        -1
    } else {
        let r = first_sub(h.drop_first(), n);
        if r < 0 {
            -1
        } else {
            r + 1
        }
    }
}

/// Index of the first occurrence of the character `c` in `s`, or -1.
pub open spec fn first_idx(s: Seq<char>, c: char) -> int
    decreases s.len(),
{
    if s.len() == 0 {
        -1
    } else if s[0] == c {
        0
    } else {
        let r = first_idx(s.drop_first(), c);
        if r < 0 {
            -1
        } else {
            r + 1
        }
    }
}

/// Strict lexicographic order on character sequences, by Unicode scalar value.
pub open spec fn lex_lt(a: Seq<char>, b: Seq<char>) -> bool
    decreases a.len(),
{
    if b.len() == 0 {
        false
    } else if a.len() == 0 {
        true
    } else if a[0] != b[0] {
        (a[0] as int) < (b[0] as int)
    } else {
        lex_lt(a.drop_first(), b.drop_first())
    }
}

pub proof fn lemma_lex_lt_irrefl(a: Seq<char>)
    ensures
        !lex_lt(a, a),
    decreases a.len(),
{
    if a.len() > 0 {
        lemma_lex_lt_irrefl(a.drop_first());
    }
}

pub proof fn lemma_lex_lt_trans(a: Seq<char>, b: Seq<char>, c: Seq<char>)
    requires
        lex_lt(a, b),
        lex_lt(b, c),
    ensures
        lex_lt(a, c),
    decreases a.len(),
{
    if b.len() == 0 {
    } else if a.len() == 0 {
    } else if c.len() == 0 {
    } else {
        if a[0] == b[0] && b[0] == c[0] {
            lemma_lex_lt_trans(a.drop_first(), b.drop_first(), c.drop_first());
        }
    }
}

/// Totality: two sequences that are not ordered either way are equal.
pub proof fn lemma_lex_lt_total(a: Seq<char>, b: Seq<char>)
    requires
        !lex_lt(a, b),
        !lex_lt(b, a),
    ensures
        a == b,
    decreases a.len(),
{
    if a.len() == 0 || b.len() == 0 {
        assert(a =~= b);
    } else if a[0] != b[0] {
        assert((a[0] as int) == (b[0] as int));
        assert(false);
    } else {
        lemma_lex_lt_total(a.drop_first(), b.drop_first());
        assert(a =~= seq![a[0]] + a.drop_first());
        assert(b =~= seq![b[0]] + b.drop_first());
    }
}

/// Characterizes `first_idx`: a first occurrence at `i` pins the value.
pub proof fn lemma_first_idx_at(s: Seq<char>, c: char, i: int)
    requires
        0 <= i < s.len(),
        s[i] == c,
        forall|j: int| 0 <= j < i ==> s[j] != c,
    ensures
        first_idx(s, c) == i,
    decreases s.len(),
{
    if i > 0 {
        lemma_first_idx_at(s.drop_first(), c, i - 1);
    }
}

pub proof fn lemma_first_idx_none(s: Seq<char>, c: char)
    requires
        forall|j: int| 0 <= j < s.len() ==> s[j] != c,
    ensures
        first_idx(s, c) == -1,
    decreases s.len(),
{
    if s.len() > 0 {
        lemma_first_idx_none(s.drop_first(), c);
    }
}

/// Characterizes `first_sub`: a first occurrence at `i` pins the value.
pub proof fn lemma_first_sub_at(h: Seq<char>, n: Seq<char>, i: int)
    requires
        contains_at(h, n, i),
        forall|j: int| 0 <= j < i ==> !contains_at(h, n, j),
    ensures
        first_sub(h, n) == i,
    decreases h.len(),
{
    if i == 0 {
        assert(n.is_prefix_of(h));
    } else {
        assert(!contains_at(h, n, 0));
        assert(!n.is_prefix_of(h)) by {
            if n.is_prefix_of(h) {
                assert(h.subrange(0, n.len() as int) == n);
                assert(contains_at(h, n, 0));
            }
        }
        let t = h.drop_first();
        assert(contains_at(t, n, i - 1)) by {
            assert(t.subrange(i - 1, i - 1 + n.len() as int) =~= h.subrange(
                i,
                i + n.len() as int,
            ));
        }
        assert forall|j: int| 0 <= j < i - 1 implies !contains_at(t, n, j) by {
            if contains_at(t, n, j) {
                assert(h.subrange(j + 1, j + 1 + n.len() as int) =~= t.subrange(
                    j,
                    j + n.len() as int,
                ));
                assert(contains_at(h, n, j + 1));
            }
        }
        lemma_first_sub_at(t, n, i - 1);
    }
}

pub proof fn lemma_first_sub_none(h: Seq<char>, n: Seq<char>)
    requires
        !contains_seq(h, n),
    ensures
        first_sub(h, n) == -1,
    decreases h.len(),
{
    assert(!n.is_prefix_of(h)) by {
        if n.is_prefix_of(h) {
            assert(h.subrange(0, n.len() as int) == n);
            assert(contains_at(h, n, 0));
        }
    }
    if h.len() > 0 {
        let t = h.drop_first();
        assert(!contains_seq(t, n)) by {
            if contains_seq(t, n) {
                let j = choose|j: int| contains_at(t, n, j);
                assert(h.subrange(j + 1, j + 1 + n.len() as int) =~= t.subrange(
                    j,
                    j + n.len() as int,
                ));
                assert(contains_at(h, n, j + 1));
            }
        }
        lemma_first_sub_none(t, n);
    }
}

/// The first occurrence index, when one exists, is itself an occurrence and
/// nothing occurs earlier.
pub proof fn lemma_first_sub_props(h: Seq<char>, n: Seq<char>)
    requires
        contains_seq(h, n),
    ensures
        contains_at(h, n, first_sub(h, n)),
        forall|j: int| 0 <= j < first_sub(h, n) ==> !contains_at(h, n, j),
    decreases h.len(),
{
    if n.is_prefix_of(h) {
        assert(h.subrange(0, n.len() as int) =~= n);
        assert(contains_at(h, n, 0));
    } else {
        assert(h.len() > 0) by {
            if h.len() == 0 {
                let j = choose|j: int| contains_at(h, n, j);
                assert(h.subrange(j, j + n.len() as int) =~= n);
                assert(n.is_prefix_of(h));
            }
        }
        let t = h.drop_first();
        assert(!contains_at(h, n, 0)) by {
            if contains_at(h, n, 0) {
                assert(n.is_prefix_of(h));
            }
        }
        assert(contains_seq(t, n)) by {
            let j = choose|j: int| contains_at(h, n, j);
            assert(j >= 1);
            assert(t.subrange(j - 1, j - 1 + n.len() as int) =~= h.subrange(
                j,
                j + n.len() as int,
            ));
            assert(contains_at(t, n, j - 1));
        }
        lemma_first_sub_props(t, n);
        let r = first_sub(t, n);
        assert(h.subrange(r + 1, r + 1 + n.len() as int) =~= t.subrange(r, r + n.len() as int));
        assert(contains_at(h, n, r + 1));
        assert forall|j: int| 0 <= j < r + 1 implies !contains_at(h, n, j) by {
            if j >= 1 && contains_at(h, n, j) {
                assert(t.subrange(j - 1, j - 1 + n.len() as int) =~= h.subrange(
                    j,
                    j + n.len() as int,
                ));
                assert(contains_at(t, n, j - 1));
            }
        }
    }
}

/// Whether the characters of `n` appear at offset `i` of `h`.
pub fn substr_at(h: &str, n: &str, i: usize) -> (r: bool)
    requires
        i + n@.len() <= h@.len(),
    ensures
        r == contains_at(h@, n@, i as int),
{
    let hlen = h.unicode_len();
    let nlen = n.unicode_len();
    let mut j: usize = 0;
    while j < nlen
        invariant
            j <= nlen,
            nlen == n@.len(),
            hlen == h@.len(),
            i + nlen <= hlen,
            forall|k: int| 0 <= k < j ==> h@[i + k] == n@[k],
        decreases nlen - j,
    {
        if h.get_char(i + j) != n.get_char(j) {
            proof {
                assert(h@.subrange(i as int, i + n@.len() as int)[j as int] == h@[i + j]);
            }
            return false;
        }
        j += 1;
    }
    proof {
        assert(h@.subrange(i as int, i + n@.len() as int) =~= n@);
    }
    true
}

/// First occurrence of `n` in `h`, as a character index.
pub fn find_sub(h: &str, n: &str) -> (r: Option<usize>)
    ensures
        match r {
            Some(i) => contains_at(h@, n@, i as int) && first_sub(h@, n@) == i as int,
            None => !contains_seq(h@, n@) && first_sub(h@, n@) == -1,
        },
{
    let hlen = h.unicode_len();
    let nlen = n.unicode_len();
    if nlen > hlen {
        proof {
            assert(!contains_seq(h@, n@));
            lemma_first_sub_none(h@, n@);
        }
        return None;
    }
    if nlen == 0 {
        proof {
            assert(h@.subrange(0, 0) =~= n@);
            assert(contains_at(h@, n@, 0));
            lemma_first_sub_at(h@, n@, 0);
        }
        return Some(0);
    }
    let mut i: usize = 0;
    while i <= hlen - nlen
        invariant
            hlen == h@.len(),
            nlen == n@.len(),
            0 < nlen <= hlen,
            i <= hlen - nlen + 1,
            forall|j: int| 0 <= j < i ==> !contains_at(h@, n@, j),
        decreases hlen - i,
    {
        if substr_at(h, n, i) {
            proof {
                lemma_first_sub_at(h@, n@, i as int);
            }
            return Some(i);
        }
        i += 1;
    }
    proof {
        assert(!contains_seq(h@, n@));
        lemma_first_sub_none(h@, n@);
    }
    None
}

/// Whether `n` occurs anywhere in `h`.
pub fn str_contains(h: &str, n: &str) -> (r: bool)
    ensures
        r == contains_seq(h@, n@),
{
    match find_sub(h, n) {
        Some(_) => true,
        None => false,
    }
}

/// Character-wise string equality.
pub fn str_eq(a: &str, b: &str) -> (r: bool)
    ensures
        r == (a@ == b@),
{
    let alen = a.unicode_len();
    if alen != b.unicode_len() {
        return false;
    }
    if alen == 0 {
        proof {
            assert(a@ =~= b@);
        }
        return true;
    }
    let r = substr_at(b, a, 0);
    proof {
        if r {
            assert(b@.subrange(0, b@.len() as int) =~= b@);
        } else {
            if a@ == b@ {
                assert(b@.subrange(0, a@.len() as int) =~= a@);
            }
        }
    }
    r
}

/// Whether `p` is a prefix of `h`.
pub fn starts_with_s(h: &str, p: &str) -> (r: bool)
    ensures
        r == p@.is_prefix_of(h@),
{
    let plen = p.unicode_len();
    if plen > h.unicode_len() {
        return false;
    }
    let r = substr_at(h, p, 0);
    proof {
        assert(h@.subrange(0, p@.len() as int) == h@.subrange(0 as int, 0 + p@.len() as int));
    }
    r
}

/// Whether `p` is a suffix of `h`.
pub fn ends_with_s(h: &str, p: &str) -> (r: bool)
    ensures
        r == (p@.len() <= h@.len() && h@.subrange(h@.len() - p@.len(), h@.len() as int) == p@),
{
    let plen = p.unicode_len();
    let hlen = h.unicode_len();
    if plen > hlen {
        return false;
    }
    let r = substr_at(h, p, hlen - plen);
    proof {
        assert(h@.subrange(h@.len() - p@.len(), h@.len() as int) =~= h@.subrange(
            (hlen - plen) as int,
            (hlen - plen) + p@.len() as int,
        ));
    }
    r
}

/// First position of the character `c` in `s`.
pub fn find_char(s: &str, c: char) -> (r: Option<usize>)
    ensures
        match r {
            Some(i) => i < s@.len() && s@[i as int] == c && first_idx(s@, c) == i as int,
            None => first_idx(s@, c) == -1,
        },
{
    let len = s.unicode_len();
    let mut i: usize = 0;
    while i < len
        invariant
            len == s@.len(),
            i <= len,
            forall|j: int| 0 <= j < i ==> s@[j] != c,
        decreases len - i,
    {
        if s.get_char(i) == c {
            proof {
                lemma_first_idx_at(s@, c, i as int);
            }
            return Some(i);
        }
        i += 1;
    }
    proof {
        lemma_first_idx_none(s@, c);
    }
    None
}

/// Strict lexicographic comparison of two strings.
pub fn str_lt(a: &str, b: &str) -> (r: bool)
    ensures
        r == lex_lt(a@, b@),
    decreases a@.len(),
{
    let alen = a.unicode_len();
    let blen = b.unicode_len();
    if blen == 0 {
        false
    } else if alen == 0 {
        true
    } else {
        let ca = a.get_char(0);
        let cb = b.get_char(0);
        if ca != cb {
            (ca as u32) < (cb as u32)
        } else {
            let ra = a.substring_char(1, alen);
            let rb = b.substring_char(1, blen);
            proof {
                assert(ra@ =~= a@.drop_first());
                assert(rb@ =~= b@.drop_first());
            }
            str_lt(ra, rb)
        }
    }
}

} // verus!
