//! Verified text utilities: substring search, splitting on a delimiter,
//! trimming a padding character, character-sequence equality, and
//! decimal rendering of lengths. The message grammar is defined over
//! these spec functions.

use vstd::prelude::*;
use vstd::string::StrSliceExecFns;
use vstd::string::StringExecFns;

verus! {

/// The pattern `p` occurs in `s` starting at position `i`.
pub open spec fn match_at(s: Seq<char>, p: Seq<char>, i: int) -> bool {
    0 <= i && i + p.len() <= s.len() && s.subrange(i, i + p.len() as int) == p
}

/// The first position `>= i` at which `p` occurs in `s`, if any.
pub open spec fn find_from(s: Seq<char>, p: Seq<char>, i: int) -> Option<int>
    decreases s.len() - i
    when 0 <= i && p.len() > 0
{
    if i + p.len() > s.len() {
        None
    } else if match_at(s, p, i) {
        Some(i)
    } else {
        find_from(s, p, i + 1)
    }
}

/// `find_from` returns exactly the first match position.
pub proof fn lemma_find_from_some(s: Seq<char>, p: Seq<char>, i: int, j: int)
    requires
        0 <= i <= j,
        p.len() > 0,
        match_at(s, p, j),
        forall|k: int| i <= k < j ==> !match_at(s, p, k),
    ensures
        find_from(s, p, i) == Some(j),
    decreases j - i,
{
    if i == j {
    } else {
        lemma_find_from_some(s, p, i + 1, j);
    }
}

/// If `p` occurs nowhere at or after `i`, `find_from` returns `None`.
pub proof fn lemma_find_from_none(s: Seq<char>, p: Seq<char>, i: int)
    requires
        0 <= i,
        p.len() > 0,
        forall|k: int| i <= k ==> !match_at(s, p, k),
    ensures
        find_from(s, p, i) is None,
    decreases s.len() - i,
{
    if i + p.len() > s.len() {
    } else {
        lemma_find_from_none(s, p, i + 1);
    }
}

/// What `find_from` returns is a first match.
pub proof fn lemma_find_from_props(s: Seq<char>, p: Seq<char>, i: int)
    requires
        0 <= i,
        p.len() > 0,
    ensures
        match find_from(s, p, i) {
            Some(j) => i <= j && match_at(s, p, j) && forall|k: int| i <= k < j ==> !match_at(s, p, k),
            None => forall|k: int| i <= k ==> !match_at(s, p, k),
        },
    decreases s.len() - i,
{
    if i + p.len() > s.len() {
        assert forall|k: int| i <= k implies !match_at(s, p, k) by {}
    } else if match_at(s, p, i) {
    } else {
        lemma_find_from_props(s, p, i + 1);
        if find_from(s, p, i + 1) is None {
            assert forall|k: int| i <= k implies !match_at(s, p, k) by {
                if k > i {
                    assert(!match_at(s, p, k));
                }
            }
        }
    }
}

/// Searching within the suffix of `s` that starts at `a` finds the same
/// occurrences, shifted by `a`.
pub proof fn lemma_find_shift(s: Seq<char>, p: Seq<char>, a: int)
    requires
        0 <= a <= s.len(),
        p.len() > 0,
    ensures
        find_from(s, p, a) == match find_from(s.subrange(a, s.len() as int), p, 0) {
            Some(k) => Some(a + k),
            None => None::<int>,
        },
{
    let t = s.subrange(a, s.len() as int);
    assert forall|k: int| 0 <= k implies match_at(t, p, k) == match_at(s, p, a + k) by {
        if k + p.len() <= t.len() {
            assert(t.subrange(k, k + p.len() as int) =~= s.subrange(a + k, a + k + p.len() as int));
        }
    }
    lemma_find_from_props(t, p, 0);
    match find_from(t, p, 0) {
        Some(k) => {
            assert forall|m: int| a <= m < a + k implies !match_at(s, p, m) by {
                assert(!match_at(t, p, m - a));
            }
            lemma_find_from_some(s, p, a, a + k);
        },
        None => {
            assert forall|m: int| a <= m implies !match_at(s, p, m) by {
                assert(!match_at(t, p, m - a));
            }
            lemma_find_from_none(s, p, a);
        },
    }
}

/// Split `s` at the first occurrence of `p`, if there is one.
pub open spec fn split_once_at(s: Seq<char>, p: Seq<char>) -> Option<(Seq<char>, Seq<char>)> {
    match find_from(s, p, 0) {
        Some(j) => Some((s.subrange(0, j), s.subrange(j + p.len() as int, s.len() as int))),
        None => None,
    }
}

/// Split `s` at every occurrence of `p`. The result always has at least
/// one element; delimiters are not part of any element.
pub open spec fn split_all(s: Seq<char>, p: Seq<char>) -> Seq<Seq<char>>
    decreases s.len()
    when p.len() > 0
    via split_all_decreases
{
    match find_from(s, p, 0) {
        None => seq![s],
        Some(j) => seq![s.subrange(0, j)] + split_all(
            s.subrange(j + p.len() as int, s.len() as int),
            p,
        ),
    }
}

#[via_fn]
proof fn split_all_decreases(s: Seq<char>, p: Seq<char>) {
    lemma_find_from_props(s, p, 0);
}

/// Drop every copy of `c` at the front of `s`.
pub open spec fn trim_front(s: Seq<char>, c: char) -> Seq<char>
    decreases s.len(),
{
    if s.len() > 0 && s[0] == c {
        trim_front(s.drop_first(), c)
    } else {
        s
    }
}

/// Drop every copy of `c` at the back of `s`.
pub open spec fn trim_end(s: Seq<char>, c: char) -> Seq<char>
    decreases s.len(),
{
    if s.len() > 0 && s.last() == c {
        trim_end(s.drop_last(), c)
    } else {
        s
    }
}

/// Drop every copy of `c` at either end of `s`.
pub open spec fn trim_both(s: Seq<char>, c: char) -> Seq<char> {
    trim_end(trim_front(s, c), c)
}

/// Find the first occurrence of `p` in `s` at or after `from`.
pub fn find_in_str(s: &str, p: &str, from: usize) -> (r: Option<usize>)
    requires
        p@.len() > 0,
    ensures
        find_from(s@, p@, from as int) == match r {
            Some(j) => Some(j as int),
            None => None::<int>,
        },
        r matches Some(j) ==> from <= j && j + p@.len() <= s@.len(),
{
    let n = s.unicode_len();
    let m = p.unicode_len();
    if from > n || m > n - from {
        proof {
            lemma_find_from_props(s@, p@, from as int);
            if let Some(j) = find_from(s@, p@, from as int) {
                assert(match_at(s@, p@, j));
                assert(false);
            }
        }
        return None;
    }
    let mut i = from;
    while i <= n - m
        invariant
            from <= i,
            i <= n,
            m + from <= n,
            m > 0,
            n == s@.len(),
            m == p@.len(),
            forall|k: int| from <= k < i ==> !match_at(s@, p@, k),
        decreases n - i,
    {
        if match_here(s, p, i) {
            proof {
                lemma_find_from_some(s@, p@, from as int, i as int);
            }
            return Some(i);
        }
        i = i + 1;
    }
    proof {
        assert forall|k: int| from <= k implies !match_at(s@, p@, k) by {
            if k < i {
                assert(!match_at(s@, p@, k));
            }
        }
        lemma_find_from_none(s@, p@, from as int);
    }
    None
}

/// Compare the characters of `p` against those of `s` at offset `i`.
fn match_here(s: &str, p: &str, i: usize) -> (r: bool)
    requires
        i + p@.len() <= s@.len(),
    ensures
        r == match_at(s@, p@, i as int),
{
    let m = p.unicode_len();
    let n = s.unicode_len();
    let mut k: usize = 0;
    while k < m
        invariant
            0 <= k <= m,
            i + m <= n,
            n == s@.len(),
            m == p@.len(),
            forall|j: int| 0 <= j < k ==> s@[i + j] == p@[j],
        decreases m - k,
    {
        if s.get_char(i + k) != p.get_char(k) {
            proof {
                let j = k as int;
                assert(!match_at(s@, p@, i as int)) by {
                    if match_at(s@, p@, i as int) {
                        assert(s@.subrange(i as int, i + m)[j] == s@[i + j]);
                    }
                }
            }
            return false;
        }
        k = k + 1;
    }
    proof {
        assert(s@.subrange(i as int, i + m) =~= p@);
    }
    true
}

/// Split `s` at the first occurrence of `p`, if there is one.
pub fn split_once_str(s: &str, p: &str) -> (r: Option<(String, String)>)
    requires
        p@.len() > 0,
    ensures
        match r {
            Some((head, tail)) => split_once_at(s@, p@) matches Some(pair) && pair.0 == head@
                && pair.1 == tail@,
            None => split_once_at(s@, p@) is None,
        },
{
    match find_in_str(s, p, 0) {
        Some(j) => {
            let n = s.unicode_len();
            let m = p.unicode_len();
            let head = s.substring_char(0, j).to_owned();
            let tail = s.substring_char(j + m, n).to_owned();
            Some((head, tail))
        },
        None => None,
    }
}

/// Split `s` at every occurrence of `p`.
pub fn split_str(s: &str, p: &str) -> (r: Vec<String>)
    requires
        p@.len() > 0,
    ensures
        r.deep_view() == split_all(s@, p@),
{
    let n = s.unicode_len();
    let m = p.unicode_len();
    let mut parts: Vec<String> = Vec::new();
    let mut start: usize = 0;
    proof {
        assert(s@.subrange(0, n as int) =~= s@);
        assert(parts.deep_view() + split_all(s@, p@) =~= split_all(s@, p@));
    }
    loop
        invariant
            0 <= start <= n,
            n == s@.len(),
            m == p@.len(),
            m > 0,
            split_all(s@, p@) == parts.deep_view() + split_all(
                s@.subrange(start as int, n as int),
                p@,
            ),
        decreases n - start,
    {
        let ghost rest = s@.subrange(start as int, n as int);
        proof {
            lemma_find_shift(s@, p@, start as int);
        }
        match find_in_str(s, p, start) {
            Some(j) => {
                proof {
                    lemma_find_from_props(s@, p@, start as int);
                    assert(rest.subrange(0, j - start) =~= s@.subrange(start as int, j as int));
                    assert(rest.subrange(j - start + p@.len() as int, rest.len() as int)
                        =~= s@.subrange(j + p@.len() as int, n as int));
                }
                let piece = s.substring_char(start, j).to_owned();
                parts.push(piece);
                proof {
                    assert(parts.deep_view() + split_all(
                        s@.subrange(j + m, n as int),
                        p@,
                    ) =~= parts.deep_view().drop_last() + (seq![s@.subrange(start as int, j as int)]
                        + split_all(s@.subrange(j + m, n as int), p@)));
                }
                start = j + m;
            },
            None => {
                let piece = s.substring_char(start, n).to_owned();
                parts.push(piece);
                proof {
                    assert(parts.deep_view() =~= parts.deep_view().drop_last() + seq![rest]);
                }
                return parts;
            },
        }
    }
}

/// Remove every copy of `c` at either end of `s`.
pub fn trim_char(s: &str, c: char) -> (r: String)
    ensures
        r@ == trim_both(s@, c),
{
    let n = s.unicode_len();
    let mut a: usize = 0;
    proof {
        assert(s@.subrange(0, n as int) =~= s@);
    }
    while a < n && s.get_char(a) == c
        invariant
            0 <= a <= n,
            n == s@.len(),
            trim_front(s@, c) == trim_front(s@.subrange(a as int, n as int), c),
        decreases n - a,
    {
        proof {
            let cur = s@.subrange(a as int, n as int);
            assert(cur[0] == s@[a as int]);
            assert(cur.drop_first() =~= s@.subrange(a + 1, n as int));
        }
        a = a + 1;
    }
    proof {
        let cur = s@.subrange(a as int, n as int);
        if a < n {
            assert(cur[0] == s@[a as int]);
        }
        assert(trim_front(s@, c) == cur);
    }
    let mut b: usize = n;
    while b > a && s.get_char(b - 1) == c
        invariant
            a <= b <= n,
            n == s@.len(),
            trim_front(s@, c) == s@.subrange(a as int, n as int),
            trim_both(s@, c) == trim_end(s@.subrange(a as int, b as int), c),
        decreases b,
    {
        proof {
            let cur = s@.subrange(a as int, b as int);
            assert(cur.last() == s@[b - 1]);
            assert(cur.drop_last() =~= s@.subrange(a as int, b - 1));
        }
        b = b - 1;
    }
    proof {
        let cur = s@.subrange(a as int, b as int);
        assert(trim_end(cur, c) == cur);
    }
    s.substring_char(a, b).to_owned()
}

/// `a` and `b` hold the same characters.
pub fn str_eq(a: &str, b: &str) -> (r: bool)
    ensures
        r == (a@ == b@),
{
    let n = a.unicode_len();
    if n != b.unicode_len() {
        return false;
    }
    let mut i: usize = 0;
    while i < n
        invariant
            0 <= i <= n,
            n == a@.len(),
            n == b@.len(),
            forall|k: int| 0 <= k < i ==> a@[k] == b@[k],
        decreases n - i,
    {
        if a.get_char(i) != b.get_char(i) {
            return false;
        }
        i = i + 1;
    }
    proof {
        assert(a@ =~= b@);
    }
    true
}

/// The character for decimal digit `d`.
pub open spec fn digit_char(d: int) -> char {
    ((48 + d) as u8) as char
}

/// The decimal representation of `n`, most significant digit first.
pub open spec fn dec_rep(n: nat) -> Seq<char>
    decreases n,
{
    if n < 10 {
        seq![digit_char(n as int)]
    } else {
        dec_rep(n / 10) + seq![digit_char((n % 10) as int)]
    }
}

/// A one-character string holding the digit `d`.
fn digit_str(d: u8) -> (r: &'static str)
    requires
        d < 10,
    ensures
        r@ == seq![digit_char(d as int)],
{
    proof {
        reveal_strlit("0");
        reveal_strlit("1");
        reveal_strlit("2");
        reveal_strlit("3");
        reveal_strlit("4");
        reveal_strlit("5");
        reveal_strlit("6");
        reveal_strlit("7");
        reveal_strlit("8");
        reveal_strlit("9");
    }
    match d {
        0 => "0",
        1 => "1",
        2 => "2",
        3 => "3",
        4 => "4",
        5 => "5",
        6 => "6",
        7 => "7",
        8 => "8",
        _ => "9",
    }
}

/// Append the decimal representation of `n` to `out`.
fn push_dec(n: usize, out: &mut String)
    ensures
        final(out)@ == old(out)@ + dec_rep(n as nat),
    decreases n,
{
    if n >= 10 {
        push_dec(n / 10, out);
    }
    out.append(digit_str((n % 10) as u8));
    proof {
        assert(final(out)@ =~= old(out)@ + dec_rep(n as nat));
    }
}

/// The decimal representation of `n` as a string.
pub fn usize_to_string(n: usize) -> (r: String)
    ensures
        r@ == dec_rep(n as nat),
{
    let mut out = String::new();
    push_dec(n, &mut out);
    proof {
        assert(out@ =~= dec_rep(n as nat));
    }
    out
}

} // verus!
