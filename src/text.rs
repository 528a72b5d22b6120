//! Searching, splitting and rewriting character sequences.
use vstd::prelude::*;
use vstd::std_specs::iter::IteratorSpec;

verus! {

/// The characters of `s`, in order.
pub(crate) fn chars_of(s: &str) -> (r: Vec<char>)
    ensures
        r@ == s@,
{
    broadcast use vstd::string::group_string_axioms;

    let mut it = s.chars();
    let mut v: Vec<char> = Vec::new();
    loop
        invariant
            v@ + it.remaining() == s@,
            it.obeys_prophetic_iter_laws(),
            it.decrease() is Some,
        decreases it.decrease()->0,
    {
        match it.next() {
            Some(c) => {
                v.push(c);
            },
            None => {
                assert(v@ =~= s@);
                return v;
            },
        }
    }
}

/// Relies on `String`'s `FromIterator<&char>`: the string made of the given characters.
#[verifier::external_body]
pub(crate) fn string_of(v: &Vec<char>) -> (r: String)
    ensures
        r@ == v@,
{
    v.iter().collect()
}

/// Appends the characters of `src` to `dst`.
pub(crate) fn extend_chars(dst: &mut Vec<char>, src: &Vec<char>)
    ensures
        final(dst)@ == old(dst)@ + src@,
{
    let mut i: usize = 0;
    while i < src.len()
        invariant
            i <= src@.len(),
            dst@ == old(dst)@ + src@.take(i as int),
        decreases src@.len() - i,
    {
        dst.push(src[i]);
        i = i + 1;
        assert(src@.take(i as int) == src@.take(i - 1 as int).push(src@[i - 1]));
    }
    assert(src@.take(i as int) == src@);
}

} // verus!

verus! {

/// `p` occurs in `s` starting at position `i`.
pub open spec fn occurs_at(s: Seq<char>, p: Seq<char>, i: int) -> bool {
    0 <= i && i + p.len() <= s.len() && s.subrange(i, i + p.len()) == p
}

pub open spec fn contains(s: Seq<char>, p: Seq<char>) -> bool {
    exists|i: int| occurs_at(s, p, i)
}

/// The first position at or after `k` where `p` occurs in `s`.
pub open spec fn find_from(s: Seq<char>, p: Seq<char>, k: int) -> Option<int>
    decreases s.len() - k,
{
    if k < 0 || k + p.len() > s.len() {
        None
    } else if occurs_at(s, p, k) {
        Some(k)
    } else if k >= s.len() {
        None
    } else {
        find_from(s, p, k + 1)
    }
}

/// The pieces of `s` from `start` on between non-overlapping occurrences of
/// `sep`, taken from the left.
pub open spec fn split_from(s: Seq<char>, sep: Seq<char>, start: int) -> Seq<Seq<char>>
    decreases s.len() - start,
{
    if start < 0 || start > s.len() || sep.len() == 0 {
        seq![]
    } else {
        match find_from(s, sep, start) {
            Some(i) => if start <= i && i + sep.len() <= s.len() {
                seq![s.subrange(start, i)] + split_from(s, sep, i + sep.len())
            } else {
                seq![]
            },
            None => seq![s.subrange(start, s.len() as int)],
        }
    }
}

/// `s` from `start` on, with each non-overlapping occurrence of `pat`, taken
/// from the left, replaced by `rep`.
pub open spec fn replace_from(s: Seq<char>, pat: Seq<char>, rep: Seq<char>, start: int) -> Seq<char>
    decreases s.len() - start,
{
    if start < 0 || start > s.len() || pat.len() == 0 {
        seq![]
    } else {
        match find_from(s, pat, start) {
            Some(i) => if start <= i && i + pat.len() <= s.len() {
                s.subrange(start, i) + rep + replace_from(s, pat, rep, i + pat.len())
            } else {
                seq![]
            },
            None => s.subrange(start, s.len() as int),
        }
    }
}

/// The last position where `p` occurs in `s` at or before `k`.
pub open spec fn rfind_upto(s: Seq<char>, p: Seq<char>, k: int) -> Option<int>
    decreases k + 1,
{
    if k < 0 {
        None
    } else if occurs_at(s, p, k) {
        Some(k)
    } else {
        rfind_upto(s, p, k - 1)
    }
}

pub proof fn lemma_find_from_bounds(s: Seq<char>, p: Seq<char>, k: int)
    requires
        0 <= k,
    ensures
        find_from(s, p, k) matches Some(i) ==> k <= i && occurs_at(s, p, i)
            && forall|j: int| k <= j < i ==> !occurs_at(s, p, j),
        find_from(s, p, k) is None ==> forall|j: int| k <= j ==> !occurs_at(s, p, j),
    decreases s.len() - k,
{
    if k + p.len() > s.len() {
    } else if occurs_at(s, p, k) {
    } else if k >= s.len() {
        assert forall|j: int| k <= j implies !occurs_at(s, p, j) by {
            if j > k {
                assert(j + p.len() > s.len());
            }
        }
    } else {
        lemma_find_from_bounds(s, p, k + 1);
    }
}

/// Whether `p` occurs in `s` at position `i`.
pub fn matches_at(s: &Vec<char>, p: &Vec<char>, i: usize) -> (r: bool)
    ensures
        r == occurs_at(s@, p@, i as int),
{
    if p.len() > s.len() || i > s.len() - p.len() {
        return false;
    }
    let mut j: usize = 0;
    while j < p.len()
        invariant
            j <= p@.len(),
            i + p@.len() <= s@.len(),
            s@.len() == s.len(),
            forall|t: int| 0 <= t < j ==> s@[i + t] == p@[t],
        decreases p@.len() - j,
    {
        if s[i + j] != p[j] {
            assert(s@.subrange(i as int, i + p@.len())[j as int] != p@[j as int]);
            return false;
        }
        j = j + 1;
    }
    assert(s@.subrange(i as int, i + p@.len()) =~= p@);
    true
}

/// The first position at or after `k` where `p` occurs in `s`.
pub fn find(s: &Vec<char>, p: &Vec<char>, k: usize) -> (r: Option<usize>)
    ensures
        r matches Some(i) ==> find_from(s@, p@, k as int) == Some(i as int),
        r is None ==> find_from(s@, p@, k as int) is None,
{
    let mut i: usize = k;
    loop
        invariant
            k <= i,
            find_from(s@, p@, k as int) == find_from(s@, p@, i as int),
        decreases s@.len() + 1 - i,
    {
        if i > s.len() || p.len() > s.len() - i {
            return None;
        }
        if matches_at(s, p, i) {
            return Some(i);
        }
        if i == s.len() {
            return None;
        }
        i = i + 1;
    }
}

/// The last position where `p` occurs in `s`.
pub open spec fn rfind_spec(s: Seq<char>, p: Seq<char>) -> Option<int> {
    rfind_upto(s, p, s.len() - p.len())
}

pub proof fn lemma_rfind_upto_bounds(s: Seq<char>, p: Seq<char>, k: int)
    ensures
        rfind_upto(s, p, k) matches Some(i) ==> i <= k && occurs_at(s, p, i),
        rfind_upto(s, p, k) is None ==> forall|j: int| j <= k ==> !occurs_at(s, p, j),
    decreases k + 1,
{
    if k >= 0 {
        lemma_rfind_upto_bounds(s, p, k - 1);
    }
}

/// The characters of `s` from `a` up to `b`.
pub fn copy_range(s: &Vec<char>, a: usize, b: usize) -> (r: Vec<char>)
    requires
        a <= b <= s@.len(),
    ensures
        r@ == s@.subrange(a as int, b as int),
{
    let mut r: Vec<char> = Vec::new();
    let mut i: usize = a;
    while i < b
        invariant
            a <= i <= b,
            b <= s@.len(),
            r@ == s@.subrange(a as int, i as int),
        decreases b - i,
    {
        r.push(s[i]);
        i = i + 1;
        assert(r@ =~= s@.subrange(a as int, i as int));
    }
    r
}

/// The last position where `p` occurs in `s`.
pub fn rfind(s: &Vec<char>, p: &Vec<char>) -> (r: Option<usize>)
    ensures
        r matches Some(i) ==> rfind_spec(s@, p@) == Some(i as int) && i + p@.len() <= s.len(),
        r is None ==> rfind_spec(s@, p@) is None,
{
    if p.len() > s.len() {
        return None;
    }
    let mut i: usize = s.len() - p.len();
    loop
        invariant
            i <= s@.len() - p@.len(),
            rfind_spec(s@, p@) == rfind_upto(s@, p@, i as int),
        decreases i,
    {
        if matches_at(s, p, i) {
            return Some(i);
        }
        if i == 0 {
            return None;
        }
        i = i - 1;
    }
}

/// The pieces of `s` from `start` on between occurrences of `sep`.
pub fn split(s: &Vec<char>, sep: &Vec<char>, start: usize) -> (r: Vec<Vec<char>>)
    requires
        start <= s@.len(),
        sep@.len() > 0,
    ensures
        r@.map_values(|b: Vec<char>| b@) == split_from(s@, sep@, start as int),
{
    let mut out: Vec<Vec<char>> = Vec::new();
    let len = s.len();
    let mut pos: usize = start;
    loop
        invariant
            pos <= len,
            len == s@.len(),
            sep@.len() > 0,
            out@.map_values(|b: Vec<char>| b@) + split_from(s@, sep@, pos as int)
                == split_from(s@, sep@, start as int),
        decreases s@.len() - pos,
    {
        proof {
            lemma_find_from_bounds(s@, sep@, pos as int);
        }
        let ghost before = out@.map_values(|b: Vec<char>| b@);
        match find(s, sep, pos) {
            Some(i) => {
                assert(occurs_at(s@, sep@, i as int));
                let piece = copy_range(s, pos, i);
                out.push(piece);
                proof {
                    assert(out@.map_values(|b: Vec<char>| b@) =~= before.push(piece@));
                    assert(before.push(piece@) + split_from(s@, sep@, i + sep@.len())
                        =~= before + split_from(s@, sep@, pos as int));
                }
                pos = i + sep.len();
            },
            None => {
                let piece = copy_range(s, pos, len);
                out.push(piece);
                proof {
                    assert(out@.map_values(|b: Vec<char>| b@) =~= before.push(piece@));
                    assert(before.push(piece@) =~= before + split_from(s@, sep@, pos as int));
                }
                return out;
            },
        }
    }
}

/// `s` from `start` on, with each occurrence of `pat` replaced by `rep`.
pub fn replace(s: &Vec<char>, pat: &Vec<char>, rep: &Vec<char>, start: usize) -> (r: Vec<char>)
    requires
        start <= s@.len(),
        pat@.len() > 0,
    ensures
        r@ == replace_from(s@, pat@, rep@, start as int),
{
    let mut out: Vec<char> = Vec::new();
    let len = s.len();
    let mut pos: usize = start;
    loop
        invariant
            pos <= len,
            len == s@.len(),
            pat@.len() > 0,
            out@ + replace_from(s@, pat@, rep@, pos as int)
                == replace_from(s@, pat@, rep@, start as int),
        decreases s@.len() - pos,
    {
        proof {
            lemma_find_from_bounds(s@, pat@, pos as int);
        }
        let ghost before = out@;
        match find(s, pat, pos) {
            Some(i) => {
                assert(occurs_at(s@, pat@, i as int));
                extend_chars(&mut out, &copy_range(s, pos, i));
                extend_chars(&mut out, rep);
                proof {
                    assert(out@ + replace_from(s@, pat@, rep@, i + pat@.len())
                        =~= before + replace_from(s@, pat@, rep@, pos as int));
                }
                pos = i + pat.len();
            },
            None => {
                extend_chars(&mut out, &copy_range(s, pos, len));
                proof {
                    assert(out@ =~= before + replace_from(s@, pat@, rep@, pos as int));
                }
                return out;
            },
        }
    }
}

} // verus!
