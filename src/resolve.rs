//! Where each document lives: its remote URL and its sharded local path.
use vstd::prelude::*;
use crate::text::{chars_of, extend_chars, string_of};

verus! {

/// One record of the index: the document number and whether a plain-text
/// form of it is published.
#[derive(Clone, Copy, Debug, PartialEq, Eq)]
pub struct Rfc {
    pub num: u32,
    pub has_txt: bool,
}

pub const URL_PREFIX: &'static str = "https://www.rfc-editor.org/rfc/rfc";

pub const STORE_ROOT: &'static str = "rfcs/";

pub const FILE_PREFIX: &'static str = "/rfc";

pub const TXT_SUFFIX: &'static str = ".txt";

pub open spec fn digit_char(d: nat) -> char {
    if d == 0 { '0' } else if d == 1 { '1' } else if d == 2 { '2' } else if d == 3 { '3' }
    else if d == 4 { '4' } else if d == 5 { '5' } else if d == 6 { '6' } else if d == 7 { '7' }
    else if d == 8 { '8' } else { '9' }
}

pub open spec fn is_digit(c: char) -> bool {
    '0' <= c && c <= '9'
}

pub open spec fn digit_value(c: char) -> nat {
    (c as nat - '0' as nat) as nat
}

/// The decimal digits of `n`, most significant first, with no leading zeros.
pub open spec fn decimal(n: nat) -> Seq<char>
    decreases n,
{
    if n < 10 {
        seq![digit_char(n)]
    } else {
        decimal(n / 10).push(digit_char(n % 10))
    }
}

/// The number that a string of decimal digits spells.
pub open spec fn digits_value(s: Seq<char>) -> nat
    decreases s.len(),
{
    if s.len() == 0 {
        0
    } else {
        digits_value(s.drop_last()) * 10 + digit_value(s.last())
    }
}

/// The document number in decimal, left-padded with zeros to four digits.
pub open spec fn padded_id(n: nat) -> Seq<char> {
    if n < 10 {
        seq!['0', '0', '0'] + decimal(n)
    } else if n < 100 {
        seq!['0', '0'] + decimal(n)
    } else if n < 1000 {
        seq!['0'] + decimal(n)
    } else {
        decimal(n)
    }
}

pub open spec fn url_of(n: nat) -> Seq<char> {
    URL_PREFIX@ + padded_id(n) + TXT_SUFFIX@
}

/// `rfcs/<first two digits>/rfc<padded id>.txt`
pub open spec fn path_of(n: nat) -> Seq<char> {
    STORE_ROOT@ + padded_id(n).take(2) + FILE_PREFIX@ + padded_id(n) + TXT_SUFFIX@
}

} // verus!

verus! {

fn digit_of(d: u32) -> (c: char)
    requires
        d < 10,
    ensures
        c == digit_char(d as nat),
{
    if d == 0 { '0' } else if d == 1 { '1' } else if d == 2 { '2' } else if d == 3 { '3' }
    else if d == 4 { '4' } else if d == 5 { '5' } else if d == 6 { '6' } else if d == 7 { '7' }
    else if d == 8 { '8' } else { '9' }
}

fn push_decimal(n: u32, out: &mut Vec<char>)
    ensures
        final(out)@ == old(out)@ + decimal(n as nat),
    decreases n,
{
    if n >= 10 {
        push_decimal(n / 10, out);
        out.push(digit_of(n % 10));
        assert(final(out)@ == old(out)@ + decimal(n as nat));
    } else {
        out.push(digit_of(n));
        assert(final(out)@ == old(out)@ + decimal(n as nat));
    }
}

fn push_padded(n: u32, out: &mut Vec<char>)
    ensures
        final(out)@ == old(out)@ + padded_id(n as nat),
{
    if n < 1000 {
        out.push('0');
    }
    if n < 100 {
        out.push('0');
    }
    if n < 10 {
        out.push('0');
    }
    push_decimal(n, out);
    assert(final(out)@ == old(out)@ + padded_id(n as nat));
}

impl Rfc {
    /// The address from which the plain-text form is fetched.
    pub fn url(&self) -> (r: String)
        ensures
            r@ == url_of(self.num as nat),
    {
        let mut v = chars_of(URL_PREFIX);
        push_padded(self.num, &mut v);
        extend_chars(&mut v, &chars_of(TXT_SUFFIX));
        string_of(&v)
    }

    /// Where the document is stored, under a directory named by the first
    /// two digits of its padded number.
    pub fn path(&self) -> (r: String)
        ensures
            r@ == path_of(self.num as nat),
            r@.subrange(5, 7) == padded_id(self.num as nat).take(2),
    {
        let mut id: Vec<char> = Vec::new();
        push_padded(self.num, &mut id);
        proof { lemma_padded_len(self.num as nat); }
        let mut v = chars_of(STORE_ROOT);
        v.push(id[0]);
        v.push(id[1]);
        extend_chars(&mut v, &chars_of(FILE_PREFIX));
        extend_chars(&mut v, &id);
        extend_chars(&mut v, &chars_of(TXT_SUFFIX));
        proof {
            reveal_strlit("rfcs/");
            assert(id@.take(2) =~= seq![id@[0], id@[1]]);
            assert(v@ =~= path_of(self.num as nat));
        }
        string_of(&v)
    }
}

pub proof fn lemma_decimal_len(n: nat)
    ensures
        decimal(n).len() >= 1,
        n >= 10 ==> decimal(n).len() >= 2,
        n >= 100 ==> decimal(n).len() >= 3,
        n >= 1000 ==> decimal(n).len() >= 4,
    decreases n,
{
    if n >= 10 {
        lemma_decimal_len(n / 10);
    }
}

pub proof fn lemma_padded_len(n: nat)
    ensures
        padded_id(n).len() >= 4,
{
    lemma_decimal_len(n);
}

} // verus!

verus! {

proof fn lemma_decimal_value(n: nat)
    ensures
        digits_value(decimal(n)) == n,
    decreases n,
{
    lemma_digit_round_trip(n % 10);
    if n >= 10 {
        lemma_decimal_value(n / 10);
        assert(decimal(n).drop_last() == decimal(n / 10));
        assert(n == (n / 10) * 10 + n % 10);
    } else {
        assert(decimal(n).drop_last() =~= Seq::<char>::empty());
        assert(digits_value(Seq::<char>::empty()) == 0);
    }
}

proof fn lemma_digit_round_trip(d: nat)
    requires
        d < 10,
    ensures
        digit_value(digit_char(d)) == d,
{
}

proof fn lemma_leading_zero(s: Seq<char>)
    ensures
        digits_value(seq!['0'] + s) == digits_value(s),
    decreases s.len(),
{
    if s.len() > 0 {
        lemma_leading_zero(s.drop_last());
        assert((seq!['0'] + s).drop_last() =~= seq!['0'] + s.drop_last());
        assert((seq!['0'] + s).last() == s.last());
    } else {
        assert((seq!['0'] + s).drop_last() =~= Seq::<char>::empty());
        assert(digits_value(Seq::<char>::empty()) == 0);
        assert((seq!['0'] + s).last() == '0');
    }
}

proof fn lemma_padded_value(n: nat)
    ensures
        digits_value(padded_id(n)) == n,
{
    let d = decimal(n);
    lemma_decimal_value(n);
    lemma_leading_zero(d);
    lemma_leading_zero(seq!['0'] + d);
    lemma_leading_zero(seq!['0'] + (seq!['0'] + d));
    assert(seq!['0', '0'] + d =~= seq!['0'] + (seq!['0'] + d));
    assert(seq!['0', '0', '0'] + d =~= seq!['0'] + (seq!['0'] + (seq!['0'] + d)));
}

/// Distinct document numbers are stored at distinct paths and fetched from
/// distinct URLs, and each path's directory is named by the first two digits
/// of the padded number.
pub proof fn law_resolve_injective(a: u32, b: u32)
    requires
        a != b,
    ensures
        path_of(a as nat) != path_of(b as nat),
        url_of(a as nat) != url_of(b as nat),
        path_of(a as nat).subrange(
            STORE_ROOT@.len() as int,
            STORE_ROOT@.len() + 2int,
        ) == padded_id(a as nat).take(2),
{
    lemma_padded_len(a as nat);
    lemma_padded_len(b as nat);
    lemma_padded_value(a as nat);
    lemma_padded_value(b as nat);
    let (pa, pb) = (padded_id(a as nat), padded_id(b as nat));
    let head = (STORE_ROOT@.len() + 2 + FILE_PREFIX@.len()) as int;
    let tail = TXT_SUFFIX@.len() as int;
    let (xa, xb) = (path_of(a as nat), path_of(b as nat));
    assert(xa.subrange(head, xa.len() - tail) =~= pa);
    assert(xb.subrange(head, xb.len() - tail) =~= pb);
    let (ua, ub) = (url_of(a as nat), url_of(b as nat));
    let u = URL_PREFIX@.len() as int;
    assert(ua.subrange(u, ua.len() - tail) =~= pa);
    assert(ub.subrange(u, ub.len() - tail) =~= pb);
    assert(xa.subrange(STORE_ROOT@.len() as int, STORE_ROOT@.len() + 2int) =~= pa.take(2));
}

} // verus!
