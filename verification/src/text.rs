//! Text utilities: character collection, decimal rendering, and the byte
//! pattern tests used by the dictionary's skip heuristics.

use vstd::prelude::*;

use crate::trusted::push_char;

verus! {

/// Collect the characters of a string slice into a vector.
pub fn chars_to_vec(s: &str) -> (r: Vec<char>)
    ensures
        r@ == s@,
{
    broadcast use vstd::string::axiom_spec_iter;

    let mut r: Vec<char> = Vec::new();
    for c in it: s.chars()
        invariant
            it.seq() == s@,
            r@ == it.seq().take(it.index() as int),
    {
        r.push(c);
    }
    proof {
        assert(r@ =~= s@);
    }
    r
}

/// The digit character for a value below ten.
pub open spec fn digit_char(d: nat) -> char {
    if d == 0 {
        '0'
    } else if d == 1 {
        '1'
    } else if d == 2 {
        '2'
    } else if d == 3 {
        '3'
    } else if d == 4 {
        '4'
    } else if d == 5 {
        '5'
    } else if d == 6 {
        '6'
    } else if d == 7 {
        '7'
    } else if d == 8 {
        '8'
    } else {
        '9'
    }
}

/// The decimal rendering of a number, most significant digit first.
pub open spec fn spec_decimal(n: nat) -> Seq<char>
    decreases n,
{
    if n < 10 {
        seq![digit_char(n)]
    } else {
        spec_decimal(n / 10).push(digit_char(n % 10))
    }
}

/// The digits still owed for the unprocessed part of the number.
pub open spec fn decimal_prefix(m: nat) -> Seq<char> {
    if m == 0 {
        Seq::empty()
    } else {
        spec_decimal(m)
    }
}

fn exec_digit_char(d: usize) -> (r: char)
    requires
        d < 10,
    ensures
        r == digit_char(d as nat),
{
    if d == 0 {
        '0'
    } else if d == 1 {
        '1'
    } else if d == 2 {
        '2'
    } else if d == 3 {
        '3'
    } else if d == 4 {
        '4'
    } else if d == 5 {
        '5'
    } else if d == 6 {
        '6'
    } else if d == 7 {
        '7'
    } else if d == 8 {
        '8'
    } else {
        '9'
    }
}

/// Render a number in decimal.
pub fn usize_to_string(n: usize) -> (r: String)
    ensures
        r@ == spec_decimal(n as nat),
{
    let mut digits: Vec<char> = Vec::new();
    let mut m: usize = n;
    let d0 = m % 10;
    digits.push(exec_digit_char(d0));
    m = m / 10;
    proof {
        if n < 10 {
            assert(digits@.reverse() =~= spec_decimal(n as nat));
        } else {
            assert(m == n as nat / 10);
            assert(spec_decimal(n as nat) =~= spec_decimal(m as nat) + digits@.reverse());
        }
    }
    while m > 0
        invariant
            digits@.len() > 0,
            spec_decimal(n as nat) == decimal_prefix(m as nat) + digits@.reverse(),
        decreases m,
    {
        let d = m % 10;
        let ghost pre = digits@;
        digits.push(exec_digit_char(d));
        let ghost mid = m;
        m = m / 10;
        proof {
            assert(m < mid) by (nonlinear_arith)
                requires
                    mid >= 1,
                    m == mid / 10,
            ;
            assert(digits@.reverse() =~= seq![digit_char((mid % 10) as nat)] + pre.reverse());
            if mid < 10 {
                assert(spec_decimal(mid as nat) == seq![digit_char(mid as nat)]);
                assert(decimal_prefix(m as nat) + digits@.reverse() =~= spec_decimal(mid as nat)
                    + pre.reverse());
            } else {
                assert(spec_decimal(mid as nat) == spec_decimal((mid / 10) as nat).push(
                    digit_char((mid % 10) as nat),
                ));
                assert(decimal_prefix(m as nat) + digits@.reverse() =~= spec_decimal(mid as nat)
                    + pre.reverse());
            }
        }
    }
    proof {
        assert(Seq::<char>::empty() + digits@.reverse() =~= digits@.reverse());
    }
    let mut r = String::new();
    let mut k: usize = 0;
    let len = digits.len();
    while k < len
        invariant
            len == digits@.len(),
            0 <= k <= len,
            r@ == digits@.reverse().take(k as int),
        decreases len - k,
    {
        push_char(&mut r, digits[len - 1 - k]);
        proof {
            assert(digits@.reverse()[k as int] == digits@[len - 1 - k]);
            assert(r@ =~= digits@.reverse().take(k + 1));
        }
        k += 1;
    }
    proof {
        assert(digits@.reverse().take(digits@.len() as int) =~= digits@.reverse());
        assert(digits@.len() > 0);
    }
    r
}

/// True when `s` begins with the bytes of `p`.
pub open spec fn bytes_start_with(s: Seq<u8>, p: Seq<u8>) -> bool {
    p.len() <= s.len() && s.take(p.len() as int) == p
}

/// True when `s` ends with the bytes of `p`.
pub open spec fn bytes_end_with(s: Seq<u8>, p: Seq<u8>) -> bool {
    p.len() <= s.len() && s.skip(s.len() - p.len()) == p
}

/// True when the bytes of `p` occur in `s` at offset `i`.
pub open spec fn bytes_match_at(s: Seq<u8>, p: Seq<u8>, i: int) -> bool {
    0 <= i && i + p.len() <= s.len() && s.subrange(i, i + p.len()) == p
}

/// True when the bytes of `p` occur somewhere in `s`.
pub open spec fn bytes_contain(s: Seq<u8>, p: Seq<u8>) -> bool {
    exists|i: int| bytes_match_at(s, p, i)
}

pub fn bytes_starts_with(v: &[u8], p: &[u8]) -> (r: bool)
    ensures
        r == bytes_start_with(v@, p@),
{
    if p.len() > v.len() {
        return false;
    }
    let mut i: usize = 0;
    while i < p.len()
        invariant
            p@.len() <= v@.len(),
            0 <= i <= p@.len(),
            forall|j: int| 0 <= j < i ==> v@[j] == p@[j],
        decreases p@.len() - i,
    {
        if v[i] != p[i] {
            assert(v@.take(p@.len() as int)[i as int] != p@[i as int]);
            return false;
        }
        i += 1;
    }
    proof {
        assert(v@.take(p@.len() as int) =~= p@);
    }
    true
}

pub fn bytes_ends_with(v: &[u8], p: &[u8]) -> (r: bool)
    ensures
        r == bytes_end_with(v@, p@),
{
    if p.len() > v.len() {
        return false;
    }
    let n = v.len();
    let offset = n - p.len();
    let mut i: usize = 0;
    while i < p.len()
        invariant
            p@.len() <= v@.len(),
            n == v@.len(),
            offset == v@.len() - p@.len(),
            0 <= i <= p@.len(),
            forall|j: int| 0 <= j < i ==> v@[offset + j] == p@[j],
        decreases p@.len() - i,
    {
        if v[offset + i] != p[i] {
            assert(v@.skip(v@.len() - p@.len())[i as int] != p@[i as int]);
            return false;
        }
        i += 1;
    }
    proof {
        assert(v@.skip(v@.len() - p@.len()) =~= p@);
    }
    true
}

fn bytes_matches_at(v: &[u8], p: &[u8], at: usize) -> (r: bool)
    requires
        at + p@.len() <= v@.len(),
    ensures
        r == bytes_match_at(v@, p@, at as int),
{
    let n = v.len();
    let mut i: usize = 0;
    while i < p.len()
        invariant
            at + p@.len() <= v@.len(),
            n == v@.len(),
            0 <= i <= p@.len(),
            forall|j: int| 0 <= j < i ==> v@[at + j] == p@[j],
        decreases p@.len() - i,
    {
        if v[at + i] != p[i] {
            assert(v@.subrange(at as int, at + p@.len())[i as int] != p@[i as int]);
            return false;
        }
        i += 1;
    }
    proof {
        assert(v@.subrange(at as int, at + p@.len()) =~= p@);
    }
    true
}

pub fn bytes_contains(v: &[u8], p: &[u8]) -> (r: bool)
    ensures
        r == bytes_contain(v@, p@),
{
    if p.len() > v.len() {
        assert(forall|i: int| !bytes_match_at(v@, p@, i));
        return false;
    }
    if p.len() == 0 {
        assert(v@.subrange(0, 0) =~= p@);
        assert(bytes_match_at(v@, p@, 0));
        return true;
    }
    let n = v.len();
    let last = n - p.len();
    let mut at: usize = 0;
    loop
        invariant
            0 < p@.len() <= v@.len(),
            n == v@.len(),
            last == v@.len() - p@.len(),
            last < n,
            0 <= at <= last + 1,
            forall|i: int| 0 <= i < at ==> !bytes_match_at(v@, p@, i),
        decreases last + 1 - at,
    {
        if at > last {
            assert(forall|i: int| bytes_match_at(v@, p@, i) ==> 0 <= i <= last);
            return false;
        }
        if bytes_matches_at(v, p, at) {
            return true;
        }
        at += 1;
    }
}

} // verus!
