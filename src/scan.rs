//! Byte classes and searches over a byte sequence, each an executable
//! function proved against the spec function of the same meaning.
use vstd::prelude::*;

verus! {

/// An ASCII letter.
pub open spec fn is_alpha(c: u8) -> bool {
    (0x41 <= c && c <= 0x5a) || (0x61 <= c && c <= 0x7a)
}

/// An ASCII decimal digit.
pub open spec fn is_digit(c: u8) -> bool {
    0x30 <= c && c <= 0x39
}

/// A byte that may follow the first letter of a scheme: a letter, a digit, `+`, `-` or `.`.
pub open spec fn is_scheme_char(c: u8) -> bool {
    is_alpha(c) || is_digit(c) || c == 0x2b || c == 0x2d || c == 0x2e
}

/// A byte that may not stand raw in a URL: a control character or a space.
pub open spec fn is_forbidden(c: u8) -> bool {
    c <= 0x20
}

pub fn alpha(c: u8) -> (r: bool)
    ensures
        r == is_alpha(c),
{
    (0x41 <= c && c <= 0x5a) || (0x61 <= c && c <= 0x7a)
}

pub fn digit(c: u8) -> (r: bool)
    ensures
        r == is_digit(c),
{
    0x30 <= c && c <= 0x39
}

pub fn scheme_char(c: u8) -> (r: bool)
    ensures
        r == is_scheme_char(c),
{
    alpha(c) || digit(c) || c == 0x2b || c == 0x2d || c == 0x2e
}

/// The byte with ASCII upper-case letters mapped to lower case.
pub open spec fn lower_byte(c: u8) -> u8 {
    if 0x41 <= c && c <= 0x5a { (c + 0x20) as u8 } else { c }
}

/// The sequence with every ASCII upper-case letter mapped to lower case.
pub open spec fn lower_seq(s: Seq<u8>) -> Seq<u8> {
    s.map_values(|c: u8| lower_byte(c))
}

/// The first index in `lo..hi` that holds `c`, or `hi` where none does.
pub open spec fn first_of(s: Seq<u8>, c: u8, lo: int, hi: int) -> int
    decreases hi - lo,
{
    if lo >= hi {
        hi
    } else if s[lo] == c {
        lo
    } else {
        first_of(s, c, lo + 1, hi)
    }
}

/// The last index in `lo..hi` that holds `c`, if any does.
pub open spec fn last_of(s: Seq<u8>, c: u8, lo: int, hi: int) -> Option<int>
    decreases hi - lo,
{
    if hi <= lo {
        None
    } else if s[hi - 1] == c {
        Some(hi - 1)
    } else {
        last_of(s, c, lo, hi - 1)
    }
}

/// The first index from `lo` on that is not a scheme byte, or the length.
pub open spec fn scheme_stop(s: Seq<u8>, lo: int) -> int
    decreases s.len() - lo,
{
    if lo >= s.len() {
        s.len() as int
    } else if !is_scheme_char(s[lo]) {
        lo
    } else {
        scheme_stop(s, lo + 1)
    }
}

/// A byte that ends an authority: `/`, `?` or `#`.
pub open spec fn ends_authority(c: u8) -> bool {
    c == 0x2f || c == 0x3f || c == 0x23
}

/// The first index from `lo` on that ends an authority, or the length.
pub open spec fn authority_stop(s: Seq<u8>, lo: int) -> int
    decreases s.len() - lo,
{
    if lo >= s.len() {
        s.len() as int
    } else if ends_authority(s[lo]) {
        lo
    } else {
        authority_stop(s, lo + 1)
    }
}

/// Some byte of `s` is forbidden.
pub open spec fn has_forbidden(s: Seq<u8>) -> bool {
    exists|i: int| 0 <= i < s.len() && is_forbidden(#[trigger] s[i])
}

/// Every byte in `lo..hi` is a digit.
pub open spec fn all_digits(s: Seq<u8>, lo: int, hi: int) -> bool {
    forall|i: int| lo <= i < hi ==> is_digit(#[trigger] s[i])
}

/// The number that the decimal digits in `lo..hi` write.
pub open spec fn digits_value(s: Seq<u8>, lo: int, hi: int) -> nat
    decreases hi - lo,
{
    if hi <= lo {
        0
    } else {
        digits_value(s, lo, hi - 1) * 10 + (s[hi - 1] - 0x30) as nat
    }
}

proof fn lemma_digits_value_grows(s: Seq<u8>, lo: int, mid: int, hi: int)
    requires
        lo <= mid <= hi,
        all_digits(s, lo, hi),
    ensures
        digits_value(s, lo, mid) <= digits_value(s, lo, hi),
    decreases hi - mid,
{
    if mid < hi {
        lemma_digits_value_grows(s, lo, mid, hi - 1);
    }
}

pub fn lower(c: u8) -> (r: u8)
    ensures
        r == lower_byte(c),
{
    if 0x41 <= c && c <= 0x5a { c + 0x20 } else { c }
}

/// The bytes in `lo..hi`, copied.
pub fn copy_range(s: &[u8], lo: usize, hi: usize) -> (r: Vec<u8>)
    requires
        lo <= hi <= s@.len(),
    ensures
        r@ == s@.subrange(lo as int, hi as int),
{
    let mut r: Vec<u8> = Vec::new();
    let mut i: usize = lo;
    while i < hi
        invariant
            lo <= i <= hi <= s@.len(),
            r@ =~= s@.subrange(lo as int, i as int),
        decreases hi - i,
    {
        r.push(s[i]);
        i = i + 1;
    }
    r
}

/// The bytes in `lo..hi` with upper-case letters made lower case.
pub fn lowercase_range(s: &[u8], lo: usize, hi: usize) -> (r: Vec<u8>)
    requires
        lo <= hi <= s@.len(),
    ensures
        r@ == lower_seq(s@.subrange(lo as int, hi as int)),
{
    let mut r: Vec<u8> = Vec::new();
    let mut i: usize = lo;
    while i < hi
        invariant
            lo <= i <= hi <= s@.len(),
            r@ =~= lower_seq(s@.subrange(lo as int, i as int)),
        decreases hi - i,
    {
        r.push(lower(s[i]));
        i = i + 1;
    }
    assert(r@ =~= lower_seq(s@.subrange(lo as int, hi as int)));
    r
}

pub fn find_first(s: &[u8], c: u8, lo: usize, hi: usize) -> (r: usize)
    requires
        lo <= hi <= s@.len(),
    ensures
        r as int == first_of(s@, c, lo as int, hi as int),
        lo <= r <= hi,
{
    let mut i: usize = lo;
    while i < hi
        invariant
            lo <= i <= hi <= s@.len(),
            first_of(s@, c, lo as int, hi as int) == first_of(s@, c, i as int, hi as int),
        decreases hi - i,
    {
        if s[i] == c {
            return i;
        }
        i = i + 1;
    }
    i
}

pub fn find_last(s: &[u8], c: u8, lo: usize, hi: usize) -> (r: Option<usize>)
    requires
        lo <= hi <= s@.len(),
    ensures
        match r {
            Some(i) => last_of(s@, c, lo as int, hi as int) == Some(i as int),
            None => last_of(s@, c, lo as int, hi as int) is None,
        },
        r matches Some(i) ==> lo <= i < hi && s@[i as int] == c,
{
    let mut j: usize = hi;
    while j > lo
        invariant
            lo <= j <= hi <= s@.len(),
            last_of(s@, c, lo as int, hi as int) == last_of(s@, c, lo as int, j as int),
        decreases j - lo,
    {
        if s[j - 1] == c {
            return Some(j - 1);
        }
        j = j - 1;
    }
    None
}

pub fn find_scheme_stop(s: &[u8], lo: usize) -> (r: usize)
    requires
        lo <= s@.len(),
    ensures
        r as int == scheme_stop(s@, lo as int),
        lo <= r <= s@.len(),
{
    let mut i: usize = lo;
    while i < s.len()
        invariant
            lo <= i <= s@.len(),
            scheme_stop(s@, lo as int) == scheme_stop(s@, i as int),
        decreases s@.len() - i,
    {
        if !scheme_char(s[i]) {
            return i;
        }
        i = i + 1;
    }
    i
}

pub fn find_authority_stop(s: &[u8], lo: usize) -> (r: usize)
    requires
        lo <= s@.len(),
    ensures
        r as int == authority_stop(s@, lo as int),
        lo <= r <= s@.len(),
{
    let mut i: usize = lo;
    while i < s.len()
        invariant
            lo <= i <= s@.len(),
            authority_stop(s@, lo as int) == authority_stop(s@, i as int),
        decreases s@.len() - i,
    {
        let c = s[i];
        if c == 0x2f || c == 0x3f || c == 0x23 {
            return i;
        }
        i = i + 1;
    }
    i
}

pub fn any_forbidden(s: &[u8]) -> (r: bool)
    ensures
        r == has_forbidden(s@),
{
    let mut i: usize = 0;
    while i < s.len()
        invariant
            i <= s@.len(),
            forall|j: int| 0 <= j < i ==> !is_forbidden(#[trigger] s@[j]),
        decreases s@.len() - i,
    {
        if s[i] <= 0x20 {
            return true;
        }
        i = i + 1;
    }
    false
}

pub fn only_digits(s: &[u8], lo: usize, hi: usize) -> (r: bool)
    requires
        lo <= hi <= s@.len(),
    ensures
        r == all_digits(s@, lo as int, hi as int),
{
    let mut i: usize = lo;
    while i < hi
        invariant
            lo <= i <= hi <= s@.len(),
            all_digits(s@, lo as int, i as int),
        decreases hi - i,
    {
        if !digit(s[i]) {
            return false;
        }
        i = i + 1;
    }
    true
}

/// The number that the digits in `lo..hi` write, where it fits in 16 bits.
pub fn port_value(s: &[u8], lo: usize, hi: usize) -> (r: Option<u16>)
    requires
        lo <= hi <= s@.len(),
        all_digits(s@, lo as int, hi as int),
    ensures
        match r {
            Some(v) => v as nat == digits_value(s@, lo as int, hi as int),
            None => digits_value(s@, lo as int, hi as int) > 0xffff,
        },
{
    let mut v: u32 = 0;
    let mut i: usize = lo;
    while i < hi
        invariant
            lo <= i <= hi <= s@.len(),
            all_digits(s@, lo as int, hi as int),
            v as nat == digits_value(s@, lo as int, i as int),
            v <= 0xffff,
        decreases hi - i,
    {
        assert(is_digit(s@[i as int]));
        v = v * 10 + (s[i] - 0x30) as u32;
        i = i + 1;
        if v > 0xffff {
            proof {
                lemma_digits_value_grows(s@, lo as int, i as int, hi as int);
            }
            return None;
        }
    }
    Some(v as u16)
}

} // verus!
