//! ASCII byte helpers shared by the wire codec and the header scanner:
//! whitespace trimming, case folding, and digit classification.

use vstd::prelude::*;
use vstd::slice::slice_subrange;

verus! {

/// ASCII whitespace as trimmed from header values and chunk-size lines.
pub open spec fn is_ws(b: u8) -> bool {
    b == 32 || b == 9 || b == 13 || b == 10
}

pub open spec fn spec_trim_end(s: Seq<u8>) -> Seq<u8>
    decreases s.len(),
{
    if s.len() > 0 && is_ws(s.last()) {
        spec_trim_end(s.drop_last())
    } else {
        s
    }
}

pub open spec fn spec_trim_start(s: Seq<u8>) -> Seq<u8>
    decreases s.len(),
{
    if s.len() > 0 && is_ws(s[0]) {
        spec_trim_start(s.skip(1))
    } else {
        s
    }
}

/// A byte sequence with ASCII whitespace removed from both ends.
pub open spec fn spec_trim(s: Seq<u8>) -> Seq<u8> {
    spec_trim_start(spec_trim_end(s))
}

fn ws_byte(b: u8) -> (r: bool)
    ensures
        r == is_ws(b),
{
    b == 32 || b == 9 || b == 13 || b == 10
}

/// Returns the subslice of `s` with ASCII whitespace removed from both ends.
pub fn trim(s: &[u8]) -> (r: &[u8])
    ensures
        r@ == spec_trim(s@),
{
    let mut end: usize = s.len();
    proof {
        assert(s@.subrange(0, s@.len() as int) =~= s@);
    }
    while end > 0 && ws_byte(s[end - 1])
        invariant
            end <= s@.len(),
            spec_trim_end(s@) == spec_trim_end(s@.subrange(0, end as int)),
        decreases end,
    {
        proof {
            let t = s@.subrange(0, end as int);
            assert(t.last() == s@[end - 1]);
            assert(t.drop_last() =~= s@.subrange(0, end - 1));
        }
        end = end - 1;
    }
    proof {
        let t = s@.subrange(0, end as int);
        assert(spec_trim_end(t) == t);
    }
    let mut start: usize = 0;
    while start < end && ws_byte(s[start])
        invariant
            start <= end <= s@.len(),
            spec_trim(s@) == spec_trim_start(s@.subrange(start as int, end as int)),
        decreases end - start,
    {
        proof {
            let t = s@.subrange(start as int, end as int);
            assert(t[0] == s@[start as int]);
            assert(t.skip(1) =~= s@.subrange(start + 1, end as int));
        }
        start = start + 1;
    }
    proof {
        let t = s@.subrange(start as int, end as int);
        assert(spec_trim_start(t) == t);
    }
    slice_subrange(s, start, end)
}

/// ASCII lower-casing of one byte, as used for header-name comparison.
pub open spec fn spec_lower(b: u8) -> u8 {
    if 65 <= b && b <= 90 {
        (b + 32) as u8
    } else {
        b
    }
}

/// ASCII lower-casing of a byte sequence.
pub open spec fn spec_lower_seq(s: Seq<u8>) -> Seq<u8> {
    s.map_values(|b: u8| spec_lower(b))
}

fn lower_byte(b: u8) -> (r: u8)
    ensures
        r == spec_lower(b),
{
    if 65 <= b && b <= 90 {
        b + 32
    } else {
        b
    }
}

/// The index of the first occurrence of `b` in `s`, if any.
pub open spec fn spec_find_byte(s: Seq<u8>, b: u8) -> Option<int>
    decreases s.len(),
{
    if s.len() == 0 {
        None
    } else if s[0] == b {
        Some(0)
    } else {
        match spec_find_byte(s.skip(1), b) {
            None => None,
            Some(i) => Some(i + 1),
        }
    }
}

/// What a found index means: it is in range, holds `b`, and nothing
/// before it does; absence means no byte of `s` is `b`.
pub proof fn lemma_find_byte(s: Seq<u8>, b: u8)
    ensures
        match spec_find_byte(s, b) {
            Some(i) => 0 <= i < s.len() && s[i] == b && forall|j: int| 0 <= j < i ==> s[j] != b,
            None => forall|j: int| 0 <= j < s.len() ==> s[j] != b,
        },
    decreases s.len(),
{
    if s.len() > 0 && s[0] != b {
        lemma_find_byte(s.skip(1), b);
        match spec_find_byte(s.skip(1), b) {
            Some(i) => {
                assert(s.skip(1)[i] == s[i + 1]);
                assert forall|j: int| 0 <= j < i + 1 implies s[j] != b by {
                    if j > 0 {
                        assert(s.skip(1)[j - 1] == s[j]);
                    }
                }
            },
            None => {
                assert forall|j: int| 0 <= j < s.len() implies s[j] != b by {
                    if j > 0 {
                        assert(s.skip(1)[j - 1] == s[j]);
                    }
                }
            },
        }
    }
}

/// A first occurrence pins the result of the search down.
pub proof fn lemma_find_byte_first(s: Seq<u8>, b: u8, k: int)
    requires
        0 <= k < s.len(),
        s[k] == b,
        forall|j: int| 0 <= j < k ==> s[j] != b,
    ensures
        spec_find_byte(s, b) == Some(k),
    decreases k,
{
    if k > 0 {
        lemma_find_byte_first(s.skip(1), b, k - 1);
    }
}

/// Finds the first occurrence of `b` in `s`.
pub fn find_byte(s: &[u8], b: u8) -> (r: Option<usize>)
    ensures
        match spec_find_byte(s@, b) {
            None => r is None,
            Some(i) => r matches Some(v) && v == i,
        },
{
    let mut i: usize = 0;
    while i < s.len()
        invariant
            i <= s@.len(),
            forall|j: int| 0 <= j < i ==> s@[j] != b,
        decreases s@.len() - i,
    {
        if s[i] == b {
            proof {
                lemma_find_byte_first(s@, b, i as int);
            }
            return Some(i);
        }
        i = i + 1;
    }
    proof {
        lemma_find_byte(s@, b);
    }
    None
}

/// Compares two byte strings for exact equality.
pub fn bytes_eq(a: &[u8], b: &[u8]) -> (r: bool)
    ensures
        r == (a@ == b@),
{
    if a.len() != b.len() {
        return false;
    }
    let mut i: usize = 0;
    while i < a.len()
        invariant
            i <= a@.len(),
            a@.len() == b@.len(),
            forall|j: int| 0 <= j < i ==> a@[j] == b@[j],
        decreases a@.len() - i,
    {
        if a[i] != b[i] {
            return false;
        }
        i = i + 1;
    }
    proof {
        assert(a@ =~= b@);
    }
    true
}

/// Whether `s` lower-cased equals `t` (callers pass `t` already lower-case).
pub fn lower_matches(s: &[u8], t: &[u8]) -> (r: bool)
    ensures
        r == (spec_lower_seq(s@) == t@),
{
    if s.len() != t.len() {
        proof {
            assert(spec_lower_seq(s@).len() == s@.len());
        }
        return false;
    }
    let mut i: usize = 0;
    while i < s.len()
        invariant
            i <= s@.len(),
            s@.len() == t@.len(),
            forall|j: int| 0 <= j < i ==> spec_lower(s@[j]) == t@[j],
        decreases s@.len() - i,
    {
        if lower_byte(s[i]) != t[i] {
            proof {
                assert(spec_lower_seq(s@)[i as int] != t@[i as int]);
            }
            return false;
        }
        i = i + 1;
    }
    proof {
        assert(spec_lower_seq(s@) =~= t@);
    }
    true
}

/// Appends all of `s` to `out`.
pub fn push_all(out: &mut Vec<u8>, s: &[u8])
    ensures
        final(out)@ == old(out)@.add(s@),
{
    let mut i: usize = 0;
    while i < s.len()
        invariant
            i <= s@.len(),
            out@ == old(out)@.add(s@.take(i as int)),
        decreases s@.len() - i,
    {
        out.push(s[i]);
        proof {
            assert(s@.take(i + 1) =~= s@.take(i as int).push(s@[i as int]));
        }
        i = i + 1;
    }
    proof {
        assert(s@.take(s@.len() as int) =~= s@);
    }
}

pub open spec fn is_digit(b: u8) -> bool {
    48 <= b && b <= 57
}

pub open spec fn is_hex_digit(b: u8) -> bool {
    is_digit(b) || (97 <= b && b <= 102) || (65 <= b && b <= 70)
}

/// Numeric value of one hexadecimal digit byte.
pub open spec fn hex_digit_val(b: u8) -> nat {
    if is_digit(b) {
        (b - 48) as nat
    } else if 97 <= b && b <= 102 {
        (b - 87) as nat
    } else if 65 <= b && b <= 70 {
        (b - 55) as nat
    } else {
        0
    }
}

/// Value of a big-endian sequence of hexadecimal digit bytes.
pub open spec fn spec_hex_value(s: Seq<u8>) -> nat
    decreases s.len(),
{
    if s.len() == 0 {
        0
    } else {
        spec_hex_value(s.drop_last()) * 16 + hex_digit_val(s.last())
    }
}

/// Value of a big-endian sequence of decimal digit bytes.
pub open spec fn spec_dec_value(s: Seq<u8>) -> nat
    decreases s.len(),
{
    if s.len() == 0 {
        0
    } else {
        spec_dec_value(s.drop_last()) * 10 + (s.last() - 48) as nat
    }
}

/// A decimal value never shrinks as digits are appended.
pub proof fn lemma_dec_value_grows(s: Seq<u8>, m: int)
    requires
        0 <= m <= s.len(),
    ensures
        spec_dec_value(s.take(m)) <= spec_dec_value(s),
    decreases s.len(),
{
    if m < s.len() {
        assert(s.drop_last().take(m) =~= s.take(m));
        lemma_dec_value_grows(s.drop_last(), m);
    } else {
        assert(s.take(m) =~= s);
    }
}

/// A hexadecimal value never shrinks as digits are appended.
pub proof fn lemma_hex_value_grows(s: Seq<u8>, m: int)
    requires
        0 <= m <= s.len(),
    ensures
        spec_hex_value(s.take(m)) <= spec_hex_value(s),
    decreases s.len(),
{
    if m < s.len() {
        assert(s.drop_last().take(m) =~= s.take(m));
        lemma_hex_value_grows(s.drop_last(), m);
    } else {
        assert(s.take(m) =~= s);
    }
}

/// The maximal leading run of hexadecimal digit bytes.
pub open spec fn spec_hex_prefix(s: Seq<u8>) -> Seq<u8>
    decreases s.len(),
{
    if s.len() > 0 && is_hex_digit(s[0]) {
        seq![s[0]].add(spec_hex_prefix(s.skip(1)))
    } else {
        Seq::empty()
    }
}

pub open spec fn all_digits(s: Seq<u8>) -> bool {
    forall|i: int| 0 <= i < s.len() ==> is_digit(#[trigger] s[i])
}

/// The lower-case hexadecimal digit for a value below 16.
pub open spec fn hex_digit_of(d: nat) -> u8 {
    if d < 10 {
        (48 + d) as u8
    } else {
        (87 + d) as u8
    }
}

/// The minimal lower-case hexadecimal representation of `n` (`0` for zero).
pub open spec fn spec_hex_bytes(n: nat) -> Seq<u8>
    decreases n,
{
    if n < 16 {
        seq![hex_digit_of(n)]
    } else {
        spec_hex_bytes(n / 16).push(hex_digit_of(n % 16))
    }
}

pub fn digit_byte(b: u8) -> (r: bool)
    ensures
        r == is_digit(b),
{
    48 <= b && b <= 57
}

pub fn hex_digit_byte(b: u8) -> (r: bool)
    ensures
        r == is_hex_digit(b),
{
    (48 <= b && b <= 57) || (97 <= b && b <= 102) || (65 <= b && b <= 70)
}

pub fn hex_val_byte(b: u8) -> (r: u8)
    requires
        is_hex_digit(b),
    ensures
        r == hex_digit_val(b),
{
    if 48 <= b && b <= 57 {
        b - 48
    } else if 97 <= b && b <= 102 {
        b - 87
    } else {
        b - 55
    }
}

pub fn hex_digit_byte_of(d: u8) -> (r: u8)
    requires
        d < 16,
    ensures
        r == hex_digit_of(d as nat),
{
    if d < 10 {
        48 + d
    } else {
        87 + d
    }
}

} // verus!
