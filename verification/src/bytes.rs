//! Byte-sequence utilities shared by the router and the resolvers: equality,
//! suffix tests, separator splitting, percent-space decoding and decimal
//! parsing, each specified exactly over `Seq<u8>`.

use vstd::prelude::*;

verus! {

/// Whether two byte slices hold the same bytes.
pub fn bytes_eq(a: &[u8], b: &[u8]) -> (r: bool)
    ensures
        r == (a@ == b@),
{
    if a.len() != b.len() {
        assert(a@ != b@) by {
            assert(a@.len() != b@.len());
        }
        return false;
    }
    let n = a.len();
    let mut i: usize = 0;
    while i < n
        invariant
            n == a@.len() == b@.len(),
            0 <= i <= n,
            forall|j: int| 0 <= j < i ==> a@[j] == b@[j],
        decreases n - i,
    {
        if a[i] != b[i] {
            return false;
        }
        i += 1;
    }
    proof {
        assert(a@ =~= b@);
    }
    true
}

/// Whether `s` ends with `suffix`.
pub open spec fn spec_ends_with(s: Seq<u8>, suffix: Seq<u8>) -> bool {
    s.len() >= suffix.len() && s.subrange(s.len() - suffix.len(), s.len() as int) == suffix
}

/// Whether `s` ends with the bytes of `suffix`.
pub fn ends_with(s: &[u8], suffix: &[u8]) -> (r: bool)
    ensures
        r == spec_ends_with(s@, suffix@),
{
    if s.len() < suffix.len() {
        return false;
    }
    let off = s.len() - suffix.len();
    let n = suffix.len();
    let mut i: usize = 0;
    while i < n
        invariant
            n == suffix@.len(),
            off == s@.len() - n,
            s@.len() >= n,
            off + n <= usize::MAX,
            0 <= i <= n,
            forall|j: int| 0 <= j < i ==> s@[off + j] == suffix@[j],
        decreases n - i,
    {
        if s[off + i] != suffix[i] {
            assert(s@.subrange(off as int, s@.len() as int)[i as int] != suffix@[i as int]);
            return false;
        }
        i += 1;
    }
    proof {
        assert(s@.subrange(off as int, s@.len() as int) =~= suffix@);
    }
    true
}

/// The prefix of `s` that precedes the given suffix.
pub fn strip_suffix(s: &[u8], suffix_len: usize) -> (r: Vec<u8>)
    requires
        suffix_len <= s@.len(),
    ensures
        r@ == s@.subrange(0, s@.len() - suffix_len),
{
    let end = s.len() - suffix_len;
    let mut r: Vec<u8> = Vec::new();
    let mut i: usize = 0;
    while i < end
        invariant
            end == s@.len() - suffix_len,
            end <= s@.len(),
            0 <= i <= end,
            r@ == s@.subrange(0, i as int),
        decreases end - i,
    {
        r.push(s[i]);
        proof {
            assert(r@ =~= s@.subrange(0, i + 1 as int));
        }
        i += 1;
    }
    r
}

/// The parts of `s` between occurrences of `sep`, in order: splitting the
/// empty sequence gives one empty part, and every occurrence of `sep`
/// separates two parts.
pub open spec fn spec_split(s: Seq<u8>, sep: u8) -> Seq<Seq<u8>>
    decreases s.len(),
{
    if s.len() == 0 {
        seq![Seq::empty()]
    } else if s[0] == sep {
        seq![Seq::<u8>::empty()] + spec_split(s.skip(1), sep)
    } else {
        let rest = spec_split(s.skip(1), sep);
        seq![seq![s[0]] + rest[0]] + rest.skip(1)
    }
}

fn split_from(s: &[u8], from: usize, sep: u8) -> (parts: Vec<Vec<u8>>)
    requires
        from <= s@.len(),
    ensures
        parts@.map_values(|p: Vec<u8>| p@) == spec_split(s@.skip(from as int), sep),
        parts@.len() >= 1,
    decreases s@.len() - from,
{
    if from == s.len() {
        let mut parts: Vec<Vec<u8>> = Vec::new();
        parts.push(Vec::new());
        proof {
            assert(s@.skip(from as int) =~= Seq::<u8>::empty());
            assert(parts@.map_values(|p: Vec<u8>| p@) =~= spec_split(s@.skip(from as int), sep));
        }
        parts
    } else {
        let b = s[from];
        let mut rest = split_from(s, from + 1, sep);
        proof {
            assert(s@.skip(from as int).skip(1) =~= s@.skip(from + 1));
            assert(s@.skip(from as int)[0] == s@[from as int]);
        }
        if b == sep {
            rest.insert(0, Vec::new());
            proof {
                assert(rest@.map_values(|p: Vec<u8>| p@) =~= spec_split(
                    s@.skip(from as int),
                    sep,
                ));
            }
            rest
        } else {
            let mut first = rest.remove(0);
            first.insert(0, b);
            rest.insert(0, first);
            proof {
                let m = rest@.map_values(|p: Vec<u8>| p@);
                let sp = spec_split(s@.skip(from as int), sep);
                let rsp = spec_split(s@.skip(from + 1), sep);
                assert(m[0] =~= seq![s@[from as int]] + rsp[0]);
                assert(m =~= sp);
            }
            rest
        }
    }
}

/// Splits `s` at every occurrence of `sep`.
pub fn split_bytes(s: &[u8], sep: u8) -> (parts: Vec<Vec<u8>>)
    ensures
        parts@.map_values(|p: Vec<u8>| p@) == spec_split(s@, sep),
        parts@.len() >= 1,
{
    let parts = split_from(s, 0, sep);
    proof {
        assert(s@.skip(0) =~= s@);
    }
    parts
}

/// ASCII bytes the router and the resolvers match on.
pub const BYTE_SPACE: u8 = 32;

pub const BYTE_PERCENT: u8 = 37;

pub const BYTE_COMMA: u8 = 44;

pub const BYTE_DOT: u8 = 46;

pub const BYTE_AMPERSAND: u8 = 38;

pub const BYTE_EQUALS: u8 = 61;

pub const BYTE_SLASH: u8 = 47;

pub const BYTE_ZERO: u8 = 48;

pub const BYTE_TWO: u8 = 50;

pub const BYTE_NINE: u8 = 57;

/// Appends all bytes of `src` to `dst`.
pub fn extend_bytes(dst: &mut Vec<u8>, src: &[u8])
    ensures
        final(dst)@ == old(dst)@ + src@,
{
    let n = src.len();
    let mut i: usize = 0;
    while i < n
        invariant
            n == src@.len(),
            0 <= i <= n,
            dst@ == old(dst)@ + src@.subrange(0, i as int),
        decreases n - i,
    {
        dst.push(src[i]);
        proof {
            assert(old(dst)@ + src@.subrange(0, i + 1 as int) =~= (old(dst)@ + src@.subrange(
                0,
                i as int,
            )).push(src@[i as int]));
        }
        i += 1;
    }
    proof {
        assert(src@.subrange(0, n as int) =~= src@);
    }
}

/// `s` with every occurrence of `%20` replaced by a space, scanned left to
/// right.
pub open spec fn spec_decode_spaces(s: Seq<u8>) -> Seq<u8>
    decreases s.len(),
{
    if s.len() == 0 {
        Seq::empty()
    } else if s.len() >= 3 && s[0] == BYTE_PERCENT && s[1] == BYTE_TWO && s[2] == BYTE_ZERO {
        seq![BYTE_SPACE] + spec_decode_spaces(s.skip(3))
    } else {
        seq![s[0]] + spec_decode_spaces(s.skip(1))
    }
}

fn decode_spaces_from(s: &[u8], from: usize) -> (r: Vec<u8>)
    requires
        from <= s@.len(),
    ensures
        r@ == spec_decode_spaces(s@.skip(from as int)),
    decreases s@.len() - from,
{
    if from == s.len() {
        let r: Vec<u8> = Vec::new();
        proof {
            assert(s@.skip(from as int) =~= Seq::<u8>::empty());
        }
        r
    } else if s.len() - from > 2 && s[from] == BYTE_PERCENT && s[from + 1] == BYTE_TWO && s[from + 2] == BYTE_ZERO {
        let mut r = decode_spaces_from(s, from + 3);
        r.insert(0, BYTE_SPACE);
        proof {
            assert(s@.skip(from as int).skip(3) =~= s@.skip(from + 3));
            assert(r@ =~= spec_decode_spaces(s@.skip(from as int)));
        }
        r
    } else {
        let mut r = decode_spaces_from(s, from + 1);
        r.insert(0, s[from]);
        proof {
            assert(s@.skip(from as int).skip(1) =~= s@.skip(from + 1));
            assert(s@.skip(from as int)[0] == s@[from as int]);
            assert(r@ =~= spec_decode_spaces(s@.skip(from as int)));
        }
        r
    }
}

/// Replaces every `%20` in `s` by a space, as a percent-encoded font family
/// name requires.
pub fn decode_spaces(s: &[u8]) -> (r: Vec<u8>)
    ensures
        r@ == spec_decode_spaces(s@),
{
    let r = decode_spaces_from(s, 0);
    proof {
        assert(s@.skip(0) =~= s@);
    }
    r
}

/// Whether `b` is an ASCII decimal digit.
pub open spec fn is_digit(b: u8) -> bool {
    BYTE_ZERO <= b && b <= BYTE_NINE
}

/// Whether every byte of `s` is an ASCII decimal digit.
pub open spec fn all_digits(s: Seq<u8>) -> bool {
    forall|i: int| 0 <= i < s.len() ==> is_digit(s[i])
}

/// The number written by the digit bytes of `s`, most significant first.
pub open spec fn digits_value(s: Seq<u8>) -> nat
    decreases s.len(),
{
    if s.len() == 0 {
        0
    } else {
        digits_value(s.drop_last()) * 10 + (s.last() - BYTE_ZERO) as nat
    }
}

/// Parses `s` as an unsigned decimal number. Returns the value exactly when
/// `s` is a nonempty digit string whose value fits in a `u32`.
pub fn parse_u32(s: &[u8]) -> (r: Option<u32>)
    ensures
        match r {
            Some(n) => s@.len() > 0 && all_digits(s@) && digits_value(s@) <= u32::MAX && n
                == digits_value(s@),
            None => s@.len() == 0 || !all_digits(s@) || digits_value(s@) > u32::MAX,
        },
{
    let n = s.len();
    if n == 0 {
        return None;
    }
    let mut acc: u32 = 0;
    let mut too_big: bool = false;
    let mut i: usize = 0;
    while i < n
        invariant
            n == s@.len(),
            0 <= i <= n,
            forall|j: int| 0 <= j < i ==> is_digit(s@[j]),
            !too_big ==> acc == digits_value(s@.subrange(0, i as int)),
            too_big ==> digits_value(s@.subrange(0, i as int)) > u32::MAX,
        decreases n - i,
    {
        let b = s[i];
        if b < BYTE_ZERO || b > BYTE_NINE {
            return None;
        }
        let d = b - BYTE_ZERO;
        proof {
            assert(s@.subrange(0, i + 1 as int).drop_last() =~= s@.subrange(0, i as int));
            assert(digits_value(s@.subrange(0, i + 1 as int)) == digits_value(
                s@.subrange(0, i as int),
            ) * 10 + d as nat);
        }
        if !too_big {
            let wide: u64 = acc as u64 * 10 + d as u64;
            if wide > u32::MAX as u64 {
                too_big = true;
            } else {
                acc = wide as u32;
            }
        }
        i += 1;
    }
    proof {
        assert(s@.subrange(0, n as int) =~= s@);
    }
    if too_big {
        None
    } else {
        Some(acc)
    }
}

/// Parses `s` as an unsigned decimal number that fits in a `u8`.
pub fn parse_u8(s: &[u8]) -> (r: Option<u8>)
    ensures
        match r {
            Some(n) => s@.len() > 0 && all_digits(s@) && digits_value(s@) <= u8::MAX && n
                == digits_value(s@),
            None => s@.len() == 0 || !all_digits(s@) || digits_value(s@) > u8::MAX,
        },
{
    match parse_u32(s) {
        Some(n) => if n <= u8::MAX as u32 {
            Some(n as u8)
        } else {
            None
        },
        None => None,
    }
}

/// The decimal digit string of `n`, most significant first, no leading zeros.
pub open spec fn spec_dec(n: nat) -> Seq<u8>
    decreases n,
{
    if n < 10 {
        seq![(BYTE_ZERO + n) as u8]
    } else {
        spec_dec(n / 10) + seq![(BYTE_ZERO + n % 10) as u8]
    }
}

/// Renders `n` in decimal.
pub fn u64_to_dec(n: u64) -> (r: Vec<u8>)
    ensures
        r@ == spec_dec(n as nat),
    decreases n,
{
    if n < 10 {
        let mut r: Vec<u8> = Vec::new();
        r.push(BYTE_ZERO + n as u8);
        proof {
            assert(r@ =~= spec_dec(n as nat));
        }
        r
    } else {
        let mut r = u64_to_dec(n / 10);
        r.push(BYTE_ZERO + (n % 10) as u8);
        proof {
            assert(r@ =~= spec_dec(n as nat));
        }
        r
    }
}

/// All bytes of `s` after the first.
pub fn skip_first(s: &[u8]) -> (r: Vec<u8>)
    requires
        s@.len() >= 1,
    ensures
        r@ == s@.skip(1),
{
    let mut r: Vec<u8> = Vec::new();
    let n = s.len();
    let mut i: usize = 1;
    while i < n
        invariant
            n == s@.len(),
            1 <= i <= n,
            r@ == s@.subrange(1, i as int),
        decreases n - i,
    {
        r.push(s[i]);
        proof {
            assert(r@ =~= s@.subrange(1, i + 1 as int));
        }
        i += 1;
    }
    proof {
        assert(s@.subrange(1, n as int) =~= s@.skip(1));
    }
    r
}

/// A copy of `s` as an owned vector.
pub fn copy_bytes(s: &[u8]) -> (r: Vec<u8>)
    ensures
        r@ == s@,
{
    let mut r: Vec<u8> = Vec::new();
    extend_bytes(&mut r, s);
    proof {
        assert(r@ =~= s@);
    }
    r
}

/// The smallest index holding `b`, if any.
pub open spec fn spec_find(s: Seq<u8>, b: u8) -> Option<int>
    decreases s.len(),
{
    if s.len() == 0 {
        None
    } else if s[0] == b {
        Some(0int)
    } else {
        match spec_find(s.skip(1), b) {
            Some(i) => Some(i + 1),
            None => None,
        }
    }
}

/// What `spec_find` returns: the first occurrence, or nothing when the byte
/// is absent.
pub proof fn lemma_find_first(s: Seq<u8>, b: u8)
    ensures
        match spec_find(s, b) {
            Some(i) => 0 <= i < s.len() && s[i] == b && forall|j: int| 0 <= j < i ==> s[j] != b,
            None => forall|j: int| 0 <= j < s.len() ==> s[j] != b,
        },
    decreases s.len(),
{
    if s.len() > 0 && s[0] != b {
        lemma_find_first(s.skip(1), b);
        match spec_find(s.skip(1), b) {
            Some(i) => {
                assert(s.skip(1)[i] == s[i + 1]);
                assert forall|j: int| 0 <= j < i + 1 implies s[j] != b by {
                    if j >= 1 {
                        assert(s.skip(1)[j - 1] == s[j]);
                    }
                }
            },
            None => {
                assert forall|j: int| 0 <= j < s.len() implies s[j] != b by {
                    if j >= 1 {
                        assert(s.skip(1)[j - 1] == s[j]);
                    }
                }
            },
        }
    }
}

/// Finds the first occurrence of `b` in `s`.
pub fn find_byte(s: &[u8], b: u8) -> (r: Option<usize>)
    ensures
        match r {
            Some(i) => i < s@.len() && s@[i as int] == b && spec_find(s@, b) == Some(i as int),
            None => spec_find(s@, b) is None,
        },
{
    let n = s.len();
    let mut i: usize = 0;
    while i < n
        invariant
            n == s@.len(),
            0 <= i <= n,
            forall|j: int| 0 <= j < i ==> s@[j] != b,
        decreases n - i,
    {
        if s[i] == b {
            proof {
                lemma_find_first(s@, b);
                if spec_find(s@, b) is None {
                    assert(false);
                }
                let k = spec_find(s@, b).unwrap();
                if k < i {
                    assert(s@[k] == b);
                    assert(false);
                }
                if k > i {
                    assert(s@[i as int] != b);
                    assert(false);
                }
            }
            return Some(i);
        }
        i += 1;
    }
    proof {
        lemma_find_first(s@, b);
        if spec_find(s@, b) is Some {
            let k = spec_find(s@, b).unwrap();
            assert(s@[k] == b);
            assert(false);
        }
    }
    None
}

/// A copy of `s[from..to]` as an owned vector.
pub fn sub_bytes(s: &[u8], from: usize, to: usize) -> (r: Vec<u8>)
    requires
        from <= to <= s@.len(),
    ensures
        r@ == s@.subrange(from as int, to as int),
{
    let mut r: Vec<u8> = Vec::new();
    let mut i: usize = from;
    while i < to
        invariant
            from <= i <= to <= s@.len(),
            r@ == s@.subrange(from as int, i as int),
        decreases to - i,
    {
        r.push(s[i]);
        proof {
            assert(r@ =~= s@.subrange(from as int, i + 1 as int));
        }
        i += 1;
    }
    r
}

} // verus!
