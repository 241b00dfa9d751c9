//! Build-time descriptor compiler: turns declarative descriptors (hexadecimal
//! offsets, wildcard byte patterns, foreign-function signatures) into typed
//! constants consumed by the runtime engine.
//!
//! Offsets are parsed strictly: a malformed hex string aborts compilation,
//! naming the offending entry. Byte-pattern tokens are parsed leniently: any
//! token that is not a hex byte becomes a wildcard.

use vstd::prelude::*;

verus! {

/// True for an ASCII hexadecimal digit.
pub open spec fn is_hex_digit(b: u8) -> bool {
    ('0' <= b as char <= '9') || ('a' <= b as char <= 'f') || ('A' <= b as char <= 'F')
}

/// Numeric value of an ASCII hexadecimal digit: the distance from `'0'`,
/// `'a' - 10`, or `'A' - 10` respectively.
pub open spec fn hex_digit_value(b: u8) -> int {
    if '0' <= b as char <= '9' {
        b - 48
    } else if 'a' <= b as char <= 'f' {
        b - 87
    } else {
        b - 55
    }
}

/// Every byte of `s` is an ASCII hexadecimal digit.
pub open spec fn all_hex_digits(s: Seq<u8>) -> bool {
    forall|i: int| 0 <= i < s.len() ==> is_hex_digit(#[trigger] s[i])
}

/// The integer a sequence of hexadecimal digits denotes, most significant
/// digit first. Leading zeros are allowed and do not change the value.
pub open spec fn hex_value(s: Seq<u8>) -> int
    decreases s.len(),
{
    if s.len() == 0 {
        0
    } else {
        hex_value(s.drop_last()) * 16 + hex_digit_value(s.last())
    }
}

/// `s` without a single optional leading `0x`.
pub open spec fn strip_hex_prefix(s: Seq<u8>) -> Seq<u8> {
    if s.len() >= 2 && s[0] as char == '0' && s[1] as char == 'x' {
        s.subrange(2, s.len() as int)
    } else {
        s
    }
}

/// A well-formed offset descriptor value: after stripping the optional `0x`
/// prefix, a non-empty run of hex digits denoting a value that fits in `u64`.
pub open spec fn valid_hex_offset(s: Seq<u8>) -> bool {
    let t = strip_hex_prefix(s);
    t.len() > 0 && all_hex_digits(t) && hex_value(t) <= u64::MAX
}

/// The value of a run of hex digits is never negative.
pub proof fn lemma_hex_value_nonneg(s: Seq<u8>)
    requires
        all_hex_digits(s),
    ensures
        hex_value(s) >= 0,
    decreases s.len(),
{
    if s.len() > 0 {
        assert(all_hex_digits(s.drop_last())) by {
            assert(forall|i: int| 0 <= i < s.len() - 1 ==> s.drop_last()[i] == #[trigger] s[i]);
        }
        lemma_hex_value_nonneg(s.drop_last());
    }
}

/// Appending further hex digits never decreases the denoted value.
pub proof fn lemma_hex_value_extend_ge(s: Seq<u8>, t: Seq<u8>)
    requires
        all_hex_digits(s),
        all_hex_digits(t),
    ensures
        hex_value(s + t) >= hex_value(s),
    decreases t.len(),
{
    lemma_hex_value_nonneg(s);
    if t.len() == 0 {
        assert(s + t =~= s);
    } else {
        assert(all_hex_digits(t.drop_last())) by {
            assert(forall|i: int| 0 <= i < t.len() - 1 ==> t.drop_last()[i] == #[trigger] t[i]);
        }
        lemma_hex_value_extend_ge(s, t.drop_last());
        assert((s + t).drop_last() =~= s + t.drop_last());
        assert((s + t).last() == t.last());
        assert(all_hex_digits(s + t.drop_last())) by {
            assert(forall|i: int| 0 <= i < s.len() ==> (s + t.drop_last())[i] == #[trigger] s[i]);
            assert(forall|i: int|
                0 <= i < t.len() - 1 ==> (s + t.drop_last())[s.len() + i] == #[trigger] t.drop_last()[i]);
        }
        lemma_hex_value_nonneg(s + t.drop_last());
        assert(hex_value(s + t) == hex_value(s + t.drop_last()) * 16 + hex_digit_value(t.last()));
    }
}

/// Strict hexadecimal offset parser: accepts a single optional `0x` prefix
/// followed by one or more hex digits denoting a value that fits in 64 bits,
/// and rejects everything else.
pub fn parse_hex_offset(s: &[u8]) -> (r: Option<u64>)
    ensures
        r is Some <==> valid_hex_offset(s@),
        r is Some ==> r->0 as int == hex_value(strip_hex_prefix(s@)),
{
    let n = s.len();
    let start: usize = if n >= 2 && s[0] as char == '0' && s[1] as char == 'x' {
        2
    } else {
        0
    };
    proof {
        assert(strip_hex_prefix(s@) =~= s@.subrange(start as int, n as int));
    }
    if start >= n {
        return None;
    }
    let mut acc: u64 = 0;
    let mut i: usize = start;
    while i < n
        invariant
            start <= i <= n == s@.len(),
            strip_hex_prefix(s@) =~= s@.subrange(start as int, n as int),
            all_hex_digits(s@.subrange(start as int, i as int)),
            acc as int == hex_value(s@.subrange(start as int, i as int)),
        decreases n - i,
    {
        let b = s[i];
        let d: u8 = if '0' <= b as char && b as char <= '9' {
            b - 48
        } else if 'a' <= b as char && b as char <= 'f' {
            b - 87
        } else if 'A' <= b as char && b as char <= 'F' {
            b - 55
        } else {
            proof {
                let strip = s@.subrange(start as int, n as int);
                assert(strip[i - start] == s@[i as int]);
                assert(!is_hex_digit(strip[i - start]));
            }
            return None;
        };
        if acc > u64::MAX / 16 || 16 * acc > u64::MAX - (d as u64) {
            proof {
                let strip = s@.subrange(start as int, n as int);
                let pre = s@.subrange(start as int, i + 1);
                assert(pre.drop_last() =~= s@.subrange(start as int, i as int));
                assert(pre.last() == s@[i as int]);
                assert(hex_value(pre) == acc * 16 + d);
                assert(hex_value(pre) > u64::MAX);
                if all_hex_digits(strip) {
                    let rest = s@.subrange(i + 1, n as int);
                    assert(strip =~= pre + rest);
                    assert(all_hex_digits(pre)) by {
                        assert(forall|j: int|
                            0 <= j < pre.len() ==> #[trigger] pre[j] == strip[j]);
                    }
                    assert(all_hex_digits(rest)) by {
                        assert(forall|j: int|
                            0 <= j < rest.len() ==> #[trigger] rest[j] == strip[j + (i + 1 - start)]);
                    }
                    lemma_hex_value_extend_ge(pre, rest);
                    assert(hex_value(strip) >= hex_value(pre));
                }
            }
            return None;
        }
        acc = 16 * acc + (d as u64);
        proof {
            let pre = s@.subrange(start as int, i + 1);
            assert(pre.drop_last() =~= s@.subrange(start as int, i as int));
            assert(pre.last() == s@[i as int]);
        }
        i += 1;
    }
    Some(acc)
}

/// Compiles a table of offset descriptor values. Each entry must be a valid
/// hexadecimal offset; the first malformed entry aborts compilation with its
/// index, so that the caller can name the offending key.
pub fn compile_offsets(values: &Vec<Vec<u8>>) -> (r: Result<Vec<u64>, usize>)
    ensures
        r is Ok <==> (forall|i: int|
            0 <= i < values@.len() ==> valid_hex_offset(#[trigger] values@[i]@)),
        r is Ok ==> {
            &&& r->Ok_0@.len() == values@.len()
            &&& forall|i: int|
                0 <= i < values@.len() ==> #[trigger] r->Ok_0@[i] as int == hex_value(
                    strip_hex_prefix(values@[i]@),
                )
        },
        r is Err ==> {
            &&& r->Err_0 < values@.len()
            &&& !valid_hex_offset(values@[r->Err_0 as int]@)
            &&& forall|i: int| 0 <= i < r->Err_0 ==> valid_hex_offset(#[trigger] values@[i]@)
        },
{
    let mut out: Vec<u64> = Vec::new();
    let mut i: usize = 0;
    while i < values.len()
        invariant
            0 <= i <= values@.len(),
            out@.len() == i,
            forall|j: int| 0 <= j < i ==> valid_hex_offset(#[trigger] values@[j]@),
            forall|j: int|
                0 <= j < i ==> #[trigger] out@[j] as int == hex_value(
                    strip_hex_prefix(values@[j]@),
                ),
        decreases values@.len() - i,
    {
        match parse_hex_offset(values[i].as_slice()) {
            Some(v) => {
                out.push(v);
            },
            None => {
                return Err(i);
            },
        }
        i += 1;
    }
    Ok(out)
}


/// True for the ASCII space that separates byte-pattern tokens.
pub open spec fn is_space(b: u8) -> bool {
    b as char == ' '
}

/// The byte-pattern element a single token compiles to: an exact byte for a
/// token of hex digits whose value fits in one byte, a wildcard for anything
/// else (`?`, `??`, or a token that fails hex parsing).
pub open spec fn sig_element(t: Seq<u8>) -> Option<u8> {
    if t.len() > 0 && all_hex_digits(t) && hex_value(t) <= 255 {
        Some(hex_value(t) as u8)
    } else {
        None
    }
}

/// The tokens remaining in `s`, given a partial token `cur` already read.
/// Tokens are maximal runs of non-space bytes; empty runs produce no token.
pub open spec fn tokens_from(s: Seq<u8>, cur: Seq<u8>) -> Seq<Seq<u8>>
    decreases s.len(),
{
    if s.len() == 0 {
        if cur.len() == 0 {
            seq![]
        } else {
            seq![cur]
        }
    } else if is_space(s[0]) {
        if cur.len() == 0 {
            tokens_from(s.drop_first(), seq![])
        } else {
            seq![cur] + tokens_from(s.drop_first(), seq![])
        }
    } else {
        tokens_from(s.drop_first(), cur.push(s[0]))
    }
}

/// The space-separated tokens of a signature descriptor value.
pub open spec fn sig_tokens(s: Seq<u8>) -> Seq<Seq<u8>> {
    tokens_from(s, seq![])
}

/// The fixed-length optional-byte pattern a signature descriptor compiles to.
pub open spec fn compiled_signature(s: Seq<u8>) -> Seq<Option<u8>> {
    sig_tokens(s).map_values(|t: Seq<u8>| sig_element(t))
}

/// Compiles one token of a signature descriptor to its pattern element.
fn sig_element_of(t: &[u8]) -> (r: Option<u8>)
    ensures
        r == sig_element(t@),
{
    if t.len() == 0 {
        return None;
    }
    let mut acc: u8 = 0;
    let mut big = false;
    let mut i: usize = 0;
    while i < t.len()
        invariant
            0 <= i <= t@.len(),
            all_hex_digits(t@.subrange(0, i as int)),
            !big ==> acc as int == hex_value(t@.subrange(0, i as int)),
            big ==> hex_value(t@.subrange(0, i as int)) > 255,
        decreases t@.len() - i,
    {
        let b = t[i];
        let d: u8 = if '0' <= b as char && b as char <= '9' {
            b - 48
        } else if 'a' <= b as char && b as char <= 'f' {
            b - 87
        } else if 'A' <= b as char && b as char <= 'F' {
            b - 55
        } else {
            proof {
                assert(!is_hex_digit(t@[i as int]));
            }
            return None;
        };
        proof {
            let pre = t@.subrange(0, i + 1);
            assert(pre.drop_last() =~= t@.subrange(0, i as int));
            assert(pre.last() == t@[i as int]);
        }
        if big {
            proof {
                lemma_hex_value_nonneg(t@.subrange(0, i as int));
            }
        } else if acc > 15 {
            big = true;
        } else {
            acc = 16 * acc + d;
        }
        i += 1;
    }
    proof {
        assert(t@.subrange(0, t@.len() as int) =~= t@);
    }
    if big {
        None
    } else {
        Some(acc)
    }
}

/// Compiles a memory-signature descriptor value: the value is tokenized on
/// spaces, a token of hex digits denoting a byte becomes that exact byte, and
/// every other token (`?`, `??`, or malformed hex) becomes a wildcard.
pub fn parse_signature(s: &[u8]) -> (r: Vec<Option<u8>>)
    ensures
        r@ == compiled_signature(s@),
{
    let mut out: Vec<Option<u8>> = Vec::new();
    let mut cur: Vec<u8> = Vec::new();
    let ghost mut done: Seq<Seq<u8>> = seq![];
    let mut i: usize = 0;
    proof {
        assert(cur@ =~= Seq::<u8>::empty());
        assert(s@.subrange(0, s@.len() as int) =~= s@);
        assert(done + tokens_from(s@, cur@) =~= tokens_from(s@, cur@));
        assert(out@ =~= done.map_values(|t: Seq<u8>| sig_element(t)));
    }
    while i < s.len()
        invariant
            0 <= i <= s@.len(),
            sig_tokens(s@) =~= done + tokens_from(
                s@.subrange(i as int, s@.len() as int),
                cur@,
            ),
            out@ =~= done.map_values(|t: Seq<u8>| sig_element(t)),
        decreases s@.len() - i,
    {
        let b = s[i];
        let ghost rest = s@.subrange(i as int, s@.len() as int);
        let ghost prev_done = done;
        let ghost prev_cur = cur@;
        proof {
            assert(rest.drop_first() =~= s@.subrange(i + 1, s@.len() as int));
            assert(rest[0] == s@[i as int]);
        }
        if b as char == ' ' {
            if cur.len() > 0 {
                let e = sig_element_of(cur.as_slice());
                out.push(e);
                cur = Vec::new();
                proof {
                    done = prev_done + seq![prev_cur];
                    assert(cur@ =~= Seq::<u8>::empty());
                    assert(tokens_from(rest, prev_cur) == seq![prev_cur] + tokens_from(
                        rest.drop_first(),
                        Seq::<u8>::empty(),
                    ));
                    assert(prev_done + tokens_from(rest, prev_cur) =~= done + tokens_from(
                        rest.drop_first(),
                        cur@,
                    ));
                    assert(out@ =~= done.map_values(|t: Seq<u8>| sig_element(t)));
                }
            } else {
                proof {
                    assert(prev_cur =~= Seq::<u8>::empty());
                }
            }
        } else {
            cur.push(b);
        }
        i += 1;
    }
    proof {
        assert(s@.subrange(s@.len() as int, s@.len() as int) =~= Seq::<u8>::empty());
    }
    if cur.len() > 0 {
        let e = sig_element_of(cur.as_slice());
        let ghost prev_done = done;
        let ghost prev_cur = cur@;
        out.push(e);
        proof {
            done = prev_done + seq![prev_cur];
            assert(tokens_from(Seq::<u8>::empty(), prev_cur) == seq![prev_cur]);
            assert(sig_tokens(s@) =~= done);
            assert(out@ =~= done.map_values(|t: Seq<u8>| sig_element(t)));
        }
    } else {
        proof {
            assert(cur@ =~= Seq::<u8>::empty());
            assert(sig_tokens(s@) =~= done);
        }
    }
    out
}


/// Primitive C-ABI type names accepted in function-signature descriptors.
#[derive(Clone, Copy, Debug, PartialEq, Eq, Structural)]
pub enum Prim {
    Void,
    Char,
    SChar,
    UChar,
    Short,
    UShort,
    Int,
    UInt,
    Long,
    ULong,
    LongLong,
    ULongLong,
    Float,
    Double,
    I8,
    U8,
    I16,
    U16,
    I32,
    U32,
    I64,
    U64,
}

/// A validated type token: a primitive, optionally wrapped as a raw pointer
/// by a leading `*` in the descriptor.
#[derive(Clone, Copy, Debug, PartialEq, Eq, Structural)]
pub struct CType {
    pub pointer: bool,
    pub prim: Prim,
}

/// ASCII lowercase of one byte.
pub open spec fn to_lower(b: u8) -> u8 {
    if 'A' <= b as char <= 'Z' {
        (b + 32) as u8
    } else {
        b
    }
}

/// ASCII lowercase of a byte sequence.
pub open spec fn lower_seq(s: Seq<u8>) -> Seq<u8> {
    s.map_values(|b: u8| to_lower(b))
}

/// `l` spells the two characters given.
pub open spec fn kw2(l: Seq<u8>, c0: char, c1: char) -> bool {
    l.len() == 2 && l[0] as char == c0 && l[1] as char == c1
}

/// `l` spells the three characters given.
pub open spec fn kw3(l: Seq<u8>, c0: char, c1: char, c2: char) -> bool {
    l.len() == 3 && l[0] as char == c0 && l[1] as char == c1 && l[2] as char == c2
}

/// `l` spells the four characters given.
pub open spec fn kw4(l: Seq<u8>, c0: char, c1: char, c2: char, c3: char) -> bool {
    l.len() == 4 && l[0] as char == c0 && l[1] as char == c1 && l[2] as char == c2
        && l[3] as char == c3
}

/// `l` spells the five characters given.
pub open spec fn kw5(l: Seq<u8>, c0: char, c1: char, c2: char, c3: char, c4: char) -> bool {
    l.len() == 5 && l[0] as char == c0 && l[1] as char == c1 && l[2] as char == c2
        && l[3] as char == c3 && l[4] as char == c4
}

/// `l` spells the six characters given.
pub open spec fn kw6(
    l: Seq<u8>,
    c0: char,
    c1: char,
    c2: char,
    c3: char,
    c4: char,
    c5: char,
) -> bool {
    l.len() == 6 && l[0] as char == c0 && l[1] as char == c1 && l[2] as char == c2
        && l[3] as char == c3 && l[4] as char == c4 && l[5] as char == c5
}

/// `l` spells the eight characters given.
pub open spec fn kw8(
    l: Seq<u8>,
    c0: char,
    c1: char,
    c2: char,
    c3: char,
    c4: char,
    c5: char,
    c6: char,
    c7: char,
) -> bool {
    l.len() == 8 && l[0] as char == c0 && l[1] as char == c1 && l[2] as char == c2
        && l[3] as char == c3 && l[4] as char == c4 && l[5] as char == c5 && l[6] as char == c6
        && l[7] as char == c7
}

/// `l` spells the nine characters given.
pub open spec fn kw9(
    l: Seq<u8>,
    c0: char,
    c1: char,
    c2: char,
    c3: char,
    c4: char,
    c5: char,
    c6: char,
    c7: char,
    c8: char,
) -> bool {
    l.len() == 9 && l[0] as char == c0 && l[1] as char == c1 && l[2] as char == c2
        && l[3] as char == c3 && l[4] as char == c4 && l[5] as char == c5 && l[6] as char == c6
        && l[7] as char == c7 && l[8] as char == c8
}

/// The whitelist of primitive type names, matched against an
/// already-lowercased token.
pub open spec fn prim_of_lower(l: Seq<u8>) -> Option<Prim> {
    if kw4(l, 'v', 'o', 'i', 'd') {
        Some(Prim::Void)
    } else if kw4(l, 'c', 'h', 'a', 'r') {
        Some(Prim::Char)
    } else if kw5(l, 's', 'c', 'h', 'a', 'r') {
        Some(Prim::SChar)
    } else if kw5(l, 'u', 'c', 'h', 'a', 'r') {
        Some(Prim::UChar)
    } else if kw5(l, 's', 'h', 'o', 'r', 't') {
        Some(Prim::Short)
    } else if kw6(l, 'u', 's', 'h', 'o', 'r', 't') {
        Some(Prim::UShort)
    } else if kw3(l, 'i', 'n', 't') {
        Some(Prim::Int)
    } else if kw4(l, 'u', 'i', 'n', 't') {
        Some(Prim::UInt)
    } else if kw4(l, 'l', 'o', 'n', 'g') {
        Some(Prim::Long)
    } else if kw5(l, 'u', 'l', 'o', 'n', 'g') {
        Some(Prim::ULong)
    } else if kw8(l, 'l', 'o', 'n', 'g', 'l', 'o', 'n', 'g') {
        Some(Prim::LongLong)
    } else if kw9(l, 'u', 'l', 'o', 'n', 'g', 'l', 'o', 'n', 'g') {
        Some(Prim::ULongLong)
    } else if kw5(l, 'f', 'l', 'o', 'a', 't') {
        Some(Prim::Float)
    } else if kw6(l, 'd', 'o', 'u', 'b', 'l', 'e') {
        Some(Prim::Double)
    } else if kw2(l, 'i', '8') {
        Some(Prim::I8)
    } else if kw2(l, 'u', '8') {
        Some(Prim::U8)
    } else if kw3(l, 'i', '1', '6') {
        Some(Prim::I16)
    } else if kw3(l, 'u', '1', '6') {
        Some(Prim::U16)
    } else if kw3(l, 'i', '3', '2') {
        Some(Prim::I32)
    } else if kw3(l, 'u', '3', '2') {
        Some(Prim::U32)
    } else if kw3(l, 'i', '6', '4') {
        Some(Prim::I64)
    } else if kw3(l, 'u', '6', '4') {
        Some(Prim::U64)
    } else {
        None
    }
}

/// What a type token validates to: `None` for an unrecognized token, the
/// mapped primitive otherwise, wrapped as a pointer when the token carries a
/// leading `*`. Matching is case-insensitive.
pub open spec fn spec_validate_type(t: Seq<u8>) -> Option<CType> {
    if t.len() > 0 && t[0] as char == '*' {
        match prim_of_lower(lower_seq(t.drop_first())) {
            Some(p) => Some(CType { pointer: true, prim: p }),
            None => None,
        }
    } else {
        match prim_of_lower(lower_seq(t)) {
            Some(p) => Some(CType { pointer: false, prim: p }),
            None => None,
        }
    }
}

/// ASCII-lowercases a token.
fn to_lower_vec(t: &[u8]) -> (r: Vec<u8>)
    ensures
        r@ == lower_seq(t@),
{
    let mut out: Vec<u8> = Vec::new();
    let mut i: usize = 0;
    while i < t.len()
        invariant
            0 <= i <= t@.len(),
            out@ =~= t@.subrange(0, i as int).map_values(|b: u8| to_lower(b)),
        decreases t@.len() - i,
    {
        let b = t[i];
        if 'A' <= b as char && b as char <= 'Z' {
            out.push(b + 32);
        } else {
            out.push(b);
        }
        proof {
            assert(t@.subrange(0, i + 1).drop_last() =~= t@.subrange(0, i as int));
            assert(t@.subrange(0, i + 1).last() == t@[i as int]);
            assert(t@.subrange(0, i + 1).map_values(|x: u8| to_lower(x)) =~= t@.subrange(
                0,
                i as int,
            ).map_values(|x: u8| to_lower(x)).push(to_lower(t@[i as int])));
        }
        i += 1;
    }
    proof {
        assert(t@.subrange(0, t@.len() as int) =~= t@);
    }
    out
}

/// Matches an already-lowercased token against the primitive whitelist.
fn prim_of_lower_token(l: &[u8]) -> (r: Option<Prim>)
    ensures
        r == prim_of_lower(l@),
{
    let n = l.len();
    if n < 2 || n > 9 {
        return None;
    }
    let c0 = l[0] as char;
    let c1 = l[1] as char;
    if n == 2 {
        if c0 == 'i' && c1 == '8' {
            Some(Prim::I8)
        } else if c0 == 'u' && c1 == '8' {
            Some(Prim::U8)
        } else {
            None
        }
    } else if n == 3 {
        let c2 = l[2] as char;
        if c0 == 'i' && c1 == 'n' && c2 == 't' {
            Some(Prim::Int)
        } else if c0 == 'i' && c1 == '1' && c2 == '6' {
            Some(Prim::I16)
        } else if c0 == 'u' && c1 == '1' && c2 == '6' {
            Some(Prim::U16)
        } else if c0 == 'i' && c1 == '3' && c2 == '2' {
            Some(Prim::I32)
        } else if c0 == 'u' && c1 == '3' && c2 == '2' {
            Some(Prim::U32)
        } else if c0 == 'i' && c1 == '6' && c2 == '4' {
            Some(Prim::I64)
        } else if c0 == 'u' && c1 == '6' && c2 == '4' {
            Some(Prim::U64)
        } else {
            None
        }
    } else if n == 4 {
        let c2 = l[2] as char;
        let c3 = l[3] as char;
        if c0 == 'v' && c1 == 'o' && c2 == 'i' && c3 == 'd' {
            Some(Prim::Void)
        } else if c0 == 'c' && c1 == 'h' && c2 == 'a' && c3 == 'r' {
            Some(Prim::Char)
        } else if c0 == 'u' && c1 == 'i' && c2 == 'n' && c3 == 't' {
            Some(Prim::UInt)
        } else if c0 == 'l' && c1 == 'o' && c2 == 'n' && c3 == 'g' {
            Some(Prim::Long)
        } else {
            None
        }
    } else if n == 5 {
        let c2 = l[2] as char;
        let c3 = l[3] as char;
        let c4 = l[4] as char;
        if c0 == 's' && c1 == 'c' && c2 == 'h' && c3 == 'a' && c4 == 'r' {
            Some(Prim::SChar)
        } else if c0 == 'u' && c1 == 'c' && c2 == 'h' && c3 == 'a' && c4 == 'r' {
            Some(Prim::UChar)
        } else if c0 == 's' && c1 == 'h' && c2 == 'o' && c3 == 'r' && c4 == 't' {
            Some(Prim::Short)
        } else if c0 == 'u' && c1 == 'l' && c2 == 'o' && c3 == 'n' && c4 == 'g' {
            Some(Prim::ULong)
        } else if c0 == 'f' && c1 == 'l' && c2 == 'o' && c3 == 'a' && c4 == 't' {
            Some(Prim::Float)
        } else {
            None
        }
    } else if n == 6 {
        let c2 = l[2] as char;
        let c3 = l[3] as char;
        let c4 = l[4] as char;
        let c5 = l[5] as char;
        if c0 == 'u' && c1 == 's' && c2 == 'h' && c3 == 'o' && c4 == 'r' && c5 == 't' {
            Some(Prim::UShort)
        } else if c0 == 'd' && c1 == 'o' && c2 == 'u' && c3 == 'b' && c4 == 'l' && c5 == 'e' {
            Some(Prim::Double)
        } else {
            None
        }
    } else if n == 8 {
        let c2 = l[2] as char;
        let c3 = l[3] as char;
        let c4 = l[4] as char;
        let c5 = l[5] as char;
        let c6 = l[6] as char;
        let c7 = l[7] as char;
        if c0 == 'l' && c1 == 'o' && c2 == 'n' && c3 == 'g' && c4 == 'l' && c5 == 'o' && c6 == 'n'
            && c7 == 'g' {
            Some(Prim::LongLong)
        } else {
            None
        }
    } else if n == 9 {
        let c2 = l[2] as char;
        let c3 = l[3] as char;
        let c4 = l[4] as char;
        let c5 = l[5] as char;
        let c6 = l[6] as char;
        let c7 = l[7] as char;
        let c8 = l[8] as char;
        if c0 == 'u' && c1 == 'l' && c2 == 'o' && c3 == 'n' && c4 == 'g' && c5 == 'l' && c6 == 'o'
            && c7 == 'n' && c8 == 'g' {
            Some(Prim::ULongLong)
        } else {
            None
        }
    } else {
        None
    }
}

/// Validates one type token against the whitelist of primitive C-ABI type
/// names, case-insensitively; an optional leading `*` wraps the mapped
/// primitive as a raw pointer. Unknown tokens yield no mapping.
pub fn validate_type(token: &[u8]) -> (r: Option<CType>)
    ensures
        r == spec_validate_type(token@),
{
    if token.len() > 0 && token[0] as char == '*' {
        let low = to_lower_vec(&token[1..token.len()]);
        proof {
            assert(token@.subrange(1, token@.len() as int) =~= token@.drop_first());
        }
        match prim_of_lower_token(low.as_slice()) {
            Some(p) => Some(CType { pointer: true, prim: p }),
            None => None,
        }
    } else {
        let low = to_lower_vec(token);
        match prim_of_lower_token(low.as_slice()) {
            Some(p) => Some(CType { pointer: false, prim: p }),
            None => None,
        }
    }
}


/// A function-signature descriptor: ordered (argument-name, type-token)
/// pairs and a return type token.
pub struct FunctionSignature {
    pub arguments: Vec<(Vec<u8>, Vec<u8>)>,
    pub of_return: Vec<u8>,
}

/// The typed constants a function-signature descriptor compiles to: one
/// validated type per argument, in order, and the validated return type.
#[derive(Debug, PartialEq, Eq)]
pub struct CompiledFunctionSignature {
    pub arguments: Vec<CType>,
    pub of_return: CType,
}

/// Which part of a function-signature descriptor failed validation.
#[derive(Clone, Copy, Debug, PartialEq, Eq, Structural)]
pub enum SignatureError {
    /// The type token of the argument at this position is not whitelisted.
    Argument(usize),
    /// The return type token is not whitelisted.
    Return,
}

/// Compiles a function-signature descriptor: every argument type token and
/// the return type token must validate against the primitive whitelist; an
/// unrecognized token aborts compilation, naming the offending field.
pub fn compile_function_signature(sig: &FunctionSignature) -> (r: Result<
    CompiledFunctionSignature,
    SignatureError,
>)
    ensures
        r is Ok <==> ((forall|i: int|
            0 <= i < sig.arguments@.len() ==> spec_validate_type(
                #[trigger] sig.arguments@[i].1@,
            ) is Some) && spec_validate_type(sig.of_return@) is Some),
        r is Ok ==> {
            &&& r->Ok_0.arguments@.len() == sig.arguments@.len()
            &&& forall|i: int|
                0 <= i < sig.arguments@.len() ==> Some(#[trigger] r->Ok_0.arguments@[i])
                    == spec_validate_type(sig.arguments@[i].1@)
            &&& Some(r->Ok_0.of_return) == spec_validate_type(sig.of_return@)
        },
        r matches Err(SignatureError::Argument(j)) ==> {
            &&& j < sig.arguments@.len()
            &&& spec_validate_type(sig.arguments@[j as int].1@) is None
            &&& forall|i: int|
                0 <= i < j ==> spec_validate_type(#[trigger] sig.arguments@[i].1@) is Some
        },
        r matches Err(SignatureError::Return) ==> {
            &&& (forall|i: int|
                0 <= i < sig.arguments@.len() ==> spec_validate_type(
                    #[trigger] sig.arguments@[i].1@,
                ) is Some)
            &&& spec_validate_type(sig.of_return@) is None
        },
{
    let mut args: Vec<CType> = Vec::new();
    let mut i: usize = 0;
    while i < sig.arguments.len()
        invariant
            0 <= i <= sig.arguments@.len(),
            args@.len() == i,
            forall|j: int|
                0 <= j < i ==> Some(#[trigger] args@[j]) == spec_validate_type(
                    sig.arguments@[j].1@,
                ),
            forall|j: int|
                0 <= j < i ==> spec_validate_type(#[trigger] sig.arguments@[j].1@) is Some,
        decreases sig.arguments@.len() - i,
    {
        match validate_type(sig.arguments[i].1.as_slice()) {
            Some(c) => {
                args.push(c);
            },
            None => {
                return Err(SignatureError::Argument(i));
            },
        }
        i += 1;
    }
    match validate_type(sig.of_return.as_slice()) {
        Some(ret) => Ok(CompiledFunctionSignature { arguments: args, of_return: ret }),
        None => Err(SignatureError::Return),
    }
}

/// ASCII-lowercasing is idempotent.
pub proof fn lemma_to_lower_idempotent(b: u8)
    ensures
        to_lower(to_lower(b)) == to_lower(b),
{
}

/// Type-token validation is case-insensitive: a token and its
/// ASCII-lowercased form validate to the same mapping.
pub proof fn lemma_validate_case_insensitive(t: Seq<u8>)
    ensures
        spec_validate_type(lower_seq(t)) == spec_validate_type(t),
{
    let lt = lower_seq(t);
    assert(lt.len() == t.len());
    if t.len() > 0 {
        assert(lt[0] == to_lower(t[0]));
        assert(lt[0] as char == '*' <==> t[0] as char == '*');
        assert(lower_seq(lt) =~= lower_seq(t)) by {
            assert forall|i: int| 0 <= i < t.len() implies #[trigger] lower_seq(lt)[i]
                == lower_seq(t)[i] by {
                lemma_to_lower_idempotent(t[i]);
            }
        }
        assert(lower_seq(lt.drop_first()) =~= lower_seq(t.drop_first())) by {
            assert forall|i: int| 0 <= i < t.len() - 1 implies #[trigger] lower_seq(
                lt.drop_first(),
            )[i] == lower_seq(t.drop_first())[i] by {
                assert(lt.drop_first()[i] == lt[i + 1]);
                assert(t.drop_first()[i] == t[i + 1]);
                lemma_to_lower_idempotent(t[i + 1]);
            }
        }
    } else {
        assert(lt =~= t);
    }
}

/// A leading `*` always yields the pointer form: if a token validates to a
/// non-pointer primitive, the same token behind a `*` validates to the
/// pointer form of that primitive.
pub proof fn lemma_pointer_form(star: u8, t: Seq<u8>, p: Prim)
    requires
        star as char == '*',
        spec_validate_type(t) == Some(CType { pointer: false, prim: p }),
    ensures
        spec_validate_type(seq![star] + t) == Some(CType { pointer: true, prim: p }),
{
    let u = seq![star] + t;
    assert(u.len() == t.len() + 1);
    assert(u[0] == star);
    assert(u.drop_first() =~= t);
    if t.len() > 0 && t[0] as char == '*' {
        assert(spec_validate_type(t) != Some(CType { pointer: false, prim: p }));
    }
    assert(prim_of_lower(lower_seq(t)) == Some(p));
}

} // verus!



