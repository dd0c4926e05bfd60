//! Text utilities: UTF-8 decoding, fixed ASCII fields, and the decimal
//! number grammar used by the embedded XML metadata.

use crate::Error;
use vstd::prelude::*;
use vstd::string::StrSliceExecFns;
use vstd::string::StringSliceAdditionalSpecFns;
use vstd::utf8::*;

verus! {

/// Relies on `String::from_utf8`: returns a string exactly when the bytes
/// are valid UTF-8, and the string's characters are their decoding.
#[verifier::external_body]
pub fn utf8_from_bytes(v: Vec<u8>) -> (r: Option<String>)
    ensures
        match r {
            Some(s) => valid_utf8(v@) && s@ == decode_utf8(v@),
            None => !valid_utf8(v@),
        },
{
    String::from_utf8(v).ok()
}

/// Relies on `String::push`: appends exactly one character.
#[verifier::external_body]
pub fn push_char(s: &mut String, c: char)
    ensures
        final(s)@ == old(s)@.push(c),
{
    s.push(c);
}

/// Whether two string slices hold the same characters.
pub fn str_eq(a: &str, b: &str) -> (r: bool)
    ensures
        r == (a@ == b@),
{
    let ab = a.as_bytes();
    let bb = b.as_bytes();
    proof {
        encode_utf8_decode_utf8(a@);
        encode_utf8_decode_utf8(b@);
    }
    if ab.len() != bb.len() {
        return false;
    }
    let n = ab.len();
    let mut i: usize = 0;
    while i < n
        invariant
            n == ab@.len() == bb@.len(),
            i <= n,
            forall|k: int| 0 <= k < i ==> ab@[k] == bb@[k],
            ab@ == a.spec_bytes(),
            bb@ == b.spec_bytes(),
        decreases n - i,
    {
        if ab[i] != bb[i] {
            return false;
        }
        i = i + 1;
    }
    proof {
        assert(a.spec_bytes() =~= b.spec_bytes());
    }
    true
}

/// The characters denoted by a sequence of ASCII bytes.
pub open spec fn spec_ascii_chars(b: Seq<u8>) -> Seq<char> {
    Seq::new(b.len(), |i: int| b[i] as char)
}

/// Every byte is ASCII.
pub open spec fn all_ascii(b: Seq<u8>) -> bool {
    forall|i: int| 0 <= i < b.len() ==> b[i] < 128
}

/// The position of the first NUL byte, or the length if there is none.
pub open spec fn spec_first_nul(b: Seq<u8>) -> int
    decreases b.len(),
{
    if b.len() == 0 {
        0
    } else if b[0] == 0 {
        0
    } else {
        1 + spec_first_nul(b.drop_first())
    }
}

/// The bytes before the first NUL.
pub open spec fn spec_nul_trim(b: Seq<u8>) -> Seq<u8> {
    b.take(spec_first_nul(b))
}

/// The first NUL lies within the sequence, no byte before it is NUL, and the
/// byte there (if any) is NUL.
pub proof fn lemma_first_nul(b: Seq<u8>)
    ensures
        0 <= spec_first_nul(b) <= b.len(),
        forall|i: int| 0 <= i < spec_first_nul(b) ==> b[i] != 0,
        spec_first_nul(b) < b.len() ==> b[spec_first_nul(b)] == 0,
    decreases b.len(),
{
    if b.len() > 0 && b[0] != 0 {
        lemma_first_nul(b.drop_first());
        assert forall|i: int| 0 <= i < spec_first_nul(b) implies b[i] != 0 by {
            if i > 0 {
                assert(b[i] == b.drop_first()[i - 1]);
            }
        }
    }
}

/// A fixed-length field of `k` non-NUL bytes followed by NULs trims to
/// exactly its first `k` bytes.
pub proof fn lemma_ascii_trim(b: Seq<u8>, k: int)
    requires
        0 <= k <= b.len(),
        forall|i: int| 0 <= i < k ==> b[i] != 0,
        k < b.len() ==> b[k] == 0,
    ensures
        spec_first_nul(b) == k,
        spec_nul_trim(b) == b.take(k),
    decreases b.len(),
{
    if k == 0 {
        if b.len() > 0 {
            assert(b[0] == 0);
        }
    } else {
        assert(b[0] != 0);
        assert forall|i: int| 0 <= i < k - 1 implies b.drop_first()[i] != 0 by {
            assert(b.drop_first()[i] == b[i + 1]);
        }
        assert(k - 1 < b.drop_first().len() ==> b.drop_first()[k - 1] == 0);
        lemma_ascii_trim(b.drop_first(), k - 1);
        assert(spec_first_nul(b) == 1 + spec_first_nul(b.drop_first()));
    }
}

/// The string denoted by a NUL-padded ASCII field: the bytes before the
/// first NUL, decoded as characters. Fails when a kept byte is not ASCII.
#[verifier::loop_isolation(false)]
pub fn ascii_field(bytes: &Vec<u8>) -> (r: Result<String, Error>)
    ensures
        r is Ok <==> all_ascii(spec_nul_trim(bytes@)),
        r is Ok ==> r->Ok_0@ == spec_ascii_chars(spec_nul_trim(bytes@)),
        r is Err ==> r->Err_0.is_format(),
{
    let mut kept: Vec<u8> = Vec::new();
    let mut i: usize = 0;
    proof {
        lemma_first_nul(bytes@);
    }
    while i < bytes.len() && bytes[i] != 0
        invariant
            i <= bytes@.len(),
            forall|k: int| 0 <= k < i ==> bytes@[k] != 0,
            forall|k: int| 0 <= k < i ==> bytes@[k] < 128,
            kept@ == bytes@.take(i as int),
        decreases bytes@.len() - i,
    {
        proof {
            // The first NUL lies beyond every non-NUL prefix.
            if spec_first_nul(bytes@) <= i {
                assert(bytes@[spec_first_nul(bytes@)] == 0);
            }
        }
        if bytes[i] >= 128 {
            proof {
                assert(spec_nul_trim(bytes@)[i as int] >= 128);
                assert(!all_ascii(spec_nul_trim(bytes@)));
            }
            return Err(Error::Format("field holds a byte that is not ASCII".to_owned()));
        }
        kept.push(bytes[i]);
        proof {
            assert(kept@ =~= bytes@.take(i + 1));
        }
        i = i + 1;
    }
    proof {
        lemma_ascii_trim(bytes@, i as int);
        assert(kept@ == spec_nul_trim(bytes@));
    }
    let ghost cs = spec_ascii_chars(kept@);
    proof {
        assert forall|k: int| 0 <= k < cs.len() implies (cs[k] as u32) < 0x80 by {
            assert(kept@[k] < 128);
        }
        assert(is_ascii_chars(cs));
        is_ascii_chars_encode_utf8(cs);
        assert(encode_utf8(cs) =~= kept@);
        encode_utf8_valid_utf8(cs);
        encode_utf8_decode_utf8(cs);
    }
    match utf8_from_bytes(kept) {
        Some(s) => Ok(s),
        None => {
            proof {
                assert(false);
            }
            Err(Error::Format("field holds a byte that is not ASCII".to_owned()))
        },
    }
}

/// The characters of a string with every ASCII capital replaced by its
/// small form; other characters are kept.
pub open spec fn spec_ascii_lower(s: Seq<char>) -> Seq<char> {
    Seq::new(s.len(), |i: int| spec_ascii_lower_char(s[i]))
}

/// The small form of one character, for ASCII capitals.
pub open spec fn spec_ascii_lower_char(c: char) -> char {
    if 'A' <= c && c <= 'Z' {
        ((c as u8) + 32) as char
    } else {
        c
    }
}

/// Copy of a string with ASCII capitals replaced by their small forms.
#[verifier::loop_isolation(false)]
pub fn ascii_lowercase(s: &str) -> (r: String)
    ensures
        r@ == spec_ascii_lower(s@),
{
    let n = s.unicode_len();
    let mut out = String::new();
    let mut i: usize = 0;
    while i < n
        invariant
            n == s@.len(),
            i <= n,
            out@ == spec_ascii_lower(s@).take(i as int),
        decreases n - i,
    {
        let c = s.get_char(i);
        let lc: char = if 'A' <= c && c <= 'Z' {
            ((c as u8) + 32) as char
        } else {
            c
        };
        push_char(&mut out, lc);
        proof {
            assert(out@ =~= spec_ascii_lower(s@).take(i + 1));
        }
        i = i + 1;
    }
    proof {
        assert(out@ =~= spec_ascii_lower(s@));
    }
    out
}

/// Whether every character is a decimal digit, and there is at least one.
pub open spec fn is_digits(s: Seq<char>) -> bool {
    s.len() > 0 && forall|i: int| 0 <= i < s.len() ==> '0' <= #[trigger] s[i] && s[i] <= '9'
}

/// The integer a sequence of decimal digits denotes.
pub open spec fn spec_dec_val(s: Seq<char>) -> int
    decreases s.len(),
{
    if s.len() == 0 {
        0
    } else {
        spec_dec_val(s.drop_last()) * 10 + (s.last() as int - '0' as int)
    }
}

/// Digit strings denote non-negative values.
pub proof fn lemma_dec_val_nonneg(s: Seq<char>)
    requires
        forall|i: int| 0 <= i < s.len() ==> '0' <= #[trigger] s[i] && s[i] <= '9',
    ensures
        spec_dec_val(s) >= 0,
    decreases s.len(),
{
    if s.len() > 0 {
        lemma_dec_val_nonneg(s.drop_last());
    }
}

/// A digit string denotes at least as much as any of its prefixes.
pub proof fn lemma_dec_val_prefix(s: Seq<char>, i: int)
    requires
        forall|k: int| 0 <= k < s.len() ==> '0' <= #[trigger] s[k] && s[k] <= '9',
        0 <= i <= s.len(),
    ensures
        spec_dec_val(s.take(i)) <= spec_dec_val(s),
    decreases s.len() - i,
{
    if i < s.len() {
        lemma_dec_val_prefix(s, i + 1);
        let t = s.take(i + 1);
        assert(t.drop_last() =~= s.take(i));
        assert(t.last() == s[i]);
        assert forall|k: int| 0 <= k < s.take(i).len() implies '0' <= #[trigger] s.take(i)[k]
            && s.take(i)[k] <= '9' by {
            assert(s.take(i)[k] == s[k]);
        }
        lemma_dec_val_nonneg(s.take(i));
        assert(spec_dec_val(t) == spec_dec_val(s.take(i)) * 10 + (s[i] as int - '0' as int));
    } else {
        assert(s.take(i) =~= s);
    }
}

/// The digits of an integer literal after its optional leading plus sign.
pub open spec fn spec_unsigned_digits(s: Seq<char>) -> Seq<char> {
    if s.len() > 0 && s[0] == '+' {
        s.drop_first()
    } else {
        s
    }
}

/// Whether a string is a decimal `u64` literal: an optional plus sign, then
/// digits denoting at most `u64::MAX`.
pub open spec fn spec_is_u64(s: Seq<char>) -> bool {
    is_digits(spec_unsigned_digits(s)) && spec_dec_val(spec_unsigned_digits(s)) <= u64::MAX
}

/// The number a decimal `u64` literal denotes, and a `Parse` failure on any
/// other string, exactly as `u64::from_str` decides it.
#[verifier::loop_isolation(false)]
pub fn parse_u64(s: &str) -> (r: Result<u64, Error>)
    ensures
        r is Ok <==> spec_is_u64(s@),
        r is Ok ==> r->Ok_0 == spec_dec_val(spec_unsigned_digits(s@)),
        r is Err ==> r->Err_0.is_parse(),
{
    let n = s.unicode_len();
    let mut start: usize = 0;
    if n > 0 && s.get_char(0) == '+' {
        start = 1;
    }
    let ghost d = spec_unsigned_digits(s@);
    proof {
        assert(d =~= s@.skip(start as int));
    }
    if start == n {
        return Err(Error::Parse("empty number".to_owned()));
    }
    let mut v: u64 = 0;
    let mut i: usize = start;
    while i < n
        invariant
            n == s@.len(),
            start <= i <= n,
            start < n,
            d == s@.skip(start as int),
            forall|k: int| 0 <= k < i - start ==> '0' <= #[trigger] d[k] && d[k] <= '9',
            v == spec_dec_val(d.take(i - start)),
        decreases n - i,
    {
        let c = s.get_char(i);
        let ghost j = i - start;
        proof {
            assert(d[j] == s@[i as int]);
        }
        if !('0' <= c && c <= '9') {
            proof {
                assert(0 <= j < d.len());
                assert(d[j] == c);
                assert(!is_digits(d));
            }
            return Err(Error::Parse("not a digit".to_owned()));
        }
        let digit: u64 = (c as u32 - 48) as u64;
        proof {
            assert(d.take(j + 1).drop_last() =~= d.take(j));
            assert(d.take(j + 1).last() == d[j]);
            assert forall|k: int| 0 <= k < d.take(j).len() implies '0' <= #[trigger] d.take(
                j,
            )[k] && d.take(j)[k] <= '9' by {
                assert(d.take(j)[k] == d[k]);
            }
            lemma_dec_val_nonneg(d.take(j));
            assert(digit == d[j] as int - '0' as int);
            assert(spec_dec_val(d.take(j + 1)) == v * 10 + digit);
        }
        let mut overflowed = false;
        let mut next: u64 = 0;
        match v.checked_mul(10) {
            Some(m) => match m.checked_add(digit) {
                Some(m2) => {
                    next = m2;
                },
                None => {
                    proof {
                        assert(v * 10 + digit > u64::MAX);
                    }
                    overflowed = true;
                },
            },
            None => {
                proof {
                    assert(v * 10 + digit > u64::MAX);
                }
                overflowed = true;
            },
        }
        if overflowed {
            proof {
                // The value grows with each digit, so once a prefix exceeds
                // the range, so does the whole literal.
                assert(v * 10 + digit > u64::MAX);
                if is_digits(d) && spec_dec_val(d) <= u64::MAX {
                    lemma_dec_val_prefix(d, j + 1);
                    assert(spec_dec_val(d.take(j + 1)) <= spec_dec_val(d));
                    assert(false);
                }
                assert(!spec_is_u64(s@));
            }
            return Err(Error::Parse("number too large".to_owned()));
        }
        v = next;
        i = i + 1;
    }
    proof {
        assert(d.take(n - start) =~= d);
    }
    Ok(v)
}


/// The sign and digits of a decimal integer literal: a leading minus makes
/// it negative; a leading plus is allowed and dropped.
pub open spec fn spec_signed_digits(s: Seq<char>) -> (bool, Seq<char>) {
    if s.len() > 0 && s[0] == '-' {
        (true, s.drop_first())
    } else if s.len() > 0 && s[0] == '+' {
        (false, s.drop_first())
    } else {
        (false, s)
    }
}

/// Whether a string is a decimal `i32` literal, exactly as `i32::from_str`
/// decides it.
pub open spec fn spec_is_i32(s: Seq<char>) -> bool {
    let (neg, d) = spec_signed_digits(s);
    &&& is_digits(d)
    &&& if neg {
        spec_dec_val(d) <= 0x8000_0000
    } else {
        spec_dec_val(d) <= 0x7fff_ffff
    }
}

/// The value a decimal `i32` literal denotes.
pub open spec fn spec_i32_val(s: Seq<char>) -> int {
    let (neg, d) = spec_signed_digits(s);
    if neg {
        -spec_dec_val(d)
    } else {
        spec_dec_val(d)
    }
}

/// The number a decimal `i32` literal denotes, and a `Parse` failure on any
/// other string.
#[verifier::loop_isolation(false)]
pub fn parse_i32(s: &str) -> (r: Result<i32, Error>)
    ensures
        r is Ok <==> spec_is_i32(s@),
        r is Ok ==> r->Ok_0 == spec_i32_val(s@),
        r is Err ==> r->Err_0.is_parse(),
{
    let n = s.unicode_len();
    let mut neg = false;
    let mut start: usize = 0;
    if n > 0 {
        let c0 = s.get_char(0);
        if c0 == '-' {
            neg = true;
            start = 1;
        } else if c0 == '+' {
            start = 1;
        }
    }
    let ghost d = spec_signed_digits(s@).1;
    proof {
        assert(d =~= s@.skip(start as int));
        assert(neg == spec_signed_digits(s@).0);
    }
    if start == n {
        return Err(Error::Parse("empty number".to_owned()));
    }
    let mut v: u64 = 0;
    let mut i: usize = start;
    while i < n
        invariant
            start <= i <= n,
            forall|k: int| 0 <= k < i - start ==> '0' <= #[trigger] d[k] && d[k] <= '9',
            v == spec_dec_val(d.take(i - start)),
            v <= 0x8000_0000,
        decreases n - i,
    {
        let c = s.get_char(i);
        let ghost j = i - start;
        proof {
            assert(d[j] == s@[i as int]);
        }
        if !('0' <= c && c <= '9') {
            proof {
                assert(!is_digits(d));
            }
            return Err(Error::Parse("not a digit".to_owned()));
        }
        let digit: u64 = (c as u32 - 48) as u64;
        proof {
            assert(d.take(j + 1).drop_last() =~= d.take(j));
            assert(d.take(j + 1).last() == d[j]);
            assert forall|k: int| 0 <= k < d.take(j).len() implies '0' <= #[trigger] d.take(
                j,
            )[k] && d.take(j)[k] <= '9' by {
                assert(d.take(j)[k] == d[k]);
            }
            lemma_dec_val_nonneg(d.take(j));
            assert(digit == d[j] as int - '0' as int);
            assert(spec_dec_val(d.take(j + 1)) == v * 10 + digit);
        }
        let next: u64 = v * 10 + digit;
        if next > 0x8000_0000 {
            proof {
                // The value grows with each digit, so once a prefix exceeds
                // the range, so does the whole literal.
                if is_digits(d) {
                    lemma_dec_val_prefix(d, j + 1);
                }
                assert(!spec_is_i32(s@));
            }
            return Err(Error::Parse("number too large".to_owned()));
        }
        v = next;
        i = i + 1;
    }
    proof {
        assert(d.take(n - start) =~= d);
    }
    if neg {
        Ok((-(v as i64)) as i32)
    } else {
        if v > 0x7fff_ffff {
            proof {
                assert(!spec_is_i32(s@));
            }
            return Err(Error::Parse("number too large".to_owned()));
        }
        Ok(v as i32)
    }
}

/// The number a decimal `usize` literal denotes, and a `Parse` failure on
/// any other string.
pub fn parse_usize(s: &str) -> (r: Result<usize, Error>)
    ensures
        r is Ok <==> spec_is_u64(s@) && spec_dec_val(spec_unsigned_digits(s@)) <= usize::MAX,
        r is Ok ==> r->Ok_0 == spec_dec_val(spec_unsigned_digits(s@)),
        r is Err ==> r->Err_0.is_parse(),
{
    match parse_u64(s) {
        Ok(v) => {
            if v <= usize::MAX as u64 {
                Ok(v as usize)
            } else {
                Err(Error::Parse("number too large".to_owned()))
            }
        },
        Err(e) => Err(e),
    }
}

} // verus!
