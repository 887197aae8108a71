//! ASCII text utilities for building and splitting generated identifiers.
//!
//! Identifiers handled by the compiler are ASCII (see [`crate::ir::module_wf`]),
//! so all transformations work on byte vectors and are specified over byte
//! sequences; a string enters as its UTF-8 bytes and leaves through
//! [`ascii_to_string`], the only trusted conversion.

use vstd::prelude::*;

verus! {

use vstd::string::StrSliceExecFns;
use vstd::utf8::is_ascii_chars;

/// The bytes of an ASCII character sequence, one byte per character.
pub open spec fn chars_to_bytes(s: Seq<char>) -> Seq<u8> {
    Seq::new(s.len(), |i: int| s[i] as u8)
}

/// The characters denoted by a byte sequence, one character per byte.
pub open spec fn bytes_to_chars(v: Seq<u8>) -> Seq<char> {
    Seq::new(v.len(), |i: int| v[i] as char)
}

/// Whether every byte is an ASCII code point.
pub open spec fn bytes_ascii(v: Seq<u8>) -> bool {
    forall|i: int| 0 <= i < v.len() ==> #[trigger] v[i] < 128
}

/// Character/byte conversion round-trips on ASCII sequences.
pub proof fn lemma_ascii_chars_bytes_roundtrip(s: Seq<char>)
    requires
        is_ascii_chars(s),
    ensures
        bytes_to_chars(chars_to_bytes(s)) =~= s,
        bytes_ascii(chars_to_bytes(s)),
{
    assert forall|i: int| 0 <= i < s.len() implies (#[trigger] chars_to_bytes(s)[i]) < 128 by {
        assert('\0' <= s[i] <= '\u{7f}');
    }
}

/// The UTF-8 bytes of an ASCII string, which coincide with its characters.
pub fn str_bytes(s: &str) -> (r: Vec<u8>)
    requires
        is_ascii_chars(s@),
    ensures
        r@ == chars_to_bytes(s@),
        bytes_ascii(r@),
{
    proof {
        vstd::utf8::is_ascii_chars_encode_utf8(s@);
    }
    let r = s.as_bytes_vec();
    proof {
        assert(r@ =~= chars_to_bytes(s@));
        lemma_ascii_chars_bytes_roundtrip(s@);
    }
    r
}

/// Builds a `String` whose characters are exactly the given ASCII bytes.
///
/// Relies on `String::from_utf8`: on ASCII input it succeeds and returns a
/// string holding those very bytes, hence those very characters.
#[verifier::external_body]
pub fn ascii_to_string(v: &Vec<u8>) -> (r: String)
    requires
        bytes_ascii(v@),
    ensures
        r@ == bytes_to_chars(v@),
{
    match String::from_utf8(v.clone()) {
        Ok(s) => s,
        Err(_) => String::new(),
    }
}

/// A string built from ASCII bytes is itself ASCII.
pub proof fn lemma_bytes_to_chars_ascii(v: Seq<u8>)
    requires
        bytes_ascii(v),
    ensures
        is_ascii_chars(bytes_to_chars(v)),
        chars_to_bytes(bytes_to_chars(v)) =~= v,
{
}

/// Whether a byte is an ASCII lowercase letter.
pub open spec fn is_lower(b: u8) -> bool {
    97 <= b <= 122
}

/// Whether a byte is an ASCII uppercase letter.
pub open spec fn is_upper(b: u8) -> bool {
    65 <= b <= 90
}

/// Whether a byte is an ASCII decimal digit.
pub open spec fn is_digit(b: u8) -> bool {
    48 <= b <= 57
}

/// The uppercase form of one byte: lowercase letters are raised, all
/// other bytes pass through.
pub open spec fn upper_byte(b: u8) -> u8 {
    if is_lower(b) {
        (b - 32) as u8
    } else {
        b
    }
}

/// The lowercase form of one byte.
pub open spec fn lower_byte(b: u8) -> u8 {
    if is_upper(b) {
        (b + 32) as u8
    } else {
        b
    }
}

/// The uppercase form of a byte sequence.
pub open spec fn upper_bytes(s: Seq<u8>) -> Seq<u8> {
    Seq::new(s.len(), |i: int| upper_byte(s[i]))
}

/// Appends the uppercase form of `v` to `out`.
pub fn push_upper(out: &mut Vec<u8>, v: &Vec<u8>)
    ensures
        final(out)@ == old(out)@ + upper_bytes(v@),
{
    let ghost orig = out@;
    let mut i: usize = 0;
    while i < v.len()
        invariant
            i <= v@.len(),
            out@ == orig + upper_bytes(v@).take(i as int),
        decreases v@.len() - i,
    {
        let b = v[i];
        if 97 <= b && b <= 122 {
            out.push(b - 32);
        } else {
            out.push(b);
        }
        i = i + 1;
        proof {
            assert(out@ =~= orig + upper_bytes(v@).take(i as int));
        }
    }
    proof {
        assert(out@ =~= orig + upper_bytes(v@));
    }
}

/// Whether position `i` of `s` starts a new snake-case word: an
/// uppercase letter directly after a lowercase letter or a digit.
pub open spec fn snake_break_at(s: Seq<u8>, i: int) -> bool {
    is_upper(s[i]) && i > 0 && (is_lower(s[i - 1]) || is_digit(s[i - 1]))
}

/// The snake_case form of an identifier: an underscore is inserted
/// before every uppercase letter that follows a lowercase letter or a
/// digit, and every letter is lowered.
pub open spec fn snake_bytes(s: Seq<u8>) -> Seq<u8>
    decreases s.len(),
{
    if s.len() == 0 {
        Seq::empty()
    } else {
        let i = s.len() - 1;
        snake_bytes(s.take(i)) + (if snake_break_at(s, i) {
            seq![95u8, lower_byte(s[i])]
        } else {
            seq![lower_byte(s[i])]
        })
    }
}

/// Appends the snake_case form of `v` to `out`.
pub fn push_snake(out: &mut Vec<u8>, v: &Vec<u8>)
    ensures
        final(out)@ == old(out)@ + snake_bytes(v@),
{
    let ghost orig = out@;
    let mut i: usize = 0;
    while i < v.len()
        invariant
            i <= v@.len(),
            out@ == orig + snake_bytes(v@.take(i as int)),
        decreases v@.len() - i,
    {
        let b = v[i];
        if 65 <= b && b <= 90 && i > 0 {
            let p = v[i - 1];
            if (97 <= p && p <= 122) || (48 <= p && p <= 57) {
                out.push(95);
            }
        }
        if 65 <= b && b <= 90 {
            out.push(b + 32);
        } else {
            out.push(b);
        }
        i = i + 1;
        proof {
            assert(v@.take(i as int).take(i as int - 1) =~= v@.take(i as int - 1));
            assert(out@ =~= orig + snake_bytes(v@.take(i as int)));
        }
    }
    proof {
        assert(v@.take(v@.len() as int) =~= v@);
    }
}

/// The decimal ASCII digits of a natural number, most significant first.
pub open spec fn dec_bytes(n: nat) -> Seq<u8>
    decreases n,
{
    if n < 10 {
        seq![(48 + n) as u8]
    } else {
        dec_bytes(n / 10) + seq![(48 + n % 10) as u8]
    }
}

/// Appends the decimal rendering of `n` to `out`.
pub fn push_dec(out: &mut Vec<u8>, n: u32)
    ensures
        final(out)@ == old(out)@ + dec_bytes(n as nat),
    decreases n,
{
    if n < 10 {
        out.push(48 + (n as u8));
    } else {
        push_dec(out, n / 10);
        out.push(48 + ((n % 10) as u8));
    }
    proof {
        assert(out@ =~= old(out)@ + dec_bytes(n as nat));
    }
}

/// Decimal renderings consist of digit bytes only.
pub proof fn lemma_dec_bytes_ascii(n: nat)
    ensures
        forall|t: int| 0 <= t < dec_bytes(n).len() ==> 48 <= #[trigger] dec_bytes(n)[t] <= 57,
    decreases n,
{
    if n >= 10 {
        lemma_dec_bytes_ascii(n / 10);
        assert forall|t: int| 0 <= t < dec_bytes(n).len() implies 48 <= #[trigger] dec_bytes(
            n,
        )[t] <= 57 by {
            if t < dec_bytes(n / 10).len() {
                assert(dec_bytes(n)[t] == dec_bytes(n / 10)[t]);
            } else {
                assert(dec_bytes(n)[t] == (48 + n % 10) as u8);
            }
        }
    }
}

/// Appends all bytes of `v` to `out`.
pub fn push_all(out: &mut Vec<u8>, v: &Vec<u8>)
    ensures
        final(out)@ == old(out)@ + v@,
{
    let ghost orig = out@;
    let mut i: usize = 0;
    while i < v.len()
        invariant
            i <= v@.len(),
            out@ == orig + v@.take(i as int),
        decreases v@.len() - i,
    {
        out.push(v[i]);
        i = i + 1;
        proof {
            assert(out@ =~= orig + v@.take(i as int));
        }
    }
    proof {
        assert(out@ =~= orig + v@);
    }
}

/// Appends the bytes of an ASCII string slice to `out`.
pub fn push_str_bytes(out: &mut Vec<u8>, s: &str)
    requires
        is_ascii_chars(s@),
    ensures
        final(out)@ == old(out)@ + chars_to_bytes(s@),
{
    let mut b = str_bytes(s);
    let ghost orig = out@;
    let mut i: usize = 0;
    while i < b.len()
        invariant
            i <= b@.len(),
            b@ == chars_to_bytes(s@),
            out@ == orig + b@.take(i as int),
        decreases b@.len() - i,
    {
        out.push(b[i]);
        i = i + 1;
        proof {
            assert(out@ =~= orig + b@.take(i as int));
        }
    }
    proof {
        assert(out@ =~= orig + b@);
    }
}

/// Whether the pattern occurs in `s` starting at position `i`.
pub open spec fn match_at(s: Seq<u8>, pat: Seq<u8>, i: int) -> bool {
    &&& 0 <= i
    &&& i + pat.len() <= s.len()
    &&& s.subrange(i, i + pat.len() as int) =~= pat
}

/// The rightmost occurrence of `pat` strictly below position `n`.
pub open spec fn last_match(s: Seq<u8>, pat: Seq<u8>, n: int) -> Option<int>
    decreases n,
{
    if n <= 0 {
        None
    } else if match_at(s, pat, n - 1) {
        Some(n - 1)
    } else {
        last_match(s, pat, n - 1)
    }
}

/// The rightmost occurrence of `pat` anywhere in `s`.
pub open spec fn spec_rfind(s: Seq<u8>, pat: Seq<u8>) -> Option<int> {
    last_match(s, pat, s.len() - pat.len() + 1)
}

/// What a `last_match` verdict means: a hit is the rightmost one below
/// `n`; a miss means there is none below `n`.
pub proof fn lemma_last_match_char(s: Seq<u8>, pat: Seq<u8>, n: int)
    ensures
        match last_match(s, pat, n) {
            Some(i) => 0 <= i < n && match_at(s, pat, i) && forall|j: int|
                i < j < n ==> !match_at(s, pat, j),
            None => forall|j: int| 0 <= j < n ==> !match_at(s, pat, j),
        },
    decreases n,
{
    if n > 0 {
        lemma_last_match_char(s, pat, n - 1);
    }
}

/// A position that matches, with no match to its right, is the
/// rightmost occurrence.
pub proof fn lemma_spec_rfind_is(s: Seq<u8>, pat: Seq<u8>, k: int)
    requires
        pat.len() > 0,
        match_at(s, pat, k),
        forall|j: int| j > k ==> !match_at(s, pat, j),
    ensures
        spec_rfind(s, pat) == Some(k),
{
    let n = s.len() - pat.len() + 1;
    lemma_last_match_char(s, pat, n);
    match last_match(s, pat, n) {
        Some(i) => {
            if i < k {
                assert(!match_at(s, pat, k));
            }
        },
        None => {
            assert(!match_at(s, pat, k));
        },
    }
}

/// When nothing matches, the rightmost occurrence is `None`.
pub proof fn lemma_spec_rfind_none(s: Seq<u8>, pat: Seq<u8>)
    requires
        forall|j: int| !match_at(s, pat, j),
    ensures
        spec_rfind(s, pat) is None,
{
    let n = s.len() - pat.len() + 1;
    lemma_last_match_char(s, pat, n);
    if last_match(s, pat, n) is Some {
        let i = last_match(s, pat, n)->0;
        assert(!match_at(s, pat, i));
    }
}

/// Copies the byte range `from..to` of `v` into a new vector.
pub fn sub_vec(v: &Vec<u8>, from: usize, to: usize) -> (r: Vec<u8>)
    requires
        from <= to <= v@.len(),
    ensures
        r@ == v@.subrange(from as int, to as int),
{
    let mut r: Vec<u8> = Vec::new();
    let mut i: usize = from;
    while i < to
        invariant
            from <= i <= to <= v@.len(),
            r@ == v@.subrange(from as int, i as int),
        decreases to - i,
    {
        r.push(v[i]);
        i = i + 1;
        proof {
            assert(r@ =~= v@.subrange(from as int, i as int));
        }
    }
    r
}

/// Whether every byte of the vector is an ASCII code point.
pub fn all_ascii(v: &Vec<u8>) -> (r: bool)
    ensures
        r == bytes_ascii(v@),
{
    let mut i: usize = 0;
    while i < v.len()
        invariant
            i <= v@.len(),
            forall|t: int| 0 <= t < i ==> #[trigger] v@[t] < 128,
        decreases v@.len() - i,
    {
        if v[i] >= 128 {
            return false;
        }
        i = i + 1;
    }
    true
}

/// Finds the rightmost occurrence of `pat` in `s`, if any.
pub fn rfind(s: &Vec<u8>, pat: &Vec<u8>) -> (r: Option<usize>)
    requires
        pat@.len() > 0,
    ensures
        match r {
            Some(i) => match_at(s@, pat@, i as int) && forall|j: int|
                i < j ==> !match_at(s@, pat@, j),
            None => forall|j: int| !match_at(s@, pat@, j),
        },
{
    if pat.len() > s.len() {
        return None;
    }
    let mut start: usize = s.len() - pat.len() + 1;
    while start > 0
        invariant
            pat@.len() > 0,
            s@.len() <= usize::MAX,
            start + pat@.len() <= s@.len() + 1,
            forall|j: int| start <= j ==> !match_at(s@, pat@, j),
        decreases start,
    {
        start = start - 1;
        let mut k: usize = 0;
        let mut hit: bool = true;
        while k < pat.len()
            invariant
                pat@.len() > 0,
                start + pat@.len() <= s@.len() <= usize::MAX,
                k <= pat@.len(),
                hit <==> (forall|t: int| 0 <= t < k ==> s@[start + t] == pat@[t]),
            decreases pat@.len() - k,
        {
            if s[start + k] != pat[k] {
                hit = false;
            }
            k = k + 1;
        }
        if hit {
            proof {
                assert(s@.subrange(start as int, start + pat@.len() as int) =~= pat@);
            }
            return Some(start);
        }
        proof {
            if match_at(s@, pat@, start as int) {
                assert(forall|t: int|
                    0 <= t < pat@.len() ==> s@[start + t] == #[trigger] pat@[t]);
            }
        }
    }
    None
}

} // verus!
