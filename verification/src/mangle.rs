//! Mangled identifier handling.
//!
//! The shader composition system welds the identifiers of included
//! modules into one flat namespace by appending a separator token and
//! the base32-encoded origin module path to the item's base name, with
//! one closing marker character. Demangling splits such an identifier
//! back into (origin module path, base name); an identifier without the
//! separator belongs to the entry's own module and passes through
//! unchanged.

use vstd::prelude::*;

verus! {

use vstd::utf8::is_ascii_chars;
use crate::base32::{
    b32_chars, b32_decode_chars, b32_encode, b32_parse, b32_val, lemma_b32_char_props,
    lemma_encode_digits_small, lemma_parse_encoded, push_b32,
};
use crate::text::{
    all_ascii, ascii_to_string, bytes_ascii, bytes_to_chars, chars_to_bytes,
    lemma_ascii_chars_bytes_roundtrip, lemma_bytes_to_chars_ascii, lemma_spec_rfind_is,
    lemma_spec_rfind_none, match_at, rfind, spec_rfind, str_bytes, sub_vec,
};

/// The separator token the composition system plants between the base
/// name and the encoded module path.
pub open spec fn sep_bytes() -> Seq<u8> {
    seq![88u8, 95u8, 110u8, 97u8, 103u8, 97u8, 95u8, 111u8, 105u8, 108u8, 95u8, 109u8, 111u8,
        100u8, 95u8, 88u8]
}

/// The separator token as a byte vector.
fn sep_vec() -> (r: Vec<u8>)
    ensures
        r@ == sep_bytes(),
{
    let mut r: Vec<u8> = Vec::new();
    r.push(88);
    r.push(95);
    r.push(110);
    r.push(97);
    r.push(103);
    r.push(97);
    r.push(95);
    r.push(111);
    r.push(105);
    r.push(108);
    r.push(95);
    r.push(109);
    r.push(111);
    r.push(100);
    r.push(95);
    r.push(88);
    proof {
        assert(r@ =~= sep_bytes());
    }
    r
}

/// The mangled form of an identifier: base name, separator, encoded
/// origin path, closing marker.
pub open spec fn spec_mangle(path: Seq<u8>, name: Seq<u8>) -> Seq<u8> {
    name + sep_bytes() + b32_chars(b32_encode(path)) + seq![88u8]
}

/// Splits an identifier into its origin module path and base name.
///
/// The split keys on the rightmost separator occurrence; an identifier
/// without one, or whose trailing section is not a validly encoded
/// nonempty ASCII path, is left whole with no path.
pub open spec fn spec_demangle(s: Seq<u8>) -> (Option<Seq<u8>>, Seq<u8>) {
    match spec_rfind(s, sep_bytes()) {
        None => (None, s),
        Some(i) => {
            let rest = s.skip(i + 16);
            if rest.len() == 0 || rest[rest.len() - 1] != 88 {
                (None, s)
            } else {
                match b32_parse(rest.take(rest.len() - 1)) {
                    None => (None, s),
                    Some(pb) => if pb.len() > 0 && bytes_ascii(pb) {
                        (Some(pb), s.take(i))
                    } else {
                        (None, s)
                    },
                }
            }
        },
    }
}

/// Builds the mangled form of `name` with origin module path `path`.
pub fn mangle(path: &str, name: &str) -> (r: String)
    requires
        is_ascii_chars(path@),
        is_ascii_chars(name@),
        path@.len() > 0,
    ensures
        r@ == bytes_to_chars(spec_mangle(chars_to_bytes(path@), chars_to_bytes(name@))),
        is_ascii_chars(r@),
{
    let pb = str_bytes(path);
    let mut out = str_bytes(name);
    let mut sep = sep_vec();
    let ghost pre = out@;
    let mut k: usize = 0;
    while k < 16
        invariant
            k <= 16,
            sep@ == sep_bytes(),
            out@ == pre + sep_bytes().take(k as int),
        decreases 16 - k,
    {
        out.push(sep[k]);
        k = k + 1;
        proof {
            assert(out@ =~= pre + sep_bytes().take(k as int));
        }
    }
    proof {
        assert(out@ =~= pre + sep_bytes());
    }
    push_b32(&mut out, &pb);
    out.push(88);
    proof {
        assert(out@ =~= spec_mangle(chars_to_bytes(path@), chars_to_bytes(name@)));
        lemma_encode_digits_small(pb@);
        assert forall|t: int| 0 <= t < out@.len() implies #[trigger] out@[t] < 128 by {
            let nl = chars_to_bytes(name@).len() as int;
            let e = b32_chars(b32_encode(pb@));
            lemma_ascii_chars_bytes_roundtrip(name@);
            if t < nl {
            } else if t < nl + 16 {
                assert(out@[t] == sep_bytes()[t - nl]);
            } else if t < nl + 16 + e.len() {
                assert(out@[t] == e[t - nl - 16]);
                lemma_b32_char_props(b32_encode(pb@)[t - nl - 16]);
            } else {
                assert(out@[t] == 88);
            }
        }
        lemma_bytes_to_chars_ascii(out@);
    }
    ascii_to_string(&out)
}

/// Splits a mangled identifier's bytes into origin path and base name.
fn demangle_bytes(sb: &Vec<u8>) -> (r: (Option<Vec<u8>>, Vec<u8>))
    requires
        bytes_ascii(sb@),
    ensures
        ({
            let d = spec_demangle(sb@);
            &&& (r.0 is Some) == (d.0 is Some)
            &&& (r.0 is Some ==> r.0->0@ == d.0->0 && bytes_ascii(r.0->0@))
            &&& r.1@ == d.1
            &&& bytes_ascii(r.1@)
        }),
{
    let sep = sep_vec();
    let found = rfind(sb, &sep);
    match found {
        None => {
            proof {
                lemma_spec_rfind_none(sb@, sep_bytes());
            }
            (None, sub_vec(sb, 0, sb.len()))
        },
        Some(i) => {
            proof {
                lemma_spec_rfind_is(sb@, sep_bytes(), i as int);
            }
            let whole_len = sb.len();
            if whole_len - (i + 16) == 0 || sb[whole_len - 1] != 88 {
                proof {
                    let rest = sb@.skip(i + 16);
                    if rest.len() > 0 {
                        assert(rest[rest.len() - 1] == sb@[sb@.len() - 1]);
                    }
                }
                return (None, sub_vec(sb, 0, sb.len()));
            }
            let enc = sub_vec(sb, i + 16, whole_len - 1);
            proof {
                let rest = sb@.skip(i + 16);
                assert(enc@ =~= rest.take(rest.len() - 1));
                assert(rest[rest.len() - 1] == sb@[sb@.len() - 1]);
            }
            match b32_decode_chars(&enc) {
                None => (None, sub_vec(sb, 0, sb.len())),
                Some(pb) => {
                    if pb.len() > 0 && all_ascii(&pb) {
                        let name = sub_vec(sb, 0, i);
                        proof {
                            assert(sb@.subrange(0, i as int) =~= sb@.take(i as int));
                        }
                        (Some(pb), name)
                    } else {
                        (None, sub_vec(sb, 0, sb.len()))
                    }
                },
            }
        },
    }
}

/// Demangles an identifier, returning the origin module path (when the
/// identifier was mangled) and the base name.
pub fn demangle_splitting_mod_path_and_item(s: &str) -> (r: (Option<String>, String))
    requires
        is_ascii_chars(s@),
    ensures
        ({
            let d = spec_demangle(chars_to_bytes(s@));
            &&& (r.0 is Some) == (d.0 is Some)
            &&& (r.0 is Some ==> r.0->0@ == bytes_to_chars(d.0->0))
            &&& r.1@ == bytes_to_chars(d.1)
        }),
{
    let sb = str_bytes(s);
    let (path, name) = demangle_bytes(&sb);
    let name_s = ascii_to_string(&name);
    match path {
        Some(p) => (Some(ascii_to_string(&p)), name_s),
        None => (None, name_s),
    }
}

/// The demangled identifier joined back into one path: the origin path,
/// `::`, and the base name, or just the base name when unmangled.
pub open spec fn spec_demangle_joined(s: Seq<u8>) -> Seq<u8> {
    let d = spec_demangle(s);
    match d.0 {
        Some(p) => p + seq![58u8, 58u8] + d.1,
        None => d.1,
    }
}

/// Demangles an identifier into a `::`-joined path.
pub fn demangle(s: &str) -> (r: String)
    requires
        is_ascii_chars(s@),
    ensures
        r@ == bytes_to_chars(spec_demangle_joined(chars_to_bytes(s@))),
{
    let sb = str_bytes(s);
    let (path, name) = demangle_bytes(&sb);
    match path {
        Some(p) => {
            let mut out = sub_vec(&p, 0, p.len());
            out.push(58);
            out.push(58);
            let mut k: usize = 0;
            while k < name.len()
                invariant
                    k <= name@.len(),
                    out@ == p@ + seq![58u8, 58u8] + name@.take(k as int),
                    bytes_ascii(p@),
                    bytes_ascii(name@),
                decreases name@.len() - k,
            {
                out.push(name[k]);
                k = k + 1;
                proof {
                    assert(out@ =~= p@ + seq![58u8, 58u8] + name@.take(k as int));
                }
            }
            proof {
                assert(p@.subrange(0, p@.len() as int) =~= p@);
                assert(out@ =~= spec_demangle_joined(chars_to_bytes(s@)));
                assert(bytes_ascii(out@));
            }
            ascii_to_string(&out)
        },
        None => ascii_to_string(&name),
    }
}

/// The demangled identifier qualified for emission: a path into the
/// shared root module (`_root::<path>::<name>`) when mangled, the bare
/// name otherwise.
pub open spec fn spec_demangle_qualified(s: Seq<u8>) -> Seq<u8> {
    let d = spec_demangle(s);
    match d.0 {
        Some(p) => seq![95u8, 114u8, 111u8, 111u8, 116u8, 58u8, 58u8] + p + seq![58u8, 58u8]
            + d.1,
        None => d.1,
    }
}

/// Demangles an identifier and, when it was mangled, qualifies it with
/// the shared root module reference.
pub fn demangle_and_qualify(s: &str) -> (r: String)
    requires
        is_ascii_chars(s@),
    ensures
        r@ == bytes_to_chars(spec_demangle_qualified(chars_to_bytes(s@))),
{
    let sb = str_bytes(s);
    let (path, name) = demangle_bytes(&sb);
    match path {
        Some(p) => {
            let mut out: Vec<u8> = Vec::new();
            out.push(95);
            out.push(114);
            out.push(111);
            out.push(111);
            out.push(116);
            out.push(58);
            out.push(58);
            let ghost pre = out@;
            let mut k: usize = 0;
            while k < p.len()
                invariant
                    k <= p@.len(),
                    out@ == pre + p@.take(k as int),
                    bytes_ascii(p@),
                    bytes_ascii(name@),
                decreases p@.len() - k,
            {
                out.push(p[k]);
                k = k + 1;
                proof {
                    assert(out@ =~= pre + p@.take(k as int));
                }
            }
            out.push(58);
            out.push(58);
            let ghost pre2 = out@;
            let mut k2: usize = 0;
            while k2 < name.len()
                invariant
                    k2 <= name@.len(),
                    out@ == pre2 + name@.take(k2 as int),
                    bytes_ascii(name@),
                decreases name@.len() - k2,
            {
                out.push(name[k2]);
                k2 = k2 + 1;
                proof {
                    assert(out@ =~= pre2 + name@.take(k2 as int));
                }
            }
            proof {
                assert(out@ =~= spec_demangle_qualified(chars_to_bytes(s@)));
                assert(bytes_ascii(out@));
            }
            ascii_to_string(&out)
        },
        None => ascii_to_string(&name),
    }
}

/// The base name a demangle returns from ASCII input is ASCII.
pub proof fn lemma_demangle_name_ascii(s: Seq<u8>)
    requires
        bytes_ascii(s),
    ensures
        bytes_ascii(spec_demangle(s).1),
{
    let d = spec_demangle(s);
    assert forall|t: int| 0 <= t < d.1.len() implies #[trigger] d.1[t] < 128 by {
        if d.1 == s {
            assert(d.1[t] == s[t]);
        }
        match spec_rfind(s, sep_bytes()) {
            None => {},
            Some(i) => {
                crate::text::lemma_last_match_char(
                    s,
                    sep_bytes(),
                    s.len() - sep_bytes().len() + 1,
                );
                assert(crate::text::match_at(s, sep_bytes(), i));
                if d.1 == s.take(i) {
                    assert(d.1[t] == s[t]);
                }
            },
        }
    }
}

/// A qualified demangled identifier of an ASCII input is ASCII.
pub proof fn lemma_demangle_qualified_ascii(s: Seq<u8>)
    requires
        bytes_ascii(s),
    ensures
        bytes_ascii(crate::mangle::spec_demangle_qualified(s)),
{
    let d = spec_demangle(s);
    lemma_demangle_name_ascii(s);
    match d.0 {
        Some(p) => {
            let q = seq![95u8, 114u8, 111u8, 111u8, 116u8, 58u8, 58u8] + p + seq![58u8, 58u8]
                + d.1;
            assert forall|t: int| 0 <= t < q.len() implies #[trigger] q[t] < 128 by {
                if 7 <= t < 7 + p.len() {
                    assert(q[t] == p[t - 7]);
                }
                if 7 + p.len() + 2 <= t {
                    assert(q[t] == d.1[t - 9 - p.len()]);
                }
            }
        },
        None => {},
    }
}

/// Demangling is a left inverse of mangling: an identifier assembled by
/// the composition convention from a nonempty ASCII origin path and any
/// base name splits back into exactly that path and that name.
#[verifier::rlimit(100)]
#[verifier::spinoff_prover]
pub proof fn lemma_demangle_inverts_mangle(path: Seq<u8>, name: Seq<u8>)
    requires
        bytes_ascii(path),
        path.len() > 0,
    ensures
        spec_demangle(spec_mangle(path, name)) == (Some(path), name),
{
    let sep = sep_bytes();
    let e = b32_chars(b32_encode(path));
    let s = spec_mangle(path, name);
    let nl = name.len() as int;
    lemma_encode_digits_small(path);
    assert(e.len() > 0);
    assert(s.len() == nl + 16 + e.len() + 1);
    assert forall|t: int| 0 <= t < e.len() implies #[trigger] e[t] != 95 by {
        lemma_b32_char_props(b32_encode(path)[t]);
    }
    assert forall|j: int| 0 <= j < s.len() implies s[j] == (if j < nl {
        name[j]
    } else if j < nl + 16 {
        sep[j - nl]
    } else if j < nl + 16 + e.len() {
        e[j - nl - 16]
    } else {
        88u8
    }) by {}
    assert(match_at(s, sep, nl)) by {
        assert(s.subrange(nl, nl + 16) =~= sep);
    }
    assert forall|j: int| j > nl implies !match_at(s, sep, j) by {
        if match_at(s, sep, j) {
            let o = j - nl;
            assert(s.subrange(j, j + 16) =~= sep);
            assert(s[j] == s.subrange(j, j + 16)[0]);
            assert(s[j + 1] == s.subrange(j, j + 16)[1]);
            assert(s[j] == 88 && s[j + 1] == 95);
            if o <= 14 {
                assert(s[j] == sep[o]);
                assert(sep[1] != 88 && sep[2] != 88 && sep[3] != 88 && sep[4] != 88 && sep[5]
                    != 88 && sep[6] != 88 && sep[7] != 88 && sep[8] != 88 && sep[9] != 88
                    && sep[10] != 88 && sep[11] != 88 && sep[12] != 88 && sep[13] != 88
                    && sep[14] != 88);
                assert(false);
            } else if o == 15 {
                assert(s[j + 1] == e[0]);
                assert(false);
            } else {
                let t = j + 1 - (nl + 16);
                if t < e.len() {
                    assert(s[j + 1] == e[t]);
                } else {
                    assert(s[j + 1] == 88);
                }
                assert(false);
            }
        }
    }
    lemma_spec_rfind_is(s, sep, nl);
    let rest = s.skip(nl + 16);
    assert(rest =~= e + seq![88u8]);
    assert(rest[rest.len() - 1] == 88);
    assert(rest.take(rest.len() - 1) =~= e);
    lemma_parse_encoded(path);
    assert(s.take(nl) =~= name);
}

} // verus!
