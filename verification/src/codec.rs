//! Verified binary framing for the values the encryption layer seals.
//!
//! Payloads, configurations and keys are serialized into a length-prefixed
//! byte format before encryption and parsed back after decryption. The
//! format is defined twice: once as pure functions on sequences (`*_bytes`
//! to encode, `parse_*` to decode), once as executable code proved to match
//! them. Round-trip lemmas show that parsing an encoding yields the original
//! value, which is what makes the encrypt-then-decrypt law provable.

use vstd::prelude::*;
use vstd::utf8::{decode_utf8, encode_utf8, valid_utf8};

verus! {

broadcast use vstd::utf8::encode_utf8_valid_utf8, vstd::utf8::encode_utf8_decode_utf8;

// ==================== little-endian u32 ====================

/// The four little-endian bytes of a 32-bit value.
pub open spec fn le4(x: u32) -> Seq<u8> {
    seq![
        (x & 0xff) as u8,
        ((x >> 8) & 0xff) as u8,
        ((x >> 16) & 0xff) as u8,
        ((x >> 24) & 0xff) as u8,
    ]
}

/// The 32-bit value four little-endian bytes denote.
pub open spec fn u32_from_le(b0: u8, b1: u8, b2: u8, b3: u8) -> u32 {
    (b0 as u32) | ((b1 as u32) << 8) | ((b2 as u32) << 16) | ((b3 as u32) << 24)
}

/// Parses a little-endian u32 from the head of `b`, returning the value and
/// the unconsumed rest.
pub open spec fn parse_u32(b: Seq<u8>) -> Option<(u32, Seq<u8>)> {
    if b.len() >= 4 {
        Some((u32_from_le(b[0], b[1], b[2], b[3]), b.skip(4)))
    } else {
        None
    }
}

/// Recomposing the little-endian bytes of `x` yields `x`.
pub proof fn lemma_u32_le_roundtrip(x: u32)
    ensures
        u32_from_le(
            (x & 0xff) as u8,
            ((x >> 8) & 0xff) as u8,
            ((x >> 16) & 0xff) as u8,
            ((x >> 24) & 0xff) as u8,
        ) == x,
{
    assert(((x & 0xff) as u8 as u32) | (((x >> 8) & 0xff) as u8 as u32) << 8
        | (((x >> 16) & 0xff) as u8 as u32) << 16 | (((x >> 24) & 0xff) as u8 as u32) << 24
        == x) by (bit_vector);
}

/// Parsing a u32 from its encoding followed by anything consumes exactly the
/// encoding.
pub proof fn lemma_parse_u32(x: u32, rest: Seq<u8>)
    ensures
        parse_u32(le4(x) + rest) == Some((x, rest)),
{
    let b = le4(x) + rest;
    lemma_u32_le_roundtrip(x);
    assert(b.skip(4) =~= rest);
    assert(parse_u32(b) == Some((x, rest)));
}

/// Encodes `x` as four little-endian bytes.
pub fn encode_u32(out: &mut Vec<u8>, x: u32)
    ensures
        final(out)@ == old(out)@ + le4(x),
{
    out.push((x & 0xff) as u8);
    out.push(((x >> 8) & 0xff) as u8);
    out.push(((x >> 16) & 0xff) as u8);
    out.push(((x >> 24) & 0xff) as u8);
    assert(out@ =~= old(out)@ + le4(x));
}

/// Reads a little-endian u32 at `*pos`, advancing `*pos`; mirrors
/// `parse_u32` on the unread part of `b`.
pub fn read_u32(b: &[u8], pos: &mut usize) -> (r: Option<u32>)
    requires
        *old(pos) <= b@.len(),
    ensures
        match r {
            Some(x) => {
                &&& parse_u32(b@.skip(*old(pos) as int)) == Some((x, b@.skip(*final(pos) as int)))
                &&& *final(pos) == *old(pos) + 4
                &&& *final(pos) <= b@.len()
            },
            None => {
                &&& parse_u32(b@.skip(*old(pos) as int)) is None
                &&& *final(pos) == *old(pos)
            },
        },
{
    if b.len() - *pos >= 4 {
        let i = *pos;
        let x = (b[i] as u32) | ((b[i + 1] as u32) << 8) | ((b[i + 2] as u32) << 16)
            | ((b[i + 3] as u32) << 24);
        *pos = i + 4;
        proof {
            let tail = b@.skip(i as int);
            assert(tail[0] == b@[i as int]);
            assert(tail[1] == b@[i as int + 1]);
            assert(tail[2] == b@[i as int + 2]);
            assert(tail[3] == b@[i as int + 3]);
            assert(tail.skip(4) =~= b@.skip(i as int + 4));
        }
        Some(x)
    } else {
        assert(b@.skip(*pos as int).len() < 4);
        None
    }
}

// ==================== raw byte fields ====================

/// A byte field: length prefix, then the bytes.
pub open spec fn enc_bytes(b: Seq<u8>) -> Seq<u8> {
    le4(b.len() as u32) + b
}

/// Whether a byte field of this length can be framed.
pub open spec fn bytes_fit(b: Seq<u8>) -> bool {
    b.len() <= u32::MAX
}

/// Parses a length-prefixed byte field from the head of `b`.
pub open spec fn parse_bytes(b: Seq<u8>) -> Option<(Seq<u8>, Seq<u8>)> {
    match parse_u32(b) {
        Some((n, rest)) => if rest.len() >= n {
            Some((rest.take(n as int), rest.skip(n as int)))
        } else {
            None
        },
        None => None,
    }
}

/// Parsing a byte field from its encoding followed by anything yields the
/// field and the rest.
pub proof fn lemma_parse_bytes(field: Seq<u8>, rest: Seq<u8>)
    requires
        bytes_fit(field),
    ensures
        parse_bytes(enc_bytes(field) + rest) == Some((field, rest)),
{
    let n = field.len() as u32;
    assert(enc_bytes(field) + rest =~= le4(n) + (field + rest));
    lemma_parse_u32(n, field + rest);
    assert((field + rest).take(n as int) =~= field);
    assert((field + rest).skip(n as int) =~= rest);
}

/// Appends a length-prefixed byte field, or reports that it is too long.
pub fn encode_bytes(out: &mut Vec<u8>, field: &[u8]) -> (ok: bool)
    ensures
        ok == bytes_fit(field@),
        ok ==> final(out)@ == old(out)@ + enc_bytes(field@),
        !ok ==> final(out)@ == old(out)@,
{
    if field.len() > u32::MAX as usize {
        return false;
    }
    encode_u32(out, field.len() as u32);
    let ghost mid = out@;
    let mut i: usize = 0;
    while i < field.len()
        invariant
            i <= field@.len(),
            out@ == mid + field@.take(i as int),
        decreases field@.len() - i,
    {
        out.push(field[i]);
        i = i + 1;
        assert(out@ =~= mid + field@.take(i as int));
    }
    assert(field@.take(field@.len() as int) =~= field@);
    assert(out@ =~= old(out)@ + enc_bytes(field@));
    true
}

/// Reads a length-prefixed byte field at `*pos`, advancing `*pos`; mirrors
/// `parse_bytes` on the unread part of `b`.
pub fn read_bytes(b: &[u8], pos: &mut usize) -> (r: Option<Vec<u8>>)
    requires
        *old(pos) <= b@.len(),
    ensures
        match r {
            Some(v) => {
                &&& parse_bytes(b@.skip(*old(pos) as int)) == Some((v@, b@.skip(*final(pos) as int)))
                &&& *old(pos) <= *final(pos) <= b@.len()
            },
            None => {
                &&& parse_bytes(b@.skip(*old(pos) as int)) is None
                &&& *final(pos) == *old(pos)
            },
        },
{
    let start = *pos;
    let n_opt = read_u32(b, pos);
    match n_opt {
        None => None,
        Some(n) => {
            let ghost after_len = b@.skip(*pos as int);
            if (b.len() - *pos) < n as usize {
                assert(after_len.len() < n);
                *pos = start;
                None
            } else {
                let data_start = *pos;
                let end = data_start + n as usize;
                let mut v: Vec<u8> = Vec::new();
                let mut idx = data_start;
                while idx < end
                    invariant
                        data_start <= idx <= end,
                        end <= b@.len(),
                        v@ == b@.subrange(data_start as int, idx as int),
                    decreases end - idx,
                {
                    v.push(b[idx]);
                    idx = idx + 1;
                    assert(v@ =~= b@.subrange(data_start as int, idx as int));
                }
                *pos = end;
                proof {
                    assert(after_len.take(n as int) =~= b@.subrange(
                        data_start as int,
                        data_start as int + n as int,
                    ));
                    assert(after_len.skip(n as int) =~= b@.skip(*pos as int));
                }
                Some(v)
            }
        },
    }
}

// ==================== booleans ====================

/// A boolean field: one byte, 1 for true and 0 for false.
pub open spec fn enc_bool(v: bool) -> Seq<u8> {
    seq![if v { 1u8 } else { 0u8 }]
}

/// Parses a boolean field from the head of `b`.
pub open spec fn parse_bool(b: Seq<u8>) -> Option<(bool, Seq<u8>)> {
    if b.len() >= 1 && (b[0] == 0u8 || b[0] == 1u8) {
        Some((b[0] == 1u8, b.skip(1)))
    } else {
        None
    }
}

/// Parsing a boolean from its encoding followed by anything yields it back.
pub proof fn lemma_parse_bool(v: bool, rest: Seq<u8>)
    ensures
        parse_bool(enc_bool(v) + rest) == Some((v, rest)),
{
    assert((enc_bool(v) + rest).skip(1) =~= rest);
}

/// Appends a boolean field.
pub fn encode_bool(out: &mut Vec<u8>, v: bool)
    ensures
        final(out)@ == old(out)@ + enc_bool(v),
{
    out.push(if v { 1u8 } else { 0u8 });
    assert(out@ =~= old(out)@ + enc_bool(v));
}

/// Reads a boolean field at `*pos`, advancing `*pos`.
pub fn read_bool(b: &[u8], pos: &mut usize) -> (r: Option<bool>)
    requires
        *old(pos) <= b@.len(),
    ensures
        match r {
            Some(v) => {
                &&& parse_bool(b@.skip(*old(pos) as int)) == Some((v, b@.skip(*final(pos) as int)))
                &&& *old(pos) <= *final(pos) <= b@.len()
            },
            None => {
                &&& parse_bool(b@.skip(*old(pos) as int)) is None
                &&& *final(pos) == *old(pos)
            },
        },
{
    let start = *pos;
    if *pos < b.len() {
        let t = b[*pos];
        if t == 0 || t == 1 {
            *pos = *pos + 1;
            proof {
                assert(b@.skip(start as int).skip(1) =~= b@.skip(*pos as int));
            }
            Some(t == 1)
        } else {
            None
        }
    } else {
        None
    }
}

// ==================== signed 32-bit integers ====================

/// A signed field: a sign byte (0 non-negative, 1 negative), then the
/// magnitude — the value itself, or `-(value + 1)` when negative — as a
/// little-endian u32. Both magnitudes lie below `2^31`.
pub open spec fn enc_i32(x: int) -> Seq<u8> {
    if x >= 0 {
        seq![0u8] + le4(x as u32)
    } else {
        seq![1u8] + le4((-(x + 1)) as u32)
    }
}

/// Parses a signed field from the head of `b`.
pub open spec fn parse_i32(b: Seq<u8>) -> Option<(i32, Seq<u8>)> {
    if b.len() >= 1 && (b[0] == 0u8 || b[0] == 1u8) {
        match parse_u32(b.skip(1)) {
            Some((m, rest)) => if m <= i32::MAX as u32 {
                if b[0] == 0u8 {
                    Some((m as i32, rest))
                } else {
                    Some(((-(m as int) - 1) as i32, rest))
                }
            } else {
                None
            },
            None => None,
        }
    } else {
        None
    }
}

/// Parsing a signed field from its encoding followed by anything yields it
/// back.
pub proof fn lemma_parse_i32(x: i32, rest: Seq<u8>)
    ensures
        parse_i32(enc_i32(x as int) + rest) == Some((x, rest)),
{
    if x >= 0 {
        let m = x as u32;
        assert((enc_i32(x as int) + rest).skip(1) =~= le4(m) + rest);
        lemma_parse_u32(m, rest);
    } else {
        let m = (-(x as int + 1)) as u32;
        assert((enc_i32(x as int) + rest).skip(1) =~= le4(m) + rest);
        lemma_parse_u32(m, rest);
        assert((-(m as int) - 1) as i32 == x);
    }
}

/// Appends a signed 32-bit field.
pub fn encode_i32(out: &mut Vec<u8>, x: i32)
    ensures
        final(out)@ == old(out)@ + enc_i32(x as int),
{
    if x >= 0 {
        out.push(0u8);
        encode_u32(out, x as u32);
    } else {
        out.push(1u8);
        encode_u32(out, (-(x + 1)) as u32);
    }
    assert(out@ =~= old(out)@ + enc_i32(x as int));
}

/// Reads a signed 32-bit field at `*pos`, advancing `*pos`.
pub fn read_i32(b: &[u8], pos: &mut usize) -> (r: Option<i32>)
    requires
        *old(pos) <= b@.len(),
    ensures
        match r {
            Some(v) => {
                &&& parse_i32(b@.skip(*old(pos) as int)) == Some((v, b@.skip(*final(pos) as int)))
                &&& *old(pos) <= *final(pos) <= b@.len()
            },
            None => {
                &&& parse_i32(b@.skip(*old(pos) as int)) is None
                &&& *final(pos) == *old(pos)
            },
        },
{
    let start = *pos;
    if *pos < b.len() {
        let t = b[*pos];
        if t == 0 || t == 1 {
            *pos = *pos + 1;
            proof {
                assert(b@.skip(start as int).skip(1) =~= b@.skip(*pos as int));
            }
            match read_u32(b, pos) {
                Some(m) => {
                    if m <= i32::MAX as u32 {
                        if t == 0 {
                            Some(m as i32)
                        } else {
                            Some(-(m as i32) - 1)
                        }
                    } else {
                        *pos = start;
                        None
                    }
                },
                None => {
                    *pos = start;
                    None
                },
            }
        } else {
            None
        }
    } else {
        None
    }
}

// ==================== strings ====================

/// A string field: its UTF-8 bytes as a byte field.
pub open spec fn enc_string(s: Seq<char>) -> Seq<u8> {
    enc_bytes(encode_utf8(s))
}

/// Whether a string's UTF-8 form can be framed.
pub open spec fn string_fits(s: Seq<char>) -> bool {
    encode_utf8(s).len() <= u32::MAX
}

/// Parses a string field from the head of `b`.
pub open spec fn parse_string(b: Seq<u8>) -> Option<(Seq<char>, Seq<u8>)> {
    match parse_bytes(b) {
        Some((f, rest)) => if valid_utf8(f) {
            Some((decode_utf8(f), rest))
        } else {
            None
        },
        None => None,
    }
}

/// Parsing a string field from its encoding followed by anything yields it
/// back.
pub proof fn lemma_parse_string(s: Seq<char>, rest: Seq<u8>)
    requires
        string_fits(s),
    ensures
        parse_string(enc_string(s) + rest) == Some((s, rest)),
{
    lemma_parse_bytes(encode_utf8(s), rest);
}

/// Appends a string field, or reports that the string is too long.
pub fn encode_string(out: &mut Vec<u8>, s: &String) -> (ok: bool)
    ensures
        ok == string_fits(s@),
        ok ==> final(out)@ == old(out)@ + enc_string(s@),
        !ok ==> final(out)@ == old(out)@,
{
    let bytes = s.as_str().as_bytes_vec();
    encode_bytes(out, bytes.as_slice())
}

/// Reads a string field at `*pos`, advancing `*pos`.
pub fn read_string(b: &[u8], pos: &mut usize) -> (r: Option<String>)
    requires
        *old(pos) <= b@.len(),
    ensures
        match r {
            Some(s) => {
                &&& parse_string(b@.skip(*old(pos) as int)) == Some((s@, b@.skip(*final(pos) as int)))
                &&& *old(pos) <= *final(pos) <= b@.len()
            },
            None => {
                &&& parse_string(b@.skip(*old(pos) as int)) is None
                &&& *final(pos) == *old(pos)
            },
        },
{
    let start = *pos;
    match read_bytes(b, pos) {
        None => None,
        Some(f) => {
            match crate::crypto::string_from_utf8(f) {
                Some(s) => Some(s),
                None => {
                    *pos = start;
                    None
                },
            }
        },
    }
}

// ==================== optional fields ====================

/// An optional string field: a presence byte, then the string if present.
pub open spec fn enc_opt_string(o: Option<Seq<char>>) -> Seq<u8> {
    match o {
        None => seq![0u8],
        Some(s) => seq![1u8] + enc_string(s),
    }
}

/// Whether an optional string can be framed.
pub open spec fn opt_string_fits(o: Option<Seq<char>>) -> bool {
    match o {
        None => true,
        Some(s) => string_fits(s),
    }
}

/// Parses an optional string field from the head of `b`.
pub open spec fn parse_opt_string(b: Seq<u8>) -> Option<(Option<Seq<char>>, Seq<u8>)> {
    if b.len() >= 1 && b[0] == 0u8 {
        Some((None, b.skip(1)))
    } else if b.len() >= 1 && b[0] == 1u8 {
        match parse_string(b.skip(1)) {
            Some((s, rest)) => Some((Some(s), rest)),
            None => None,
        }
    } else {
        None
    }
}

/// Parsing an optional string from its encoding followed by anything yields
/// it back.
pub proof fn lemma_parse_opt_string(o: Option<Seq<char>>, rest: Seq<u8>)
    requires
        opt_string_fits(o),
    ensures
        parse_opt_string(enc_opt_string(o) + rest) == Some((o, rest)),
{
    match o {
        None => {
            assert((enc_opt_string(o) + rest).skip(1) =~= rest);
        },
        Some(s) => {
            assert((enc_opt_string(o) + rest).skip(1) =~= enc_string(s) + rest);
            lemma_parse_string(s, rest);
        },
    }
}

/// Appends an optional string field, or reports that it is too long.
pub fn encode_opt_string(out: &mut Vec<u8>, o: &Option<String>) -> (ok: bool)
    ensures
        ok == opt_string_fits(o.deep_view()),
        ok ==> final(out)@ == old(out)@ + enc_opt_string(o.deep_view()),
        !ok ==> final(out)@ == old(out)@,
{
    match o {
        None => {
            out.push(0u8);
            assert(out@ =~= old(out)@ + enc_opt_string(None));
            true
        },
        Some(s) => {
            let bytes = s.as_str().as_bytes_vec();
            if bytes.len() > u32::MAX as usize {
                return false;
            }
            out.push(1u8);
            let ok = encode_string(out, s);
            assert(ok);
            assert(out@ =~= old(out)@ + enc_opt_string(Some(s@)));
            true
        },
    }
}

/// Reads an optional string field at `*pos`, advancing `*pos`.
pub fn read_opt_string(b: &[u8], pos: &mut usize) -> (r: Option<Option<String>>)
    requires
        *old(pos) <= b@.len(),
    ensures
        match r {
            Some(o) => {
                &&& parse_opt_string(b@.skip(*old(pos) as int)) == Some(
                    (o.deep_view(), b@.skip(*final(pos) as int)),
                )
                &&& *old(pos) <= *final(pos) <= b@.len()
            },
            None => {
                &&& parse_opt_string(b@.skip(*old(pos) as int)) is None
                &&& *final(pos) == *old(pos)
            },
        },
{
    let start = *pos;
    if *pos < b.len() {
        let t = b[*pos];
        if t == 0 {
            *pos = *pos + 1;
            proof {
                assert(b@.skip(start as int).skip(1) =~= b@.skip(*pos as int));
            }
            Some(None)
        } else if t == 1 {
            *pos = *pos + 1;
            proof {
                assert(b@.skip(start as int).skip(1) =~= b@.skip(*pos as int));
            }
            match read_string(b, pos) {
                Some(s) => Some(Some(s)),
                None => {
                    *pos = start;
                    None
                },
            }
        } else {
            None
        }
    } else {
        None
    }
}

/// An optional signed field: a presence byte, then the value if present.
pub open spec fn enc_opt_i32(o: Option<int>) -> Seq<u8> {
    match o {
        None => seq![0u8],
        Some(x) => seq![1u8] + enc_i32(x),
    }
}

/// Parses an optional signed field from the head of `b`.
pub open spec fn parse_opt_i32(b: Seq<u8>) -> Option<(Option<int>, Seq<u8>)> {
    if b.len() >= 1 && b[0] == 0u8 {
        Some((None, b.skip(1)))
    } else if b.len() >= 1 && b[0] == 1u8 {
        match parse_i32(b.skip(1)) {
            Some((x, rest)) => Some((Some(x as int), rest)),
            None => None,
        }
    } else {
        None
    }
}

/// Whether an integer lies in the signed 32-bit range.
pub open spec fn i32_in(x: int) -> bool {
    i32::MIN <= x <= i32::MAX
}

/// Whether an optional integer lies in the signed 32-bit range.
pub open spec fn opt_i32_in(o: Option<int>) -> bool {
    match o {
        None => true,
        Some(x) => i32_in(x),
    }
}

/// Parsing an optional signed field from its encoding followed by anything
/// yields it back.
pub proof fn lemma_parse_opt_i32(o: Option<int>, rest: Seq<u8>)
    requires
        opt_i32_in(o),
    ensures
        parse_opt_i32(enc_opt_i32(o) + rest) == Some((o, rest)),
{
    match o {
        None => {
            assert((enc_opt_i32(o) + rest).skip(1) =~= rest);
        },
        Some(x) => {
            assert((enc_opt_i32(o) + rest).skip(1) =~= enc_i32(x) + rest);
            lemma_parse_i32(x as i32, rest);
            assert(enc_i32((x as i32) as int) == enc_i32(x));
        },
    }
}

/// Appends an optional signed field.
pub fn encode_opt_i32(out: &mut Vec<u8>, o: &Option<i32>)
    ensures
        final(out)@ == old(out)@ + enc_opt_i32(crate::models::opt_int(*o)),
{
    match o {
        None => {
            out.push(0u8);
            assert(out@ =~= old(out)@ + enc_opt_i32(None));
        },
        Some(x) => {
            out.push(1u8);
            encode_i32(out, *x);
            assert(out@ =~= old(out)@ + enc_opt_i32(Some(*x as int)));
        },
    }
}

/// Reads an optional signed field at `*pos`, advancing `*pos`.
pub fn read_opt_i32(b: &[u8], pos: &mut usize) -> (r: Option<Option<i32>>)
    requires
        *old(pos) <= b@.len(),
    ensures
        match r {
            Some(o) => {
                &&& parse_opt_i32(b@.skip(*old(pos) as int)) == Some(
                    (crate::models::opt_int(o), b@.skip(*final(pos) as int)),
                )
                &&& *old(pos) <= *final(pos) <= b@.len()
            },
            None => {
                &&& parse_opt_i32(b@.skip(*old(pos) as int)) is None
                &&& *final(pos) == *old(pos)
            },
        },
{
    let start = *pos;
    if *pos < b.len() {
        let t = b[*pos];
        if t == 0 {
            *pos = *pos + 1;
            proof {
                assert(b@.skip(start as int).skip(1) =~= b@.skip(*pos as int));
            }
            Some(None)
        } else if t == 1 {
            *pos = *pos + 1;
            proof {
                assert(b@.skip(start as int).skip(1) =~= b@.skip(*pos as int));
            }
            match read_i32(b, pos) {
                Some(x) => Some(Some(x)),
                None => {
                    *pos = start;
                    None
                },
            }
        } else {
            None
        }
    } else {
        None
    }
}

// ==================== string lists ====================

/// The concatenated string fields of a list.
pub open spec fn enc_str_list_items(l: Seq<Seq<char>>) -> Seq<u8>
    decreases l.len(),
{
    if l.len() == 0 {
        Seq::empty()
    } else {
        enc_string(l[0]) + enc_str_list_items(l.skip(1))
    }
}

/// A string-list field: a count prefix, then that many string fields.
pub open spec fn enc_str_list(l: Seq<Seq<char>>) -> Seq<u8> {
    le4(l.len() as u32) + enc_str_list_items(l)
}

/// Whether a string list can be framed.
pub open spec fn str_list_fits(l: Seq<Seq<char>>) -> bool {
    &&& l.len() <= u32::MAX
    &&& forall|i: int| 0 <= i < l.len() ==> string_fits(#[trigger] l[i])
}

/// Parses `n` consecutive string fields from the head of `b`.
pub open spec fn parse_str_list_items(b: Seq<u8>, n: nat) -> Option<(Seq<Seq<char>>, Seq<u8>)>
    decreases n,
{
    if n == 0 {
        Some((Seq::empty(), b))
    } else {
        match parse_string(b) {
            Some((s, rest)) => match parse_str_list_items(rest, (n - 1) as nat) {
                Some((l, rest2)) => Some((seq![s] + l, rest2)),
                None => None,
            },
            None => None,
        }
    }
}

/// Parses a string-list field from the head of `b`.
pub open spec fn parse_str_list(b: Seq<u8>) -> Option<(Seq<Seq<char>>, Seq<u8>)> {
    match parse_u32(b) {
        Some((n, rest)) => parse_str_list_items(rest, n as nat),
        None => None,
    }
}

/// Parsing `n` string fields from the encoding of an `n`-element list
/// followed by anything yields the list back.
pub proof fn lemma_parse_str_list_items(l: Seq<Seq<char>>, rest: Seq<u8>)
    requires
        forall|i: int| 0 <= i < l.len() ==> string_fits(#[trigger] l[i]),
    ensures
        parse_str_list_items(enc_str_list_items(l) + rest, l.len()) == Some((l, rest)),
    decreases l.len(),
{
    if l.len() == 0 {
        assert(enc_str_list_items(l) + rest =~= rest);
        assert(parse_str_list_items(rest, 0) == Some((Seq::<Seq<char>>::empty(), rest)));
        assert(l =~= Seq::<Seq<char>>::empty());
    } else {
        let tail = l.skip(1);
        assert(enc_str_list_items(l) + rest =~= enc_string(l[0]) + (enc_str_list_items(tail)
            + rest));
        lemma_parse_string(l[0], enc_str_list_items(tail) + rest);
        lemma_parse_str_list_items(tail, rest);
        assert(seq![l[0]] + tail =~= l);
    }
}

/// Parsing a string-list field from its encoding followed by anything yields
/// the list back.
pub proof fn lemma_parse_str_list(l: Seq<Seq<char>>, rest: Seq<u8>)
    requires
        str_list_fits(l),
    ensures
        parse_str_list(enc_str_list(l) + rest) == Some((l, rest)),
{
    assert(enc_str_list(l) + rest =~= le4(l.len() as u32) + (enc_str_list_items(l) + rest));
    lemma_parse_u32(l.len() as u32, enc_str_list_items(l) + rest);
    lemma_parse_str_list_items(l, rest);
}

/// Appends a string-list field, or reports that it cannot be framed.
pub fn encode_str_list(out: &mut Vec<u8>, l: &Vec<String>) -> (ok: bool)
    ensures
        ok == str_list_fits(l.deep_view()),
        ok ==> final(out)@ == old(out)@ + enc_str_list(l.deep_view()),
        !ok ==> final(out)@ == old(out)@,
{
    let ghost lv = l.deep_view();
    // Check every element first so that failure leaves `out` untouched.
    if l.len() > u32::MAX as usize {
        return false;
    }
    let mut j: usize = 0;
    while j < l.len()
        invariant
            j <= lv.len(),
            lv.len() <= u32::MAX,
            lv =~= l.deep_view(),
            forall|i: int| 0 <= i < j ==> string_fits(#[trigger] lv[i]),
        decreases lv.len() - j,
    {
        assert(lv[j as int] == l@[j as int]@);
        let bytes = l[j].as_str().as_bytes_vec();
        if bytes.len() > u32::MAX as usize {
            assert(!string_fits(lv[j as int]));
            return false;
        }
        assert(string_fits(lv[j as int]));
        j = j + 1;
    }
    assert(str_list_fits(lv));
    encode_u32(out, l.len() as u32);
    let ghost mid = out@;
    let mut i: usize = 0;
    while i < l.len()
        invariant
            i <= lv.len(),
            lv =~= l.deep_view(),
            str_list_fits(lv),
            out@ == mid + enc_str_list_items(lv.take(i as int)),
        decreases lv.len() - i,
    {
        assert(lv[i as int] == l@[i as int]@);
        let ok = encode_string(out, &l[i]);
        assert(ok);
        i = i + 1;
        proof {
            lemma_enc_str_list_items_snoc(lv.take(i as int - 1), lv[i as int - 1]);
            assert(lv.take(i as int - 1).push(lv[i as int - 1]) =~= lv.take(i as int));
        }
    }
    proof {
        assert(lv.take(lv.len() as int) =~= lv);
        assert(out@ =~= old(out)@ + enc_str_list(lv));
    }
    true
}

/// Appending one string to a list appends its field to the encoding.
pub proof fn lemma_enc_str_list_items_snoc(l: Seq<Seq<char>>, s: Seq<char>)
    ensures
        enc_str_list_items(l.push(s)) == enc_str_list_items(l) + enc_string(s),
    decreases l.len(),
{
    if l.len() == 0 {
        assert(l.push(s)[0] == s);
        assert(l.push(s).skip(1) =~= Seq::<Seq<char>>::empty());
        assert(enc_str_list_items(l.push(s).skip(1)) == Seq::<u8>::empty());
        assert(enc_str_list_items(l.push(s)) == enc_string(s) + Seq::<u8>::empty());
        assert(enc_str_list_items(l) == Seq::<u8>::empty());
        assert(enc_str_list_items(l.push(s)) =~= enc_str_list_items(l) + enc_string(s));
    } else {
        assert(l.push(s).skip(1) =~= l.skip(1).push(s));
        assert(l.push(s)[0] == l[0]);
        lemma_enc_str_list_items_snoc(l.skip(1), s);
        assert(enc_str_list_items(l.push(s)) == enc_string(l[0]) + enc_str_list_items(
            l.skip(1).push(s),
        ));
        assert(enc_str_list_items(l) == enc_string(l[0]) + enc_str_list_items(l.skip(1)));
        assert(enc_string(l[0]) + (enc_str_list_items(l.skip(1)) + enc_string(s)) =~= (enc_string(
            l[0],
        ) + enc_str_list_items(l.skip(1))) + enc_string(s));
        assert(enc_str_list_items(l.push(s)) =~= enc_str_list_items(l) + enc_string(s));
    }
}

/// Turns a parse outcome into one with `pre` prepended to the parsed list.
pub open spec fn prepend_items(pre: Seq<Seq<char>>, o: Option<(Seq<Seq<char>>, Seq<u8>)>) -> Option<
    (Seq<Seq<char>>, Seq<u8>),
> {
    match o {
        Some((l, rest)) => Some((pre + l, rest)),
        None => None,
    }
}

/// Reads a string-list field at `*pos`, advancing `*pos`.
pub fn read_str_list(b: &[u8], pos: &mut usize) -> (r: Option<Vec<String>>)
    requires
        *old(pos) <= b@.len(),
    ensures
        match r {
            Some(l) => {
                &&& parse_str_list(b@.skip(*old(pos) as int)) == Some(
                    (l.deep_view(), b@.skip(*final(pos) as int)),
                )
                &&& *old(pos) <= *final(pos) <= b@.len()
            },
            None => {
                &&& parse_str_list(b@.skip(*old(pos) as int)) is None
                &&& *final(pos) == *old(pos)
            },
        },
{
    let start = *pos;
    let ghost tail0 = b@.skip(start as int);
    match read_u32(b, pos) {
        None => None,
        Some(n) => {
            let ghost items_start = b@.skip(*pos as int);
            let mut p: usize = *pos;
            let mut acc: Vec<String> = Vec::new();
            let mut k: u32 = 0;
            let mut failed = false;
            proof {
                lemma_prepend_items_empty(parse_str_list_items(items_start, n as nat));
                assert(acc.deep_view() =~= Seq::<Seq<char>>::empty());
            }
            while k < n && !failed
                invariant
                    k <= n,
                    acc.deep_view().len() == k as int,
                    start <= p <= b@.len(),
                    !failed ==> parse_str_list_items(items_start, n as nat) == prepend_items(
                        acc.deep_view(),
                        parse_str_list_items(b@.skip(p as int), (n - k) as nat),
                    ),
                    failed ==> parse_str_list_items(items_start, n as nat) is None,
                    parse_str_list(tail0) == parse_str_list_items(items_start, n as nat),
                decreases n - k, (if failed { 0int } else { 1int }),
            {
                let ghost pre = acc.deep_view();
                let ghost cur = b@.skip(p as int);
                match read_string(b, &mut p) {
                    None => {
                        assert(parse_str_list_items(cur, (n - k) as nat) is None);
                        failed = true;
                    },
                    Some(s) => {
                        let ghost sv = s@;
                        acc.push(s);
                        k = k + 1;
                        proof {
                            let next = b@.skip(p as int);
                            assert(parse_str_list_items(cur, (n - k + 1) as nat) == prepend_items(
                                seq![sv],
                                parse_str_list_items(next, (n - k) as nat),
                            ));
                            assert(acc.deep_view() =~= pre.push(sv));
                            lemma_prepend_items_assoc(
                                pre,
                                sv,
                                parse_str_list_items(next, (n - k) as nat),
                            );
                        }
                    },
                }
            }
            if failed {
                *pos = start;
                None
            } else {
                proof {
                    assert(parse_str_list_items(b@.skip(p as int), 0) == Some(
                        (Seq::<Seq<char>>::empty(), b@.skip(p as int)),
                    ));
                    assert(acc.deep_view() + Seq::<Seq<char>>::empty() =~= acc.deep_view());
                }
                *pos = p;
                Some(acc)
            }
        },
    }
}

/// Prepending nothing changes nothing.
pub proof fn lemma_prepend_items_empty(o: Option<(Seq<Seq<char>>, Seq<u8>)>)
    ensures
        prepend_items(Seq::empty(), o) == o,
{
    match o {
        Some((l, rest)) => {
            assert(Seq::<Seq<char>>::empty() + l =~= l);
        },
        None => {},
    }
}

/// Prepending `pre` and then one more element composes.
pub proof fn lemma_prepend_items_assoc(
    pre: Seq<Seq<char>>,
    s: Seq<char>,
    o: Option<(Seq<Seq<char>>, Seq<u8>)>,
)
    ensures
        prepend_items(pre, prepend_items(seq![s], o)) == prepend_items(pre.push(s), o),
{
    match o {
        Some((l, rest)) => {
            assert(pre + (seq![s] + l) =~= pre.push(s) + l);
        },
        None => {},
    }
}


// ==================== clipboard payload records ====================

/// The framed bytes of a clipboard payload: its fields in declaration order.
pub open spec fn payload_bytes(p: crate::models::PayloadView) -> Seq<u8> {
    enc_string(p.kind) + enc_opt_string(p.group) + enc_opt_string(p.subtype) + enc_i32(p.count)
        + enc_string(p.value) + enc_string(p.search) + enc_opt_i32(p.width) + enc_opt_i32(p.height)
        + enc_string(p.timestamp)
}

/// Whether a payload can be framed: every string fits a length prefix and
/// every integer lies in the 32-bit range.
pub open spec fn payload_fits(p: crate::models::PayloadView) -> bool {
    &&& string_fits(p.kind)
    &&& opt_string_fits(p.group)
    &&& opt_string_fits(p.subtype)
    &&& i32_in(p.count)
    &&& string_fits(p.value)
    &&& string_fits(p.search)
    &&& opt_i32_in(p.width)
    &&& opt_i32_in(p.height)
    &&& string_fits(p.timestamp)
}

/// Parses a whole payload record; every byte must be consumed.
pub open spec fn parse_payload(b: Seq<u8>) -> Option<crate::models::PayloadView> {
    match parse_string(b) {
        None => None,
        Some((kind, b1)) => match parse_opt_string(b1) {
            None => None,
            Some((group, b2)) => match parse_opt_string(b2) {
                None => None,
                Some((subtype, b3)) => match parse_i32(b3) {
                    None => None,
                    Some((count, b4)) => match parse_string(b4) {
                        None => None,
                        Some((value, b5)) => match parse_string(b5) {
                            None => None,
                            Some((search, b6)) => match parse_opt_i32(b6) {
                                None => None,
                                Some((width, b7)) => match parse_opt_i32(b7) {
                                    None => None,
                                    Some((height, b8)) => match parse_string(b8) {
                                        None => None,
                                        Some((timestamp, b9)) => if b9.len() == 0 {
                                            Some(
                                                crate::models::PayloadView {
                                                    kind,
                                                    group,
                                                    subtype,
                                                    count: count as int,
                                                    value,
                                                    search,
                                                    width,
                                                    height,
                                                    timestamp,
                                                },
                                            )
                                        } else {
                                            None
                                        },
                                    },
                                },
                            },
                        },
                    },
                },
            },
        },
    }
}

/// Parsing the framed bytes of a payload yields the payload back.
#[verifier::rlimit(60)]
pub proof fn lemma_parse_payload(p: crate::models::PayloadView)
    requires
        payload_fits(p),
    ensures
        parse_payload(payload_bytes(p)) == Some(p),
{
    let c9 = enc_string(p.timestamp);
    let c8 = enc_opt_i32(p.height) + c9;
    let c7 = enc_opt_i32(p.width) + c8;
    let c6 = enc_string(p.search) + c7;
    let c5 = enc_string(p.value) + c6;
    let c4 = enc_i32(p.count) + c5;
    let c3 = enc_opt_string(p.subtype) + c4;
    let c2 = enc_opt_string(p.group) + c3;
    let c1 = enc_string(p.kind) + c2;
    assert(payload_bytes(p) =~= c1);
    lemma_parse_string(p.kind, c2);
    lemma_parse_opt_string(p.group, c3);
    lemma_parse_opt_string(p.subtype, c4);
    lemma_parse_i32(p.count as i32, c5);
    assert(enc_i32((p.count as i32) as int) == enc_i32(p.count));
    lemma_parse_string(p.value, c6);
    lemma_parse_string(p.search, c7);
    lemma_parse_opt_i32(p.width, c8);
    lemma_parse_opt_i32(p.height, c9);
    lemma_parse_string(p.timestamp, Seq::empty());
    assert(enc_string(p.timestamp) + Seq::<u8>::empty() =~= c9);
}

/// Frames a payload, or reports that one of its strings is too long.
pub fn encode_payload(p: &crate::models::ClipboardPayload) -> (r: Option<Vec<u8>>)
    ensures
        match r {
            Some(v) => payload_fits(p@) && v@ == payload_bytes(p@),
            None => !payload_fits(p@),
        },
{
    let mut out: Vec<u8> = Vec::new();
    if !encode_string(&mut out, &p.kind) {
        return None;
    }
    if !encode_opt_string(&mut out, &p.group) {
        return None;
    }
    if !encode_opt_string(&mut out, &p.subtype) {
        return None;
    }
    encode_i32(&mut out, p.count);
    if !encode_string(&mut out, &p.value) {
        return None;
    }
    if !encode_string(&mut out, &p.search) {
        return None;
    }
    encode_opt_i32(&mut out, &p.width);
    encode_opt_i32(&mut out, &p.height);
    if !encode_string(&mut out, &p.timestamp) {
        return None;
    }
    assert(out@ =~= payload_bytes(p@));
    Some(out)
}

/// Parses a framed payload; mirrors `parse_payload` exactly.
pub fn decode_payload(b: &[u8]) -> (r: Option<crate::models::ClipboardPayload>)
    ensures
        match r {
            Some(p) => parse_payload(b@) == Some(p@),
            None => parse_payload(b@) is None,
        },
{
    let mut pos: usize = 0;
    assert(b@.skip(0) =~= b@);
    let kind = match read_string(b, &mut pos) {
        Some(s) => s,
        None => {
            return None;
        },
    };
    let group = match read_opt_string(b, &mut pos) {
        Some(o) => o,
        None => {
            return None;
        },
    };
    let subtype = match read_opt_string(b, &mut pos) {
        Some(o) => o,
        None => {
            return None;
        },
    };
    let count = match read_i32(b, &mut pos) {
        Some(x) => x,
        None => {
            return None;
        },
    };
    let value = match read_string(b, &mut pos) {
        Some(s) => s,
        None => {
            return None;
        },
    };
    let search = match read_string(b, &mut pos) {
        Some(s) => s,
        None => {
            return None;
        },
    };
    let width = match read_opt_i32(b, &mut pos) {
        Some(o) => o,
        None => {
            return None;
        },
    };
    let height = match read_opt_i32(b, &mut pos) {
        Some(o) => o,
        None => {
            return None;
        },
    };
    let timestamp = match read_string(b, &mut pos) {
        Some(s) => s,
        None => {
            return None;
        },
    };
    if pos != b.len() {
        return None;
    }
    let p = crate::models::ClipboardPayload {
        kind,
        group,
        subtype,
        count,
        value,
        search,
        width,
        height,
        timestamp,
    };
    assert(parse_payload(b@) == Some(p@));
    Some(p)
}


// ==================== configuration records ====================

/// The framed bytes of a sync configuration: its fields in declaration order.
pub open spec fn config_bytes(c: crate::models::ConfigView) -> Seq<u8> {
    enc_bool(c.enabled) + enc_bool(c.auto_sync) + enc_str_list(c.sync_types) + enc_str_list(
        c.exclude_devices,
    ) + enc_bool(c.image_compression) + enc_i32(c.max_image_size) + enc_bool(c.sync_on_wifi)
        + enc_i32(c.compression_quality)
}

/// Whether a configuration can be framed.
pub open spec fn config_fits(c: crate::models::ConfigView) -> bool {
    &&& str_list_fits(c.sync_types)
    &&& str_list_fits(c.exclude_devices)
    &&& i32_in(c.max_image_size)
    &&& i32_in(c.compression_quality)
}

/// Parses a whole configuration record; every byte must be consumed.
pub open spec fn parse_config(b: Seq<u8>) -> Option<crate::models::ConfigView> {
    match parse_bool(b) {
        None => None,
        Some((enabled, b1)) => match parse_bool(b1) {
            None => None,
            Some((auto_sync, b2)) => match parse_str_list(b2) {
                None => None,
                Some((sync_types, b3)) => match parse_str_list(b3) {
                    None => None,
                    Some((exclude_devices, b4)) => match parse_bool(b4) {
                        None => None,
                        Some((image_compression, b5)) => match parse_i32(b5) {
                            None => None,
                            Some((max_image_size, b6)) => match parse_bool(b6) {
                                None => None,
                                Some((sync_on_wifi, b7)) => match parse_i32(b7) {
                                    None => None,
                                    Some((compression_quality, b8)) => if b8.len() == 0 {
                                        Some(
                                            crate::models::ConfigView {
                                                enabled,
                                                auto_sync,
                                                sync_types,
                                                exclude_devices,
                                                image_compression,
                                                max_image_size: max_image_size as int,
                                                sync_on_wifi,
                                                compression_quality: compression_quality as int,
                                            },
                                        )
                                    } else {
                                        None
                                    },
                                },
                            },
                        },
                    },
                },
            },
        },
    }
}

/// Parsing the framed bytes of a configuration yields it back.
#[verifier::rlimit(100)]
pub proof fn lemma_parse_config(c: crate::models::ConfigView)
    requires
        config_fits(c),
    ensures
        parse_config(config_bytes(c)) == Some(c),
{
    let c8 = enc_i32(c.compression_quality);
    let c7 = enc_bool(c.sync_on_wifi) + c8;
    let c6 = enc_i32(c.max_image_size) + c7;
    let c5 = enc_bool(c.image_compression) + c6;
    let c4 = enc_str_list(c.exclude_devices) + c5;
    let c3 = enc_str_list(c.sync_types) + c4;
    let c2 = enc_bool(c.auto_sync) + c3;
    let c1 = enc_bool(c.enabled) + c2;
    assert(config_bytes(c) =~= c1);
    lemma_parse_bool(c.enabled, c2);
    lemma_parse_bool(c.auto_sync, c3);
    lemma_parse_str_list(c.sync_types, c4);
    lemma_parse_str_list(c.exclude_devices, c5);
    lemma_parse_bool(c.image_compression, c6);
    lemma_parse_i32(c.max_image_size as i32, c7);
    assert(enc_i32((c.max_image_size as i32) as int) == enc_i32(c.max_image_size));
    lemma_parse_bool(c.sync_on_wifi, c8);
    lemma_parse_i32(c.compression_quality as i32, Seq::empty());
    assert(enc_i32((c.compression_quality as i32) as int) == enc_i32(c.compression_quality));
    assert(enc_i32(c.compression_quality) + Seq::<u8>::empty() =~= c8);
}

/// Frames a configuration, or reports that one of its lists cannot be framed.
pub fn encode_config(c: &crate::models::SyncConfig) -> (r: Option<Vec<u8>>)
    ensures
        match r {
            Some(v) => config_fits(c@) && v@ == config_bytes(c@),
            None => !config_fits(c@),
        },
{
    let mut out: Vec<u8> = Vec::new();
    encode_bool(&mut out, c.enabled);
    encode_bool(&mut out, c.auto_sync);
    if !encode_str_list(&mut out, &c.sync_types) {
        return None;
    }
    if !encode_str_list(&mut out, &c.exclude_devices) {
        return None;
    }
    encode_bool(&mut out, c.image_compression);
    encode_i32(&mut out, c.max_image_size);
    encode_bool(&mut out, c.sync_on_wifi);
    encode_i32(&mut out, c.compression_quality);
    assert(out@ =~= config_bytes(c@));
    Some(out)
}

/// Parses a framed configuration; mirrors `parse_config` exactly.
pub fn decode_config(b: &[u8]) -> (r: Option<crate::models::SyncConfig>)
    ensures
        match r {
            Some(c) => parse_config(b@) == Some(c@),
            None => parse_config(b@) is None,
        },
{
    let mut pos: usize = 0;
    assert(b@.skip(0) =~= b@);
    let enabled = match read_bool(b, &mut pos) {
        Some(v) => v,
        None => {
            return None;
        },
    };
    let auto_sync = match read_bool(b, &mut pos) {
        Some(v) => v,
        None => {
            return None;
        },
    };
    let sync_types = match read_str_list(b, &mut pos) {
        Some(l) => l,
        None => {
            return None;
        },
    };
    let exclude_devices = match read_str_list(b, &mut pos) {
        Some(l) => l,
        None => {
            return None;
        },
    };
    let image_compression = match read_bool(b, &mut pos) {
        Some(v) => v,
        None => {
            return None;
        },
    };
    let max_image_size = match read_i32(b, &mut pos) {
        Some(x) => x,
        None => {
            return None;
        },
    };
    let sync_on_wifi = match read_bool(b, &mut pos) {
        Some(v) => v,
        None => {
            return None;
        },
    };
    let compression_quality = match read_i32(b, &mut pos) {
        Some(x) => x,
        None => {
            return None;
        },
    };
    if pos != b.len() {
        return None;
    }
    let c = crate::models::SyncConfig {
        enabled,
        auto_sync,
        sync_types,
        exclude_devices,
        image_compression,
        max_image_size,
        sync_on_wifi,
        compression_quality,
    };
    assert(parse_config(b@) == Some(c@));
    Some(c)
}

// ==================== key records ====================

/// The framed bytes of an encryption key: its fields in declaration order.
pub open spec fn key_bytes(k: crate::models::KeyView) -> Seq<u8> {
    enc_string(k.key_id) + enc_bytes(k.key_data) + enc_string(k.created_at) + enc_string(
        k.algorithm,
    )
}

/// Whether a key record can be framed.
pub open spec fn key_fits(k: crate::models::KeyView) -> bool {
    &&& string_fits(k.key_id)
    &&& bytes_fit(k.key_data)
    &&& string_fits(k.created_at)
    &&& string_fits(k.algorithm)
}

/// Parses a whole key record; every byte must be consumed.
pub open spec fn parse_key(b: Seq<u8>) -> Option<crate::models::KeyView> {
    match parse_string(b) {
        None => None,
        Some((key_id, b1)) => match parse_bytes(b1) {
            None => None,
            Some((key_data, b2)) => match parse_string(b2) {
                None => None,
                Some((created_at, b3)) => match parse_string(b3) {
                    None => None,
                    Some((algorithm, b4)) => if b4.len() == 0 {
                        Some(crate::models::KeyView { key_id, key_data, created_at, algorithm })
                    } else {
                        None
                    },
                },
            },
        },
    }
}

/// Parsing the framed bytes of a key yields the key back.
pub proof fn lemma_parse_key(k: crate::models::KeyView)
    requires
        key_fits(k),
    ensures
        parse_key(key_bytes(k)) == Some(k),
{
    let c4 = enc_string(k.algorithm);
    let c3 = enc_string(k.created_at) + c4;
    let c2 = enc_bytes(k.key_data) + c3;
    let c1 = enc_string(k.key_id) + c2;
    assert(key_bytes(k) =~= c1);
    lemma_parse_string(k.key_id, c2);
    lemma_parse_bytes(k.key_data, c3);
    lemma_parse_string(k.created_at, c4);
    lemma_parse_string(k.algorithm, Seq::empty());
    assert(enc_string(k.algorithm) + Seq::<u8>::empty() =~= c4);
}

/// Frames a key record, or reports that one of its fields is too long.
pub fn encode_key(k: &crate::models::EncryptionKey) -> (r: Option<Vec<u8>>)
    ensures
        match r {
            Some(v) => key_fits(k@) && v@ == key_bytes(k@),
            None => !key_fits(k@),
        },
{
    let mut out: Vec<u8> = Vec::new();
    if !encode_string(&mut out, &k.key_id) {
        return None;
    }
    if !encode_bytes(&mut out, k.key_data.as_slice()) {
        return None;
    }
    if !encode_string(&mut out, &k.created_at) {
        return None;
    }
    if !encode_string(&mut out, &k.algorithm) {
        return None;
    }
    assert(out@ =~= key_bytes(k@));
    Some(out)
}

/// Parses a framed key record; mirrors `parse_key` exactly.
pub fn decode_key(b: &[u8]) -> (r: Option<crate::models::EncryptionKey>)
    ensures
        match r {
            Some(k) => parse_key(b@) == Some(k@),
            None => parse_key(b@) is None,
        },
{
    let mut pos: usize = 0;
    assert(b@.skip(0) =~= b@);
    let key_id = match read_string(b, &mut pos) {
        Some(s) => s,
        None => {
            return None;
        },
    };
    let key_data = match read_bytes(b, &mut pos) {
        Some(v) => v,
        None => {
            return None;
        },
    };
    let created_at = match read_string(b, &mut pos) {
        Some(s) => s,
        None => {
            return None;
        },
    };
    let algorithm = match read_string(b, &mut pos) {
        Some(s) => s,
        None => {
            return None;
        },
    };
    if pos != b.len() {
        return None;
    }
    let k = crate::models::EncryptionKey { key_id, key_data, created_at, algorithm };
    assert(parse_key(b@) == Some(k@));
    Some(k)
}


/// A payload that fits frames into at most 2^36 bytes: four string fields of
/// at most `4 + u32::MAX` bytes, two optional strings of one more, two
/// optional signed fields of at most six, and one five-byte signed field.
pub proof fn lemma_payload_bytes_len(p: crate::models::PayloadView)
    requires
        payload_fits(p),
    ensures
        payload_bytes(p).len() <= 0x10_0000_0000,
{
    assert(le4(encode_utf8(p.kind).len() as u32).len() == 4);
    assert(enc_string(p.kind).len() <= 4 + u32::MAX);
    assert(enc_string(p.value).len() <= 4 + u32::MAX);
    assert(enc_string(p.search).len() <= 4 + u32::MAX);
    assert(enc_string(p.timestamp).len() <= 4 + u32::MAX);
    match p.group {
        Some(s) => {
            assert(enc_opt_string(p.group).len() == 1 + enc_string(s).len());
            assert(enc_opt_string(p.group).len() <= 5 + u32::MAX);
        },
        None => {
            assert(enc_opt_string(p.group).len() == 1);
        },
    }
    match p.subtype {
        Some(s) => {
            assert(enc_opt_string(p.subtype).len() == 1 + enc_string(s).len());
            assert(enc_opt_string(p.subtype).len() <= 5 + u32::MAX);
        },
        None => {
            assert(enc_opt_string(p.subtype).len() == 1);
        },
    }
    assert(enc_i32(p.count).len() == 5);
    match p.width {
        Some(x) => {
            assert(enc_opt_i32(p.width).len() == 6);
        },
        None => {
            assert(enc_opt_i32(p.width).len() == 1);
        },
    }
    match p.height {
        Some(x) => {
            assert(enc_opt_i32(p.height).len() == 6);
        },
        None => {
            assert(enc_opt_i32(p.height).len() == 1);
        },
    }
}

} // verus!
