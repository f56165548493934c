//! Identifier decoding.
//!
//! The identifier arrives as one URI path segment, percent-encoded by the
//! client. Rules enforced here, in order:
//!
//! 1. exactly **one** percent-decode pass — the output is never re-decoded;
//! 2. strict encoding: `%` must introduce exactly two hex digits;
//! 3. the decoded bytes must be valid UTF-8 with no control characters;
//! 4. canonical-path traversal rejection: decoded `/` separates subdirectory
//!    segments, and no segment may be empty, `.`, or `..`; absolute paths,
//!    backslashes, and NUL never survive.
//!
//! The result is a relative path safe to join under a source root.

use vstd::prelude::*;
use vstd::utf8::{
    decode_utf8, decode_utf8_encode_utf8, encode_utf8, is_ascii_chars,
    is_ascii_chars_encode_utf8, valid_utf8,
};
use crate::text::{lemma_find_first_at, lemma_find_first_none, push_char, split_on};

verus! {

/// Why an identifier was rejected. All variants map to 404 at the HTTP
/// layer.
#[derive(Debug, Clone, Copy, PartialEq, Eq, Structural)]
#[non_exhaustive]
pub enum IdentifierError {
    /// Empty before percent-decoding.
    Empty,
    /// Malformed percent-escape.
    BadEscape,
    /// Percent-decoded bytes are not valid UTF-8.
    NotUtf8,
    /// Contains an ASCII control character.
    ControlCharacter,
    /// Contains a backslash (never a path separator here).
    Backslash,
    /// Contains an empty, `.` or `..` path segment, or is absolute.
    Traversal,
}

/// The message of each identifier failure.
pub open spec fn identifier_error_text(e: IdentifierError) -> Seq<char> {
    match e {
        IdentifierError::Empty => "empty identifier"@,
        IdentifierError::BadEscape => "invalid percent-encoding"@,
        IdentifierError::NotUtf8 => "identifier is not valid UTF-8"@,
        IdentifierError::ControlCharacter => "identifier contains control characters"@,
        IdentifierError::Backslash => "identifier contains a backslash"@,
        IdentifierError::Traversal => "identifier contains path traversal"@,
    }
}

impl IdentifierError {
    /// The human-readable message.
    pub fn to_string(&self) -> (s: String)
        ensures
            s@ == identifier_error_text(*self),
    {
        let m = match self {
            IdentifierError::Empty => "empty identifier",
            IdentifierError::BadEscape => "invalid percent-encoding",
            IdentifierError::NotUtf8 => "identifier is not valid UTF-8",
            IdentifierError::ControlCharacter => "identifier contains control characters",
            IdentifierError::Backslash => "identifier contains a backslash",
            IdentifierError::Traversal => "identifier contains path traversal",
        };
        m.to_string()
    }
}

/// A decoded, traversal-checked identifier: a relative path (`a/b/c.tif`
/// style) free of `.`/`..`/empty segments, control characters, and
/// backslashes.
#[derive(Debug, Clone, PartialEq, Eq, Hash)]
pub struct Identifier(String);

/// The value of one hexadecimal digit byte, either case.
pub open spec fn hex_val(b: u8) -> Option<u8> {
    if 48 <= b <= 57 {
        Some((b - 48) as u8)
    } else if 97 <= b <= 102 {
        Some((b - 87) as u8)
    } else if 65 <= b <= 70 {
        Some((b - 55) as u8)
    } else {
        None
    }
}

/// One pass of strict percent-decoding: `%` must be followed by two hex
/// digits; every other byte stands for itself.
pub open spec fn percent_decode(b: Seq<u8>) -> Option<Seq<u8>>
    decreases b.len(),
{
    if b.len() == 0 {
        Some(Seq::<u8>::empty())
    } else if b[0] == 37 {
        if b.len() < 3 {
            None
        } else {
            match (hex_val(b[1]), hex_val(b[2])) {
                (Some(hi), Some(lo)) => match percent_decode(b.skip(3)) {
                    Some(rest) => Some(seq![(hi * 16 + lo) as u8] + rest),
                    None => None,
                },
                _ => None,
            }
        }
    } else {
        match percent_decode(b.drop_first()) {
            Some(rest) => Some(seq![b[0]] + rest),
            None => None,
        }
    }
}

/// Whether a path segment is empty, `.` or `..`.
pub open spec fn is_traversal_segment(seg: Seq<u8>) -> bool {
    seg.len() == 0 || seg == seq![46u8] || seg == seq![46u8, 46u8]
}

/// Whether a byte is an ASCII control character.
pub open spec fn is_control(b: u8) -> bool {
    b < 32 || b == 127
}

/// Whether some `/`-separated segment of `d` is empty, `.` or `..`.
pub open spec fn has_traversal_segment(d: Seq<u8>) -> bool {
    exists|k: int|
        0 <= k < split_on(d, 47u8).len() && is_traversal_segment(#[trigger] split_on(d, 47u8)[k])
}

/// Whether some byte of `d` is a control character.
pub open spec fn has_control(d: Seq<u8>) -> bool {
    exists|i: int| 0 <= i < d.len() && is_control(#[trigger] d[i])
}

/// Whether some byte of `d` is a backslash.
pub open spec fn has_backslash(d: Seq<u8>) -> bool {
    exists|i: int| 0 <= i < d.len() && #[trigger] d[i] == 92
}

/// The checks a decoded identifier must pass, in order.
pub open spec fn check_decoded(d: Seq<u8>) -> Result<(), IdentifierError> {
    if !valid_utf8(d) {
        Err(IdentifierError::NotUtf8)
    } else if has_control(d) {
        Err(IdentifierError::ControlCharacter)
    } else if has_backslash(d) {
        Err(IdentifierError::Backslash)
    } else if d.len() > 0 && d[0] == 47 {
        Err(IdentifierError::Traversal)
    } else if has_traversal_segment(d) {
        Err(IdentifierError::Traversal)
    } else {
        Ok(())
    }
}

/// What decoding a raw (still percent-encoded) segment yields: the decoded
/// bytes, or why they were refused.
pub open spec fn spec_decode(raw: Seq<u8>) -> Result<Seq<u8>, IdentifierError> {
    if raw.len() == 0 {
        Err(IdentifierError::Empty)
    } else {
        match percent_decode(raw) {
            None => Err(IdentifierError::BadEscape),
            Some(d) => match check_decoded(d) {
                Ok(()) => Ok(d),
                Err(e) => Err(e),
            },
        }
    }
}

/// The uppercase hex digit for a value below 16.
pub open spec fn hex_digit(n: nat) -> u8 {
    if n < 10 {
        (48 + n) as u8
    } else {
        (55 + n) as u8
    }
}

/// Whether a byte is percent-encoded in emitted URIs: `%`, the Image
/// API's to-encode set `/ ? # [ ] @`, and everything outside printable ASCII.
pub open spec fn needs_escape(b: u8) -> bool {
    b == 47 || b == 63 || b == 35 || b == 91 || b == 93 || b == 64 || b == 37 || !(33 <= b
        <= 126)
}

/// The encoding of one byte.
pub open spec fn encode_byte(b: u8) -> Seq<u8> {
    if needs_escape(b) {
        seq![37u8, hex_digit(b as nat / 16), hex_digit(b as nat % 16)]
    } else {
        seq![b]
    }
}

/// Percent-encoding for emitted URIs.
pub open spec fn percent_encode(b: Seq<u8>) -> Seq<u8>
    decreases b.len(),
{
    if b.len() == 0 {
        Seq::<u8>::empty()
    } else {
        encode_byte(b[0]) + percent_encode(b.drop_first())
    }
}

/// ASCII bytes read as characters.
pub open spec fn ascii_chars(b: Seq<u8>) -> Seq<char> {
    Seq::new(b.len(), |i: int| b[i] as char)
}

impl View for Identifier {
    type V = Seq<u8>;

    /// The identifier's UTF-8 bytes.
    closed spec fn view(&self) -> Seq<u8> {
        encode_utf8(self.0@)
    }
}

impl Identifier {
    /// The identifier's characters (its decoded relative path).
    pub closed spec fn spec_path(self) -> Seq<char> {
        self.0@
    }

    /// The path [`Identifier::as_path`] gives is the text whose UTF-8
    /// encoding is the decoded bytes [`Identifier::decode`] produced.
    pub proof fn lemma_view_is_path_bytes(self)
        ensures
            self@ == encode_utf8(self.spec_path()),
    {
    }
}

/// The exec counterpart of [`hex_val`].
fn hex_value(b: u8) -> (r: Option<u8>)
    ensures
        r == hex_val(b),
{
    if 48 <= b && b <= 57 {
        Some(b - 48)
    } else if 97 <= b && b <= 102 {
        Some(b - 87)
    } else if 65 <= b && b <= 70 {
        Some(b - 55)
    } else {
        None
    }
}

/// Builds a `String` from bytes (`String::from_utf8`): `Some` exactly when
/// the bytes are valid UTF-8, holding the characters they encode.
#[verifier::external_body]
fn string_from_utf8(v: Vec<u8>) -> (r: Option<String>)
    ensures
        r is Some <==> valid_utf8(v@),
        r matches Some(s) ==> s@ == decode_utf8(v@),
{
    String::from_utf8(v).ok()
}

/// The pieces of `d` between `/` bytes, as ranges, like `split_range`.
fn split_slashes(d: &[u8]) -> (r: Vec<(usize, usize)>)
    ensures
        r@.len() == split_on(d@, 47u8).len(),
        forall|k: int|
            0 <= k < r@.len() ==> {
                &&& (#[trigger] r@[k]).0 <= r@[k].1 <= d@.len()
                &&& d@.subrange(r@[k].0 as int, r@[k].1 as int) == split_on(d@, 47u8)[k]
            },
{
    let hi = d.len();
    let ghost mut pieces: Seq<Seq<u8>> = seq![];
    let mut r: Vec<(usize, usize)> = Vec::new();
    let mut start: usize = 0;
    let mut j: usize = 0;
    assert(d@.subrange(0, hi as int) =~= d@);
    while j < hi
        invariant
            start <= j <= hi == d@.len(),
            r@.len() == pieces.len(),
            forall|k: int|
                0 <= k < r@.len() ==> {
                    &&& (#[trigger] r@[k]).0 <= r@[k].1 <= hi
                    &&& d@.subrange(r@[k].0 as int, r@[k].1 as int) == pieces[k]
                },
            split_on(d@, 47u8) == pieces + split_on(d@.subrange(start as int, hi as int), 47u8),
            forall|k: int| start <= k < j ==> d@[k] != 47u8,
        decreases hi - j,
    {
        if d[j] == 47u8 {
            proof {
                let rest = d@.subrange(start as int, hi as int);
                lemma_find_first_at(rest, 47u8, j - start);
                assert(rest.take(j - start) =~= d@.subrange(start as int, j as int));
                assert(rest.skip(j - start + 1) =~= d@.subrange(j + 1, hi as int));
                assert(pieces + split_on(rest, 47u8) =~= pieces.push(
                    d@.subrange(start as int, j as int),
                ) + split_on(d@.subrange(j + 1, hi as int), 47u8));
                pieces = pieces.push(d@.subrange(start as int, j as int));
            }
            r.push((start, j));
            start = j + 1;
        }
        j += 1;
    }
    proof {
        let rest = d@.subrange(start as int, hi as int);
        assert forall|k: int| 0 <= k < rest.len() implies rest[k] != 47u8 by {
            assert(rest[k] == d@[start + k]);
        }
        lemma_find_first_none(rest, 47u8);
        assert(pieces + seq![rest] =~= pieces.push(rest));
        pieces = pieces.push(rest);
    }
    r.push((start, hi));
    r
}

/// `Some(prefix + rest)` when `rest` is `Some`.
pub open spec fn prepend(prefix: Seq<u8>, rest: Option<Seq<u8>>) -> Option<Seq<u8>> {
    match rest {
        Some(r) => Some(prefix + r),
        None => None,
    }
}

/// Whether some byte is a control character.
fn scan_control(bytes: &[u8]) -> (b: bool)
    ensures
        b == has_control(bytes@),
{
    let m = bytes.len();
    let mut j: usize = 0;
    while j < m
        invariant
            j <= m == bytes@.len(),
            forall|k: int| 0 <= k < j ==> !is_control(#[trigger] bytes@[k]),
        decreases m - j,
    {
        if bytes[j] < 32u8 || bytes[j] == 127u8 {
            assert(is_control(bytes@[j as int]));
            return true;
        }
        j += 1;
    }
    false
}

/// Whether some byte is a backslash.
fn scan_backslash(bytes: &[u8]) -> (b: bool)
    ensures
        b == has_backslash(bytes@),
{
    let m = bytes.len();
    let mut j: usize = 0;
    while j < m
        invariant
            j <= m == bytes@.len(),
            forall|k: int| 0 <= k < j ==> #[trigger] bytes@[k] != 92,
        decreases m - j,
    {
        if bytes[j] == 92u8 {
            assert(bytes@[j as int] == 92);
            return true;
        }
        j += 1;
    }
    false
}

/// Whether a segment range spells an empty, `.` or `..` segment.
fn segment_is_traversal(bytes: &[u8], a: usize, z: usize) -> (bad: bool)
    requires
        a <= z <= bytes@.len(),
    ensures
        bad == is_traversal_segment(bytes@.subrange(a as int, z as int)),
{
    let ghost seg = bytes@.subrange(a as int, z as int);
    let bad = a == z || (z - a == 1 && bytes[a] == 46u8) || (z - a == 2 && bytes[a] == 46u8
        && bytes[a + 1] == 46u8);
    proof {
        if z - a == 1 {
            if bytes@[a as int] == 46u8 {
                assert(seg =~= seq![46u8]);
            } else {
                assert(seg[0] != 46u8);
            }
            assert(seg.len() != seq![46u8, 46u8].len());
        } else if z - a == 2 {
            if bytes@[a as int] == 46u8 && bytes@[a + 1] == 46u8 {
                assert(seg =~= seq![46u8, 46u8]);
            } else {
                assert(seg[0] != 46u8 || seg[1] != 46u8);
            }
            assert(seg.len() != seq![46u8].len());
        } else if z - a > 2 {
            assert(seg.len() != seq![46u8, 46u8].len());
            assert(seg.len() != seq![46u8].len());
        }
    }
    bad
}

/// Whether some segment is empty, `.` or `..`.
fn scan_segments(bytes: &[u8]) -> (b: bool)
    ensures
        b == has_traversal_segment(bytes@),
{
    let segs = split_slashes(bytes);
    let ghost pieces = split_on(bytes@, 47u8);
    let mut k: usize = 0;
    while k < segs.len()
        invariant
            k <= segs@.len() == pieces.len(),
            pieces == split_on(bytes@, 47u8),
            forall|q: int|
                0 <= q < segs@.len() ==> {
                    &&& (#[trigger] segs@[q]).0 <= segs@[q].1 <= bytes@.len()
                    &&& bytes@.subrange(segs@[q].0 as int, segs@[q].1 as int) == pieces[q]
                },
            forall|q: int| 0 <= q < k ==> !is_traversal_segment(#[trigger] pieces[q]),
        decreases segs@.len() - k,
    {
        let (a, z) = segs[k];
        let bad = segment_is_traversal(bytes, a, z);
        if bad {
            assert(is_traversal_segment(pieces[k as int]));
            return true;
        }
        k += 1;
    }
    false
}

/// Runs the post-decoding checks over valid UTF-8 bytes.
fn check_bytes(bytes: &[u8]) -> (r: Result<(), IdentifierError>)
    requires
        valid_utf8(bytes@),
    ensures
        r == check_decoded(bytes@),
{
    if scan_control(bytes) {
        return Err(IdentifierError::ControlCharacter);
    }
    if scan_backslash(bytes) {
        return Err(IdentifierError::Backslash);
    }
    if bytes.len() > 0 && bytes[0] == 47u8 {
        return Err(IdentifierError::Traversal);
    }
    if scan_segments(bytes) {
        return Err(IdentifierError::Traversal);
    }
    Ok(())
}

impl Identifier {
    /// Decodes a raw (still percent-encoded) identifier path segment.
    ///
    /// # Errors
    ///
    /// An [`IdentifierError`] (HTTP 404) for malformed encodings, non-UTF-8
    /// or control bytes, backslashes, and any traversal shape.
    #[verifier::loop_isolation(false)]
    pub fn decode(raw: &str) -> (r: Result<Identifier, IdentifierError>)
        ensures
            match r {
                Ok(id) => spec_decode(encode_utf8(raw@)) == Ok::<Seq<u8>, IdentifierError>(id@),
                Err(e) => spec_decode(encode_utf8(raw@)) == Err::<Seq<u8>, IdentifierError>(e),
            },
    {
        let b = raw.as_bytes();
        let n = b.len();
        if n == 0 {
            return Err(IdentifierError::Empty);
        }
        let mut out: Vec<u8> = Vec::with_capacity(n);
        let mut i: usize = 0;
        proof {
            assert(b@.skip(0) =~= b@);
            match percent_decode(b@) {
                Some(t) => {
                    assert(out@ + t =~= t);
                },
                None => {},
            }
        }
        while i < n
            invariant
                i <= n == b@.len(),
                percent_decode(b@) == prepend(out@, percent_decode(b@.skip(i as int))),
            decreases n - i,
        {
            let ghost rest = b@.skip(i as int);
            assert(rest[0] == b@[i as int]);
            if b[i] == 37u8 {
                if n - i < 3 {
                    assert(percent_decode(rest) is None);
                    return Err(IdentifierError::BadEscape);
                }
                let hi = hex_value(b[i + 1]);
                let lo = hex_value(b[i + 2]);
                match (hi, lo) {
                    (Some(h), Some(l)) => {
                        proof {
                            assert(rest[1] == b@[i + 1]);
                            assert(rest[2] == b@[i + 2]);
                            assert(rest.skip(3) =~= b@.skip(i + 3));
                        }
                        let ghost old_out = out@;
                        out.push(h * 16 + l);
                        proof {
                            match percent_decode(b@.skip(i + 3)) {
                                Some(t) => {
                                    assert(old_out + (seq![(h * 16 + l) as u8] + t) =~= out@ + t);
                                },
                                None => {},
                            }
                        }
                        i += 3;
                    },
                    _ => {
                        proof {
                            assert(rest[1] == b@[i + 1]);
                            assert(rest[2] == b@[i + 2]);
                            assert(percent_decode(rest) is None);
                        }
                        return Err(IdentifierError::BadEscape);
                    },
                }
            } else {
                proof {
                    assert(rest.drop_first() =~= b@.skip(i + 1));
                }
                let ghost old_out = out@;
                out.push(b[i]);
                proof {
                    match percent_decode(b@.skip(i + 1)) {
                        Some(t) => {
                            assert(old_out + (seq![b@[i as int]] + t) =~= out@ + t);
                        },
                        None => {},
                    }
                }
                i += 1;
            }
        }
        assert(b@.skip(n as int) =~= Seq::<u8>::empty());
        assert(out@ + Seq::<u8>::empty() =~= out@);
        let ghost d = out@;
        let s = match string_from_utf8(out) {
            Some(s) => s,
            None => {
                return Err(IdentifierError::NotUtf8);
            },
        };
        let bytes = s.as_str().as_bytes();
        proof {
            decode_utf8_encode_utf8(d);
            assert(bytes@ == d);
        }
        match check_bytes(bytes) {
            Ok(()) => {},
            Err(e) => {
                return Err(e);
            },
        }
        Ok(Identifier(s))
    }

    /// The decoded identifier as a root-relative path.
    pub fn as_path(&self) -> (p: &str)
        ensures
            encode_utf8(p@) == self@,
            p@ == self.spec_path(),
    {
        self.0.as_str()
    }

    /// Re-encodes for use in URIs we emit (canonical Link headers,
    /// info.json `id`): percent-encodes `%`, the Image API's to-encode set, and
    /// everything outside printable US-ASCII.
    pub fn encoded(&self) -> (s: String)
        ensures
            s@ == ascii_chars(percent_encode(self@)),
    {
        let b = self.0.as_str().as_bytes();
        let n = b.len();
        let mut out = String::new();
        let mut i: usize = 0;
        assert(out@ =~= ascii_chars(percent_encode(b@.take(0))));
        while i < n
            invariant
                i <= n == b@.len(),
                b@ == self@,
                out@ == ascii_chars(percent_encode(b@.take(i as int))),
            decreases n - i,
        {
            let byte = b[i];
            let escape = byte == 47u8 || byte == 63u8 || byte == 35u8 || byte == 91u8 || byte
                == 93u8 || byte == 64u8 || byte == 37u8 || !(33u8 <= byte && byte <= 126u8);
            let ghost before = out@;
            if escape {
                let hi = byte / 16;
                let lo = byte % 16;
                let hc: char = if hi < 10 {
                    (48u8 + hi) as char
                } else {
                    (55u8 + hi) as char
                };
                let lc: char = if lo < 10 {
                    (48u8 + lo) as char
                } else {
                    (55u8 + lo) as char
                };
                push_char(&mut out, '%');
                push_char(&mut out, hc);
                push_char(&mut out, lc);
            } else {
                push_char(&mut out, byte as char);
            }
            proof {
                lemma_percent_encode_split(b@, i as int);
                assert(out@ =~= ascii_chars(percent_encode(b@.take(i + 1))));
            }
            i += 1;
        }
        assert(b@.take(n as int) =~= b@);
        out
    }
}

/// Encoding distributes over a one-byte step of a prefix.
proof fn lemma_percent_encode_split(b: Seq<u8>, i: int)
    requires
        0 <= i < b.len(),
    ensures
        percent_encode(b.take(i + 1)) == percent_encode(b.take(i)) + encode_byte(b[i]),
{
    lemma_percent_encode_append(b.take(i), seq![b[i]]);
    assert(b.take(i) + seq![b[i]] =~= b.take(i + 1));
    assert(percent_encode(seq![b[i]]) =~= encode_byte(b[i])) by {
        assert(seq![b[i]].drop_first() =~= Seq::<u8>::empty());
        reveal_with_fuel(percent_encode, 2);
    }
}

/// Encoding distributes over concatenation.
proof fn lemma_percent_encode_append(a: Seq<u8>, c: Seq<u8>)
    ensures
        percent_encode(a + c) == percent_encode(a) + percent_encode(c),
    decreases a.len(),
{
    if a.len() == 0 {
        assert(a + c =~= c);
    } else {
        lemma_percent_encode_append(a.drop_first(), c);
        assert((a + c).drop_first() =~= a.drop_first() + c);
        assert(percent_encode(a + c) =~= percent_encode(a) + percent_encode(c));
    }
}

/// Every hex digit this encoder writes reads back as its value.
proof fn lemma_hex_roundtrip(n: nat)
    requires
        n < 16,
    ensures
        hex_val(hex_digit(n)) == Some(n as u8),
{
}

/// A hex digit for a value below 16, in lower (`a`–`f`) or upper (`A`–`F`)
/// case.
pub open spec fn cased_hex_digit(n: nat, lower: bool) -> u8 {
    if n < 10 {
        (48 + n) as u8
    } else if lower {
        (87 + n) as u8
    } else {
        (55 + n) as u8
    }
}

/// A byte with `a`–`f` raised to `A`–`F`.
pub open spec fn raise_hex(b: u8) -> u8 {
    if 97 <= b <= 102 {
        (b - 32) as u8
    } else {
        b
    }
}

/// Every byte's escape decodes to that byte, whichever case its hex digits
/// are written in: `%2f` and `%2F` are both `/`.
pub proof fn lemma_escape_decodes(b: u8, lower: bool)
    ensures
        percent_decode(
            seq![37u8, cased_hex_digit(b as nat / 16, lower), cased_hex_digit(b as nat % 16, lower)],
        ) == Some(seq![b]),
{
    let e = seq![37u8, cased_hex_digit(b as nat / 16, lower), cased_hex_digit(b as nat % 16, lower)];
    assert(e.skip(3) =~= Seq::<u8>::empty());
    assert(percent_decode(Seq::<u8>::empty()) == Some(Seq::<u8>::empty()));
    assert(e.len() == 3 && e[0] == 37u8);
    assert(hex_val(e[1]) == Some((b as nat / 16) as u8));
    assert(hex_val(e[2]) == Some((b as nat % 16) as u8));
    assert(((b as nat / 16) * 16 + b as nat % 16) as u8 == b);
    assert(seq![b] + Seq::<u8>::empty() =~= seq![b]);
}

/// Percent-decoding does not depend on the case of hex digits: an escape
/// read with its letters raised to upper case decodes, with whatever
/// follows it, to the same bytes.
pub proof fn lemma_percent_decode_ignores_case(hi: u8, lo: u8, rest: Seq<u8>)
    ensures
        percent_decode(seq![37u8, hi, lo] + rest) == percent_decode(
            seq![37u8, raise_hex(hi), raise_hex(lo)] + rest,
        ),
{
    let a = seq![37u8, hi, lo] + rest;
    let b = seq![37u8, raise_hex(hi), raise_hex(lo)] + rest;
    assert(a.skip(3) =~= rest);
    assert(b.skip(3) =~= rest);
    assert(a[0] == 37u8 && a[1] == hi && a[2] == lo);
    assert(b[0] == 37u8 && b[1] == raise_hex(hi) && b[2] == raise_hex(lo));
    assert(hex_val(hi) == hex_val(raise_hex(hi)));
    assert(hex_val(lo) == hex_val(raise_hex(lo)));
}

/// Whether a byte is a hexadecimal digit: `0`–`9`, `A`–`F` or `a`–`f`.
pub open spec fn is_hex_byte(b: u8) -> bool {
    (48 <= b <= 57) || (65 <= b <= 70) || (97 <= b <= 102)
}

/// A `%` must be followed by two hexadecimal digits: an escape with any
/// other byte in either place does not decode, whatever follows it.
pub proof fn lemma_escape_needs_hex(hi: u8, lo: u8, rest: Seq<u8>)
    requires
        !is_hex_byte(hi) || !is_hex_byte(lo),
    ensures
        percent_decode(seq![37u8, hi, lo] + rest) is None,
{
    let a = seq![37u8, hi, lo] + rest;
    assert(a[0] == 37u8 && a[1] == hi && a[2] == lo && a.len() >= 3);
}

/// Decoding undoes encoding, byte for byte.
proof fn lemma_decode_encode_bytes(b: Seq<u8>)
    ensures
        percent_decode(percent_encode(b)) == Some(b),
    decreases b.len(),
{
    if b.len() > 0 {
        let x = b[0];
        let rest = b.drop_first();
        lemma_decode_encode_bytes(rest);
        let e = percent_encode(b);
        assert(e == encode_byte(x) + percent_encode(rest));
        if needs_escape(x) {
            lemma_hex_roundtrip(x as nat / 16);
            lemma_hex_roundtrip(x as nat % 16);
            assert(e[0] == 37u8);
            assert(e[1] == hex_digit(x as nat / 16));
            assert(e[2] == hex_digit(x as nat % 16));
            assert(e.skip(3) =~= percent_encode(rest));
            assert(((x as nat / 16) * 16 + x as nat % 16) as u8 == x);
            assert(seq![x] + rest =~= b);
        } else {
            assert(e[0] == x);
            assert(e.drop_first() =~= percent_encode(rest));
            assert(seq![x] + rest =~= b);
        }
    }
}

/// Every byte an encoding holds is ASCII.
proof fn lemma_encode_ascii(b: Seq<u8>)
    ensures
        forall|i: int| 0 <= i < percent_encode(b).len() ==> #[trigger] percent_encode(b)[i] < 128,
        b.len() > 0 ==> percent_encode(b).len() > 0,
    decreases b.len(),
{
    if b.len() > 0 {
        lemma_encode_ascii(b.drop_first());
        let e = percent_encode(b);
        let head = encode_byte(b[0]);
        assert forall|i: int| 0 <= i < e.len() implies #[trigger] e[i] < 128 by {
            if i < head.len() {
                assert(e[i] == head[i]);
            } else {
                assert(e[i] == percent_encode(b.drop_first())[i - head.len()]);
            }
        }
    }
}

/// ASCII bytes, read as characters, encode back to themselves.
proof fn lemma_ascii_chars_bytes(b: Seq<u8>)
    requires
        forall|i: int| 0 <= i < b.len() ==> #[trigger] b[i] < 128,
    ensures
        encode_utf8(ascii_chars(b)) == b,
{
    let c = ascii_chars(b);
    assert(is_ascii_chars(c)) by {
        assert forall|i: int| 0 <= i < c.len() implies '\0' <= #[trigger] c[i] <= '\u{7f}' by {
            assert(b[i] < 128);
        }
    }
    is_ascii_chars_encode_utf8(c);
    assert(encode_utf8(c) =~= b);
}

/// The identifier round trip: whatever [`Identifier::decode`] accepts,
/// the spelling [`Identifier::encoded`] gives it decodes back to the same
/// identifier.
pub proof fn lemma_identifier_roundtrip(b: Seq<u8>)
    requires
        check_decoded(b) == Ok::<(), IdentifierError>(()),
    ensures
        spec_decode(encode_utf8(ascii_chars(percent_encode(b)))) == Ok::<
            Seq<u8>,
            IdentifierError,
        >(b),
{
    if b.len() == 0 {
        assert(split_on(b, 47u8)[0] == b);
        assert(is_traversal_segment(split_on(b, 47u8)[0]));
    }
    lemma_encode_ascii(b);
    lemma_ascii_chars_bytes(percent_encode(b));
    lemma_decode_encode_bytes(b);
}

/// What decoding accepts never holds an empty, `.` or `..` segment, never
/// starts with `/`, and holds no control byte or backslash.
pub proof fn lemma_decoded_is_safe(raw: Seq<u8>)
    requires
        spec_decode(raw) is Ok,
    ensures
        ({
            let d = spec_decode(raw)->Ok_0;
            &&& valid_utf8(d)
            &&& !has_control(d)
            &&& !has_backslash(d)
            &&& !(d.len() > 0 && d[0] == 47)
            &&& forall|k: int|
                0 <= k < split_on(d, 47u8).len() ==> !is_traversal_segment(
                    #[trigger] split_on(d, 47u8)[k],
                )
        }),
{
}

} // verus!
