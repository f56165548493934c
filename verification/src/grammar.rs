//! The IIIF Image API 3.0 request grammar: strict parsing of the region,
//! size, rotation, quality and format path segments, and their canonical
//! spellings.
//!
//! Parsing is strict: every accepted string is well formed, and every value
//! is range-checked at parse time where the check needs no image
//! dimensions. Decimal parameters (`pct:` values and rotation degrees) are
//! held exactly, as a digit string and a count of fractional digits.

use vstd::prelude::*;
use crate::text::{
    all_digits, chars_of, digit_char, nat_text, push_char, push_u64, digit_value, digits_value, find_first, find_last, is_digit,
    lemma_digits_value_prefix, lemma_digits_value_push, lemma_find_first, lemma_find_first_at,
    lemma_find_first_none, lemma_find_last, lemma_find_last_at, lemma_find_last_none, pow10,
    split_on,
};

verus! {

/// Which request component failed to parse. Every variant maps to a 400.
#[derive(Debug, Clone, Copy, PartialEq, Eq, Structural)]
pub enum Component {
    /// The region segment failed to parse.
    Region,
    /// The size segment failed to parse.
    Size,
    /// The rotation segment failed to parse.
    Rotation,
    /// The quality segment failed to parse.
    Quality,
    /// The format suffix failed to parse.
    Format,
    /// The path didn't have the `region/size/rotation/quality.format` shape.
    Structure,
}

/// A parse failure: the offending component and the input that failed.
#[derive(Debug, Clone, PartialEq, Eq)]
pub struct ParseError {
    /// Which component rejected the input.
    pub component: Component,
    /// The exact segment text that failed to parse.
    pub input: String,
}

/// What `{:?}` prints for a string: the text quoted, with quotes,
/// backslashes and unprintable characters escaped.
pub uninterp spec fn debug_text(s: Seq<char>) -> Seq<char>;

/// Formats a string with `{:?}` (std's `Debug` for `str`). The result is
/// named by [`debug_text`].
#[verifier::external_body]
fn debug_quoted(s: &str) -> (r: String)
    ensures
        r@ == debug_text(s@),
{
    format!("{:?}", s)
}

/// The name of a component in messages.
pub open spec fn component_name(c: Component) -> Seq<char> {
    match c {
        Component::Region => "region"@,
        Component::Size => "size"@,
        Component::Rotation => "rotation"@,
        Component::Quality => "quality"@,
        Component::Format => "format"@,
        Component::Structure => "request path"@,
    }
}

/// The message of a parse failure.
pub open spec fn parse_error_text(e: ParseError) -> Seq<char> {
    "malformed "@ + component_name(e.component) + ": "@ + debug_text(e.input@)
}

impl ParseError {
    /// The message: `malformed <component>: "<input>"`.
    pub fn to_string(&self) -> (s: String)
        ensures
            s@ == parse_error_text(*self),
    {
        let mut s = String::new();
        push_str(&mut s, "malformed ");
        push_str(
            &mut s,
            match self.component {
                Component::Region => "region",
                Component::Size => "size",
                Component::Rotation => "rotation",
                Component::Quality => "quality",
                Component::Format => "format",
                Component::Structure => "request path",
            },
        );
        push_str(&mut s, ": ");
        let q = debug_quoted(self.input.as_str());
        push_str(&mut s, q.as_str());
        s
    }

    /// The error for `component` rejecting `input`.
    pub fn new(component: Component, input: &str) -> (e: ParseError)
        ensures
            e.component == component,
            e.input@ == input@,
    {
        ParseError { component, input: input.to_owned() }
    }
}

/// The quality parameter.
#[derive(Debug, Clone, Copy, PartialEq, Eq, Structural, Hash)]
pub enum Quality {
    /// `default` — the image as stored, no colorspace change.
    Default,
    /// `color` — full colour.
    Color,
    /// `gray` — greyscale.
    Gray,
    /// `bitonal` — one bit per pixel.
    Bitonal,
}

/// The format parameter. Every format the Image API enumerates parses.
#[derive(Debug, Clone, Copy, PartialEq, Eq, Structural, Hash)]
pub enum Format {
    /// `jpg` — JPEG.
    Jpg,
    /// `tif` — TIFF.
    Tif,
    /// `png` — PNG.
    Png,
    /// `gif` — GIF.
    Gif,
    /// `jp2` — JPEG 2000.
    Jp2,
    /// `pdf` — single-page PDF wrapping the raster.
    Pdf,
    /// `webp` — WebP.
    Webp,
}

/// The spelling of each quality.
pub open spec fn quality_text(q: Quality) -> Seq<char> {
    match q {
        Quality::Default => "default"@,
        Quality::Color => "color"@,
        Quality::Gray => "gray"@,
        Quality::Bitonal => "bitonal"@,
    }
}

/// The quality a segment names, if it names one.
pub open spec fn spec_quality(s: Seq<char>) -> Option<Quality> {
    if s == "default"@ {
        Some(Quality::Default)
    } else if s == "color"@ {
        Some(Quality::Color)
    } else if s == "gray"@ {
        Some(Quality::Gray)
    } else if s == "bitonal"@ {
        Some(Quality::Bitonal)
    } else {
        None
    }
}

/// The spelling of each format.
pub open spec fn format_text(f: Format) -> Seq<char> {
    match f {
        Format::Jpg => "jpg"@,
        Format::Tif => "tif"@,
        Format::Png => "png"@,
        Format::Gif => "gif"@,
        Format::Jp2 => "jp2"@,
        Format::Pdf => "pdf"@,
        Format::Webp => "webp"@,
    }
}

/// The media type each format is served with.
pub open spec fn format_media_type(f: Format) -> Seq<char> {
    match f {
        Format::Jpg => "image/jpeg"@,
        Format::Tif => "image/tiff"@,
        Format::Png => "image/png"@,
        Format::Gif => "image/gif"@,
        Format::Jp2 => "image/jp2"@,
        Format::Pdf => "application/pdf"@,
        Format::Webp => "image/webp"@,
    }
}

/// The format a segment names, if it names one.
pub open spec fn spec_format(s: Seq<char>) -> Option<Format> {
    if s == "jpg"@ {
        Some(Format::Jpg)
    } else if s == "tif"@ {
        Some(Format::Tif)
    } else if s == "png"@ {
        Some(Format::Png)
    } else if s == "gif"@ {
        Some(Format::Gif)
    } else if s == "jp2"@ {
        Some(Format::Jp2)
    } else if s == "pdf"@ {
        Some(Format::Pdf)
    } else if s == "webp"@ {
        Some(Format::Webp)
    } else {
        None
    }
}

/// Whether the characters `v[lo..hi]` spell exactly `lit`.
pub fn range_is(v: &Vec<char>, lo: usize, hi: usize, lit: &str) -> (b: bool)
    requires
        lo <= hi <= v@.len(),
    ensures
        b == (v@.subrange(lo as int, hi as int) == lit@),
{
    let n = lit.unicode_len();
    if hi - lo != n {
        return false;
    }
    for i in 0..n
        invariant
            n == lit@.len(),
            hi - lo == n,
            lo <= hi <= v@.len(),
            forall|j: int| 0 <= j < i ==> v@[lo + j] == lit@[j],
    {
        if v[lo + i] != lit.get_char(i) {
            assert(v@.subrange(lo as int, hi as int)[i as int] != lit@[i as int]);
            return false;
        }
    }
    assert(v@.subrange(lo as int, hi as int) =~= lit@);
    true
}

/// Whether `v[lo..hi]` begins with `lit`.
pub fn range_starts_with(v: &Vec<char>, lo: usize, hi: usize, lit: &str) -> (b: bool)
    requires
        lo <= hi <= v@.len(),
    ensures
        b == starts_with(v@.subrange(lo as int, hi as int), lit@),
{
    let n = lit.unicode_len();
    if hi - lo < n {
        return false;
    }
    assert(v@.subrange(lo as int, hi as int).take(n as int) =~= v@.subrange(lo as int, lo + n));
    range_is(v, lo, lo + n, lit)
}

impl Quality {
    /// Parses a quality segment.
    ///
    /// # Errors
    ///
    /// A [`ParseError`] (HTTP 400) naming [`Component::Quality`] when the
    /// input is not one of the four v3 quality names.
    pub fn parse(input: &str) -> (r: Result<Quality, ParseError>)
        ensures
            match r {
                Ok(q) => spec_quality(input@) == Some(q),
                Err(e) => spec_quality(input@) is None && e.component == Component::Quality
                    && e.input@ == input@,
            },
    {
        let v = chars_of(input);
        let n = v.len();
        assert(v@.subrange(0, n as int) =~= v@);
        if range_is(&v, 0, n, "default") {
            Ok(Quality::Default)
        } else if range_is(&v, 0, n, "color") {
            Ok(Quality::Color)
        } else if range_is(&v, 0, n, "gray") {
            Ok(Quality::Gray)
        } else if range_is(&v, 0, n, "bitonal") {
            Ok(Quality::Bitonal)
        } else {
            Err(ParseError::new(Component::Quality, input))
        }
    }

    /// The lowercase parameter spelling.
    pub fn as_str(self) -> (s: &'static str)
        ensures
            s@ == quality_text(self),
    {
        match self {
            Quality::Default => "default",
            Quality::Color => "color",
            Quality::Gray => "gray",
            Quality::Bitonal => "bitonal",
        }
    }
}

impl Format {
    /// Parses a format suffix.
    ///
    /// # Errors
    ///
    /// A [`ParseError`] (HTTP 400) naming [`Component::Format`] when the
    /// input is not one of the seven format names the Image API enumerates.
    pub fn parse(input: &str) -> (r: Result<Format, ParseError>)
        ensures
            match r {
                Ok(f) => spec_format(input@) == Some(f),
                Err(e) => spec_format(input@) is None && e.component == Component::Format
                    && e.input@ == input@,
            },
    {
        let v = chars_of(input);
        let n = v.len();
        assert(v@.subrange(0, n as int) =~= v@);
        if range_is(&v, 0, n, "jpg") {
            Ok(Format::Jpg)
        } else if range_is(&v, 0, n, "tif") {
            Ok(Format::Tif)
        } else if range_is(&v, 0, n, "png") {
            Ok(Format::Png)
        } else if range_is(&v, 0, n, "gif") {
            Ok(Format::Gif)
        } else if range_is(&v, 0, n, "jp2") {
            Ok(Format::Jp2)
        } else if range_is(&v, 0, n, "pdf") {
            Ok(Format::Pdf)
        } else if range_is(&v, 0, n, "webp") {
            Ok(Format::Webp)
        } else {
            Err(ParseError::new(Component::Format, input))
        }
    }

    /// The lowercase extension spelling.
    pub fn as_str(self) -> (s: &'static str)
        ensures
            s@ == format_text(self),
    {
        match self {
            Format::Jpg => "jpg",
            Format::Tif => "tif",
            Format::Png => "png",
            Format::Gif => "gif",
            Format::Jp2 => "jp2",
            Format::Pdf => "pdf",
            Format::Webp => "webp",
        }
    }

    /// The Content-Type this format is served with.
    pub fn media_type(self) -> (s: &'static str)
        ensures
            s@ == format_media_type(self),
    {
        match self {
            Format::Jpg => "image/jpeg",
            Format::Tif => "image/tiff",
            Format::Png => "image/png",
            Format::Gif => "image/gif",
            Format::Jp2 => "image/jp2",
            Format::Pdf => "application/pdf",
            Format::Webp => "image/webp",
        }
    }
}


/// Whether `s` begins with `p`.
pub open spec fn starts_with(s: Seq<char>, p: Seq<char>) -> bool {
    p.len() <= s.len() && s.take(p.len() as int) == p
}

/// The index of the first `c` in `v[lo..hi]`, as an absolute index.
pub fn find_in_range(v: &Vec<char>, lo: usize, hi: usize, c: char) -> (r: Option<usize>)
    requires
        lo <= hi <= v@.len(),
    ensures
        match find_first(v@.subrange(lo as int, hi as int), c) {
            Some(i) => r == Some((lo + i) as usize),
            None => r is None,
        },
{
    let ghost sub = v@.subrange(lo as int, hi as int);
    let mut j = lo;
    while j < hi
        invariant
            lo <= j <= hi <= v@.len(),
            sub == v@.subrange(lo as int, hi as int),
            forall|k: int| 0 <= k < j - lo ==> sub[k] != c,
        decreases hi - j,
    {
        if v[j] == c {
            proof {
                lemma_find_first_at(sub, c, j - lo);
            }
            return Some(j);
        }
        j += 1;
    }
    proof {
        lemma_find_first_none(sub, c);
    }
    None
}

/// The index of the last `c` in `v[lo..hi]`, as an absolute index.
pub fn rfind_in_range(v: &Vec<char>, lo: usize, hi: usize, c: char) -> (r: Option<usize>)
    requires
        lo <= hi <= v@.len(),
    ensures
        match find_last(v@.subrange(lo as int, hi as int), c) {
            Some(i) => r == Some((lo + i) as usize),
            None => r is None,
        },
{
    let ghost sub = v@.subrange(lo as int, hi as int);
    let mut j = hi;
    while j > lo
        invariant
            lo <= j <= hi <= v@.len(),
            sub == v@.subrange(lo as int, hi as int),
            forall|k: int| j - lo <= k < sub.len() ==> sub[k] != c,
        decreases j - lo,
    {
        if v[j - 1] == c {
            proof {
                lemma_find_last_at(sub, c, j - 1 - lo);
            }
            return Some(j - 1);
        }
        j -= 1;
    }
    proof {
        lemma_find_last_none(sub, c);
    }
    None
}

/// The pieces of `v[lo..hi]` between occurrences of `c`, as absolute
/// ranges, in the manner of `str::split`.
pub fn split_range(v: &Vec<char>, lo: usize, hi: usize, c: char) -> (r: Vec<(usize, usize)>)
    requires
        lo <= hi <= v@.len(),
    ensures
        r@.len() == split_on(v@.subrange(lo as int, hi as int), c).len(),
        forall|k: int|
            0 <= k < r@.len() ==> {
                &&& lo <= (#[trigger] r@[k]).0 <= r@[k].1 <= hi
                &&& v@.subrange(r@[k].0 as int, r@[k].1 as int) == split_on(
                    v@.subrange(lo as int, hi as int),
                    c,
                )[k]
            },
{
    let ghost whole = v@.subrange(lo as int, hi as int);
    let ghost mut pieces: Seq<Seq<char>> = seq![];
    let mut r: Vec<(usize, usize)> = Vec::new();
    let mut start = lo;
    let mut j = lo;
    while j < hi
        invariant
            lo <= start <= j <= hi <= v@.len(),
            whole == v@.subrange(lo as int, hi as int),
            r@.len() == pieces.len(),
            forall|k: int|
                0 <= k < r@.len() ==> {
                    &&& lo <= (#[trigger] r@[k]).0 <= r@[k].1 <= hi
                    &&& v@.subrange(r@[k].0 as int, r@[k].1 as int) == pieces[k]
                },
            split_on(whole, c) == pieces + split_on(v@.subrange(start as int, hi as int), c),
            forall|k: int| start <= k < j ==> v@[k] != c,
        decreases hi - j,
    {
        if v[j] == c {
            proof {
                let rest = v@.subrange(start as int, hi as int);
                lemma_find_first_at(rest, c, j - start);
                assert(rest.take(j - start) =~= v@.subrange(start as int, j as int));
                assert(rest.skip(j - start + 1) =~= v@.subrange(j + 1, hi as int));
                assert(split_on(rest, c) == seq![v@.subrange(start as int, j as int)] + split_on(
                    v@.subrange(j + 1, hi as int),
                    c,
                ));
                assert(pieces + split_on(rest, c) =~= pieces.push(
                    v@.subrange(start as int, j as int),
                ) + split_on(v@.subrange(j + 1, hi as int), c));
                pieces = pieces.push(v@.subrange(start as int, j as int));
            }
            r.push((start, j));
            start = j + 1;
        }
        j += 1;
    }
    proof {
        let rest = v@.subrange(start as int, hi as int);
        assert forall|k: int| 0 <= k < rest.len() implies rest[k] != c by {
            assert(rest[k] == v@[start + k]);
        }
        lemma_find_first_none(rest, c);
        assert(split_on(rest, c) == seq![rest]);
        assert(pieces + seq![rest] =~= pieces.push(rest));
        pieces = pieces.push(rest);
    }
    r.push((start, hi));
    r
}

/// An exact non-negative decimal number, `digits / 10^scale`, as the grammar
/// reads it: normalized (no trailing fractional zeros), with fewer than
/// eighteen significant digits and at most eighteen fractional ones.
#[derive(Debug, Clone, Copy, PartialEq, Eq, Structural)]
pub struct Decimal {
    digits: u64,
    scale: u32,
}

/// The bound on a decimal's digit string: eighteen decimal digits.
pub const DECIMAL_DIGITS_BOUND: u64 = 1_000_000_000_000_000_000;

/// The bound on a decimal's count of fractional digits.
pub const DECIMAL_MAX_SCALE: u32 = 18;

/// Whether a digit string and a scale form a normalized, bounded decimal.
pub open spec fn decimal_parts_ok(digits: nat, scale: nat) -> bool {
    &&& digits < DECIMAL_DIGITS_BOUND
    &&& scale <= DECIMAL_MAX_SCALE
    &&& (scale > 0 ==> digits % 10 != 0)
}

impl Decimal {
    #[verifier::type_invariant]
    spec fn inv(self) -> bool {
        decimal_parts_ok(self.digits as nat, self.scale as nat)
    }

    /// The digit string, read as an integer.
    pub closed spec fn num(self) -> nat {
        self.digits as nat
    }

    /// How many of the digits are fractional.
    pub closed spec fn scale_of(self) -> nat {
        self.scale as nat
    }

    /// The decimal with this digit string and scale.
    pub closed spec fn of(digits: nat, scale: nat) -> Decimal {
        Decimal { digits: digits as u64, scale: scale as u32 }
    }

    /// Builds `digits / 10^scale` when the pair is normalized and bounded.
    pub fn new(digits: u64, scale: u32) -> (r: Option<Decimal>)
        ensures
            r is Some <==> decimal_parts_ok(digits as nat, scale as nat),
            r matches Some(d) ==> d == Decimal::of(digits as nat, scale as nat),
    {
        if digits < DECIMAL_DIGITS_BOUND && scale <= DECIMAL_MAX_SCALE && (scale == 0 || digits
            % 10 != 0) {
            Some(Decimal { digits, scale })
        } else {
            None
        }
    }

    /// The digit string.
    pub fn digits(&self) -> (r: u64)
        ensures
            r == self.num(),
            decimal_parts_ok(self.num(), self.scale_of()),
    {
        proof {
            use_type_invariant(self);
        }
        self.digits
    }

    /// The count of fractional digits.
    pub fn scale(&self) -> (r: u32)
        ensures
            r == self.scale_of(),
            decimal_parts_ok(self.num(), self.scale_of()),
    {
        proof {
            use_type_invariant(self);
        }
        self.scale
    }

    /// A decimal is determined by its digit string and scale.
    pub proof fn lemma_of(self)
        ensures
            self == Decimal::of(self.num(), self.scale_of()),
    {
    }

    /// The decimal built from a digit string and scale that fit its fields
    /// holds that digit string and scale.
    pub proof fn lemma_of_parts(digits: nat, scale: nat)
        requires
            digits <= u64::MAX,
            scale <= u32::MAX,
        ensures
            Decimal::of(digits, scale).num() == digits,
            Decimal::of(digits, scale).scale_of() == scale,
    {
    }
}

/// Whether the decimal is zero.
pub open spec fn dec_is_zero(d: Decimal) -> bool {
    d.num() == 0
}

/// Whether the decimal is strictly greater than the integer `n`.
pub open spec fn dec_gt(d: Decimal, n: nat) -> bool {
    d.num() > n * pow10(d.scale_of())
}

/// Whether the decimal is strictly less than the integer `n`.
pub open spec fn dec_lt(d: Decimal, n: nat) -> bool {
    d.num() < n * pow10(d.scale_of())
}

/// `s` without its trailing `'0'`s.
pub open spec fn trim_zeros(s: Seq<char>) -> Seq<char>
    decreases s.len(),
{
    if s.len() > 0 && s.last() == '0' {
        trim_zeros(s.drop_last())
    } else {
        s
    }
}

/// The integer and fraction digit strings of a decimal spelling: digits,
/// optionally followed by `.` and more digits (`0.9`, not `.9`, `9.`,
/// `+0.9` or `9e1`).
pub open spec fn decimal_shape(s: Seq<char>) -> Option<(Seq<char>, Seq<char>)> {
    match find_first(s, '.') {
        Some(i) => {
            let int_part = s.take(i as int);
            let frac = s.skip(i as int + 1);
            if int_part.len() > 0 && frac.len() > 0 && all_digits(int_part) && all_digits(frac) {
                Some((int_part, frac))
            } else {
                None
            }
        },
        None => if s.len() > 0 && all_digits(s) {
            Some((s, Seq::<char>::empty()))
        } else {
            None
        },
    }
}

/// The decimal a spelling denotes, when it is well formed and within the
/// bounds a [`Decimal`] holds.
pub open spec fn spec_decimal(s: Seq<char>) -> Option<Decimal> {
    match decimal_shape(s) {
        Some((int_part, frac)) => {
            let f = trim_zeros(frac);
            let d = digits_value(int_part + f);
            if d < DECIMAL_DIGITS_BOUND && f.len() <= DECIMAL_MAX_SCALE {
                Some(Decimal::of(d, f.len()))
            } else {
                None
            }
        },
        None => None,
    }
}

/// The `u32` a digit string denotes: one or more ASCII digits, nothing
/// else, within range (leading zeros accepted).
pub open spec fn spec_u32(s: Seq<char>) -> Option<u32> {
    if s.len() > 0 && all_digits(s) && digits_value(s) <= u32::MAX {
        Some(digits_value(s) as u32)
    } else {
        None
    }
}

/// Whether every character of `v[lo..hi]` is a digit.
fn range_all_digits(v: &Vec<char>, lo: usize, hi: usize) -> (b: bool)
    requires
        lo <= hi <= v@.len(),
    ensures
        b == all_digits(v@.subrange(lo as int, hi as int)),
{
    let mut j = lo;
    while j < hi
        invariant
            lo <= j <= hi <= v@.len(),
            forall|k: int| lo <= k < j ==> is_digit(v@[k]),
        decreases hi - j,
    {
        if !('0' <= v[j] && v[j] <= '9') {
            assert(!is_digit(v@.subrange(lo as int, hi as int)[j - lo]));
            return false;
        }
        j += 1;
    }
    assert forall|k: int| 0 <= k < hi - lo implies #[trigger] is_digit(
        v@.subrange(lo as int, hi as int)[k],
    ) by {
        assert(v@.subrange(lo as int, hi as int)[k] == v@[lo + k]);
    }
    true
}

/// The exec counterpart of [`digit_value`].
fn digit_of(c: char) -> (d: u64)
    requires
        is_digit(c),
    ensures
        d == digit_value(c),
        d < 10,
{
    (c as u32 - 48) as u64
}

/// Parses `v[lo..hi]` as a strict unsigned decimal integer.
pub fn parse_u32_range(v: &Vec<char>, lo: usize, hi: usize) -> (r: Option<u32>)
    requires
        lo <= hi <= v@.len(),
    ensures
        r == spec_u32(v@.subrange(lo as int, hi as int)),
{
    let ghost sub = v@.subrange(lo as int, hi as int);
    if lo == hi || !range_all_digits(v, lo, hi) {
        return None;
    }
    let mut acc: u64 = 0;
    let mut j = lo;
    while j < hi
        invariant
            lo <= j <= hi <= v@.len(),
            sub == v@.subrange(lo as int, hi as int),
            all_digits(sub),
            acc == digits_value(sub.take(j - lo)),
            acc <= u32::MAX,
        decreases hi - j,
    {
        proof {
            assert(sub[j - lo] == v@[j as int]);
            assert(is_digit(sub[j - lo]));
        }
        let d = digit_of(v[j]);
        proof {
            assert(sub.take(j - lo + 1) =~= sub.take(j - lo).push(sub[j - lo]));
            lemma_digits_value_push(sub.take(j - lo), sub[j - lo]);
        }
        let next = acc * 10 + d;
        if next > 0xFFFF_FFFFu64 {
            proof {
                lemma_digits_value_prefix(sub, j - lo + 1);
            }
            return None;
        }
        acc = next;
        j += 1;
    }
    assert(sub.take(hi - lo) =~= sub);
    Some(acc as u32)
}


/// Parses `v[lo..hi]` as a decimal per [`spec_decimal`].
pub fn parse_decimal_range(v: &Vec<char>, lo: usize, hi: usize) -> (r: Option<Decimal>)
    requires
        lo <= hi <= v@.len(),
    ensures
        r == spec_decimal(v@.subrange(lo as int, hi as int)),
{
    let ghost sub = v@.subrange(lo as int, hi as int);
    let dot = find_in_range(v, lo, hi, '.');
    proof {
        lemma_find_first(sub, '.');
    }
    let int_hi: usize;
    let frac_lo: usize;
    match dot {
        Some(i) => {
            if i == lo || i + 1 == hi || !range_all_digits(v, lo, i) || !range_all_digits(
                v,
                i + 1,
                hi,
            ) {
                proof {
                    assert(sub.take(i - lo) =~= v@.subrange(lo as int, i as int));
                    assert(sub.skip(i - lo + 1) =~= v@.subrange(i + 1, hi as int));
                }
                return None;
            }
            int_hi = i;
            frac_lo = i + 1;
        },
        None => {
            if lo == hi || !range_all_digits(v, lo, hi) {
                return None;
            }
            int_hi = hi;
            frac_lo = hi;
        },
    }
    let ghost int_part = v@.subrange(lo as int, int_hi as int);
    let ghost frac = v@.subrange(frac_lo as int, hi as int);
    proof {
        match dot {
            Some(i) => {
                assert(sub.take(i - lo) =~= int_part);
                assert(sub.skip(i - lo + 1) =~= frac);
            },
            None => {
                assert(sub =~= int_part);
                assert(frac =~= Seq::<char>::empty());
            },
        }
        assert(decimal_shape(sub) == Some((int_part, frac)));
    }
    let mut fe = hi;
    while fe > frac_lo && v[fe - 1] == '0'
        invariant
            frac_lo <= fe <= hi <= v@.len(),
            frac == v@.subrange(frac_lo as int, hi as int),
            trim_zeros(frac) == trim_zeros(v@.subrange(frac_lo as int, fe as int)),
        decreases fe,
    {
        assert(v@.subrange(frac_lo as int, fe as int).drop_last() =~= v@.subrange(
            frac_lo as int,
            fe - 1,
        ));
        fe -= 1;
    }
    let ghost f = v@.subrange(frac_lo as int, fe as int);
    assert(trim_zeros(f) == f);
    assert(trim_zeros(frac) == f);
    let scale = fe - frac_lo;
    if scale > 18 {
        return None;
    }
    let ghost whole = int_part + f;
    assert(all_digits(whole)) by {
        assert forall|k: int| 0 <= k < whole.len() implies #[trigger] is_digit(whole[k]) by {
            if k < int_part.len() {
                assert(whole[k] == v@[lo + k]);
                assert(is_digit(sub[k]));
            } else {
                assert(whole[k] == v@[frac_lo + k - int_part.len()]);
                assert(frac[k - int_part.len()] == v@[frac_lo + k - int_part.len()]);
            }
        }
    }
    let mut acc: u64 = 0;
    let mut j = lo;
    while j < int_hi
        invariant
            lo <= j <= int_hi <= hi <= v@.len(),
            int_part == v@.subrange(lo as int, int_hi as int),
            whole == int_part + f,
            all_digits(whole),
            sub == v@.subrange(lo as int, hi as int),
            decimal_shape(sub) == Some((int_part, frac)),
            trim_zeros(frac) == f,
            f.len() <= 18,
            acc == digits_value(whole.take(j - lo)),
            acc < DECIMAL_DIGITS_BOUND,
        decreases int_hi - j,
    {
        proof {
            assert(whole[j - lo] == v@[j as int]);
            assert(is_digit(whole[j - lo]));
        }
        let d = digit_of(v[j]);
        proof {
            assert(whole.take(j - lo + 1) =~= whole.take(j - lo).push(whole[j - lo]));
            lemma_digits_value_push(whole.take(j - lo), whole[j - lo]);
        }
        let next = acc * 10 + d;
        if next >= DECIMAL_DIGITS_BOUND {
            proof {
                lemma_digits_value_prefix(whole, j - lo + 1);
            }
            return None;
        }
        acc = next;
        j += 1;
    }
    let mut j = frac_lo;
    while j < fe
        invariant
            frac_lo <= j <= fe <= hi <= v@.len(),
            int_hi - lo == int_part.len(),
            f == v@.subrange(frac_lo as int, fe as int),
            whole == int_part + f,
            all_digits(whole),
            sub == v@.subrange(lo as int, hi as int),
            decimal_shape(sub) == Some((int_part, frac)),
            trim_zeros(frac) == f,
            f.len() <= 18,
            acc == digits_value(whole.take(int_part.len() + j - frac_lo)),
            acc < DECIMAL_DIGITS_BOUND,
        decreases fe - j,
    {
        let ghost k = int_part.len() + j - frac_lo;
        proof {
            assert(whole[k] == v@[j as int]);
            assert(is_digit(whole[k]));
        }
        let d = digit_of(v[j]);
        proof {
            assert(whole.take(k + 1) =~= whole.take(k).push(whole[k]));
            lemma_digits_value_push(whole.take(k), whole[k]);
        }
        let next = acc * 10 + d;
        if next >= DECIMAL_DIGITS_BOUND {
            proof {
                lemma_digits_value_prefix(whole, k + 1);
            }
            return None;
        }
        acc = next;
        j += 1;
    }
    assert(whole.take(whole.len() as int) =~= whole);
    if scale > 0 {
        assert(acc % 10 != 0) by {
            assert(whole.drop_last().push(whole.last()) =~= whole);
            lemma_digits_value_push(whole.drop_last(), whole.last());
            assert(whole.last() == v@[fe - 1]);
            assert(is_digit(whole[whole.len() - 1]));
            let q = digits_value(whole.drop_last());
            let dl = digit_value(whole.last());
            assert(1 <= dl <= 9);
            assert((q * 10 + dl) % 10 == dl) by (nonlinear_arith)
                requires
                    1 <= dl <= 9,
            ;
        }
    }
    Some(Decimal { digits: acc, scale: scale as u32 })
}


/// Ten to the power `n` (for `n <= 18`), exactly.
pub fn pow10_u128(n: u32) -> (r: u128)
    requires
        n <= 18,
    ensures
        r == pow10(n as nat),
        1 <= r <= 1_000_000_000_000_000_000,
{
    proof {
        lemma_pow10_bound(n as nat);
    }
    let mut r: u128 = 1;
    let mut i: u32 = 0;
    while i < n
        invariant
            i <= n <= 18,
            r == pow10(i as nat),
            r <= pow10(i as nat),
            pow10(i as nat) <= 1_000_000_000_000_000_000,
        decreases n - i,
    {
        proof {
            lemma_pow10_bound((i + 1) as nat);
        }
        r = r * 10;
        i += 1;
    }
    r
}

/// Powers of ten up to `10^18` stay at most `10^18`.
pub proof fn lemma_pow10_bound(n: nat)
    requires
        n <= 18,
    ensures
        pow10(n) <= 1_000_000_000_000_000_000,
        pow10(n) >= 1,
{
    lemma_pow10_mono(n, 18);
    reveal_with_fuel(pow10, 19);
}

/// Ten to a larger power is larger.
pub proof fn lemma_pow10_mono(a: nat, b: nat)
    requires
        a <= b,
    ensures
        1 <= pow10(a) <= pow10(b),
    decreases b,
{
    if b > a {
        lemma_pow10_mono(a, (b - 1) as nat);
    } else if a > 0 {
        lemma_pow10_mono((a - 1) as nat, (a - 1) as nat);
    }
}

/// Whether `d > n`.
pub fn dec_greater_than(d: &Decimal, n: u64) -> (b: bool)
    ensures
        b == dec_gt(*d, n as nat),
{
    let digits = d.digits();
    let scale = d.scale();
    let p = pow10_u128(scale);
    assert((n as u128) * p <= 0xFFFF_FFFF_FFFF_FFFFu128 * 1_000_000_000_000_000_000u128)
        by (nonlinear_arith)
        requires
            p <= 1_000_000_000_000_000_000u128,
            n <= 0xFFFF_FFFF_FFFF_FFFFu64,
    ;
    (digits as u128) > (n as u128) * p
}

/// Whether `d < n`.
pub fn dec_less_than(d: &Decimal, n: u64) -> (b: bool)
    ensures
        b == dec_lt(*d, n as nat),
{
    let digits = d.digits();
    let scale = d.scale();
    let p = pow10_u128(scale);
    assert((n as u128) * p <= 0xFFFF_FFFF_FFFF_FFFFu128 * 1_000_000_000_000_000_000u128)
        by (nonlinear_arith)
        requires
            p <= 1_000_000_000_000_000_000u128,
            n <= 0xFFFF_FFFF_FFFF_FFFFu64,
    ;
    (digits as u128) < (n as u128) * p
}

/// The image region to extract.
#[derive(Debug, Clone, Copy, PartialEq, Eq, Structural)]
pub enum Region {
    /// `full` — the entire image.
    Full,
    /// `square` — centered square, side = the shorter image dimension.
    Square,
    /// `x,y,w,h` — pixel coordinates; `width` and `height` are non-zero.
    Pixels {
        /// Left edge, pixels from the left of the full image.
        x: u32,
        /// Top edge, pixels from the top of the full image.
        y: u32,
        /// Region width in pixels (non-zero).
        width: u32,
        /// Region height in pixels (non-zero).
        height: u32,
    },
    /// `pct:x,y,w,h` — percentages of full-image dimensions.
    Percent {
        /// Left edge as a percentage of full-image width.
        x: Decimal,
        /// Top edge as a percentage of full-image height.
        y: Decimal,
        /// Region width as a percentage of full-image width.
        width: Decimal,
        /// Region height as a percentage of full-image height.
        height: Decimal,
    },
}

/// How the scaled dimensions are derived (without the `^`
/// flag, which lives on [`Size`]).
#[derive(Debug, Clone, Copy, PartialEq, Eq, Structural)]
pub enum SizeKind {
    /// `max` — maximum size available under server limits.
    Max,
    /// `w,` — exact width, aspect preserved.
    Width(u32),
    /// `,h` — exact height, aspect preserved.
    Height(u32),
    /// `pct:n` — scale by percentage of the extracted region.
    Percent(Decimal),
    /// `w,h` — exact dimensions, aspect NOT preserved.
    WidthHeight(u32, u32),
    /// `!w,h` — best fit inside `w`×`h`, aspect preserved.
    Confined(u32, u32),
}

/// The size parameter: an optional `^` upscale flag plus a [`SizeKind`].
#[derive(Debug, Clone, Copy, PartialEq, Eq, Structural)]
pub struct Size {
    /// `^` prefix: upscaling beyond the extracted region is permitted.
    pub upscale: bool,
    /// How the scaled dimensions are derived.
    pub kind: SizeKind,
}

/// The rotation parameter: optional mirror, then clockwise
/// degrees in `0..=360`.
#[derive(Debug, Clone, Copy, PartialEq, Eq, Structural)]
pub struct Rotation {
    /// `!` prefix: mirror on the vertical axis before rotating.
    pub mirror: bool,
    /// Clockwise rotation in degrees, `0..=360`.
    pub degrees: Decimal,
}

/// The region a segment denotes, if it is well formed.
pub open spec fn spec_region(s: Seq<char>) -> Option<Region> {
    if s == "full"@ {
        Some(Region::Full)
    } else if s == "square"@ {
        Some(Region::Square)
    } else if starts_with(s, "pct:"@) {
        let f = split_on(s.skip("pct:"@.len() as int), ',');
        if f.len() == 4 && spec_decimal(f[0]) is Some && spec_decimal(f[1]) is Some
            && spec_decimal(f[2]) is Some && spec_decimal(f[3]) is Some {
            let x = spec_decimal(f[0]).unwrap();
            let y = spec_decimal(f[1]).unwrap();
            let w = spec_decimal(f[2]).unwrap();
            let h = spec_decimal(f[3]).unwrap();
            if !dec_is_zero(w) && !dec_is_zero(h) && dec_lt(x, 100) && dec_lt(y, 100) {
                Some(Region::Percent { x, y, width: w, height: h })
            } else {
                None
            }
        } else {
            None
        }
    } else {
        let f = split_on(s, ',');
        if f.len() == 4 && spec_u32(f[0]) is Some && spec_u32(f[1]) is Some && spec_u32(f[2]) is Some
            && spec_u32(f[3]) is Some {
            let w = spec_u32(f[2]).unwrap();
            let h = spec_u32(f[3]).unwrap();
            if w != 0 && h != 0 {
                Some(
                    Region::Pixels {
                        x: spec_u32(f[0]).unwrap(),
                        y: spec_u32(f[1]).unwrap(),
                        width: w,
                        height: h,
                    },
                )
            } else {
                None
            }
        } else {
            None
        }
    }
}

/// The pair `w,h` after a separating comma, both non-zero integers.
pub open spec fn spec_pair(s: Seq<char>) -> Option<(u32, u32)> {
    match find_first(s, ',') {
        Some(i) => match (spec_u32(s.take(i as int)), spec_u32(s.skip(i as int + 1))) {
            (Some(w), Some(h)) => if w != 0 && h != 0 {
                Some((w, h))
            } else {
                None
            },
            _ => None,
        },
        None => None,
    }
}

/// The size kind a segment (after any `^`) denotes, given the flag.
pub open spec fn spec_size_kind(rest: Seq<char>, upscale: bool) -> Option<SizeKind> {
    if rest == "max"@ {
        Some(SizeKind::Max)
    } else if starts_with(rest, "pct:"@) {
        match spec_decimal(rest.skip("pct:"@.len() as int)) {
            Some(n) => if dec_is_zero(n) || (!upscale && dec_gt(n, 100)) {
                None
            } else {
                Some(SizeKind::Percent(n))
            },
            None => None,
        }
    } else if rest.len() > 0 && rest[0] == '!' {
        match spec_pair(rest.drop_first()) {
            Some((w, h)) => Some(SizeKind::Confined(w, h)),
            None => None,
        }
    } else {
        match find_first(rest, ',') {
            Some(i) => {
                let w = rest.take(i as int);
                let h = rest.skip(i as int + 1);
                if w.len() == 0 && h.len() == 0 {
                    None
                } else if h.len() == 0 {
                    match spec_u32(w) {
                        Some(n) => if n != 0 {
                            Some(SizeKind::Width(n))
                        } else {
                            None
                        },
                        None => None,
                    }
                } else if w.len() == 0 {
                    match spec_u32(h) {
                        Some(n) => if n != 0 {
                            Some(SizeKind::Height(n))
                        } else {
                            None
                        },
                        None => None,
                    }
                } else {
                    match spec_pair(rest) {
                        Some((a, b)) => Some(SizeKind::WidthHeight(a, b)),
                        None => None,
                    }
                }
            },
            None => None,
        }
    }
}

/// The size a segment denotes, if it is well formed.
pub open spec fn spec_size(s: Seq<char>) -> Option<Size> {
    let upscale = s.len() > 0 && s[0] == '^';
    let rest = if upscale {
        s.drop_first()
    } else {
        s
    };
    match spec_size_kind(rest, upscale) {
        Some(kind) => Some(Size { upscale, kind }),
        None => None,
    }
}

/// The rotation a segment denotes, if it is well formed.
pub open spec fn spec_rotation(s: Seq<char>) -> Option<Rotation> {
    let mirror = s.len() > 0 && s[0] == '!';
    let rest = if mirror {
        s.drop_first()
    } else {
        s
    };
    match spec_decimal(rest) {
        Some(d) => if dec_gt(d, 360) {
            None
        } else {
            Some(Rotation { mirror, degrees: d })
        },
        None => None,
    }
}

/// Parses the pair `w,h` in `v[lo..hi]`.
fn parse_pair_range(v: &Vec<char>, lo: usize, hi: usize) -> (r: Option<(u32, u32)>)
    requires
        lo <= hi <= v@.len(),
    ensures
        r == spec_pair(v@.subrange(lo as int, hi as int)),
{
    let ghost sub = v@.subrange(lo as int, hi as int);
    proof {
        lemma_find_first(sub, ',');
    }
    match find_in_range(v, lo, hi, ',') {
        Some(i) => {
            proof {
                assert(sub.take(i - lo) =~= v@.subrange(lo as int, i as int));
                assert(sub.skip(i - lo + 1) =~= v@.subrange(i + 1, hi as int));
            }
            let w = parse_u32_range(v, lo, i);
            let h = parse_u32_range(v, i + 1, hi);
            match (w, h) {
                (Some(w), Some(h)) => if w != 0 && h != 0 {
                    Some((w, h))
                } else {
                    None
                },
                _ => None,
            }
        },
        None => None,
    }
}

/// Parses `v[lo..hi]` as a region.
pub fn parse_region_range(v: &Vec<char>, lo: usize, hi: usize) -> (r: Option<Region>)
    requires
        lo <= hi <= v@.len(),
    ensures
        r == spec_region(v@.subrange(lo as int, hi as int)),
{
    let ghost sub = v@.subrange(lo as int, hi as int);
    if range_is(v, lo, hi, "full") {
        return Some(Region::Full);
    }
    if range_is(v, lo, hi, "square") {
        return Some(Region::Square);
    }
    if range_starts_with(v, lo, hi, "pct:") {
        let p = "pct:".unicode_len();
        proof {
            assert(sub.take(p as int) =~= v@.subrange(lo as int, lo + p));
            assert(sub.skip(p as int) =~= v@.subrange(lo + p, hi as int));
        }
        let f = split_range(v, lo + p, hi, ',');
        if f.len() != 4 {
            return None;
        }
        let x = parse_decimal_range(v, f[0].0, f[0].1);
        let y = parse_decimal_range(v, f[1].0, f[1].1);
        let w = parse_decimal_range(v, f[2].0, f[2].1);
        let h = parse_decimal_range(v, f[3].0, f[3].1);
        match (x, y, w, h) {
            (Some(x), Some(y), Some(w), Some(h)) => {
                if w.digits() != 0 && h.digits() != 0 && dec_less_than(&x, 100) && dec_less_than(
                    &y,
                    100,
                ) {
                    Some(Region::Percent { x, y, width: w, height: h })
                } else {
                    None
                }
            },
            _ => None,
        }
    } else {
        proof {
            assert(!starts_with(sub, "pct:"@));
        }
        let f = split_range(v, lo, hi, ',');
        if f.len() != 4 {
            return None;
        }
        let x = parse_u32_range(v, f[0].0, f[0].1);
        let y = parse_u32_range(v, f[1].0, f[1].1);
        let w = parse_u32_range(v, f[2].0, f[2].1);
        let h = parse_u32_range(v, f[3].0, f[3].1);
        match (x, y, w, h) {
            (Some(x), Some(y), Some(w), Some(h)) => {
                if w != 0 && h != 0 {
                    Some(Region::Pixels { x, y, width: w, height: h })
                } else {
                    None
                }
            },
            _ => None,
        }
    }
}

/// Parses `v[lo..hi]` as a size kind, given the upscale flag.
fn parse_size_kind_range(v: &Vec<char>, lo: usize, hi: usize, upscale: bool) -> (r: Option<
    SizeKind,
>)
    requires
        lo <= hi <= v@.len(),
    ensures
        r == spec_size_kind(v@.subrange(lo as int, hi as int), upscale),
{
    let ghost sub = v@.subrange(lo as int, hi as int);
    if range_is(v, lo, hi, "max") {
        return Some(SizeKind::Max);
    }
    if range_starts_with(v, lo, hi, "pct:") {
        let p = "pct:".unicode_len();
        proof {
            assert(sub.skip(p as int) =~= v@.subrange(lo + p, hi as int));
        }
        return match parse_decimal_range(v, lo + p, hi) {
            Some(n) => if n.digits() == 0 || (!upscale && dec_greater_than(&n, 100)) {
                None
            } else {
                Some(SizeKind::Percent(n))
            },
            None => None,
        };
    }
    if lo < hi && v[lo] == '!' {
        proof {
            assert(sub.drop_first() =~= v@.subrange(lo + 1, hi as int));
        }
        return match parse_pair_range(v, lo + 1, hi) {
            Some((w, h)) => Some(SizeKind::Confined(w, h)),
            None => None,
        };
    }
    proof {
        lemma_find_first(sub, ',');
    }
    match find_in_range(v, lo, hi, ',') {
        Some(i) => {
            proof {
                assert(sub.take(i - lo) =~= v@.subrange(lo as int, i as int));
                assert(sub.skip(i - lo + 1) =~= v@.subrange(i + 1, hi as int));
            }
            if i == lo && i + 1 == hi {
                None
            } else if i + 1 == hi {
                match parse_u32_range(v, lo, i) {
                    Some(n) => if n != 0 {
                        Some(SizeKind::Width(n))
                    } else {
                        None
                    },
                    None => None,
                }
            } else if i == lo {
                match parse_u32_range(v, i + 1, hi) {
                    Some(n) => if n != 0 {
                        Some(SizeKind::Height(n))
                    } else {
                        None
                    },
                    None => None,
                }
            } else {
                match parse_pair_range(v, lo, hi) {
                    Some((a, b)) => Some(SizeKind::WidthHeight(a, b)),
                    None => None,
                }
            }
        },
        None => None,
    }
}

/// Parses `v[lo..hi]` as a size.
pub fn parse_size_range(v: &Vec<char>, lo: usize, hi: usize) -> (r: Option<Size>)
    requires
        lo <= hi <= v@.len(),
    ensures
        r == spec_size(v@.subrange(lo as int, hi as int)),
{
    let ghost sub = v@.subrange(lo as int, hi as int);
    let upscale = lo < hi && v[lo] == '^';
    let start = if upscale {
        lo + 1
    } else {
        lo
    };
    proof {
        if upscale {
            assert(sub.drop_first() =~= v@.subrange(lo + 1, hi as int));
        }
    }
    match parse_size_kind_range(v, start, hi, upscale) {
        Some(kind) => Some(Size { upscale, kind }),
        None => None,
    }
}

/// Parses `v[lo..hi]` as a rotation.
pub fn parse_rotation_range(v: &Vec<char>, lo: usize, hi: usize) -> (r: Option<Rotation>)
    requires
        lo <= hi <= v@.len(),
    ensures
        r == spec_rotation(v@.subrange(lo as int, hi as int)),
{
    let ghost sub = v@.subrange(lo as int, hi as int);
    let mirror = lo < hi && v[lo] == '!';
    let start = if mirror {
        lo + 1
    } else {
        lo
    };
    proof {
        if mirror {
            assert(sub.drop_first() =~= v@.subrange(lo + 1, hi as int));
        }
    }
    match parse_decimal_range(v, start, hi) {
        Some(d) => if dec_greater_than(&d, 360) {
            None
        } else {
            Some(Rotation { mirror, degrees: d })
        },
        None => None,
    }
}

impl Region {
    /// Parses a region segment.
    ///
    /// # Errors
    ///
    /// A [`ParseError`] (HTTP 400) naming [`Component::Region`] when the
    /// input is not a well formed region.
    pub fn parse(input: &str) -> (r: Result<Region, ParseError>)
        ensures
            match r {
                Ok(x) => spec_region(input@) == Some(x),
                Err(e) => spec_region(input@) is None && e.component == Component::Region
                    && e.input@ == input@,
            },
    {
        let v = chars_of(input);
        assert(v@.subrange(0, v@.len() as int) =~= v@);
        match parse_region_range(&v, 0, v.len()) {
            Some(x) => Ok(x),
            None => Err(ParseError::new(Component::Region, input)),
        }
    }
}

impl Size {
    /// Parses a size segment.
    ///
    /// # Errors
    ///
    /// A [`ParseError`] (HTTP 400) naming [`Component::Size`] when the
    /// input is not a well formed size, including `pct:` values over 100
    /// without the `^` upscale flag.
    pub fn parse(input: &str) -> (r: Result<Size, ParseError>)
        ensures
            match r {
                Ok(x) => spec_size(input@) == Some(x),
                Err(e) => spec_size(input@) is None && e.component == Component::Size
                    && e.input@ == input@,
            },
    {
        let v = chars_of(input);
        assert(v@.subrange(0, v@.len() as int) =~= v@);
        match parse_size_range(&v, 0, v.len()) {
            Some(x) => Ok(x),
            None => Err(ParseError::new(Component::Size, input)),
        }
    }
}

impl Rotation {
    /// Parses a rotation segment.
    ///
    /// # Errors
    ///
    /// A [`ParseError`] (HTTP 400) naming [`Component::Rotation`] when the
    /// input is not a well formed rotation (optional `!`, then degrees in
    /// `0..=360`).
    pub fn parse(input: &str) -> (r: Result<Rotation, ParseError>)
        ensures
            match r {
                Ok(x) => spec_rotation(input@) == Some(x),
                Err(e) => spec_rotation(input@) is None && e.component == Component::Rotation
                    && e.input@ == input@,
            },
    {
        let v = chars_of(input);
        assert(v@.subrange(0, v@.len() as int) =~= v@);
        match parse_rotation_range(&v, 0, v.len()) {
            Some(x) => Ok(x),
            None => Err(ParseError::new(Component::Rotation, input)),
        }
    }

    /// Whether this rotation is a quarter turn (0, 90, 180, 270 or 360
    /// degrees); anything else is arbitrary rotation.
    pub fn is_quarter_turn(&self) -> (b: bool)
        ensures
            b == (self.degrees.scale_of() == 0 && self.degrees.num() % 90 == 0),
    {
        self.degrees.scale() == 0 && self.degrees.digits() % 90 == 0
    }
}


/// A complete parsed image request:
/// `{region}/{size}/{rotation}/{quality}.{format}`.
#[derive(Debug, Clone, Copy, PartialEq, Eq, Structural)]
pub struct ImageRequest {
    /// The region parameter (first path segment).
    pub region: Region,
    /// The size parameter (second path segment).
    pub size: Size,
    /// The rotation parameter (third path segment).
    pub rotation: Rotation,
    /// The quality parameter (final segment, before the dot).
    pub quality: Quality,
    /// The format parameter (final segment, after the dot).
    pub format: Format,
}

/// The request a path suffix denotes, or the component that rejects it
/// together with the text that component was given: the whole path for
/// [`Component::Structure`], the offending segment otherwise. Components
/// are checked in path order; the quality/format split is at the last `.`.
pub open spec fn spec_request(s: Seq<char>) -> Result<ImageRequest, (Component, Seq<char>)> {
    let segs = split_on(s, '/');
    if segs.len() != 4 {
        Err((Component::Structure, s))
    } else {
        match find_last(segs[3], '.') {
            None => Err((Component::Structure, s)),
            Some(i) => {
                let q = segs[3].take(i as int);
                let f = segs[3].skip(i as int + 1);
                match spec_region(segs[0]) {
                    None => Err((Component::Region, segs[0])),
                    Some(region) => match spec_size(segs[1]) {
                        None => Err((Component::Size, segs[1])),
                        Some(size) => match spec_rotation(segs[2]) {
                            None => Err((Component::Rotation, segs[2])),
                            Some(rotation) => match spec_quality(q) {
                                None => Err((Component::Quality, q)),
                                Some(quality) => match spec_format(f) {
                                    None => Err((Component::Format, f)),
                                    Some(format) => Ok(
                                        ImageRequest { region, size, rotation, quality, format },
                                    ),
                                },
                            },
                        },
                    },
                }
            },
        }
    }
}

impl ImageRequest {
    /// Parses the four path segments after the identifier:
    /// `{region}/{size}/{rotation}/{quality}.{format}`; the input must
    /// contain exactly three `/` separators.
    ///
    /// # Errors
    ///
    /// A [`ParseError`] (HTTP 400) naming the first component that failed,
    /// or [`Component::Structure`] when the path shape itself is wrong.
    pub fn parse(path: &str) -> (r: Result<ImageRequest, ParseError>)
        ensures
            match r {
                Ok(x) => spec_request(path@) == Ok::<ImageRequest, (Component, Seq<char>)>(x),
                Err(e) => spec_request(path@) == Err::<ImageRequest, (Component, Seq<char>)>(
                    (e.component, e.input@),
                ),
            },
    {
        let v = chars_of(path);
        let n = v.len();
        assert(v@.subrange(0, n as int) =~= v@);
        let segs = split_range(&v, 0, n, '/');
        if segs.len() != 4 {
            return Err(ParseError::new(Component::Structure, path));
        }
        let (lo, hi) = segs[3];
        let dot = rfind_in_range(&v, lo, hi, '.');
        proof {
            lemma_find_last(v@.subrange(lo as int, hi as int), '.');
        }
        let dot = match dot {
            Some(d) => d,
            None => {
                return Err(ParseError::new(Component::Structure, path));
            },
        };
        proof {
            let last = v@.subrange(lo as int, hi as int);
            assert(last.take(dot - lo) =~= v@.subrange(lo as int, dot as int));
            assert(last.skip(dot - lo + 1) =~= v@.subrange(dot + 1, hi as int));
        }
        let region = Region::parse(path.substring_char(segs[0].0, segs[0].1))?;
        let size = Size::parse(path.substring_char(segs[1].0, segs[1].1))?;
        let rotation = Rotation::parse(path.substring_char(segs[2].0, segs[2].1))?;
        let quality = Quality::parse(path.substring_char(lo, dot))?;
        let format = Format::parse(path.substring_char(dot + 1, hi))?;
        Ok(ImageRequest { region, size, rotation, quality, format })
    }
}

/// `n` in exactly `width` digits, zero-padded on the left (the lowest
/// `width` digits of `n`).
pub open spec fn padded_text(n: nat, width: nat) -> Seq<char>
    decreases width,
{
    if width == 0 {
        Seq::<char>::empty()
    } else {
        padded_text(n / 10, (width - 1) as nat).push(digit_char(n % 10))
    }
}

/// The canonical spelling of a decimal: integer spelling when integral,
/// otherwise the integer part, `.`, and the fractional digits (which end
/// in a non-zero digit).
pub open spec fn decimal_text(d: Decimal) -> Seq<char> {
    if d.scale_of() == 0 {
        nat_text(d.num())
    } else {
        nat_text(d.num() / pow10(d.scale_of())) + seq!['.'] + padded_text(
            d.num() % pow10(d.scale_of()),
            d.scale_of(),
        )
    }
}

/// The literal spelling of a region.
pub open spec fn region_text(r: Region) -> Seq<char> {
    match r {
        Region::Full => "full"@,
        Region::Square => "square"@,
        Region::Pixels { x, y, width, height } => nat_text(x as nat) + seq![','] + nat_text(
            y as nat,
        ) + seq![','] + nat_text(width as nat) + seq![','] + nat_text(height as nat),
        Region::Percent { x, y, width, height } => "pct:"@ + decimal_text(x) + seq![',']
            + decimal_text(y) + seq![','] + decimal_text(width) + seq![','] + decimal_text(height),
    }
}

/// The literal spelling of a size kind.
pub open spec fn size_kind_text(k: SizeKind) -> Seq<char> {
    match k {
        SizeKind::Max => "max"@,
        SizeKind::Width(w) => nat_text(w as nat) + seq![','],
        SizeKind::Height(h) => seq![','] + nat_text(h as nat),
        SizeKind::Percent(n) => "pct:"@ + decimal_text(n),
        SizeKind::WidthHeight(w, h) => nat_text(w as nat) + seq![','] + nat_text(h as nat),
        SizeKind::Confined(w, h) => seq!['!'] + nat_text(w as nat) + seq![','] + nat_text(
            h as nat,
        ),
    }
}

/// The literal spelling of a size.
pub open spec fn size_text(s: Size) -> Seq<char> {
    if s.upscale {
        seq!['^'] + size_kind_text(s.kind)
    } else {
        size_kind_text(s.kind)
    }
}

/// The literal spelling of a rotation.
pub open spec fn rotation_text(r: Rotation) -> Seq<char> {
    if r.mirror {
        seq!['!'] + decimal_text(r.degrees)
    } else {
        decimal_text(r.degrees)
    }
}

/// The literal spelling of a whole request.
pub open spec fn request_text(r: ImageRequest) -> Seq<char> {
    region_text(r.region) + seq!['/'] + size_text(r.size) + seq!['/'] + rotation_text(r.rotation)
        + seq!['/'] + quality_text(r.quality) + seq!['.'] + format_text(r.format)
}

/// Appends the lowest `width` digits of `n`, zero-padded.
pub fn push_padded(s: &mut String, n: u64, width: u32)
    ensures
        final(s)@ == old(s)@ + padded_text(n as nat, width as nat),
    decreases width,
{
    if width > 0 {
        push_padded(s, n / 10, width - 1);
        let c: char = (48u8 + (n % 10) as u8) as char;
        push_char(s, c);
        assert(s@ =~= old(s)@ + padded_text(n as nat, width as nat));
    } else {
        assert(s@ =~= old(s)@ + padded_text(n as nat, width as nat));
    }
}

/// Appends the canonical spelling of `d`.
pub fn push_decimal(s: &mut String, d: &Decimal)
    ensures
        final(s)@ == old(s)@ + decimal_text(*d),
{
    let digits = d.digits();
    let scale = d.scale();
    if scale == 0 {
        push_u64(s, digits);
    } else {
        let p = pow10_u128(scale) as u64;
        push_u64(s, digits / p);
        push_char(s, '.');
        push_padded(s, digits % p, scale);
        assert(s@ =~= old(s)@ + decimal_text(*d));
    }
}

/// Appends a string slice.
pub fn push_str(s: &mut String, t: &str)
    ensures
        final(s)@ == old(s)@ + t@,
{
    s.append(t);
}

impl Region {
    /// The literal spelling: integers without leading zeros, decimals in
    /// their canonical form.
    pub fn to_string(&self) -> (s: String)
        ensures
            s@ == region_text(*self),
    {
        let mut s = String::new();
        match self {
            Region::Full => push_str(&mut s, "full"),
            Region::Square => push_str(&mut s, "square"),
            Region::Pixels { x, y, width, height } => {
                push_u64(&mut s, *x as u64);
                push_char(&mut s, ',');
                push_u64(&mut s, *y as u64);
                push_char(&mut s, ',');
                push_u64(&mut s, *width as u64);
                push_char(&mut s, ',');
                push_u64(&mut s, *height as u64);
            },
            Region::Percent { x, y, width, height } => {
                push_str(&mut s, "pct:");
                push_decimal(&mut s, x);
                push_char(&mut s, ',');
                push_decimal(&mut s, y);
                push_char(&mut s, ',');
                push_decimal(&mut s, width);
                push_char(&mut s, ',');
                push_decimal(&mut s, height);
            },
        }
        assert(s@ =~= region_text(*self));
        s
    }
}

/// Appends the spelling of a size.
fn push_size(s: &mut String, size: &Size)
    ensures
        final(s)@ == old(s)@ + size_text(*size),
{
    if size.upscale {
        push_char(s, '^');
    }
    match size.kind {
        SizeKind::Max => push_str(s, "max"),
        SizeKind::Width(w) => {
            push_u64(s, w as u64);
            push_char(s, ',');
        },
        SizeKind::Height(h) => {
            push_char(s, ',');
            push_u64(s, h as u64);
        },
        SizeKind::Percent(n) => {
            push_str(s, "pct:");
            push_decimal(s, &n);
        },
        SizeKind::WidthHeight(w, h) => {
            push_u64(s, w as u64);
            push_char(s, ',');
            push_u64(s, h as u64);
        },
        SizeKind::Confined(w, h) => {
            push_char(s, '!');
            push_u64(s, w as u64);
            push_char(s, ',');
            push_u64(s, h as u64);
        },
    }
    assert(s@ =~= old(s)@ + size_text(*size));
}

/// Appends the spelling of a rotation.
pub fn push_rotation(s: &mut String, r: &Rotation)
    ensures
        final(s)@ == old(s)@ + rotation_text(*r),
{
    if r.mirror {
        push_char(s, '!');
    }
    push_decimal(s, &r.degrees);
    assert(s@ =~= old(s)@ + rotation_text(*r));
}

impl Size {
    /// The literal spelling.
    pub fn to_string(&self) -> (s: String)
        ensures
            s@ == size_text(*self),
    {
        let mut s = String::new();
        push_size(&mut s, self);
        assert(s@ =~= size_text(*self));
        s
    }
}

impl Rotation {
    /// The literal spelling.
    pub fn to_string(&self) -> (s: String)
        ensures
            s@ == rotation_text(*self),
    {
        let mut s = String::new();
        push_rotation(&mut s, self);
        assert(s@ =~= rotation_text(*self));
        s
    }
}

impl ImageRequest {
    /// The literal spelling of the whole request.
    pub fn to_string(&self) -> (s: String)
        ensures
            s@ == request_text(*self),
    {
        let mut s = self.region.to_string();
        push_char(&mut s, '/');
        push_size(&mut s, &self.size);
        push_char(&mut s, '/');
        push_rotation(&mut s, &self.rotation);
        push_char(&mut s, '/');
        push_str(&mut s, self.quality.as_str());
        push_char(&mut s, '.');
        push_str(&mut s, self.format.as_str());
        assert(s@ =~= request_text(*self));
        s
    }
}

} // verus!
