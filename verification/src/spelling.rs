//! Laws that tie the request grammar's printers to its parsers: every
//! well-formed value reads back from its printed spelling, every parsed
//! value is well formed, and so a printed spelling is already canonical.

use vstd::prelude::*;
use crate::text::{
    all_digits, digit_char, digit_value, digits_value, find_first, is_digit, lacks, lemma_digit_char,
    lemma_digits_lack, lemma_digits_value_concat, lemma_find_first_at, lemma_find_first_none,
    lemma_find_last_join, lemma_nat_text, lemma_split_join, lemma_split_single, nat_text, pow10, split_on,
};
use crate::v2::{spec_v2_request, spec_v2_size};
use crate::grammar::{
    dec_gt, dec_is_zero, dec_lt, decimal_parts_ok, decimal_shape, decimal_text, padded_text,
    region_text, rotation_text, size_kind_text, size_text, spec_decimal, spec_pair, spec_region,
    spec_rotation, spec_size, spec_size_kind, spec_u32, starts_with, trim_zeros, Decimal, Region,
    Rotation, Size, SizeKind, format_text, quality_text, request_text, spec_format, spec_quality,
    spec_request, Format, ImageRequest, Quality, Component,
};

verus! {

/// Whether a decimal value holds a normalized, bounded digit string and
/// scale, as every [`Decimal`] built at run time does.
pub open spec fn decimal_ok(d: Decimal) -> bool {
    decimal_parts_ok(d.num(), d.scale_of())
}

/// Ten to any power is positive.
pub proof fn lemma_pow10_pos(n: nat)
    ensures
        pow10(n) >= 1,
    decreases n,
{
    if n > 0 {
        lemma_pow10_pos((n - 1) as nat);
    }
}

/// The zero-padded spelling of `n` in `width` digits: exactly `width`
/// digits worth the lowest `width` digits of `n`.
pub proof fn lemma_padded_text(n: nat, width: nat)
    ensures
        padded_text(n, width).len() == width,
        all_digits(padded_text(n, width)),
        digits_value(padded_text(n, width)) == n % pow10(width),
    decreases width,
{
    if width > 0 {
        let w1 = (width - 1) as nat;
        lemma_padded_text(n / 10, w1);
        lemma_digit_char(n % 10);
        let p = padded_text(n / 10, w1);
        let c = digit_char(n % 10);
        assert(padded_text(n, width) == p.push(c));
        assert(p.push(c).drop_last() =~= p);
        assert forall|i: int| 0 <= i < p.push(c).len() implies #[trigger] is_digit(
            p.push(c)[i],
        ) by {
            if i < p.len() {
                assert(p.push(c)[i] == p[i]);
            }
        }
        lemma_pow10_pos(w1);
        let q = pow10(w1);
        assert(pow10(width) == 10 * q);
        // (n / 10) % q * 10 + n % 10 == n % (10 * q)
        assert(((n / 10) % q) * 10 + n % 10 == n % (10 * q)) by {
            vstd::arithmetic::div_mod::lemma_breakdown(n as int, 10, q as int);
        }
    } else {
        assert(pow10(0) == 1);
    }
}

/// Whether every character of `s` is a digit or a `.`.
pub open spec fn digits_or_dot(s: Seq<char>) -> bool {
    forall|i: int| 0 <= i < s.len() ==> #[trigger] is_digit(s[i]) || s[i] == '.'
}

/// A spelling made of digits and dots holds no other character.
pub proof fn lemma_digits_or_dot_lack(s: Seq<char>, c: char)
    requires
        digits_or_dot(s),
        !is_digit(c),
        c != '.',
    ensures
        lacks(s, c),
{
    assert forall|i: int| 0 <= i < s.len() implies s[i] != c by {
        assert(is_digit(s[i]) || s[i] == '.');
    }
}

/// The canonical spelling of a decimal is non-empty, begins with a digit,
/// and holds only digits and at most one dot.
pub proof fn lemma_decimal_text_chars(d: Decimal)
    requires
        decimal_ok(d),
    ensures
        decimal_text(d).len() > 0,
        is_digit(decimal_text(d)[0]),
        digits_or_dot(decimal_text(d)),
{
    let k = d.scale_of();
    if k == 0 {
        lemma_nat_text(d.num());
    } else {
        lemma_pow10_pos(k);
        let a = nat_text(d.num() / pow10(k));
        let p = padded_text(d.num() % pow10(k), k);
        lemma_nat_text(d.num() / pow10(k));
        lemma_padded_text(d.num() % pow10(k), k);
        let t = a + seq!['.'] + p;
        assert(decimal_text(d) == t);
        assert(t[0] == a[0]);
        assert forall|i: int| 0 <= i < t.len() implies #[trigger] is_digit(t[i]) || t[i] == '.' by {
            if i < a.len() {
                assert(t[i] == a[i]);
            } else if i > a.len() {
                assert(t[i] == p[i - a.len() - 1]);
            }
        }
    }
}

/// A decimal reads back from its canonical spelling.
pub proof fn lemma_decimal_roundtrip(d: Decimal)
    requires
        decimal_ok(d),
    ensures
        spec_decimal(decimal_text(d)) == Some(d),
{
    let k = d.scale_of();
    let n = d.num();
    d.lemma_of();
    if k == 0 {
        let s = nat_text(n);
        lemma_nat_text(n);
        lemma_digits_lack(s, '.');
        lemma_find_first_none(s, '.');
        assert(decimal_shape(s) == Some((s, Seq::<char>::empty())));
        assert(trim_zeros(Seq::<char>::empty()) == Seq::<char>::empty());
        assert(s + Seq::<char>::empty() =~= s);
    } else {
        lemma_pow10_pos(k);
        let q = pow10(k);
        let a = nat_text(n / q);
        let p = padded_text(n % q, k);
        lemma_nat_text(n / q);
        lemma_padded_text(n % q, k);
        let t = a + seq!['.'] + p;
        assert(decimal_text(d) == t);
        lemma_digits_lack(a, '.');
        lemma_find_first_at(t, '.', a.len() as int);
        assert(t.take(a.len() as int) =~= a);
        assert(t.skip(a.len() as int + 1) =~= p);
        assert(decimal_shape(t) == Some((a, p)));
        // the last fractional digit is the last digit of `n`, not zero
        assert(p.last() == digit_char((n % q) % 10));
        assert(q == 10 * pow10((k - 1) as nat));
        assert((n % q) % 10 == n % 10) by {
            lemma_pow10_pos((k - 1) as nat);
            vstd::arithmetic::div_mod::lemma_mod_mod(n as int, 10, pow10((k - 1) as nat) as int);
        }
        lemma_digit_char(n % 10);
        assert(digit_value('0') == 0);
        assert(p.last() != '0');
        assert(trim_zeros(p) == p);
        lemma_digits_value_concat(a, p);
        assert(n == (n / q) * q + n % q) by {
            vstd::arithmetic::div_mod::lemma_fundamental_div_mod(n as int, q as int);
        }
        assert((n % q) % q == n % q) by {
            vstd::arithmetic::div_mod::lemma_mod_twice(n as int, q as int);
        }
        assert(digits_value(a + p) == n);
    }
}


/// The shortest spelling of a `u32` reads back as that `u32`.
pub proof fn lemma_u32_roundtrip(x: u32)
    ensures
        spec_u32(nat_text(x as nat)) == Some(x),
{
    lemma_nat_text(x as nat);
}

/// Four pieces joined by a separator none of them holds split back apart.
pub proof fn lemma_split_four<A>(a: Seq<A>, b: Seq<A>, c: Seq<A>, d: Seq<A>, sep: A)
    requires
        lacks(a, sep),
        lacks(b, sep),
        lacks(c, sep),
        lacks(d, sep),
    ensures
        split_on(a + seq![sep] + b + seq![sep] + c + seq![sep] + d, sep) == seq![a, b, c, d],
{
    let s = a + seq![sep] + b + seq![sep] + c + seq![sep] + d;
    let t3 = c + seq![sep] + d;
    let t2 = b + seq![sep] + t3;
    assert(s =~= a + seq![sep] + t2);
    lemma_split_join(a, sep, t2);
    lemma_split_join(b, sep, t3);
    lemma_split_join(c, sep, d);
    lemma_split_single(d, sep);
    assert(split_on(s, sep) =~= seq![a, b, c, d]);
}

/// Whether a region value is one the grammar can express: non-zero pixel
/// extents; percentages that are bounded decimals, with a non-zero extent
/// and an origin below 100.
pub open spec fn region_valid(r: Region) -> bool {
    match r {
        Region::Pixels { width, height, .. } => width != 0 && height != 0,
        Region::Percent { x, y, width, height } => {
            &&& decimal_ok(x) && decimal_ok(y) && decimal_ok(width) && decimal_ok(height)
            &&& !dec_is_zero(width) && !dec_is_zero(height)
            &&& dec_lt(x, 100) && dec_lt(y, 100)
        },
        _ => true,
    }
}

/// Printing a well-formed region and parsing the result gives the region
/// back.
pub proof fn lemma_region_roundtrip(r: Region)
    requires
        region_valid(r),
    ensures
        spec_region(region_text(r)) == Some(r),
{
    reveal_strlit("full");
    reveal_strlit("square");
    reveal_strlit("pct:");
    let s = region_text(r);
    match r {
        Region::Full => {},
        Region::Square => {
            assert(s[0] != "full"@[0]);
        },
        Region::Pixels { x, y, width, height } => {
            let a = nat_text(x as nat);
            let b = nat_text(y as nat);
            let c = nat_text(width as nat);
            let d = nat_text(height as nat);
            lemma_nat_text(x as nat);
            lemma_nat_text(y as nat);
            lemma_nat_text(width as nat);
            lemma_nat_text(height as nat);
            assert(s[0] == a[0]);
            assert(is_digit(s[0]));
            assert(s != "full"@ && s != "square"@);
            assert(!starts_with(s, "pct:"@)) by {
                if starts_with(s, "pct:"@) {
                    assert(s.take(4)[0] == s[0]);
                }
            }
            lemma_digits_lack(a, ',');
            lemma_digits_lack(b, ',');
            lemma_digits_lack(c, ',');
            lemma_digits_lack(d, ',');
            lemma_split_four(a, b, c, d, ',');
            lemma_u32_roundtrip(x);
            lemma_u32_roundtrip(y);
            lemma_u32_roundtrip(width);
            lemma_u32_roundtrip(height);
        },
        Region::Percent { x, y, width, height } => {
            let a = decimal_text(x);
            let b = decimal_text(y);
            let c = decimal_text(width);
            let d = decimal_text(height);
            lemma_decimal_text_chars(x);
            lemma_decimal_text_chars(y);
            lemma_decimal_text_chars(width);
            lemma_decimal_text_chars(height);
            assert(s[0] == 'p');
            assert(s != "full"@ && s != "square"@);
            assert(s.take(4) =~= "pct:"@);
            assert(s.skip(4) =~= a + seq![','] + b + seq![','] + c + seq![','] + d);
            lemma_digits_or_dot_lack(a, ',');
            lemma_digits_or_dot_lack(b, ',');
            lemma_digits_or_dot_lack(c, ',');
            lemma_digits_or_dot_lack(d, ',');
            lemma_split_four(a, b, c, d, ',');
            lemma_decimal_roundtrip(x);
            lemma_decimal_roundtrip(y);
            lemma_decimal_roundtrip(width);
            lemma_decimal_roundtrip(height);
        },
    }
}


/// Whether a size value is one the grammar can express: non-zero pixel
/// extents, and a non-zero bounded percentage that exceeds 100 only with
/// the upscale flag.
pub open spec fn size_valid(s: Size) -> bool {
    match s.kind {
        SizeKind::Max => true,
        SizeKind::Width(w) => w != 0,
        SizeKind::Height(h) => h != 0,
        SizeKind::Percent(n) => decimal_ok(n) && !dec_is_zero(n) && (s.upscale || !dec_gt(n, 100)),
        SizeKind::WidthHeight(w, h) => w != 0 && h != 0,
        SizeKind::Confined(w, h) => w != 0 && h != 0,
    }
}

/// Two non-zero integers joined by a comma read back as a pair.
proof fn lemma_pair_roundtrip(w: u32, h: u32)
    requires
        w != 0,
        h != 0,
    ensures
        spec_pair(nat_text(w as nat) + seq![','] + nat_text(h as nat)) == Some((w, h)),
        find_first(nat_text(w as nat) + seq![','] + nat_text(h as nat), ',') == Some(
            nat_text(w as nat).len(),
        ),
{
    let a = nat_text(w as nat);
    let b = nat_text(h as nat);
    let t = a + seq![','] + b;
    lemma_nat_text(w as nat);
    lemma_nat_text(h as nat);
    lemma_digits_lack(a, ',');
    lemma_find_first_at(t, ',', a.len() as int);
    assert(t.take(a.len() as int) =~= a);
    assert(t.skip(a.len() as int + 1) =~= b);
    lemma_u32_roundtrip(w);
    lemma_u32_roundtrip(h);
}

/// The spelling of a well-formed size kind reads back as that kind, and
/// does not begin with the upscale flag.
proof fn lemma_size_kind_roundtrip(kind: SizeKind, upscale: bool)
    requires
        size_valid(Size { upscale, kind }),
    ensures
        size_kind_text(kind).len() > 0,
        size_kind_text(kind)[0] != '^',
        spec_size_kind(size_kind_text(kind), upscale) == Some(kind),
{
    reveal_strlit("max");
    reveal_strlit("pct:");
    let k = size_kind_text(kind);
    match kind {
        SizeKind::Max => {},
        SizeKind::Width(w) => {
            let a = nat_text(w as nat);
            lemma_nat_text(w as nat);
            assert(k[0] == a[0] && is_digit(k[0]));
            assert(k != "max"@);
            assert(!starts_with(k, "pct:"@)) by {
                if starts_with(k, "pct:"@) {
                    assert(k.take(4)[0] == k[0]);
                }
            }
            lemma_digits_lack(a, ',');
            lemma_find_first_at(k, ',', a.len() as int);
            assert(k.take(a.len() as int) =~= a);
            assert(k.skip(a.len() as int + 1).len() == 0);
            lemma_u32_roundtrip(w);
        },
        SizeKind::Height(h) => {
            let b = nat_text(h as nat);
            lemma_nat_text(h as nat);
            assert(k[0] == ',');
            assert(k != "max"@);
            assert(!starts_with(k, "pct:"@)) by {
                if starts_with(k, "pct:"@) {
                    assert(k.take(4)[0] == k[0]);
                }
            }
            lemma_find_first_at(k, ',', 0);
            assert(k.take(0).len() == 0);
            assert(k.skip(1) =~= b);
            lemma_u32_roundtrip(h);
        },
        SizeKind::Percent(n) => {
            let d = decimal_text(n);
            assert(k[0] == 'p');
            assert(k != "max"@);
            assert(k.take(4) =~= "pct:"@);
            assert(k.skip(4) =~= d);
            lemma_decimal_roundtrip(n);
        },
        SizeKind::WidthHeight(w, h) => {
            let a = nat_text(w as nat);
            lemma_nat_text(w as nat);
            lemma_nat_text(h as nat);
            assert(k[0] == a[0] && is_digit(k[0]));
            assert(k != "max"@);
            assert(!starts_with(k, "pct:"@)) by {
                if starts_with(k, "pct:"@) {
                    assert(k.take(4)[0] == k[0]);
                }
            }
            lemma_pair_roundtrip(w, h);
            assert(k.take(a.len() as int) =~= a);
            assert(k.skip(a.len() as int + 1) =~= nat_text(h as nat));
        },
        SizeKind::Confined(w, h) => {
            let t = nat_text(w as nat) + seq![','] + nat_text(h as nat);
            assert(k[0] == '!');
            assert(k != "max"@);
            assert(!starts_with(k, "pct:"@)) by {
                if starts_with(k, "pct:"@) {
                    assert(k.take(4)[0] == k[0]);
                }
            }
            assert(k.drop_first() =~= t);
            lemma_pair_roundtrip(w, h);
        },
    }
}

/// Printing a well-formed size and parsing the result gives the size back.
pub proof fn lemma_size_roundtrip(s: Size)
    requires
        size_valid(s),
    ensures
        spec_size(size_text(s)) == Some(s),
{
    lemma_size_kind_roundtrip(s.kind, s.upscale);
    let k = size_kind_text(s.kind);
    if s.upscale {
        assert((seq!['^'] + k).drop_first() =~= k);
    }
}

/// Whether a rotation value is one the grammar can express: a bounded
/// decimal of at most 360 degrees.
pub open spec fn rotation_valid(r: Rotation) -> bool {
    decimal_ok(r.degrees) && !dec_gt(r.degrees, 360)
}

/// Printing a well-formed rotation and parsing the result gives the
/// rotation back.
pub proof fn lemma_rotation_roundtrip(r: Rotation)
    requires
        rotation_valid(r),
    ensures
        spec_rotation(rotation_text(r)) == Some(r),
{
    let d = decimal_text(r.degrees);
    lemma_decimal_text_chars(r.degrees);
    lemma_decimal_roundtrip(r.degrees);
    if r.mirror {
        assert((seq!['!'] + d).drop_first() =~= d);
    } else {
        assert(d[0] != '!');
    }
}


/// A concatenation lacks what both of its parts lack.
pub proof fn lemma_lacks_concat<A>(a: Seq<A>, b: Seq<A>, x: A)
    requires
        lacks(a, x),
        lacks(b, x),
    ensures
        lacks(a + b, x),
{
    assert forall|i: int| 0 <= i < (a + b).len() implies (a + b)[i] != x by {
        if i < a.len() {
            assert((a + b)[i] == a[i]);
        } else {
            assert((a + b)[i] == b[i - a.len()]);
        }
    }
}

/// A single character other than `x` lacks `x`.
proof fn lemma_lacks_one(c: char, x: char)
    requires
        c != x,
    ensures
        lacks(seq![c], x),
{
}

/// The spelling of a region holds no `/`.
proof fn lemma_region_text_lacks_slash(r: Region)
    requires
        region_valid(r),
    ensures
        lacks(region_text(r), '/'),
{
    reveal_strlit("full");
    reveal_strlit("square");
    reveal_strlit("pct:");
    lemma_lacks_one(',', '/');
    match r {
        Region::Full => {
            assert(lacks("full"@, '/'));
        },
        Region::Square => {
            assert(lacks("square"@, '/'));
        },
        Region::Pixels { x, y, width, height } => {
            lemma_nat_text(x as nat);
            lemma_nat_text(y as nat);
            lemma_nat_text(width as nat);
            lemma_nat_text(height as nat);
            lemma_digits_lack(nat_text(x as nat), '/');
            lemma_digits_lack(nat_text(y as nat), '/');
            lemma_digits_lack(nat_text(width as nat), '/');
            lemma_digits_lack(nat_text(height as nat), '/');
            let s1 = nat_text(x as nat) + seq![','];
            lemma_lacks_concat(nat_text(x as nat), seq![','], '/');
            lemma_lacks_concat(s1, nat_text(y as nat), '/');
            let s2 = s1 + nat_text(y as nat) + seq![','];
            lemma_lacks_concat(s1 + nat_text(y as nat), seq![','], '/');
            lemma_lacks_concat(s2, nat_text(width as nat), '/');
            let s3 = s2 + nat_text(width as nat) + seq![','];
            lemma_lacks_concat(s2 + nat_text(width as nat), seq![','], '/');
            lemma_lacks_concat(s3, nat_text(height as nat), '/');
        },
        Region::Percent { x, y, width, height } => {
            lemma_decimal_text_chars(x);
            lemma_decimal_text_chars(y);
            lemma_decimal_text_chars(width);
            lemma_decimal_text_chars(height);
            lemma_digits_or_dot_lack(decimal_text(x), '/');
            lemma_digits_or_dot_lack(decimal_text(y), '/');
            lemma_digits_or_dot_lack(decimal_text(width), '/');
            lemma_digits_or_dot_lack(decimal_text(height), '/');
            assert(lacks("pct:"@, '/'));
            let s0 = "pct:"@ + decimal_text(x);
            lemma_lacks_concat("pct:"@, decimal_text(x), '/');
            let s1 = s0 + seq![','];
            lemma_lacks_concat(s0, seq![','], '/');
            lemma_lacks_concat(s1, decimal_text(y), '/');
            let s2 = s1 + decimal_text(y) + seq![','];
            lemma_lacks_concat(s1 + decimal_text(y), seq![','], '/');
            lemma_lacks_concat(s2, decimal_text(width), '/');
            let s3 = s2 + decimal_text(width) + seq![','];
            lemma_lacks_concat(s2 + decimal_text(width), seq![','], '/');
            lemma_lacks_concat(s3, decimal_text(height), '/');
        },
    }
}

/// The spelling of a size holds no `/`.
proof fn lemma_size_text_lacks_slash(s: Size)
    requires
        size_valid(s),
    ensures
        lacks(size_text(s), '/'),
{
    reveal_strlit("max");
    reveal_strlit("pct:");
    lemma_lacks_one(',', '/');
    lemma_lacks_one('!', '/');
    lemma_lacks_one('^', '/');
    let k = size_kind_text(s.kind);
    match s.kind {
        SizeKind::Max => {
            assert(lacks("max"@, '/'));
        },
        SizeKind::Width(w) => {
            lemma_nat_text(w as nat);
            lemma_digits_lack(nat_text(w as nat), '/');
            lemma_lacks_concat(nat_text(w as nat), seq![','], '/');
        },
        SizeKind::Height(h) => {
            lemma_nat_text(h as nat);
            lemma_digits_lack(nat_text(h as nat), '/');
            lemma_lacks_concat(seq![','], nat_text(h as nat), '/');
        },
        SizeKind::Percent(n) => {
            lemma_decimal_text_chars(n);
            lemma_digits_or_dot_lack(decimal_text(n), '/');
            assert(lacks("pct:"@, '/'));
            lemma_lacks_concat("pct:"@, decimal_text(n), '/');
        },
        SizeKind::WidthHeight(w, h) => {
            lemma_nat_text(w as nat);
            lemma_nat_text(h as nat);
            lemma_digits_lack(nat_text(w as nat), '/');
            lemma_digits_lack(nat_text(h as nat), '/');
            lemma_lacks_concat(nat_text(w as nat), seq![','], '/');
            lemma_lacks_concat(nat_text(w as nat) + seq![','], nat_text(h as nat), '/');
        },
        SizeKind::Confined(w, h) => {
            lemma_nat_text(w as nat);
            lemma_nat_text(h as nat);
            lemma_digits_lack(nat_text(w as nat), '/');
            lemma_digits_lack(nat_text(h as nat), '/');
            lemma_lacks_concat(seq!['!'], nat_text(w as nat), '/');
            lemma_lacks_concat(seq!['!'] + nat_text(w as nat), seq![','], '/');
            lemma_lacks_concat(seq!['!'] + nat_text(w as nat) + seq![','], nat_text(h as nat), '/');
        },
    }
    if s.upscale {
        lemma_lacks_concat(seq!['^'], k, '/');
    }
}

/// The spelling of a rotation holds no `/`.
proof fn lemma_rotation_text_lacks_slash(r: Rotation)
    requires
        rotation_valid(r),
    ensures
        lacks(rotation_text(r), '/'),
{
    lemma_decimal_text_chars(r.degrees);
    lemma_digits_or_dot_lack(decimal_text(r.degrees), '/');
    if r.mirror {
        lemma_lacks_one('!', '/');
        lemma_lacks_concat(seq!['!'], decimal_text(r.degrees), '/');
    }
}

/// Every quality reads back from its spelling, which holds no `/` and no
/// `.`.
pub proof fn lemma_quality_roundtrip(q: Quality)
    ensures
        spec_quality(quality_text(q)) == Some(q),
        lacks(quality_text(q), '/'),
        lacks(quality_text(q), '.'),
{
    reveal_strlit("default");
    reveal_strlit("color");
    reveal_strlit("gray");
    reveal_strlit("bitonal");
    let d = seq!['d', 'e', 'f', 'a', 'u', 'l', 't'];
    let c = seq!['c', 'o', 'l', 'o', 'r'];
    let g = seq!['g', 'r', 'a', 'y'];
    let b = seq!['b', 'i', 't', 'o', 'n', 'a', 'l'];
    assert("default"@ =~= d);
    assert("color"@ =~= c);
    assert("gray"@ =~= g);
    assert("bitonal"@ =~= b);
    assert(d != c && d != g && d != b && c != g && c != b && g != b) by {
        assert(d[0] != c[0] && d[0] != g[0] && d[0] != b[0] && c[0] != g[0] && c[0] != b[0]
            && g[0] != b[0]);
    }
    let t = quality_text(q);
    assert(lacks(t, '/') && lacks(t, '.')) by {
        assert forall|i: int| 0 <= i < t.len() implies t[i] != '/' && t[i] != '.' by {
            assert('a' <= t[i] <= 'z');
        }
    }
}

/// Every format reads back from its spelling, which holds no `/` and no
/// `.`.
pub proof fn lemma_format_roundtrip(f: Format)
    ensures
        spec_format(format_text(f)) == Some(f),
        lacks(format_text(f), '/'),
        lacks(format_text(f), '.'),
{
    reveal_strlit("jpg");
    reveal_strlit("tif");
    reveal_strlit("png");
    reveal_strlit("gif");
    reveal_strlit("jp2");
    reveal_strlit("pdf");
    reveal_strlit("webp");
    let jpg = seq!['j', 'p', 'g'];
    let tif = seq!['t', 'i', 'f'];
    let png = seq!['p', 'n', 'g'];
    let gif = seq!['g', 'i', 'f'];
    let jp2 = seq!['j', 'p', '2'];
    let pdf = seq!['p', 'd', 'f'];
    let webp = seq!['w', 'e', 'b', 'p'];
    assert("jpg"@ =~= jpg);
    assert("tif"@ =~= tif);
    assert("png"@ =~= png);
    assert("gif"@ =~= gif);
    assert("jp2"@ =~= jp2);
    assert("pdf"@ =~= pdf);
    assert("webp"@ =~= webp);
    assert(jpg[2] != jp2[2] && png[1] != pdf[1]);
    assert(jpg[0] != tif[0] && jpg[0] != png[0] && jpg[0] != gif[0] && jpg[0] != pdf[0]);
    assert(tif[0] != png[0] && tif[0] != gif[0] && tif[0] != jp2[0] && tif[0] != pdf[0]);
    assert(png[0] != gif[0] && png[0] != jp2[0] && gif[0] != jp2[0] && gif[0] != pdf[0]);
    assert(jp2[0] != pdf[0]);
    assert(webp.len() != 3);
    let t = format_text(f);
    assert(lacks(t, '/') && lacks(t, '.')) by {
        assert forall|i: int| 0 <= i < t.len() implies t[i] != '/' && t[i] != '.' by {
            assert(('a' <= t[i] <= 'z') || t[i] == '2');
        }
    }
}

/// Whether a whole request is one the grammar can express.
pub open spec fn request_valid(r: ImageRequest) -> bool {
    region_valid(r.region) && size_valid(r.size) && rotation_valid(r.rotation)
}

/// Printing a well-formed request and parsing the result gives the request
/// back.
pub proof fn lemma_request_roundtrip(r: ImageRequest)
    requires
        request_valid(r),
    ensures
        spec_request(request_text(r)) == Ok::<ImageRequest, (Component, Seq<char>)>(r),
{
    let a = region_text(r.region);
    let b = size_text(r.size);
    let c = rotation_text(r.rotation);
    let q = quality_text(r.quality);
    let f = format_text(r.format);
    let d = q + seq!['.'] + f;
    lemma_region_text_lacks_slash(r.region);
    lemma_size_text_lacks_slash(r.size);
    lemma_rotation_text_lacks_slash(r.rotation);
    lemma_quality_roundtrip(r.quality);
    lemma_format_roundtrip(r.format);
    lemma_lacks_one('.', '/');
    lemma_lacks_concat(q, seq!['.'], '/');
    lemma_lacks_concat(q + seq!['.'], f, '/');
    assert(request_text(r) =~= a + seq!['/'] + b + seq!['/'] + c + seq!['/'] + d);
    lemma_split_four(a, b, c, d, '/');
    lemma_find_last_join(q, '.', f);
    assert(d.take(q.len() as int) =~= q);
    assert(d.skip(q.len() as int + 1) =~= f);
    lemma_region_roundtrip(r.region);
    lemma_size_roundtrip(r.size);
    lemma_rotation_roundtrip(r.rotation);
}


/// Trimming trailing zeros keeps a prefix that, when non-empty, does not
/// end in `0`.
proof fn lemma_trim_zeros(s: Seq<char>)
    ensures
        trim_zeros(s).len() <= s.len(),
        trim_zeros(s) =~= s.take(trim_zeros(s).len() as int),
        trim_zeros(s).len() > 0 ==> trim_zeros(s).last() != '0',
    decreases s.len(),
{
    if s.len() > 0 && s.last() == '0' {
        lemma_trim_zeros(s.drop_last());
        let t = trim_zeros(s.drop_last());
        assert(t =~= s.take(t.len() as int)) by {
            assert forall|i: int| 0 <= i < t.len() implies t[i] == s[i] by {
                assert(t[i] == s.drop_last().take(t.len() as int)[i]);
            }
        }
    } else {
        assert(s.take(s.len() as int) =~= s);
    }
}

/// The last digit of a digit string's value is its last character.
proof fn lemma_digits_value_last(x: Seq<char>)
    requires
        x.len() > 0,
        all_digits(x),
    ensures
        digits_value(x) % 10 == digit_value(x.last()),
{
    assert(is_digit(x[x.len() - 1]));
    let v = digits_value(x.drop_last());
    assert(digits_value(x) == v * 10 + digit_value(x.last()));
    assert((v * 10 + digit_value(x.last())) % 10 == digit_value(x.last())) by {
        vstd::arithmetic::div_mod::lemma_mod_multiples_vanish(v as int, digit_value(x.last()) as int, 10);
    }
}

/// Every decimal the grammar reads is normalized and bounded.
pub proof fn lemma_parsed_decimal_ok(s: Seq<char>)
    requires
        spec_decimal(s) is Some,
    ensures
        decimal_ok(spec_decimal(s).unwrap()),
{
    let (int_part, frac) = decimal_shape(s).unwrap();
    let f = trim_zeros(frac);
    let x = int_part + f;
    let v = digits_value(x);
    Decimal::lemma_of_parts(v, f.len());
    if f.len() > 0 {
        lemma_trim_zeros(frac);
        assert(all_digits(f)) by {
            assert forall|i: int| 0 <= i < f.len() implies #[trigger] is_digit(f[i]) by {
                assert(f[i] == frac[i]);
            }
        }
        assert(all_digits(x)) by {
            assert forall|i: int| 0 <= i < x.len() implies #[trigger] is_digit(x[i]) by {
                if i < int_part.len() {
                    assert(x[i] == int_part[i]);
                } else {
                    assert(x[i] == f[i - int_part.len()]);
                }
            }
        }
        assert(x.last() == f.last());
        lemma_digits_value_last(x);
        assert(is_digit(f.last())) by {
            assert(is_digit(f[f.len() - 1]));
        }
    }
}

/// Every region the grammar reads is well formed.
pub proof fn lemma_parsed_region_valid(s: Seq<char>)
    requires
        spec_region(s) is Some,
    ensures
        region_valid(spec_region(s).unwrap()),
{
    reveal_strlit("pct:");
    if spec_region(s).unwrap() is Percent {
        let f = split_on(s.skip(4), ',');
        lemma_parsed_decimal_ok(f[0]);
        lemma_parsed_decimal_ok(f[1]);
        lemma_parsed_decimal_ok(f[2]);
        lemma_parsed_decimal_ok(f[3]);
    }
}

/// Every size the grammar reads is well formed.
pub proof fn lemma_parsed_size_valid(s: Seq<char>)
    requires
        spec_size(s) is Some,
    ensures
        size_valid(spec_size(s).unwrap()),
{
    let upscale = s.len() > 0 && s[0] == '^';
    let rest = if upscale {
        s.drop_first()
    } else {
        s
    };
    reveal_strlit("pct:");
    reveal_strlit("max");
    if spec_size(s).unwrap().kind is Percent {
        lemma_parsed_decimal_ok(rest.skip(4));
    }
}

/// Every rotation the grammar reads is well formed.
pub proof fn lemma_parsed_rotation_valid(s: Seq<char>)
    requires
        spec_rotation(s) is Some,
    ensures
        rotation_valid(spec_rotation(s).unwrap()),
{
    let rest = if s.len() > 0 && s[0] == '!' {
        s.drop_first()
    } else {
        s
    };
    lemma_parsed_decimal_ok(rest);
}

/// Every request the grammar reads is well formed, and its printed
/// spelling is canonical: it parses back to the same request, whatever
/// spelling (leading zeros, trailing fractional zeros) the input used.
pub proof fn lemma_parse_then_print(s: Seq<char>)
    requires
        spec_request(s) is Ok,
    ensures
        request_valid(spec_request(s)->Ok_0),
        spec_request(request_text(spec_request(s)->Ok_0)) == spec_request(s),
{
    let segs = split_on(s, '/');
    lemma_parsed_region_valid(segs[0]);
    lemma_parsed_size_valid(segs[1]);
    lemma_parsed_rotation_valid(segs[2]);
    lemma_request_roundtrip(spec_request(s)->Ok_0);
}


/// Every size the v2.1 grammar reads is a well-formed 3.0 size.
proof fn lemma_v2_size_valid(s: Seq<char>)
    requires
        spec_v2_size(s) is Some,
    ensures
        size_valid(spec_v2_size(s).unwrap().0),
{
    reveal_strlit("full");
    reveal_strlit("max");
    reveal_strlit("pct:");
    if !(s == "full"@ || s == "max"@) {
        if starts_with(s, "pct:"@) {
            if spec_size_kind(s, true) is Some {
                lemma_parsed_decimal_ok(s.skip(4));
            }
        } else {
            lemma_parsed_size_valid(s);
        }
    }
}

/// The 2.1 surface reads into the 3.0 request type, never around it:
/// whatever the 2.1 grammar reads is a request the 3.0 grammar reads back
/// from its own spelling.
pub proof fn lemma_v2_reads_as_v3(s: Seq<char>)
    requires
        spec_v2_request(s) is Ok,
    ensures
        request_valid(spec_v2_request(s)->Ok_0.request),
        spec_request(request_text(spec_v2_request(s)->Ok_0.request)) == Ok::<
            ImageRequest,
            (Component, Seq<char>),
        >(spec_v2_request(s)->Ok_0.request),
{
    let segs = split_on(s, '/');
    lemma_parsed_region_valid(segs[0]);
    lemma_v2_size_valid(segs[1]);
    lemma_parsed_rotation_valid(segs[2]);
    lemma_request_roundtrip(spec_v2_request(s)->Ok_0.request);
}

} // verus!
