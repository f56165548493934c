//! The HTTP decisions of the server: the routing table (the IIIF grammar is
//! the router), revalidation (`ETag` / `If-None-Match`), the status each
//! failure is answered with, content negotiation and the link headers.
//! Sockets, the runtime and the response builder are the caller's.

use vstd::prelude::*;
use crate::codec::CodecError;
use crate::encode::EncodeError;
use crate::eval::{EvalError, eval_error_text};
use crate::grammar::{ParseError, parse_error_text, push_str, range_is, range_starts_with, split_range, starts_with};
use crate::pipeline::{PipelineError, pipeline_error_text};
use crate::source::SourceError;
use crate::text::{
    chars_of, lacks, lemma_split_concat, lemma_split_join, lemma_split_single, push_char, split_on,
};
use std::hash::Hasher;
use vstd::utf8::encode_utf8;
use vstd::std_specs::hash::DefaultHasherAdditionalSpecFns;

verus! {

/// JSON-LD media type of a v3 info.json, with the required profile.
pub const LD_JSON: &'static str = "application/ld+json;profile=\"http://iiif.io/api/image/3/context.json\"";

/// JSON-LD media type of a v2.1 info.json.
pub const LD_JSON_V2: &'static str = "application/ld+json;profile=\"http://iiif.io/api/image/2/context.json\"";

/// Cache posture: a strong validator plus a modest freshness window.
pub const CACHE_CONTROL_VALUE: &'static str = "public, max-age=3600";

/// The v3 compliance-level profile link.
pub const PROFILE_LINK: &'static str = "<http://iiif.io/api/image/3/level2.json>;rel=\"profile\"";

/// The v2.1 compliance-level profile link.
pub const PROFILE_LINK_V2: &'static str = "<http://iiif.io/api/image/2/level2.json>;rel=\"profile\"";

/// Which API family a request addresses; both mount over the same engine.
#[derive(Debug, Clone, Copy, PartialEq, Eq, Structural)]
pub enum Version {
    /// Image API 2.1.
    V2,
    /// Image API 3.0.
    V3,
}

/// The path segment a version is routed under.
pub open spec fn version_prefix(v: Version) -> Seq<char> {
    match v {
        Version::V2 => "iiif/2"@,
        Version::V3 => "iiif/3"@,
    }
}

impl Version {
    /// The path segment this version is routed under.
    pub fn prefix(self) -> (s: &'static str)
        ensures
            s@ == version_prefix(self),
    {
        match self {
            Version::V2 => "iiif/2",
            Version::V3 => "iiif/3",
        }
    }

    /// The `rel="profile"` link header for this version.
    pub fn profile_link(self) -> (s: &'static str)
        ensures
            s@ == (match self {
                Version::V2 => PROFILE_LINK_V2@,
                Version::V3 => PROFILE_LINK@,
            }),
    {
        match self {
            Version::V2 => PROFILE_LINK_V2,
            Version::V3 => PROFILE_LINK,
        }
    }

    /// The JSON-LD `Content-Type` for this version's info.json.
    pub fn ld_json(self) -> (s: &'static str)
        ensures
            s@ == (match self {
                Version::V2 => LD_JSON_V2@,
                Version::V3 => LD_JSON@,
            }),
    {
        match self {
            Version::V2 => LD_JSON_V2,
            Version::V3 => LD_JSON,
        }
    }
}

/// The resource shapes the server routes.
#[derive(Debug, Clone, PartialEq, Eq)]
pub enum Route {
    /// `GET /healthz`.
    Health,
    /// `GET /metrics`.
    Metrics,
    /// A bare identifier, which the Image API redirects to its info.json.
    BaseRedirect {
        /// Which API version the path was routed under.
        version: Version,
        /// The percent-encoded identifier, still unvalidated.
        identifier: String,
    },
    /// An info.json request.
    InfoJson {
        /// Which API version the path was routed under.
        version: Version,
        /// The percent-encoded identifier, still unvalidated.
        identifier: String,
    },
    /// An image request; `rest` is the unparsed IIIF parameter path.
    Image {
        /// Which API version the path was routed under.
        version: Version,
        /// The percent-encoded identifier, still unvalidated.
        identifier: String,
        /// The remaining `{region}/{size}/{rotation}/{quality}.{format}`.
        rest: String,
    },
    /// Nothing this server routes.
    Unrouted,
}

/// A route, with its texts as character sequences.
pub enum RouteShape {
    /// `/healthz`.
    Health,
    /// `/metrics`.
    Metrics,
    /// `/iiif/{v}/{identifier}`.
    BaseRedirect(Version, Seq<char>),
    /// `/iiif/{v}/{identifier}/info.json`.
    InfoJson(Version, Seq<char>),
    /// `/iiif/{v}/{identifier}/{region}/{size}/{rotation}/{file}`.
    Image(Version, Seq<char>, Seq<char>),
    /// Anything else.
    Unrouted,
}

/// How a path routes: exact segment shapes only. An identifier holding a
/// raw (unescaped) slash changes the segment count and routes nowhere.
pub open spec fn spec_route(p: Seq<char>) -> RouteShape {
    if p == "/healthz"@ {
        RouteShape::Health
    } else if p == "/metrics"@ {
        RouteShape::Metrics
    } else if starts_with(p, "/iiif/3/"@) || starts_with(p, "/iiif/2/"@) {
        let version = if starts_with(p, "/iiif/3/"@) {
            Version::V3
        } else {
            Version::V2
        };
        let rest = p.skip(8);
        let segs = split_on(rest, '/');
        if segs.len() == 1 && segs[0].len() > 0 {
            RouteShape::BaseRedirect(version, segs[0])
        } else if segs.len() == 2 && segs[1] == "info.json"@ {
            RouteShape::InfoJson(version, segs[0])
        } else if segs.len() == 5 {
            RouteShape::Image(version, segs[0], rest.skip(segs[0].len() as int + 1))
        } else {
            RouteShape::Unrouted
        }
    } else {
        RouteShape::Unrouted
    }
}

/// Whether `r` is the route of shape `s`.
pub open spec fn route_is(r: Route, s: RouteShape) -> bool {
    match s {
        RouteShape::Health => r is Health,
        RouteShape::Metrics => r is Metrics,
        RouteShape::BaseRedirect(v, id) => r matches Route::BaseRedirect { version, identifier }
            && version == v && identifier@ == id,
        RouteShape::InfoJson(v, id) => r matches Route::InfoJson { version, identifier }
            && version == v && identifier@ == id,
        RouteShape::Image(v, id, rest_s) => r matches Route::Image { version, identifier, rest }
            && version == v && identifier@ == id && rest@ == rest_s,
        RouteShape::Unrouted => r is Unrouted,
    }
}

impl Route {
    /// Classifies a request path; the whole routing table.
    pub fn of(path: &str) -> (r: Route)
        ensures
            route_is(r, spec_route(path@)),
    {
        let v = chars_of(path);
        let n = v.len();
        assert(v@.subrange(0, n as int) =~= path@);
        if range_is(&v, 0, n, "/healthz") {
            return Route::Health;
        }
        if range_is(&v, 0, n, "/metrics") {
            return Route::Metrics;
        }
        let v3 = range_starts_with(&v, 0, n, "/iiif/3/");
        let v2 = range_starts_with(&v, 0, n, "/iiif/2/");
        if !v3 && !v2 {
            return Route::Unrouted;
        }
        let version = if v3 {
            Version::V3
        } else {
            Version::V2
        };
        proof {
            reveal_strlit("/iiif/3/");
            reveal_strlit("/iiif/2/");
        }
        assert(path@.skip(8) =~= v@.subrange(8, n as int));
        let segs = split_range(&v, 8, n, '/');
        if segs.len() == 1 && segs[0].0 < segs[0].1 {
            return Route::BaseRedirect {
                version,
                identifier: path.substring_char(segs[0].0, segs[0].1).to_string(),
            };
        }
        if segs.len() == 2 && range_is(&v, segs[1].0, segs[1].1, "info.json") {
            return Route::InfoJson {
                version,
                identifier: path.substring_char(segs[0].0, segs[0].1).to_string(),
            };
        }
        if segs.len() == 5 {
            let (a, b) = segs[0];
            let end = 8 + (b - a);
            proof {
                let rest = v@.subrange(8, n as int);
                let s0 = split_on(rest, '/')[0];
                assert(s0 == v@.subrange(a as int, b as int));
                lemma_first_piece_start(rest, '/');
                lemma_first_piece_followed(rest, '/');
                assert(s0 =~= v@.subrange(8, end as int));
                assert(rest.skip(s0.len() as int + 1) =~= v@.subrange(end + 1, n as int));
            }
            return Route::Image {
                version,
                identifier: path.substring_char(8, end).to_string(),
                rest: path.substring_char(end + 1, n).to_string(),
            };
        }
        Route::Unrouted
    }
}

/// The first piece of a split starts the sequence.
proof fn lemma_first_piece_start(s: Seq<char>, c: char)
    ensures
        split_on(s, c).len() >= 1,
        split_on(s, c)[0] == s.take(split_on(s, c)[0].len() as int),
        split_on(s, c)[0].len() <= s.len(),
{
    crate::text::lemma_find_first(s, c);
    reveal_with_fuel(split_on, 2);
    match crate::text::find_first(s, c) {
        Some(i) => {},
        None => {
            assert(s.take(s.len() as int) =~= s);
        },
    }
}

/// When a split has more than one piece, a separator follows the first.
proof fn lemma_first_piece_followed(s: Seq<char>, c: char)
    requires
        split_on(s, c).len() > 1,
    ensures
        split_on(s, c)[0].len() < s.len(),
        s[split_on(s, c)[0].len() as int] == c,
{
    crate::text::lemma_find_first(s, c);
    reveal_with_fuel(split_on, 2);
}

// ---------------------------------------------------------------------------
// Revalidation.

/// Whether `c` is whitespace (`char::is_whitespace`: the Unicode
/// `White_Space` characters).
pub open spec fn is_space(c: char) -> bool {
    ||| c == ' '
    ||| ('\t' <= c && c <= '\r')
    ||| c == '\u{85}'
    ||| c == '\u{a0}'
    ||| c == '\u{1680}'
    ||| ('\u{2000}' <= c && c <= '\u{200a}')
    ||| c == '\u{2028}'
    ||| c == '\u{2029}'
    ||| c == '\u{202f}'
    ||| c == '\u{205f}'
    ||| c == '\u{3000}'
}

/// `s` without leading whitespace.
pub open spec fn trim_start(s: Seq<char>) -> Seq<char>
    decreases s.len(),
{
    if s.len() > 0 && is_space(s[0]) {
        trim_start(s.drop_first())
    } else {
        s
    }
}

/// `s` without trailing whitespace.
pub open spec fn trim_end_space(s: Seq<char>) -> Seq<char>
    decreases s.len(),
{
    if s.len() > 0 && is_space(s.last()) {
        trim_end_space(s.drop_last())
    } else {
        s
    }
}

/// `s` without any leading repetitions of `W/` (the weak-validator mark).
pub open spec fn strip_weak(s: Seq<char>) -> Seq<char>
    decreases s.len(),
{
    if s.len() >= 2 && s[0] == 'W' && s[1] == '/' {
        strip_weak(s.skip(2))
    } else {
        s
    }
}

/// Whether an `If-None-Match` value matches `etag`: `*`, or one of its
/// comma-separated candidates, trimmed and stripped of `W/`, equals it.
pub open spec fn spec_none_match_hits(value: Seq<char>, etag: Seq<char>) -> bool {
    value == "*"@ || exists|k: int|
        0 <= k < split_on(value, ',').len() && strip_weak(
            trim_end_space(trim_start(#[trigger] split_on(value, ',')[k])),
        ) == etag
}

/// Leading white space before a non-space character is trimmed away.
proof fn lemma_trim_start_spaces(sp: Seq<char>, x: Seq<char>)
    requires
        forall|i: int| 0 <= i < sp.len() ==> is_space(#[trigger] sp[i]),
        x.len() > 0,
        !is_space(x[0]),
    ensures
        trim_start(sp + x) == x,
    decreases sp.len(),
{
    if sp.len() > 0 {
        assert((sp + x)[0] == sp[0]);
        assert((sp + x).drop_first() =~= sp.drop_first() + x);
        assert forall|i: int| 0 <= i < sp.drop_first().len() implies is_space(
            #[trigger] sp.drop_first()[i],
        ) by {
            assert(sp.drop_first()[i] == sp[i + 1]);
        }
        lemma_trim_start_spaces(sp.drop_first(), x);
    } else {
        assert(sp + x =~= x);
    }
}

/// Trailing white space after a non-space character is trimmed away.
proof fn lemma_trim_end_spaces(x: Seq<char>, sp: Seq<char>)
    requires
        forall|i: int| 0 <= i < sp.len() ==> is_space(#[trigger] sp[i]),
        x.len() > 0,
        !is_space(x.last()),
    ensures
        trim_end_space(x + sp) == x,
    decreases sp.len(),
{
    if sp.len() > 0 {
        assert((x + sp).last() == sp.last());
        assert(is_space(sp[sp.len() - 1]));
        assert((x + sp).drop_last() =~= x + sp.drop_last());
        assert forall|i: int| 0 <= i < sp.drop_last().len() implies is_space(
            #[trigger] sp.drop_last()[i],
        ) by {
            assert(sp.drop_last()[i] == sp[i]);
        }
        lemma_trim_end_spaces(x, sp.drop_last());
    } else {
        assert(x + sp =~= x);
    }
}

/// Hexadecimal digits are neither commas nor white space.
proof fn lemma_hex_digits_plain(n: nat, width: nat)
    ensures
        hex_digits(n, width).len() == width,
        forall|i: int|
            0 <= i < width ==> {
                let c = #[trigger] hex_digits(n, width)[i];
                &&& c != ','
                &&& !is_space(c)
            },
    decreases width,
{
    if width > 0 {
        lemma_hex_digits_plain(n / 16, (width - 1) as nat);
        let d = n % 16;
        let c = hex_char(d);
        if d < 10 {
            assert((c as u32) == d + 48);
        } else {
            assert((c as u32) == d + 87);
        }
        assert forall|i: int| 0 <= i < width implies {
            let c = #[trigger] hex_digits(n, width)[i];
            &&& c != ','
            &&& !is_space(c)
        } by {
            if i < width - 1 {
                assert(hex_digits(n, width)[i] == hex_digits(n / 16, (width - 1) as nat)[i]);
            }
        }
    }
}

/// An `ETag` is quoted and holds no comma and no white space.
proof fn lemma_etag_plain(h0: u64, h1: u64)
    ensures
        etag_spec(h0, h1).len() == 34,
        etag_spec(h0, h1)[0] == '"',
        etag_spec(h0, h1).last() == '"',
        lacks(etag_spec(h0, h1), ','),
        forall|i: int| 0 <= i < 34 ==> !is_space(#[trigger] etag_spec(h0, h1)[i]),
{
    lemma_hex_digits_plain(h0 as nat, 16);
    lemma_hex_digits_plain(h1 as nat, 16);
    let a = hex16(h0 as nat);
    let b = hex16(h1 as nat);
    let e = etag_spec(h0, h1);
    assert forall|i: int| 0 <= i < 34 implies e[i] != ',' && !is_space(#[trigger] e[i]) by {
        if 1 <= i < 17 {
            assert(e[i] == a[i - 1]);
        } else if 17 <= i < 33 {
            assert(e[i] == b[i - 17]);
        }
    }
}

/// A client that sends back an `ETag` it was given gets a match: alone or
/// as one candidate of a comma-separated list, with white space around it,
/// marked weak (`W/`) or not.
pub proof fn lemma_sent_etag_hits(
    h0: u64,
    h1: u64,
    a: Seq<char>,
    s1: Seq<char>,
    s2: Seq<char>,
    b: Seq<char>,
    first: bool,
    last: bool,
    weak: bool,
)
    requires
        forall|i: int| 0 <= i < s1.len() ==> is_space(#[trigger] s1[i]),
        forall|i: int| 0 <= i < s2.len() ==> is_space(#[trigger] s2[i]),
    ensures
        ({
            let e = etag_spec(h0, h1);
            let t = if weak {
                "W/"@ + e
            } else {
                e
            };
            let value = (if first {
                Seq::<char>::empty()
            } else {
                a + seq![',']
            }) + s1 + t + s2 + (if last {
                Seq::<char>::empty()
            } else {
                seq![','] + b
            });
            spec_none_match_hits(value, e)
        }),
{
    reveal_strlit("W/");
    let e = etag_spec(h0, h1);
    lemma_etag_plain(h0, h1);
    let t = if weak {
        "W/"@ + e
    } else {
        e
    };
    assert(t.len() > 0 && !is_space(t[0]) && !is_space(t.last()));
    assert(lacks(t, ',')) by {
        assert forall|i: int| 0 <= i < t.len() implies t[i] != ',' by {
            if weak && i >= 2 {
                assert(t[i] == e[i - 2]);
            }
        }
    }
    let m = s1 + t + s2;
    assert(lacks(m, ',')) by {
        assert forall|i: int| 0 <= i < m.len() implies m[i] != ',' by {
            if i < s1.len() {
                assert(is_space(s1[i]));
            } else if i < s1.len() + t.len() {
                assert(m[i] == t[i - s1.len()]);
            } else {
                assert(m[i] == s2[i - s1.len() - t.len()]);
                assert(is_space(s2[i - s1.len() - t.len()]));
            }
        }
    }
    // The candidate is `m`, whatever surrounds it.
    lemma_trim_start_spaces(s1, t + s2);
    assert(s1 + t + s2 =~= s1 + (t + s2));
    assert((t + s2)[0] == t[0]);
    lemma_trim_end_spaces(t, s2);
    assert(trim_start(m) == t + s2);
    assert(trim_end_space(trim_start(m)) == t);
    assert(strip_weak(e) == e);
    if weak {
        assert(t[0] == 'W' && t[1] == '/');
        assert(t.skip(2) =~= e);
    }
    assert(strip_weak(trim_end_space(trim_start(m))) == e);
    let value = (if first {
        Seq::<char>::empty()
    } else {
        a + seq![',']
    }) + s1 + t + s2 + (if last {
        Seq::<char>::empty()
    } else {
        seq![','] + b
    });
    let k: int = if first {
        0
    } else {
        split_on(a, ',').len() as int
    };
    if first && last {
        assert(value =~= m);
        lemma_split_single(m, ',');
    } else if first {
        assert(value =~= m + seq![','] + b);
        lemma_split_join(m, ',', b);
    } else if last {
        assert(value =~= a + seq![','] + m);
        lemma_split_concat(a, ',', m);
        lemma_split_single(m, ',');
    } else {
        assert(value =~= a + seq![','] + (m + seq![','] + b));
        lemma_split_concat(a, ',', m + seq![','] + b);
        lemma_split_join(m, ',', b);
    }
    assert(split_on(value, ',')[k] == m);
}

/// Whether the character is whitespace.
pub fn char_is_space(c: char) -> (b: bool)
    ensures
        b == is_space(c),
{
    c == ' ' || ('\t' <= c && c <= '\r') || c == '\u{85}' || c == '\u{a0}' || c == '\u{1680}'
        || ('\u{2000}' <= c && c <= '\u{200a}') || c == '\u{2028}' || c == '\u{2029}'
        || c == '\u{202f}' || c == '\u{205f}' || c == '\u{3000}'
}

/// The candidate `v[lo..hi]`, trimmed and stripped of `W/`, as bounds.
fn candidate_bounds(v: &Vec<char>, lo: usize, hi: usize) -> (r: (usize, usize))
    requires
        lo <= hi <= v@.len(),
    ensures
        lo <= r.0 <= r.1 <= hi,
        v@.subrange(r.0 as int, r.1 as int) == strip_weak(
            trim_end_space(trim_start(v@.subrange(lo as int, hi as int))),
        ),
{
    let mut a = lo;
    while a < hi && char_is_space(v[a])
        invariant
            lo <= a <= hi <= v@.len(),
            trim_start(v@.subrange(lo as int, hi as int)) == trim_start(
                v@.subrange(a as int, hi as int),
            ),
        decreases hi - a,
    {
        assert(v@.subrange(a + 1, hi as int) =~= v@.subrange(a as int, hi as int).drop_first());
        a += 1;
    }
    let mut b = hi;
    while b > a && char_is_space(v[b - 1])
        invariant
            lo <= a <= b <= hi <= v@.len(),
            trim_end_space(trim_start(v@.subrange(lo as int, hi as int))) == trim_end_space(
                v@.subrange(a as int, b as int),
            ),
        decreases b,
    {
        assert(v@.subrange(a as int, b - 1) =~= v@.subrange(a as int, b as int).drop_last());
        b -= 1;
    }
    while b - a >= 2 && v[a] == 'W' && v[a + 1] == '/'
        invariant
            lo <= a <= b <= hi <= v@.len(),
            strip_weak(trim_end_space(trim_start(v@.subrange(lo as int, hi as int)))) == strip_weak(
                v@.subrange(a as int, b as int),
            ),
        decreases b - a,
    {
        assert(v@.subrange(a + 2, b as int) =~= v@.subrange(a as int, b as int).skip(2));
        a += 2;
    }
    (a, b)
}

/// True when an `If-None-Match` value matches this `ETag` (or is `*`).
pub fn if_none_match_hits(value: &str, etag: &str) -> (b: bool)
    ensures
        b == spec_none_match_hits(value@, etag@),
{
    let v = chars_of(value);
    let n = v.len();
    assert(v@.subrange(0, n as int) =~= value@);
    if range_is(&v, 0, n, "*") {
        return true;
    }
    let e = chars_of(etag);
    let segs = split_range(&v, 0, n, ',');
    let ghost parts = split_on(value@, ',');
    let mut k: usize = 0;
    while k < segs.len()
        invariant
            v@ == value@,
            e@ == etag@,
            n == v@.len(),
            parts == split_on(value@, ','),
            segs@.len() == parts.len(),
            forall|j: int|
                0 <= j < segs@.len() ==> {
                    &&& 0 <= (#[trigger] segs@[j]).0 <= segs@[j].1 <= n
                    &&& v@.subrange(segs@[j].0 as int, segs@[j].1 as int) == parts[j]
                },
            k <= segs@.len(),
            value@ != "*"@,
            forall|j: int| 0 <= j < k ==> strip_weak(trim_end_space(trim_start(parts[j]))) != etag@,
        decreases segs@.len() - k,
    {
        let (lo, hi) = segs[k];
        let (a, b) = candidate_bounds(&v, lo, hi);
        let m = e.len();
        if b - a == m {
            let mut i: usize = 0;
            let mut same = true;
            while i < m
                invariant
                    a + m == b <= v@.len(),
                    m == e@.len(),
                    i <= m,
                    same == (forall|j: int| 0 <= j < i ==> v@[a + j] == e@[j]),
                decreases m - i,
            {
                if v[a + i] != e[i] {
                    same = false;
                }
                i += 1;
            }
            if same {
                assert(v@.subrange(a as int, b as int) =~= etag@);
                return true;
            } else {
                assert(v@.subrange(a as int, b as int) != etag@) by {
                    let j = choose|j: int| 0 <= j < m && v@[a + j] != e@[j];
                    assert(v@.subrange(a as int, b as int)[j] != etag@[j]);
                }
            }
        }
        k += 1;
    }
    false
}

/// The 16 lowercase hexadecimal digits of `n`, zero-padded.
pub open spec fn hex16(n: nat) -> Seq<char>
    decreases 16nat,
{
    hex_digits(n, 16)
}

/// The lowest `width` hexadecimal digits of `n`, zero-padded.
pub open spec fn hex_digits(n: nat, width: nat) -> Seq<char>
    decreases width,
{
    if width == 0 {
        Seq::empty()
    } else {
        hex_digits(n / 16, (width - 1) as nat).push(hex_char(n % 16))
    }
}

/// The lowercase hexadecimal digit of a value below 16.
pub open spec fn hex_char(d: nat) -> char {
    if d < 10 {
        ((d + 48) as u32) as char
    } else {
        ((d + 87) as u32) as char
    }
}

/// The `ETag` spelled from its two 64-bit halves: quoted, 32 lowercase hex
/// digits.
pub open spec fn etag_spec(h0: u64, h1: u64) -> Seq<char> {
    seq!['"'] + hex16(h0 as nat) + hex16(h1 as nat) + seq!['"']
}

/// Appends the lowest `width` hexadecimal digits of `n`.
fn push_hex(s: &mut String, n: u64, width: u32)
    ensures
        final(s)@ == old(s)@ + hex_digits(n as nat, width as nat),
    decreases width,
{
    if width > 0 {
        push_hex(s, n / 16, width - 1);
        let d = (n % 16) as u32;
        let c: char = if d < 10 {
            (48 + d) as u8 as char
        } else {
            (87 + d) as u8 as char
        };
        assert(c == hex_char((n % 16) as nat));
        push_char(s, c);
        assert(s@ =~= old(s)@ + hex_digits(n as nat, width as nat));
    } else {
        assert(s@ =~= old(s)@ + hex_digits(n as nat, width as nat));
    }
}

/// Spells an `ETag` from its two halves.
pub fn etag_text(h0: u64, h1: u64) -> (s: String)
    ensures
        s@ == etag_spec(h0, h1),
{
    let mut s = String::new();
    push_char(&mut s, '"');
    push_hex(&mut s, h0, 16);
    push_hex(&mut s, h1, 16);
    push_char(&mut s, '"');
    assert(s@ =~= etag_spec(h0, h1));
    s
}

/// The `n` low bytes of `v`, least significant first.
pub open spec fn le_bytes(v: nat, n: nat) -> Seq<u8>
    decreases n,
{
    if n == 0 {
        Seq::empty()
    } else {
        seq![(v % 256) as u8] + le_bytes(v / 256, (n - 1) as nat)
    }
}

/// The eight bytes of `v`, least significant first.
fn u64_le_bytes(v: u64) -> (r: Vec<u8>)
    ensures
        r@ == le_bytes(v as nat, 8),
{
    let mut r: Vec<u8> = Vec::new();
    let mut cur: u64 = v;
    let mut i: u64 = 0;
    while i < 8
        invariant
            i <= 8,
            r@ + le_bytes(cur as nat, (8 - i) as nat) == le_bytes(v as nat, 8),
        decreases 8 - i,
    {
        let b = (cur % 256) as u8;
        proof {
            let rest = le_bytes((cur / 256) as nat, (8 - i - 1) as nat);
            assert(le_bytes(cur as nat, (8 - i) as nat) == seq![b] + rest);
            assert(r@.push(b) + rest =~= r@ + (seq![b] + rest));
        }
        r.push(b);
        cur = cur / 256;
        i += 1;
    }
    assert(r@ + le_bytes(cur as nat, 0) =~= r@);
    r
}

/// The byte stream one half of an `ETag` hashes: the domain index as eight
/// little-endian bytes, the identifier's UTF-8 bytes and a `0xFF`
/// terminator, the source version's two integers as eight little-endian
/// bytes each, the canonical path and the release version, each with its
/// terminator — the stream `Hash` writes for a `usize`, a `str`, a
/// `(u64, u64)` on a 64-bit little-endian machine.
pub open spec fn etag_stream(
    domain: u64,
    identifier: Seq<u8>,
    source_version: (u64, u64),
    canonical: Seq<u8>,
) -> Seq<Seq<u8>> {
    seq![
        le_bytes(domain as nat, 8),
        identifier,
        seq![0xFFu8],
        le_bytes(source_version.0 as nat, 8),
        le_bytes(source_version.1 as nat, 8),
        canonical,
        seq![0xFFu8],
        encode_utf8(crate::version::VERSION@),
        seq![0xFFu8],
    ]
}

/// One half of the `ETag`: std's default hasher, fresh, fed the stream of
/// [`etag_stream`].
pub open spec fn etag_hash(
    domain: u64,
    identifier: Seq<u8>,
    source_version: (u64, u64),
    canonical: Seq<u8>,
) -> u64 {
    std::collections::hash_map::DefaultHasher::spec_finish(
        etag_stream(domain, identifier, source_version, canonical),
    )
}

/// One half of the `ETag` hash: a fresh default hasher fed the domain
/// index, the identifier, the source version (mtime and length), the
/// canonical request path and the release version.
fn etag_half(domain: usize, identifier: &str, source_version: (u64, u64), canonical: &str) -> (h: u64)
    ensures
        h == etag_hash(
            domain as u64,
            encode_utf8(identifier@),
            source_version,
            encode_utf8(canonical@),
        ),
{
    let mut terminator: Vec<u8> = Vec::new();
    terminator.push(0xFFu8);
    assert(terminator@ =~= seq![0xFFu8]);
    let mut hasher = std::collections::hash_map::DefaultHasher::new();
    let d = u64_le_bytes(domain as u64);
    hasher.write(d.as_slice());
    hasher.write(identifier.as_bytes());
    hasher.write(terminator.as_slice());
    let v0 = u64_le_bytes(source_version.0);
    hasher.write(v0.as_slice());
    let v1 = u64_le_bytes(source_version.1);
    hasher.write(v1.as_slice());
    hasher.write(canonical.as_bytes());
    hasher.write(terminator.as_slice());
    hasher.write(crate::version::VERSION.as_bytes());
    hasher.write(terminator.as_slice());
    assert(hasher@ =~= etag_stream(
        domain as u64,
        encode_utf8(identifier@),
        source_version,
        encode_utf8(canonical@),
    ));
    hasher.finish()
}

/// The `ETag` of a response: a hash of the source identity, the source
/// version, the canonical request path and the release, in two domain-
/// separated halves, spelled as 32 hex digits in quotes.
pub fn etag_for(identifier: &str, source_version: (u64, u64), canonical: &str) -> (s: String)
    ensures
        s@ == etag_spec(
            etag_hash(0, encode_utf8(identifier@), source_version, encode_utf8(canonical@)),
            etag_hash(1, encode_utf8(identifier@), source_version, encode_utf8(canonical@)),
        ),
{
    let h0 = etag_half(0, identifier, source_version, canonical);
    let h1 = etag_half(1, identifier, source_version, canonical);
    etag_text(h0, h1)
}

// ---------------------------------------------------------------------------
// Statuses.

/// A plain-text error body: the message and a newline.
pub fn error_body(message: &str) -> (s: String)
    ensures
        s@ == message@ + seq!['\n'],
{
    let mut s = String::new();
    push_str(&mut s, message);
    push_char(&mut s, '\n');
    s
}

/// The status and message of a grammar failure: 400.
pub fn parse_failure(err: &ParseError) -> (r: (u16, String))
    ensures
        r.0 == 400,
        r.1@ == parse_error_text(*err),
{
    (400, err.to_string())
}

/// The status and message of a source failure: 404 for a missing master,
/// 500 otherwise.
pub fn source_failure(err: &SourceError) -> (r: (u16, &'static str))
    ensures
        err is NotFound ==> r.0 == 404 && r.1@ == "unknown identifier"@,
        !(err is NotFound) ==> r.0 == 500 && r.1@ == "source read failed"@,
{
    match err {
        SourceError::NotFound => (404, "unknown identifier"),
        _ => (500, "source read failed"),
    }
}

/// The status and message a codec failure is answered with: 403 for a
/// refused resource ceiling, 500 otherwise.
pub open spec fn codec_status(err: CodecError) -> (u16, Seq<char>) {
    match err {
        CodecError::Unsupported(m) => (500, "unsupported master: "@ + m@),
        CodecError::Corrupt(m) => (500, "corrupt master: "@ + m@),
        CodecError::LimitExceeded(m) => (403, "limit exceeded: "@ + m@),
        CodecError::Raster(_) => (500, "pipeline failure"@),
    }
}

/// The status and message of a codec failure: a deliberate resource-ceiling
/// refusal is 403 (the master is fine and the server healthy); everything
/// else is a 500.
pub fn codec_failure(err: &CodecError) -> (r: (u16, String))
    ensures
        r.0 == codec_status(*err).0,
        r.1@ == codec_status(*err).1,
{
    match err {
        CodecError::Unsupported(m) => {
            let mut s = String::new();
            push_str(&mut s, "unsupported master: ");
            push_str(&mut s, m.as_str());
            (500, s)
        },
        CodecError::Corrupt(m) => {
            let mut s = String::new();
            push_str(&mut s, "corrupt master: ");
            push_str(&mut s, m.as_str());
            (500, s)
        },
        CodecError::LimitExceeded(m) => {
            let mut s = String::new();
            push_str(&mut s, "limit exceeded: ");
            push_str(&mut s, m.as_str());
            (403, s)
        },
        CodecError::Raster(_) => (500, "pipeline failure".to_string()),
    }
}

/// Failures on the image path, unified for status mapping.
#[derive(Debug)]
pub enum ImageFailure {
    /// The master could not be opened or decoded.
    Codec(CodecError),
    /// The request is legal syntax but not against this image.
    Eval(EvalError),
    /// Decode, transform or encode failed.
    Pipeline(PipelineError),
}

/// The status and message of an image-path failure: evaluation failures and
/// outputs too large for their format are 400s; codec failures as
/// [`codec_failure`]; anything else in the pipeline is a 500.
pub fn image_failure(f: &ImageFailure) -> (r: (u16, String))
    ensures
        match f {
            ImageFailure::Eval(e) => r.0 == 400 && r.1@ == eval_error_text(*e),
            ImageFailure::Codec(c) => r.0 == codec_status(*c).0 && r.1@ == codec_status(*c).1,
            ImageFailure::Pipeline(PipelineError::Encode(
                EncodeError::DimensionsBeyondFormat { .. },
            )) => r.0 == 400 && r.1@ == "output too large for this format"@,
            ImageFailure::Pipeline(p) => r.0 == 500 && r.1@ == pipeline_error_text(*p),
        },
{
    match f {
        ImageFailure::Eval(e) => (400, e.to_string()),
        ImageFailure::Codec(c) => codec_failure(c),
        ImageFailure::Pipeline(p) => match p {
            PipelineError::Encode(EncodeError::DimensionsBeyondFormat { .. }) => (
                400,
                "output too large for this format".to_string(),
            ),
            _ => (500, p.to_string()),
        },
    }
}

// ---------------------------------------------------------------------------
// Negotiation and links.

/// The `Content-Type` of an info.json: the version's JSON-LD type when the
/// `Accept` header asks for `application/ld+json`, else plain JSON.
pub fn info_content_type(version: Version, accept: &str) -> (s: &'static str)
    ensures
        s@ == (if contains(accept@, "application/ld+json"@) {
            match version {
                Version::V2 => LD_JSON_V2@,
                Version::V3 => LD_JSON@,
            }
        } else {
            "application/json"@
        }),
{
    if str_contains(accept, "application/ld+json") {
        version.ld_json()
    } else {
        "application/json"
    }
}

/// Whether `t` occurs in `s`.
pub open spec fn contains(s: Seq<char>, t: Seq<char>) -> bool {
    exists|i: int| 0 <= i <= s.len() - t.len() && #[trigger] s.subrange(i, i + t.len()) == t
}

/// Whether `t` occurs in `s`.
fn str_contains(s: &str, t: &str) -> (b: bool)
    ensures
        b == contains(s@, t@),
{
    let v = chars_of(s);
    let n = v.len();
    let m = t.unicode_len();
    if m == 0 {
        assert(s@.subrange(0int, 0int + t@.len()) =~= t@);
        return true;
    }
    if m > n {
        assert forall|i: int| 0 <= i <= s@.len() - t@.len() implies #[trigger] s@.subrange(
            i,
            i + t@.len(),
        ) != t@ by {}
        return false;
    }
    let mut i: usize = 0;
    while i <= n - m
        invariant
            v@ == s@,
            n == s@.len(),
            m == t@.len(),
            1 <= m <= n,
            i <= n - m + 1,
            forall|j: int| 0 <= j < i ==> #[trigger] s@.subrange(j, j + m) != t@,
        decreases n - m + 1 - i,
    {
        if range_is(&v, i, i + m, t) {
            return true;
        }
        i += 1;
    }
    false
}

/// The public base the response ids are built from: `public_base` when
/// set, else `http://` and the request's host (`localhost` when absent).
pub fn base_uri(public_base: Option<&str>, host: Option<&str>) -> (s: String)
    ensures
        s@ == (match public_base {
            Some(b) => b@,
            None => "http://"@ + (match host {
                Some(h) => h@,
                None => "localhost"@,
            }),
        }),
{
    match public_base {
        Some(b) => b.to_string(),
        None => {
            let mut s = String::new();
            push_str(&mut s, "http://");
            match host {
                Some(h) => push_str(&mut s, h),
                None => push_str(&mut s, "localhost"),
            }
            s
        },
    }
}

/// Where a bare identifier redirects: `/{prefix}/{identifier}/info.json`.
pub fn info_location(version: Version, encoded_id: &str) -> (s: String)
    ensures
        s@ == seq!['/'] + version_prefix(version) + seq!['/'] + encoded_id@ + "/info.json"@,
{
    let mut s = String::new();
    push_char(&mut s, '/');
    push_str(&mut s, version.prefix());
    push_char(&mut s, '/');
    push_str(&mut s, encoded_id);
    push_str(&mut s, "/info.json");
    s
}

/// An info.json's `id`: `{base}/{prefix}/{identifier}`.
pub fn document_id(base: &str, version: Version, encoded_id: &str) -> (s: String)
    ensures
        s@ == base@ + seq!['/'] + version_prefix(version) + seq!['/'] + encoded_id@,
{
    let mut s = String::new();
    push_str(&mut s, base);
    push_char(&mut s, '/');
    push_str(&mut s, version.prefix());
    push_char(&mut s, '/');
    push_str(&mut s, encoded_id);
    s
}

/// The canonical path an info.json's `ETag` hashes: `{prefix}/info.json`.
pub fn info_canonical(version: Version) -> (s: String)
    ensures
        s@ == version_prefix(version) + "/info.json"@,
{
    let mut s = String::new();
    push_str(&mut s, version.prefix());
    push_str(&mut s, "/info.json");
    s
}

/// The `Link` header of an image response: the canonical URI, then the
/// profile link.
pub fn canonical_link(base: &str, version: Version, encoded_id: &str, canonical_path: &str) -> (s: String)
    ensures
        s@ == seq!['<'] + base@ + seq!['/'] + version_prefix(version) + seq!['/'] + encoded_id@
            + seq!['/'] + canonical_path@ + ">;rel=\"canonical\", "@ + (match version {
            Version::V2 => PROFILE_LINK_V2@,
            Version::V3 => PROFILE_LINK@,
        }),
{
    let mut s = String::new();
    push_char(&mut s, '<');
    push_str(&mut s, base);
    push_char(&mut s, '/');
    push_str(&mut s, version.prefix());
    push_char(&mut s, '/');
    push_str(&mut s, encoded_id);
    push_char(&mut s, '/');
    push_str(&mut s, canonical_path);
    push_str(&mut s, ">;rel=\"canonical\", ");
    push_str(&mut s, version.profile_link());
    s
}

/// The decode gauges: workers busy, and admitted requests waiting for one.
/// `admission_bound` is the admission semaphore's size, the workers plus
/// the queue depth.
pub fn decode_gauges(
    workers: usize,
    admission_bound: usize,
    decode_available: usize,
    admission_available: usize,
) -> (r: (u64, u64))
    ensures
        ({
            let in_flight = if workers >= decode_available {
                workers - decode_available
            } else {
                0
            };
            let admitted = if admission_bound >= admission_available {
                admission_bound - admission_available
            } else {
                0
            };
            r == (in_flight as u64, (if admitted >= in_flight {
                admitted - in_flight
            } else {
                0
            }) as u64)
        }),
{
    let in_flight = workers.saturating_sub(decode_available);
    let admitted = admission_bound.saturating_sub(admission_available);
    let queued = admitted.saturating_sub(in_flight);
    (in_flight as u64, queued as u64)
}

} // verus!
