//! The source seam: the errors a master source reports, the range check a
//! ranged read makes, and the resolution rules of the local-directory and
//! object-store roots (the reads themselves are I/O, done by the caller).

use vstd::prelude::*;
use crate::grammar::{push_str, starts_with};
use crate::ident::Identifier;
use crate::text::{find_first, lemma_find_first, push_char, push_u64, nat_text, split_on};

verus! {

/// An I/O failure reported by the operating system.
#[verifier::external_type_specification]
#[verifier::external_body]
pub struct ExIoError(std::io::Error);

/// Source-layer failure. `NotFound` maps to HTTP 404; everything else is a
/// 5xx (the master exists but could not be read).
#[derive(Debug)]
#[non_exhaustive]
pub enum SourceError {
    /// The identifier resolves to nothing in this source.
    NotFound,
    /// The requested range extends beyond the end of the source — always a
    /// caller bug or a truncated/changed master, never a client error.
    OutOfRange {
        /// Requested start offset.
        offset: u64,
        /// Requested byte count.
        len: u64,
        /// Actual source length.
        source_len: u64,
    },
    /// Underlying I/O failure.
    Io(std::io::Error),
}

/// Whether an I/O failure says the file does not exist
/// (`std::io::Error::kind() == ErrorKind::NotFound`). Nothing is stated of
/// the result: the error is opaque here.
#[verifier::external_body]
fn io_is_not_found(err: &std::io::Error) -> (b: bool) {
    err.kind() == std::io::ErrorKind::NotFound
}

/// The text of an I/O failure (`Display` of `std::io::Error`). Nothing is
/// stated of it: the error is opaque here.
#[verifier::external_body]
fn io_error_text(err: &std::io::Error) -> (s: String) {
    format!("{err}")
}

impl SourceError {
    /// Classifies an I/O failure: a missing file is [`SourceError::NotFound`],
    /// anything else is [`SourceError::Io`].
    pub fn from_io(err: std::io::Error) -> (r: SourceError)
        ensures
            r is NotFound || r == SourceError::Io(err),
    {
        let not_found = io_is_not_found(&err);
        SourceError::of_io(err, not_found)
    }

    /// Classifies an I/O failure whose kind is known: `not_found` gives
    /// [`SourceError::NotFound`], otherwise the failure itself is carried in
    /// [`SourceError::Io`].
    pub fn of_io(err: std::io::Error, not_found: bool) -> (r: SourceError)
        ensures
            not_found ==> r is NotFound,
            !not_found ==> r == SourceError::Io(err),
    {
        if not_found {
            SourceError::NotFound
        } else {
            SourceError::Io(err)
        }
    }

    /// The human-readable message.
    pub fn to_string(&self) -> (s: String)
        ensures
            self is NotFound ==> s@ == "source not found"@,
            self matches SourceError::OutOfRange { offset, len, source_len } ==> s@ == "range "@
                + nat_text(offset as nat) + "+"@ + nat_text(len as nat) + " out of bounds for source of "@
                + nat_text(source_len as nat) + " bytes"@,
    {
        let mut s = String::new();
        match self {
            SourceError::NotFound => push_str(&mut s, "source not found"),
            SourceError::OutOfRange { offset, len, source_len } => {
                push_str(&mut s, "range ");
                push_u64(&mut s, *offset);
                push_str(&mut s, "+");
                push_u64(&mut s, *len);
                push_str(&mut s, " out of bounds for source of ");
                push_u64(&mut s, *source_len);
                push_str(&mut s, " bytes");
            },
            SourceError::Io(e) => {
                push_str(&mut s, "source I/O error: ");
                let t = io_error_text(e);
                push_str(&mut s, t.as_str());
            },
        }
        s
    }
}

/// Checks a ranged read of `len` bytes at `offset` against a source of
/// `source_len` bytes, returning the length as a buffer size.
///
/// # Errors
///
/// [`SourceError::OutOfRange`] when the range ends past the source (or its
/// end overflows).
pub fn check_range(offset: u64, len: u64, source_len: u64) -> (r: Result<usize, SourceError>)
    ensures
        r is Ok <==> offset + len <= source_len && len <= usize::MAX,
        r matches Ok(n) ==> n == len,
        r matches Err(e) ==> e == (SourceError::OutOfRange { offset, len, source_len }),
{
    if offset as u128 + len as u128 > source_len as u128 {
        return Err(SourceError::OutOfRange { offset, len, source_len });
    }
    if len as u128 > usize::MAX as u128 {
        return Err(SourceError::OutOfRange { offset, len, source_len });
    }
    Ok(len as usize)
}

/// The non-empty parts of `s`, in order.
pub open spec fn nonempty_parts(s: Seq<Seq<char>>) -> Seq<Seq<char>>
    decreases s.len(),
{
    if s.len() == 0 {
        s
    } else if s.last().len() > 0 {
        nonempty_parts(s.drop_last()).push(s.last())
    } else {
        nonempty_parts(s.drop_last())
    }
}

/// The components of a `/`-separated path: its non-empty segments.
pub open spec fn path_components(p: Seq<char>) -> Seq<Seq<char>> {
    nonempty_parts(split_on(p, '/'))
}

/// Whether `root`'s components are a prefix of `path`'s (the component-wise
/// `starts_with` of paths, not a text prefix: `/a/bc` is not under `/a/b`).
pub open spec fn path_under(path: Seq<char>, root: Seq<char>) -> bool {
    let r = path_components(root);
    let p = path_components(path);
    r.len() <= p.len() && p.take(r.len() as int) == r
}

/// Resolves identifiers against a filesystem root (already canonical).
///
/// Identifiers already carry no traversal segments; the containment check
/// on the canonical target is defense in depth (symlinks inside the tree
/// that point outside it are refused).
#[derive(Debug)]
pub struct LocalRoot {
    root: String,
}

impl LocalRoot {
    /// The canonical root.
    pub closed spec fn spec_root(self) -> Seq<char> {
        self.root@
    }

    /// A root at `canonical_root`, the canonical form of the configured
    /// directory.
    pub fn new(canonical_root: &str) -> (r: LocalRoot)
        ensures
            r.spec_root() == canonical_root@,
    {
        LocalRoot { root: canonical_root.to_string() }
    }

    /// The canonical root.
    pub fn root(&self) -> (s: &str)
        ensures
            s@ == self.spec_root(),
    {
        self.root.as_str()
    }

    /// The path an identifier names under this root (before
    /// canonicalization): the root, a separator unless the root already
    /// ends in one, then the identifier's path.
    pub fn join(&self, id: &Identifier) -> (s: String)
        ensures
            s@ == (if self.spec_root().len() > 0 && self.spec_root().last() == '/' {
                self.spec_root() + id.spec_path()
            } else {
                self.spec_root() + seq!['/'] + id.spec_path()
            }),
    {
        let mut s = self.root.clone();
        let n = s.unicode_len();
        if !(n > 0 && s.get_char(n - 1) == '/') {
            push_char(&mut s, '/');
        }
        push_str(&mut s, id.as_path());
        s
    }

    /// Whether a canonical target lies inside the root, component-wise.
    pub fn admits(&self, canonical: &str) -> (b: bool)
        ensures
            b == path_under(canonical@, self.spec_root()),
    {
        let r = components(self.root.as_str());
        let p = components(canonical);
        if r.len() > p.len() {
            return false;
        }
        let ghost rc = path_components(self.spec_root());
        let ghost pc = path_components(canonical@);
        let mut i: usize = 0;
        while i < r.len()
            invariant
                rc == path_components(self.spec_root()),
                pc == path_components(canonical@),
                r@.len() == rc.len(),
                p@.len() == pc.len(),
                forall|k: int| 0 <= k < r@.len() ==> r@[k]@ == rc[k],
                forall|k: int| 0 <= k < p@.len() ==> p@[k]@ == pc[k],
                r@.len() <= p@.len(),
                i <= r@.len(),
                forall|k: int| 0 <= k < i ==> pc[k] == rc[k],
            decreases r@.len() - i,
        {
            if !crate::text::str_eq(r[i].as_str(), p[i].as_str()) {
                assert(pc.take(rc.len() as int)[i as int] != rc[i as int]);
                return false;
            }
            i += 1;
        }
        assert(pc.take(rc.len() as int) =~= rc);
        true
    }
}

/// The components of a path, as strings.
fn components(p: &str) -> (v: Vec<String>)
    ensures
        v@.len() == path_components(p@).len(),
        forall|k: int| 0 <= k < v@.len() ==> v@[k]@ == path_components(p@)[k],
{
    let chars = crate::text::chars_of(p);
    let n = chars.len();
    assert(chars@.subrange(0, n as int) =~= p@);
    let ranges = crate::grammar::split_range(&chars, 0, n, '/');
    let ghost segs = split_on(p@, '/');
    let mut v: Vec<String> = Vec::new();
    let mut k: usize = 0;
    while k < ranges.len()
        invariant
            chars@ == p@,
            n == p@.len(),
            segs == split_on(p@, '/'),
            ranges@.len() == segs.len(),
            forall|j: int|
                0 <= j < ranges@.len() ==> {
                    &&& 0 <= (#[trigger] ranges@[j]).0 <= ranges@[j].1 <= n
                    &&& p@.subrange(ranges@[j].0 as int, ranges@[j].1 as int) == segs[j]
                },
            k <= ranges@.len(),
            v@.len() == nonempty_parts(segs.take(k as int)).len(),
            forall|j: int| 0 <= j < v@.len() ==> v@[j]@ == nonempty_parts(segs.take(k as int))[j],
        decreases ranges@.len() - k,
    {
        let (a, b) = ranges[k];
        assert(segs.take(k + 1).drop_last() =~= segs.take(k as int));
        assert(segs.take(k + 1).last() == segs[k as int]);
        if a < b {
            let part = p.substring_char(a, b).to_string();
            v.push(part);
        }
        k += 1;
    }
    assert(segs.take(ranges@.len() as int) =~= segs);
    v
}

/// `s` without its trailing `c` characters.
pub open spec fn trim_end(s: Seq<char>, c: char) -> Seq<char>
    decreases s.len(),
{
    if s.len() > 0 && s.last() == c {
        trim_end(s.drop_last(), c)
    } else {
        s
    }
}

/// The bucket and key prefix an object-store URL names:
/// `s3://bucket[/prefix]`, the prefix without trailing slashes; or the
/// refusal.
pub open spec fn spec_s3_url(url: Seq<char>) -> Result<(Seq<char>, Seq<char>), Seq<char>> {
    if !starts_with(url, "s3://"@) {
        Err("not an s3:// URL: "@ + url)
    } else {
        let rest = url.skip(5);
        let (bucket, prefix) = match find_first(rest, '/') {
            Some(i) => (rest.take(i as int), trim_end(rest.skip(i as int + 1), '/')),
            None => (rest, Seq::<char>::empty()),
        };
        if bucket.len() == 0 {
            Err("s3 URL has no bucket"@)
        } else {
            Ok((bucket, prefix))
        }
    }
}

/// Parses an `s3://bucket[/prefix]` URL into its bucket and key prefix.
///
/// # Errors
///
/// A message when the URL is not `s3://bucket[/prefix]`.
pub fn parse_s3_url(url: &str) -> (r: Result<(String, String), String>)
    ensures
        match spec_s3_url(url@) {
            Ok((b, p)) => r matches Ok((rb, rp)) && rb@ == b && rp@ == p,
            Err(m) => r matches Err(e) && e@ == m,
        },
{
    let v = crate::text::chars_of(url);
    let n = v.len();
    assert(v@.subrange(0, n as int) =~= url@);
    if !crate::grammar::range_starts_with(&v, 0, n, "s3://") {
        let mut m = String::new();
        push_str(&mut m, "not an s3:// URL: ");
        push_str(&mut m, url);
        return Err(m);
    }
    proof {
        reveal_strlit("s3://");
        lemma_find_first(url@.skip(5), '/');
    }
    let slash = crate::grammar::find_in_range(&v, 5, n, '/');
    let (bucket, prefix) = match slash {
        Some(i) => {
            proof {
                assert(url@.skip(5) =~= v@.subrange(5, n as int));
                assert(url@.skip(5).skip(i - 5 + 1) =~= v@.subrange(i + 1, n as int));
            }
            let mut end = n;
            while end > i + 1 && v[end - 1] == '/'
                invariant
                    i + 1 <= end <= n,
                    n == v@.len(),
                    v@ == url@,
                    trim_end(url@.skip(5).skip(i - 5 + 1), '/') == trim_end(
                        v@.subrange(i + 1, end as int),
                        '/',
                    ),
                decreases end,
            {
                assert(v@.subrange(i + 1, end - 1) =~= v@.subrange(i + 1, end as int).drop_last());
                end -= 1;
            }
            proof {
                assert(url@.skip(5).take(i - 5) =~= v@.subrange(5, i as int));
                assert(url@.skip(5).skip(i - 5 + 1) =~= v@.subrange(i + 1, n as int));
            }
            (url.substring_char(5, i).to_string(), url.substring_char(i + 1, end).to_string())
        },
        None => {
            assert(url@.skip(5) =~= v@.subrange(5, n as int));
            (url.substring_char(5, n).to_string(), String::new())
        },
    };
    if bucket.unicode_len() == 0 {
        return Err("s3 URL has no bucket".to_string());
    }
    Ok((bucket, prefix))
}

/// The object key an identifier names under a key prefix: the identifier
/// alone when the prefix is empty, else `prefix/identifier`.
pub fn object_key(prefix: &str, id: &Identifier) -> (s: String)
    ensures
        s@ == (if prefix@.len() == 0 {
            id.spec_path()
        } else {
            prefix@ + seq!['/'] + id.spec_path()
        }),
{
    let mut s = String::new();
    if prefix.unicode_len() > 0 {
        push_str(&mut s, prefix);
        push_char(&mut s, '/');
    }
    push_str(&mut s, id.as_path());
    s
}

} // verus!
