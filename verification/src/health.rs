//! The verdict of the container self-probe: what the first line of a
//! `/healthz` answer says about the server (the socket exchange itself is
//! the caller's).

use vstd::prelude::*;
use crate::grammar::push_str;
use crate::route::{char_is_space, is_space};
use crate::text::{chars_of, find_first, lemma_find_first, str_eq};
use vstd::utf8::{decode_utf8, valid_utf8};

verus! {

/// How many white-space characters `s` begins with.
pub open spec fn white_run(s: Seq<char>) -> nat
    decreases s.len(),
{
    if s.len() > 0 && is_space(s[0]) {
        1 + white_run(s.drop_first())
    } else {
        0
    }
}

/// How many non-white-space characters `s` begins with.
pub open spec fn word_run(s: Seq<char>) -> nat
    decreases s.len(),
{
    if s.len() > 0 && !is_space(s[0]) {
        1 + word_run(s.drop_first())
    } else {
        0
    }
}

/// A run of white space, once located, is what `white_run` counts.
pub proof fn lemma_white_run(s: Seq<char>, k: int)
    requires
        0 <= k <= s.len(),
        forall|i: int| 0 <= i < k ==> is_space(#[trigger] s[i]),
        k == s.len() || !is_space(s[k]),
    ensures
        white_run(s) == k,
    decreases k,
{
    if k > 0 {
        assert forall|i: int| 0 <= i < k - 1 implies is_space(#[trigger] s.drop_first()[i]) by {
            assert(s.drop_first()[i] == s[i + 1]);
        }
        lemma_white_run(s.drop_first(), k - 1);
    }
}

/// A run of non-white-space, once located, is what `word_run` counts.
pub proof fn lemma_word_run(s: Seq<char>, k: int)
    requires
        0 <= k <= s.len(),
        forall|i: int| 0 <= i < k ==> !is_space(#[trigger] s[i]),
        k == s.len() || is_space(s[k]),
    ensures
        word_run(s) == k,
    decreases k,
{
    if k > 0 {
        assert forall|i: int| 0 <= i < k - 1 implies !is_space(#[trigger] s.drop_first()[i]) by {
            assert(s.drop_first()[i] == s[i + 1]);
        }
        lemma_word_run(s.drop_first(), k - 1);
    }
}

/// The bounds of the two runs.
pub proof fn lemma_runs_bounded(s: Seq<char>)
    ensures
        white_run(s) <= s.len(),
        word_run(s) <= s.len(),
        s.len() > 0 && !is_space(s[0]) ==> word_run(s) >= 1,
    decreases s.len(),
{
    if s.len() > 0 {
        lemma_runs_bounded(s.drop_first());
    }
}

/// The white-space-separated words of `s`, as `str::split_whitespace`
/// yields them.
pub open spec fn words(s: Seq<char>) -> Seq<Seq<char>>
    decreases s.len(),
{
    let t = s.skip(white_run(s) as int);
    proof {
        lemma_runs_bounded(s);
    }
    if t.len() == 0 {
        Seq::<Seq<char>>::empty()
    } else {
        proof {
            lemma_runs_bounded(t);
        }
        seq![t.take(word_run(t) as int)] + words(t.skip(word_run(t) as int))
    }
}

/// The status line of an answer: everything before the first line feed
/// (a carriage return before it is white space, so it splits no word).
pub open spec fn status_line(s: Seq<char>) -> Seq<char> {
    match find_first(s, '\n') {
        Some(i) => s.take(i as int),
        None => s,
    }
}

/// The verdict on an answer: healthy when the second word of its status
/// line (the status code) is `200`.
pub open spec fn health_verdict(s: Seq<char>) -> Result<(), Seq<char>> {
    let w = words(status_line(s));
    if w.len() >= 2 {
        if w[1] == "200"@ {
            Ok(())
        } else {
            Err("/healthz answered "@ + w[1])
        }
    } else {
        Err("no status line in response"@)
    }
}

/// The text `String::from_utf8_lossy` makes of `bytes`: the characters
/// they encode, each invalid sequence replaced by U+FFFD.
pub uninterp spec fn lossy_decoded(bytes: Seq<u8>) -> Seq<char>;

/// The bytes of an answer as text, invalid UTF-8 replaced by U+FFFD
/// (`String::from_utf8_lossy`), named by [`lossy_decoded`]. Stated beside
/// the name: valid UTF-8 comes through as the characters it encodes (ASCII
/// bytes as themselves); how invalid sequences are replaced is left to
/// the name.
#[verifier::external_body]
fn lossy_text(bytes: &[u8]) -> (s: String)
    ensures
        s@ == lossy_decoded(bytes@),
        valid_utf8(bytes@) ==> s@ == decode_utf8(bytes@),
        (forall|i: int| 0 <= i < bytes@.len() ==> bytes@[i] < 0x80) ==> s@ == Seq::new(
            bytes@.len(),
            |i: int| (bytes@[i] as u32) as char,
        ),
{
    String::from_utf8_lossy(bytes).into_owned()
}

/// The end of the white-space run of `v[lo..hi]`.
fn skip_white(v: &Vec<char>, lo: usize, hi: usize) -> (r: usize)
    requires
        lo <= hi <= v@.len(),
    ensures
        r == lo + white_run(v@.subrange(lo as int, hi as int)),
        lo <= r <= hi,
{
    let mut i = lo;
    while i < hi && char_is_space(v[i])
        invariant
            lo <= i <= hi <= v@.len(),
            forall|j: int| lo <= j < i ==> is_space(#[trigger] v@[j]),
        decreases hi - i,
    {
        i += 1;
    }
    let ghost s = v@.subrange(lo as int, hi as int);
    proof {
        assert forall|j: int| 0 <= j < i - lo implies is_space(#[trigger] s[j]) by {
            assert(s[j] == v@[lo + j]);
        }
        if i < hi {
            assert(s[i - lo] == v@[i as int]);
        }
        lemma_white_run(s, i - lo);
    }
    i
}

/// The end of the word that begins `v[lo..hi]`.
fn skip_word(v: &Vec<char>, lo: usize, hi: usize) -> (r: usize)
    requires
        lo <= hi <= v@.len(),
    ensures
        r == lo + word_run(v@.subrange(lo as int, hi as int)),
        lo <= r <= hi,
{
    let mut i = lo;
    while i < hi && !char_is_space(v[i])
        invariant
            lo <= i <= hi <= v@.len(),
            forall|j: int| lo <= j < i ==> !is_space(#[trigger] v@[j]),
        decreases hi - i,
    {
        i += 1;
    }
    let ghost s = v@.subrange(lo as int, hi as int);
    proof {
        assert forall|j: int| 0 <= j < i - lo implies !is_space(#[trigger] s[j]) by {
            assert(s[j] == v@[lo + j]);
        }
        if i < hi {
            assert(s[i - lo] == v@[i as int]);
        }
        lemma_word_run(s, i - lo);
    }
    i
}

/// Judges a `/healthz` answer, given the bytes read up to the end of its
/// first line, on their text as `String::from_utf8_lossy` reads it.
///
/// # Errors
///
/// `/healthz answered {code}` when the status code is not `200`; `no
/// status line in response` when the first line has fewer than two words.
pub fn judge_health(response: &[u8]) -> (r: Result<(), String>)
    ensures
        match health_verdict(lossy_decoded(response@)) {
            Ok(()) => r is Ok,
            Err(m) => r matches Err(e) && e@ == m,
        },
        valid_utf8(response@) ==> match health_verdict(decode_utf8(response@)) {
            Ok(()) => r is Ok,
            Err(m) => r matches Err(e) && e@ == m,
        },
        (forall|i: int| 0 <= i < response@.len() ==> response@[i] < 0x80) ==> match health_verdict(
            Seq::new(response@.len(), |i: int| (response@[i] as u32) as char),
        ) {
            Ok(()) => r is Ok,
            Err(m) => r matches Err(e) && e@ == m,
        },
{
    let text = lossy_text(response);
    let t = text.as_str();
    match judge_text(t) {
        Ok(()) => Ok(()),
        Err(m) => Err(m),
    }
}

/// Judges the text of a `/healthz` answer.
///
/// # Errors
///
/// As [`judge_health`].
pub fn judge_text(text: &str) -> (r: Result<(), String>)
    ensures
        match health_verdict(text@) {
            Ok(()) => r is Ok,
            Err(m) => r matches Err(e) && e@ == m,
        },
{
    let v = chars_of(text);
    let n = v.len();
    let mut hi: usize = 0;
    while hi < n && v[hi] != '\n'
        invariant
            hi <= n == v@.len(),
            forall|j: int| 0 <= j < hi ==> v@[j] != '\n',
        decreases n - hi,
    {
        hi += 1;
    }
    let ghost line = status_line(v@);
    proof {
        lemma_find_first(v@, '\n');
        if hi < n {
            crate::text::lemma_find_first_at(v@, '\n', hi as int);
        } else {
            crate::text::lemma_find_first_none(v@, '\n');
        }
        assert(line =~= v@.subrange(0, hi as int));
    }
    let a0 = skip_white(&v, 0, hi);
    let ghost t0 = line.skip(white_run(line) as int);
    proof {
        assert(t0 =~= v@.subrange(a0 as int, hi as int));
    }
    if a0 == hi {
        proof {
            assert(words(line).len() == 0);
        }
        return Err(no_status_line());
    }
    let b0 = skip_word(&v, a0, hi);
    let ghost rest0 = t0.skip(word_run(t0) as int);
    proof {
        assert(t0.len() > 0 && !is_space(t0[0])) by {
            lemma_runs_bounded(line);
            lemma_white_run_maximal(line);
            assert(t0[0] == line[white_run(line) as int]);
        }
        assert(rest0 =~= v@.subrange(b0 as int, hi as int));
        assert(words(line) == seq![t0.take(word_run(t0) as int)] + words(rest0));
    }
    let a1 = skip_white(&v, b0, hi);
    let ghost t1 = rest0.skip(white_run(rest0) as int);
    proof {
        assert(t1 =~= v@.subrange(a1 as int, hi as int));
    }
    if a1 == hi {
        proof {
            assert(words(rest0).len() == 0);
            assert(words(line).len() == 1);
        }
        return Err(no_status_line());
    }
    let b1 = skip_word(&v, a1, hi);
    proof {
        assert(words(rest0) == seq![t1.take(word_run(t1) as int)] + words(
            t1.skip(word_run(t1) as int),
        ));
        assert(words(line)[1] == t1.take(word_run(t1) as int));
        assert(t1.take(word_run(t1) as int) =~= v@.subrange(a1 as int, b1 as int));
    }
    let code = text.substring_char(a1, b1);
    if str_eq(code, "200") {
        Ok(())
    } else {
        let mut m = String::new();
        push_str(&mut m, "/healthz answered ");
        push_str(&mut m, code);
        Err(m)
    }
}

/// The message for an answer without a status code.
fn no_status_line() -> (s: String)
    ensures
        s@ == "no status line in response"@,
{
    "no status line in response".to_string()
}

/// The leading white-space run stops at a non-white character.
proof fn lemma_white_run_maximal(s: Seq<char>)
    ensures
        white_run(s) < s.len() ==> !is_space(s[white_run(s) as int]),
    decreases s.len(),
{
    if s.len() > 0 && is_space(s[0]) {
        lemma_white_run_maximal(s.drop_first());
    }
}

} // verus!
