//! Character-sequence helpers shared by the grammar, the identifier codec
//! and the canonical-path printers: digit strings, searching, splitting.

use vstd::prelude::*;

verus! {

/// Whether `c` is an ASCII decimal digit.
pub open spec fn is_digit(c: char) -> bool {
    '0' <= c && c <= '9'
}

/// Whether every character of `s` is an ASCII decimal digit.
pub open spec fn all_digits(s: Seq<char>) -> bool {
    forall|i: int| 0 <= i < s.len() ==> #[trigger] is_digit(s[i])
}

/// The numeric value of one digit character.
pub open spec fn digit_value(c: char) -> nat {
    ((c as int) - 48) as nat
}

/// The value of a digit string read in base ten (the empty string is 0).
pub open spec fn digits_value(s: Seq<char>) -> nat
    decreases s.len(),
{
    if s.len() == 0 {
        0
    } else {
        digits_value(s.drop_last()) * 10 + digit_value(s.last())
    }
}

/// The character for a digit value below ten.
pub open spec fn digit_char(d: nat) -> char {
    ((d + 48) as u32) as char
}

/// The shortest base-ten spelling of `n`: no leading zeros, `0` for zero.
pub open spec fn nat_text(n: nat) -> Seq<char>
    decreases n,
{
    if n < 10 {
        seq![digit_char(n)]
    } else {
        nat_text(n / 10).push(digit_char(n % 10))
    }
}

/// Ten to the power `n`.
pub open spec fn pow10(n: nat) -> nat
    decreases n,
{
    if n == 0 {
        1
    } else {
        10 * pow10((n - 1) as nat)
    }
}

/// The index of the first occurrence of `x` in `s`, if any.
pub open spec fn find_first<A>(s: Seq<A>, x: A) -> Option<nat>
    decreases s.len(),
{
    if s.len() == 0 {
        None
    } else if s[0] == x {
        Some(0)
    } else {
        match find_first(s.drop_first(), x) {
            Some(i) => Some(i + 1),
            None => None,
        }
    }
}

/// The index of the last occurrence of `x` in `s`, if any.
pub open spec fn find_last<A>(s: Seq<A>, x: A) -> Option<nat>
    decreases s.len(),
{
    if s.len() == 0 {
        None
    } else if s.last() == x {
        Some((s.len() - 1) as nat)
    } else {
        find_last(s.drop_last(), x)
    }
}

/// `s` cut at every occurrence of `sep`, as `str::split` does: one more
/// piece than there are separators, empty pieces kept.
pub open spec fn split_on<A>(s: Seq<A>, sep: A) -> Seq<Seq<A>>
    decreases s.len(),
{
    match find_first(s, sep) {
        Some(i) => {
            proof {
                lemma_find_first(s, sep);
            }
            seq![s.take(i as int)] + split_on(s.skip(i as int + 1), sep)
        },
        None => seq![s],
    }
}

/// What `find_first` returns: the position of the first occurrence.
pub proof fn lemma_find_first<A>(s: Seq<A>, x: A)
    ensures
        match find_first(s, x) {
            Some(i) => i < s.len() && s[i as int] == x && forall|j: int|
                0 <= j < i ==> s[j] != x,
            None => forall|j: int| 0 <= j < s.len() ==> s[j] != x,
        },
    decreases s.len(),
{
    if s.len() > 0 && s[0] != x {
        lemma_find_first(s.drop_first(), x);
        match find_first(s.drop_first(), x) {
            Some(i) => {
                assert forall|j: int| 0 <= j < i + 1 implies s[j] != x by {
                    if j > 0 {
                        assert(s[j] == s.drop_first()[j - 1]);
                    }
                }
            },
            None => {
                assert forall|j: int| 0 <= j < s.len() implies s[j] != x by {
                    if j > 0 {
                        assert(s[j] == s.drop_first()[j - 1]);
                    }
                }
            },
        }
    }
}

/// What `find_last` returns: the position of the last occurrence.
pub proof fn lemma_find_last<A>(s: Seq<A>, x: A)
    ensures
        match find_last(s, x) {
            Some(i) => i < s.len() && s[i as int] == x && forall|j: int|
                i < j < s.len() ==> s[j] != x,
            None => forall|j: int| 0 <= j < s.len() ==> s[j] != x,
        },
    decreases s.len(),
{
    if s.len() > 0 && s.last() != x {
        lemma_find_last(s.drop_last(), x);
        assert forall|j: int| 0 <= j < s.len() - 1 implies s.drop_last()[j] == s[j] by {}
    }
}

/// A first occurrence, once located, is what `find_first` reports.
pub proof fn lemma_find_first_at<A>(s: Seq<A>, x: A, i: int)
    requires
        0 <= i < s.len(),
        s[i] == x,
        forall|j: int| 0 <= j < i ==> s[j] != x,
    ensures
        find_first(s, x) == Some(i as nat),
    decreases s.len(),
{
    if i > 0 {
        assert forall|j: int| 0 <= j < i - 1 implies s.drop_first()[j] != x by {
            assert(s.drop_first()[j] == s[j + 1]);
        }
        lemma_find_first_at(s.drop_first(), x, i - 1);
    }
}

/// With no occurrence, `find_first` reports none.
pub proof fn lemma_find_first_none<A>(s: Seq<A>, x: A)
    requires
        forall|j: int| 0 <= j < s.len() ==> s[j] != x,
    ensures
        find_first(s, x) is None,
    decreases s.len(),
{
    if s.len() > 0 {
        assert forall|j: int| 0 <= j < s.drop_first().len() implies s.drop_first()[j] != x by {
            assert(s.drop_first()[j] == s[j + 1]);
        }
        lemma_find_first_none(s.drop_first(), x);
    }
}

/// A last occurrence, once located, is what `find_last` reports.
pub proof fn lemma_find_last_at<A>(s: Seq<A>, x: A, i: int)
    requires
        0 <= i < s.len(),
        s[i] == x,
        forall|j: int| i < j < s.len() ==> s[j] != x,
    ensures
        find_last(s, x) == Some(i as nat),
    decreases s.len(),
{
    if i < s.len() - 1 {
        lemma_find_last_at(s.drop_last(), x, i);
    }
}

/// With no occurrence, `find_last` reports none.
pub proof fn lemma_find_last_none<A>(s: Seq<A>, x: A)
    requires
        forall|j: int| 0 <= j < s.len() ==> s[j] != x,
    ensures
        find_last(s, x) is None,
    decreases s.len(),
{
    if s.len() > 0 {
        lemma_find_last_none(s.drop_last(), x);
    }
}

/// Extending a digit string by one digit on the right.
pub proof fn lemma_digits_value_push(s: Seq<char>, c: char)
    ensures
        digits_value(s.push(c)) == digits_value(s) * 10 + digit_value(c),
{
    assert(s.push(c).drop_last() =~= s);
}

/// A digit string is worth at least any of its prefixes.
pub proof fn lemma_digits_value_prefix(s: Seq<char>, k: int)
    requires
        0 <= k <= s.len(),
    ensures
        digits_value(s.take(k)) <= digits_value(s),
    decreases s.len() - k,
{
    if k < s.len() {
        lemma_digits_value_prefix(s, k + 1);
        assert(s.take(k + 1).drop_last() =~= s.take(k));
        assert(digits_value(s.take(k + 1)) == digits_value(s.take(k)) * 10 + digit_value(
            s.take(k + 1).last(),
        ));
    } else {
        assert(s.take(k) =~= s);
    }
}

/// A digit character is a digit and reads back as its value.
pub proof fn lemma_digit_char(d: nat)
    requires
        d < 10,
    ensures
        is_digit(digit_char(d)),
        digit_value(digit_char(d)) == d,
{
    let x = (d + 48) as u32;
    assert(x as int == d + 48);
    assert((x as char) as int == x as int);
}

/// The decimal spelling of `n` is a non-empty digit string worth `n`.
pub proof fn lemma_nat_text(n: nat)
    ensures
        nat_text(n).len() >= 1,
        all_digits(nat_text(n)),
        digits_value(nat_text(n)) == n,
    decreases n,
{
    if n < 10 {
        lemma_digit_char(n);
        assert(seq![digit_char(n)].drop_last() =~= Seq::<char>::empty());
        assert(digits_value(seq![digit_char(n)]) == digits_value(Seq::<char>::empty()) * 10
            + digit_value(digit_char(n)));
    } else {
        lemma_nat_text(n / 10);
        lemma_digit_char(n % 10);
        lemma_digits_value_push(nat_text(n / 10), digit_char(n % 10));
        vstd::arithmetic::div_mod::lemma_fundamental_div_mod(n as int, 10);
        assert forall|i: int| 0 <= i < nat_text(n).len() implies #[trigger] is_digit(nat_text(n)[i]) by {
            if i < nat_text(n / 10).len() {
                assert(nat_text(n)[i] == nat_text(n / 10)[i]);
            }
        }
    }
}

/// A digit string's value, split at any point.
pub proof fn lemma_digits_value_concat(a: Seq<char>, b: Seq<char>)
    ensures
        digits_value(a + b) == digits_value(a) * pow10(b.len()) + digits_value(b),
    decreases b.len(),
{
    if b.len() == 0 {
        assert(a + b =~= a);
        assert(digits_value(b) == 0);
        assert(pow10(0) == 1);
        assert(digits_value(a) * 1 == digits_value(a));
    } else {
        lemma_digits_value_concat(a, b.drop_last());
        assert((a + b).drop_last() =~= a + b.drop_last());
        assert((a + b).last() == b.last());
        assert(digits_value(a + b) == digits_value((a + b).drop_last()) * 10 + digit_value(
            (a + b).last(),
        ));
        assert(digits_value(b) == digits_value(b.drop_last()) * 10 + digit_value(b.last()));
        let p = pow10((b.len() - 1) as nat);
        assert(pow10(b.len()) == 10 * p);
        let va = digits_value(a);
        let vb = digits_value(b.drop_last());
        assert((va * p + vb) * 10 + digit_value(b.last()) == va * (10 * p) + (vb * 10 + digit_value(
            b.last(),
        ))) by (nonlinear_arith);
        assert(digits_value(a + b) == va * pow10(b.len()) + digits_value(b));
    }
}

/// Whether `x` occurs nowhere in `s`.
pub open spec fn lacks<A>(s: Seq<A>, x: A) -> bool {
    forall|i: int| 0 <= i < s.len() ==> s[i] != x
}

/// A sequence without the separator splits into itself alone.
pub proof fn lemma_split_single<A>(a: Seq<A>, c: A)
    requires
        lacks(a, c),
    ensures
        split_on(a, c) == seq![a],
{
    lemma_find_first_none(a, c);
}

/// Splitting `a`, a separator, then `b`, where `a` holds no separator.
pub proof fn lemma_split_join<A>(a: Seq<A>, c: A, b: Seq<A>)
    requires
        lacks(a, c),
    ensures
        split_on(a + seq![c] + b, c) == seq![a] + split_on(b, c),
{
    let s = a + seq![c] + b;
    lemma_find_first_at(s, c, a.len() as int);
    assert(s.take(a.len() as int) =~= a);
    assert(s.skip(a.len() as int + 1) =~= b);
}

/// The last separator of `q`, a separator, then `f`, where `f` holds none.
pub proof fn lemma_find_last_join<A>(q: Seq<A>, c: A, f: Seq<A>)
    requires
        lacks(f, c),
    ensures
        find_last(q + seq![c] + f, c) == Some(q.len()),
{
    let s = q + seq![c] + f;
    assert forall|j: int| q.len() < j < s.len() implies s[j] != c by {
        assert(s[j] == f[j - q.len() - 1]);
    }
    lemma_find_last_at(s, c, q.len() as int);
}

/// A digit string holds none of the non-digit characters.
pub proof fn lemma_digits_lack(s: Seq<char>, c: char)
    requires
        all_digits(s),
        !is_digit(c),
    ensures
        lacks(s, c),
{
    assert forall|i: int| 0 <= i < s.len() implies s[i] != c by {
        assert(is_digit(s[i]));
    }
}

/// Splitting `a`, a separator, then `b`: the pieces of `a` followed by the
/// pieces of `b`.
pub proof fn lemma_split_concat<A>(a: Seq<A>, c: A, b: Seq<A>)
    ensures
        split_on(a + seq![c] + b, c) == split_on(a, c) + split_on(b, c),
    decreases a.len(),
{
    let s = a + seq![c] + b;
    lemma_find_first(a, c);
    match find_first(a, c) {
        None => {
            lemma_split_join(a, c, b);
            lemma_split_single(a, c);
            assert(seq![a] + split_on(b, c) =~= split_on(a, c) + split_on(b, c));
        },
        Some(i) => {
            let i = i as int;
            assert forall|j: int| 0 <= j < i implies s[j] != c by {
                assert(s[j] == a[j]);
            }
            assert(s[i] == a[i]);
            lemma_find_first_at(s, c, i);
            let rest = a.skip(i + 1);
            assert(s.take(i) =~= a.take(i));
            assert(s.skip(i + 1) =~= rest + seq![c] + b);
            lemma_split_concat(rest, c, b);
            assert(split_on(a, c) == seq![a.take(i)] + split_on(rest, c));
            assert(split_on(s, c) =~= split_on(a, c) + split_on(b, c));
        },
    }
}

/// The characters of `s`, for indexed scanning.
pub fn chars_of(s: &str) -> (v: Vec<char>)
    ensures
        v@ == s@,
{
    let n = s.unicode_len();
    let mut v: Vec<char> = Vec::new();
    for i in 0..n
        invariant
            n == s@.len(),
            v@ == s@.subrange(0, i as int),
    {
        v.push(s.get_char(i));
    }
    assert(v@ =~= s@);
    v
}

/// Appends one character (`String::push`).
#[verifier::external_body]
pub fn push_char(s: &mut String, c: char)
    ensures
        final(s)@ == old(s)@.push(c),
{
    s.push(c);
}

/// Appends the shortest base-ten spelling of `n`.
pub fn push_u64(s: &mut String, n: u64)
    ensures
        final(s)@ == old(s)@ + nat_text(n as nat),
    decreases n,
{
    if n >= 10 {
        push_u64(s, n / 10);
    }
    let d: u8 = (n % 10) as u8;
    let c: char = (48u8 + d) as char;
    assert(c == digit_char((n % 10) as nat));
    push_char(s, c);
    assert(s@ =~= old(s)@ + nat_text(n as nat));
}

/// Whether two strings hold the same characters.
pub fn str_eq(a: &str, b: &str) -> (r: bool)
    ensures
        r == (a@ == b@),
{
    let n = a.unicode_len();
    if n != b.unicode_len() {
        return false;
    }
    let mut i: usize = 0;
    while i < n
        invariant
            n == a@.len() == b@.len(),
            i <= n,
            forall|j: int| 0 <= j < i ==> a@[j] == b@[j],
        decreases n - i,
    {
        if a.get_char(i) != b.get_char(i) {
            return false;
        }
        i += 1;
    }
    assert(a@ =~= b@);
    true
}

} // verus!
