//! Text as sequences of characters: trimming, case folding, sanitising,
//! ordering and substring search.

use vstd::prelude::*;

verus! {

/// Whether `c` has the Unicode property `White_Space`, as `char::is_whitespace`
/// decides it.
pub uninterp spec fn is_white_space(c: char) -> bool;

/// The lower-case form of a text, as `str::to_lowercase` gives it.
pub uninterp spec fn lowercased(s: Seq<char>) -> Seq<char>;

/// The upper-case form of one character, as `char::to_uppercase` gives it. It
/// may hold more than one character.
pub uninterp spec fn uppercased(c: char) -> Seq<char>;

/// What `ammonia::clean` leaves of a text with its default settings.
pub uninterp spec fn sanitized(s: Seq<char>) -> Seq<char>;

/// `std`'s `String::push` appends one character.
pub assume_specification[ String::push ](s: &mut String, c: char)
    ensures
        final(s)@ == old(s)@.push(c),
;

/// Calls `char::is_whitespace`; the result is given the name
/// [`is_white_space`].
#[verifier::external_body]
pub(crate) fn char_is_whitespace(c: char) -> (b: bool)
    ensures
        b == is_white_space(c),
{
    c.is_whitespace()
}

/// Calls `str::to_lowercase`; the result is given the name [`lowercased`].
#[verifier::external_body]
pub(crate) fn to_lowercase(s: &str) -> (r: String)
    ensures
        r@ == lowercased(s@),
{
    s.to_lowercase()
}

/// Calls `char::to_uppercase` and collects what it yields; the result is
/// given the name [`uppercased`].
#[verifier::external_body]
pub(crate) fn to_uppercase(c: char) -> (r: String)
    ensures
        r@ == uppercased(c),
{
    c.to_uppercase().to_string()
}

/// Calls `ammonia::clean`, which parses `s` as an HTML fragment and writes
/// it back with only the elements and attributes that its default settings
/// allow; the result is given the name [`sanitized`].
#[verifier::external_body]
pub(crate) fn clean(s: &str) -> (r: String)
    ensures
        r@ == sanitized(s@),
{
    ammonia::clean(s)
}

/// The characters of `s`.
pub fn chars_of(s: &str) -> (v: Vec<char>)
    ensures
        v@ == s@,
{
    let mut v: Vec<char> = Vec::new();
    for c in it: s.chars()
        invariant
            it.seq() == s@,
            v@ == it.seq().take(it.index() as int),
    {
        v.push(c);
    }
    v
}

/// `s` without its leading white space.
pub open spec fn trim_start(s: Seq<char>) -> Seq<char>
    decreases s.len(),
{
    if s.len() > 0 && is_white_space(s.first()) {
        trim_start(s.drop_first())
    } else {
        s
    }
}

/// `s` without its trailing white space.
pub open spec fn trim_end(s: Seq<char>) -> Seq<char>
    decreases s.len(),
{
    if s.len() > 0 && is_white_space(s.last()) {
        trim_end(s.drop_last())
    } else {
        s
    }
}

/// `s` without its leading and trailing white space.
pub open spec fn trimmed(s: Seq<char>) -> Seq<char> {
    trim_end(trim_start(s))
}

/// Whether `s` holds nothing but white space.
pub open spec fn is_blank(s: Seq<char>) -> bool {
    trimmed(s).len() == 0
}

/// Whether `a` comes before `b` in the lexicographic order of their
/// characters' code points: the order of `str`.
pub open spec fn lex_lt(a: Seq<char>, b: Seq<char>) -> bool
    decreases a.len(),
{
    if b.len() == 0 {
        false
    } else if a.len() == 0 {
        true
    } else if a.first() != b.first() {
        (a.first() as int) < (b.first() as int)
    } else {
        lex_lt(a.drop_first(), b.drop_first())
    }
}

/// Whether `needle` stands in `hay` at index `i`.
pub open spec fn occurs_at(needle: Seq<char>, hay: Seq<char>, i: int) -> bool {
    &&& 0 <= i
    &&& i + needle.len() <= hay.len()
    &&& hay.subrange(i, i + needle.len()) == needle
}

/// Whether `needle` is a contiguous part of `hay`.
pub open spec fn is_infix(needle: Seq<char>, hay: Seq<char>) -> bool {
    exists|i: int| occurs_at(needle, hay, i)
}

proof fn lemma_trim_start_skip(s: Seq<char>, n: int)
    requires
        0 <= n <= s.len(),
        forall|k: int| 0 <= k < n ==> is_white_space(#[trigger] s[k]),
    ensures
        trim_start(s) == trim_start(s.skip(n)),
    decreases n,
{
    if n > 0 {
        assert(s.drop_first().skip(n - 1) == s.skip(n));
        lemma_trim_start_skip(s.drop_first(), n - 1);
    } else {
        assert(s.skip(0) == s);
    }
}

proof fn lemma_trim_end_take(s: Seq<char>, n: int)
    requires
        0 <= n <= s.len(),
        forall|k: int| n <= k < s.len() ==> is_white_space(#[trigger] s[k]),
    ensures
        trim_end(s) == trim_end(s.take(n)),
    decreases s.len() - n,
{
    if n < s.len() {
        assert(s.drop_last().take(n) == s.take(n));
        lemma_trim_end_take(s.drop_last(), n);
    } else {
        assert(s.take(n) == s);
    }
}

/// `s` without its leading and trailing white space, as `str::trim` gives it.
pub fn trim(s: &str) -> (r: String)
    ensures
        r@ == trimmed(s@),
{
    let v = chars_of(s);
    let mut a: usize = 0;
    while a < v.len() && char_is_whitespace(v[a])
        invariant
            a <= v.len(),
            forall|k: int| 0 <= k < a ==> is_white_space(#[trigger] v@[k]),
        decreases v.len() - a,
    {
        a += 1;
    }
    let mut b: usize = v.len();
    while b > a && char_is_whitespace(v[b - 1])
        invariant
            a <= b <= v.len(),
            forall|k: int| b <= k < v.len() ==> is_white_space(#[trigger] v@[k]),
        decreases b,
    {
        b -= 1;
    }
    let mut r = String::new();
    let mut i: usize = a;
    while i < b
        invariant
            a <= i <= b <= v.len(),
            r@ == v@.subrange(a as int, i as int),
        decreases b - i,
    {
        r.push(v[i]);
        i += 1;
    }
    proof {
        let rest = v@.skip(a as int);
        lemma_trim_start_skip(v@, a as int);
        assert(trim_start(rest) == rest);
        let n = b - a;
        assert forall|k: int| n <= k < rest.len() implies is_white_space(#[trigger] rest[k]) by {
            assert(rest[k] == v@[a + k]);
        }
        lemma_trim_end_take(rest, n);
        assert(rest.take(n) == v@.subrange(a as int, b as int));
        assert(trim_end(rest.take(n)) == rest.take(n)) by {
            if n > 0 {
                assert(rest.take(n).last() == v@[b - 1]);
            }
        }
    }
    r
}

proof fn lemma_lex_lt_skip(a: Seq<char>, b: Seq<char>, n: int)
    requires
        0 <= n <= a.len(),
        n <= b.len(),
        a.take(n) == b.take(n),
    ensures
        lex_lt(a, b) == lex_lt(a.skip(n), b.skip(n)),
    decreases n,
{
    if n > 0 {
        assert(a.first() == a.take(n)[0]);
        assert(b.first() == b.take(n)[0]);
        assert(a.drop_first().take(n - 1) == a.take(n).drop_first());
        assert(b.drop_first().take(n - 1) == b.take(n).drop_first());
        assert(a.drop_first().skip(n - 1) == a.skip(n));
        assert(b.drop_first().skip(n - 1) == b.skip(n));
        lemma_lex_lt_skip(a.drop_first(), b.drop_first(), n - 1);
    } else {
        assert(a.skip(0) == a);
        assert(b.skip(0) == b);
    }
}

/// No text comes before itself.
pub proof fn lemma_lex_irreflexive(a: Seq<char>)
    ensures
        !lex_lt(a, a),
    decreases a.len(),
{
    if a.len() > 0 {
        lemma_lex_irreflexive(a.drop_first());
    }
}

/// The order of texts is transitive.
pub proof fn lemma_lex_transitive(a: Seq<char>, b: Seq<char>, c: Seq<char>)
    requires
        lex_lt(a, b),
        lex_lt(b, c),
    ensures
        lex_lt(a, c),
    decreases a.len(),
{
    if a.len() > 0 && b.len() > 0 && c.len() > 0 {
        if a.first() == b.first() && b.first() == c.first() {
            lemma_lex_transitive(a.drop_first(), b.drop_first(), c.drop_first());
        }
    }
}

/// Of two different texts one comes before the other.
pub proof fn lemma_lex_connected(a: Seq<char>, b: Seq<char>)
    ensures
        a == b || lex_lt(a, b) || lex_lt(b, a),
    decreases a.len(),
{
    if a.len() > 0 && b.len() > 0 {
        if a.first() == b.first() {
            lemma_lex_connected(a.drop_first(), b.drop_first());
            if a.drop_first() == b.drop_first() {
                assert(a =~= seq![a.first()] + a.drop_first());
                assert(b =~= seq![b.first()] + b.drop_first());
            }
        }
    } else if a.len() == 0 && b.len() == 0 {
        assert(a =~= b);
    }
}

/// Calls `validator`'s `ValidateLength::validate_length` on a text with a
/// lower and an upper bound. The crate counts the text's characters and
/// accepts a count within the two bounds, both included.
#[verifier::external_body]
pub(crate) fn length_between(s: &str, min: u64, max: u64) -> (ok: bool)
    ensures
        ok == (min <= s@.len() <= max),
{
    validator::ValidateLength::validate_length(s, Some(min), Some(max), None)
}

proof fn lemma_char_code(c: char)
    ensures
        (c as u32) as int == c as int,
{
}

/// Whether `a` comes before `b` in the order of `str`.
pub fn text_lt(a: &Vec<char>, b: &Vec<char>) -> (r: bool)
    ensures
        r == lex_lt(a@, b@),
{
    let mut i: usize = 0;
    while i < a.len() && i < b.len() && a[i] == b[i]
        invariant
            i <= a.len(),
            i <= b.len(),
            a@.take(i as int) == b@.take(i as int),
        decreases a.len() - i,
    {
        assert(a@.take(i + 1) == a@.take(i as int).push(a@[i as int]));
        assert(b@.take(i + 1) == b@.take(i as int).push(b@[i as int]));
        i += 1;
    }
    proof {
        lemma_lex_lt_skip(a@, b@, i as int);
    }
    if i >= b.len() {
        false
    } else if i >= a.len() {
        true
    } else {
        assert(a@.skip(i as int).first() == a@[i as int]);
        assert(b@.skip(i as int).first() == b@[i as int]);
        let x: char = a[i];
        let y: char = b[i];
        proof {
            lemma_char_code(x);
            lemma_char_code(y);
        }
        (x as u32) < (y as u32)
    }
}

/// Whether `needle` is a contiguous part of `hay`.
pub fn contains(hay: &Vec<char>, needle: &Vec<char>) -> (r: bool)
    ensures
        r == is_infix(needle@, hay@),
{
    if needle.len() > hay.len() {
        return false;
    }
    let last: usize = hay.len() - needle.len();
    let mut i: usize = 0;
    while i <= last
        invariant
            needle.len() <= hay.len(),
            last == hay.len() - needle.len(),
            i <= last + 1,
            forall|k: int| 0 <= k < i ==> !occurs_at(needle@, hay@, k),
        decreases last + 1 - i,
    {
        let mut j: usize = 0;
        while j < needle.len() && hay[i + j] == needle[j]
            invariant
                i <= last,
                last == hay.len() - needle.len(),
                j <= needle.len(),
                hay@.subrange(i as int, i + j) == needle@.take(j as int),
            decreases needle.len() - j,
        {
            assert(hay@.subrange(i as int, i + j + 1) == hay@.subrange(i as int, i + j).push(
                hay@[i + j],
            ));
            assert(needle@.take(j + 1) == needle@.take(j as int).push(needle@[j as int]));
            j += 1;
        }
        if j == needle.len() {
            assert(needle@.take(j as int) == needle@);
            assert(occurs_at(needle@, hay@, i as int));
            return true;
        }
        assert(!occurs_at(needle@, hay@, i as int)) by {
            if occurs_at(needle@, hay@, i as int) {
                assert(hay@.subrange(i as int, i + needle@.len())[j as int] == needle@[j as int]);
            }
        }
        i += 1;
    }
    false
}

} // verus!
