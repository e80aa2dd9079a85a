//! Character-level text helpers over `Seq<char>` views.
use vstd::prelude::*;

verus! {

/// Whether `c` has the Unicode `White_Space` property, which `char::is_whitespace`
/// tests: tab to carriage return, space, next line, no-break space, ogham
/// space mark, the spaces from en quad to hair space, line and paragraph
/// separators, narrow no-break space, medium mathematical space and
/// ideographic space.
pub open spec fn char_is_whitespace(c: char) -> bool {
    ||| '\u{9}' <= c && c <= '\u{D}'
    ||| c == ' '
    ||| c == '\u{85}'
    ||| c == '\u{A0}'
    ||| c == '\u{1680}'
    ||| '\u{2000}' <= c && c <= '\u{200A}'
    ||| c == '\u{2028}'
    ||| c == '\u{2029}'
    ||| c == '\u{202F}'
    ||| c == '\u{205F}'
    ||| c == '\u{3000}'
}

/// Whether `c` is whitespace, as `char::is_whitespace` decides.
pub fn is_whitespace(c: char) -> (b: bool)
    ensures
        b == char_is_whitespace(c),
{
    ('\u{9}' <= c && c <= '\u{D}') || c == ' ' || c == '\u{85}' || c == '\u{A0}' || c == '\u{1680}'
        || ('\u{2000}' <= c && c <= '\u{200A}') || c == '\u{2028}' || c == '\u{2029}' || c == '\u{202F}'
        || c == '\u{205F}' || c == '\u{3000}'
}

/// `s` with leading whitespace removed.
pub open spec fn trim_start_spec(s: Seq<char>) -> Seq<char>
    decreases s.len(),
{
    if s.len() > 0 && char_is_whitespace(s[0]) {
        trim_start_spec(s.drop_first())
    } else {
        s
    }
}

/// `s` with trailing whitespace removed.
pub open spec fn trim_end_spec(s: Seq<char>) -> Seq<char>
    decreases s.len(),
{
    if s.len() > 0 && char_is_whitespace(s.last()) {
        trim_end_spec(s.drop_last())
    } else {
        s
    }
}

/// `s` with leading and trailing whitespace removed, as `str::trim` does.
pub open spec fn trim_spec(s: Seq<char>) -> Seq<char> {
    trim_end_spec(trim_start_spec(s))
}

} // verus!

verus! {

/// The characters of `s`, in order.
pub fn chars_of(s: &str) -> (v: Vec<char>)
    ensures
        v@ == s@,
{
    let mut v: Vec<char> = Vec::new();
    for c in it: s.chars()
        invariant
            v@ == it.seq().take(it.index() as int),
    {
        v.push(c);
    }
    v
}

} // verus!

verus! {

/// Calls `String::push`, which appends one character.
#[verifier::external_body]
pub(crate) fn push_char(s: &mut String, c: char)
    ensures
        final(s)@ == old(s)@.push(c),
{
    s.push(c);
}

/// A `String` holding exactly the characters `chars`.
pub fn string_from_chars(chars: &[char]) -> (s: String)
    ensures
        s@ == chars@,
{
    let mut s = String::new();
    let mut i: usize = 0;
    while i < chars.len()
        invariant
            i <= chars@.len(),
            s@ == chars@.take(i as int),
        decreases chars@.len() - i,
    {
        push_char(&mut s, chars[i]);
        assert(chars@.take(i + 1) =~= chars@.take(i as int).push(chars@[i as int]));
        i = i + 1;
    }
    assert(chars@.take(chars@.len() as int) =~= chars@);
    s
}

proof fn lemma_trim_start_skips(s: Seq<char>, i: int)
    requires
        0 <= i <= s.len(),
        forall|j: int| 0 <= j < i ==> char_is_whitespace(#[trigger] s[j]),
    ensures
        trim_start_spec(s) == trim_start_spec(s.subrange(i, s.len() as int)),
    decreases i,
{
    if i > 0 {
        assert(char_is_whitespace(s[0]));
        let t = s.drop_first();
        assert forall|j: int| 0 <= j < i - 1 implies char_is_whitespace(#[trigger] t[j]) by {
            assert(t[j] == s[j + 1]);
        }
        lemma_trim_start_skips(t, i - 1);
        assert(t.subrange(i - 1, t.len() as int) =~= s.subrange(i, s.len() as int));
    } else {
        assert(s.subrange(0, s.len() as int) =~= s);
    }
}

proof fn lemma_trim_end_skips(s: Seq<char>, k: int)
    requires
        0 <= k <= s.len(),
        forall|j: int| k <= j < s.len() ==> char_is_whitespace(#[trigger] s[j]),
    ensures
        trim_end_spec(s) == trim_end_spec(s.subrange(0, k)),
    decreases s.len() - k,
{
    if k < s.len() {
        assert(char_is_whitespace(s.last()));
        let t = s.drop_last();
        assert forall|j: int| k <= j < t.len() implies char_is_whitespace(#[trigger] t[j]) by {
            assert(t[j] == s[j]);
        }
        lemma_trim_end_skips(t, k);
        assert(t.subrange(0, k) =~= s.subrange(0, k));
    } else {
        assert(s.subrange(0, k) =~= s);
    }
}

/// `chars` with leading and trailing whitespace removed, as `str::trim` does.
pub fn trim_chars(chars: &[char]) -> (t: Vec<char>)
    ensures
        t@ == trim_spec(chars@),
{
    let ghost s = chars@;
    let mut start: usize = 0;
    while start < chars.len() && is_whitespace(chars[start])
        invariant
            start <= s.len(),
            s == chars@,
            forall|j: int| 0 <= j < start ==> char_is_whitespace(#[trigger] s[j]),
        decreases s.len() - start,
    {
        start = start + 1;
    }
    proof {
        lemma_trim_start_skips(s, start as int);
    }
    let ghost rest = s.subrange(start as int, s.len() as int);
    assert(rest.len() == 0 || !char_is_whitespace(rest[0]));
    assert(trim_start_spec(rest) == rest);
    let mut end: usize = chars.len();
    while end > start && is_whitespace(chars[end - 1])
        invariant
            start <= end <= s.len(),
            s == chars@,
            rest == s.subrange(start as int, s.len() as int),
            forall|j: int| end - start <= j < rest.len() ==> char_is_whitespace(#[trigger] rest[j]),
        decreases end,
    {
        assert(rest[end - 1 - start] == s[end - 1]);
        end = end - 1;
    }
    proof {
        lemma_trim_end_skips(rest, end - start);
        let r2 = rest.subrange(0, end - start);
        assert(r2.len() == 0 || r2.last() == s[end - 1]);
        assert(trim_end_spec(r2) == r2);
    }
    let mut t: Vec<char> = Vec::new();
    let mut i: usize = start;
    while i < end
        invariant
            start <= i <= end <= s.len(),
            s == chars@,
            t@ == s.subrange(start as int, i as int),
        decreases end - i,
    {
        t.push(chars[i]);
        assert(s.subrange(start as int, i + 1) =~= s.subrange(start as int, i as int).push(s[i as int]));
        i = i + 1;
    }
    assert(rest.subrange(0, end - start) =~= s.subrange(start as int, end as int));
    t
}

} // verus!

verus! {

/// Whether two texts hold the same characters.
pub fn same_text(a: &str, b: &str) -> (r: bool)
    ensures
        r == (a@ == b@),
{
    let x = chars_of(a);
    let y = chars_of(b);
    if x.len() != y.len() {
        return false;
    }
    let mut i: usize = 0;
    while i < x.len()
        invariant
            x@ == a@,
            y@ == b@,
            x@.len() == y@.len(),
            i <= x@.len(),
            forall|j: int| 0 <= j < i ==> x@[j] == y@[j],
        decreases x@.len() - i,
    {
        if x[i] != y[i] {
            return false;
        }
        i = i + 1;
    }
    assert(x@ =~= y@);
    true
}

/// `a` followed by `b`.
pub fn joined(a: &str, b: &str) -> (s: String)
    ensures
        s@ == a@ + b@,
{
    let mut v = chars_of(a);
    let w = chars_of(b);
    let mut i: usize = 0;
    let ghost start = v@;
    while i < w.len()
        invariant
            start == a@,
            w@ == b@,
            i <= w@.len(),
            v@ == start + w@.take(i as int),
        decreases w@.len() - i,
    {
        v.push(w[i]);
        assert(w@.take(i + 1) =~= w@.take(i as int).push(w@[i as int]));
        i = i + 1;
    }
    assert(w@.take(w@.len() as int) =~= w@);
    string_from_chars(&v)
}

} // verus!

verus! {

/// `s` without leading and trailing whitespace, as `str::trim` gives it.
pub fn trim(s: &str) -> (t: String)
    ensures
        t@ == trim_spec(s@),
{
    let chars = chars_of(s);
    let trimmed = trim_chars(&chars);
    string_from_chars(&trimmed)
}

} // verus!

verus! {

/// Whether cutting `s` before position `a` and from position `b` on removes
/// only whitespace and leaves no whitespace at either end.
pub open spec fn trimmed_at(s: Seq<char>, a: int, b: int) -> bool {
    &&& 0 <= a <= b <= s.len()
    &&& forall|i: int| 0 <= i < a ==> char_is_whitespace(#[trigger] s[i])
    &&& forall|i: int| b <= i < s.len() ==> char_is_whitespace(#[trigger] s[i])
    &&& a < b ==> !char_is_whitespace(s[a]) && !char_is_whitespace(s[b - 1])
}

proof fn lemma_trim_start_cut(s: Seq<char>) -> (a: int)
    ensures
        0 <= a <= s.len(),
        trim_start_spec(s) == s.subrange(a, s.len() as int),
        forall|i: int| 0 <= i < a ==> char_is_whitespace(#[trigger] s[i]),
        a < s.len() ==> !char_is_whitespace(s[a]),
    decreases s.len(),
{
    if s.len() > 0 && char_is_whitespace(s[0]) {
        let a0 = lemma_trim_start_cut(s.drop_first());
        assert(s.drop_first().subrange(a0, s.drop_first().len() as int) =~= s.subrange(a0 + 1, s.len() as int));
        assert forall|i: int| 0 <= i < a0 + 1 implies char_is_whitespace(#[trigger] s[i]) by {
            if i > 0 {
                assert(s[i] == s.drop_first()[i - 1]);
            }
        }
        a0 + 1
    } else {
        assert(s.subrange(0, s.len() as int) =~= s);
        0
    }
}

proof fn lemma_trim_end_cut(s: Seq<char>) -> (b: int)
    ensures
        0 <= b <= s.len(),
        trim_end_spec(s) == s.subrange(0, b),
        forall|i: int| b <= i < s.len() ==> char_is_whitespace(#[trigger] s[i]),
        b > 0 ==> !char_is_whitespace(s[b - 1]),
    decreases s.len(),
{
    if s.len() > 0 && char_is_whitespace(s.last()) {
        let b0 = lemma_trim_end_cut(s.drop_last());
        assert(s.drop_last().subrange(0, b0) =~= s.subrange(0, b0));
        assert forall|i: int| b0 <= i < s.len() implies char_is_whitespace(#[trigger] s[i]) by {
            if i < s.len() - 1 {
                assert(s[i] == s.drop_last()[i]);
            }
        }
        b0
    } else {
        assert(s.subrange(0, s.len() as int) =~= s);
        s.len() as int
    }
}

/// Trimming removes whitespace, and only whitespace, from both ends: the
/// result is one stretch of the text, everything cut away before and after
/// it is whitespace, and it neither begins nor ends with whitespace.
pub proof fn lemma_trim(s: Seq<char>)
    ensures
        exists|a: int, b: int| trimmed_at(s, a, b) && #[trigger] s.subrange(a, b) == trim_spec(s),
{
    let a = lemma_trim_start_cut(s);
    let rest = s.subrange(a, s.len() as int);
    let b0 = lemma_trim_end_cut(rest);
    assert(rest.subrange(0, b0) =~= s.subrange(a, a + b0));
    assert forall|i: int| a + b0 <= i < s.len() implies char_is_whitespace(#[trigger] s[i]) by {
        assert(s[i] == rest[i - a]);
    }
    if b0 > 0 {
        assert(s[a + b0 - 1] == rest[b0 - 1]);
        assert(s[a] == rest[0]);
    }
    assert(trimmed_at(s, a, a + b0));
}

} // verus!
