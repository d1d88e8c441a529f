use vstd::prelude::*;

verus! {

/// `String::push`: appends one character to the string.
#[verifier::external_body]
pub(crate) fn push_char(s: &mut String, c: char)
    ensures
        final(s)@ == old(s)@.push(c),
{
    s.push(c)
}

/// The characters of `s`, in order.
pub(crate) fn chars_of(s: &str) -> (r: Vec<char>)
    ensures
        r@ == s@,
{
    let mut out: Vec<char> = Vec::new();
    for c in it: s.chars()
        invariant
            it.seq() == s@,
            out@ == s@.take(it.index() as int),
    {
        proof {
            assert(s@.take(it.index() + 1) == s@.take(it.index() as int).push(c));
        }
        out.push(c);
    }
    proof {
        assert(s@.take(s@.len() as int) == s@);
    }
    out
}

/// The string made of the characters of `v`, in order.
pub(crate) fn string_of(v: &[char]) -> (r: String)
    ensures
        r@ == v@,
{
    let mut out = String::new();
    let mut i: usize = 0;
    while i < v.len()
        invariant
            i <= v@.len(),
            out@ == v@.take(i as int),
        decreases v@.len() - i,
    {
        proof {
            assert(v@.take(i + 1) == v@.take(i as int).push(v@[i as int]));
        }
        push_char(&mut out, v[i]);
        i = i + 1;
    }
    proof {
        assert(v@.take(v@.len() as int) == v@);
    }
    out
}

/// The characters with the Unicode `White_Space` property.
pub open spec fn spec_is_whitespace(c: char) -> bool {
    ('\u{0009}' <= c <= '\u{000D}') || c == '\u{0020}' || c == '\u{0085}' || c == '\u{00A0}' || c
        == '\u{1680}' || ('\u{2000}' <= c <= '\u{200A}') || c == '\u{2028}' || c == '\u{2029}' || c
        == '\u{202F}' || c == '\u{205F}' || c == '\u{3000}'
}

/// Whether `c` has the Unicode `White_Space` property, as `char::is_whitespace` decides.
fn is_whitespace(c: char) -> (r: bool)
    ensures
        r == spec_is_whitespace(c),
{
    ('\u{0009}' <= c && c <= '\u{000D}') || c == '\u{0020}' || c == '\u{0085}' || c == '\u{00A0}'
        || c == '\u{1680}' || ('\u{2000}' <= c && c <= '\u{200A}') || c == '\u{2028}' || c
        == '\u{2029}' || c == '\u{202F}' || c == '\u{205F}' || c == '\u{3000}'
}

/// `s` without its leading characters that satisfy `p`.
pub open spec fn trim_start_by(s: Seq<char>, p: spec_fn(char) -> bool) -> Seq<char>
    decreases s.len(),
{
    if s.len() > 0 && p(s[0]) {
        trim_start_by(s.drop_first(), p)
    } else {
        s
    }
}

/// `s` without its trailing characters that satisfy `p`.
pub open spec fn trim_end_by(s: Seq<char>, p: spec_fn(char) -> bool) -> Seq<char>
    decreases s.len(),
{
    if s.len() > 0 && p(s.last()) {
        trim_end_by(s.drop_last(), p)
    } else {
        s
    }
}

/// `s` without its leading and trailing characters that satisfy `p`, as `str::trim`
/// (for whitespace) and `str::trim_matches` (for one character) do.
pub open spec fn trim_by(s: Seq<char>, p: spec_fn(char) -> bool) -> Seq<char> {
    trim_end_by(trim_start_by(s, p), p)
}

pub open spec fn whitespace_pred() -> spec_fn(char) -> bool {
    |c: char| spec_is_whitespace(c)
}

pub open spec fn char_pred(ch: char) -> spec_fn(char) -> bool {
    |c: char| c == ch
}

pub open spec fn trim_whitespace(s: Seq<char>) -> Seq<char> {
    trim_by(s, whitespace_pred())
}

pub open spec fn trim_char(s: Seq<char>, ch: char) -> Seq<char> {
    trim_by(s, char_pred(ch))
}

/// A token with the whitespace around it and then its enclosing single and double
/// quotes removed.
pub open spec fn clean_token(s: Seq<char>) -> Seq<char> {
    trim_char(trim_char(trim_whitespace(s), '\''), '"')
}

proof fn lemma_trim_start_skip(s: Seq<char>, p: spec_fn(char) -> bool, i: int)
    requires
        0 <= i <= s.len(),
        forall|j: int| 0 <= j < i ==> p(#[trigger] s[j]),
    ensures
        trim_start_by(s, p) == trim_start_by(s.skip(i), p),
    decreases i,
{
    if i > 0 {
        assert(s.drop_first().skip(i - 1) == s.skip(i));
        lemma_trim_start_skip(s.drop_first(), p, i - 1);
    } else {
        assert(s.skip(0) == s);
    }
}

proof fn lemma_trim_end_take(s: Seq<char>, p: spec_fn(char) -> bool, i: int)
    requires
        0 <= i <= s.len(),
        forall|j: int| i <= j < s.len() ==> p(#[trigger] s[j]),
    ensures
        trim_end_by(s, p) == trim_end_by(s.take(i), p),
    decreases s.len() - i,
{
    if i < s.len() {
        assert(s.drop_last().take(i) == s.take(i));
        lemma_trim_end_take(s.drop_last(), p, i);
    } else {
        assert(s.take(i) == s);
    }
}

/// Which characters a trim removes: whitespace, or one given character.
enum TrimSet {
    Whitespace,
    Only(char),
}

spec fn trim_set_pred(set: TrimSet) -> spec_fn(char) -> bool {
    match set {
        TrimSet::Whitespace => whitespace_pred(),
        TrimSet::Only(ch) => char_pred(ch),
    }
}

fn in_trim_set(set: &TrimSet, c: char) -> (r: bool)
    ensures
        r == (trim_set_pred(*set))(c),
{
    match set {
        TrimSet::Whitespace => is_whitespace(c),
        TrimSet::Only(ch) => c == *ch,
    }
}

fn trim_vec(v: &[char], set: TrimSet) -> (r: Vec<char>)
    ensures
        r@ == trim_by(v@, trim_set_pred(set)),
{
    let ghost p = trim_set_pred(set);
    let mut start: usize = 0;
    while start < v.len() && in_trim_set(&set, v[start])
        invariant
            start <= v@.len(),
            p == trim_set_pred(set),
            forall|j: int| 0 <= j < start ==> p(#[trigger] v@[j]),
        decreases v@.len() - start,
    {
        start = start + 1;
    }
    let mut end: usize = v.len();
    while end > start && in_trim_set(&set, v[end - 1])
        invariant
            start <= end <= v@.len(),
            p == trim_set_pred(set),
            forall|j: int| end <= j < v@.len() ==> p(#[trigger] v@[j]),
        decreases end,
    {
        end = end - 1;
    }
    let mut out: Vec<char> = Vec::new();
    let mut i: usize = start;
    while i < end
        invariant
            start <= i <= end,
            end <= v@.len(),
            out@ == v@.subrange(start as int, i as int),
        decreases end - i,
    {
        out.push(v[i]);
        i = i + 1;
        proof {
            assert(out@ == v@.subrange(start as int, i as int));
        }
    }
    proof {
        lemma_trim_start_skip(v@, p, start as int);
        let rest = v@.skip(start as int);
        if start < v@.len() {
            assert(!p(rest[0]));
        }
        assert(trim_start_by(rest, p) == rest);
        let k = end - start;
        assert forall|j: int| k <= j < rest.len() implies p(#[trigger] rest[j]) by {
            assert(rest[j] == v@[j + start]);
        }
        lemma_trim_end_take(rest, p, k as int);
        let kept = rest.take(k as int);
        if k > 0 {
            assert(kept.last() == v@[end - 1]);
        }
        assert(trim_end_by(kept, p) == kept);
        assert(kept == v@.subrange(start as int, end as int));
    }
    out
}

/// `v` with whitespace, then single quotes, then double quotes trimmed from both ends.
pub(crate) fn clean_chars(v: &[char]) -> (r: Vec<char>)
    ensures
        r@ == clean_token(v@),
{
    let a = trim_vec(v, TrimSet::Whitespace);
    let b = trim_vec(a.as_slice(), TrimSet::Only('\''));
    let c = trim_vec(b.as_slice(), TrimSet::Only('"'));
    c
}

/// The pieces of `s` between the characters that satisfy `sep`, as `str::split` gives
/// them: one more piece than there are separators, empty pieces included.
pub open spec fn split_by(s: Seq<char>, sep: spec_fn(char) -> bool) -> Seq<Seq<char>>
    decreases s.len(),
{
    if s.len() == 0 {
        seq![Seq::empty()]
    } else {
        let prev = split_by(s.drop_last(), sep);
        if sep(s.last()) {
            prev.push(Seq::empty())
        } else {
            prev.update(prev.len() - 1, prev.last().push(s.last()))
        }
    }
}

pub proof fn lemma_split_nonempty(s: Seq<char>, sep: spec_fn(char) -> bool)
    ensures
        split_by(s, sep).len() >= 1,
    decreases s.len(),
{
    if s.len() > 0 {
        lemma_split_nonempty(s.drop_last(), sep);
    }
}

} // verus!
