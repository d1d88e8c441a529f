use vstd::prelude::*;

use crate::text::push_char;

verus! {

pub open spec fn spec_normalize_char(c: char) -> char {
    if c == '\u{0643}' {
        '\u{06A9}'
    } else if c == '\u{064A}' || c == '\u{0649}' {
        '\u{06CC}'
    } else if c == '\u{0629}' {
        '\u{0647}'
    } else if c == '\u{0622}' || c == '\u{0623}' || c == '\u{0625}' {
        '\u{0627}'
    } else {
        c
    }
}

/// Folds the Arabic forms of five letters onto their Persian forms: Kaf (U+0643) to
/// Keheh (U+06A9), Yeh (U+064A) and Alef Maksura (U+0649) to Farsi Yeh (U+06CC), Teh
/// Marbuta (U+0629) to Heh (U+0647), and Alef with Madda, Hamza above or Hamza below
/// (U+0622, U+0623, U+0625) to Alef (U+0627). Every other character is kept.
pub fn normalize_persian_char(c: char) -> (r: char)
    ensures
        r == spec_normalize_char(c),
        c == '\u{0643}' ==> r == '\u{06A9}',
        c == '\u{064A}' ==> r == '\u{06CC}',
        c == '\u{0649}' ==> r == '\u{06CC}',
        c == '\u{0629}' ==> r == '\u{0647}',
        c == '\u{0622}' ==> r == '\u{0627}',
        c == '\u{0623}' ==> r == '\u{0627}',
        c == '\u{0625}' ==> r == '\u{0627}',
        !is_folded_form(c) ==> r == c,
{
    match c {
        '\u{0643}' => '\u{06A9}',
        '\u{064A}' | '\u{0649}' => '\u{06CC}',
        '\u{0629}' => '\u{0647}',
        '\u{0622}' | '\u{0623}' | '\u{0625}' => '\u{0627}',
        _ => c,
    }
}

pub fn normalize_persian_str(s: &str) -> (r: String)
    ensures
        r@ == spec_normalize_str(s@),
{
    let mut out = String::new();
    for c in it: s.chars()
        invariant
            it.seq() == s@,
            out@ == s@.take(it.index() as int).map_values(|c: char| spec_normalize_char(c)),
    {
        proof {
            assert(s@.take(it.index() + 1) == s@.take(it.index() as int).push(c));
        }
        push_char(&mut out, normalize_persian_char(c));
    }
    proof {
        assert(s@.take(s@.len() as int) == s@);
    }
    out
}

/// The letters of the Persian alphabet (and hamza), in their Persian forms.
pub open spec fn spec_is_persian_form(c: char) -> bool {
    c == '\u{0622}' || c == '\u{0627}' || c == '\u{0628}' || c == '\u{067E}' || c == '\u{062A}'
        || c == '\u{062B}' || c == '\u{062C}' || c == '\u{0686}' || c == '\u{062D}' || c
        == '\u{062E}' || c == '\u{062F}' || c == '\u{0630}' || c == '\u{0631}' || c == '\u{0632}'
        || c == '\u{0698}' || c == '\u{0633}' || c == '\u{0634}' || c == '\u{0635}' || c
        == '\u{0636}' || c == '\u{0637}' || c == '\u{0638}' || c == '\u{0639}' || c == '\u{063A}'
        || c == '\u{0641}' || c == '\u{0642}' || c == '\u{06A9}' || c == '\u{06AF}' || c
        == '\u{0644}' || c == '\u{0645}' || c == '\u{0646}' || c == '\u{0648}' || c == '\u{0647}'
        || c == '\u{06CC}' || c == '\u{0621}'
}

/// A character is a Persian letter when its normalized form is one.
pub open spec fn spec_is_persian_letter(c: char) -> bool {
    spec_is_persian_form(spec_normalize_char(c))
}

pub fn is_persian_letter(c: char) -> (r: bool)
    ensures
        r == spec_is_persian_letter(c),
{
    let c = normalize_persian_char(c);
    match c {
        '\u{0622}' | '\u{0627}' | '\u{0628}' | '\u{067E}' | '\u{062A}' | '\u{062B}' | '\u{062C}'
        | '\u{0686}' | '\u{062D}' | '\u{062E}' | '\u{062F}' | '\u{0630}' | '\u{0631}' | '\u{0632}'
        | '\u{0698}' | '\u{0633}' | '\u{0634}' | '\u{0635}' | '\u{0636}' | '\u{0637}' | '\u{0638}'
        | '\u{0639}' | '\u{063A}' | '\u{0641}' | '\u{0642}' | '\u{06A9}' | '\u{06AF}' | '\u{0644}'
        | '\u{0645}' | '\u{0646}' | '\u{0648}' | '\u{0647}' | '\u{06CC}' | '\u{0621}' => true,
        _ => false,
    }
}

/// The seven Arabic letter forms that normalization replaces: U+0643, U+064A, U+0649,
/// U+0629, U+0622, U+0623 and U+0625.
pub open spec fn is_folded_form(c: char) -> bool {
    c == '\u{0643}' || c == '\u{064A}' || c == '\u{0649}' || c == '\u{0629}' || c
        == '\u{0622}' || c == '\u{0623}' || c == '\u{0625}'
}

/// What normalization does to one character, case by case: Kaf (U+0643) becomes Keheh
/// (U+06A9); Yeh (U+064A) and Alef Maksura (U+0649) become Farsi Yeh (U+06CC); Teh
/// Marbuta (U+0629) becomes Heh (U+0647); the three hamza and madda forms of Alef
/// (U+0622, U+0623, U+0625) become Alef (U+0627); every other character, Persian letters
/// such as Jeh (U+0698) and Zain (U+0632) among them, is left as it is.
pub proof fn lemma_normalize_char_table(c: char)
    ensures
        c == '\u{0643}' ==> spec_normalize_char(c) == '\u{06A9}',
        c == '\u{064A}' ==> spec_normalize_char(c) == '\u{06CC}',
        c == '\u{0649}' ==> spec_normalize_char(c) == '\u{06CC}',
        c == '\u{0629}' ==> spec_normalize_char(c) == '\u{0647}',
        c == '\u{0622}' ==> spec_normalize_char(c) == '\u{0627}',
        c == '\u{0623}' ==> spec_normalize_char(c) == '\u{0627}',
        c == '\u{0625}' ==> spec_normalize_char(c) == '\u{0627}',
        !is_folded_form(c) ==> spec_normalize_char(c) == c,
        spec_normalize_char('\u{0698}') == '\u{0698}',
        spec_normalize_char('\u{0632}') == '\u{0632}',
{
}

/// Normalizing a string changes only the seven folded forms: it keeps the length, keeps
/// every other character in its place, and puts each folded form's Persian letter in its
/// place.
pub proof fn lemma_normalize_str_table(s: Seq<char>)
    ensures
        spec_normalize_str(s).len() == s.len(),
        forall|i: int|
            0 <= i < s.len() && !is_folded_form(s[i]) ==> #[trigger] spec_normalize_str(s)[i]
                == s[i],
        forall|i: int|
            0 <= i < s.len() && s[i] == '\u{0643}' ==> #[trigger] spec_normalize_str(s)[i]
                == '\u{06A9}',
        forall|i: int|
            0 <= i < s.len() && (s[i] == '\u{064A}' || s[i] == '\u{0649}') ==> #[trigger] spec_normalize_str(s)[i]
                == '\u{06CC}',
        forall|i: int|
            0 <= i < s.len() && s[i] == '\u{0629}' ==> #[trigger] spec_normalize_str(s)[i]
                == '\u{0647}',
        forall|i: int|
            0 <= i < s.len() && (s[i] == '\u{0622}' || s[i] == '\u{0623}' || s[i] == '\u{0625}')
                ==> #[trigger] spec_normalize_str(s)[i] == '\u{0627}',
        forall|i: int| 0 <= i < s.len() ==> !is_folded_form(#[trigger] spec_normalize_str(s)[i]),
{
}

/// The normalized form of a string: each character replaced by its normalized form.
pub open spec fn spec_normalize_str(s: Seq<char>) -> Seq<char> {
    s.map_values(|c: char| spec_normalize_char(c))
}

/// A character that normalization leaves as it is.
pub open spec fn is_normal_char(c: char) -> bool {
    spec_normalize_char(c) == c
}

/// Normalizing twice is normalizing once, and no Arabic variant survives normalization.
pub proof fn lemma_normalize_char_idempotent(c: char)
    ensures
        spec_normalize_char(spec_normalize_char(c)) == spec_normalize_char(c),
        is_normal_char(spec_normalize_char(c)),
        spec_normalize_char(c) != '\u{0643}' && spec_normalize_char(c) != '\u{064A}'
            && spec_normalize_char(c) != '\u{0649}' && spec_normalize_char(c) != '\u{0629}'
            && spec_normalize_char(c) != '\u{0622}' && spec_normalize_char(c) != '\u{0623}'
            && spec_normalize_char(c) != '\u{0625}',
{
}

/// Normalizing a string keeps its length, normalizing it again changes nothing, and a
/// character counts as a Persian letter exactly when its normalized form does.
pub proof fn lemma_normalize_str_idempotent(s: Seq<char>)
    ensures
        spec_normalize_str(s).len() == s.len(),
        spec_normalize_str(spec_normalize_str(s)) == spec_normalize_str(s),
        forall|i: int|
            0 <= i < s.len() ==> spec_is_persian_letter(#[trigger] spec_normalize_str(s)[i])
                == spec_is_persian_letter(s[i]),
{
    assert(spec_normalize_str(spec_normalize_str(s)) =~= spec_normalize_str(s));
}

} // verus!
