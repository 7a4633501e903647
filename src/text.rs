use vstd::prelude::*;
use vstd::std_specs::iter::IteratorSpec;

verus! {

broadcast use vstd::string::group_string_axioms;

/// ASCII letters and digits.
pub open spec fn is_word_char(c: char) -> bool {
    ('a' <= c && c <= 'z') || ('A' <= c && c <= 'Z') || ('0' <= c && c <= '9')
}

/// Characters that the index treats as word breaks: ASCII whitespace and
/// punctuation, the no-break space, typographic quotes and dashes.
pub open spec fn is_break(c: char) -> bool {
    ((c as u32) < 128 && !is_word_char(c)) || c == '\u{a0}' || c == '\u{2018}' || c
        == '\u{2019}' || c == '\u{201c}' || c == '\u{201d}' || c == '\u{2013}' || c == '\u{2014}'
}

/// Whether `c` is a word break.
pub fn break_char(c: char) -> (r: bool)
    ensures
        r == is_break(c),
{
    let word = ('a' <= c && c <= 'z') || ('A' <= c && c <= 'Z') || ('0' <= c && c <= '9');
    ((c as u32) < 128 && !word) || c == '\u{a0}' || c == '\u{2018}' || c == '\u{2019}' || c
        == '\u{201c}' || c == '\u{201d}' || c == '\u{2013}' || c == '\u{2014}'
}

/// Phrase character `p` matches text character `t`: word breaks match word
/// breaks, and a lower-case ASCII letter matches itself in either case.
pub open spec fn char_matches(p: char, t: char) -> bool {
    if is_break(p) {
        is_break(t)
    } else {
        t == p || ('a' <= p && p <= 'z' && t as u32 + 32 == p as u32)
    }
}

/// `phrase` stands in `text` at position `i`.
pub open spec fn matches_at(text: Seq<char>, phrase: Seq<char>, i: int) -> bool {
    0 <= i && i + phrase.len() <= text.len() && forall|j: int|
        0 <= j < phrase.len() ==> char_matches(#[trigger] phrase[j], text[i + j])
}

/// `text` contains `phrase`, ignoring the case of letters and the kind of
/// word break.
pub open spec fn contains_phrase(text: Seq<char>, phrase: Seq<char>) -> bool {
    exists|i: int| matches_at(text, phrase, i)
}

/// The characters of `s`, in order.
pub fn chars_of(s: &str) -> (r: Vec<char>)
    ensures
        r@ == s@,
{
    let mut it = s.chars();
    let mut r: Vec<char> = Vec::new();
    loop
        invariant
            r@ + it.remaining() == s@,
        ensures
            r@ == s@,
        decreases s@.len() - r@.len(),
    {
        match it.next() {
            Some(c) => {
                proof {
                    assert(r@.push(c) + it.remaining() =~= s@);
                }
                r.push(c);
            },
            None => {
                proof {
                    assert(r@ =~= s@);
                }
                break ;
            },
        }
    }
    r
}

/// Whether phrase character `p` matches text character `t`.
pub fn char_match(p: char, t: char) -> (r: bool)
    ensures
        r == char_matches(p, t),
{
    if break_char(p) {
        break_char(t)
    } else {
        t == p || ('a' <= p && p <= 'z' && (t as u32) + 32 == p as u32)
    }
}

/// Whether `phrase` stands in `text`, ignoring the case of letters and the
/// kind of word break.
pub fn find_phrase(text: &Vec<char>, phrase: &Vec<char>) -> (r: bool)
    ensures
        r == contains_phrase(text@, phrase@),
{
    let n = text.len();
    let m = phrase.len();
    if m > n {
        return false;
    }
    let mut i: usize = 0;
    while i <= n - m
        invariant
            n == text@.len(),
            m == phrase@.len(),
            m <= n,
            0 <= i <= n - m + 1,
            forall|k: int| 0 <= k < i ==> !matches_at(text@, phrase@, k),
        decreases n - m + 1 - i,
    {
        let mut j: usize = 0;
        let mut ok = true;
        while j < m && ok
            invariant
                n == text@.len(),
                m == phrase@.len(),
                i + m <= n,
                0 <= j <= m,
                ok ==> forall|q: int| 0 <= q < j ==> char_matches(#[trigger] phrase@[q], text@[i + q]),
                !ok ==> !matches_at(text@, phrase@, i as int),
            decreases m - j,
        {
            if !char_match(phrase[j], text[i + j]) {
                ok = false;
            }
            j = j + 1;
        }
        if ok {
            proof {
                assert(matches_at(text@, phrase@, i as int));
            }
            return true;
        }
        i = i + 1;
    }
    false
}

} // verus!
