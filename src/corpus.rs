use vstd::prelude::*;

use crate::text::chars_of;

verus! {

broadcast use vstd::string::group_string_axioms;

/// Paragraphs shorter than this many characters are left out of the index.
pub const MIN_PARAGRAPH_LEN: usize = 64;

/// What `str::trim` leaves of a string.
pub uninterp spec fn trimmed(s: Seq<char>) -> Seq<char>;

/// Relies on `str::trim`: the string without its leading and trailing
/// whitespace, which depends on the characters alone. It is no longer than
/// `s`, and trimming it again leaves it as it is.
#[verifier::external_body]
fn trim(s: &str) -> (r: String)
    ensures
        r@ == trimmed(s@),
        r@.len() <= s@.len(),
        trimmed(r@) == r@,
{
    s.trim().to_string()
}

/// The paragraph delimiter `\n\r` starts at `i`.
pub open spec fn delim_at(s: Seq<char>, i: int) -> bool {
    0 <= i && i + 1 < s.len() && s[i] == '\n' && s[i + 1] == '\r'
}

/// Where the first delimiter at or after `i` starts, or `s.len()` if none does.
pub open spec fn next_delim(s: Seq<char>, i: int) -> int
    decreases s.len() - i,
{
    if i < 0 || i + 1 >= s.len() {
        s.len() as int
    } else if delim_at(s, i) {
        i
    } else {
        next_delim(s, i + 1)
    }
}

/// The pieces of `s` from `start` on, split at each delimiter.
pub open spec fn pieces_from(s: Seq<char>, start: int) -> Seq<Seq<char>>
    decreases s.len() - start,
{
    if start < 0 || start > s.len() {
        Seq::empty()
    } else {
        let e = next_delim(s, start);
        if e + 1 >= s.len() || e < start {
            seq![s.subrange(start, s.len() as int)]
        } else {
            seq![s.subrange(start, e)] + pieces_from(s, e + 2)
        }
    }
}

/// The paragraphs of a book's text that go into the index: its pieces
/// between delimiters, trimmed, of at least the minimum length.
pub open spec fn paragraphs_spec(s: Seq<char>) -> Seq<Seq<char>> {
    pieces_from(s, 0).map_values(|p: Seq<char>| trimmed(p)).filter(
        |p: Seq<char>| p.len() >= MIN_PARAGRAPH_LEN,
    )
}

proof fn lemma_next_delim_range(s: Seq<char>, i: int)
    requires
        0 <= i <= s.len(),
    ensures
        i <= next_delim(s, i) <= s.len(),
        next_delim(s, i) < s.len() ==> delim_at(s, next_delim(s, i)),
    decreases s.len() - i,
{
    if i + 1 < s.len() && !delim_at(s, i) {
        lemma_next_delim_range(s, i + 1);
    }
}

/// The pieces of `s` between paragraph delimiters, in order.
pub fn split_paragraphs(s: &str) -> (r: Vec<String>)
    ensures
        r@.map_values(|p: String| p@) == pieces_from(s@, 0),
{
    let cs = chars_of(s);
    let n = cs.len();
    let mut r: Vec<String> = Vec::new();
    let mut start: usize = 0;
    let mut i: usize = 0;
    while n > 0 && i < n - 1
        invariant
            cs@ == s@,
            n == s@.len(),
            0 <= start <= i <= n,
            next_delim(s@, start as int) == next_delim(s@, i as int),
            r@.map_values(|p: String| p@) + pieces_from(s@, start as int) == pieces_from(s@, 0),
        decreases n - i,
    {
        if cs[i] == '\n' && cs[i + 1] == '\r' {
            let piece = String::from_str(s.substring_char(start, i));
            proof {
                lemma_next_delim_range(s@, i as int);
                assert(next_delim(s@, i as int) == i);
                assert(pieces_from(s@, start as int) == seq![s@.subrange(start as int, i as int)]
                    + pieces_from(s@, i + 2));
                assert(r@.push(piece).map_values(|p: String| p@) =~= r@.map_values(
                    |p: String| p@,
                ).push(piece@));
                assert(r@.push(piece).map_values(|p: String| p@) + pieces_from(s@, i + 2) =~= r@.map_values(
                    |p: String| p@,
                ) + pieces_from(s@, start as int));
            }
            r.push(piece);
            start = i + 2;
            i = i + 2;
        } else {
            i = i + 1;
        }
    }
    let last = String::from_str(s.substring_char(start, n));
    proof {
        lemma_next_delim_range(s@, start as int);
        assert(next_delim(s@, i as int) == n);
        assert(pieces_from(s@, start as int) == seq![s@.subrange(start as int, n as int)]);
        assert(r@.push(last).map_values(|p: String| p@) =~= r@.map_values(|p: String| p@) + seq![
            last@,
        ]);
    }
    r.push(last);
    r
}

/// The paragraphs of a book's text that go into the index, in order.
pub fn book_paragraphs(s: &str) -> (r: Vec<String>)
    ensures
        r@.map_values(|p: String| p@) == paragraphs_spec(s@),
{
    let pieces = split_paragraphs(s);
    let ghost ps = pieces_from(s@, 0).map_values(|p: Seq<char>| trimmed(p));
    let mut r: Vec<String> = Vec::new();
    let mut i: usize = 0;
    while i < pieces.len()
        invariant
            0 <= i <= pieces@.len(),
            pieces@.map_values(|p: String| p@) == pieces_from(s@, 0),
            ps == pieces_from(s@, 0).map_values(|p: Seq<char>| trimmed(p)),
            r@.map_values(|p: String| p@) == ps.subrange(0, i as int).filter(
                |p: Seq<char>| p.len() >= MIN_PARAGRAPH_LEN,
            ),
        decreases pieces@.len() - i,
    {
        let t = trim(pieces[i].as_str());
        proof {
            reveal(Seq::filter);
            assert(pieces@.map_values(|p: String| p@)[i as int] == pieces@[i as int]@);
            assert(ps[i as int] == t@);
            assert(ps.subrange(0, i + 1 as int).drop_last() =~= ps.subrange(0, i as int));
        }
        if t.as_str().unicode_len() >= MIN_PARAGRAPH_LEN {
            proof {
                assert(r@.push(t).map_values(|p: String| p@) =~= r@.map_values(|p: String| p@).push(
                    t@,
                ));
            }
            r.push(t);
        }
        i = i + 1;
    }
    proof {
        assert(ps.subrange(0, pieces@.len() as int) =~= ps);
    }
    r
}

} // verus!
