use vstd::prelude::*;

verus! {

/// The delimiter that frames the two fields of a composite key.
pub open spec fn is_sep(c: char) -> bool {
    c == '$'
}

/// A key field holds no delimiter.
pub open spec fn no_sep(s: Seq<char>) -> bool {
    forall|i: int| 0 <= i < s.len() ==> !is_sep(#[trigger] s[i])
}

/// The composite key `$<book id>$<source link>$`.
pub open spec fn key_of(book_id: Seq<char>, link: Seq<char>) -> Seq<char> {
    seq!['$'] + book_id + seq!['$'] + link + seq!['$']
}

/// A composite key frames exactly two delimiter-free fields.
pub open spec fn is_key(k: Seq<char>) -> bool {
    exists|p: (Seq<char>, Seq<char>)| no_sep(p.0) && no_sep(p.1) && k == key_of(p.0, p.1)
}

/// The two fields framed by a composite key, if it is one.
pub open spec fn fields_of(k: Seq<char>) -> Option<(Seq<char>, Seq<char>)> {
    if is_key(k) {
        Some(
            choose|p: (Seq<char>, Seq<char>)|
                no_sep(p.0) && no_sep(p.1) && k == key_of(p.0, p.1),
        )
    } else {
        None
    }
}

proof fn lemma_key_index(a: Seq<char>, b: Seq<char>)
    ensures
        key_of(a, b).len() == a.len() + b.len() + 3,
        key_of(a, b)[0] == '$',
        key_of(a, b)[a.len() + 1 as int] == '$',
        key_of(a, b)[a.len() + b.len() + 2 as int] == '$',
        forall|i: int| 0 <= i < a.len() ==> key_of(a, b)[i + 1] == #[trigger] a[i],
        forall|i: int| 0 <= i < b.len() ==> key_of(a, b)[a.len() + 2 + i] == #[trigger] b[i],
        key_of(a, b).subrange(1, a.len() as int + 1) == a,
        key_of(a, b).subrange(a.len() as int + 2, a.len() + b.len() + 2 as int) == b,
{
    let k = key_of(a, b);
    assert(k.subrange(1, a.len() as int + 1) =~= a);
    assert(k.subrange(a.len() as int + 2, a.len() + b.len() + 2 as int) =~= b);
}

/// Delimiter-free fields are recovered from their key.
proof fn lemma_key_injective(a: Seq<char>, b: Seq<char>, a2: Seq<char>, b2: Seq<char>)
    requires
        no_sep(a),
        no_sep(b),
        no_sep(a2),
        no_sep(b2),
        key_of(a, b) == key_of(a2, b2),
    ensures
        a == a2,
        b == b2,
{
    lemma_key_index(a, b);
    lemma_key_index(a2, b2);
    let k = key_of(a, b);
    if a.len() < a2.len() {
        assert(k[a.len() + 1 as int] == a2[a.len() as int]);
    }
    if a2.len() < a.len() {
        assert(k[a2.len() + 1 as int] == a[a2.len() as int]);
    }
}

/// Decoding an encoded key gives back the book id and the link, for any two
/// fields that hold no `$`.
pub proof fn lemma_key_round_trip(book_id: Seq<char>, link: Seq<char>)
    requires
        no_sep(book_id),
        no_sep(link),
    ensures
        fields_of(key_of(book_id, link)) == Some((book_id, link)),
{
    let k = key_of(book_id, link);
    let w = (book_id, link);
    assert(no_sep(w.0) && no_sep(w.1) && k == key_of(w.0, w.1));
    let p = choose|p: (Seq<char>, Seq<char>)| no_sep(p.0) && no_sep(p.1) && k == key_of(p.0, p.1);
    lemma_key_injective(book_id, link, p.0, p.1);
}

/// The composite key for a paragraph of book `book_id` fetched from `link`.
pub fn encode_key(book_id: &str, link: &str) -> (r: String)
    ensures
        r@ == key_of(book_id@, link@),
{
    let r = String::from_str("$").concat(book_id).concat("$").concat(link).concat("$");
    proof {
        reveal_strlit("$");
        assert(r@ =~= key_of(book_id@, link@));
    }
    r
}

/// The book id and link framed by a composite key, or `None` when `key` is
/// not `$<id>$<link>$` with two `$`-free fields.
pub fn decode_key(key: &str) -> (r: Option<(String, String)>)
    ensures
        match r {
            Some(p) => fields_of(key@) == Some((p.0@, p.1@)),
            None => fields_of(key@) is None,
        },
{
    let n = key.unicode_len();
    if n < 3 {
        proof {
            if is_key(key@) {
                let (a, b) = choose|p: (Seq<char>, Seq<char>)|
                    no_sep(p.0) && no_sep(p.1) && key@ == key_of(p.0, p.1);
                lemma_key_index(a, b);
            }
        }
        return None;
    }
    if key.get_char(0) != '$' || key.get_char(n - 1) != '$' {
        proof {
            if is_key(key@) {
                let (a, b) = choose|p: (Seq<char>, Seq<char>)|
                    no_sep(p.0) && no_sep(p.1) && key@ == key_of(p.0, p.1);
                lemma_key_index(a, b);
            }
        }
        return None;
    }
    // the first delimiter after the opening one
    let mut j: usize = 1;
    while j < n - 1 && key.get_char(j) != '$'
        invariant
            n == key@.len(),
            n >= 3,
            1 <= j <= n - 1,
            forall|i: int| 1 <= i < j ==> !is_sep(#[trigger] key@[i]),
        decreases n - j,
    {
        j = j + 1;
    }
    if j == n - 1 {
        proof {
            if is_key(key@) {
                let (a, b) = choose|p: (Seq<char>, Seq<char>)|
                    no_sep(p.0) && no_sep(p.1) && key@ == key_of(p.0, p.1);
                lemma_key_index(a, b);
                assert(!is_sep(key@[a.len() + 1 as int]));
            }
        }
        return None;
    }
    let mut t: usize = j + 1;
    while t < n - 1 && key.get_char(t) != '$'
        invariant
            n == key@.len(),
            n >= 3,
            j < n - 1,
            j + 1 <= t <= n - 1,
            forall|i: int| j < i < t ==> !is_sep(#[trigger] key@[i]),
        decreases n - t,
    {
        t = t + 1;
    }
    if t < n - 1 {
        proof {
            if is_key(key@) {
                let (a, b) = choose|p: (Seq<char>, Seq<char>)|
                    no_sep(p.0) && no_sep(p.1) && key@ == key_of(p.0, p.1);
                lemma_key_index(a, b);
                if j < a.len() + 1 {
                    assert(key@[j as int] == a[j - 1]);
                } else if j > a.len() + 1 {
                    assert(key@[j as int] == b[j - a.len() - 2]);
                } else {
                    assert(key@[t as int] == b[t - a.len() - 2]);
                }
            }
        }
        return None;
    }
    let a = String::from_str(key.substring_char(1, j));
    let b = String::from_str(key.substring_char(j + 1, n - 1));
    proof {
        assert forall|i: int| 0 <= i < a@.len() implies !is_sep(#[trigger] a@[i]) by {
            assert(a@[i] == key@[i + 1]);
        }
        assert forall|i: int| 0 <= i < b@.len() implies !is_sep(#[trigger] b@[i]) by {
            assert(b@[i] == key@[i + j + 1]);
        }
        assert(key@ =~= key_of(a@, b@));
        lemma_key_round_trip(a@, b@);
    }
    Some((a, b))
}

} // verus!
