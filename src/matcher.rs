use std::collections::HashMap;
use vstd::prelude::*;

use crate::key::{decode_key, fields_of};
use crate::phrase::{all_formats_to_text, phrases_of, valid_time};
use crate::table::{BookMetadata, LitClockEntry};
use crate::text::{chars_of, contains_phrase, find_phrase};

verus! {

broadcast use vstd::string::group_string_axioms, vstd::std_specs::hash::group_hash_axioms;

/// Number of slots in a 12-hour cycle.
pub const SLOT_COUNT: usize = 720;

/// The slot number of `hour:minute`.
pub open spec fn slot_of(hour: int, minute: int) -> int {
    hour * 100 + minute
}

/// The reading of the `i`-th slot of the cycle, in build order.
pub open spec fn nth_slot(i: int) -> (int, int) {
    (i / 60 + 1, i % 60)
}

/// `text` contains one of the phrases of `hour:minute`.
pub open spec fn names_time(text: Seq<char>, hour: int, minute: int) -> bool {
    exists|k: int|
        0 <= k < phrases_of(hour, minute).len() && contains_phrase(
            text,
            #[trigger] phrases_of(hour, minute)[k],
        )
}

/// A clock-table row whose paragraph names the time of its slot.
pub open spec fn entry_names_its_time(e: LitClockEntry) -> bool {
    names_time(e.paragraph@, e.time as int / 100, e.time as int % 100)
}

/// A phrase as an exact-phrase search term: apostrophes become spaces and
/// the whole is put in double quotes.
pub open spec fn term_of(phrase: Seq<char>) -> Seq<char> {
    seq!['"'] + phrase.map_values(|c: char| if c == '\'' { ' ' } else { c }) + seq!['"']
}

/// The search that matches any of `phrases`: their terms joined by ` OR `.
pub open spec fn query_of(phrases: Seq<Seq<char>>) -> Seq<char>
    decreases phrases.len(),
{
    if phrases.len() == 0 {
        Seq::empty()
    } else if phrases.len() == 1 {
        term_of(phrases[0])
    } else {
        query_of(phrases.drop_last()) + " OR "@ + term_of(phrases.last())
    }
}

proof fn lemma_slot_parts(hour: int, minute: int)
    requires
        valid_time(hour, minute),
    ensures
        slot_of(hour, minute) / 100 == hour,
        slot_of(hour, minute) % 100 == minute,
{
    assert((hour * 100 + minute) / 100 == hour) by (nonlinear_arith)
        requires
            0 <= minute < 100,
            hour >= 1,
    ;
    assert((hour * 100 + minute) % 100 == minute) by (nonlinear_arith)
        requires
            0 <= minute < 100,
            hour >= 1,
    ;
}

/// The slot number of `hour:minute`.
pub fn time_slot(hour: usize, minute: usize) -> (r: u32)
    requires
        valid_time(hour as int, minute as int),
    ensures
        r == slot_of(hour as int, minute as int),
{
    (hour * 100 + minute) as u32
}

/// Every reading of a 12-hour cycle, hour by hour and minute by minute.
pub fn all_slots() -> (r: Vec<(usize, usize)>)
    ensures
        r@.len() == SLOT_COUNT,
        forall|i: int|
            0 <= i < r@.len() ==> (#[trigger] r@[i]).0 == nth_slot(i).0 && r@[i].1 == nth_slot(
                i,
            ).1,
        forall|i: int| 0 <= i < r@.len() ==> valid_time((#[trigger] r@[i]).0 as int, r@[i].1 as int),
{
    let mut r: Vec<(usize, usize)> = Vec::new();
    let mut hour: usize = 1;
    while hour <= 12
        invariant
            1 <= hour <= 13,
            r@.len() == (hour - 1) * 60,
            forall|i: int|
                0 <= i < r@.len() ==> (#[trigger] r@[i]).0 == nth_slot(i).0 && r@[i].1
                    == nth_slot(i).1,
        decreases 13 - hour,
    {
        let mut minute: usize = 0;
        while minute < 60
            invariant
                1 <= hour <= 12,
                0 <= minute <= 60,
                r@.len() == (hour - 1) * 60 + minute,
                forall|i: int|
                    0 <= i < r@.len() ==> (#[trigger] r@[i]).0 == nth_slot(i).0 && r@[i].1
                        == nth_slot(i).1,
            decreases 60 - minute,
        {
            proof {
                let i = (hour - 1) * 60 + minute;
                assert(i / 60 == hour - 1 && i % 60 == minute) by (nonlinear_arith)
                    requires
                        i == (hour - 1) * 60 + minute,
                        0 <= minute < 60,
                        hour >= 1,
                ;
            }
            r.push((hour, minute));
            minute = minute + 1;
        }
        hour = hour + 1;
    }
    proof {
        assert forall|i: int| 0 <= i < r@.len() implies valid_time(
            (#[trigger] r@[i]).0 as int,
            r@[i].1 as int,
        ) by {
            assert(0 <= i / 60 < 12 && 0 <= i % 60 < 60) by (nonlinear_arith)
                requires
                    0 <= i < 720,
            ;
        }
    }
    r
}

/// The exact-phrase search term for `phrase`.
pub fn phrase_term(phrase: &str) -> (r: String)
    ensures
        r@ == term_of(phrase@),
{
    let cs = chars_of(phrase);
    let mut r = String::from_str("\"");
    proof {
        reveal_strlit("\"");
        assert(r@ =~= seq!['"'] + phrase@.subrange(0, 0).map_values(
            |c: char| if c == '\'' { ' ' } else { c },
        ));
    }
    let mut i: usize = 0;
    while i < cs.len()
        invariant
            cs@ == phrase@,
            0 <= i <= cs@.len(),
            r@ == seq!['"'] + phrase@.subrange(0, i as int).map_values(
                |c: char| if c == '\'' { ' ' } else { c },
            ),
        decreases cs@.len() - i,
    {
        if cs[i] == '\'' {
            r.append(" ");
        } else {
            r.append(phrase.substring_char(i, i + 1));
        }
        proof {
            reveal_strlit(" ");
            assert(phrase@.subrange(0, i + 1 as int).map_values(
                |c: char| if c == '\'' { ' ' } else { c },
            ) =~= phrase@.subrange(0, i as int).map_values(
                |c: char| if c == '\'' { ' ' } else { c },
            ).push(if cs@[i as int] == '\'' { ' ' } else { cs@[i as int] }));
            assert(r@ =~= seq!['"'] + phrase@.subrange(0, i + 1 as int).map_values(
                |c: char| if c == '\'' { ' ' } else { c },
            ));
        }
        i = i + 1;
    }
    r.append("\"");
    proof {
        reveal_strlit("\"");
        assert(phrase@.subrange(0, cs@.len() as int) =~= phrase@);
        assert(r@ =~= term_of(phrase@));
    }
    r
}

/// The full-text search that matches a paragraph holding any of `phrases`.
pub fn build_query(phrases: &Vec<String>) -> (r: String)
    ensures
        r@ == query_of(phrases@.map_values(|p: String| p@)),
{
    let ghost ps = phrases@.map_values(|p: String| p@);
    let mut r = String::new();
    let mut i: usize = 0;
    while i < phrases.len()
        invariant
            0 <= i <= phrases@.len(),
            ps == phrases@.map_values(|p: String| p@),
            r@ == query_of(ps.subrange(0, i as int)),
        decreases phrases@.len() - i,
    {
        let t = phrase_term(phrases[i].as_str());
        proof {
            assert(ps.subrange(0, i + 1 as int).drop_last() =~= ps.subrange(0, i as int));
            assert(ps.subrange(0, i + 1 as int).last() == phrases@[i as int]@);
        }
        if i == 0 {
            r = t;
            proof {
                assert(ps.subrange(0, 1) =~= seq![ps[0]]);
            }
        } else {
            r.append(" OR ");
            r.append(t.as_str());
        }
        i = i + 1;
    }
    proof {
        assert(ps.subrange(0, phrases@.len() as int) =~= ps);
    }
    r
}

/// Whether `text` contains one of the phrases of `hour:minute`.
pub fn text_names_time(text: &str, hour: usize, minute: usize) -> (r: bool)
    requires
        valid_time(hour as int, minute as int),
    ensures
        r == names_time(text@, hour as int, minute as int),
{
    let phrases = match all_formats_to_text(hour, minute) {
        Ok(v) => v,
        Err(_) => {
            return false;
        },
    };
    let t = chars_of(text);
    let mut k: usize = 0;
    while k < phrases.len()
        invariant
            0 <= k <= phrases@.len(),
            t@ == text@,
            phrases@.len() == phrases_of(hour as int, minute as int).len(),
            forall|q: int|
                0 <= q < phrases@.len() ==> #[trigger] phrases@[q]@ == phrases_of(
                    hour as int,
                    minute as int,
                )[q],
            forall|q: int|
                0 <= q < k ==> !contains_phrase(text@, #[trigger] phrases_of(hour as int, minute as int)[q]),
        decreases phrases@.len() - k,
    {
        let p = chars_of(phrases[k].as_str());
        if find_phrase(&t, &p) {
            return true;
        }
        k = k + 1;
    }
    false
}

/// The clock-table row for a search hit at `hour:minute`: the paragraph
/// `text`, whose index key is `key`, from the book described by `meta`.
/// `None` when the key is malformed or the paragraph does not name the time.
pub fn hit_entry(hour: usize, minute: usize, key: &str, text: &str, meta: &BookMetadata) -> (r:
    Option<LitClockEntry>)
    requires
        valid_time(hour as int, minute as int),
    ensures
        r is Some <==> fields_of(key@) is Some && names_time(text@, hour as int, minute as int),
        r matches Some(e) ==> {
            &&& e.time == slot_of(hour as int, minute as int)
            &&& e.paragraph@ == text@
            &&& e.author == meta.author
            &&& e.title == meta.title
            &&& fields_of(key@) matches Some(p) && e.link@ == p.1
            &&& entry_names_its_time(e)
        },
{
    let fields = decode_key(key);
    match fields {
        None => None,
        Some((_book_id, link)) => {
            if !text_names_time(text, hour, minute) {
                return None;
            }
            proof {
                lemma_slot_parts(hour as int, minute as int);
            }
            Some(
                LitClockEntry {
                    time: time_slot(hour, minute),
                    paragraph: String::from_str(text),
                    author: meta.author.clone(),
                    title: meta.title.clone(),
                    link,
                },
            )
        },
    }
}

/// The decimal digit `c` stands for.
pub open spec fn digit_value(c: char) -> int {
    c as int - '0' as int
}

/// A book id: a non-empty string of decimal digits.
pub open spec fn is_decimal(s: Seq<char>) -> bool {
    s.len() > 0 && forall|i: int| 0 <= i < s.len() ==> '0' <= #[trigger] s[i] && s[i] <= '9'
}

/// The number a string of decimal digits stands for.
pub open spec fn decimal_value(s: Seq<char>) -> int
    decreases s.len(),
{
    if s.len() == 0 {
        0
    } else {
        decimal_value(s.drop_last()) * 10 + digit_value(s.last())
    }
}

/// The book id written in `s`, when it is one that fits in a `u64`.
pub open spec fn book_id_of(s: Seq<char>) -> Option<u64> {
    if is_decimal(s) && decimal_value(s) <= u64::MAX {
        Some(decimal_value(s) as u64)
    } else {
        None
    }
}

proof fn lemma_decimal_grows(s: Seq<char>, i: int)
    requires
        0 <= i <= s.len(),
        forall|k: int| 0 <= k < s.len() ==> '0' <= #[trigger] s[k] && s[k] <= '9',
    ensures
        decimal_value(s.subrange(0, i)) <= decimal_value(s),
        decimal_value(s.subrange(0, i)) >= 0,
    decreases s.len() - i,
{
    if i < s.len() {
        lemma_decimal_grows(s, i + 1);
        assert(s.subrange(0, i + 1).drop_last() =~= s.subrange(0, i));
        assert(s.subrange(0, i + 1).last() == s[i]);
    } else {
        assert(s.subrange(0, i) =~= s);
        lemma_decimal_nonneg(s);
    }
}

proof fn lemma_decimal_nonneg(s: Seq<char>)
    requires
        forall|k: int| 0 <= k < s.len() ==> '0' <= #[trigger] s[k] && s[k] <= '9',
    ensures
        decimal_value(s) >= 0,
    decreases s.len(),
{
    if s.len() > 0 {
        assert(s.last() == s[s.len() - 1]);
        lemma_decimal_nonneg(s.drop_last());
    }
}

/// The book id written in `s`, or `None` when `s` is not a non-empty string
/// of decimal digits whose value fits in a `u64`.
pub fn parse_book_id(s: &str) -> (r: Option<u64>)
    ensures
        r == book_id_of(s@),
{
    let cs = chars_of(s);
    if cs.len() == 0 {
        return None;
    }
    let mut acc: u64 = 0;
    let mut i: usize = 0;
    while i < cs.len()
        invariant
            cs@ == s@,
            0 <= i <= cs@.len(),
            forall|k: int| 0 <= k < i ==> '0' <= #[trigger] cs@[k] && cs@[k] <= '9',
            acc as int == decimal_value(cs@.subrange(0, i as int)),
        decreases cs@.len() - i,
    {
        let c = cs[i];
        if c < '0' || c > '9' {
            return None;
        }
        let d = (c as u32 - '0' as u32) as u64;
        proof {
            assert(cs@.subrange(0, i + 1 as int).drop_last() =~= cs@.subrange(0, i as int));
            assert(cs@.subrange(0, i + 1 as int).last() == c);
        }
        if acc > (u64::MAX - d) / 10 {
            proof {
                assert(acc as int * 10 + d as int > u64::MAX) by (nonlinear_arith)
                    requires
                        acc as int > (u64::MAX - d as int) / 10,
                        0 <= d as int <= 9,
                ;
                if is_decimal(s@) {
                    lemma_decimal_grows(cs@, i + 1);
                }
            }
            return None;
        }
        acc = acc * 10 + d;
        i = i + 1;
    }
    proof {
        assert(cs@.subrange(0, cs@.len() as int) =~= cs@);
    }
    Some(acc)
}

/// Author and title of each book looked up so far during a build, so that
/// the catalogue is asked at most once per book.
pub struct MetadataCache {
    books: HashMap<u64, BookMetadata>,
}

impl View for MetadataCache {
    type V = Map<u64, BookMetadata>;

    closed spec fn view(&self) -> Map<u64, BookMetadata> {
        self.books@
    }
}

/// What to do with a search hit, given the metadata cached so far.
pub enum HitStep {
    /// The hit's key is malformed or names no book id: no row comes of it.
    Skip,
    /// The book's record is cached: build the row with it.
    Known(BookMetadata),
    /// The book with this id must be looked up in the catalogue first.
    Lookup(u64),
}

impl MetadataCache {
    /// An empty cache.
    pub fn new() -> (r: MetadataCache)
        ensures
            r@ == Map::<u64, BookMetadata>::empty(),
    {
        MetadataCache { books: HashMap::new() }
    }

    /// The record held for book `id`, if any.
    pub fn get(&self, id: u64) -> (r: Option<BookMetadata>)
        ensures
            r is Some <==> self@.contains_key(id),
            r matches Some(m) ==> m == self@[id],
    {
        match self.books.get(&id) {
            Some(m) => Some(m.copy()),
            None => None,
        }
    }

    /// Records `m` for book `id`, unless the cache already holds a record for it.
    pub fn record(&mut self, id: u64, m: BookMetadata)
        ensures
            old(self)@.contains_key(id) ==> final(self)@ == old(self)@,
            !old(self)@.contains_key(id) ==> final(self)@ == old(self)@.insert(id, m),
    {
        if self.books.contains_key(&id) {
            return;
        }
        self.books.insert(id, m);
    }

    /// The step for a hit whose index key is `key`.
    pub fn step_for_hit(&self, key: &str) -> (r: HitStep)
        ensures
            match fields_of(key@) {
                None => r is Skip,
                Some(p) => match book_id_of(p.0) {
                    None => r is Skip,
                    Some(id) => match r {
                        HitStep::Known(m) => self@.contains_key(id) && m == self@[id],
                        HitStep::Lookup(n) => n == id && !self@.contains_key(id),
                        HitStep::Skip => false,
                    },
                },
            },
    {
        match decode_key(key) {
            None => HitStep::Skip,
            Some((id, _link)) => match parse_book_id(id.as_str()) {
                None => HitStep::Skip,
                Some(n) => match self.get(n) {
                    Some(m) => HitStep::Known(m),
                    None => HitStep::Lookup(n),
                },
            },
        }
    }
}

} // verus!
