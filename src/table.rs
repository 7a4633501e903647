use vstd::prelude::*;

use crate::error::ClockError;

verus! {

/// Author and title of a book.
pub struct BookMetadata {
    pub title: String,
    pub author: String,
}

/// One row of the clock table: a paragraph that names the time `time`
/// (encoded as `hour * 100 + minute`), with the book it comes from.
pub struct LitClockEntry {
    pub time: u32,
    pub paragraph: String,
    pub author: String,
    pub title: String,
    pub link: String,
}

impl BookMetadata {
    /// A copy of this record.
    pub fn copy(&self) -> (r: BookMetadata)
        ensures
            r == *self,
    {
        BookMetadata { title: self.title.clone(), author: self.author.clone() }
    }
}

impl LitClockEntry {
    /// A copy of this row.
    pub fn copy(&self) -> (r: LitClockEntry)
        ensures
            r == *self,
    {
        LitClockEntry {
            time: self.time,
            paragraph: self.paragraph.clone(),
            author: self.author.clone(),
            title: self.title.clone(),
            link: self.link.clone(),
        }
    }
}

/// The hour shown on a 12-hour dial for an hour of the day (0 and 12 show as 12).
pub open spec fn hour12_of(hour: int) -> int {
    if hour % 12 == 0 {
        12
    } else {
        hour % 12
    }
}

/// The slot number searched for at `hour:minute` of the day.
pub open spec fn search_number_of(hour: int, minute: int) -> int {
    hour12_of(hour) * 100 + minute
}

/// The time slots of the rows, in row order.
pub open spec fn times_of(rows: Seq<LitClockEntry>) -> Seq<u32> {
    rows.map_values(|e: LitClockEntry| e.time)
}

/// The rows at slot `slot`, in row order.
pub open spec fn rows_at(rows: Seq<LitClockEntry>, slot: u32) -> Seq<LitClockEntry> {
    rows.filter(|e: LitClockEntry| e.time == slot)
}

/// `slot` is the slot that a search for `target` resolves to among `avail`:
/// the greatest one at or before `target`, or, when none is, the greatest of all.
pub open spec fn is_resolved_slot(avail: Seq<u32>, target: int, slot: u32) -> bool {
    &&& avail.contains(slot)
    &&& if exists|i: int| 0 <= i < avail.len() && avail[i] <= target {
        slot <= target && forall|i: int|
            0 <= i < avail.len() && avail[i] <= target ==> #[trigger] avail[i] <= slot
    } else {
        forall|i: int| 0 <= i < avail.len() ==> #[trigger] avail[i] <= slot
    }
}

/// The hour shown on a 12-hour dial for `hour` of the day.
pub fn hour12(hour: u32) -> (r: u32)
    requires
        hour < 24,
    ensures
        r == hour12_of(hour as int),
        1 <= r <= 12,
{
    if hour % 12 == 0 {
        12
    } else {
        hour % 12
    }
}

/// The decimal digit `d`.
pub open spec fn digit_of(d: int) -> Seq<char> {
    if d == 0 { "0"@ }
    else if d == 1 { "1"@ }
    else if d == 2 { "2"@ }
    else if d == 3 { "3"@ }
    else if d == 4 { "4"@ }
    else if d == 5 { "5"@ }
    else if d == 6 { "6"@ }
    else if d == 7 { "7"@ }
    else if d == 8 { "8"@ }
    else { "9"@ }
}

/// A number below 100 in decimal, without leading zeros.
pub open spec fn decimal_of(n: int) -> Seq<char> {
    if n < 10 { digit_of(n) } else { digit_of(n / 10) + digit_of(n % 10) }
}

/// The time `hour:minute` of the day as shown on a 12-hour clock: `H:MM`.
pub open spec fn label_of(hour: int, minute: int) -> Seq<char> {
    decimal_of(hour12_of(hour)) + ":"@ + digit_of(minute / 10) + digit_of(minute % 10)
}

/// The decimal digit `d`.
pub fn digit(d: u32) -> (r: &'static str)
    requires
        d < 10,
    ensures
        r@ == digit_of(d as int),
{
    match d {
        0 => "0",
        1 => "1",
        2 => "2",
        3 => "3",
        4 => "4",
        5 => "5",
        6 => "6",
        7 => "7",
        8 => "8",
        _ => "9",
    }
}

/// The time `hour:minute` of the day as shown on a 12-hour clock: `H:MM`.
pub fn time_label(hour: u32, minute: u32) -> (r: String)
    requires
        hour < 24,
        minute < 60,
    ensures
        r@ == label_of(hour as int, minute as int),
{
    let h = hour12(hour);
    let mut r = if h < 10 {
        String::from_str(digit(h))
    } else {
        String::from_str(digit(h / 10)).concat(digit(h % 10))
    };
    r.append(":");
    r.append(digit(minute / 10));
    r.append(digit(minute % 10));
    r
}

/// The slot number searched for at `hour:minute` of the day.
pub fn search_number(hour: u32, minute: u32) -> (r: u32)
    requires
        hour < 24,
        minute < 60,
    ensures
        r == search_number_of(hour as int, minute as int),
{
    hour12(hour) * 100 + minute
}

/// The slot among `avail` that a search for `target` resolves to, or `None`
/// when `avail` is empty.
pub fn resolve_slot(avail: &Vec<u32>, target: u32) -> (r: Option<u32>)
    ensures
        avail@.len() == 0 <==> r is None,
        r matches Some(s) ==> is_resolved_slot(avail@, target as int, s),
{
    if avail.len() == 0 {
        return None;
    }
    let mut best: Option<u32> = None;
    let mut top: u32 = avail[0];
    let mut i: usize = 0;
    while i < avail.len()
        invariant
            0 <= i <= avail@.len(),
            avail@.len() > 0,
            avail@.contains(top),
            forall|k: int| 0 <= k < i ==> #[trigger] avail@[k] <= top,
            match best {
                Some(b) => avail@.contains(b) && b <= target && forall|k: int|
                    0 <= k < i && avail@[k] <= target ==> #[trigger] avail@[k] <= b,
                None => forall|k: int| 0 <= k < i ==> #[trigger] avail@[k] > target,
            },
        decreases avail@.len() - i,
    {
        let x = avail[i];
        if x > top {
            top = x;
        }
        if x <= target {
            match best {
                Some(b) => {
                    if x > b {
                        best = Some(x);
                    }
                },
                None => {
                    best = Some(x);
                },
            }
        }
        proof {
            assert(avail@[i as int] == x);
        }
        i = i + 1;
    }
    match best {
        Some(b) => Some(b),
        None => Some(top),
    }
}

/// The distinct time slots of the rows.
pub fn slots_of(rows: &Vec<LitClockEntry>) -> (r: Vec<u32>)
    ensures
        forall|k: int| 0 <= k < r@.len() ==> times_of(rows@).contains(#[trigger] r@[k]),
        forall|k: int| 0 <= k < rows@.len() ==> r@.contains(#[trigger] rows@[k].time),
        r@.no_duplicates(),
{
    let mut r: Vec<u32> = Vec::new();
    let mut i: usize = 0;
    while i < rows.len()
        invariant
            0 <= i <= rows@.len(),
            forall|k: int| 0 <= k < r@.len() ==> times_of(rows@).contains(#[trigger] r@[k]),
            forall|k: int| 0 <= k < i ==> r@.contains(#[trigger] rows@[k].time),
            r@.no_duplicates(),
        decreases rows@.len() - i,
    {
        let t = rows[i].time;
        let mut j: usize = 0;
        let mut found = false;
        while j < r.len()
            invariant
                0 <= j <= r@.len(),
                found ==> r@.contains(t),
                !found ==> forall|k: int| 0 <= k < j ==> #[trigger] r@[k] != t,
            decreases r@.len() - j,
        {
            if r[j] == t {
                found = true;
            }
            j = j + 1;
        }
        proof {
            assert(times_of(rows@)[i as int] == t);
        }
        let ghost before = r@;
        if !found {
            r.push(t);
            proof {
                assert(r@[r@.len() - 1] == t);
                assert forall|k: int| 0 <= k < i implies r@.contains(#[trigger] rows@[k].time) by {
                    let w = choose|w: int| 0 <= w < before.len() && before[w] == rows@[k].time;
                    assert(r@[w] == before[w]);
                }
            }
        }
        i = i + 1;
    }
    r
}

/// The rows at slot `slot`, in row order.
pub fn entries_at(rows: &Vec<LitClockEntry>, slot: u32) -> (r: Vec<LitClockEntry>)
    ensures
        r@ == rows_at(rows@, slot),
{
    let mut r: Vec<LitClockEntry> = Vec::new();
    let mut i: usize = 0;
    while i < rows.len()
        invariant
            0 <= i <= rows@.len(),
            r@ == rows_at(rows@.subrange(0, i as int), slot),
        decreases rows@.len() - i,
    {
        proof {
            reveal(Seq::filter);
            assert(rows@.subrange(0, i + 1 as int).drop_last() =~= rows@.subrange(0, i as int));
        }
        if rows[i].time == slot {
            r.push(rows[i].copy());
        }
        i = i + 1;
    }
    proof {
        assert(rows@.subrange(0, rows@.len() as int) =~= rows@);
    }
    r
}

/// The slot that a search for `target` resolves to among the rows' slots.
pub open spec fn slot_for(rows: Seq<LitClockEntry>, target: int) -> u32 {
    choose|s: u32| is_resolved_slot(times_of(rows), target, s)
}

/// The `pick`-th row (modulo their number) of the slot that a search for
/// `target` resolves to.
pub open spec fn picked_row(rows: Seq<LitClockEntry>, target: int, pick: int) -> LitClockEntry {
    let at = rows_at(rows, slot_for(rows, target));
    at[pick % at.len() as int]
}

/// At most one slot is the one that a search resolves to.
pub proof fn lemma_resolved_slot_unique(avail: Seq<u32>, target: int, s1: u32, s2: u32)
    requires
        is_resolved_slot(avail, target, s1),
        is_resolved_slot(avail, target, s2),
    ensures
        s1 == s2,
{
    let i = choose|i: int| 0 <= i < avail.len() && avail[i] == s1;
    let j = choose|j: int| 0 <= j < avail.len() && avail[j] == s2;
    assert(avail[i] == s1 && avail[j] == s2);
}

/// A later clock reading never resolves to an earlier slot, once the
/// earlier reading is at or after some slot.
pub proof fn lemma_resolved_slot_monotone(avail: Seq<u32>, t1: int, t2: int, s1: u32, s2: u32)
    requires
        t1 <= t2,
        exists|i: int| 0 <= i < avail.len() && avail[i] <= t1,
        is_resolved_slot(avail, t1, s1),
        is_resolved_slot(avail, t2, s2),
    ensures
        s1 <= s2,
{
    let i = choose|i: int| 0 <= i < avail.len() && avail[i] == s1;
    assert(avail[i] <= t2);
}

/// The row shown at `hour:minute` of the day, given the `pick`-th choice
/// (modulo their number) among the rows of the resolved slot; `NoMatch`
/// exactly when the table is empty.
pub fn resolve_with_pick(rows: &Vec<LitClockEntry>, hour: u32, minute: u32, pick: usize) -> (r:
    Result<LitClockEntry, ClockError>)
    requires
        hour < 24,
        minute < 60,
    ensures
        rows@.len() == 0 ==> r == Err::<LitClockEntry, ClockError>(ClockError::NoMatch),
        rows@.len() > 0 ==> {
            let target = search_number_of(hour as int, minute as int);
            &&& is_resolved_slot(times_of(rows@), target, slot_for(rows@, target))
            &&& rows_at(rows@, slot_for(rows@, target)).len() > 0
            &&& r == Ok::<LitClockEntry, ClockError>(picked_row(rows@, target, pick as int))
        },
{
    let ghost target = search_number_of(hour as int, minute as int);
    match choose_slot(rows, hour, minute) {
        None => Err(ClockError::NoMatch),
        Some(slot) => {
            proof {
                lemma_resolved_slot_unique(times_of(rows@), target, slot, slot_for(rows@, target));
            }
            let at = entries_at(rows, slot);
            let n = at.len();
            Ok(at[pick % n].copy())
        },
    }
}

proof fn lemma_slot_has_rows(rows: Seq<LitClockEntry>, slot: u32)
    requires
        times_of(rows).contains(slot),
    ensures
        rows_at(rows, slot).len() > 0,
{
    let i = choose|i: int| 0 <= i < times_of(rows).len() && times_of(rows)[i] == slot;
    assert(rows[i].time == slot);
    assert(rows.contains(rows[i]));
    rows.lemma_filter_contains_rev(|e: LitClockEntry| e.time == slot, rows[i]);
    assert(rows_at(rows, slot).contains(rows[i]));
}

/// The slot resolved for `hour:minute` of the day among the rows' slots, or
/// `None` when there are no rows.
pub fn choose_slot(rows: &Vec<LitClockEntry>, hour: u32, minute: u32) -> (r: Option<u32>)
    requires
        hour < 24,
        minute < 60,
    ensures
        rows@.len() == 0 <==> r is None,
        r matches Some(s) ==> is_resolved_slot(
            times_of(rows@),
            search_number_of(hour as int, minute as int),
            s,
        ) && rows_at(rows@, s).len() > 0,
{
    let slots = slots_of(rows);
    let target = search_number(hour, minute);
    let r = resolve_slot(&slots, target);
    proof {
        let t = times_of(rows@);
        if rows@.len() > 0 {
            assert(slots@.contains(rows@[0].time));
        }
        if let Some(s) = r {
            assert(t.contains(s));
            lemma_slot_has_rows(rows@, s);
            if exists|i: int| 0 <= i < t.len() && t[i] <= target {
                let i = choose|i: int| 0 <= i < t.len() && t[i] <= target;
                assert(slots@.contains(rows@[i].time));
            }
            assert forall|i: int| 0 <= i < t.len() implies (t[i] <= target ==> #[trigger] t[i] <= s)
                && (!(exists|j: int| 0 <= j < slots@.len() && slots@[j] <= target) ==> t[i] <= s) by {
                assert(slots@.contains(rows@[i].time));
            }
        }
    }
    r
}

/// Relies on rand 0.8's `Rng::gen_range` on the thread-local generator: an
/// index drawn from `0..n`, which panics only on an empty range.
#[verifier::external_body]
fn random_index(n: usize) -> (r: usize)
    requires
        n > 0,
    ensures
        r < n,
{
    rand::Rng::gen_range(&mut rand::thread_rng(), 0..n)
}

/// The row shown at `hour:minute` of the day: one of the rows of the
/// resolved slot, drawn at random; `NoMatch` exactly when the table is empty.
pub fn resolve(rows: &Vec<LitClockEntry>, hour: u32, minute: u32) -> (r: Result<
    LitClockEntry,
    ClockError,
>)
    requires
        hour < 24,
        minute < 60,
    ensures
        rows@.len() == 0 ==> r == Err::<LitClockEntry, ClockError>(ClockError::NoMatch),
        rows@.len() > 0 ==> {
            let target = search_number_of(hour as int, minute as int);
            &&& r is Ok
            &&& is_resolved_slot(times_of(rows@), target, slot_for(rows@, target))
            &&& r->Ok_0.time == slot_for(rows@, target)
            &&& rows_at(rows@, slot_for(rows@, target)).contains(r->Ok_0)
        },
{
    match choose_slot(rows, hour, minute) {
        None => Err(ClockError::NoMatch),
        Some(slot) => {
            let n = entries_at(rows, slot).len();
            let k = random_index(n);
            let r = resolve_with_pick(rows, hour, minute, k);
            proof {
                let target = search_number_of(hour as int, minute as int);
                lemma_resolved_slot_unique(times_of(rows@), target, slot, slot_for(rows@, target));
                let at = rows_at(rows@, slot);
                assert(k as int % n as int == k as int) by (nonlinear_arith)
                    requires
                        0 <= k < n,
                ;
                assert(at[k as int] == r->Ok_0);
                assert(at.contains(r->Ok_0));
                rows@.lemma_filter_pred(|e: LitClockEntry| e.time == slot, k as int);
            }
            r
        },
    }
}

proof fn lemma_filter_within(s: Seq<LitClockEntry>, pred: spec_fn(LitClockEntry) -> bool)
    ensures
        forall|i: int| 0 <= i < s.filter(pred).len() ==> s.contains(#[trigger] s.filter(pred)[i]),
    decreases s.len(),
{
    reveal(Seq::filter);
    if s.len() > 0 {
        let d = s.drop_last();
        lemma_filter_within(d, pred);
        assert forall|i: int| 0 <= i < s.filter(pred).len() implies s.contains(
            #[trigger] s.filter(pred)[i],
        ) by {
            if i < d.filter(pred).len() {
                let j = choose|j: int| 0 <= j < d.len() && d[j] == d.filter(pred)[i];
                assert(s[j] == d[j]);
            } else {
                assert(s.filter(pred)[i] == s[s.len() - 1]);
            }
        }
    }
}

/// When a slot equals the searched number, the search resolves to it.
pub proof fn lemma_exact_slot(avail: Seq<u32>, target: u32, s: u32)
    requires
        avail.contains(target),
        is_resolved_slot(avail, target as int, s),
    ensures
        s == target,
{
    let i = choose|i: int| 0 <= i < avail.len() && avail[i] == target;
    assert(avail[i] <= target);
}

/// When the searched number falls after slot `lo` and before any later
/// slot, the search resolves to `lo`.
pub proof fn lemma_between_slots(avail: Seq<u32>, target: u32, lo: u32, s: u32)
    requires
        avail.contains(lo),
        lo <= target,
        forall|i: int| 0 <= i < avail.len() && lo < avail[i] ==> target < #[trigger] avail[i],
        is_resolved_slot(avail, target as int, s),
    ensures
        s == lo,
{
    let i = choose|i: int| 0 <= i < avail.len() && avail[i] == lo;
    assert(avail[i] <= target);
    let j = choose|j: int| 0 <= j < avail.len() && avail[j] == s;
    assert(avail[j] == s);
}

/// With two rows at one slot and none elsewhere, what is shown is one of
/// those two rows, whatever the time.
pub proof fn lemma_single_slot_rows(rows: Seq<LitClockEntry>, target: int, e: LitClockEntry)
    requires
        rows.len() == 2,
        rows[0].time == 700,
        rows[1].time == 700,
        is_resolved_slot(times_of(rows), target, e.time),
        rows_at(rows, e.time).contains(e),
    ensures
        e.time == 700,
        e == rows[0] || e == rows[1],
{
    let k = choose|k: int| 0 <= k < rows_at(rows, e.time).len() && rows_at(rows, e.time)[k] == e;
    lemma_filter_within(rows, |x: LitClockEntry| x.time == e.time);
    assert(rows.contains(rows_at(rows, e.time)[k]));
    let j = choose|j: int| 0 <= j < times_of(rows).len() && times_of(rows)[j] == e.time;
    assert(rows[j].time == e.time);
}

} // verus!
