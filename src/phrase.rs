use vstd::prelude::*;

use crate::error::ClockError;

verus! {

/// A clock reading on a 12-hour dial.
pub open spec fn valid_time(hour: int, minute: int) -> bool {
    1 <= hour <= 12 && 0 <= minute <= 59
}

/// The hour that follows `hour` on a 12-hour dial (12 wraps to 1).
pub open spec fn next_hour(hour: int) -> int {
    (hour % 12) + 1
}

/// English words for the numbers 0 through 29.
pub open spec fn num_word(n: int) -> Seq<char> {
    if n == 0 { "zero"@ }
    else if n == 1 { "one"@ }
    else if n == 2 { "two"@ }
    else if n == 3 { "three"@ }
    else if n == 4 { "four"@ }
    else if n == 5 { "five"@ }
    else if n == 6 { "six"@ }
    else if n == 7 { "seven"@ }
    else if n == 8 { "eight"@ }
    else if n == 9 { "nine"@ }
    else if n == 10 { "ten"@ }
    else if n == 11 { "eleven"@ }
    else if n == 12 { "twelve"@ }
    else if n == 13 { "thirteen"@ }
    else if n == 14 { "fourteen"@ }
    else if n == 15 { "fifteen"@ }
    else if n == 16 { "sixteen"@ }
    else if n == 17 { "seventeen"@ }
    else if n == 18 { "eighteen"@ }
    else if n == 19 { "nineteen"@ }
    else if n == 20 { "twenty"@ }
    else if n == 21 { "twenty one"@ }
    else if n == 22 { "twenty two"@ }
    else if n == 23 { "twenty three"@ }
    else if n == 24 { "twenty four"@ }
    else if n == 25 { "twenty five"@ }
    else if n == 26 { "twenty six"@ }
    else if n == 27 { "twenty seven"@ }
    else if n == 28 { "twenty eight"@ }
    else { "twenty nine"@ }
}

/// The spoken-English phrase for a valid clock reading.
pub open spec fn phrase_of(hour: int, minute: int) -> Seq<char> {
    if minute == 0 {
        num_word(hour) + " o'clock"@
    } else if minute == 1 {
        "one minute past "@ + num_word(hour)
    } else if minute == 59 {
        "one minute to "@ + num_word(hour)
    } else if minute == 15 {
        "quarter past "@ + num_word(hour)
    } else if minute == 30 {
        "half past "@ + num_word(hour)
    } else if minute == 45 {
        "quarter to "@ + num_word(hour)
    } else if minute < 30 {
        num_word(minute) + " minutes past "@ + num_word(hour)
    } else {
        num_word(60 - minute) + " minutes to "@ + num_word(next_hour(hour))
    }
}

/// All phrase variants of a valid clock reading, in order.
pub open spec fn phrases_of(hour: int, minute: int) -> Seq<Seq<char>> {
    seq![phrase_of(hour, minute)]
}

/// The word for a number below thirty.
pub fn number_word(n: usize) -> (r: &'static str)
    requires
        n < 30,
    ensures
        r@ == num_word(n as int),
{
    match n {
        0 => "zero",
        1 => "one",
        2 => "two",
        3 => "three",
        4 => "four",
        5 => "five",
        6 => "six",
        7 => "seven",
        8 => "eight",
        9 => "nine",
        10 => "ten",
        11 => "eleven",
        12 => "twelve",
        13 => "thirteen",
        14 => "fourteen",
        15 => "fifteen",
        16 => "sixteen",
        17 => "seventeen",
        18 => "eighteen",
        19 => "nineteen",
        20 => "twenty",
        21 => "twenty one",
        22 => "twenty two",
        23 => "twenty three",
        24 => "twenty four",
        25 => "twenty five",
        26 => "twenty six",
        27 => "twenty seven",
        28 => "twenty eight",
        _ => "twenty nine",
    }
}

/// Whether `hour:minute` is a reading of a 12-hour clock.
pub fn is_valid_time(hour: usize, minute: usize) -> (r: bool)
    ensures
        r == valid_time(hour as int, minute as int),
{
    1 <= hour && hour <= 12 && minute <= 59
}

/// The spoken-English phrase for `hour:minute`, or `InvalidTime` for a
/// reading that is not on a 12-hour dial.
pub fn time_to_text(hour: usize, minute: usize) -> (r: Result<String, ClockError>)
    ensures
        valid_time(hour as int, minute as int) ==> (r is Ok && r->Ok_0@ == phrase_of(
            hour as int,
            minute as int,
        )),
        !valid_time(hour as int, minute as int) ==> r == Err::<String, ClockError>(
            ClockError::InvalidTime,
        ),
{
    if !is_valid_time(hour, minute) {
        return Err(ClockError::InvalidTime);
    }
    let h = number_word(hour);
    if minute == 0 {
        Ok(String::from_str(h).concat(" o'clock"))
    } else if minute == 1 {
        Ok(String::from_str("one minute past ").concat(h))
    } else if minute == 59 {
        Ok(String::from_str("one minute to ").concat(h))
    } else if minute == 15 {
        Ok(String::from_str("quarter past ").concat(h))
    } else if minute == 30 {
        Ok(String::from_str("half past ").concat(h))
    } else if minute == 45 {
        Ok(String::from_str("quarter to ").concat(h))
    } else if minute < 30 {
        Ok(String::from_str(number_word(minute)).concat(" minutes past ").concat(h))
    } else {
        let m = number_word(60 - minute);
        let n = number_word((hour % 12) + 1);
        Ok(String::from_str(m).concat(" minutes to ").concat(n))
    }
}

/// Every phrase variant for `hour:minute`, in order, or `InvalidTime` for a
/// reading that is not on a 12-hour dial.
pub fn all_formats_to_text(hour: usize, minute: usize) -> (r: Result<Vec<String>, ClockError>)
    ensures
        valid_time(hour as int, minute as int) ==> (r is Ok && r->Ok_0@.len() == phrases_of(
            hour as int,
            minute as int,
        ).len() && forall|i: int|
            0 <= i < r->Ok_0@.len() ==> #[trigger] r->Ok_0@[i]@ == phrases_of(
                hour as int,
                minute as int,
            )[i]),
        !valid_time(hour as int, minute as int) ==> r == Err::<Vec<String>, ClockError>(
            ClockError::InvalidTime,
        ),
{
    let mut times: Vec<String> = Vec::new();
    match time_to_text(hour, minute) {
        Ok(t) => {
            times.push(t);
            Ok(times)
        },
        Err(e) => Err(e),
    }
}

/// Every reading of a 12-hour clock has at least one phrase, and no phrase
/// is empty.
pub proof fn lemma_phrases_nonempty(hour: int, minute: int)
    requires
        valid_time(hour, minute),
    ensures
        phrases_of(hour, minute).len() > 0,
        forall|i: int|
            0 <= i < phrases_of(hour, minute).len() ==> #[trigger] phrases_of(hour, minute)[i].len()
                > 0,
{
    reveal_strlit(" o'clock");
    reveal_strlit("one minute past ");
    reveal_strlit("one minute to ");
    reveal_strlit("quarter past ");
    reveal_strlit("half past ");
    reveal_strlit("quarter to ");
    reveal_strlit(" minutes past ");
    reveal_strlit(" minutes to ");
}

} // verus!
