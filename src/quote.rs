use vstd::prelude::*;

verus! {

pub const QUOTE_0: &'static str = "\"It is good to love many things, for therein lies the true strength, and whosoever loves much performs much, and can accomplish much, and what is done in love is well done.\" --VVG";

pub const QUOTE_1: &'static str = "\"I dream my painting and I paint my dream.\" --VVG";

pub const QUOTE_2: &'static str = "\"Be clearly aware of the stars and infinity on high. Then life seems almost enchanted after all.\" --VVG";

pub const QUOTE_3: &'static str = "\"There is nothing more truly artistic than to love people.\" --VVG";

pub const QUOTE_4: &'static str = "\"A great fire burns within me, but no one stops to warm themselves at it, and passers-by only see a wisp of smoke\" --VVG";

pub const QUOTE_5: &'static str = "\"I don't know anything with certainty, but seeing the stars makes me dream.\" --VVG";

pub const QUOTE_6: &'static str = "\"Normality is a paved road: It’s comfortable to walk, but no flowers grow on it.\" --VVG";

pub const QUOTE_7: &'static str = "\"If you hear a voice within you say you cannot paint, then by all means paint and that voice will be silenced.\" --VVG";

pub const QUOTE_8: &'static str = "\"I put my heart and soul into my work, and I have lost my mind in the process.\" --VVG";

pub const QUOTE_9: &'static str = "\"I often think that the night is more alive and more richly colored than the day.\" --VVG";

/// Quote number `i` of the ten.
pub open spec fn quote(i: int) -> &'static str {
    if i == 0 {
        QUOTE_0
    } else if i == 1 {
        QUOTE_1
    } else if i == 2 {
        QUOTE_2
    } else if i == 3 {
        QUOTE_3
    } else if i == 4 {
        QUOTE_4
    } else if i == 5 {
        QUOTE_5
    } else if i == 6 {
        QUOTE_6
    } else if i == 7 {
        QUOTE_7
    } else if i == 8 {
        QUOTE_8
    } else {
        QUOTE_9
    }
}

/// The quote that `seconds` (a count of seconds) selects: number
/// `seconds % 10`.
pub fn random_quote(seconds: u64) -> (r: String)
    ensures
        r@ == quote((seconds % 10) as int)@,
{
    let a = seconds % 10;
    let q = if a == 0 {
        QUOTE_0
    } else if a == 1 {
        QUOTE_1
    } else if a == 2 {
        QUOTE_2
    } else if a == 3 {
        QUOTE_3
    } else if a == 4 {
        QUOTE_4
    } else if a == 5 {
        QUOTE_5
    } else if a == 6 {
        QUOTE_6
    } else if a == 7 {
        QUOTE_7
    } else if a == 8 {
        QUOTE_8
    } else {
        QUOTE_9
    };
    q.to_owned()
}

} // verus!
