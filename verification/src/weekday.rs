//! Days of the week.

use vstd::prelude::*;

verus! {

/// A day of the week.
#[derive(Clone, Copy, Debug, PartialEq, Eq, Hash, Structural)]
pub enum Weekday {
    Mon,
    Tue,
    Wed,
    Thu,
    Fri,
    Sat,
    Sun,
}

pub open spec fn spec_num_days_from_monday(w: Weekday) -> int {
    match w {
        Weekday::Mon => 0,
        Weekday::Tue => 1,
        Weekday::Wed => 2,
        Weekday::Thu => 3,
        Weekday::Fri => 4,
        Weekday::Sat => 5,
        Weekday::Sun => 6,
    }
}

/// The English name of a weekday, as a sequence of characters.
pub open spec fn long_name(w: Weekday) -> Seq<char> {
    match w {
        Weekday::Mon => seq!['M', 'o', 'n', 'd', 'a', 'y'],
        Weekday::Tue => seq!['T', 'u', 'e', 's', 'd', 'a', 'y'],
        Weekday::Wed => seq!['W', 'e', 'd', 'n', 'e', 's', 'd', 'a', 'y'],
        Weekday::Thu => seq!['T', 'h', 'u', 'r', 's', 'd', 'a', 'y'],
        Weekday::Fri => seq!['F', 'r', 'i', 'd', 'a', 'y'],
        Weekday::Sat => seq!['S', 'a', 't', 'u', 'r', 'd', 'a', 'y'],
        Weekday::Sun => seq!['S', 'u', 'n', 'd', 'a', 'y'],
    }
}

impl Weekday {
    /// Days since Monday: 0 for Monday up to 6 for Sunday.
    pub fn num_days_from_monday(&self) -> (n: u32)
        ensures
            n == spec_num_days_from_monday(*self),
    {
        match self {
            Weekday::Mon => 0,
            Weekday::Tue => 1,
            Weekday::Wed => 2,
            Weekday::Thu => 3,
            Weekday::Fri => 4,
            Weekday::Sat => 5,
            Weekday::Sun => 6,
        }
    }
}

} // verus!
