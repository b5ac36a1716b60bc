//! The fixed locator table: the structural path each logical field resolves
//! through in the rendered page, and the address of the page itself.

use vstd::prelude::*;

verus! {

/// The logical fields the pipeline extracts from the page.
#[derive(Clone, Copy, Debug, PartialEq, Eq, Structural)]
pub enum Field {
    DaysInOffice,
    DaysGolfing,
    PercentGolfing,
    Since,
    GolfDayList,
}

/// The structural locator of each field.
pub open spec fn spec_locator(f: Field) -> Seq<char> {
    match f {
        Field::DaysInOffice => "main .grid div:nth-child(1) > p:nth-child(2)"@,
        Field::DaysGolfing => "main .grid div:nth-child(2) > p:nth-child(2)"@,
        Field::PercentGolfing => "main .grid div:nth-child(3) > p:nth-child(2)"@,
        Field::Since => "main .grid div:nth-child(1) > p:nth-child(3)"@,
        Field::GolfDayList => "main .container:nth-child(2) ul li p:nth-child(1)"@,
    }
}

/// Looks a field's locator up; the table is fixed, so lookup by any field
/// always succeeds.
pub fn locator_for(f: Field) -> (r: &'static str)
    ensures
        r@ == spec_locator(f),
{
    match f {
        Field::DaysInOffice => "main .grid div:nth-child(1) > p:nth-child(2)",
        Field::DaysGolfing => "main .grid div:nth-child(2) > p:nth-child(2)",
        Field::PercentGolfing => "main .grid div:nth-child(3) > p:nth-child(2)",
        Field::Since => "main .grid div:nth-child(1) > p:nth-child(3)",
        Field::GolfDayList => "main .container:nth-child(2) ul li p:nth-child(1)",
    }
}

/// The address of the page one report is extracted from.
pub open spec fn spec_source_url() -> Seq<char> {
    "https://trumpgolftrack.com"@
}

pub fn source_url() -> (r: &'static str)
    ensures
        r@ == spec_source_url(),
{
    "https://trumpgolftrack.com"
}

} // verus!
