//! A decoded sampling profile: the function table, the locations that point
//! into it, the samples with their call stacks, and the table of strings.

use vstd::prelude::*;

verus! {

/// One entry of the function table.
#[derive(Clone, Copy, Debug, PartialEq, Eq)]
pub struct Function {
    /// The function's identifier.
    pub id: u64,
    /// Index of the function's name in the string table.
    pub name: i64,
}

/// One line of a location. A location with inlined frames has several.
#[derive(Clone, Copy, Debug, PartialEq, Eq)]
pub struct Line {
    /// The function that this line belongs to.
    pub function_id: u64,
    /// The line number in the source file.
    pub line: i64,
}

/// A program site.
#[derive(Clone, Debug, PartialEq, Eq)]
pub struct Location {
    /// The location's identifier.
    pub id: u64,
    /// The lines of the site; only the first one names the site's function.
    pub line: Vec<Line>,
}

/// A measured event with its call stack.
#[derive(Clone, Debug, PartialEq, Eq)]
pub struct Sample {
    /// The call stack, as location identifiers.
    pub location_id: Vec<u64>,
    /// The measured values; the first one is the sample count.
    pub value: Vec<i64>,
}

/// A decoded profile.
#[derive(Clone, Debug, PartialEq, Eq)]
pub struct Profile {
    pub string_table: Vec<String>,
    pub function: Vec<Function>,
    pub location: Vec<Location>,
    pub sample: Vec<Sample>,
}

/// What a `Location` holds.
pub struct LocationView {
    pub id: u64,
    pub line: Seq<Line>,
}

/// What a `Sample` holds.
pub struct SampleView {
    pub location_id: Seq<u64>,
    pub value: Seq<i64>,
}

/// What a `Profile` holds.
pub struct ProfileView {
    pub string_table: Seq<Seq<char>>,
    pub function: Seq<Function>,
    pub location: Seq<LocationView>,
    pub sample: Seq<SampleView>,
}

impl View for Location {
    type V = LocationView;

    open spec fn view(&self) -> LocationView {
        LocationView { id: self.id, line: self.line@ }
    }
}

impl View for Sample {
    type V = SampleView;

    open spec fn view(&self) -> SampleView {
        SampleView { location_id: self.location_id@, value: self.value@ }
    }
}

impl View for Profile {
    type V = ProfileView;

    open spec fn view(&self) -> ProfileView {
        ProfileView {
            string_table: self.string_table@.map_values(|s: String| s@),
            function: self.function@,
            location: self.location@.map_values(|l: Location| l@),
            sample: self.sample@.map_values(|s: Sample| s@),
        }
    }
}

impl SampleView {
    /// The sample count: the first value, read as an unsigned 64-bit number.
    /// A sample without values counts nothing.
    pub open spec fn count(self) -> nat {
        if self.value.len() > 0 {
            (self.value[0] as u64) as nat
        } else {
            0
        }
    }
}

impl ProfileView {
    /// Every sample carries at least one value.
    pub open spec fn counted(self) -> bool {
        forall|k: int| 0 <= k < self.sample.len() ==> (#[trigger] self.sample[k]).value.len() > 0
    }
}

} // verus!
