//! The record shape the calendar-export adapter consumes: the raw
//! date line and header, with the per-section entry lists.

use vstd::prelude::*;

verus! {

/// One day's data as the export adapter takes it: the date line and
/// header still unsplit, plus the three entry lists.
#[derive(Clone, Debug)]
pub struct OrthoCalendarData {
    /// The full date line, Gregorian and Julian parts separated by a
    /// slash.
    pub date: String,
    /// The raw header line: feast title and liturgical details.
    pub header: String,
    /// One entry per commemorated figure, in source order.
    pub lives: Vec<String>,
    /// Hymn texts, in source order.
    pub troparia: Vec<String>,
    /// Scripture citations or texts, in source order.
    pub scripture: Vec<String>,
}

/// The mathematical content of an export record.
pub struct ExportRecordView {
    pub date: Seq<char>,
    pub header: Seq<char>,
    pub lives: Seq<Seq<char>>,
    pub troparia: Seq<Seq<char>>,
    pub scripture: Seq<Seq<char>>,
}

impl View for OrthoCalendarData {
    type V = ExportRecordView;

    open spec fn view(&self) -> ExportRecordView {
        ExportRecordView {
            date: self.date@,
            header: self.header@,
            lives: self.lives.deep_view(),
            troparia: self.troparia.deep_view(),
            scripture: self.scripture.deep_view(),
        }
    }
}

} // verus!
