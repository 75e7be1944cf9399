//! Units that progress is counted in.

use vstd::prelude::*;

verus! {

/// Where extra information is rendered.
#[derive(Copy, Clone, PartialEq, Eq, Structural, Debug)]
pub enum Location {
    /// Before the progress value.
    BeforeValue,
    /// After the unit.
    AfterUnit,
}

/// How a value is shown besides its number and unit.
#[derive(Copy, Clone, PartialEq, Eq, Structural, Debug)]
pub struct Mode {
    /// Where extra information is rendered.
    pub location: Location,
    /// Whether the percentage is shown.
    pub percent: bool,
    /// Whether throughput is shown.
    pub throughput: bool,
}

impl Mode {
    /// Show the percentage, after the unit.
    pub fn with_percentage() -> (res: Mode)
        ensures
            res == (Mode { location: Location::AfterUnit, percent: true, throughput: false }),
    {
        Mode { location: Location::AfterUnit, percent: true, throughput: false }
    }

    /// Show throughput as well.
    pub fn and_throughput(self) -> (res: Mode)
        ensures
            res == (Mode { throughput: true, ..self }),
    {
        Mode { location: self.location, percent: self.percent, throughput: true }
    }

    /// The location, whether the percentage is shown, and whether throughput is shown.
    pub fn parts(&self) -> (res: (Location, bool, bool))
        ensures
            res == (self.location, self.percent, self.throughput),
    {
        (self.location, self.percent, self.throughput)
    }

    /// The mode with these parts.
    pub fn from_parts(location: Location, percent: bool, throughput: bool) -> (res: Mode)
        ensures
            res == (Mode { location, percent, throughput }),
    {
        Mode { location, percent, throughput }
    }
}

/// What names a unit.
#[derive(PartialEq, Eq, Debug)]
pub enum Kind {
    /// A fixed label.
    Label(String),
    /// A unit that is rendered by code; the number tells one such unit from another.
    Dynamic(u64),
}

/// A unit and how values in it are shown.
#[derive(PartialEq, Eq, Debug)]
pub struct Unit {
    /// What names the unit.
    pub kind: Kind,
    /// How values are shown, if not plainly.
    pub mode: Option<Mode>,
}

impl Clone for Unit {
    fn clone(&self) -> (res: Unit)
        ensures
            res == *self,
    {
        let kind = match &self.kind {
            Kind::Label(label) => Kind::Label(label.clone()),
            Kind::Dynamic(id) => Kind::Dynamic(*id),
        };
        Unit { kind, mode: self.mode }
    }
}

impl Unit {
    /// The unit with this label and mode.
    pub fn from_label(label: String, mode: Option<Mode>) -> (res: Unit)
        ensures
            res == (Unit { kind: Kind::Label(label), mode }),
    {
        Unit { kind: Kind::Label(label), mode }
    }

    /// The label, unless the unit is rendered by code.
    pub fn label_str(&self) -> (res: Option<&String>)
        ensures
            res == (match self.kind {
                Kind::Label(label) => Some(&label),
                Kind::Dynamic(_) => None,
            }),
    {
        match &self.kind {
            Kind::Label(label) => Some(label),
            Kind::Dynamic(_) => None,
        }
    }

    /// How values are shown, if not plainly.
    pub fn mode(&self) -> (res: Option<Mode>)
        ensures
            res == self.mode,
    {
        self.mode
    }
}

/// The unit with this label, shown plainly.
pub fn label(text: &str) -> (res: Unit)
    ensures
        res.mode is None,
        res.kind matches Kind::Label(label) && label@ == text@,
{
    Unit { kind: Kind::Label(text.to_owned()), mode: None }
}

/// The unit with this label and mode.
pub fn label_and_mode(text: &str, mode: Mode) -> (res: Unit)
    ensures
        res.mode == Some(mode),
        res.kind matches Kind::Label(label) && label@ == text@,
{
    Unit { kind: Kind::Label(text.to_owned()), mode: Some(mode) }
}

/// The unit that is rendered by the code known as `id`.
pub fn dynamic(id: u64) -> (res: Unit)
    ensures
        res == (Unit { kind: Kind::Dynamic(id), mode: None }),
{
    Unit { kind: Kind::Dynamic(id), mode: None }
}

} // verus!
