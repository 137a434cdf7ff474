//! Names accepted for colormaps, slice planes and length units, and the
//! enumerations they select.
use vstd::prelude::*;

verus! {

broadcast use vstd::string::group_string_axioms;

/// Characters of `s` in lower case, as `str::to_lowercase` gives them.
pub uninterp spec fn lower_of(s: Seq<char>) -> Seq<char>;

/// Characters of `s` in upper case, as `str::to_uppercase` gives them.
pub uninterp spec fn upper_of(s: Seq<char>) -> Seq<char>;

/// Relies on `str::to_lowercase`: the result depends on the characters alone.
#[verifier::external_body]
fn lowercase(s: &str) -> (r: String)
    ensures
        r@ == lower_of(s@),
{
    s.to_lowercase()
}

/// Relies on `str::to_uppercase`: the result depends on the characters alone.
#[verifier::external_body]
fn uppercase(s: &str) -> (r: String)
    ensures
        r@ == upper_of(s@),
{
    s.to_uppercase()
}

/// `s` spells exactly `name`.
fn is_name(s: &String, name: &str) -> (r: bool)
    ensures
        r == (s@ == name@),
{
    let n = name.to_string();
    *s == n
}

/// Colour scale used to render a field slice.
#[derive(Clone, Copy, Debug, PartialEq, Eq, Structural)]
pub enum Colormap {
    Jet,
    Viridis,
    Plasma,
}

/// Colormap selected by an already lower-cased name; unknown names give `Jet`.
pub open spec fn colormap_named(s: Seq<char>) -> Colormap {
    if s == "viridis"@ {
        Colormap::Viridis
    } else if s == "plasma"@ {
        Colormap::Plasma
    } else {
        Colormap::Jet
    }
}

impl Colormap {
    /// Colormap for a name already in lower case.
    pub fn from_lowercase(s: &String) -> (r: Colormap)
        ensures
            r == colormap_named(s@),
    {
        if is_name(s, "viridis") {
            Colormap::Viridis
        } else if is_name(s, "plasma") {
            Colormap::Plasma
        } else {
            Colormap::Jet
        }
    }

    /// Colormap for a name in any case: "viridis" and "plasma" select those
    /// scales, anything else selects `Jet`.
    pub fn from_str(s: &str) -> (r: Colormap)
        ensures
            r == colormap_named(lower_of(s@)),
    {
        let folded = lowercase(s);
        Colormap::from_lowercase(&folded)
    }
}

impl Default for Colormap {
    fn default() -> (r: Colormap)
        ensures
            r == Colormap::Jet,
    {
        Colormap::Jet
    }
}

/// Orientation of a 2D field plane by the two axes it spans.
#[derive(Clone, Copy, Debug, PartialEq, Eq, Structural)]
pub enum PlaneType {
    XZ,
    XY,
    YZ,
}

/// Plane selected by an already upper-cased name; unknown names give `XZ`.
pub open spec fn plane_named(s: Seq<char>) -> PlaneType {
    if s == "XY"@ {
        PlaneType::XY
    } else if s == "YZ"@ {
        PlaneType::YZ
    } else {
        PlaneType::XZ
    }
}

/// Plane for a name already in upper case.
pub fn plane_type_from_uppercase(s: &String) -> (r: PlaneType)
    ensures
        r == plane_named(s@),
{
    if is_name(s, "XY") {
        PlaneType::XY
    } else if is_name(s, "YZ") {
        PlaneType::YZ
    } else {
        PlaneType::XZ
    }
}

/// Plane for a name in any case: "XY" and "YZ" select those planes,
/// anything else selects `XZ`.
pub fn parse_plane_type(plane_str: &str) -> (r: PlaneType)
    ensures
        r == plane_named(upper_of(plane_str@)),
{
    let folded = uppercase(plane_str);
    plane_type_from_uppercase(&folded)
}

/// A metric length unit.
#[derive(Clone, Copy, Debug, PartialEq, Eq, Structural)]
pub enum LengthUnit {
    Meter,
    Millimeter,
    Micrometer,
    Nanometer,
}

/// Power of ten of the metre that a unit stands for.
pub open spec fn exponent_of(u: LengthUnit) -> int {
    match u {
        LengthUnit::Meter => 0,
        LengthUnit::Millimeter => -3,
        LengthUnit::Micrometer => -6,
        LengthUnit::Nanometer => -9,
    }
}

impl LengthUnit {
    /// The unit is `10^e` metres; this returns `e`.
    pub fn decimal_exponent(&self) -> (r: i32)
        ensures
            r == exponent_of(*self),
    {
        match self {
            LengthUnit::Meter => 0,
            LengthUnit::Millimeter => -3,
            LengthUnit::Micrometer => -6,
            LengthUnit::Nanometer => -9,
        }
    }

    /// One of this unit is `10^e` of `target`; this returns `e`.
    pub fn scale_exponent(&self, target: &LengthUnit) -> (r: i32)
        ensures
            r == exponent_of(*self) - exponent_of(*target),
    {
        self.decimal_exponent() - target.decimal_exponent()
    }
}

/// A unit name that is not recognised.
#[derive(Debug, PartialEq, Eq)]
pub struct UnknownUnit {
    pub name: String,
}

/// Unit selected by an already lower-cased name.
pub open spec fn unit_named(s: Seq<char>) -> Option<LengthUnit> {
    if s == "m"@ || s == "meter"@ || s == "meters"@ {
        Some(LengthUnit::Meter)
    } else if s == "mm"@ || s == "millimeter"@ || s == "millimeters"@ {
        Some(LengthUnit::Millimeter)
    } else if s == "um"@ || s == "\u{b5}m"@ || s == "micrometer"@ || s == "micrometers"@ {
        Some(LengthUnit::Micrometer)
    } else if s == "nm"@ || s == "nanometer"@ || s == "nanometers"@ {
        Some(LengthUnit::Nanometer)
    } else {
        None
    }
}

/// Unit for a name already in lower case.
pub fn unit_from_lowercase(s: &String) -> (r: Option<LengthUnit>)
    ensures
        r == unit_named(s@),
{
    if is_name(s, "m") || is_name(s, "meter") || is_name(s, "meters") {
        Some(LengthUnit::Meter)
    } else if is_name(s, "mm") || is_name(s, "millimeter") || is_name(s, "millimeters") {
        Some(LengthUnit::Millimeter)
    } else if is_name(s, "um") || is_name(s, "\u{b5}m") || is_name(s, "micrometer") || is_name(
        s,
        "micrometers",
    ) {
        Some(LengthUnit::Micrometer)
    } else if is_name(s, "nm") || is_name(s, "nanometer") || is_name(s, "nanometers") {
        Some(LengthUnit::Nanometer)
    } else {
        None
    }
}

/// Unit for a name in any case (m, mm, um or µm, nm, and the spelled-out
/// names, singular or plural); an unknown name is returned in the error.
pub fn parse_unit(s: &str) -> (r: Result<LengthUnit, UnknownUnit>)
    ensures
        unit_named(lower_of(s@)) matches Some(u) ==> r == Ok::<LengthUnit, UnknownUnit>(u),
        unit_named(lower_of(s@)) is None ==> (r matches Err(e) && e.name@ == s@),
{
    let folded = lowercase(s);
    match unit_from_lowercase(&folded) {
        Some(u) => Ok(u),
        None => Err(UnknownUnit { name: s.to_string() }),
    }
}

/// Boolean operation of constructive solid geometry.
#[derive(Clone, Copy, Debug, PartialEq, Eq, Structural)]
pub enum CsgOperation {
    Union,
    Difference,
    Intersect,
}

} // verus!
