//! Display rules for measurements: the unit label and the number of decimals
//! shown when a value is converted to another unit.
//!
//! The numeric conversion itself (mm ↔ inch on floating-point values) is done
//! by the application; the decisions it follows are made here.

use vstd::prelude::*;

use crate::frame::{spec_point_code, Measurement, Unit};

verus! {

/// The label of a unit.
pub open spec fn spec_unit_label(unit: Unit) -> Seq<char> {
    match unit {
        Unit::Mm => "mm"@,
        Unit::Inch => "inch"@,
    }
}

/// The label shown after a value.
pub fn unit_label(unit: Unit) -> (r: &'static str)
    ensures
        r@ == spec_unit_label(unit),
{
    match unit {
        Unit::Mm => "mm",
        Unit::Inch => "inch",
    }
}

/// Decimals shown for a measurement of `point` decimals in `from` units
/// displayed in `to` units: two more when mm is shown as inch, two fewer (at
/// least one) when inch is shown as mm, else the same.
pub open spec fn spec_display_precision(point: int, from: Unit, to: Unit) -> int {
    match (from, to) {
        (Unit::Mm, Unit::Inch) => point + 2,
        (Unit::Inch, Unit::Mm) => if point - 2 > 1 {
            point - 2
        } else {
            1
        },
        _ => point,
    }
}

/// The number of decimals to show for a measurement in the display unit.
pub fn display_precision(m: &Measurement, display_unit: Unit) -> (r: usize)
    ensures
        r == spec_display_precision(
            spec_point_code(m.spec_point()) as int,
            m.spec_unit(),
            display_unit,
        ),
{
    let point = m.point().code() as usize;
    match (m.unit(), display_unit) {
        (Unit::Mm, Unit::Inch) => point + 2,
        (Unit::Inch, Unit::Mm) => {
            let shifted = if point >= 2 {
                point - 2
            } else {
                0
            };
            if shifted > 1 {
                shifted
            } else {
                1
            }
        },
        _ => point,
    }
}

} // verus!
