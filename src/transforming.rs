use vstd::prelude::*;

verus! {

/// The coordinate axis about which a rotation turns mesh geometry.
#[allow(non_camel_case_types)]
#[derive(Clone, Copy, Debug, PartialEq, Eq, Structural)]
pub enum Axis {
    x_axis,
    y_axis,
    z_axis,
}

} // verus!
