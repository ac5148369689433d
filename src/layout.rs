use vstd::prelude::*;

verus! {

/// A side of a panel.
#[derive(PartialEq, Eq, Structural, Debug, Clone, Copy)]
pub enum Dir4 {
    Left,
    Right,
    Bottom,
    Top,
}

/// The axis along which panels are laid out.
#[derive(PartialEq, Eq, Structural, Debug, Clone, Copy)]
pub enum Dir2 {
    Horizontal,
    Vertical,
}

/// The name of a side.
pub open spec fn side_name(d: Dir4) -> Seq<char> {
    match d {
        Dir4::Bottom => "bottom"@,
        Dir4::Left => "left"@,
        Dir4::Right => "right"@,
        Dir4::Top => "top"@,
    }
}

/// Panels on the top or bottom stack vertically; those on the left or right,
/// horizontally.
pub open spec fn axis_of(d: Dir4) -> Dir2 {
    match d {
        Dir4::Bottom | Dir4::Top => Dir2::Vertical,
        Dir4::Left | Dir4::Right => Dir2::Horizontal,
    }
}

impl Dir4 {
    /// The name of the side.
    pub fn to_string(&self) -> (r: String)
        ensures
            r@ == side_name(*self),
    {
        match self {
            Dir4::Bottom => "bottom".to_owned(),
            Dir4::Left => "left".to_owned(),
            Dir4::Right => "right".to_owned(),
            Dir4::Top => "top".to_owned(),
        }
    }
}

impl From<Dir4> for Dir2 {
    fn from(val: Dir4) -> (r: Dir2) {
        match val {
            Dir4::Bottom | Dir4::Top => Dir2::Vertical,
            Dir4::Right | Dir4::Left => Dir2::Horizontal,
        }
    }
}

impl vstd::std_specs::convert::FromSpecImpl<Dir4> for Dir2 {
    open spec fn obeys_from_spec() -> bool {
        true
    }

    open spec fn from_spec(val: Dir4) -> Dir2 {
        axis_of(val)
    }
}

} // verus!
