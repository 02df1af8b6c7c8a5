use vstd::prelude::*;

verus! {

/// Up-axis convention: fixes which axis is vertical, and with it the packing
/// order of the voxel grid's linear index.
#[derive(Debug, Clone, Copy, PartialEq, Eq, Structural)]
pub enum UpAxis {
    YUp,
    ZUp,
}

/// Nominal width of the coordinate types, selected once per build.
#[derive(Debug, Clone, Copy, PartialEq, Eq, Structural)]
pub enum NumericWidth {
    Width32,
    Width64,
}

/// Coordinate-system handedness, selected once per build.
#[derive(Debug, Clone, Copy, PartialEq, Eq, Structural)]
pub enum Handedness {
    LeftHanded,
    RightHanded,
}

/// A configuration option pair where zero or both options were selected.
#[derive(Debug, Clone, Copy, PartialEq, Eq, Structural)]
pub enum ConfigError {
    UpAxisSelection,
    NumericWidthSelection,
    HandednessSelection,
}

/// The validated build-wide configuration: exactly one option of each pair.
///
/// It is resolved once, before any grid exists, and threaded explicitly to
/// the code that depends on it; only the up-axis choice affects the verified
/// core's behaviour (through the index packing order).
#[derive(Debug, Clone, Copy, PartialEq, Eq, Structural)]
pub struct GridConfig {
    pub up_axis: UpAxis,
    pub numeric_width: NumericWidth,
    pub handedness: Handedness,
}

impl GridConfig {
    /// Validates a selection of build options. Each pair of flags must have
    /// exactly one member set; the first pair violating that (up-axis, then
    /// numeric width, then handedness) is reported as the error.
    pub fn resolve(
        y_up: bool,
        z_up: bool,
        width_32: bool,
        width_64: bool,
        left_handed: bool,
        right_handed: bool,
    ) -> (r: Result<GridConfig, ConfigError>)
        ensures
            r is Ok <==> (y_up != z_up && width_32 != width_64 && left_handed != right_handed),
            y_up == z_up ==> r == Result::<GridConfig, ConfigError>::Err(
                ConfigError::UpAxisSelection,
            ),
            y_up != z_up && width_32 == width_64 ==> r == Result::<GridConfig, ConfigError>::Err(
                ConfigError::NumericWidthSelection,
            ),
            y_up != z_up && width_32 != width_64 && left_handed == right_handed ==> r
                == Result::<GridConfig, ConfigError>::Err(ConfigError::HandednessSelection),
            r matches Ok(c) ==> {
                &&& c.up_axis == (if y_up {
                    UpAxis::YUp
                } else {
                    UpAxis::ZUp
                })
                &&& c.numeric_width == (if width_32 {
                    NumericWidth::Width32
                } else {
                    NumericWidth::Width64
                })
                &&& c.handedness == (if left_handed {
                    Handedness::LeftHanded
                } else {
                    Handedness::RightHanded
                })
            },
    {
        if y_up == z_up {
            return Result::Err(ConfigError::UpAxisSelection);
        }
        if width_32 == width_64 {
            return Result::Err(ConfigError::NumericWidthSelection);
        }
        if left_handed == right_handed {
            return Result::Err(ConfigError::HandednessSelection);
        }
        Result::Ok(
            GridConfig {
                up_axis: if y_up {
                    UpAxis::YUp
                } else {
                    UpAxis::ZUp
                },
                numeric_width: if width_32 {
                    NumericWidth::Width32
                } else {
                    NumericWidth::Width64
                },
                handedness: if left_handed {
                    Handedness::LeftHanded
                } else {
                    Handedness::RightHanded
                },
            },
        )
    }
}

} // verus!
