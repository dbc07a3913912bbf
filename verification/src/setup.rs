//! The sizes that the universal setup is run for.

use vstd::prelude::*;

verus! {

/// Bounds on a circuit: constraints, variables, non-zero matrix entries.
#[derive(Clone, Copy, Debug, PartialEq, Eq, Structural)]
pub struct SetupSizes {
    pub num_constraints: usize,
    pub num_variables: usize,
    pub num_non_zero: usize,
}

/// The sizes kept under a name: `example` and `nopack` have their own, and
/// every other name stands for the packed circuit.
pub open spec fn sizes_of(name: Seq<char>) -> SetupSizes {
    if name == "example"@ {
        SetupSizes { num_constraints: 100, num_variables: 100, num_non_zero: 100 }
    } else if name == "nopack"@ {
        SetupSizes { num_constraints: 1300000, num_variables: 1300000, num_non_zero: 6000000 }
    } else {
        SetupSizes { num_constraints: 440000, num_variables: 561000, num_non_zero: 4660000 }
    }
}

/// The sizes of the largest setup that is ever made.
pub open spec fn largest_sizes() -> SetupSizes {
    SetupSizes { num_constraints: 5000000, num_variables: 5000000, num_non_zero: 10000000 }
}

/// The sizes for a setup that serves every circuit.
pub fn universal_sizes() -> (sizes: SetupSizes)
    ensures
        sizes == largest_sizes(),
{
    SetupSizes { num_constraints: 5000000, num_variables: 5000000, num_non_zero: 10000000 }
}

/// The sizes for the named setup.
pub fn setup_sizes(name: &str) -> (sizes: SetupSizes)
    ensures
        sizes == sizes_of(name@),
{
    let owned = name.to_owned();
    if owned == "example".to_owned() {
        SetupSizes { num_constraints: 100, num_variables: 100, num_non_zero: 100 }
    } else if owned == "nopack".to_owned() {
        SetupSizes { num_constraints: 1300000, num_variables: 1300000, num_non_zero: 6000000 }
    } else {
        SetupSizes { num_constraints: 440000, num_variables: 561000, num_non_zero: 4660000 }
    }
}

} // verus!
