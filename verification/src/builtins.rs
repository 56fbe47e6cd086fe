//! Builtin programs, and whether a feature stands for their migration.

use vstd::prelude::*;

verus! {

/// What a program is with regard to the builtin programs: none of them, one
/// of them for which no migration is planned, or one of them that migrates
/// under the feature at the given position among the migration features.
#[derive(Clone, Copy, Debug, PartialEq, Eq, Structural)]
pub enum BuiltinMigrationFeatureIndex {
    NotBuiltin,
    BuiltinNoMigrationFeature,
    BuiltinWithMigrationFeature(usize),
}

} // verus!
