use vstd::prelude::*;

verus! {

/// Selector for the pathfinding algorithm a grid query delegates to.
///
/// A closed enumeration so that further algorithms can be added without
/// changing the query interface; Jump Point Search is the only variant.
#[derive(Debug, Clone, Copy, PartialEq, Eq, Structural)]
pub enum PathfindingType {
    Jps,
}

} // verus!
