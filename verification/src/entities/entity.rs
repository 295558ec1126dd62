use vstd::prelude::*;
use std::collections::HashSet;

verus! {

/// What an entity's controls changed: the ids modified, and the ids not to
/// be told about it.
pub struct ControlResult {
    pub modified: HashSet<usize>,
    pub notification_excluded: HashSet<usize>,
}

impl Default for ControlResult {
    fn default() -> (r: ControlResult)
        ensures
            r.modified@ == Set::<usize>::empty(),
            r.notification_excluded@ == Set::<usize>::empty(),
    {
        ControlResult { modified: HashSet::new(), notification_excluded: HashSet::new() }
    }
}

/// How an entity is drawn.
#[derive(Clone, Copy, Debug, PartialEq, Eq, Structural)]
pub enum DrawType {
    Regular,
    Selected,
    Virtual,
    SelectedVirtual,
}

} // verus!
