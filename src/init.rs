//! Setting up the directory that holds all containers.
use vstd::prelude::*;
use crate::plan::{Action, Step};
use crate::qbox::{boxes_dir, get_boxes_path};

verus! {

/// Setting up the data directory: the directory of all containers is made
/// when it does not exist, and nothing is done when it does.
pub fn init(data_dir: &str, boxes_exists: bool) -> (r: Option<Action>)
    ensures
        boxes_exists ==> r is None,
        !boxes_exists ==> (r matches Some(a) && a@ == Step::MakeDir(boxes_dir(data_dir@))),
{
    if boxes_exists {
        None
    } else {
        Some(Action::MakeDir(get_boxes_path(data_dir)))
    }
}

} // verus!
