//! Decisions of the filesystem adapter that maps WebDAV operations onto the
//! drive's id-addressed calls.
use vstd::prelude::*;

use crate::paths::{base_name, base_of, has_parent, parent_of, parent_path};
use crate::text::same_text;

verus! {

/// The remote calls that carry out a rename from one path to another.
pub struct RenamePlan {
    /// The directory that holds the entry now.
    pub from_parent: String,
    /// The directory that is to hold it.
    pub to_parent: String,
    /// Whether the entry changes directory (`move` into `to_parent`).
    pub moves: bool,
    /// The new name, when it differs from the current one (`rename`).
    pub new_name: Option<String>,
}

/// Plans a rename of the entry called `current_name` at `from` to `to`: a move
/// when the parent changes, then a rename when the last segment differs. Both
/// parents' listings go stale. `None` when either path has no parent.
pub fn plan_rename(from: &str, to: &str, current_name: &str) -> (r: Option<RenamePlan>)
    ensures
        r is None <==> !has_parent(from@) || !has_parent(to@),
        r matches Some(p) ==> {
            &&& p.from_parent@ == parent_of(from@)
            &&& p.to_parent@ == parent_of(to@)
            &&& p.moves == (parent_of(from@) != parent_of(to@))
            &&& p.new_name is Some <==> base_of(to@) != current_name@
            &&& p.new_name matches Some(n) ==> n@ == base_of(to@)
        },
{
    let from_parent = match parent_path(from) {
        Some(p) => p,
        None => return None,
    };
    let to_parent = match parent_path(to) {
        Some(p) => p,
        None => return None,
    };
    let moves = !same_text(from_parent.as_str(), to_parent.as_str());
    let name = base_name(to);
    let new_name = if same_text(name.as_str(), current_name) {
        None
    } else {
        Some(name)
    };
    Some(RenamePlan { from_parent, to_parent, moves, new_name })
}

/// How many bytes a read of `count` from offset `pos` of a file of `size`
/// bytes returns: what is left of the file, at most `count`.
pub fn read_window(size: u64, pos: u64, count: u64) -> (r: u64)
    ensures
        pos >= size ==> r == 0,
        pos < size ==> r == if count < size - pos {
            count
        } else {
            (size - pos) as u64
        },
{
    if pos >= size {
        0
    } else if count < size - pos {
        count
    } else {
        size - pos
    }
}

} // verus!
