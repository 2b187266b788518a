//! The decisions of unpacking an archive into a directory and of packing a
//! directory into an archive. What is on disk is the caller's to find out;
//! what follows from it is decided here.

use vstd::prelude::*;
use vstd::string::*;
use crate::entry::Entry;
use crate::error::{outcome, Error, Failure};
use crate::path::{contained, resolve, resolve_spec};

verus! {

/// Whether unpacking into `root` may begin: only into a directory that holds
/// nothing, so that nothing stale is mixed with what is unpacked.
pub fn check_output(root: &str, is_empty: bool) -> (r: Result<(), Error>)
    ensures
        if is_empty {
            r is Ok
        } else {
            r matches Err(e) && e@ == Failure::OutputNotEmpty(root@)
        },
{
    if is_empty {
        Ok(())
    } else {
        Err(Error::OutputNotEmpty(String::from_str(root)))
    }
}

/// Whether packing `root` may begin: only a directory can be packed.
pub fn check_input(root: &str, is_directory: bool) -> (r: Result<(), Error>)
    ensures
        if is_directory {
            r is Ok
        } else {
            r matches Err(e) && e@ == Failure::InputNotADirectory(root@)
        },
{
    if is_directory {
        Ok(())
    } else {
        Err(Error::InputNotADirectory(String::from_str(root)))
    }
}

/// Where each of `entries` is to be written under `root`.
///
/// Fails as a whole, before any destination is given, where the directory
/// already holds something. Otherwise every entry has its own outcome, in
/// the order of the entries: its destination, which lies within `root`, or
/// the refusal of its path. A refused entry takes nothing from the others.
pub fn plan(entries: &Vec<Entry>, root: &str, root_is_empty: bool) -> (r: Result<
    Vec<Result<String, Error>>,
    Error,
>)
    ensures
        if root_is_empty {
            r matches Ok(places) && places@.len() == entries@.len() && forall|i: int|
                0 <= i < entries@.len() ==> outcome(#[trigger] places@[i]) == resolve_spec(
                    root@,
                    entries@[i].path@,
                ) && (places@[i] is Ok ==> contained(root@, places@[i]->Ok_0@))
        } else {
            r matches Err(e) && e@ == Failure::OutputNotEmpty(root@)
        },
{
    match check_output(root, root_is_empty) {
        Ok(_) => {},
        Err(e) => {
            return Err(e);
        },
    }
    let mut places: Vec<Result<String, Error>> = Vec::new();
    let mut i: usize = 0;
    while i < entries.len()
        invariant
            i <= entries@.len(),
            places@.len() == i,
            forall|k: int|
                0 <= k < i ==> outcome(#[trigger] places@[k]) == resolve_spec(
                    root@,
                    entries@[k].path@,
                ) && (places@[k] is Ok ==> contained(root@, places@[k]->Ok_0@)),
        decreases entries@.len() - i,
    {
        let place = resolve(root, entries[i].path.as_str());
        places.push(place);
        i += 1;
    }
    Ok(places)
}

} // verus!
