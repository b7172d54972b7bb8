//! Running from a RAM disk: where the copies live, what is copied at start
//! and back at shutdown, and how configured paths are moved onto it.
use vstd::prelude::*;
use crate::text::{chars_of, find_str_from, occ_from, starts_with, starts_with_chars, string_of};

verus! {

/// A RAM-disk copy of the backend's data and servers directories.
#[derive(Debug)]
pub struct RamDisk {
    pub root: String,
    pub original_data_dir: String,
    pub original_servers_dir: String,
    pub data_dir: String,
    pub servers_dir: String,
}

/// What to do with one directory when the RAM disk is set up.
#[derive(Debug)]
pub enum SetupStep {
    /// Copy the original onto the RAM disk.
    Copy,
    /// Create an empty directory on the RAM disk.
    Create,
    /// Leave things as they are.
    Keep,
}

/// The data directory is copied when it exists and has no copy yet, and
/// created empty when it does not exist.
pub fn data_setup_step(original_exists: bool, copy_exists: bool) -> (r: SetupStep)
    ensures
        original_exists && !copy_exists ==> r is Copy,
        !original_exists ==> r is Create,
        original_exists && copy_exists ==> r is Keep,
{
    if original_exists && !copy_exists {
        SetupStep::Copy
    } else if !original_exists {
        SetupStep::Create
    } else {
        SetupStep::Keep
    }
}

/// The servers directory is copied when it exists and has no copy yet.
pub fn servers_setup_step(original_exists: bool, copy_exists: bool) -> (r: SetupStep)
    ensures
        original_exists && !copy_exists ==> r is Copy,
        !(original_exists && !copy_exists) ==> r is Keep,
{
    if original_exists && !copy_exists {
        SetupStep::Copy
    } else {
        SetupStep::Keep
    }
}

/// A copy on the RAM disk replaces its original at shutdown when it exists.
pub fn sync_back_step(copy_exists: bool) -> (replace: bool)
    ensures
        replace == copy_exists,
{
    copy_exists
}

/// `s` with the first occurrence of `from` replaced by `to`
/// (`str::replacen(from, to, 1)`).
pub open spec fn replace_first(s: Seq<char>, from: Seq<char>, to: Seq<char>) -> Seq<char> {
    match occ_from(s, from, 0) {
        Some(i) => s.subrange(0, i) + to + s.subrange(i + from.len(), s.len() as int),
        None => s,
    }
}

/// Replaces the first occurrence of `from` in `s` by `to`.
pub fn replace_first_str(s: &str, from: &str, to: &str) -> (r: String)
    ensures
        r@ == replace_first(s@, from@, to@),
{
    let c = chars_of(s);
    let f = chars_of(from);
    match find_str_from(&c, &f, 0) {
        None => String::from_str(s),
        Some(i) => {
            proof {
                crate::text::lemma_occ_from(c@, f@, 0);
            }
            let len = c.len();
            assert(i + f@.len() <= len);
            let head = crate::text::slice_range(&c, 0, i);
            let tail = crate::text::slice_range(&c, i + f.len(), len);
            let mut r = string_of(&head);
            r.append(to);
            r.append(string_of(&tail).as_str());
            r
        },
    }
}

/// Where an instance's files are when the servers directory moved to the
/// RAM disk: directories under the original servers directory move with
/// it (the JAR is `server.jar` in the moved directory); others stay.
pub fn remap_instance_dir(server_dir: &str, original_servers_dir: &str, ram_servers_dir: &str) -> (r: Option<(String, String)>)
    ensures
        !starts_with(server_dir@, original_servers_dir@) ==> r is None,
        starts_with(server_dir@, original_servers_dir@) ==> (r matches Some((d, j)) && d@ == replace_first(
            server_dir@,
            original_servers_dir@,
            ram_servers_dir@,
        ) && j@ == d@ + "/server.jar"@),
{
    let c = chars_of(server_dir);
    let o = chars_of(original_servers_dir);
    if !starts_with_chars(&c, &o) {
        return None;
    }
    let d = replace_first_str(server_dir, original_servers_dir, ram_servers_dir);
    let mut j = d.clone();
    j.append("/server.jar");
    Some((d, j))
}

} // verus!
