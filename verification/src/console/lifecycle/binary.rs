//! Where the binary of a server is found.

use vstd::prelude::*;

use crate::console::error::Error;
#[allow(unused_imports)]
use crate::lists;

verus! {

/// A place where a binary may be, and whether a usable one is there.
#[derive(Debug, Clone, PartialEq, Eq)]
pub struct Candidate {
    pub path: String,
    pub usable: bool,
}

/// Whether a file can be run: a regular file that is not empty and that
/// somebody may execute. An interrupted build leaves empty files behind.
pub fn is_executable(is_file: bool, len: u64, mode: u32) -> (r: bool)
    ensures
        r == (is_file && len > 0 && mode & 0o111 != 0),
{
    is_file && len > 0 && mode & 0o111 != 0
}

/// The path of the first usable candidate.
pub open spec fn first_usable(places: Seq<Candidate>) -> Option<Seq<char>> {
    match lists::first_index(places, |c: Candidate| c.usable) {
        Some(i) => Some(places[i].path@),
        None => None,
    }
}

/// The path of the first usable candidate.
pub fn find_in_path(places: &Vec<Candidate>) -> (r: Option<String>)
    ensures
        match r {
            Some(p) => first_usable(places@) == Some(p@),
            None => first_usable(places@) is None,
        },
{
    let accepts = |c: &Candidate| -> (b: bool)
        ensures
            b == c.usable
    { c.usable };
    match lists::position(places, accepts, Ghost(|c: Candidate| c.usable)) {
        Some(i) => Some(places[i].path.clone()),
        None => None,
    }
}

/// The binary of another server to run: the one that the environment names, taken as it is; else
/// the first usable one beside the running program or in a directory above it;
/// else the first usable one on the search path.
pub fn server_bin(
    named: Option<String>,
    beside: &Vec<Candidate>,
    on_path: &Vec<Candidate>,
) -> (r: Option<String>)
    ensures
        match named {
            Some(p) => r == Some(p),
            None => match first_usable(beside@) {
                Some(p) => r matches Some(s) && s@ == p,
                None => match first_usable(on_path@) {
                    Some(p) => r matches Some(s) && s@ == p,
                    None => r is None,
                },
            },
        },
{
    match named {
        Some(p) => Some(p),
        None => match find_in_path(beside) {
            Some(p) => Some(p),
            None => find_in_path(on_path),
        },
    }
}

/// The key-value server to run: the binary that the environment names, taken
/// as it is; else the first usable one beside the running program or in a
/// directory above it; else, where there is one on the search path, its bare
/// name, which is resolved when it is run.
pub fn kv_server_bin(
    named: Option<String>,
    beside: &Vec<Candidate>,
    on_path: &Vec<Candidate>,
) -> (r: Option<String>)
    ensures
        match named {
            Some(p) => r == Some(p),
            None => match first_usable(beside@) {
                Some(p) => r matches Some(s) && s@ == p,
                None => if first_usable(on_path@) is Some {
                    r matches Some(s) && s@ == "crowdb-kv-server"@
                } else {
                    r is None
                },
            },
        },
{
    match named {
        Some(p) => Some(p),
        None => match find_in_path(beside) {
            Some(p) => Some(p),
            None => match find_in_path(on_path) {
                Some(_) => Some("crowdb-kv-server".to_owned()),
                None => None,
            },
        },
    }
}

/// How a binary's path is resolved.
#[derive(Debug, Clone, Copy, PartialEq, Eq, Structural)]
pub enum Lookup {
    /// The path is absolute: it has to exist.
    AsGiven,
    /// The path has several parts: it starts at the working directory.
    Relative,
    /// A bare name: it is looked for on the search path.
    OnPath,
}

pub fn resolve_binary_path(absolute: bool, components: usize) -> (l: Lookup)
    ensures
        l == (if absolute {
            Lookup::AsGiven
        } else if components > 1 {
            Lookup::Relative
        } else {
            Lookup::OnPath
        }),
{
    if absolute {
        Lookup::AsGiven
    } else if components > 1 {
        Lookup::Relative
    } else {
        Lookup::OnPath
    }
}

/// The file that is put into a workspace as the server's binary. Refuses a
/// binary that could not be resolved.
pub fn staging_source(binary: &str, resolved: Option<String>) -> (r: Result<String, Error>)
    ensures
        match resolved {
            Some(p) => r == Ok::<String, Error>(p),
            None => r matches Err(e) && e.is_validation(
                "binary"@,
                "could not resolve server binary path: "@ + binary@,
            ),
        },
{
    match resolved {
        Some(p) => Ok(p),
        None => {
            let mut text = "could not resolve server binary path: ".to_owned();
            text.append(binary);
            Err(Error::validation("binary", text))
        },
    }
}

/// The name that a staged binary has, by the last part of its path.
pub fn staged_name(file_name: Option<String>) -> (s: String)
    ensures
        s@ == (match file_name {
            Some(n) => n@,
            None => "crowdb-kv-server"@,
        }),
{
    match file_name {
        Some(n) => n,
        None => "crowdb-kv-server".to_owned(),
    }
}

/// A binary is looked for place by place: the first place that has a usable
/// one counts, and without one there is none.
pub proof fn lemma_first_usable_place(places: Seq<Candidate>, i: int)
    ensures
        0 <= i < places.len() && places[i].usable && (forall|j: int|
            0 <= j < i ==> !(#[trigger] places[j]).usable) ==> first_usable(places) == Some(
            places[i].path@,
        ),
        (forall|j: int| 0 <= j < places.len() ==> !(#[trigger] places[j]).usable) ==> first_usable(
            places,
        ) is None,
{
    let p = |c: Candidate| c.usable;
    lists::lemma_first_index(places, p);
    match lists::first_index(places, p) {
        Some(k) => {
            assert(p(places[k]));
            if 0 <= i < k {
                assert(!p(places[i]));
            }
        },
        None => {
            if 0 <= i < places.len() {
                assert(!p(places[i]));
            }
        },
    }
}

} // verus!
