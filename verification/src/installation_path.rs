//! Where Flutter versions are installed, and which directories there are versions.

use vstd::prelude::*;
use crate::text::str_equal;

verus! {

/// The directory that versions are installed in.
#[derive(Debug)]
pub enum InstallationRoot {
    /// The directory that `FVM_PATH` names.
    Custom(String),
    /// The directory `.fvm` in the home directory.
    UnderHome,
}

/// `FVM_PATH` counts when it is set and not empty; otherwise `$HOME/.fvm` is used.
pub fn get_installation_path(fvm_path: Option<String>) -> (r: InstallationRoot)
    ensures
        match fvm_path {
            Some(p) => if p@.len() > 0 {
                r == InstallationRoot::Custom(p)
            } else {
                r is UnderHome
            },
            None => r is UnderHome,
        },
{
    match fvm_path {
        Some(p) => {
            if p.as_str().is_empty() {
                InstallationRoot::UnderHome
            } else {
                InstallationRoot::Custom(p)
            }
        },
        None => InstallationRoot::UnderHome,
    }
}

/// The components of a path, as character sequences.
pub open spec fn components_view(p: Seq<String>) -> Seq<Seq<char>> {
    p.map_values(|s: String| s@)
}

/// The path `path/name`, as components.
pub fn child_path(path: &Vec<String>, name: &str) -> (r: Vec<String>)
    ensures
        components_view(r@) == components_view(path@).push(name@),
{
    let mut r: Vec<String> = Vec::new();
    let mut i: usize = 0;
    while i < path.len()
        invariant
            i <= path@.len(),
            components_view(r@) == components_view(path@).take(i as int),
        decreases path@.len() - i,
    {
        let ghost prev = r@;
        r.push(path[i].clone());
        proof {
            assert(components_view(r@) =~= components_view(prev).push(path@[i as int]@));
            assert(components_view(path@).take(i + 1 as int) =~= components_view(path@).take(
                i as int,
            ).push(path@[i as int]@));
        }
        i = i + 1;
    }
    let ghost prev = r@;
    r.push(String::from_str(name));
    proof {
        assert(components_view(path@).take(i as int) =~= components_view(path@));
        assert(components_view(r@) =~= components_view(prev).push(name@));
    }
    r
}

/// The directory used when `FVM_PATH` does not name one: `.fvm` in the home directory.
pub fn get_default_path(home: &Vec<String>) -> (r: Vec<String>)
    ensures
        components_view(r@) == components_view(home@).push(seq!['.', 'f', 'v', 'm']),
{
    let name = ".fvm";
    proof {
        reveal_strlit(".fvm");
        assert(name@ =~= seq!['.', 'f', 'v', 'm']);
    }
    child_path(home, name)
}

/// The name of the link to the selected version, inside the installation directory.
pub open spec fn link_name() -> Seq<char> {
    seq!['s', 'm', 'l', 'i', 'n', 'k']
}

/// The name of the link to the selected version.
pub fn link_dir_name() -> (r: &'static str)
    ensures
        r@ == link_name(),
{
    proof {
        reveal_strlit("smlink");
    }
    "smlink"
}


/// An entry of the installation directory: its name and whether it is a directory.
pub open spec fn entry_view(e: (String, bool)) -> (Seq<char>, bool) {
    (e.0@, e.1)
}

/// An entry is an installed version when it is a directory other than the link.
pub open spec fn is_version_entry(e: (Seq<char>, bool)) -> bool {
    e.1 && e.0 != link_name()
}

/// The names of the installed versions among the entries of the installation directory.
pub open spec fn installed_names(entries: Seq<(Seq<char>, bool)>) -> Seq<Seq<char>> {
    entries.filter(|e: (Seq<char>, bool)| is_version_entry(e)).map_values(
        |e: (Seq<char>, bool)| e.0,
    )
}

/// The installed versions, in the order of the entries: directories, except the link.
pub fn get_installed_versions(entries: &Vec<(String, bool)>) -> (r: Vec<String>)
    ensures
        r@.map_values(|s: String| s@) == installed_names(
            entries@.map_values(|e: (String, bool)| entry_view(e)),
        ),
{
    let ghost all = entries@.map_values(|e: (String, bool)| entry_view(e));
    let ghost keep = |e: (Seq<char>, bool)| is_version_entry(e);
    let link = link_dir_name();
    let mut r: Vec<String> = Vec::new();
    let mut i: usize = 0;
    while i < entries.len()
        invariant
            all == entries@.map_values(|e: (String, bool)| entry_view(e)),
            keep == (|e: (Seq<char>, bool)| is_version_entry(e)),
            link@ == link_name(),
            i <= entries@.len(),
            r@.map_values(|s: String| s@) == all.take(i as int).filter(keep).map_values(
                |e: (Seq<char>, bool)| e.0,
            ),
        decreases entries@.len() - i,
    {
        proof {
            assert(all.take(i + 1 as int) =~= all.take(i as int).push(all[i as int]));
            all.take(i as int).lemma_filter_push(all[i as int], keep);
        }
        let is_dir = entries[i].1;
        if is_dir && !str_equal(entries[i].0.as_str(), link) {
            let ghost prev = r@;
            let name = entries[i].0.clone();
            r.push(name);
            proof {
                assert(r@.map_values(|s: String| s@) =~= prev.map_values(|s: String| s@).push(
                    all[i as int].0,
                ));
                assert(all.take(i + 1 as int).filter(keep).map_values(|e: (Seq<char>, bool)| e.0)
                    =~= all.take(i as int).filter(keep).map_values(|e: (Seq<char>, bool)| e.0).push(
                    all[i as int].0,
                ));
            }
        }
        i = i + 1;
    }
    proof {
        assert(all.take(i as int) =~= all);
    }
    r
}

} // verus!
