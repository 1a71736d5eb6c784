//! Checks of the setup: whether `PATH` leads to the selected version's `flutter`.
//!
//! Paths are given as their components, as `Path::components` yields them, so that
//! comparing components is comparing paths.

use vstd::prelude::*;
use crate::installation_path::{child_path, components_view, link_dir_name};

verus! {

/// The path of `flutter` behind the link: `root/smlink/flutter/bin/flutter`.
pub open spec fn flutter_link_components(root: Seq<Seq<char>>) -> Seq<Seq<char>> {
    root + seq![
        seq!['s', 'm', 'l', 'i', 'n', 'k'],
        seq!['f', 'l', 'u', 't', 't', 'e', 'r'],
        seq!['b', 'i', 'n'],
        seq!['f', 'l', 'u', 't', 't', 'e', 'r'],
    ]
}

/// The components of `root/smlink/flutter/bin/flutter`.
fn flutter_link_path(root: &Vec<String>) -> (r: Vec<String>)
    ensures
        components_view(r@) == flutter_link_components(components_view(root@)),
{
    let flutter = "flutter";
    let bin_name = "bin";
    proof {
        reveal_strlit("flutter");
        reveal_strlit("bin");
        assert(flutter@ =~= seq!['f', 'l', 'u', 't', 't', 'e', 'r']);
        assert(bin_name@ =~= seq!['b', 'i', 'n']);
    }
    let link = child_path(root, link_dir_name());
    let dir = child_path(&link, flutter);
    let bin = child_path(&dir, bin_name);
    let r = child_path(&bin, flutter);
    proof {
        assert(components_view(r@) =~= flutter_link_components(components_view(root@)));
    }
    r
}

/// Whether two component lists are the same path.
fn same_components(a: &Vec<String>, b: &Vec<String>) -> (r: bool)
    ensures
        r == (components_view(a@) == components_view(b@)),
{
    if a.len() != b.len() {
        assert(components_view(a@).len() != components_view(b@).len());
        return false;
    }
    let mut i: usize = 0;
    while i < a.len()
        invariant
            a@.len() == b@.len(),
            i <= a@.len(),
            forall|j: int| 0 <= j < i ==> a@[j]@ == b@[j]@,
        decreases a@.len() - i,
    {
        if !(a[i] == b[i]) {
            assert(components_view(a@)[i as int] != components_view(b@)[i as int]);
            return false;
        }
        i = i + 1;
    }
    assert(components_view(a@) =~= components_view(b@));
    true
}

/// Given the `flutter` that `PATH` finds first (if any) and the installation
/// directory: `None` when there is none, otherwise whether it is the one behind the link.
pub fn is_flutter_path_correct(found: Option<Vec<String>>, root: &Vec<String>) -> (r: Option<bool>)
    ensures
        match found {
            None => r is None,
            Some(p) => r == Some(
                components_view(p@) == flutter_link_components(components_view(root@)),
            ),
        },
{
    match found {
        Some(path) => {
            let link = flutter_link_path(root);
            Some(same_components(&path, &link))
        },
        None => None,
    }
}

/// The `flutter` executable whose version the selected link stands for:
/// `root/smlink/flutter/bin/flutter`.
pub fn smlink_version(root: &Vec<String>) -> (r: Vec<String>)
    ensures
        components_view(r@) == flutter_link_components(components_view(root@)),
{
    flutter_link_path(root)
}

/// A setup problem that the doctor reports.
pub enum DoctorError {
    PathNotFound(String),
}

impl DoctorError {
    /// The message for the problem, e.g. `Couldn't find this path: /opt/flutter`.
    pub fn message(&self) -> (r: String)
        ensures
            match self {
                DoctorError::PathNotFound(p) => r@ == "Couldn't find this path: "@ + p@,
            },
    {
        match self {
            DoctorError::PathNotFound(p) => {
                let mut r = String::from_str("Couldn't find this path: ");
                r.append(p.as_str());
                r
            },
        }
    }
}

} // verus!
