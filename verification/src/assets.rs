//! Where the game looks for its asset directory.

use vstd::prelude::*;
use crate::portraits::{ends_with, join_path, joined, lemma_join_stays_plain, verbatim_start};

verus! {

/// The package name under which installed assets are shared.
pub const PACKAGE_NAME: &'static str = "shogun";

/// The directories that may hold the assets, in the order they are tried:
/// beside an application bundle's executable (`../Resources/assets`), next
/// to the executable, in an installed `share` tree, then under the working
/// directory and the source tree. Each candidate is its directory joined with
/// its suffix; where a directory may start a verbatim path, only that the
/// candidates joined with a last `assets` component end with it is stated.
pub fn asset_dir_candidates_from(exe_dir: Option<&str>, cwd: Option<&str>, manifest_dir: Option<&str>) -> (v: Vec<String>)
    ensures
        v@.len() == (if exe_dir is Some { 3int } else { 0 }) + (if cwd is Some { 1int } else { 0 }) + (if manifest_dir is Some {
            1int
        } else {
            0
        }),
        exe_dir matches Some(e) ==> {
            &&& ends_with(v@[1]@, "assets"@)
            &&& ends_with(v@[2]@, "assets"@)
            &&& !verbatim_start(e@) ==> {
                &&& joined(v@[0]@, e@, "../Resources/assets"@)
                &&& joined(v@[1]@, e@, "assets"@)
                &&& exists|s: Seq<char>, p: Seq<char>|
                    #[trigger] joined(s, e@, "../../share"@) && joined(p, s, PACKAGE_NAME@) && #[trigger] joined(v@[2]@, p, "assets"@)
            }
        },
        ({
            let k = if exe_dir is Some { 3int } else { 0 };
            &&& cwd matches Some(c) ==> ends_with(v@[k]@, "assets"@) && (!verbatim_start(c@) ==> joined(v@[k]@, c@, "assets"@))
            &&& manifest_dir matches Some(m) ==> {
                let j = if cwd is Some { k + 1 } else { k };
                ends_with(v@[j]@, "assets"@) && (!verbatim_start(m@) ==> joined(v@[j]@, m@, "assets"@))
            }
        }),
{
    proof {
        reveal_strlit("assets");
        reveal_strlit("../Resources/assets");
        reveal_strlit("../../share");
        reveal_strlit("shogun");
        assert(crate::portraits::normal_component("assets"@)) by {
            assert("assets"@ != seq!['.']);
            assert("assets"@ != seq!['.', '.']);
        }
    }
    let mut v: Vec<String> = Vec::new();
    match exe_dir {
        Some(exe) => {
            v.push(join_path(exe, "../Resources/assets"));
            v.push(join_path(exe, "assets"));
            let share = join_path(exe, "../../share");
            let package = join_path(share.as_str(), PACKAGE_NAME);
            v.push(join_path(package.as_str(), "assets"));
            proof {
                if !verbatim_start(exe@) {
                    lemma_join_stays_plain(share@, exe@, "../../share"@);
                    assert(PACKAGE_NAME@ == "shogun"@);
                    lemma_join_stays_plain(package@, share@, PACKAGE_NAME@);
                    assert(joined(share@, exe@, "../../share"@) && joined(package@, share@, PACKAGE_NAME@) && joined(v@[2]@, package@, "assets"@));
                }
            }
        },
        None => {},
    }
    let ghost head = v@;
    match cwd {
        Some(c) => {
            v.push(join_path(c, "assets"));
        },
        None => {},
    }
    match manifest_dir {
        Some(m) => {
            v.push(join_path(m, "assets"));
        },
        None => {},
    }
    assert(forall|i: int| 0 <= i < head.len() ==> v@[i] == head[i]);
    v
}

} // verus!
