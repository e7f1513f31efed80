//! Where the desktop shell keeps its mutable state: a portable data folder
//! next to the executable (or next to the .AppImage file).
use std::path::PathBuf;
use vstd::prelude::*;

use crate::paths::{from_text, join, parent, path_from_text, path_joined, path_parent};

verus! {

/// The portable data folder name. Next to the executable (or the .AppImage
/// file), all mutable state lives here: settings.json, RNS identities, the
/// steamcmd bootstrap, and the pulled ~2.74 GB Sven Co-op dedicated server.
pub const PORTABLE_DIR_NAME: &'static str = "sc-rns-data";

/// The portable data folder for an executable at `exe`, when the `APPIMAGE`
/// variable holds `appimage`.
pub open spec fn portable_candidate_spec(
    exe: Option<PathBuf>,
    appimage: Option<Seq<char>>,
) -> Option<PathBuf> {
    match exe {
        None => None,
        Some(e) => match path_parent(e) {
            None => None,
            Some(exe_dir) => {
                let beside_exe = Some(path_joined(exe_dir, PORTABLE_DIR_NAME@));
                match appimage {
                    Some(a) => if a.len() > 0 {
                        match path_parent(path_from_text(a)) {
                            Some(d) => Some(path_joined(d, PORTABLE_DIR_NAME@)),
                            None => beside_exe,
                        }
                    } else {
                        beside_exe
                    },
                    None => beside_exe,
                }
            },
        },
    }
}

/// Find the portable data folder candidate: the directory containing the
/// running executable (`exe`, when it could be found), or, for an AppImage,
/// the directory containing the .AppImage file (`appimage`, the value of the
/// `APPIMAGE` variable, which points at the real .AppImage path, not the
/// ephemeral squashfs mount).
pub fn portable_candidate(exe: Option<PathBuf>, appimage: Option<String>) -> (r: Option<PathBuf>)
    ensures
        r == portable_candidate_spec(
            exe,
            match appimage {
                Some(a) => Some(a@),
                None => None,
            },
        ),
{
    let exe_path = match exe {
        Some(e) => e,
        None => return None,
    };
    let exe_dir = match parent(&exe_path) {
        Some(d) => d,
        None => return None,
    };
    match appimage {
        Some(a) => {
            if a.as_str().unicode_len() > 0 {
                let image = from_text(a);
                match parent(&image) {
                    Some(d) => return Some(join(&d, PORTABLE_DIR_NAME)),
                    None => {},
                }
            }
        },
        None => {},
    }
    Some(join(&exe_dir, PORTABLE_DIR_NAME))
}

} // verus!
