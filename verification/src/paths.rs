//! The controller's path conventions: where a volume's data lives, where
//! its per-volume archive goes, and how remote paths are joined.

use vstd::prelude::*;

verus! {

/// `<dir>/<name>`: joins a directory and an entry name.
pub fn join_path(dir: &str, name: &str) -> (r: String)
    ensures
        r@ == dir@ + "/"@ + name@,
{
    proof {
        reveal_strlit("/");
    }
    let mut s = String::new();
    s.append(dir);
    s.append("/");
    s.append(name);
    proof {
        assert(s@ =~= dir@ + "/"@ + name@);
    }
    s
}

/// `<temp_path>/<volume>.tar.gz`: where a volume's archive is written.
pub fn volume_archive_path(temp_path: &str, volume: &str) -> (r: String)
    ensures
        r@ == temp_path@ + "/"@ + volume@ + ".tar.gz"@,
{
    proof {
        reveal_strlit("/");
        reveal_strlit(".tar.gz");
    }
    let mut s = String::new();
    s.append(temp_path);
    s.append("/");
    s.append(volume);
    s.append(".tar.gz");
    proof {
        assert(s@ =~= temp_path@ + "/"@ + volume@ + ".tar.gz"@);
    }
    s
}

} // verus!
