//! The restore flow's decisions: which volumes a selector picks out of
//! an extracted bundle, and the replacement of one volume's data as a
//! state machine that never leaves the volume's containers stopped. The
//! download, extraction and filesystem work stay outside the library.

use vstd::prelude::*;
use crate::text::{
    ends_with, split_char, split_on, str_eq, str_ends_with, str_trim, strip_suffix_all, trim_of,
    trim_end_matches_str,
};

verus! {

/// The volume names an extracted bundle holds: every file named
/// `<volume>.tar.gz`, with all trailing copies of the extension removed,
/// in listing order.
pub open spec fn spec_bundle_volumes(files: Seq<Seq<char>>) -> Seq<Seq<char>>
    decreases files.len(),
{
    if files.len() == 0 {
        files
    } else {
        let rest = spec_bundle_volumes(files.drop_last());
        if ends_with(files.last(), ".tar.gz"@) {
            rest.push(strip_suffix_all(files.last(), ".tar.gz"@))
        } else {
            rest
        }
    }
}

/// The volumes a selector picks: every volume in the bundle for the
/// sentinel `all`, else the comma-separated names with surrounding white
/// space removed.
pub open spec fn spec_selected_volumes(selector: Seq<char>, files: Seq<Seq<char>>) -> Seq<
    Seq<char>,
> {
    if selector == "all"@ {
        spec_bundle_volumes(files)
    } else {
        split_char(selector, ',').map_values(|t: Seq<char>| trim_of(t))
    }
}

/// The volume names to restore: for the selector `all`, the name of every
/// per-volume archive among the extracted bundle's files; otherwise the
/// selector's comma-separated entries, trimmed. `files` is the file
/// listing of the directory the bundle was extracted into.
pub fn extract_volumes_from_backup(volumes_to_be_restored: &str, files: &Vec<String>) -> (r: Vec<
    String,
>)
    ensures
        r.deep_view() == spec_selected_volumes(volumes_to_be_restored@, files.deep_view()),
{
    proof {
        reveal_strlit("all");
        reveal_strlit(".tar.gz");
    }
    if str_eq(volumes_to_be_restored, "all") {
        let ghost all = files.deep_view();
        let mut out: Vec<String> = Vec::new();
        let mut i: usize = 0;
        proof {
            assert(all.take(0) =~= Seq::<Seq<char>>::empty());
            assert(out.deep_view() =~= Seq::<Seq<char>>::empty());
        }
        while i < files.len()
            invariant
                i <= files.len(),
                all == files.deep_view(),
                all.len() == files.len(),
                out.deep_view() == spec_bundle_volumes(all.take(i as int)),
            decreases files.len() - i,
        {
            proof {
                reveal_strlit(".tar.gz");
                assert(all.take(i + 1).drop_last() =~= all.take(i as int));
                assert(all.take(i + 1).last() == all[i as int]);
                assert(all[i as int] == files@[i as int]@);
            }
            if str_ends_with(files[i].as_str(), ".tar.gz") {
                let name = trim_end_matches_str(files[i].as_str(), ".tar.gz");
                let ghost pre = out.deep_view();
                out.push(name);
                proof {
                    assert(out.deep_view() =~= pre.push(
                        strip_suffix_all(all[i as int], ".tar.gz"@),
                    ));
                }
            }
            i = i + 1;
        }
        proof {
            assert(all.take(i as int) =~= all);
        }
        out
    } else {
        let pieces = split_on(volumes_to_be_restored, ',');
        let ghost segs = split_char(volumes_to_be_restored@, ',');
        let mut out: Vec<String> = Vec::new();
        let mut i: usize = 0;
        while i < pieces.len()
            invariant
                i <= pieces.len(),
                pieces.deep_view() == segs,
                pieces.len() == segs.len(),
                out.deep_view().len() == i,
                forall|j: int| 0 <= j < i ==> out.deep_view()[j] == trim_of(segs[j]),
            decreases pieces.len() - i,
        {
            let piece = str_trim(pieces[i].as_str());
            let ghost pre = out.deep_view();
            let ghost pview = piece@;
            proof {
                assert(pieces.deep_view()[i as int] == pieces@[i as int]@);
                assert(pview == trim_of(segs[i as int]));
            }
            out.push(piece);
            proof {
                assert(out.deep_view() =~= pre.push(pview));
            }
            i = i + 1;
        }
        proof {
            assert(out.deep_view() =~~= segs.map_values(|t: Seq<char>| trim_of(t)));
        }
        out
    }
}

/// `Volume <volume> does not exist.`: the error a restore reports when a
/// selected volume's mount path is missing.
pub fn missing_volume_message(volume: &str) -> (r: String)
    ensures
        r@ == "Volume "@ + volume@ + " does not exist."@,
{
    let mut s = String::new();
    s.append("Volume ");
    s.append(volume);
    s.append(" does not exist.");
    proof {
        assert(s@ =~= "Volume "@ + volume@ + " does not exist."@);
    }
    s
}


/// Where the replacement of one volume's data stands. Each state names
/// the outside work the caller must do next: stop the volume's
/// containers, check the mount and swap the data in, start the recorded
/// containers again, or nothing.
pub enum ReplaceState {
    /// Waiting for the volume's containers to be stopped.
    Quiescing { volume: String },
    /// Containers stopped; waiting for the mount check and the data
    /// swap.
    Swapping { volume: String, handles: Vec<String> },
    /// Waiting for the stopped containers to be started again; a failure
    /// of the quiesce, a missing mount or a failed swap is remembered,
    /// to be reported only after the resume.
    Resuming { handles: Vec<String>, pending_error: Option<String> },
    /// The replacement is over; `error` is what the restore reports.
    Done { error: Option<String> },
}

/// What the outside work reported back to the replacement machine.
pub enum ReplaceEvent {
    /// The containers bound to the volume were stopped.
    Stopped { handles: Vec<String> },
    /// Stopping failed; `handles` are the containers already stopped
    /// before the failure, which must still be resumed.
    StopFailed { handles: Vec<String>, message: String },
    /// The volume's mount path does not exist.
    MountMissing,
    /// The volume's data was replaced with the staged contents.
    SwapOk,
    /// Removing the old data or moving the staged data in failed.
    SwapFailed { message: String },
    /// Every recorded container was started again.
    Started,
    /// Starting failed; that failure is the replacement's final error.
    StartFailed { message: String },
}

impl ReplaceState {
    /// The events the current state's outside work can report.
    pub open spec fn event_fits(self, event: ReplaceEvent) -> bool {
        match self {
            ReplaceState::Quiescing { .. } => event is Stopped || event is StopFailed,
            ReplaceState::Swapping { .. } => event is MountMissing || event is SwapOk
                || event is SwapFailed,
            ReplaceState::Resuming { .. } => event is Started || event is StartFailed,
            ReplaceState::Done { .. } => false,
        }
    }

    /// One transition of the replacement. Once any containers are
    /// recorded as stopped, every path runs through `Resuming` over
    /// exactly those handles — a missing mount and a failed swap
    /// included — and the pending failure is reported only after the
    /// resume has been attempted; a failure of the resume itself becomes
    /// the final error.
    pub fn advance(self, event: ReplaceEvent) -> (r: ReplaceState)
        requires
            self.event_fits(event),
        ensures
            self matches ReplaceState::Quiescing { volume: v } ==> (match event {
                ReplaceEvent::Stopped { handles } => r == (ReplaceState::Swapping {
                    volume: v,
                    handles,
                }),
                ReplaceEvent::StopFailed { handles, message } => r == (ReplaceState::Resuming {
                    handles,
                    pending_error: Some(message),
                }),
                _ => true,
            }),
            self matches ReplaceState::Swapping { volume: v, handles: hs } ==> (
            r matches ReplaceState::Resuming { handles: h, pending_error: e } && h == hs && (
            match event {
                ReplaceEvent::MountMissing => e matches Some(m) && m@ == "Volume "@ + v@
                    + " does not exist."@,
                ReplaceEvent::SwapOk => e is None,
                ReplaceEvent::SwapFailed { message } => e == Some(message),
                _ => true,
            })),
            self matches ReplaceState::Resuming { handles: _, pending_error: pe } ==> (
            match event {
                ReplaceEvent::Started => r == (ReplaceState::Done { error: pe }),
                ReplaceEvent::StartFailed { message } => r == (ReplaceState::Done {
                    error: Some(message),
                }),
                _ => true,
            }),
    {
        match (self, event) {
            (ReplaceState::Quiescing { volume }, ReplaceEvent::Stopped { handles }) => {
                ReplaceState::Swapping { volume, handles }
            },
            (
                ReplaceState::Quiescing { volume: _ },
                ReplaceEvent::StopFailed { handles, message },
            ) => {
                ReplaceState::Resuming { handles, pending_error: Some(message) }
            },
            (ReplaceState::Swapping { volume, handles }, ReplaceEvent::MountMissing) => {
                let message = missing_volume_message(volume.as_str());
                ReplaceState::Resuming { handles, pending_error: Some(message) }
            },
            (ReplaceState::Swapping { volume: _, handles }, ReplaceEvent::SwapOk) => {
                ReplaceState::Resuming { handles, pending_error: None }
            },
            (
                ReplaceState::Swapping { volume: _, handles },
                ReplaceEvent::SwapFailed { message },
            ) => {
                ReplaceState::Resuming { handles, pending_error: Some(message) }
            },
            (
                ReplaceState::Resuming { handles: _, pending_error },
                ReplaceEvent::Started,
            ) => {
                ReplaceState::Done { error: pending_error }
            },
            (
                ReplaceState::Resuming { handles: _, pending_error: _ },
                ReplaceEvent::StartFailed { message },
            ) => {
                ReplaceState::Done { error: Some(message) }
            },
            (s, _) => s,
        }
    }
}

} // verus!
