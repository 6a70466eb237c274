//! One volume's backup step as a state machine: quiesce the containers
//! bound to the volume, snapshot its directory, and resume the containers
//! whatever the snapshot's outcome. The caller performs each step's
//! outside work (container control, compression) and feeds the outcome
//! back as an event; the machine decides what follows, so container
//! availability is never sacrificed for backup completion: every
//! container recorded as stopped, even by a quiesce that then failed,
//! reaches the start call before any error is reported.

use vstd::prelude::*;

verus! {

/// Where one volume's backup stands. Each state names the outside work
/// the caller must do next: stop the volume's containers, compress its
/// directory, start the recorded containers again, or nothing.
pub enum VolumeCycleState {
    /// Waiting for the volume's containers to be stopped.
    Quiescing,
    /// Containers stopped; waiting for the snapshot.
    Snapshotting { handles: Vec<String> },
    /// Waiting for the stopped containers to be started again; a failure
    /// of the quiesce or of the snapshot is remembered, to be reported
    /// only after the resume.
    Resuming { handles: Vec<String>, pending_error: Option<String> },
    /// The step is over; `error` is what the cycle reports for it.
    Done { error: Option<String> },
}

/// What the outside work reported back.
pub enum CycleEvent {
    /// The containers bound to the volume were stopped.
    Stopped { handles: Vec<String> },
    /// Stopping failed; `handles` are the containers already stopped
    /// before the failure, which must still be resumed.
    StopFailed { handles: Vec<String>, message: String },
    /// The volume was compressed into its archive.
    SnapshotOk,
    /// Compressing failed.
    SnapshotFailed { message: String },
    /// Every recorded container was started again.
    Started,
    /// Starting failed; that failure is the step's final error.
    StartFailed { message: String },
}

impl VolumeCycleState {
    /// The events the current state's outside work can report.
    pub open spec fn event_fits(self, event: CycleEvent) -> bool {
        match self {
            VolumeCycleState::Quiescing => event is Stopped || event is StopFailed,
            VolumeCycleState::Snapshotting { .. } => event is SnapshotOk
                || event is SnapshotFailed,
            VolumeCycleState::Resuming { .. } => event is Started || event is StartFailed,
            VolumeCycleState::Done { .. } => false,
        }
    }

    /// One transition of the machine. Once any containers are recorded
    /// as stopped — by a clean quiesce or by one that failed part way —
    /// the machine moves to `Resuming` over exactly those handles no
    /// matter how the step went: the stop or snapshot failure is carried
    /// along and reported only after the resume has been attempted, and
    /// a failure of the resume itself becomes the step's final error.
    pub fn advance(self, event: CycleEvent) -> (r: VolumeCycleState)
        requires
            self.event_fits(event),
        ensures
            self is Quiescing ==> (match event {
                CycleEvent::Stopped { handles } => r == (VolumeCycleState::Snapshotting {
                    handles,
                }),
                CycleEvent::StopFailed { handles, message } => r == (
                VolumeCycleState::Resuming { handles, pending_error: Some(message) }),
                _ => true,
            }),
            self matches VolumeCycleState::Snapshotting { handles: hs } ==> (
            r matches VolumeCycleState::Resuming { handles: h, pending_error: e } && h == hs
                && (match event {
                CycleEvent::SnapshotOk => e is None,
                CycleEvent::SnapshotFailed { message } => e == Some(message),
                _ => true,
            })),
            self matches VolumeCycleState::Resuming { handles: _, pending_error: pe } ==> (
            match event {
                CycleEvent::Started => r == (VolumeCycleState::Done { error: pe }),
                CycleEvent::StartFailed { message } => r == (VolumeCycleState::Done {
                    error: Some(message),
                }),
                _ => true,
            }),
    {
        match (self, event) {
            (VolumeCycleState::Quiescing, CycleEvent::Stopped { handles }) => {
                VolumeCycleState::Snapshotting { handles }
            },
            (VolumeCycleState::Quiescing, CycleEvent::StopFailed { handles, message }) => {
                VolumeCycleState::Resuming { handles, pending_error: Some(message) }
            },
            (VolumeCycleState::Snapshotting { handles }, CycleEvent::SnapshotOk) => {
                VolumeCycleState::Resuming { handles, pending_error: None }
            },
            (
                VolumeCycleState::Snapshotting { handles },
                CycleEvent::SnapshotFailed { message },
            ) => {
                VolumeCycleState::Resuming { handles, pending_error: Some(message) }
            },
            (
                VolumeCycleState::Resuming { handles: _, pending_error },
                CycleEvent::Started,
            ) => {
                VolumeCycleState::Done { error: pending_error }
            },
            (
                VolumeCycleState::Resuming { handles: _, pending_error: _ },
                CycleEvent::StartFailed { message },
            ) => {
                VolumeCycleState::Done { error: Some(message) }
            },
            (s, _) => s,
        }
    }
}

/// The container handles a quiesce stops: what the runtime listed, in
/// listing order, with empty entries and the controller's own container
/// left out.
pub open spec fn spec_containers_to_stop(listed: Seq<Seq<char>>, self_id: Seq<char>) -> Seq<
    Seq<char>,
>
    decreases listed.len(),
{
    if listed.len() == 0 {
        listed
    } else {
        let rest = spec_containers_to_stop(listed.drop_last(), self_id);
        if listed.last().len() > 0 && listed.last() != self_id {
            rest.push(listed.last())
        } else {
            rest
        }
    }
}

/// The containers to stop for a volume, from the runtime's listing. The
/// controller's own identifier is excluded, so the controller never stops
/// itself.
pub fn select_containers_to_stop(listed: Vec<String>, self_id: &str) -> (r: Vec<String>)
    ensures
        r.deep_view() == spec_containers_to_stop(listed.deep_view(), self_id@),
{
    let ghost all = listed.deep_view();
    let mut out: Vec<String> = Vec::new();
    let mut i: usize = 0;
    proof {
        assert(all.take(0) =~= Seq::<Seq<char>>::empty());
        assert(out.deep_view() =~= Seq::<Seq<char>>::empty());
    }
    while i < listed.len()
        invariant
            i <= listed.len(),
            all == listed.deep_view(),
            all.len() == listed.len(),
            out.deep_view() == spec_containers_to_stop(all.take(i as int), self_id@),
        decreases listed.len() - i,
    {
        proof {
            assert(all.take(i + 1).drop_last() =~= all.take(i as int));
            assert(all.take(i + 1).last() == all[i as int]);
            assert(all[i as int] == listed@[i as int]@);
        }
        let keep = !listed[i].as_str().is_empty() && !crate::text::str_eq(
            listed[i].as_str(),
            self_id,
        );
        if keep {
            let ghost pre = out.deep_view();
            out.push(listed[i].clone());
            proof {
                assert(out.deep_view() =~= pre.push(all[i as int]));
            }
        }
        i = i + 1;
    }
    proof {
        assert(all.take(i as int) =~= all);
    }
    out
}

} // verus!
