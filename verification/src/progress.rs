//! What the library tells its user while it works.

use vstd::prelude::*;
use vstd::string::*;

verus! {

/// A notice on the progress of a run.
pub enum Progress {
    /// Step `current` of `total` of a phase.
    Step { phase: String, current: u64, total: u64, message: String },
    /// Something worth reading on the way.
    Log { message: String },
    /// The run is over.
    Done { message: String },
    /// The run could not start or go on.
    Error { message: String },
}

/// What a notice says.
#[verifier::ext_equal]
pub enum ProgressView {
    Step { phase: Seq<char>, current: u64, total: u64, message: Seq<char> },
    Log { message: Seq<char> },
    Done { message: Seq<char> },
    Error { message: Seq<char> },
}

impl View for Progress {
    type V = ProgressView;

    open spec fn view(&self) -> ProgressView {
        match *self {
            Progress::Step { phase, current, total, message } => ProgressView::Step {
                phase: phase@,
                current,
                total,
                message: message@,
            },
            Progress::Log { message } => ProgressView::Log { message: message@ },
            Progress::Done { message } => ProgressView::Done { message: message@ },
            Progress::Error { message } => ProgressView::Error { message: message@ },
        }
    }
}

/// A step of a phase.
pub fn step(phase: &str, current: u64, total: u64, message: String) -> (r: Progress)
    ensures
        r@ == (ProgressView::Step { phase: phase@, current, total, message: message@ }),
{
    Progress::Step { phase: phase.to_owned(), current, total, message }
}

/// Something worth reading.
pub fn log(message: String) -> (r: Progress)
    ensures
        r@ == (ProgressView::Log { message: message@ }),
{
    Progress::Log { message }
}

/// The end of a run.
pub fn done(message: String) -> (r: Progress)
    ensures
        r@ == (ProgressView::Done { message: message@ }),
{
    Progress::Done { message }
}

/// The failure of a run.
pub fn error(message: &str) -> (r: Progress)
    ensures
        r@ == (ProgressView::Error { message: message@ }),
{
    Progress::Error { message: message.to_owned() }
}

/// What is seen of a notice is what it says.
pub proof fn lemma_progress_seen(x: Progress)
    ensures
        x matches Progress::Step { phase, current, total, message } ==> x@ == (ProgressView::Step {
            phase: phase@,
            current,
            total,
            message: message@,
        }),
        x matches Progress::Log { message } ==> x@ == (ProgressView::Log { message: message@ }),
        x matches Progress::Done { message } ==> x@ == (ProgressView::Done { message: message@ }),
        x matches Progress::Error { message } ==> x@ == (ProgressView::Error { message: message@ }),
{
}

} // verus!
