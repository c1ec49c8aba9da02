//! Taking the steps of a resize one after the other.

use crate::command::{
    attach_command, attach_command_line, detach_command_line, resize_command,
    resize_command_line, CommandLine, CommandLineView, CommandOutput, CommandOutputView,
};
use crate::device::{attached_device, trimmed, AttachError, AttachErrorView, LoopDevice};
use crate::fs::superblock::Superblock;
use crate::worker::non_optimized::{
    do_extend, do_shrink, extend_steps, is_extendable, is_shrinkable, lemma_extend_plan,
    lemma_shrink_plan, move_fits, shrink_steps, MoveError, ResizeTarget, Step,
};
use vstd::prelude::*;

verus! {

/// Why a resize stopped.
#[derive(Debug)]
pub enum WorkError {
    Move(MoveError),
    Attach(AttachError),
    ResizeNotRun,
    ResizeRefused,
}

/// A [`WorkError`] as sequences.
pub enum WorkErrorView {
    Move(MoveError),
    Attach(AttachErrorView),
    ResizeNotRun,
    ResizeRefused,
}

impl View for WorkError {
    type V = WorkErrorView;

    open spec fn view(&self) -> WorkErrorView {
        match *self {
            WorkError::Move(e) => WorkErrorView::Move(e),
            WorkError::Attach(e) => WorkErrorView::Attach(e@),
            WorkError::ResizeNotRun => WorkErrorView::ResizeNotRun,
            WorkError::ResizeRefused => WorkErrorView::ResizeRefused,
        }
    }
}

impl WorkError {
    pub open spec fn spec_message(self) -> Seq<char> {
        match self {
            WorkError::Move(e) => e.spec_message(),
            WorkError::Attach(_) => "failed to create loop device"@,
            WorkError::ResizeNotRun => "failed to run resize2fs"@,
            WorkError::ResizeRefused => "resize2fs returned non-successful status"@,
        }
    }

    /// What went wrong, in words.
    pub fn message(&self) -> (r: &'static str)
        ensures
            r@ == self.spec_message(),
    {
        match self {
            WorkError::Move(e) => e.message(),
            WorkError::Attach(_) => "failed to create loop device",
            WorkError::ResizeNotRun => "failed to run resize2fs",
            WorkError::ResizeRefused => "resize2fs returned non-successful status",
        }
    }
}

/// Where a resize stands: which of its steps is to be taken next, or how it
/// ended. A loop device that a step attached stays attached until the last step
/// and is then detached, however the resize ended.
#[derive(Debug)]
pub enum Job {
    Running { steps: Vec<Step>, next: usize, device: Option<LoopDevice> },
    /// Detach the loop device; the outcome is certain.
    Detach { device: LoopDevice, outcome: Result<(), WorkError> },
    Done(Result<(), WorkError>),
}

/// A [`Job`] as mathematical values.
pub enum JobView {
    Running { steps: Seq<Step>, next: nat, device: Option<Seq<u8>> },
    Detach { device: Seq<u8>, outcome: Result<(), WorkErrorView> },
    Done(Result<(), WorkErrorView>),
}

pub open spec fn outcome_view(r: Result<(), WorkError>) -> Result<(), WorkErrorView> {
    match r {
        Ok(_) => Ok(()),
        Err(e) => Err(e@),
    }
}

pub open spec fn device_view(d: Option<LoopDevice>) -> Option<Seq<u8>> {
    match d {
        Some(d) => Some(d@),
        None => None,
    }
}

impl View for Job {
    type V = JobView;

    open spec fn view(&self) -> JobView {
        match *self {
            Job::Running { steps, next, device } => JobView::Running {
                steps: steps@,
                next: next as nat,
                device: device_view(device),
            },
            Job::Detach { device, outcome } => JobView::Detach {
                device: device@,
                outcome: outcome_view(outcome),
            },
            Job::Done(outcome) => JobView::Done(outcome_view(outcome)),
        }
    }
}

/// What is to be done next.
#[derive(Debug)]
pub enum Action {
    /// Move sectors of the file.
    Move { from_sec: u64, to_sec: u64, count: u64 },
    /// Run a command that attaches a loop device, and keep what it prints.
    Attach(CommandLine),
    /// Run a command that resizes the filesystem.
    Resize(CommandLine),
    /// Run a command that detaches the loop device.
    Detach(CommandLine),
    Finish,
}

/// An [`Action`] as mathematical values.
pub enum ActionView {
    Move { from_sec: nat, to_sec: nat, count: nat },
    Attach(CommandLineView),
    Resize(CommandLineView),
    Detach(CommandLineView),
    Finish,
}

impl View for Action {
    type V = ActionView;

    open spec fn view(&self) -> ActionView {
        match *self {
            Action::Move { from_sec, to_sec, count } => ActionView::Move {
                from_sec: from_sec as nat,
                to_sec: to_sec as nat,
                count: count as nat,
            },
            Action::Attach(c) => ActionView::Attach(c@),
            Action::Resize(c) => ActionView::Resize(c@),
            Action::Detach(c) => ActionView::Detach(c@),
            Action::Finish => ActionView::Finish,
        }
    }
}

/// What came of an action.
#[derive(Debug)]
pub enum WorkEvent {
    Moved,
    MoveFailed(MoveError),
    CommandNotRun,
    CommandRan(CommandOutput),
}

/// A [`WorkEvent`] as mathematical values.
pub enum WorkEventView {
    Moved,
    MoveFailed(MoveError),
    CommandNotRun,
    CommandRan(CommandOutputView),
}

impl View for WorkEvent {
    type V = WorkEventView;

    open spec fn view(&self) -> WorkEventView {
        match *self {
            WorkEvent::Moved => WorkEventView::Moved,
            WorkEvent::MoveFailed(e) => WorkEventView::MoveFailed(e),
            WorkEvent::CommandNotRun => WorkEventView::CommandNotRun,
            WorkEvent::CommandRan(o) => WorkEventView::CommandRan(o@),
        }
    }
}

impl WorkEventView {
    pub open spec fn is_success(self) -> bool {
        match self {
            WorkEventView::Moved => true,
            WorkEventView::CommandRan(o) => o.success,
            _ => false,
        }
    }
}

/// Whether steps can be taken from the `next` on with what is attached: every
/// move fits in 64 bits, and a loop device that is to be resized is attached or
/// will be.
#[verifier::opaque]
pub open spec fn are_takeable(steps: Seq<Step>, next: nat, attached: bool) -> bool {
    &&& forall|i: int|
        next <= i < steps.len() ==> (#[trigger] steps[i] matches Step::MoveData {
            from_sec,
            to_sec,
            count,
        } ==> move_fits(from_sec, to_sec, count))
    &&& forall|i: int|
        next <= i < steps.len() ==> (#[trigger] steps[i] matches Step::Resize {
            target: ResizeTarget::LoopDevice,
            ..
        } ==> attached || exists|k: int| next <= k < i && #[trigger] steps[k] is AttachLoop)
}

impl JobView {
    /// The job of taking `steps`.
    pub open spec fn fresh(steps: Seq<Step>) -> JobView {
        JobView::at(steps, 0, None)
    }

    /// A job whose first `next` steps have been taken.
    pub open spec fn at(steps: Seq<Step>, next: nat, device: Option<Seq<u8>>) -> JobView {
        if next < steps.len() {
            JobView::Running { steps, next, device }
        } else {
            JobView::ended(device, Ok(()))
        }
    }

    /// A job whose outcome is certain: a loop device is still to be detached.
    pub open spec fn ended(
        device: Option<Seq<u8>>,
        outcome: Result<(), WorkErrorView>,
    ) -> JobView {
        match device {
            Some(d) => JobView::Detach { device: d, outcome },
            None => JobView::Done(outcome),
        }
    }

    /// Whether a job can come to stand here.
    pub open spec fn is_consistent(self) -> bool {
        match self {
            JobView::Running { steps, next, device } => next < steps.len() && are_takeable(
                steps,
                next,
                device is Some,
            ),
            _ => true,
        }
    }

    /// The loop device that is attached.
    pub open spec fn device(self) -> Option<Seq<u8>> {
        match self {
            JobView::Running { device, .. } => device,
            JobView::Detach { device, .. } => Some(device),
            JobView::Done(_) => None,
        }
    }

    /// What is to be done next, for a filesystem in `file`.
    pub open spec fn action(self, file: Seq<u8>) -> ActionView {
        match self {
            JobView::Running { steps, next, device } => match steps[next as int] {
                Step::MoveData { from_sec, to_sec, count } => ActionView::Move {
                    from_sec: from_sec as nat,
                    to_sec: to_sec as nat,
                    count: count as nat,
                },
                Step::AttachLoop { offset } => ActionView::Attach(
                    attach_command_line(file, offset as nat),
                ),
                Step::Resize { target: ResizeTarget::File, blocks } => ActionView::Resize(
                    resize_command_line(file, blocks as nat),
                ),
                Step::Resize { target: ResizeTarget::LoopDevice, blocks } => ActionView::Resize(
                    resize_command_line(device->0, blocks as nat),
                ),
            },
            JobView::Detach { device, .. } => ActionView::Detach(detach_command_line(device)),
            JobView::Done(_) => ActionView::Finish,
        }
    }

    /// Whether `event` can come of what is to be done next.
    pub open spec fn expects(self, event: WorkEventView) -> bool {
        match self {
            JobView::Running { steps, next, .. } => if steps[next as int] is MoveData {
                event is Moved || event is MoveFailed
            } else {
                event is CommandNotRun || event is CommandRan
            },
            JobView::Detach { .. } => event is CommandNotRun || event is CommandRan,
            JobView::Done(_) => false,
        }
    }

    /// Where the job stands after `event`: a step that succeeds leads to the
    /// next one, a step that fails ends the job.
    pub open spec fn after(self, event: WorkEventView) -> JobView {
        match self {
            JobView::Running { steps, next, device } => match steps[next as int] {
                Step::MoveData { .. } => match event {
                    WorkEventView::MoveFailed(e) => JobView::ended(device, Err(WorkErrorView::Move(e))),
                    _ => JobView::at(steps, next + 1, device),
                },
                Step::AttachLoop { .. } => match event {
                    WorkEventView::CommandRan(output) => match attached_device(output) {
                        Ok(d) => JobView::at(steps, next + 1, Some(d)),
                        Err(e) => JobView::ended(device, Err(WorkErrorView::Attach(e))),
                    },
                    _ => JobView::ended(device, Err(WorkErrorView::Attach(AttachErrorView::NotRun))),
                },
                Step::Resize { .. } => match event {
                    WorkEventView::CommandRan(output) => if output.success {
                        JobView::at(steps, next + 1, device)
                    } else {
                        JobView::ended(device, Err(WorkErrorView::ResizeRefused))
                    },
                    _ => JobView::ended(device, Err(WorkErrorView::ResizeNotRun)),
                },
            },
            JobView::Detach { outcome, .. } => JobView::Done(outcome),
            JobView::Done(_) => self,
        }
    }
}

proof fn lemma_extend_steps_takeable(
    f_offset: u64,
    block_size: u32,
    block_count: u64,
    c_value: u64,
)
    requires
        is_extendable(f_offset, block_size, block_count, c_value),
    ensures
        are_takeable(extend_steps(f_offset, block_size, block_count, c_value), 0, false),
{
    reveal(are_takeable);
    let steps = extend_steps(f_offset, block_size, block_count, c_value);
    assert forall|i: int| 0 <= i < steps.len() implies (#[trigger] steps[i] matches Step::Resize {
        target: ResizeTarget::LoopDevice,
        ..
    } ==> exists|k: int| 0 <= k < i && #[trigger] steps[k] is AttachLoop) by {
        if steps[i] is Resize && i > 0 {
            assert(steps[i - 1] is AttachLoop || i == 1);
        }
    }
}

proof fn lemma_shrink_steps_takeable(
    f_offset: u64,
    block_size: u32,
    block_count: u64,
    c_value: u64,
)
    requires
        is_shrinkable(f_offset, block_size, block_count, c_value),
    ensures
        are_takeable(shrink_steps(f_offset, block_size, block_count, c_value), 0, false),
{
    reveal(are_takeable);
    let steps = shrink_steps(f_offset, block_size, block_count, c_value);
    assert forall|i: int| 0 <= i < steps.len() implies (#[trigger] steps[i] matches Step::Resize {
        target: ResizeTarget::LoopDevice,
        ..
    } ==> exists|k: int| 0 <= k < i && #[trigger] steps[k] is AttachLoop) by {
        if steps[i] is Resize && i > 0 {
            assert(steps[i - 1] is AttachLoop);
        }
    }
}

/// Taking a step keeps the rest takeable; an attach step leaves a device behind.
proof fn lemma_takeable_after(steps: Seq<Step>, next: nat, attached: bool)
    requires
        next < steps.len(),
        are_takeable(steps, next, attached),
    ensures
        are_takeable(steps, next + 1, attached || steps[next as int] is AttachLoop),
{
    reveal(are_takeable);
    let now = attached || steps[next as int] is AttachLoop;
    assert forall|i: int| next + 1 <= i < steps.len() implies (
    #[trigger] steps[i] matches Step::Resize { target: ResizeTarget::LoopDevice, .. } ==> now
        || exists|k: int| next + 1 <= k < i && #[trigger] steps[k] is AttachLoop) by {
        if steps[i] matches Step::Resize { target: ResizeTarget::LoopDevice, .. } && !now {
            let k = choose|k: int| next <= k < i && #[trigger] steps[k] is AttachLoop;
            assert(next + 1 <= k < i && steps[k] is AttachLoop);
        }
    }
}

impl Job {
    /// The job of extending a filesystem at byte `f_offset` of its file by
    /// `c_value` sectors.
    pub fn extend(f_offset: u64, f_sb: Superblock, c_value: u64) -> (r: Self)
        requires
            is_extendable(f_offset, f_sb.block_size, f_sb.block_count, c_value),
        ensures
            r@ == JobView::fresh(
                extend_steps(f_offset, f_sb.block_size, f_sb.block_count, c_value),
            ),
            r@.is_consistent(),
    {
        proof {
            lemma_extend_steps_takeable(f_offset, f_sb.block_size, f_sb.block_count, c_value);
        }
        Job::Running { steps: do_extend(f_offset, f_sb, c_value), next: 0, device: None }
    }

    /// The job of shrinking a filesystem at byte `f_offset` of its file by
    /// `c_value` sectors.
    pub fn shrink(f_offset: u64, f_sb: Superblock, c_value: u64) -> (r: Self)
        requires
            is_shrinkable(f_offset, f_sb.block_size, f_sb.block_count, c_value),
        ensures
            r@ == JobView::fresh(
                shrink_steps(f_offset, f_sb.block_size, f_sb.block_count, c_value),
            ),
            r@.is_consistent(),
    {
        proof {
            lemma_shrink_steps_takeable(f_offset, f_sb.block_size, f_sb.block_count, c_value);
        }
        Job::Running { steps: do_shrink(f_offset, f_sb, c_value), next: 0, device: None }
    }

    /// What is to be done next, for a filesystem in `file`.
    pub fn action(&self, file: &[u8]) -> (r: Action)
        requires
            self@.is_consistent(),
        ensures
            r@ == self@.action(file@),
            r matches Action::Move { from_sec, to_sec, count } ==> move_fits(
                from_sec,
                to_sec,
                count,
            ),
    {
        proof {
            reveal(are_takeable);
        }
        match self {
            Job::Running { steps, next, device } => match steps[*next] {
                Step::MoveData { from_sec, to_sec, count } => Action::Move {
                    from_sec,
                    to_sec,
                    count,
                },
                Step::AttachLoop { offset } => Action::Attach(attach_command(file, offset)),
                Step::Resize { target, blocks } => match target {
                    ResizeTarget::File => Action::Resize(resize_command(file, blocks)),
                    ResizeTarget::LoopDevice => match device {
                        Some(d) => Action::Resize(resize_command(d.path(), blocks)),
                        None => {
                            proof {
                                assert(steps@[*next as int] is Resize);
                            }
                            Action::Finish
                        },
                    },
                },
            },
            Job::Detach { device, outcome: _ } => Action::Detach(device.detach()),
            Job::Done(_) => Action::Finish,
        }
    }

    fn at(steps: Vec<Step>, next: usize, device: Option<LoopDevice>) -> (r: Self)
        ensures
            r@ == JobView::at(steps@, next as nat, device_view(device)),
    {
        if next < steps.len() {
            Job::Running { steps, next, device }
        } else {
            Job::end(device, Ok(()))
        }
    }

    fn end(device: Option<LoopDevice>, outcome: Result<(), WorkError>) -> (r: Self)
        ensures
            r@ == JobView::ended(device_view(device), outcome_view(outcome)),
    {
        match device {
            Some(device) => Job::Detach { device, outcome },
            None => Job::Done(outcome),
        }
    }

    /// Where the job stands after `event`.
    pub fn step(self, event: WorkEvent) -> (r: Self)
        requires
            self@.is_consistent(),
            self@.expects(event@),
        ensures
            r@ == self@.after(event@),
            r@.is_consistent(),
    {
        match self {
            Job::Running { steps, next, device } => {
                proof {
                    lemma_takeable_after(steps@, next as nat, device is Some);
                    assert(next < steps.len());
                }
                let following: usize = next + 1;
                match steps[next] {
                    Step::MoveData { .. } => match event {
                        WorkEvent::MoveFailed(e) => Job::end(device, Err(WorkError::Move(e))),
                        _ => Job::at(steps, following, device),
                    },
                    Step::AttachLoop { .. } => match event {
                        WorkEvent::CommandRan(output) => match LoopDevice::new(output) {
                            Ok(d) => Job::at(steps, following, Some(d)),
                            Err(e) => Job::end(device, Err(WorkError::Attach(e))),
                        },
                        _ => Job::end(device, Err(WorkError::Attach(AttachError::NotRun))),
                    },
                    Step::Resize { .. } => match event {
                        WorkEvent::CommandRan(output) => if output.success {
                            Job::at(steps, following, device)
                        } else {
                            Job::end(device, Err(WorkError::ResizeRefused))
                        },
                        _ => Job::end(device, Err(WorkError::ResizeNotRun)),
                    },
                }
            },
            Job::Detach { device: _, outcome } => Job::Done(outcome),
            Job::Done(outcome) => Job::Done(outcome),
        }
    }
}

/// Every step asks for just what it says, wherever it stands in the plan: a move
/// of its sectors; a loop device on the file at its byte; `resize2fs` with its
/// block count, on the file or on the attached device as its target says.
pub proof fn lemma_actions(
    file: Seq<u8>,
    steps: Seq<Step>,
    next: nat,
    device: Option<Seq<u8>>,
    outcome: Result<(), WorkErrorView>,
)
    requires
        next < steps.len(),
    ensures
        ({
            let asked = (JobView::Running { steps, next, device }).action(file);
            match steps[next as int] {
                Step::MoveData { from_sec, to_sec, count } => asked == (ActionView::Move {
                    from_sec: from_sec as nat,
                    to_sec: to_sec as nat,
                    count: count as nat,
                }),
                Step::AttachLoop { offset } => asked == ActionView::Attach(
                    attach_command_line(file, offset as nat),
                ),
                Step::Resize { target, blocks } => {
                    &&& target is File ==> asked == ActionView::Resize(
                        resize_command_line(file, blocks as nat),
                    )
                    &&& target is LoopDevice && device is Some ==> asked == ActionView::Resize(
                        resize_command_line(device->0, blocks as nat),
                    )
                },
            }
        }),
        device is Some ==> (JobView::Detach { device: device->0, outcome }).action(file)
            == ActionView::Detach(detach_command_line(device->0)),
        JobView::Done(outcome).action(file) is Finish,
{
}

/// What a step that fails ends the job with, and what a step that succeeds
/// leads to: the next step, with the device that `losetup` named where it is
/// `losetup` that succeeded.
pub proof fn lemma_step_outcomes(
    steps: Seq<Step>,
    next: nat,
    device: Option<Seq<u8>>,
    e: MoveError,
    output: CommandOutputView,
)
    requires
        next < steps.len(),
    ensures
        ({
            let job = JobView::Running { steps, next, device };
            let ends = |after: JobView, error: WorkErrorView|
                match device {
                    Some(d) => after == (JobView::Detach { device: d, outcome: Err(error) }),
                    None => after == JobView::Done(Err(error)),
                };
            let goes_on = |after: JobView, attached: Option<Seq<u8>>|
                if next + 1 < steps.len() {
                    after == (JobView::Running { steps, next: next + 1, device: attached })
                } else {
                    match attached {
                        Some(d) => after == (JobView::Detach { device: d, outcome: Ok(()) }),
                        None => after == JobView::Done(Ok(())),
                    }
                };
            let not_run = job.after(WorkEventView::CommandNotRun);
            let ran = job.after(WorkEventView::CommandRan(output));
            match steps[next as int] {
                Step::MoveData { .. } => {
                    &&& job.expects(WorkEventView::Moved)
                    &&& job.expects(WorkEventView::MoveFailed(e))
                    &&& goes_on(job.after(WorkEventView::Moved), device)
                    &&& ends(job.after(WorkEventView::MoveFailed(e)), WorkErrorView::Move(e))
                },
                Step::AttachLoop { .. } => {
                    &&& job.expects(WorkEventView::CommandNotRun)
                    &&& job.expects(WorkEventView::CommandRan(output))
                    &&& ends(not_run, WorkErrorView::Attach(AttachErrorView::NotRun))
                    &&& output.success ==> goes_on(ran, Some(trimmed(output.stdout)))
                    &&& !output.success ==> ends(
                        ran,
                        WorkErrorView::Attach(AttachErrorView::Refused { stderr: output.stderr }),
                    )
                },
                Step::Resize { .. } => {
                    &&& job.expects(WorkEventView::CommandNotRun)
                    &&& job.expects(WorkEventView::CommandRan(output))
                    &&& ends(not_run, WorkErrorView::ResizeNotRun)
                    &&& output.success ==> goes_on(ran, device)
                    &&& !output.success ==> ends(ran, WorkErrorView::ResizeRefused)
                },
            }
        }),
{
}

/// Where a job stands after `events`.
pub open spec fn after_events(job: JobView, events: Seq<WorkEventView>) -> JobView
    decreases events.len(),
{
    if events.len() == 0 {
        job
    } else {
        after_events(job, events.drop_last()).after(events.last())
    }
}

/// Whether each of `events` can come of what is to be done when it comes.
pub open spec fn can_happen(job: JobView, events: Seq<WorkEventView>) -> bool
    decreases events.len(),
{
    events.len() == 0 || (can_happen(job, events.drop_last()) && after_events(
        job,
        events.drop_last(),
    ).expects(events.last()))
}

/// Whether `events` are those of the steps of a job that ended with `outcome`:
/// all but the last succeeded; the job ended well exactly if that one did too,
/// and then all steps have been taken.
pub open spec fn end_at(
    steps: Seq<Step>,
    events: Seq<WorkEventView>,
    outcome: Result<(), WorkErrorView>,
) -> bool {
    &&& 0 < events.len() <= steps.len()
    &&& forall|i: int| 0 <= i < events.len() - 1 ==> (#[trigger] events[i]).is_success()
    &&& outcome is Ok <==> events.last().is_success()
    &&& outcome is Ok ==> events.len() == steps.len()
}

/// The steps are taken in order, each after all before it have succeeded: a
/// job that goes on has taken one step for each event, a job that ended well
/// has taken them all, and a job that failed did so at the last step it took.
/// Detaching a loop device follows the steps and does not change the outcome.
pub proof fn lemma_steps_in_order(steps: Seq<Step>, events: Seq<WorkEventView>)
    requires
        steps.len() > 0,
        can_happen(JobView::fresh(steps), events),
    ensures
        match after_events(JobView::fresh(steps), events) {
            JobView::Running { steps: all, next, .. } => {
                &&& all == steps
                &&& next == events.len()
                &&& forall|i: int| 0 <= i < events.len() ==> (#[trigger] events[i]).is_success()
            },
            JobView::Detach { outcome, .. } => end_at(steps, events, outcome),
            JobView::Done(outcome) => end_at(steps, events, outcome) || {
                &&& events.len() > 0
                &&& after_events(JobView::fresh(steps), events.drop_last()) is Detach
                &&& end_at(steps, events.drop_last(), outcome)
            },
        },
    decreases events.len(),
{
    if events.len() > 0 {
        let before = events.drop_last();
        lemma_steps_in_order(steps, before);
        let job = after_events(JobView::fresh(steps), before);
        if job is Running {
            assert forall|i: int| 0 <= i < events.len() - 1 implies (
            #[trigger] events[i]).is_success() by {
                assert(events[i] == before[i]);
            }
            if events.last().is_success() {
                assert forall|i: int| 0 <= i < events.len() implies (
                #[trigger] events[i]).is_success() by {
                    if i < before.len() {
                        assert(events[i] == before[i]);
                    }
                }
            }
        }
    }
}

/// In a shrink, data is moved only after the filesystem has given up its
/// blocks: everything before the move has succeeded, `resize2fs` last.
pub proof fn lemma_shrink_resizes_first(
    f_offset: u64,
    block_size: u32,
    block_count: u64,
    c_value: u64,
    events: Seq<WorkEventView>,
    file: Seq<u8>,
)
    requires
        ({
            let job = JobView::fresh(shrink_steps(f_offset, block_size, block_count, c_value));
            can_happen(job, events) && after_events(job, events).action(file) is Move
        }),
    ensures
        events.len() == if f_offset == 0 {
            1nat
        } else {
            2nat
        },
        forall|i: int| 0 <= i < events.len() ==> (#[trigger] events[i]).is_success(),
{
    let steps = shrink_steps(f_offset, block_size, block_count, c_value);
    lemma_steps_in_order(steps, events);
    assert forall|i: int| 0 <= i < events.len() implies (#[trigger] events[i]).is_success() by {
        if i == events.len() - 1 {
            assert(events.last().is_success());
        }
    }
}

/// In an extension, `resize2fs` runs only after the data has been moved: on
/// the loop device that `losetup` named, or on the file where the filesystem
/// now begins with it.
pub proof fn lemma_extend_moves_first(
    f_offset: u64,
    block_size: u32,
    block_count: u64,
    c_value: u64,
    attach: CommandOutputView,
    file: Seq<u8>,
)
    requires
        is_extendable(f_offset, block_size, block_count, c_value),
        c_value / (block_size as u64) != 0,
        attach.success,
    ensures
        ({
            let blocks = (block_count + c_value / (block_size as u64)) as nat;
            let start = JobView::fresh(extend_steps(f_offset, block_size, block_count, c_value));
            let moved = start.after(WorkEventView::Moved);
            &&& start.action(file) is Move
            &&& if f_offset == c_value * 512 {
                moved.action(file) == ActionView::Resize(resize_command_line(file, blocks))
            } else {
                &&& moved.action(file) == ActionView::Attach(
                    attach_command_line(file, (f_offset - c_value * 512) as nat),
                )
                &&& moved.after(WorkEventView::CommandRan(attach)).action(file) == ActionView::Resize(
                    resize_command_line(trimmed(attach.stdout), blocks),
                )
            }
        }),
{
    let steps = extend_steps(f_offset, block_size, block_count, c_value);
    assert(steps[0] is MoveData);
    if f_offset == c_value * 512 {
        assert(steps.len() == 2 && steps[1] is Resize);
    } else {
        assert(steps.len() == 3 && steps[1] is AttachLoop && steps[2] is Resize);
    }
}

/// The loop device that `losetup` names is the job's from then on, whatever
/// comes of the steps after, and is detached at the end: a job is done only
/// after it asked for that, or if it has none.
pub proof fn lemma_device_is_detached(job: JobView, event: WorkEventView, file: Seq<u8>)
    requires
        job.expects(event),
    ensures
        job is Running ==> job.after(event).device() == match event {
            WorkEventView::CommandRan(output) if output.success && job.action(file) is Attach =>
                Some(trimmed(output.stdout)),
            _ => job.device(),
        },
        job matches JobView::Detach { device, outcome } ==> {
            &&& job.action(file) == ActionView::Detach(detach_command_line(device))
            &&& job.after(event) == JobView::Done(outcome)
        },
        job.after(event) is Done ==> job is Detach || job.device() is None,
{
}

/// A shrink that nothing stops in the way: at a filesystem that does not begin
/// with its file, a loop device is attached at its first byte, `resize2fs` runs
/// on the device that `losetup` named, the whole sectors that it had move
/// `c_value` sectors towards the end, and the device is detached; at one that
/// does, `resize2fs` runs on the file, and the sectors move. The blocks left are
/// `blocks`, where giving up as many as that reaches `c_value` by the block size
/// and giving up one fewer does not.
pub proof fn lemma_shrink_run(
    f_offset: u64,
    block_size: u32,
    block_count: u64,
    c_value: u64,
    blocks: u64,
    attach: CommandOutputView,
    resize: CommandOutputView,
    detach: WorkEventView,
    file: Seq<u8>,
)
    requires
        is_shrinkable(f_offset, block_size, block_count, c_value),
        blocks <= block_count,
        (block_count - blocks) * block_size >= c_value,
        blocks == block_count || (block_count - blocks - 1) * block_size < c_value,
        attach.success,
        resize.success,
        detach is CommandNotRun || detach is CommandRan,
    ensures
        ({
            let start = JobView::fresh(shrink_steps(f_offset, block_size, block_count, c_value));
            let attached = if f_offset == 0 {
                start
            } else {
                start.after(WorkEventView::CommandRan(attach))
            };
            let resized = attached.after(WorkEventView::CommandRan(resize));
            let moved = resized.after(WorkEventView::Moved);
            let place = if f_offset == 0 {
                file
            } else {
                trimmed(attach.stdout)
            };
            &&& f_offset != 0 ==> start.action(file) == ActionView::Attach(
                attach_command_line(file, f_offset as nat),
            )
            &&& attached.action(file) == ActionView::Resize(
                resize_command_line(place, blocks as nat),
            )
            &&& resized.action(file) == (ActionView::Move {
                from_sec: (f_offset / 512) as nat,
                to_sec: (f_offset / 512 + c_value) as nat,
                count: (block_size * block_count / 512) as nat,
            })
            &&& f_offset == 0 ==> moved == JobView::Done(Ok(()))
            &&& f_offset != 0 ==> {
                &&& moved.action(file) == ActionView::Detach(detach_command_line(place))
                &&& moved.expects(detach)
                &&& moved.after(detach) == JobView::Done(Ok(()))
            }
        }),
{
    let steps = shrink_steps(f_offset, block_size, block_count, c_value);
    lemma_shrink_plan(f_offset, block_size, block_count, c_value);
    let at = if f_offset == 0 {
        0int
    } else {
        1
    };
    let planned = steps[at]->blocks;
    let a = block_count - blocks;
    let b = block_count - planned;
    assert(a == b) by (nonlinear_arith)
        requires
            a >= 0,
            b >= 0,
            a * block_size >= c_value,
            a == 0 || (a - 1) * block_size < c_value,
            b * block_size >= c_value,
            b == 0 || (b - 1) * block_size < c_value,
            block_size > 0,
    ;
    assert(block_size * block_count >= 0) by (nonlinear_arith);
}

/// An extension that nothing stops in the way: the whole sectors of the
/// filesystem move `c_value` sectors towards the beginning; where it does not
/// then begin with its file, a loop device is attached at its new first byte;
/// where `c_value` reaches the block size, `resize2fs` runs on that device or
/// else on the file, with as many blocks more as the block size goes into
/// `c_value`; and the device is detached.
pub proof fn lemma_extend_run(
    f_offset: u64,
    block_size: u32,
    block_count: u64,
    c_value: u64,
    gained: u64,
    attach: CommandOutputView,
    resize: CommandOutputView,
    detach: WorkEventView,
    file: Seq<u8>,
)
    requires
        is_extendable(f_offset, block_size, block_count, c_value),
        gained * block_size <= c_value < (gained + 1) * block_size,
        attach.success,
        resize.success,
        detach is CommandNotRun || detach is CommandRan,
    ensures
        ({
            let begins = f_offset - c_value * 512;
            let start = JobView::fresh(extend_steps(f_offset, block_size, block_count, c_value));
            let moved = start.after(WorkEventView::Moved);
            let attached = if begins == 0 {
                moved
            } else {
                moved.after(WorkEventView::CommandRan(attach))
            };
            let resized = if gained == 0 {
                attached
            } else {
                attached.after(WorkEventView::CommandRan(resize))
            };
            let place = if begins == 0 {
                file
            } else {
                trimmed(attach.stdout)
            };
            &&& start.action(file) == (ActionView::Move {
                from_sec: (f_offset / 512) as nat,
                to_sec: (begins / 512) as nat,
                count: (block_size * block_count / 512) as nat,
            })
            &&& begins != 0 ==> moved.action(file) == ActionView::Attach(
                attach_command_line(file, begins as nat),
            )
            &&& gained != 0 ==> attached.action(file) == ActionView::Resize(
                resize_command_line(place, (block_count + gained) as nat),
            )
            &&& begins == 0 ==> resized == JobView::Done(Ok(()))
            &&& begins != 0 ==> {
                &&& resized.action(file) == ActionView::Detach(detach_command_line(place))
                &&& resized.expects(detach)
                &&& resized.after(detach) == JobView::Done(Ok(()))
            }
        }),
{
    let steps = extend_steps(f_offset, block_size, block_count, c_value);
    lemma_extend_plan(f_offset, block_size, block_count, c_value);
    assert(gained == 0 <==> c_value < block_size) by (nonlinear_arith)
        requires
            gained * block_size <= c_value < (gained + 1) * block_size,
    ;
    if gained != 0 {
        let planned = steps.last()->blocks - block_count;
        assert(planned == gained) by (nonlinear_arith)
            requires
                planned * block_size <= c_value < (planned + 1) * block_size,
                gained * block_size <= c_value < (gained + 1) * block_size,
        ;
    }
    assert(block_size * block_count >= 0) by (nonlinear_arith);
}

/// Jobs begin with the first step of their plan and nothing attached; calls do
/// what is stated of jobs.
pub proof fn lemma_job_calls(
    f_offset: u64,
    f_sb: Superblock,
    c_value: u64,
    job: Job,
    event: WorkEvent,
    made: Job,
    file: &[u8],
    action: Action,
)
    ensures
        ({
            let longer = extend_steps(f_offset, f_sb.block_size, f_sb.block_count, c_value);
            let shorter = shrink_steps(f_offset, f_sb.block_size, f_sb.block_count, c_value);
            &&& call_ensures(Job::extend, (f_offset, f_sb, c_value), made) ==> made@ == (
            JobView::Running { steps: longer, next: 0, device: None }) && made@.is_consistent()
            &&& call_ensures(Job::shrink, (f_offset, f_sb, c_value), made) ==> made@ == (
            JobView::Running { steps: shorter, next: 0, device: None }) && made@.is_consistent()
        }),
        is_extendable(f_offset, f_sb.block_size, f_sb.block_count, c_value) ==> call_requires(
            Job::extend,
            (f_offset, f_sb, c_value),
        ),
        is_shrinkable(f_offset, f_sb.block_size, f_sb.block_count, c_value) ==> call_requires(
            Job::shrink,
            (f_offset, f_sb, c_value),
        ),
        job@.is_consistent() ==> call_requires(Job::action, (&job, file)),
        call_ensures(Job::action, (&job, file), action) ==> match job@.action(file@) {
            ActionView::Move { from_sec: f, to_sec: t, count: n } => {
                &&& action matches Action::Move { from_sec, to_sec, count }
                &&& from_sec == f
                &&& to_sec == t
                &&& count == n
            },
            ActionView::Attach(line) => action matches Action::Attach(c) && c@ == line,
            ActionView::Resize(line) => action matches Action::Resize(c) && c@ == line,
            ActionView::Detach(line) => action matches Action::Detach(c) && c@ == line,
            ActionView::Finish => action is Finish,
        },
        job@.is_consistent() && job@.expects(event@) ==> call_requires(Job::step, (job, event)),
        call_ensures(Job::step, (job, event), made) ==> made@ == job@.after(event@)
            && made@.is_consistent(),
{
}

/// A job and what comes of its actions are as sequences what they are as
/// values.
pub proof fn lemma_job_views(
    steps: Vec<Step>,
    next: usize,
    device: LoopDevice,
    e: MoveError,
    output: CommandOutput,
)
    ensures
        (Job::Running { steps, next, device: None })@ == (JobView::Running {
            steps: steps@,
            next: next as nat,
            device: None,
        }),
        (Job::Running { steps, next, device: Some(device) })@ == (JobView::Running {
            steps: steps@,
            next: next as nat,
            device: Some(device@),
        }),
        (Job::Detach { device, outcome: Ok(()) })@ == (JobView::Detach {
            device: device@,
            outcome: Ok(()),
        }),
        Job::Done(Ok(()))@ == JobView::Done(Ok(())),
        Job::Done(Err(WorkError::Move(e)))@ == JobView::Done(Err(WorkErrorView::Move(e))),
        Job::Done(Err(WorkError::ResizeNotRun))@ == JobView::Done(
            Err(WorkErrorView::ResizeNotRun),
        ),
        Job::Done(Err(WorkError::ResizeRefused))@ == JobView::Done(
            Err(WorkErrorView::ResizeRefused),
        ),
        WorkEvent::Moved@ is Moved,
        WorkEvent::MoveFailed(e)@ == WorkEventView::MoveFailed(e),
        WorkEvent::CommandNotRun@ is CommandNotRun,
        WorkEvent::CommandRan(output)@ == WorkEventView::CommandRan(output@),
{
}

/// What is said of a resize that stopped depends on what stopped it alone.
pub proof fn lemma_work_words(e: AttachError, m: MoveError)
    ensures
        WorkError::Move(m).spec_message() == match m {
            MoveError::Open => "failed to open the file for writing"@,
            MoveError::Seek => "failed to seek the file"@,
            MoveError::Read => "failed to read the file"@,
            MoveError::Write => "failed to write to the file"@,
        },
        WorkError::Attach(e).spec_message() == "failed to create loop device"@,
        WorkError::ResizeNotRun.spec_message() == "failed to run resize2fs"@,
        WorkError::ResizeRefused.spec_message() == "resize2fs returned non-successful status"@,
{
}

} // verus!
