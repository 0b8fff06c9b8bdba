//! The coffee-break reminder and the coffee dance.
//!
//! Both are given as machines that say what to do next: how long to sleep,
//! what to show, which frame to print. The caller sleeps, shows and prints,
//! and reads the clock.

use crate::text::{decimal, decimal_text, repeat, repeated};
use vstd::prelude::*;

verus! {

/// The interval between reminders, in minutes, where none is given.
pub const DEFAULT_INTERVAL_MINUTES: u64 = 60;

/// How long the dance lasts, in milliseconds.
pub const DANCE_MILLIS: u64 = 20000;

/// The pause after each frame of the dance, in milliseconds.
pub const FRAME_PAUSE_MILLIS: u64 = 200;

/// The number of frames after which the dance repeats.
pub const FRAME_COUNT: u8 = 10;

/// Where the reminder stands in its round.
#[derive(Clone, Copy, Debug, PartialEq, Eq, Structural)]
pub enum Phase {
    /// The interval is still to be waited.
    Waiting,
    /// The interval is over; the notification is due.
    Notifying,
    /// The notification is out; the dialog is due.
    Asking,
    /// The dialog is out; the dance is due.
    Dancing,
}

/// The reminder: its interval and where it stands.
#[derive(Debug, PartialEq, Eq)]
pub struct Reminder {
    pub interval_minutes: u64,
    pub phase: Phase,
}

/// What the reminder asks for next.
#[derive(Debug, PartialEq, Eq)]
pub enum ReminderStep {
    /// Sleep for this many seconds.
    Sleep { seconds: u64 },
    /// Show a notification with this title and message.
    Notify { title: String, message: String },
    /// Show the coffee-break dialog.
    Dialog,
    /// Start the coffee dance.
    Dance,
}

/// A `ReminderStep` as plain mathematical values.
pub enum ReminderStepView {
    Sleep { seconds: nat },
    Notify { title: Seq<char>, message: Seq<char> },
    Dialog,
    Dance,
}

impl View for ReminderStep {
    type V = ReminderStepView;

    open spec fn view(&self) -> ReminderStepView {
        match self {
            ReminderStep::Sleep { seconds } => ReminderStepView::Sleep { seconds: *seconds as nat },
            ReminderStep::Notify { title, message } => ReminderStepView::Notify {
                title: title@,
                message: message@,
            },
            ReminderStep::Dialog => ReminderStepView::Dialog,
            ReminderStep::Dance => ReminderStepView::Dance,
        }
    }
}

/// The message of a reminder that comes every `interval` minutes.
pub open spec fn reminder_message(interval: nat) -> Seq<char> {
    "You've been coding for "@ + decimal(interval) + if interval == 1 {
        " minute! Time for coffee!"@
    } else {
        " minutes! Time for coffee!"@
    }
}

/// What is asked for in a phase.
pub open spec fn step_in(interval: nat, phase: Phase) -> ReminderStepView {
    match phase {
        Phase::Waiting => ReminderStepView::Sleep { seconds: interval * 60 },
        Phase::Notifying => ReminderStepView::Notify {
            title: "\u{2615} Coffee Break Time!"@,
            message: reminder_message(interval),
        },
        Phase::Asking => ReminderStepView::Dialog,
        Phase::Dancing => ReminderStepView::Dance,
    }
}

/// The phase that follows a phase: sleep, notification, dialog, dance, and
/// sleep again.
pub open spec fn phase_after(phase: Phase) -> Phase {
    match phase {
        Phase::Waiting => Phase::Notifying,
        Phase::Notifying => Phase::Asking,
        Phase::Asking => Phase::Dancing,
        Phase::Dancing => Phase::Waiting,
    }
}

/// The phase in which the reminder stands after `steps` steps.
pub open spec fn phase_at(steps: nat) -> Phase
    decreases steps,
{
    if steps == 0 {
        Phase::Waiting
    } else {
        phase_after(phase_at((steps - 1) as nat))
    }
}

/// The seconds that the reminder has asked to sleep in its first `steps`
/// steps.
pub open spec fn slept_before(interval: nat, steps: nat) -> nat
    decreases steps,
{
    if steps == 0 {
        0
    } else {
        slept_before(interval, (steps - 1) as nat) + match step_in(
            interval,
            phase_at((steps - 1) as nat),
        ) {
            ReminderStepView::Sleep { seconds } => seconds,
            _ => 0,
        }
    }
}

/// The notifications that the reminder has asked for in its first `steps`
/// steps.
pub open spec fn notified_before(steps: nat) -> nat
    decreases steps,
{
    if steps == 0 {
        0
    } else {
        notified_before((steps - 1) as nat) + if phase_at((steps - 1) as nat)
            == Phase::Notifying {
            1nat
        } else {
            0nat
        }
    }
}

/// The cadence of the reminder: when it asks for a notification, the k-th
/// since the start, it has before that asked to sleep for k intervals. So
/// the first comes no earlier than one interval after the start, and the
/// k-th no earlier than k intervals after it. Within a round the dialog
/// follows the notification and the dance the dialog.
pub proof fn law_reminder_cadence(interval: nat, steps: nat)
    ensures
        phase_at(steps) == Phase::Notifying ==> slept_before(interval, steps) == (notified_before(
            steps,
        ) + 1) * (interval * 60),
        phase_at(steps) != Phase::Notifying ==> slept_before(interval, steps) == notified_before(
            steps,
        ) * (interval * 60),
        phase_at(steps) == Phase::Notifying ==> phase_at(steps + 1) == Phase::Asking && phase_at(
            steps + 2,
        ) == Phase::Dancing,
    decreases steps,
{
    let unit = (interval * 60) as int;
    assert(phase_at(steps + 1) == phase_after(phase_at(steps)));
    assert(phase_at(steps + 2) == phase_after(phase_at((steps + 1) as nat)));
    if steps > 0 {
        let before = (steps - 1) as nat;
        law_reminder_cadence(interval, before);
        let n = notified_before(before) as int;
        assert((n + 1) * unit == n * unit + unit) by (nonlinear_arith);
    } else {
        assert(0 * unit == 0);
    }
}

/// The reminder at its start, for an interval whose seconds fit in 64 bits:
/// the first interval is still to be waited.
pub fn start_coffee_dance(interval_minutes: u64) -> (reminder: Reminder)
    requires
        interval_minutes * 60 <= u64::MAX,
    ensures
        reminder.interval_minutes == interval_minutes,
        reminder.phase == phase_at(0),
        reminder.wf(),
{
    Reminder { interval_minutes, phase: Phase::Waiting }
}

impl Reminder {
    /// The seconds of the interval can be counted.
    pub open spec fn wf(&self) -> bool {
        self.interval_minutes * 60 <= u64::MAX
    }

    /// What to do next, and on to the next phase.
    pub fn next(&mut self) -> (step: ReminderStep)
        requires
            old(self).wf(),
        ensures
            step@ == step_in(old(self).interval_minutes as nat, old(self).phase),
            final(self).phase == phase_after(old(self).phase),
            final(self).interval_minutes == old(self).interval_minutes,
            final(self).wf(),
    {
        match self.phase {
            Phase::Waiting => {
                self.phase = Phase::Notifying;
                ReminderStep::Sleep { seconds: self.interval_minutes * 60 }
            },
            Phase::Notifying => {
                self.phase = Phase::Asking;
                let mut message = "You've been coding for ".to_owned();
                message.append(decimal_text(self.interval_minutes).as_str());
                if self.interval_minutes == 1 {
                    message.append(" minute! Time for coffee!");
                } else {
                    message.append(" minutes! Time for coffee!");
                }
                ReminderStep::Notify { title: "\u{2615} Coffee Break Time!".to_owned(), message }
            },
            Phase::Asking => {
                self.phase = Phase::Dancing;
                ReminderStep::Dialog
            },
            Phase::Dancing => {
                self.phase = Phase::Waiting;
                ReminderStep::Dance
            },
        }
    }
}

/// Where the dance stands.
#[derive(Clone, Copy, Debug, PartialEq, Eq, Structural)]
pub enum Stage {
    /// Nothing has been shown yet.
    Opening,
    /// Frames are being shown; `next_frame` is the place in the cycle of the
    /// frame that comes next.
    Running { next_frame: u8 },
    /// The dance is over.
    Over,
}

/// The coffee dance.
#[derive(Debug, PartialEq, Eq)]
pub struct Dance {
    pub stage: Stage,
}

/// What the dance asks for next.
#[derive(Debug, PartialEq, Eq)]
pub enum DanceStep {
    /// Show a notification with this title and message, then print `line`
    /// after an empty line.
    Announce { title: String, message: String, line: String },
    /// Print `text` on a line of its own, flush, and pause.
    Frame { text: String, pause_millis: u64 },
    /// Print `line`, then an empty line.
    Finish { line: String },
    /// Nothing is left to do.
    Done,
}

/// A `DanceStep` as plain mathematical values.
pub enum DanceStepView {
    Announce { title: Seq<char>, message: Seq<char>, line: Seq<char> },
    Frame { text: Seq<char>, pause_millis: nat },
    Finish { line: Seq<char> },
    Done,
}

impl View for DanceStep {
    type V = DanceStepView;

    open spec fn view(&self) -> DanceStepView {
        match self {
            DanceStep::Announce { title, message, line } => DanceStepView::Announce {
                title: title@,
                message: message@,
                line: line@,
            },
            DanceStep::Frame { text, pause_millis } => DanceStepView::Frame {
                text: text@,
                pause_millis: *pause_millis as nat,
            },
            DanceStep::Finish { line } => DanceStepView::Finish { line: line@ },
            DanceStep::Done => DanceStepView::Done,
        }
    }
}

/// The column of the cup in frame `place` of the cycle: from the right edge
/// of a field of six columns to the left edge and back.
pub open spec fn cup_column(place: nat) -> nat {
    let at = place % 10;
    if at <= 5 {
        (5 - at) as nat
    } else {
        (at - 5) as nat
    }
}

/// Frame `place` of the cycle: six columns with the cup in one of them.
pub open spec fn frame_text(place: nat) -> Seq<char> {
    repeated(" "@, cup_column(place)) + "\u{2615}"@ + repeated(" "@, (5 - cup_column(place)) as nat)
}

/// The dance is in a stage that it can reach.
pub open spec fn stage_ok(stage: Stage) -> bool {
    stage matches Stage::Running { next_frame } ==> next_frame < FRAME_COUNT
}

/// What the dance asks for in `stage`, `elapsed_millis` after it began.
pub open spec fn dance_step(stage: Stage, elapsed_millis: nat) -> DanceStepView {
    match stage {
        Stage::Opening => DanceStepView::Announce {
            title: "\u{2615} Coffee Dance!"@,
            message: "Coffee animation starting in terminal!"@,
            line: "\u{2615} Coffee dance starting! \u{2615}"@,
        },
        Stage::Running { next_frame } => if elapsed_millis < DANCE_MILLIS {
            DanceStepView::Frame {
                text: frame_text(next_frame as nat),
                pause_millis: FRAME_PAUSE_MILLIS as nat,
            }
        } else {
            DanceStepView::Finish { line: "\u{2615} Coffee time! \u{2615}"@ }
        },
        Stage::Over => DanceStepView::Done,
    }
}

/// The stage that follows `stage`, `elapsed_millis` after the dance began.
pub open spec fn stage_after(stage: Stage, elapsed_millis: nat) -> Stage {
    match stage {
        Stage::Opening => Stage::Running { next_frame: 0 },
        Stage::Running { next_frame } => if elapsed_millis < DANCE_MILLIS {
            Stage::Running { next_frame: ((next_frame + 1) % 10) as u8 }
        } else {
            Stage::Over
        },
        Stage::Over => Stage::Over,
    }
}

/// The stage of a dance that has shown `frames` frames in time.
pub open spec fn stage_at(frames: nat) -> Stage {
    Stage::Running { next_frame: (frames % 10) as u8 }
}

/// While the time is not up the dance goes on, frame after frame through the
/// cycle: after `frames` frames, asked before the time is up, it shows frame
/// `frames` of the cycle and pauses. Asked when the time is up it closes, and
/// then it is over.
pub proof fn law_dance_runs_for_its_time(frames: nat, elapsed_millis: nat)
    ensures
        stage_ok(stage_at(frames)),
        stage_after(Stage::Opening, elapsed_millis) == stage_at(0),
        elapsed_millis < DANCE_MILLIS ==> dance_step(stage_at(frames), elapsed_millis)
            == (DanceStepView::Frame {
            text: frame_text(frames),
            pause_millis: FRAME_PAUSE_MILLIS as nat,
        }) && stage_after(stage_at(frames), elapsed_millis) == stage_at(frames + 1),
        elapsed_millis >= DANCE_MILLIS ==> dance_step(stage_at(frames), elapsed_millis)
            is Finish && stage_after(stage_at(frames), elapsed_millis) == Stage::Over,
{
    assert(cup_column(frames % 10) == cup_column(frames));
    assert(((frames % 10) + 1) % 10 == (frames + 1) % 10);
}

/// Every frame is a field of six columns with the cup in one of them and
/// spaces in the others; from one frame to the next the cup moves by one
/// column.
pub proof fn law_frames_slide_the_cup(place: nat)
    ensures
        frame_text(place).len() == 6,
        cup_column(place) < 6,
        forall|i: int|
            0 <= i < 6 ==> #[trigger] frame_text(place)[i] == if i == cup_column(place) {
                '\u{2615}'
            } else {
                ' '
            },
        cup_column(place + 1) == cup_column(place) + 1 || cup_column(place + 1) + 1 == cup_column(
            place,
        ),
        frame_text(place + 10) == frame_text(place),
{
    let left = cup_column(place);
    let right = (5 - left) as nat;
    reveal_strlit(" ");
    reveal_strlit("\u{2615}");
    lemma_repeated_of_one(' ', left);
    lemma_repeated_of_one(' ', right);
    assert(" "@ =~= seq![' ']);
    assert(cup_column(place + 10) == cup_column(place));
}

/// A character written `n` times in a row is `n` characters, each that one.
pub proof fn lemma_repeated_of_one(c: char, n: nat)
    ensures
        repeated(seq![c], n).len() == n,
        forall|i: int| 0 <= i < n ==> #[trigger] repeated(seq![c], n)[i] == c,
    decreases n,
{
    if n > 0 {
        lemma_repeated_of_one(c, (n - 1) as nat);
    }
}

/// Frame `place` of the cycle.
fn frame(place: u8) -> (text: String)
    requires
        place < FRAME_COUNT,
    ensures
        text@ == frame_text(place as nat),
{
    let column: usize = if place <= 5 {
        (5 - place) as usize
    } else {
        (place - 5) as usize
    };
    let mut text = repeat(" ", column);
    text.append("\u{2615}");
    text.append(repeat(" ", 5 - column).as_str());
    text
}

/// The coffee dance at its beginning.
pub fn show_coffee_dance() -> (dance: Dance)
    ensures
        dance.stage == Stage::Opening,
        dance.wf(),
{
    Dance { stage: Stage::Opening }
}

impl Dance {
    /// The dance is in a stage that it can reach.
    pub open spec fn wf(&self) -> bool {
        stage_ok(self.stage)
    }

    /// What to do next, `elapsed_millis` after the dance began: first the
    /// announcement, then a frame every time it is asked before the time is
    /// up, then the closing line, then nothing.
    pub fn step(&mut self, elapsed_millis: u64) -> (step: DanceStep)
        requires
            old(self).wf(),
        ensures
            step@ == dance_step(old(self).stage, elapsed_millis as nat),
            final(self).stage == stage_after(old(self).stage, elapsed_millis as nat),
            final(self).wf(),
    {
        match self.stage {
            Stage::Opening => {
                self.stage = Stage::Running { next_frame: 0 };
                DanceStep::Announce {
                    title: "\u{2615} Coffee Dance!".to_owned(),
                    message: "Coffee animation starting in terminal!".to_owned(),
                    line: "\u{2615} Coffee dance starting! \u{2615}".to_owned(),
                }
            },
            Stage::Running { next_frame } => {
                if elapsed_millis < DANCE_MILLIS {
                    let text = frame(next_frame);
                    let following: u8 = if next_frame + 1 == FRAME_COUNT {
                        0
                    } else {
                        next_frame + 1
                    };
                    self.stage = Stage::Running { next_frame: following };
                    DanceStep::Frame { text, pause_millis: FRAME_PAUSE_MILLIS }
                } else {
                    self.stage = Stage::Over;
                    DanceStep::Finish { line: "\u{2615} Coffee time! \u{2615}".to_owned() }
                }
            },
            Stage::Over => DanceStep::Done,
        }
    }
}

} // verus!
