//! The control thread's plan: which unit to install next and how long to
//! wait before moving on.

use vstd::prelude::*;
use crate::frequency::{get_note_frequency, note_frequency, Frequency};
use crate::note::{Accord, Note};

verus! {

/// Milliseconds in a minute.
pub const MILLIS_PER_MINUTE: u64 = 60000;

/// One entry of a schedule: the notes to install, in order, and the time to
/// stay on the entry, in beats.
#[derive(Debug)]
pub struct Step {
    pub accord: Accord,
    pub beats: u32,
}

/// What a `Step` stands for.
pub struct StepView {
    pub notes: Seq<Note>,
    pub beats: u32,
}

impl View for Step {
    type V = StepView;

    open spec fn view(&self) -> StepView {
        StepView { notes: self.accord@, beats: self.beats }
    }
}

/// What a schedule stands for: the views of its entries, in order.
pub open spec fn schedule_view(schedule: Seq<Step>) -> Seq<StepView> {
    Seq::new(schedule.len(), |i: int| schedule[i]@)
}

/// What the control thread does next.
#[derive(Clone, Copy, Debug, PartialEq, Eq, Structural)]
pub enum Action {
    /// Build a unit of this frequency and install it in the replaceable slot.
    Install(Frequency),
    /// Wait this many milliseconds.
    Sleep(u64),
    /// The schedule is exhausted.
    Done,
}

/// Length of `beats` beats at `bpm` beats per minute, in whole milliseconds.
pub open spec fn spec_duration_ms(beats: int, bpm: int) -> int {
    beats * 60000 / bpm
}

/// Length of `beats` beats at `bpm` beats per minute, in whole milliseconds.
pub fn duration_ms(beats: u32, bpm: u32) -> (ms: u64)
    requires
        bpm > 0,
    ensures
        ms == spec_duration_ms(beats as int, bpm as int),
{
    let beats: u64 = beats as u64;
    let bpm: u64 = bpm as u64;
    beats * MILLIS_PER_MINUTE / bpm
}

/// The actions of one entry: an install for each of its notes, in order,
/// then the wait.
pub open spec fn step_actions(step: StepView, bpm: u32) -> Seq<Action> {
    Seq::new(step.notes.len(), |i: int| Action::Install(note_frequency(step.notes[i]))).push(
        Action::Sleep(spec_duration_ms(step.beats as int, bpm as int) as u64),
    )
}

/// The actions of a whole schedule: those of its entries, one entry after
/// the other.
pub open spec fn plan(schedule: Seq<StepView>, bpm: u32) -> Seq<Action>
    decreases schedule.len(),
{
    if schedule.len() == 0 {
        Seq::empty()
    } else {
        plan(schedule.drop_last(), bpm) + step_actions(schedule.last(), bpm)
    }
}

/// The plan of the first `entries + 1` entries is that of the first
/// `entries`, followed by the actions of the entry at `entries`.
proof fn lemma_plan_take_next(schedule: Seq<StepView>, bpm: u32, entries: int)
    requires
        0 <= entries < schedule.len(),
    ensures
        plan(schedule.take(entries + 1), bpm) == plan(schedule.take(entries), bpm) + step_actions(
            schedule[entries],
            bpm,
        ),
{
    let longer = schedule.take(entries + 1);
    assert(longer.drop_last() =~= schedule.take(entries));
    assert(longer.last() == schedule[entries]);
}

/// The plan of the first `entries` entries opens the plan of the schedule.
proof fn lemma_plan_take_is_prefix(schedule: Seq<StepView>, bpm: u32, entries: int)
    requires
        0 <= entries <= schedule.len(),
    ensures
        plan(schedule.take(entries), bpm).is_prefix_of(plan(schedule, bpm)),
    decreases schedule.len() - entries,
{
    if entries == schedule.len() {
        assert(schedule.take(entries) =~= schedule);
    } else {
        lemma_plan_take_next(schedule, bpm, entries);
        lemma_plan_take_is_prefix(schedule, bpm, entries + 1);
    }
}

/// Walks a schedule and hands out its plan one action at a time.
pub struct Sequencer {
    schedule: Vec<Step>,
    bpm: u32,
    entry: usize,
    note: usize,
}

/// What a `Sequencer` stands for: a schedule, a tempo, and how much of the
/// schedule's plan has been handed out.
pub struct SequencerView {
    pub schedule: Seq<StepView>,
    pub bpm: u32,
    pub emitted: nat,
}

impl SequencerView {
    /// The plan that the sequencer follows.
    pub open spec fn actions(self) -> Seq<Action> {
        plan(self.schedule, self.bpm)
    }

    /// The whole plan has been handed out.
    pub open spec fn is_done(self) -> bool {
        self.emitted >= self.actions().len()
    }

    /// The action that comes next.
    pub open spec fn next_action(self) -> Action {
        if self.is_done() {
            Action::Done
        } else {
            self.actions()[self.emitted as int]
        }
    }

    /// The state after the next action has been handed out.
    pub open spec fn advance(self) -> SequencerView {
        if self.is_done() {
            self
        } else {
            SequencerView { emitted: self.emitted + 1, ..self }
        }
    }
}

impl View for Sequencer {
    type V = SequencerView;

    closed spec fn view(&self) -> SequencerView {
        SequencerView {
            schedule: self.steps(),
            bpm: self.bpm,
            emitted: (plan(self.steps().take(self.entry as int), self.bpm).len()
                + self.note) as nat,
        }
    }
}

impl Sequencer {
    spec fn steps(&self) -> Seq<StepView> {
        schedule_view(self.schedule@)
    }

    /// The cursor lies within the schedule and the tempo is positive.
    pub closed spec fn wf(&self) -> bool {
        &&& self.bpm > 0
        &&& self.entry <= self.schedule@.len()
        &&& self.entry < self.schedule@.len() ==> self.note
            <= self.schedule@[self.entry as int].accord.notes@.len()
        &&& self.entry == self.schedule@.len() ==> self.note == 0
    }

    /// A well-formed sequencer has handed out no more than its plan holds.
    pub proof fn lemma_emitted_within_plan(&self)
        requires
            self.wf(),
        ensures
            self@.bpm > 0,
            self@.emitted <= self@.actions().len(),
    {
        let steps = self.steps();
        lemma_plan_take_is_prefix(steps, self.bpm, self.entry as int);
        if self.entry < self.schedule@.len() {
            lemma_plan_take_next(steps, self.bpm, self.entry as int);
            lemma_plan_take_is_prefix(steps, self.bpm, self.entry as int + 1);
        }
    }

    /// A sequencer at the start of `schedule`.
    pub fn new(schedule: Vec<Step>, bpm: u32) -> (s: Sequencer)
        requires
            bpm > 0,
        ensures
            s.wf(),
            s@.schedule == schedule_view(schedule@),
            s@.bpm == bpm,
            s@.emitted == 0,
    {
        Sequencer { schedule, bpm, entry: 0, note: 0 }
    }

    /// Hands out the next action of the plan and moves past it. Once the
    /// plan is exhausted every call returns `Action::Done`.
    pub fn next_action(&mut self) -> (action: Action)
        requires
            old(self).wf(),
        ensures
            final(self).wf(),
            action == old(self)@.next_action(),
            final(self)@ == old(self)@.advance(),
    {
        let ghost steps = self.steps();
        proof {
            lemma_plan_take_is_prefix(steps, self.bpm, self.entry as int);
        }
        if self.entry >= self.schedule.len() {
            proof {
                assert(steps.take(self.entry as int) =~= steps);
            }
            return Action::Done;
        }
        proof {
            lemma_plan_take_next(steps, self.bpm, self.entry as int);
            lemma_plan_take_is_prefix(steps, self.bpm, self.entry as int + 1);
            let whole = plan(steps, self.bpm);
            let before = plan(steps.take(self.entry as int), self.bpm);
            let current = step_actions(steps[self.entry as int], self.bpm);
            assert(whole[before.len() + self.note] == (before + current)[before.len() + self.note]);
            assert((before + current)[before.len() + self.note] == current[self.note as int]);
        }
        let step = &self.schedule[self.entry];
        if self.note < step.accord.notes.len() {
            let frequency = get_note_frequency(&step.accord.notes[self.note]);
            self.note = self.note + 1;
            Action::Install(frequency)
        } else {
            let ms = duration_ms(step.beats, self.bpm);
            self.entry = self.entry + 1;
            self.note = 0;
            Action::Sleep(ms)
        }
    }
}

} // verus!
