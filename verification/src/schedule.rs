//! The staged scheduler: an ordered pipeline of named stages, each
//! holding the behavior units that run in that stage.
//!
//! Stages run strictly in pipeline order once per loop tick.  Units
//! within one stage make no ordering promise to each other unless a unit
//! declares an explicit "after" dependency on a label carried by an
//! earlier unit; the schedule keeps every such declaration satisfied by
//! construction.

use vstd::prelude::*;

use crate::events::EventKind;

verus! {

/// The stages of the runtime's pipeline, in the order they run.
#[derive(Debug, Copy, Clone, PartialEq, Eq, Structural, Hash)]
pub enum CoreStages {
    EventUpdate,
    PreUpdate,
    Update,
    PostUpdate,
    Layout,
    Render,
    Present,
    Last,
}

/// The position of a stage in the pipeline's fixed total order.
pub open spec fn stage_rank(s: CoreStages) -> int {
    match s {
        CoreStages::EventUpdate => 0,
        CoreStages::PreUpdate => 1,
        CoreStages::Update => 2,
        CoreStages::PostUpdate => 3,
        CoreStages::Layout => 4,
        CoreStages::Render => 5,
        CoreStages::Present => 6,
        CoreStages::Last => 7,
    }
}

/// Names one behavior unit the scheduler can run.
#[derive(Debug, Copy, Clone, PartialEq, Eq, Structural)]
pub enum SystemId {
    /// The maintenance update of one event queue.
    EventUpdate(EventKind),
    /// Creates windows asked for by `Create` events.
    CreateWindows,
    /// Asks window behaviors whether a close request may proceed.
    WindowsCloseRequested,
    /// Tears down windows named by `Destroy` events.
    DestroyWindows,
    /// Replaces surfaces after resizes and gives new windows theirs.
    CreateSurfaceForWindows,
    /// Presents surfaces named by `Repaint` events.
    RepaintAndPresentWindows,
    /// Turns a posted `Shutdown` event into an exit request.
    Shutdown,
    /// Turns a posted `ShutdownEventLoop` event into an exit request.
    ShutdownEventLoop,
}

/// A label one unit may carry so that later units can order themselves
/// after it.
#[derive(Debug, Copy, Clone, PartialEq, Eq, Structural)]
pub enum UnitLabel {
    /// The units that create and destroy window entities.
    WindowLifecycle,
}

/// One behavior unit registered in a stage.
#[derive(Debug, Copy, Clone, PartialEq, Eq, Structural)]
pub struct Unit {
    pub system: SystemId,
    /// The label this unit offers to order against.
    pub label: Option<UnitLabel>,
    /// A label this unit must run after.
    pub after: Option<UnitLabel>,
}

/// The mathematical state of one stage.
pub struct StageModel {
    pub label: CoreStages,
    pub units: Seq<Unit>,
}

/// The unit at position `i` has what its "after" declaration asks for:
/// an earlier unit carrying the label, whose output it then observes.
pub open spec fn unit_after_ok(units: Seq<Unit>, i: int) -> bool {
    units[i].after.is_some() ==> exists|j: int| 0 <= j < i && (#[trigger] units[j]).label
        == units[i].after
}

/// Every declared "after" dependency within the stage is satisfied: a
/// unit that asks to run after a label comes later in the run order than
/// some unit carrying it, so it observes that unit's output.
pub open spec fn stage_respects_after(units: Seq<Unit>) -> bool {
    forall|i: int| 0 <= i < units.len() ==> #[trigger] unit_after_ok(units, i)
}

/// A schedule is well formed when no two stages share a label and every
/// stage keeps its declared orderings.
pub open spec fn schedule_wf(stages: Seq<StageModel>) -> bool {
    &&& forall|i: int, j: int|
        0 <= i < stages.len() && 0 <= j < stages.len() && i != j ==> (#[trigger] stages[i]).label
            != (#[trigger] stages[j]).label
    &&& forall|i: int|
        0 <= i < stages.len() ==> stage_respects_after((#[trigger] stages[i]).units)
    &&& forall|i: int| 0 <= i < stages.len() ==> (#[trigger] stages[i]).units.len() <= usize::MAX
}

/// Whether some stage carries the label.
pub open spec fn schedule_has_stage(stages: Seq<StageModel>, label: CoreStages) -> bool {
    exists|i: int| 0 <= i < stages.len() && (#[trigger] stages[i]).label == label
}

/// The position of the label's stage.
pub open spec fn schedule_stage_index(stages: Seq<StageModel>, label: CoreStages) -> int {
    choose|i: int| 0 <= i < stages.len() && (#[trigger] stages[i]).label == label
}

/// The units of the label's stage.
pub open spec fn schedule_stage_units(stages: Seq<StageModel>, label: CoreStages) -> Seq<Unit> {
    stages[schedule_stage_index(stages, label)].units
}

/// Appending a unit keeps a stage's declared orderings satisfied, as
/// long as an appended "after" dependency already has a unit to follow.
pub proof fn lemma_respects_after_push(units: Seq<Unit>, unit: Unit)
    requires
        stage_respects_after(units),
        unit.after.is_some() ==> exists|j: int|
            0 <= j < units.len() && (#[trigger] units[j]).label == unit.after,
    ensures
        stage_respects_after(units.push(unit)),
{
    let pushed = units.push(unit);
    assert forall|a: int| 0 <= a < pushed.len() implies #[trigger] unit_after_ok(pushed, a) by {
        if a < units.len() {
            assert(unit_after_ok(units, a));
            assert(pushed[a] == units[a]);
            if units[a].after.is_some() {
                let b = choose|b: int|
                    0 <= b < a && (#[trigger] units[b]).label == units[a].after;
                assert(pushed[b].label == pushed[a].after);
            }
        } else {
            assert(pushed[a] == unit);
            if unit.after.is_some() {
                let b = choose|b: int|
                    0 <= b < units.len() && (#[trigger] units[b]).label == unit.after;
                assert(pushed[b].label == pushed[a].after);
            }
        }
    }
}

/// On a well-formed schedule a label names at most one stage.
pub proof fn lemma_schedule_index_unique(stages: Seq<StageModel>, i: int)
    requires
        schedule_wf(stages),
        0 <= i < stages.len(),
    ensures
        schedule_stage_index(stages, stages[i].label) == i,
{
    let label = stages[i].label;
    assert(schedule_has_stage(stages, label));
    let j = schedule_stage_index(stages, label);
    assert(0 <= j < stages.len() && stages[j].label == label);
}

/// Appending a unit to the label's stage.
pub open spec fn schedule_with_unit(stages: Seq<StageModel>, label: CoreStages, unit: Unit) -> Seq<
    StageModel,
> {
    let i = schedule_stage_index(stages, label);
    stages.update(i, StageModel { label, units: stages[i].units.push(unit) })
}

/// One stage of the pipeline.
pub struct Stage {
    label: CoreStages,
    units: Vec<Unit>,
}

impl View for Stage {
    type V = StageModel;

    closed spec fn view(&self) -> StageModel {
        StageModel { label: self.label, units: self.units@ }
    }
}

/// The staged scheduler's pipeline.
pub struct Schedule {
    stages: Vec<Stage>,
}

impl View for Schedule {
    type V = Seq<StageModel>;

    closed spec fn view(&self) -> Seq<StageModel> {
        Seq::new(self.stages@.len(), |i: int| self.stages@[i]@)
    }
}

impl Schedule {
    /// A pipeline with no stages yet.
    pub fn new() -> (s: Schedule)
        ensures
            s@ == Seq::<StageModel>::empty(),
            schedule_wf(s@),
    {
        let s = Schedule { stages: Vec::new() };
        proof {
            assert(s@ =~= Seq::<StageModel>::empty());
        }
        s
    }

    /// Where the label's stage sits, if it exists.
    fn find_stage(&self, label: CoreStages) -> (r: Option<usize>)
        requires
            schedule_wf(self@),
        ensures
            match r {
                Some(i) => i < self@.len() && self@[i as int].label == label && schedule_has_stage(
                    self@,
                    label,
                ) && schedule_stage_index(self@, label) == i,
                None => !schedule_has_stage(self@, label),
            },
    {
        let n = self.stages.len();
        let mut i: usize = 0;
        while i < n
            invariant
                i <= n,
                n == self.stages.len(),
                schedule_wf(self@),
                forall|j: int| 0 <= j < i ==> (#[trigger] self@[j]).label != label,
            decreases n - i,
        {
            if self.stages[i].label == label {
                proof {
                    lemma_schedule_index_unique(self@, i as int);
                }
                return Some(i);
            }
            i = i + 1;
        }
        None
    }

    /// Appends a new, empty stage at the end of the pipeline.
    pub fn push_stage(&mut self, label: CoreStages)
        requires
            schedule_wf(old(self)@),
            !schedule_has_stage(old(self)@, label),
        ensures
            final(self)@ == old(self)@.push(StageModel { label, units: Seq::empty() }),
            schedule_wf(final(self)@),
            schedule_has_stage(final(self)@, label),
    {
        self.stages.push(Stage { label, units: Vec::new() });
        proof {
            assert(self@ =~= old(self)@.push(StageModel { label, units: Seq::empty() }));
            assert(self@[self@.len() - 1].label == label);
        }
    }

    /// Inserts a new, empty stage directly after an existing one, without
    /// renumbering what follows.
    pub fn push_stage_after(&mut self, after: CoreStages, label: CoreStages)
        requires
            schedule_wf(old(self)@),
            schedule_has_stage(old(self)@, after),
            !schedule_has_stage(old(self)@, label),
            old(self)@.len() < usize::MAX,
        ensures
            final(self)@ == old(self)@.insert(
                schedule_stage_index(old(self)@, after) + 1,
                StageModel { label, units: Seq::empty() },
            ),
            schedule_wf(final(self)@),
            schedule_has_stage(final(self)@, label),
            schedule_has_stage(final(self)@, after),
    {
        let i = match self.find_stage(after) {
            Some(i) => i,
            None => {
                proof {
                    assert(false);
                }
                0
            },
        };
        self.stages.insert(i + 1, Stage { label, units: Vec::new() });
        proof {
            let expected = old(self)@.insert(
                i + 1,
                StageModel { label, units: Seq::<Unit>::empty() },
            );
            assert forall|k: int| 0 <= k < self@.len() implies self@[k] == expected[k] by {
                if k <= i {
                    assert(self.stages@[k] == old(self).stages@[k]);
                } else if k == i + 1 {
                } else {
                    assert(self.stages@[k] == old(self).stages@[k - 1]);
                }
            }
            assert(self@ =~= expected);
            assert(self@[i + 1].label == label);
            assert(self@[i as int].label == after);
        }
    }

    /// Appends a unit to the label's stage; registration is append-only
    /// within a stage.
    ///
    /// A unit that declares an "after" dependency may only be added once
    /// the stage holds a unit carrying that label, so the declared
    /// orderings stay satisfied.
    #[verifier::rlimit(50)]
    pub fn add_unit_to_stage(&mut self, stage: CoreStages, unit: Unit)
        requires
            schedule_wf(old(self)@),
            schedule_has_stage(old(self)@, stage),
            schedule_stage_units(old(self)@, stage).len() < usize::MAX,
            unit.after.is_some() ==> exists|j: int|
                0 <= j < schedule_stage_units(old(self)@, stage).len() && (
                #[trigger] schedule_stage_units(old(self)@, stage)[j]).label == unit.after,
        ensures
            final(self)@ == schedule_with_unit(old(self)@, stage, unit),
            schedule_wf(final(self)@),
            schedule_has_stage(final(self)@, stage),
    {
        let i = match self.find_stage(stage) {
            Some(i) => i,
            None => {
                proof {
                    assert(false);
                }
                0
            },
        };
        let s = &mut self.stages[i];
        s.units.push(unit);
        proof {
            assert(self@ =~= schedule_with_unit(old(self)@, stage, unit));
            let old_units = schedule_stage_units(old(self)@, stage);
            lemma_respects_after_push(old_units, unit);
            assert forall|k: int|
                0 <= k < self@.len() implies stage_respects_after(
                (#[trigger] self@[k]).units,
            ) by {
                if k != i {
                    assert(self@[k] == old(self)@[k]);
                } else {
                    assert(self@[k].units == old_units.push(unit));
                }
            }
            lemma_schedule_index_unique(self@, i as int);
        }
    }

    /// Whether the pipeline holds a stage with this label.
    pub fn has_stage(&self, label: CoreStages) -> (r: bool)
        requires
            schedule_wf(self@),
        ensures
            r == schedule_has_stage(self@, label),
    {
        self.find_stage(label).is_some()
    }

    /// How many units the label's stage holds.
    pub fn stage_unit_count(&self, label: CoreStages) -> (n: usize)
        requires
            schedule_wf(self@),
            schedule_has_stage(self@, label),
        ensures
            n == schedule_stage_units(self@, label).len(),
    {
        let i = match self.find_stage(label) {
            Some(i) => i,
            None => {
                proof {
                    assert(false);
                }
                0
            },
        };
        self.stages[i].units.len()
    }

    /// Whether the label's stage holds a unit carrying the given unit
    /// label.
    pub fn stage_has_label(&self, stage: CoreStages, label: UnitLabel) -> (r: bool)
        requires
            schedule_wf(self@),
            schedule_has_stage(self@, stage),
        ensures
            r == exists|j: int|
                0 <= j < schedule_stage_units(self@, stage).len() && (
                #[trigger] schedule_stage_units(self@, stage)[j]).label == Some(label),
    {
        let i = match self.find_stage(stage) {
            Some(i) => i,
            None => {
                proof {
                    assert(false);
                }
                0
            },
        };
        let units = &self.stages[i].units;
        let n = units.len();
        let mut j: usize = 0;
        while j < n
            invariant
                j <= n,
                n == units@.len(),
                units@ == schedule_stage_units(self@, stage),
                forall|k: int| 0 <= k < j ==> (#[trigger] units@[k]).label != Some(label),
            decreases n - j,
        {
            let u = units[j];
            match u.label {
                Some(l) => {
                    if l == label {
                        proof {
                            assert(units@[j as int].label == Some(label));
                        }
                        return true;
                    }
                },
                None => {},
            }
            j = j + 1;
        }
        false
    }

    /// How many stages the pipeline holds.
    pub fn stage_count(&self) -> (n: usize)
        ensures
            n == self@.len(),
    {
        self.stages.len()
    }

    /// The label of the stage at a position.
    pub fn stage_label_at(&self, i: usize) -> (label: CoreStages)
        requires
            i < self@.len(),
        ensures
            label == self@[i as int].label,
    {
        self.stages[i].label
    }

    /// How many units the stage at a position holds.
    pub fn unit_count_at(&self, i: usize) -> (n: usize)
        requires
            i < self@.len(),
        ensures
            n == self@[i as int].units.len(),
    {
        self.stages[i].units.len()
    }

    /// The unit at a position within a stage.
    pub fn unit_at(&self, i: usize, j: usize) -> (unit: Unit)
        requires
            i < self@.len(),
            j < self@[i as int].units.len(),
        ensures
            unit == self@[i as int].units[j as int],
    {
        self.stages[i].units[j]
    }
}

} // verus!
