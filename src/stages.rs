//! The rendering stages and the schedule that runs them in order.
use vstd::prelude::*;
use crate::upload_stage::UploadStage;

verus! {

/// The labels of the rendering stages, in the order a frame runs them.
#[derive(Clone, Copy, Debug, PartialEq, Eq, Structural, Hash)]
pub enum RenderStageLabel {
    /// Prepare render resources for the GPU: buffers are allocated and written.
    Prepare,
    /// Queue draw calls that depend on prepared data.
    Queue,
    /// Sort the queued draw calls.
    PhaseSort,
    /// Submit to the GPU.
    Render,
    /// Release per-frame render resources.
    Cleanup,
}

/// The prepare sub-stage that initializes GPU-side singletons on first use.
#[derive(Debug, Default)]
pub struct ResourceStage;

/// The prepare stage: upload and resource initialization, which share no
/// mutable state and run as one unit.
#[derive(Debug, Default)]
pub struct PrepareStage {
    pub upload: UploadStage,
    pub resource: ResourceStage,
}

/// Builds the draw-call lists from resident resources.
#[derive(Debug, Default)]
pub struct QueueStage;

/// Orders the draw calls.
#[derive(Debug, Default)]
pub struct PhaseSortStage;

/// Runs the render graph, submitting to the GPU.
#[derive(Debug, Default)]
pub struct GraphRunnerStage;

/// Releases per-frame render resources once the frame is submitted.
#[derive(Debug, Default)]
pub struct CleanupStage;

/// A stage of the schedule.
#[derive(Debug)]
pub enum Stage {
    Prepare(PrepareStage),
    Queue(QueueStage),
    PhaseSort(PhaseSortStage),
    Render(GraphRunnerStage),
    Cleanup(CleanupStage),
}

/// The stage the renderer registers under each label.
pub open spec fn render_stage(l: RenderStageLabel) -> Stage {
    match l {
        RenderStageLabel::Prepare => Stage::Prepare(PrepareStage { upload: UploadStage, resource: ResourceStage }),
        RenderStageLabel::Queue => Stage::Queue(QueueStage),
        RenderStageLabel::PhaseSort => Stage::PhaseSort(PhaseSortStage),
        RenderStageLabel::Render => Stage::Render(GraphRunnerStage),
        RenderStageLabel::Cleanup => Stage::Cleanup(CleanupStage),
    }
}

/// Stages under distinct labels, run top to bottom once per frame.
#[derive(Debug)]
pub struct Schedule {
    stages: Vec<(RenderStageLabel, Stage)>,
}

/// `stages` with `(l, s)` appended, unless a stage is under `l` already.
pub open spec fn with_stage(stages: Seq<(RenderStageLabel, Stage)>, l: RenderStageLabel, s: Stage) -> Seq<(RenderStageLabel, Stage)> {
    if stages.map_values(|e: (RenderStageLabel, Stage)| e.0).contains(l) { stages } else { stages.push((l, s)) }
}

/// `stages` with the renderer's stage under `l`, unless `l` is taken.
pub open spec fn with_render_stage(stages: Seq<(RenderStageLabel, Stage)>, l: RenderStageLabel) -> Seq<(RenderStageLabel, Stage)> {
    with_stage(stages, l, render_stage(l))
}

impl Schedule {
    /// The stages with their labels, in the order they run.
    pub closed spec fn entries(&self) -> Seq<(RenderStageLabel, Stage)> {
        self.stages@
    }

    /// The labels, in the order the stages run.
    pub open spec fn labels(&self) -> Seq<RenderStageLabel> {
        self.entries().map_values(|s: (RenderStageLabel, Stage)| s.0)
    }

    /// No label names two stages.
    pub open spec fn wf(&self) -> bool {
        self.labels().no_duplicates()
    }

    /// A schedule without stages.
    pub fn new() -> (r: Schedule)
        ensures
            r.wf(),
            r.entries() == Seq::<(RenderStageLabel, Stage)>::empty(),
            r.labels() == Seq::<RenderStageLabel>::empty(),
    {
        let r = Schedule { stages: Vec::new() };
        assert(r.entries() =~= Seq::<(RenderStageLabel, Stage)>::empty());
        assert(r.labels() =~= Seq::<RenderStageLabel>::empty());
        r
    }

    /// The labels, in the order the stages run.
    pub fn stage_labels(&self) -> (r: Vec<RenderStageLabel>)
        ensures
            r@ == self.labels(),
    {
        let mut r: Vec<RenderStageLabel> = Vec::new();
        let mut i: usize = 0;
        while i < self.stages.len()
            invariant
                i <= self.stages@.len(),
                r@ == self.labels().take(i as int),
            decreases self.stages@.len() - i,
        {
            r.push(self.stages[i].0);
            i = i + 1;
            assert(r@ =~= self.labels().take(i as int));
        }
        assert(self.labels().take(i as int) =~= self.labels());
        r
    }

    /// Appends `stage` under `label` to run after the stages already there.
    /// A label already in use is refused: nothing changes and `false` comes back.
    pub fn add_stage(&mut self, label: RenderStageLabel, stage: Stage) -> (r: bool)
        requires
            old(self).wf(),
        ensures
            final(self).wf(),
            r == !old(self).labels().contains(label),
            final(self).entries() == with_stage(old(self).entries(), label, stage),
    {
        let mut i: usize = 0;
        while i < self.stages.len() && self.stages[i].0 != label
            invariant
                i <= self.stages@.len(),
                forall|k: int| 0 <= k < i ==> self.labels()[k] != label,
            decreases self.stages@.len() - i,
        {
            i = i + 1;
        }
        if i < self.stages.len() {
            assert(self.labels()[i as int] == label);
            return false;
        }
        let ghost before = self.labels();
        assert(!before.contains(label));
        let ghost old_entries = self.entries();
        let ghost st = stage;
        self.stages.push((label, stage));
        assert(self.entries() == with_stage(old_entries, label, st));
        assert(self.labels() =~= before.push(label));
        proof {
            assert forall|x: int, y: int| 0 <= x < y < self.labels().len() implies self.labels()[x] != self.labels()[y] by {
                if y == before.len() {
                    assert(self.labels()[x] == before[x]);
                }
            };
        }
        true
    }
}

/// Registers the rendering stages, in frame order: prepare (upload and
/// resource initialization as one unit), queue, phase sort, render and
/// cleanup. A label already in use keeps its stage.
pub fn register_render_stages(schedule: &mut Schedule)
    requires
        old(schedule).wf(),
    ensures
        final(schedule).wf(),
        final(schedule).entries() == with_render_stage(with_render_stage(with_render_stage(with_render_stage(with_render_stage(
            old(schedule).entries(), RenderStageLabel::Prepare), RenderStageLabel::Queue), RenderStageLabel::PhaseSort),
            RenderStageLabel::Render), RenderStageLabel::Cleanup),
{
    let prepare = PrepareStage { upload: UploadStage, resource: ResourceStage };
    schedule.add_stage(RenderStageLabel::Prepare, Stage::Prepare(prepare));
    schedule.add_stage(RenderStageLabel::Queue, Stage::Queue(QueueStage));
    schedule.add_stage(RenderStageLabel::PhaseSort, Stage::PhaseSort(PhaseSortStage));
    schedule.add_stage(RenderStageLabel::Render, Stage::Render(GraphRunnerStage));
    schedule.add_stage(RenderStageLabel::Cleanup, Stage::Cleanup(CleanupStage));
}

/// From an empty schedule, the rendering stages run in frame order:
/// prepare, queue, phase sort, render, and cleanup last.
pub proof fn lemma_render_stages_in_frame_order(s0: Schedule, s1: Schedule)
    requires
        s0.entries().len() == 0,
        s1.entries() == with_render_stage(with_render_stage(with_render_stage(with_render_stage(with_render_stage(
            s0.entries(), RenderStageLabel::Prepare), RenderStageLabel::Queue), RenderStageLabel::PhaseSort),
            RenderStageLabel::Render), RenderStageLabel::Cleanup),
    ensures
        s1.labels() == seq![RenderStageLabel::Prepare, RenderStageLabel::Queue, RenderStageLabel::PhaseSort,
            RenderStageLabel::Render, RenderStageLabel::Cleanup],
        forall|i: int| 0 <= i < 5 ==> (#[trigger] s1.entries()[i]).1 == render_stage(s1.entries()[i].0),
{
    let f = |e: (RenderStageLabel, Stage)| e.0;
    let e0 = s0.entries();
    let e1 = e0.push((RenderStageLabel::Prepare, render_stage(RenderStageLabel::Prepare)));
    assert(!e0.map_values(f).contains(RenderStageLabel::Prepare));
    assert(e1.map_values(f) =~= seq![RenderStageLabel::Prepare]);
    let e2 = e1.push((RenderStageLabel::Queue, render_stage(RenderStageLabel::Queue)));
    assert(!e1.map_values(f).contains(RenderStageLabel::Queue)) by {
        assert(e1.map_values(f)[0] != RenderStageLabel::Queue);
    };
    assert(e2.map_values(f) =~= seq![RenderStageLabel::Prepare, RenderStageLabel::Queue]);
    let e3 = e2.push((RenderStageLabel::PhaseSort, render_stage(RenderStageLabel::PhaseSort)));
    assert(!e2.map_values(f).contains(RenderStageLabel::PhaseSort)) by {
        assert(e2.map_values(f)[0] != RenderStageLabel::PhaseSort);
        assert(e2.map_values(f)[1] != RenderStageLabel::PhaseSort);
    };
    assert(e3.map_values(f) =~= seq![RenderStageLabel::Prepare, RenderStageLabel::Queue, RenderStageLabel::PhaseSort]);
    let e4 = e3.push((RenderStageLabel::Render, render_stage(RenderStageLabel::Render)));
    assert(!e3.map_values(f).contains(RenderStageLabel::Render)) by {
        assert(e3.map_values(f)[0] != RenderStageLabel::Render);
        assert(e3.map_values(f)[1] != RenderStageLabel::Render);
        assert(e3.map_values(f)[2] != RenderStageLabel::Render);
    };
    assert(e4.map_values(f) =~= seq![RenderStageLabel::Prepare, RenderStageLabel::Queue, RenderStageLabel::PhaseSort, RenderStageLabel::Render]);
    let e5 = e4.push((RenderStageLabel::Cleanup, render_stage(RenderStageLabel::Cleanup)));
    assert(!e4.map_values(f).contains(RenderStageLabel::Cleanup)) by {
        assert(e4.map_values(f)[0] != RenderStageLabel::Cleanup);
        assert(e4.map_values(f)[1] != RenderStageLabel::Cleanup);
        assert(e4.map_values(f)[2] != RenderStageLabel::Cleanup);
        assert(e4.map_values(f)[3] != RenderStageLabel::Cleanup);
    };
    assert(s1.entries() == e5);
    assert(s1.labels() =~= seq![RenderStageLabel::Prepare, RenderStageLabel::Queue, RenderStageLabel::PhaseSort,
        RenderStageLabel::Render, RenderStageLabel::Cleanup]);
}

} // verus!
