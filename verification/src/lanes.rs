//! The lanes of a loaded model: requests come and go in them, while each keeps
//! its policy and its scratch.

use crate::text;
use crate::text::decimal;
use vstd::prelude::*;

verus! {

/// How a model is spread over devices.
#[derive(Debug, Clone, Copy, PartialEq, Eq, Structural)]
pub enum ResetShape {
    Single,
    PipelineParallel,
    TensorParallel,
    ExpertParallel,
}

impl ResetShape {
    /// The shape's short name.
    pub open spec fn name(self) -> Seq<char> {
        match self {
            ResetShape::Single => "single"@,
            ResetShape::PipelineParallel => "pp"@,
            ResetShape::TensorParallel => "tp"@,
            ResetShape::ExpertParallel => "ep"@,
        }
    }

    /// How many lanes the shape has.
    pub fn lane_count(self) -> (r: usize)
        ensures
            r == (match self {
                ResetShape::Single => 1usize,
                ResetShape::PipelineParallel => 2usize,
                ResetShape::TensorParallel => 4usize,
                ResetShape::ExpertParallel => 4usize,
            }),
    {
        match self {
            ResetShape::Single => 1,
            ResetShape::PipelineParallel => 2,
            ResetShape::TensorParallel => 4,
            ResetShape::ExpertParallel => 4,
        }
    }

    /// The shape's short name.
    pub fn label(self) -> (r: &'static str)
        ensures
            r@ == self.name(),
    {
        match self {
            ResetShape::Single => "single",
            ResetShape::PipelineParallel => "pp",
            ResetShape::TensorParallel => "tp",
            ResetShape::ExpertParallel => "ep",
        }
    }
}

/// A lane: what it keeps for the model's lifetime, and its request.
#[derive(Debug, PartialEq, Eq)]
pub struct LaneState {
    pub persistent_policy_id: u64,
    pub persistent_scratch_id: u64,
    pub request_tokens: Vec<u32>,
}

impl LaneState {
    /// Whether this is `before` with its request gone.
    pub open spec fn cleared_of(&self, before: &LaneState) -> bool {
        &&& self.persistent_policy_id == before.persistent_policy_id
        &&& self.persistent_scratch_id == before.persistent_scratch_id
        &&& self.request_tokens@.len() == 0
    }
}

/// The outcome of a lane's reset.
#[derive(Debug, PartialEq, Eq)]
pub struct ResetStep {
    pub name: String,
    pub outcome: Result<(), String>,
}

/// The lanes of a model with the conversation that they share.
#[derive(Debug, PartialEq, Eq)]
pub struct Lanes {
    pub shape: ResetShape,
    pub seq_pos: usize,
    pub conversation_tokens: Vec<u32>,
    pub lanes: Vec<LaneState>,
}

/// A lane's name.
pub open spec fn lane_name(shape: ResetShape, lane: nat) -> Seq<char> {
    shape.name() + " lane "@ + decimal(lane)
}

/// Whether a step is what the reset of a lane gives: a failure where the lane
/// failed, and only there.
pub open spec fn step_of(step: ResetStep, shape: ResetShape, lane: nat, failed: bool) -> bool {
    &&& step.name@ == lane_name(shape, lane)
    &&& match step.outcome {
        Ok(_) => !failed,
        Err(e) => failed && e@ == lane_name(shape, lane) + " reset failed"@,
    }
}

fn lane_text(shape: ResetShape, lane: usize) -> (r: String)
    ensures
        r@ == lane_name(shape, lane as nat),
{
    let mut s = shape.label().to_owned();
    s.append(" lane ");
    text::push_decimal(&mut s, lane);
    s
}

fn holds(list: &Vec<usize>, n: usize) -> (r: bool)
    ensures
        r == list@.contains(n),
{
    let mut i: usize = 0;
    while i < list.len()
        invariant
            i <= list@.len(),
            forall|j: int| 0 <= j < i ==> #[trigger] list@[j] != n,
        decreases list@.len() - i,
    {
        if list[i] == n {
            return true;
        }
        i = i + 1;
    }
    false
}

impl Lanes {
    /// Resets every lane, those after a failing one too. The conversation is
    /// forgotten; a lane that failed keeps its request, so that it can be
    /// looked at; every lane keeps its policy and its scratch.
    pub fn reset(&mut self, failures: &Vec<usize>) -> (steps: Vec<ResetStep>)
        ensures
            final(self).shape == old(self).shape,
            final(self).seq_pos == 0,
            final(self).conversation_tokens@.len() == 0,
            final(self).lanes@.len() == old(self).lanes@.len(),
            steps@.len() == old(self).lanes@.len(),
            forall|i: int|
                #![trigger final(self).lanes@[i]]
                0 <= i < old(self).lanes@.len() ==> if failures@.contains(i as usize) {
                    final(self).lanes@[i] == old(self).lanes@[i]
                } else {
                    final(self).lanes@[i].cleared_of(&old(self).lanes@[i])
                },
            forall|i: int|
                0 <= i < steps@.len() ==> step_of(
                    #[trigger] steps@[i],
                    old(self).shape,
                    i as nat,
                    failures@.contains(i as usize),
                ),
    {
        self.seq_pos = 0;
        self.conversation_tokens = Vec::new();
        let mut steps: Vec<ResetStep> = Vec::new();
        let mut i: usize = 0;
        while i < self.lanes.len()
            invariant
                i <= self.lanes@.len(),
                self.shape == old(self).shape,
                self.seq_pos == 0,
                self.conversation_tokens@.len() == 0,
                self.lanes@.len() == old(self).lanes@.len(),
                steps@.len() == i,
                forall|k: int| i <= k < self.lanes@.len() ==> #[trigger] self.lanes@[k] == old(
                    self).lanes@[k],
                forall|k: int|
                    #![trigger self.lanes@[k]]
                    0 <= k < i ==> if failures@.contains(k as usize) {
                        self.lanes@[k] == old(self).lanes@[k]
                    } else {
                        self.lanes@[k].cleared_of(&old(self).lanes@[k])
                    },
                forall|k: int|
                    0 <= k < steps@.len() ==> step_of(
                        #[trigger] steps@[k],
                        old(self).shape,
                        k as nat,
                        failures@.contains(k as usize),
                    ),
            decreases self.lanes@.len() - i,
        {
            let name = lane_text(self.shape, i);
            let outcome: Result<(), String> = if holds(failures, i) {
                let mut s = lane_text(self.shape, i);
                s.append(" reset failed");
                Err(s)
            } else {
                self.cancel_lane(i);
                Ok(())
            };
            steps.push(ResetStep { name, outcome });
            i = i + 1;
        }
        steps
    }

    /// Ends one lane's request. The other lanes' requests go on.
    pub fn cancel_lane(&mut self, lane: usize)
        requires
            lane < old(self).lanes@.len(),
        ensures
            final(self).shape == old(self).shape,
            final(self).seq_pos == old(self).seq_pos,
            final(self).conversation_tokens == old(self).conversation_tokens,
            final(self).lanes@.len() == old(self).lanes@.len(),
            final(self).lanes@[lane as int].cleared_of(&old(self).lanes@[lane as int]),
            forall|k: int|
                0 <= k < old(self).lanes@.len() && k != lane ==> #[trigger] final(self).lanes@[k]
                    == old(self).lanes@[k],
    {
        let state = LaneState {
            persistent_policy_id: self.lanes[lane].persistent_policy_id,
            persistent_scratch_id: self.lanes[lane].persistent_scratch_id,
            request_tokens: Vec::new(),
        };
        self.lanes.set(lane, state);
    }
}

/// No two lanes of a shape have one name, and each says whether its own reset
/// failed.
pub proof fn lanes_have_their_names(shape: ResetShape, a: nat, b: nat, step: ResetStep, failed: bool)
    ensures
        lane_name(shape, a) == lane_name(shape, b) ==> a == b,
        step_of(step, shape, a, failed) ==> (step.outcome is Err <==> failed),
        step_of(step, shape, a, failed) && step_of(step, shape, b, failed) ==> a == b,
{
    let head = shape.name() + " lane "@;
    if lane_name(shape, a) == lane_name(shape, b) {
        let (x, y) = (lane_name(shape, a), lane_name(shape, b));
        assert(x.subrange(head.len() as int, x.len() as int) =~= decimal(a));
        assert(y.subrange(head.len() as int, y.len() as int) =~= decimal(b));
        text::decimal_injective(a, b);
    }
}

} // verus!
