use vstd::prelude::*;

use crate::message::{Message, ModelStep, ModelStepView};
use std::collections::VecDeque;

verus! {

/// The text of the step the model answers with once its script is used up.
pub open spec fn exhausted_text() -> Seq<char> {
    "No more scripted model steps."@
}

/// The step the model answers with once its script is used up: text, no tool call.
pub open spec fn exhausted_step() -> ModelStepView {
    ModelStepView { text: exhausted_text(), tool_calls: Seq::empty() }
}

/// What sampling a model whose remaining script is `steps` answers, and the
/// script that remains after it: the first step, or the exhausted step when
/// nothing is left.
pub open spec fn sampled(steps: Seq<ModelStepView>) -> (ModelStepView, Seq<ModelStepView>) {
    if steps.len() == 0 {
        (exhausted_step(), steps)
    } else {
        (steps[0], steps.drop_first())
    }
}

/// A model that answers with a fixed script of steps, one per call, in order.
pub struct ScriptedModel {
    steps: VecDeque<ModelStep>,
}

impl View for ScriptedModel {
    type V = Seq<ModelStepView>;

    /// The steps not yet answered, in the order they will be answered.
    closed spec fn view(&self) -> Seq<ModelStepView> {
        self.steps@.map_values(|s: ModelStep| s@)
    }
}

impl ScriptedModel {
    /// A model that will answer with `steps`, in order.
    pub fn new(steps: Vec<ModelStep>) -> (m: ScriptedModel)
        ensures
            m@ == steps@.map_values(|s: ModelStep| s@),
    {
        let mut steps = steps;
        let ghost all = steps@;
        let mut queue: VecDeque<ModelStep> = VecDeque::new();
        while steps.len() > 0
            invariant
                all == steps@ + queue@,
            decreases steps@.len(),
        {
            let s = steps.pop().unwrap();
            queue.push_front(s);
            assert(all =~= steps@ + queue@);
        }
        assert(queue@ =~= all);
        let m = ScriptedModel { steps: queue };
        assert(m@ =~= all.map_values(|s: ModelStep| s@));
        m
    }

    /// The model's next step: the first step of the script not yet answered,
    /// or, once the script is used up, a text step that asks for no tool.
    /// The history is not read.
    pub fn sample(&mut self, _history: &[Message]) -> (step: ModelStep)
        ensures
            (step@, final(self)@) == sampled(old(self)@),
    {
        match self.steps.pop_front() {
            Some(step) => {
                assert(self@ =~= old(self)@.drop_first());
                step
            },
            None => ModelStep::text("No more scripted model steps."),
        }
    }
}

/// Sampling replays the script in order: while steps are left the model
/// answers with the first and keeps the rest; once none is left it answers with
/// the exhausted step and stays exhausted.
pub proof fn lemma_sampling_follows_script(steps: Seq<ModelStepView>)
    ensures
        steps.len() > 0 ==> sampled(steps) == (steps[0], steps.drop_first()),
        steps.len() == 0 ==> sampled(steps) == (exhausted_step(), steps),
        steps.len() == 0 ==> sampled(sampled(steps).1) == (exhausted_step(), steps),
        sampled(steps).1.len() == if steps.len() > 0 { steps.len() - 1 } else { 0 },
{
}

} // verus!
