//! The plan of the task at hand: its steps and how far they are.
use vstd::prelude::*;

use crate::json::{no_entries, text_list, text_list_value, Entries, Json, JsonView};
use crate::number::{decimal, decimal_text};
use crate::path::{file_name, file_name_of, join_path, joined, renamed, with_file_name};
use crate::provider::{ToolSpec, ToolSpecView};
use crate::text::{
    is_blank, is_blank_text, opt_str, opt_text, same_text, texts, trim_end, trimmed_end,
};
use crate::tools::exec::{
    described_kind, described_kind_value, name_list, object_schema, object_schema_entries,
};
use crate::tools::Tool;

verus! {

/// How far a step is.
#[derive(Clone, Copy, Debug, PartialEq, Eq, Structural)]
pub enum PlanStatus {
    Pending,
    InProgress,
    Done,
}

impl Default for PlanStatus {
    fn default() -> (status: PlanStatus)
        ensures
            status == PlanStatus::Pending,
    {
        PlanStatus::Pending
    }
}

/// A status in words.
pub open spec fn status_word(status: PlanStatus) -> Seq<char> {
    match status {
        PlanStatus::Pending => "pending"@,
        PlanStatus::InProgress => "in_progress"@,
        PlanStatus::Done => "done"@,
    }
}

/// The mark of a status.
pub open spec fn status_mark(status: PlanStatus) -> Seq<char> {
    match status {
        PlanStatus::Pending => "[ ]"@,
        PlanStatus::InProgress => "[>]"@,
        PlanStatus::Done => "[x]"@,
    }
}

impl PlanStatus {
    /// The status in words.
    pub fn word(self) -> (word: &'static str)
        ensures
            word@ == status_word(self),
    {
        match self {
            PlanStatus::Pending => "pending",
            PlanStatus::InProgress => "in_progress",
            PlanStatus::Done => "done",
        }
    }

    /// The mark of the status.
    pub fn mark(self) -> (mark: &'static str)
        ensures
            mark@ == status_mark(self),
    {
        match self {
            PlanStatus::Pending => "[ ]",
            PlanStatus::InProgress => "[>]",
            PlanStatus::Done => "[x]",
        }
    }
}

/// A step of the plan.
#[derive(Clone, Debug, PartialEq, Eq)]
pub struct PlanStep {
    pub id: String,
    pub description: String,
    pub status: PlanStatus,
}

/// The mathematical value of a [`PlanStep`].
pub struct StepView {
    pub id: Seq<char>,
    pub description: Seq<char>,
    pub status: PlanStatus,
}

impl View for PlanStep {
    type V = StepView;

    open spec fn view(&self) -> StepView {
        StepView { id: self.id@, description: self.description@, status: self.status }
    }
}

/// The views of some steps.
pub open spec fn step_views(steps: Seq<PlanStep>) -> Seq<StepView> {
    Seq::new(steps.len(), |i: int| steps[i]@)
}

/// Why a plan is refused.
#[derive(Clone, Debug, PartialEq, Eq)]
pub enum PlanError {
    EmptyId,
    EmptyDescription(String),
    DuplicateId(String),
    MissingStep(String),
}

/// The mathematical value of a [`PlanError`].
pub enum PlanErrorView {
    EmptyId,
    EmptyDescription(Seq<char>),
    DuplicateId(Seq<char>),
    MissingStep(Seq<char>),
}

impl View for PlanError {
    type V = PlanErrorView;

    open spec fn view(&self) -> PlanErrorView {
        match *self {
            PlanError::EmptyId => PlanErrorView::EmptyId,
            PlanError::EmptyDescription(id) => PlanErrorView::EmptyDescription(id@),
            PlanError::DuplicateId(id) => PlanErrorView::DuplicateId(id@),
            PlanError::MissingStep(id) => PlanErrorView::MissingStep(id@),
        }
    }
}

impl PlanError {
    /// The error in words.
    pub fn message(&self) -> (text: String)
        ensures
            text@ == (match self@ {
                PlanErrorView::EmptyId => "计划步骤 id 不能为空"@,
                PlanErrorView::EmptyDescription(id) => "计划步骤描述不能为空: "@ + id,
                PlanErrorView::DuplicateId(id) => "计划步骤 id 重复: "@ + id,
                PlanErrorView::MissingStep(id) => "找不到计划步骤: "@ + id,
            }),
    {
        match self {
            PlanError::EmptyId => "计划步骤 id 不能为空".to_owned(),
            PlanError::EmptyDescription(id) => {
                let mut text = "计划步骤描述不能为空: ".to_owned();
                text.append(id.as_str());
                text
            },
            PlanError::DuplicateId(id) => {
                let mut text = "计划步骤 id 重复: ".to_owned();
                text.append(id.as_str());
                text
            },
            PlanError::MissingStep(id) => {
                let mut text = "找不到计划步骤: ".to_owned();
                text.append(id.as_str());
                text
            },
        }
    }
}

/// Whether one of the first `n` steps has an id.
pub open spec fn has_id(steps: Seq<StepView>, n: int, id: Seq<char>) -> bool {
    exists|i: int| 0 <= i < n && (#[trigger] steps[i]).id == id
}

/// What is wrong with the first step, from one on, that something is wrong with.
pub open spec fn steps_error(steps: Seq<StepView>, from: int) -> Option<PlanErrorView>
    decreases steps.len() - from,
{
    if from >= steps.len() {
        None
    } else if is_blank_text(steps[from].id) {
        Some(PlanErrorView::EmptyId)
    } else if is_blank_text(steps[from].description) {
        Some(PlanErrorView::EmptyDescription(steps[from].id))
    } else if has_id(steps, from, steps[from].id) {
        Some(PlanErrorView::DuplicateId(steps[from].id))
    } else {
        steps_error(steps, from + 1)
    }
}

/// Whether some steps make a plan: each has an id of its own and a description.
pub open spec fn is_plan(steps: Seq<StepView>) -> bool {
    &&& forall|i: int|
        0 <= i < steps.len() ==> !is_blank_text((#[trigger] steps[i]).id) && !is_blank_text(
            steps[i].description,
        )
    &&& forall|i: int, j: int|
        0 <= i < j < steps.len() ==> (#[trigger] steps[i]).id != (#[trigger] steps[j]).id
}

/// Nothing is wrong with some steps exactly where they make a plan.
pub proof fn lemma_steps_error(steps: Seq<StepView>, from: int)
    requires
        0 <= from <= steps.len(),
        is_plan(steps.take(from)),
    ensures
        steps_error(steps, from) is None <==> is_plan(steps),
    decreases steps.len() - from,
{
    if from == steps.len() {
        assert(steps.take(from) =~= steps);
    } else {
        let step = steps[from];
        if is_blank_text(step.id) || is_blank_text(step.description) {
        } else if has_id(steps, from, step.id) {
            let i = choose|i: int| 0 <= i < from && (#[trigger] steps[i]).id == step.id;
            assert(steps[i].id == steps[from].id);
        } else {
            let next = steps.take(from + 1);
            assert forall|i: int| 0 <= i < next.len() implies !is_blank_text((#[trigger] next[i]).id)
                && !is_blank_text(next[i].description) by {
                if i < from {
                    assert(steps.take(from)[i] == next[i]);
                }
            }
            assert forall|i: int, j: int| 0 <= i < j < next.len() implies (#[trigger] next[i]).id != (
            #[trigger] next[j]).id by {
                if j < from {
                    assert(steps.take(from)[i].id != steps.take(from)[j].id);
                } else {
                    assert(steps[i].id != step.id);
                }
            }
            lemma_steps_error(steps, from + 1);
        }
    }
}

/// Checks that some steps make a plan.
pub fn validate_steps(steps: &Vec<PlanStep>) -> (out: Result<(), PlanError>)
    ensures
        match out {
            Ok(_) => is_plan(step_views(steps@)) && steps_error(step_views(steps@), 0) is None,
            Err(error) => steps_error(step_views(steps@), 0) == Some(error@) && !is_plan(
                step_views(steps@),
            ),
        },
{
    let ghost all = step_views(steps@);
    proof {
        lemma_steps_error(all, 0);
    }
    let mut at: usize = 0;
    while at < steps.len()
        invariant
            at <= steps.len(),
            all == step_views(steps@),
            steps_error(all, 0) == steps_error(all, at as int),
            steps_error(all, 0) is None <==> is_plan(all),
        decreases steps.len() - at,
    {
        let step = &steps[at];
        assert(all[at as int] == step@);
        if is_blank(step.id.as_str()) {
            return Err(PlanError::EmptyId);
        }
        if is_blank(step.description.as_str()) {
            return Err(PlanError::EmptyDescription(step.id.clone()));
        }
        let mut earlier: usize = 0;
        while earlier < at
            invariant
                earlier <= at < steps.len(),
                all == step_views(steps@),
                step@ == all[at as int],
                !is_blank_text(step@.id),
                !is_blank_text(step@.description),
                steps_error(all, 0) == steps_error(all, at as int),
                steps_error(all, 0) is None <==> is_plan(all),
                forall|i: int| 0 <= i < earlier ==> (#[trigger] all[i]).id != step@.id,
            decreases at - earlier,
        {
            if same_text(steps[earlier].id.as_str(), step.id.as_str()) {
                assert(all[earlier as int].id == step@.id);
                assert(has_id(all, at as int, step@.id));
                return Err(PlanError::DuplicateId(step.id.clone()));
            }
            earlier += 1;
        }
        at += 1;
    }
    Ok(())
}

/// How many of some steps are done.
pub open spec fn done_count(steps: Seq<StepView>) -> nat
    decreases steps.len(),
{
    if steps.len() == 0 {
        0
    } else {
        done_count(steps.drop_last()) + (if steps.last().status == PlanStatus::Done {
            1nat
        } else {
            0nat
        })
    }
}

/// The line of a step.
pub open spec fn step_line(step: StepView) -> Seq<char> {
    status_mark(step.status) + " "@ + step.id + " · "@ + step.description + " ("@ + status_word(
        step.status,
    ) + ")\n"@
}

/// The lines of some steps.
pub open spec fn step_lines(steps: Seq<StepView>) -> Seq<char>
    decreases steps.len(),
{
    if steps.len() == 0 {
        Seq::empty()
    } else {
        step_lines(steps.drop_last()) + step_line(steps.last())
    }
}

/// A plan in words.
pub open spec fn plan_text(steps: Seq<StepView>) -> Seq<char> {
    if steps.len() == 0 {
        "当前计划为空"@
    } else {
        trim_end(
            "计划进度："@ + decimal(done_count(steps)) + "/"@ + decimal(steps.len()) + "\n"@ + step_lines(
                steps,
            ),
        )
    }
}

/// A plan in words.
pub fn render_plan(steps: &Vec<PlanStep>) -> (text: String)
    ensures
        text@ == plan_text(step_views(steps@)),
{
    if steps.len() == 0 {
        return "当前计划为空".to_owned();
    }
    let ghost all = step_views(steps@);
    let mut done: usize = 0;
    let mut at: usize = 0;
    while at < steps.len()
        invariant
            at <= steps.len(),
            all == step_views(steps@),
            done <= at,
            done == done_count(all.take(at as int)),
        decreases steps.len() - at,
    {
        assert(all.take(at + 1).drop_last() =~= all.take(at as int));
        if steps[at].status == PlanStatus::Done {
            done += 1;
        }
        at += 1;
    }
    assert(all.take(at as int) =~= all);
    let mut text = "计划进度：".to_owned();
    text.append(decimal_text(done as u128).as_str());
    text.append("/");
    text.append(decimal_text(steps.len() as u128).as_str());
    text.append("\n");
    let ghost head = text@;
    at = 0;
    assert(step_lines(all.take(0)) =~= Seq::empty());
    assert(head + Seq::empty() =~= head);
    while at < steps.len()
        invariant
            at <= steps.len(),
            all == step_views(steps@),
            text@ == head + step_lines(all.take(at as int)),
        decreases steps.len() - at,
    {
        let step = &steps[at];
        let ghost before = text@;
        assert(all.take(at + 1).drop_last() =~= all.take(at as int));
        let mut line = step.status.mark().to_owned();
        line.append(" ");
        line.append(step.id.as_str());
        line.append(" · ");
        line.append(step.description.as_str());
        line.append(" (");
        line.append(step.status.word());
        line.append(")\n");
        assert(line@ == step_line(step@));
        text.append(line.as_str());
        assert(text@ =~= head + (step_lines(all.take(at as int)) + line@));
        at += 1;
    }
    assert(all.take(at as int) =~= all);
    trimmed_end(text.as_str())
}

/// Where a plan is written before it takes the place of the last one: beside it, under a
/// name of its own.
pub open spec fn temporary_file(path: Seq<char>, process: nat) -> Seq<char> {
    renamed(
        path,
        "."@ + (match file_name_of(path) {
            Some(name) => name,
            None => "plan.json"@,
        }) + ".tmp-"@ + decimal(process),
    )
}

/// Where a plan is written before it takes the place of the last one.
pub fn temporary_path(path: &str, process: u32) -> (out: String)
    ensures
        out@ == temporary_file(path@, process as nat),
{
    let mut name = ".".to_owned();
    match file_name(path) {
        Some(file) => name.append(file.as_str()),
        None => name.append("plan.json"),
    }
    name.append(".tmp-");
    name.append(decimal_text(process as u128).as_str());
    with_file_name(path, name.as_str())
}

/// The plan of the task at hand.
#[derive(Debug, PartialEq, Eq)]
pub struct PlanStore {
    steps: Vec<PlanStep>,
}

impl View for PlanStore {
    type V = Seq<StepView>;

    closed spec fn view(&self) -> Seq<StepView> {
        step_views(self.steps@)
    }
}

/// Where the step with an id stands.
pub open spec fn step_at(steps: Seq<StepView>, id: Seq<char>, from: int) -> Option<int>
    decreases steps.len() - from,
{
    if from >= steps.len() {
        None
    } else if steps[from].id == id {
        Some(from)
    } else {
        step_at(steps, id, from + 1)
    }
}

/// Some steps with another status for one of them.
pub open spec fn with_status(steps: Seq<StepView>, at: int, status: PlanStatus) -> Seq<StepView> {
    steps.update(at, StepView { status, ..steps[at] })
}

impl PlanStore {
    /// The file of the plan that a setting asks for. An empty setting or `off` keeps
    /// the plan in memory alone.
    pub fn from_env(workspace: &str, configured: Option<&str>) -> (path: Option<String>)
        ensures
            opt_text(path) == (match opt_str(configured) {
                None => Some(joined(workspace@, ".my-agent/plan.json"@)),
                Some(setting) => if setting.len() == 0 || setting == "off"@ {
                    None
                } else {
                    Some(joined(workspace@, setting))
                },
            }),
    {
        match configured {
            None => Some(join_path(workspace, ".my-agent/plan.json")),
            Some(setting) => {
                proof {
                    reveal_strlit("");
                    assert(setting@.len() == 0 ==> setting@ =~= ""@);
                }
                if same_text(setting, "") || same_text(setting, "off") {
                    None
                } else {
                    Some(join_path(workspace, setting))
                }
            },
        }
    }

    /// The steps make a plan.
    pub open spec fn wf(&self) -> bool {
        is_plan(self@)
    }

    /// An empty plan.
    pub fn memory_only() -> (store: PlanStore)
        ensures
            store.wf(),
            store@ == Seq::<StepView>::empty(),
    {
        let store = PlanStore { steps: Vec::new() };
        assert(store@ =~= Seq::empty());
        store
    }

    /// The plan of some steps, if they make one.
    pub fn new(steps: Vec<PlanStep>) -> (out: Result<PlanStore, PlanError>)
        ensures
            match steps_error(step_views(steps@), 0) {
                Some(error) => out matches Err(said) && said@ == error,
                None => out matches Ok(store) && store.wf() && store@ == step_views(steps@),
            },
    {
        match validate_steps(&steps) {
            Ok(_) => Ok(PlanStore { steps }),
            Err(error) => Err(error),
        }
    }

    /// A copy of the plan.
    pub fn copy(&self) -> (out: PlanStore)
        ensures
            out@ == self@,
    {
        let mut steps: Vec<PlanStep> = Vec::new();
        let mut at: usize = 0;
        while at < self.steps.len()
            invariant
                at == steps.len(),
                at <= self.steps.len(),
                forall|i: int| 0 <= i < at ==> (#[trigger] steps@[i])@ == self.steps@[i]@,
            decreases self.steps.len() - at,
        {
            let step = &self.steps[at];
            steps.push(
                PlanStep {
                    id: step.id.clone(),
                    description: step.description.clone(),
                    status: step.status,
                },
            );
            at += 1;
        }
        let out = PlanStore { steps };
        assert(out@ =~= self@);
        out
    }

    /// The steps of the plan.
    pub fn steps(&self) -> (steps: &Vec<PlanStep>)
        ensures
            step_views(steps@) == self@,
    {
        &self.steps
    }

    /// Replaces the plan by some steps. Steps that make no plan are refused, and
    /// nothing changes.
    pub fn set(&mut self, steps: Vec<PlanStep>) -> (out: Result<String, PlanError>)
        requires
            old(self).wf(),
        ensures
            final(self).wf(),
            match steps_error(step_views(steps@), 0) {
                Some(error) => out matches Err(said) && said@ == error && final(self)@ == old(self)@,
                None => final(self)@ == step_views(steps@) && (out matches Ok(text) && text@
                    == plan_text(final(self)@)),
            },
    {
        match validate_steps(&steps) {
            Ok(_) => {
                self.steps = steps;
                Ok(render_plan(&self.steps))
            },
            Err(error) => Err(error),
        }
    }

    /// Gives a step another status. An id that no step has is refused, and nothing
    /// changes.
    pub fn update(&mut self, id: &str, status: PlanStatus) -> (out: Result<String, PlanError>)
        requires
            old(self).wf(),
        ensures
            final(self).wf(),
            match step_at(old(self)@, id@, 0) {
                Some(at) => final(self)@ == with_status(old(self)@, at, status) && (out matches Ok(
                    text,
                ) && text@ == plan_text(final(self)@)),
                None => final(self)@ == old(self)@ && (out matches Err(said) && said@
                    == PlanErrorView::MissingStep(id@)),
            },
    {
        let mut at: usize = 0;
        while at < self.steps.len()
            invariant
                at <= self.steps.len(),
                self@ == old(self)@,
                is_plan(self@),
                step_at(self@, id@, 0) == step_at(self@, id@, at as int),
            decreases self.steps.len() - at,
        {
            if same_text(self.steps[at].id.as_str(), id) {
                let ghost before = self@;
                let step = self.steps.remove(at);
                self.steps.insert(
                    at,
                    PlanStep { id: step.id, description: step.description, status },
                );
                assert(self@ =~= with_status(before, at as int, status));
                proof {
                    lemma_with_status_is_plan(before, at as int, status);
                }
                return Ok(render_plan(&self.steps));
            }
            at += 1;
        }
        Err(PlanError::MissingStep(id.to_owned()))
    }

    /// Adds a step. One that the plan cannot take is refused, and nothing changes.
    pub fn add(&mut self, step: PlanStep) -> (out: Result<String, PlanError>)
        requires
            old(self).wf(),
        ensures
            final(self).wf(),
            match steps_error(old(self)@.push(step@), 0) {
                Some(error) => out matches Err(said) && said@ == error && final(self)@ == old(self)@,
                None => final(self)@ == old(self)@.push(step@) && (out matches Ok(text) && text@
                    == plan_text(final(self)@)),
            },
    {
        let ghost before = self@;
        self.steps.push(step);
        assert(self@ =~= before.push(step@));
        match validate_steps(&self.steps) {
            Ok(_) => Ok(render_plan(&self.steps)),
            Err(error) => {
                let removed = self.steps.pop();
                assert(self@ =~= before);
                Err(error)
            },
        }
    }

    /// The plan in words.
    pub fn show(&self) -> (text: String)
        ensures
            text@ == plan_text(self@),
    {
        render_plan(&self.steps)
    }

    /// What the model is told of the plan; nothing where it is empty.
    pub fn context_block(&self) -> (block: Option<String>)
        ensures
            opt_text(block) == (if self@.len() == 0 {
                None
            } else {
                Some("当前任务计划：\n"@ + plan_text(self@))
            }),
    {
        if self.steps.len() == 0 {
            return None;
        }
        let mut block = "当前任务计划：\n".to_owned();
        block.append(render_plan(&self.steps).as_str());
        Some(block)
    }
}

proof fn lemma_with_status_is_plan(steps: Seq<StepView>, at: int, status: PlanStatus)
    requires
        0 <= at < steps.len(),
        is_plan(steps),
    ensures
        is_plan(with_status(steps, at, status)),
{
    let now = with_status(steps, at, status);
    assert forall|i: int| 0 <= i < now.len() implies !is_blank_text((#[trigger] now[i]).id)
        && !is_blank_text(now[i].description) by {
        assert(now[i].id == steps[i].id);
    }
    assert forall|i: int, j: int| 0 <= i < j < now.len() implies (#[trigger] now[i]).id != (
    #[trigger] now[j]).id by {
        assert(steps[i].id != steps[j].id);
    }
}

proof fn lemma_step_at(steps: Seq<StepView>, id: Seq<char>, from: int)
    requires
        0 <= from,
    ensures
        match step_at(steps, id, from) {
            Some(at) => from <= at < steps.len() && steps[at].id == id,
            None => true,
        },
    decreases steps.len() - from,
{
    if from < steps.len() && steps[from].id != id {
        lemma_step_at(steps, id, from + 1);
    }
}

proof fn lemma_step_at_same_ids(a: Seq<StepView>, b: Seq<StepView>, id: Seq<char>, from: int)
    requires
        0 <= from,
        a.len() == b.len(),
        forall|i: int| 0 <= i < a.len() ==> (#[trigger] a[i]).id == b[i].id,
    ensures
        step_at(a, id, from) == step_at(b, id, from),
    decreases a.len() - from,
{
    if from < a.len() {
        assert(a[from].id == b[from].id);
        if a[from].id != id {
            lemma_step_at_same_ids(a, b, id, from + 1);
        }
    }
}

/// Updates of different steps do not undo each other: whichever comes first, both
/// take effect.
pub proof fn law_updates_of_different_steps_commute(
    steps: Seq<StepView>,
    a: Seq<char>,
    b: Seq<char>,
    status_a: PlanStatus,
    status_b: PlanStatus,
)
    requires
        a != b,
        step_at(steps, a, 0) is Some,
        step_at(steps, b, 0) is Some,
    ensures
        ({
            let at_a = step_at(steps, a, 0)->0;
            let at_b = step_at(steps, b, 0)->0;
            let first_a = with_status(steps, at_a, status_a);
            let first_b = with_status(steps, at_b, status_b);
            &&& step_at(first_a, b, 0) == Some(at_b)
            &&& step_at(first_b, a, 0) == Some(at_a)
            &&& with_status(first_a, at_b, status_b) == with_status(first_b, at_a, status_a)
            &&& with_status(first_a, at_b, status_b)[at_a].status == status_a
            &&& with_status(first_a, at_b, status_b)[at_b].status == status_b
        }),
{
    lemma_step_at(steps, a, 0);
    lemma_step_at(steps, b, 0);
    let at_a = step_at(steps, a, 0)->0;
    let at_b = step_at(steps, b, 0)->0;
    let first_a = with_status(steps, at_a, status_a);
    let first_b = with_status(steps, at_b, status_b);
    lemma_step_at_same_ids(first_a, steps, b, 0);
    lemma_step_at_same_ids(first_b, steps, a, 0);
    assert(with_status(first_a, at_b, status_b) =~= with_status(first_b, at_a, status_a));
}

/// An update changes the status of one step and nothing else.
pub proof fn law_update_changes_one_status(
    steps: Seq<StepView>,
    at: int,
    status: PlanStatus,
    i: int,
)
    requires
        0 <= at < steps.len(),
        0 <= i < steps.len(),
    ensures
        with_status(steps, at, status).len() == steps.len(),
        i != at ==> with_status(steps, at, status)[i] == steps[i],
        with_status(steps, at, status)[i].id == steps[i].id,
        with_status(steps, at, status)[i].description == steps[i].description,
{
}

/// A plan that was kept is taken back as it was.
pub proof fn law_kept_plan_is_taken_back(steps: Seq<StepView>)
    requires
        is_plan(steps),
    ensures
        steps_error(steps, 0) is None,
{
    assert(is_plan(steps.take(0)));
    lemma_steps_error(steps, 0);
}

/// What the model asks of the plan.
#[derive(Debug, PartialEq, Eq)]
pub enum PlanAction {
    Replace { steps: Vec<PlanStep> },
    Update { id: String, status: PlanStatus },
    Add { id: String, description: String, status: PlanStatus },
    Show,
}

/// The tool that manages the plan.
#[derive(Clone, Copy, Debug, PartialEq, Eq)]
pub struct PlanTool;

/// The plan after an action, and what the model is told.
pub open spec fn acted(steps: Seq<StepView>, action: PlanAction) -> (
    Seq<StepView>,
    Result<Seq<char>, PlanErrorView>,
) {
    match action {
        PlanAction::Replace { steps: wanted } => match steps_error(step_views(wanted@), 0) {
            Some(error) => (steps, Err(error)),
            None => (step_views(wanted@), Ok(plan_text(step_views(wanted@)))),
        },
        PlanAction::Update { id, status } => match step_at(steps, id@, 0) {
            Some(at) => (
                with_status(steps, at, status),
                Ok(plan_text(with_status(steps, at, status))),
            ),
            None => (steps, Err(PlanErrorView::MissingStep(id@))),
        },
        PlanAction::Add { id, description, status } => {
            let next = steps.push(StepView { id: id@, description: description@, status });
            match steps_error(next, 0) {
                Some(error) => (steps, Err(error)),
                None => (next, Ok(plan_text(next))),
            }
        },
        PlanAction::Show => (steps, Ok(plan_text(steps))),
    }
}

impl PlanTool {
    /// The tool.
    pub fn new() -> (tool: PlanTool)
        ensures
            tool == PlanTool,
    {
        PlanTool
    }

    /// Does what the model asks of the plan.
    pub fn execute(&self, store: &mut PlanStore, action: PlanAction) -> (out: Result<
        String,
        PlanError,
    >)
        requires
            old(store).wf(),
        ensures
            final(store).wf(),
            final(store)@ == acted(old(store)@, action).0,
            match acted(old(store)@, action).1 {
                Ok(text) => out matches Ok(said) && said@ == text,
                Err(error) => out matches Err(said) && said@ == error,
            },
    {
        match action {
            PlanAction::Replace { steps } => store.set(steps),
            PlanAction::Update { id, status } => store.update(id.as_str(), status),
            PlanAction::Add { id, description, status } => {
                let step = PlanStep { id, description, status };
                store.add(step)
            },
            PlanAction::Show => Ok(store.show()),
        }
    }
}

/// A schema for a text out of a few, with what it is for.
pub open spec fn choice_schema(choices: Seq<Seq<char>>, description: Seq<char>) -> JsonView {
    JsonView::Object(
        no_entries().push(("type"@, JsonView::Text("string"@))).push(
            ("enum"@, text_list(choices)),
        ).push(("description"@, JsonView::Text(description))),
    )
}

fn choice_schema_value(choices: &Vec<String>, description: &str) -> (value: Json)
    ensures
        value@ == choice_schema(texts(choices@), description@),
{
    Entries::new().with_text("type", "string").with("enum", text_list_value(choices)).with_text(
        "description",
        description,
    ).object()
}

impl Tool for PlanTool {
    open spec fn described(&self) -> ToolSpecView {
        ToolSpecView {
            name: "plan"@,
            description:
                "管理当前多步骤任务计划。复杂任务先 set；开始或完成步骤时 update；新增步骤用 add；查看用 show。简单任务无需计划。"@,
            parameters: JsonView::Object(
                object_schema(
                    no_entries().push(
                        (
                            "action"@,
                            choice_schema(
                                seq!["set"@, "update"@, "add"@, "show"@],
                                "set 整体重写；update 更新状态；add 追加；show 查看"@,
                            ),
                        ),
                    ).push(
                        (
                            "steps"@,
                            described_kind(
                                "array"@,
                                "set 必填。步骤为 {id, description, status?}，status 默认 pending"@,
                            ),
                        ),
                    ).push(("id"@, described_kind("string"@, "update/add 必填的步骤 id"@))).push(
                        ("description"@, described_kind("string"@, "add 必填的步骤描述"@)),
                    ).push(
                        (
                            "status"@,
                            choice_schema(
                                seq!["pending"@, "in_progress"@, "done"@],
                                "update 必填；add 可选"@,
                            ),
                        ),
                    ),
                    seq!["action"@],
                ).push(("additionalProperties"@, JsonView::Bool(false))),
            ),
        }
    }

    open spec fn harmless(&self) -> bool {
        false
    }

    fn spec(&self) -> (out: ToolSpec) {
        let mut actions: Vec<String> = Vec::new();
        actions.push("set".to_owned());
        actions.push("update".to_owned());
        actions.push("add".to_owned());
        actions.push("show".to_owned());
        assert(texts(actions@) =~= seq!["set"@, "update"@, "add"@, "show"@]);
        let mut statuses: Vec<String> = Vec::new();
        statuses.push("pending".to_owned());
        statuses.push("in_progress".to_owned());
        statuses.push("done".to_owned());
        assert(texts(statuses@) =~= seq!["pending"@, "in_progress"@, "done"@]);
        let properties = Entries::new().with(
            "action",
            choice_schema_value(&actions, "set 整体重写；update 更新状态；add 追加；show 查看"),
        ).with(
            "steps",
            described_kind_value(
                "array",
                "set 必填。步骤为 {id, description, status?}，status 默认 pending",
            ),
        ).with("id", described_kind_value("string", "update/add 必填的步骤 id")).with(
            "description",
            described_kind_value("string", "add 必填的步骤描述"),
        ).with("status", choice_schema_value(&statuses, "update 必填；add 可选"));
        ToolSpec {
            name: "plan".to_owned(),
            description:
                "管理当前多步骤任务计划。复杂任务先 set；开始或完成步骤时 update；新增步骤用 add；查看用 show。简单任务无需计划。".to_owned(),
            parameters: object_schema_entries(properties, &name_list("action")).with_bool(
                "additionalProperties",
                false,
            ).object(),
        }
    }

    fn is_read_only(&self) -> (read_only: bool) {
        false
    }
}

/// Steps make a plan exactly where each has a name and a description with some text, and no
/// two have one name.
pub proof fn law_plans_have_named_steps(steps: Seq<StepView>)
    ensures
        steps_error(steps, 0) is None <==> (forall|i: int|
            0 <= i < steps.len() ==> !is_blank_text((#[trigger] steps[i]).id) && !is_blank_text(
                steps[i].description,
            )) && (forall|i: int, j: int|
            0 <= i < j < steps.len() ==> (#[trigger] steps[i]).id != (#[trigger] steps[j]).id),
{
    lemma_steps_error(steps, 0);
}

/// The first step that does not fit is what is complained of: a step without a name, one
/// without a description, or one whose name a step before it has.
pub proof fn law_first_wrong_step_is_told(steps: Seq<StepView>, i: int)
    requires
        0 <= i < steps.len(),
        forall|k: int|
            0 <= k < i ==> !is_blank_text((#[trigger] steps[k]).id) && !is_blank_text(
                steps[k].description,
            ),
        forall|k: int, j: int|
            0 <= k < j < i ==> (#[trigger] steps[k]).id != (#[trigger] steps[j]).id,
    ensures
        is_blank_text(steps[i].id) ==> steps_error(steps, 0) == Some(PlanErrorView::EmptyId),
        !is_blank_text(steps[i].id) && is_blank_text(steps[i].description) ==> steps_error(steps, 0)
            == Some(PlanErrorView::EmptyDescription(steps[i].id)),
        !is_blank_text(steps[i].id) && !is_blank_text(steps[i].description) && (exists|k: int|
            0 <= k < i && (#[trigger] steps[k]).id == steps[i].id) ==> steps_error(steps, 0)
            == Some(PlanErrorView::DuplicateId(steps[i].id)),
{
    lemma_error_from(steps, 0, i);
}

proof fn lemma_error_from(steps: Seq<StepView>, from: int, i: int)
    requires
        0 <= from <= i < steps.len(),
        forall|k: int|
            0 <= k < i ==> !is_blank_text((#[trigger] steps[k]).id) && !is_blank_text(
                steps[k].description,
            ),
        forall|k: int, j: int|
            0 <= k < j < i ==> (#[trigger] steps[k]).id != (#[trigger] steps[j]).id,
    ensures
        steps_error(steps, from) == steps_error(steps, i),
    decreases i - from,
{
    if from < i {
        if has_id(steps, from, steps[from].id) {
            let k = choose|k: int| 0 <= k < from && (#[trigger] steps[k]).id == steps[from].id;
            assert(steps[k].id != steps[from].id);
        }
        lemma_error_from(steps, from + 1, i);
    }
}

/// An action that fails leaves the plan as it was; one that succeeds shows the new plan.
pub proof fn law_failed_actions_change_nothing(steps: Seq<StepView>, action: PlanAction)
    ensures
        acted(steps, action).1 is Err ==> acted(steps, action).0 == steps,
        acted(steps, action).1 matches Ok(text) ==> text == plan_text(acted(steps, action).0),
        action is Show ==> acted(steps, action).1 is Ok && acted(steps, action).0 == steps,
{
}

/// A plan is replaced by the steps that are given, exactly where they make a plan.
pub proof fn law_replaced_plan_is_the_given_one(steps: Seq<StepView>, wanted: Vec<PlanStep>)
    ensures
        acted(steps, PlanAction::Replace { steps: wanted }).1 is Ok <==> is_plan(
            step_views(wanted@),
        ),
        is_plan(step_views(wanted@)) ==> acted(steps, PlanAction::Replace { steps: wanted }).0
            == step_views(wanted@),
{
    lemma_steps_error(step_views(wanted@), 0);
}

/// A step is updated exactly where the plan has it. It alone changes, and only its status.
pub proof fn law_updated_step_has_its_status(
    steps: Seq<StepView>,
    id: String,
    status: PlanStatus,
    i: int,
)
    requires
        is_plan(steps),
    ensures
        ({
            let (now, out) = acted(steps, PlanAction::Update { id, status });
            &&& out is Ok <==> exists|k: int|
                0 <= k < steps.len() && (#[trigger] steps[k]).id == id@
            &&& out is Err ==> out == Err::<Seq<char>, PlanErrorView>(
                PlanErrorView::MissingStep(id@),
            )
            &&& now.len() == steps.len()
            &&& 0 <= i < steps.len() ==> now[i].id == steps[i].id && now[i].description
                == steps[i].description && now[i].status == (if steps[i].id == id@ {
                status
            } else {
                steps[i].status
            })
        }),
{
    lemma_step_found(steps, id@, 0);
}

proof fn lemma_step_found(steps: Seq<StepView>, id: Seq<char>, from: int)
    requires
        0 <= from,
    ensures
        match step_at(steps, id, from) {
            Some(at) => from <= at < steps.len() && steps[at].id == id,
            None => forall|i: int| from <= i < steps.len() ==> (#[trigger] steps[i]).id != id,
        },
    decreases steps.len() - from,
{
    if from < steps.len() && steps[from].id != id {
        lemma_step_found(steps, id, from + 1);
    }
}

/// A step is added at the end of a plan, exactly where it has a name that is not taken, and
/// a description.
pub proof fn law_added_step_is_the_last(
    steps: Seq<StepView>,
    id: String,
    description: String,
    status: PlanStatus,
)
    requires
        is_plan(steps),
    ensures
        ({
            let (now, out) = acted(steps, PlanAction::Add { id, description, status });
            &&& out is Ok <==> !is_blank_text(id@) && !is_blank_text(description@) && forall|
                i: int,
            |
                0 <= i < steps.len() ==> (#[trigger] steps[i]).id != id@
            &&& out is Ok ==> now == steps.push(
                StepView { id: id@, description: description@, status },
            )
        }),
{
    let next = steps.push(StepView { id: id@, description: description@, status });
    lemma_steps_error(next, 0);
    let n = steps.len() as int;
    assert(next[n].id == id@ && next[n].description == description@);
    assert forall|i: int| 0 <= i < n implies #[trigger] next[i] == steps[i] by {}
    if is_plan(next) {
        assert forall|i: int| 0 <= i < n implies (#[trigger] steps[i]).id != id@ by {
            assert(next[i].id != next[n].id);
        }
    }
}

/// As many steps are counted as done as are marked so.
pub proof fn law_done_steps_are_counted(steps: Seq<StepView>)
    ensures
        done_count(steps) == steps.filter(|step: StepView| step.status == PlanStatus::Done).len(),
    decreases steps.len(),
{
    reveal(Seq::filter);
    if steps.len() > 0 {
        law_done_steps_are_counted(steps.drop_last());
    }
}

/// Every step is shown on a line of its own, in its place, with its mark, its name, its
/// description and the word for its status.
pub proof fn law_every_step_is_shown(steps: Seq<StepView>, more: Seq<StepView>, step: StepView)
    ensures
        step_lines(steps + more) == step_lines(steps) + step_lines(more),
        step_lines(Seq::empty()) == Seq::<char>::empty(),
        step.status == PlanStatus::Pending ==> step_lines(seq![step]) == "[ ] "@ + step.id + " · "@
            + step.description + " (pending)\n"@,
        step.status == PlanStatus::InProgress ==> step_lines(seq![step]) == "[>] "@ + step.id
            + " · "@ + step.description + " (in_progress)\n"@,
        step.status == PlanStatus::Done ==> step_lines(seq![step]) == "[x] "@ + step.id + " · "@
            + step.description + " (done)\n"@,
    decreases more.len(),
{
    if more.len() == 0 {
        assert(steps + more =~= steps);
        assert(step_lines(steps + more) =~= step_lines(steps) + step_lines(more));
    } else {
        law_every_step_is_shown(steps, more.drop_last(), step);
        assert((steps + more).drop_last() =~= steps + more.drop_last());
        assert((steps + more).last() == more.last());
        assert(step_lines(steps + more) =~= step_lines(steps) + step_lines(more));
    }
    assert(seq![step].drop_last() =~= Seq::empty());
    assert(seq![step].last() == step);
    assert(step_lines(Seq::empty()) == Seq::<char>::empty());
    assert(step_lines(seq![step]) =~= step_line(step));
    reveal_strlit("[ ]");
    reveal_strlit("[>]");
    reveal_strlit("[x]");
    reveal_strlit("[ ] ");
    reveal_strlit("[>] ");
    reveal_strlit("[x] ");
    reveal_strlit(" ");
    reveal_strlit("pending");
    reveal_strlit("in_progress");
    reveal_strlit("done");
    reveal_strlit(" (");
    reveal_strlit(")\n");
    reveal_strlit(" (pending)\n");
    reveal_strlit(" (in_progress)\n");
    reveal_strlit(" (done)\n");
    assert("[ ]"@ + " "@ =~= "[ ] "@);
    assert("[>]"@ + " "@ =~= "[>] "@);
    assert("[x]"@ + " "@ =~= "[x] "@);
    assert(" ("@ + "pending"@ + ")\n"@ =~= " (pending)\n"@);
    assert(" ("@ + "in_progress"@ + ")\n"@ =~= " (in_progress)\n"@);
    assert(" ("@ + "done"@ + ")\n"@ =~= " (done)\n"@);
    let middle = step.id + " · "@ + step.description;
    assert(step_line(step) =~= (status_mark(step.status) + " "@) + middle + (" ("@ + status_word(
        step.status,
    ) + ")\n"@));
    if step.status == PlanStatus::Pending {
        assert("[ ] "@ + step.id + " · "@ + step.description + " (pending)\n"@ =~= "[ ] "@ + middle
            + " (pending)\n"@);
    } else if step.status == PlanStatus::InProgress {
        assert("[>] "@ + step.id + " · "@ + step.description + " (in_progress)\n"@ =~= "[>] "@
            + middle + " (in_progress)\n"@);
    } else {
        assert("[x] "@ + step.id + " · "@ + step.description + " (done)\n"@ =~= "[x] "@ + middle
            + " (done)\n"@);
    }
}

/// A plan is shown with how many of its steps are done, and then with all its steps.
pub proof fn law_plan_shows_its_progress_and_all_steps(steps: Seq<StepView>)
    requires
        steps.len() > 0,
    ensures
        plan_text(steps) + "\n"@ == "计划进度："@ + decimal(
            steps.filter(|step: StepView| step.status == PlanStatus::Done).len(),
        ) + "/"@ + decimal(steps.len()) + "\n"@ + step_lines(steps),
{
    law_done_steps_are_counted(steps);
    let last = steps.last();
    let whole = "计划进度："@ + decimal(done_count(steps)) + "/"@ + decimal(steps.len()) + "\n"@
        + step_lines(steps);
    reveal_strlit(")\n");
    reveal_strlit("\n");
    assert(step_lines(steps) =~= step_lines(steps.drop_last()) + step_line(last));
    let n = whole.len() as int;
    assert(step_line(last).len() >= 2);
    assert(whole[n - 1] == '\n' && whole[n - 2] == ')');
    crate::text::law_trimming_takes_white_space_from_the_ends(whole);
    let b = choose|b: int|
        0 <= b <= whole.len() && trim_end(whole) == #[trigger] whole.take(b) && (forall|i: int|
            b <= i < whole.len() ==> crate::text::is_white_space(#[trigger] whole[i]));
    if b < n - 1 {
        assert(crate::text::is_white_space(whole[n - 2]));
    }
    if b == n {
        assert(trim_end(whole).last() == whole[n - 1]);
    }
    assert(plan_text(steps) + "\n"@ =~= whole);
}

/// A plan is kept in the workspace unless that is switched off; a setting names another
/// file.
pub proof fn law_plan_is_kept_unless_switched_off(
    workspace: &str,
    configured: Option<&str>,
    path: Option<String>,
)
    requires
        call_ensures(PlanStore::from_env, (workspace, configured), path),
    ensures
        configured is None ==> path is Some && (path->0)@ == joined(
            workspace@,
            ".my-agent/plan.json"@,
        ),
        path is None <==> configured is Some && ((configured->0)@.len() == 0 || (configured->0)@
            == "off"@),
        configured is Some && path is Some ==> (path->0)@ == joined(workspace@, (configured->0)@),
{
}

/// A plan is written first to a hidden file beside its own.
pub proof fn law_plan_is_written_beside_its_file(
    directory: Seq<char>,
    name: Seq<char>,
    process: nat,
)
    requires
        name.len() > 0,
        !name.contains('/'),
        name != "."@,
        name != ".."@,
        directory.len() > 0,
        directory.last() != '/',
        !(directory.len() > 1 && directory.last() == '.' && directory[directory.len() - 2] == '/'),
    ensures
        temporary_file(directory + seq!['/'] + name, process) == directory + seq!['/'] + ("."@
            + name + ".tmp-"@ + decimal(process)),
{
    reveal_strlit(".");
    crate::path::law_file_name_stands_behind_the_last_slash(directory, name);
    let other = "."@ + name + ".tmp-"@ + decimal(process);
    assert(other[0] == '.');
    crate::path::law_renamed_file_stays_in_its_directory(directory, name, other);
}

} // verus!
