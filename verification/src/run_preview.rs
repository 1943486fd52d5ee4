//! What the workflow step preview says of one node in a selected run: the
//! run's summary, what the step was asked and answered, why it failed, and
//! what the run's diagnosis found wrong with it.

use vstd::prelude::*;

use crate::node_preview::{agent_output, agent_output_is, same, Json};
use crate::text::{ascii_lower, concat, str_eq, to_ascii_lowercase, to_string};

verus! {

/// One step a run recorded.
#[derive(Debug)]
pub struct RunStep {
    /// The node the step ran.
    pub node_id: String,
    /// What it was given, when the record keeps it.
    pub input: Option<Json>,
    /// What it produced, when it produced anything.
    pub output: Option<Json>,
    /// How it ended.
    pub status: String,
}

/// A template binding that resolved to null.
#[derive(Debug)]
pub struct NullBinding {
    /// The node whose binding it is.
    pub node_id: String,
    /// Where in the node's configuration.
    pub location: String,
    /// What to do about it.
    pub suggestion: String,
}

/// An error a step's policy swallowed.
#[derive(Debug)]
pub struct HiddenError {
    /// The node that swallowed it.
    pub node_id: String,
    /// The error, when it was kept.
    pub message: Option<String>,
}

/// A node the run never reached.
#[derive(Debug)]
pub struct SkippedNode {
    /// The node.
    pub node_id: String,
    /// The condition that routed the run away from it, if one did.
    pub routed_by: Option<String>,
}

/// What the run's diagnosis found.
#[derive(Debug)]
pub struct RunDiagnosis {
    /// Bindings that resolved to null.
    pub null_bindings: Vec<NullBinding>,
    /// Errors swallowed by a step's policy.
    pub hidden_errors: Vec<HiddenError>,
    /// Agent nodes that ran with an empty prompt.
    pub empty_prompts: Vec<String>,
    /// Nodes the run never reached.
    pub never_ran: Vec<SkippedNode>,
}

/// A recorded run of a workflow.
#[derive(Debug)]
pub struct RunRecord {
    /// The run's summary, if it wrote one.
    pub summary: Option<String>,
    /// Its steps, oldest first.
    pub steps: Vec<RunStep>,
    /// Why it failed, if it did.
    pub error: Option<String>,
    /// The diagnosis, if one was made.
    pub diagnosis: Option<RunDiagnosis>,
    /// Whether it failed.
    pub failed: bool,
}

/// One line of what the preview says of a node in a run.
#[derive(Debug, PartialEq)]
pub enum RunLine {
    /// The run's summary.
    Summary(String),
    /// A value under a label: the prompt, the output or result, the failure.
    Labelled {
        /// The label.
        label: String,
        /// The value.
        value: Json,
    },
    /// A dim note that the record lacks something.
    Missing(String),
    /// An error note that a failed step produced nothing.
    NoOutput(String),
    /// The node was not reached in this run.
    NotReached,
    /// A warning the diagnosis raised.
    Warning(String),
    /// The offer to fix a failed run through an agent.
    FixHint,
}

/// A line as the contract describes it.
pub enum LineSpec {
    /// The summary text.
    Summary(Seq<char>),
    /// A copy of the value under the label.
    Labelled(Seq<char>, Json),
    /// An agent step's output, unwrapped from the engine's envelope.
    AgentOutput(Json),
    /// A missing-record note.
    Missing(Seq<char>),
    /// A no-output note.
    NoOutput(Seq<char>),
    /// Not reached.
    NotReached,
    /// A warning text.
    Warning(Seq<char>),
    /// The fix offer.
    FixHint,
}

/// Whether `line` is what `spec` describes.
pub open spec fn line_is(spec: LineSpec, line: RunLine) -> bool {
    match spec {
        LineSpec::Summary(t) => line matches RunLine::Summary(s) && s@ == t,
        LineSpec::Labelled(l, v) => line matches RunLine::Labelled { label, value } && label@ == l
            && same(v, value),
        LineSpec::AgentOutput(o) => line matches RunLine::Labelled { label, value } && label@
            == "output"@ && agent_output_is(o, value),
        LineSpec::Missing(t) => line matches RunLine::Missing(s) && s@ == t,
        LineSpec::NoOutput(t) => line matches RunLine::NoOutput(s) && s@ == t,
        LineSpec::NotReached => line is NotReached,
        LineSpec::Warning(t) => line matches RunLine::Warning(s) && s@ == t,
        LineSpec::FixHint => line is FixHint,
    }
}

/// The index of the last step that ran `node`.
pub open spec fn last_step(steps: Seq<RunStep>, node: Seq<char>) -> Option<int>
    decreases steps.len(),
{
    if steps.len() == 0 {
        None
    } else if steps.last().node_id@ == node {
        Some(steps.len() - 1)
    } else {
        last_step(steps.drop_last(), node)
    }
}

/// What the preview says of the step that ran the node: for an agent, its
/// prompt (or that the record lacks it); then its output or result, or that
/// a failed step produced nothing, or that the record lacks it.
pub open spec fn step_lines(step: RunStep, is_agent: bool) -> Seq<LineSpec> {
    let prompt = if is_agent {
        match step.input {
            Some(input) => seq![LineSpec::Labelled("prompt"@, input)],
            None => seq![LineSpec::Missing("prompt  unavailable in this older run record"@)],
        }
    } else {
        Seq::empty()
    };
    let result = match step.output {
        Some(output) => if is_agent {
            LineSpec::AgentOutput(output)
        } else {
            LineSpec::Labelled("result"@, output)
        },
        None => if ascii_lower(step.status@) == "error"@ {
            LineSpec::NoOutput(
                if is_agent {
                    "output  no output was produced"@
                } else {
                    "result  no output was produced"@
                },
            )
        } else {
            LineSpec::Missing("result  unavailable in this older run record"@)
        },
    };
    prompt.push(result)
}

/// The warnings for null bindings of `node`, in order.
pub open spec fn binding_warnings(bs: Seq<NullBinding>, node: Seq<char>) -> Seq<LineSpec>
    decreases bs.len(),
{
    if bs.len() == 0 {
        Seq::empty()
    } else {
        let rest = binding_warnings(bs.drop_last(), node);
        let b = bs.last();
        if b.node_id@ == node {
            rest.push(LineSpec::Warning(b.location@ + " resolved to null · "@ + b.suggestion@))
        } else {
            rest
        }
    }
}

/// The warnings for errors `node` swallowed, in order.
pub open spec fn hidden_warnings(hs: Seq<HiddenError>, node: Seq<char>) -> Seq<LineSpec>
    decreases hs.len(),
{
    if hs.len() == 0 {
        Seq::empty()
    } else {
        let rest = hidden_warnings(hs.drop_last(), node);
        let h = hs.last();
        if h.node_id@ == node {
            rest.push(
                LineSpec::Warning(
                    match h.message {
                        Some(m) => m@,
                        None => "error was swallowed by this step's policy"@,
                    },
                ),
            )
        } else {
            rest
        }
    }
}

/// The first record of `node` among the nodes never reached.
pub open spec fn first_skip(ss: Seq<SkippedNode>, node: Seq<char>) -> Option<int>
    decreases ss.len(),
{
    if ss.len() == 0 {
        None
    } else {
        match first_skip(ss.drop_last(), node) {
            Some(i) => Some(i),
            None => if ss.last().node_id@ == node {
                Some(ss.len() - 1)
            } else {
                None
            },
        }
    }
}

/// What the diagnosis says of `node`: its null bindings, its swallowed
/// errors, an empty prompt, and why it was not reached.
pub open spec fn diagnosis_lines(d: RunDiagnosis, node: Seq<char>) -> Seq<LineSpec> {
    let empty_prompt = if d.empty_prompts@.map_values(|s: String| s@).contains(node) {
        seq![LineSpec::Warning("agent ran with an empty prompt"@)]
    } else {
        Seq::empty()
    };
    let skipped = match first_skip(d.never_ran@, node) {
        Some(i) => seq![
            LineSpec::Warning(
                match d.never_ran@[i].routed_by {
                    Some(c) => "not reached; routed away by "@ + c@,
                    None => "not reached by this run"@,
                },
            ),
        ],
        None => Seq::empty(),
    };
    binding_warnings(d.null_bindings@, node) + hidden_warnings(d.hidden_errors@, node) + empty_prompt
        + skipped
}

/// Everything the preview says of `node` in `run`, in order.
pub open spec fn run_lines_spec(run: RunRecord, node: Seq<char>, is_agent: bool) -> Seq<LineSpec> {
    let summary = match run.summary {
        Some(s) => seq![LineSpec::Summary(s@)],
        None => Seq::empty(),
    };
    let step = match last_step(run.steps@, node) {
        Some(i) => step_lines(run.steps@[i], is_agent),
        None => seq![LineSpec::NotReached],
    };
    let failure = match run.error {
        Some(e) => seq![LineSpec::Labelled("failure"@, Json::Str(e))],
        None => Seq::empty(),
    };
    let diagnosis = match run.diagnosis {
        Some(d) => diagnosis_lines(d, node),
        None => Seq::empty(),
    };
    let fix = if run.failed {
        seq![LineSpec::FixHint]
    } else {
        Seq::empty()
    };
    summary + step + failure + diagnosis + fix
}

/// Every error `node` swallowed with a message of its own is warned about
/// in that message's words.
proof fn lemma_hidden_message_warned(hs: Seq<HiddenError>, node: Seq<char>, k: int)
    requires
        0 <= k < hs.len(),
        hs[k].node_id@ == node,
        hs[k].message is Some,
    ensures
        hidden_warnings(hs, node).contains(LineSpec::Warning(hs[k].message->0@)),
    decreases hs.len(),
{
    let rest = hidden_warnings(hs.drop_last(), node);
    if k == hs.len() - 1 {
        assert(hidden_warnings(hs, node) == rest.push(LineSpec::Warning(hs[k].message->0@)));
        assert(hidden_warnings(hs, node)[rest.len() as int] == LineSpec::Warning(hs[k].message->0@));
    } else {
        assert(hs.drop_last()[k] == hs[k]);
        lemma_hidden_message_warned(hs.drop_last(), node, k);
        let j = choose|j: int| 0 <= j < rest.len() && rest[j] == LineSpec::Warning(hs[k].message->0@);
        if hs.last().node_id@ == node {
            let w = LineSpec::Warning(
                match hs.last().message {
                    Some(m) => m@,
                    None => "error was swallowed by this step's policy"@,
                },
            );
            assert(hidden_warnings(hs, node) == rest.push(w));
            assert(rest.push(w)[j] == rest[j]);
        }
        assert(hidden_warnings(hs, node)[j] == LineSpec::Warning(hs[k].message->0@));
    }
}

/// The default warning stands only for a swallowed error of `node` that
/// kept no message.
proof fn lemma_default_warning_means_no_message(hs: Seq<HiddenError>, node: Seq<char>, j: int)
    requires
        0 <= j < hidden_warnings(hs, node).len(),
        hidden_warnings(hs, node)[j] == LineSpec::Warning("error was swallowed by this step's policy"@),
    ensures
        exists|k: int| 0 <= k < hs.len() && (#[trigger] hs[k]).node_id@ == node && (hs[k].message is None
            || hs[k].message->0@ == "error was swallowed by this step's policy"@),
    decreases hs.len(),
{
    let rest = hidden_warnings(hs.drop_last(), node);
    let k = hs.len() - 1;
    if j < rest.len() {
        if hs.last().node_id@ == node {
            assert(hidden_warnings(hs, node)[j] == rest[j]);
        }
        lemma_default_warning_means_no_message(hs.drop_last(), node, j);
        let k2 = choose|k2: int| 0 <= k2 < hs.drop_last().len() && (#[trigger] hs.drop_last()[k2]).node_id@
            == node && (hs.drop_last()[k2].message is None || hs.drop_last()[k2].message->0@
            == "error was swallowed by this step's policy"@);
        assert(hs[k2] == hs.drop_last()[k2]);
    } else {
        assert(hs[k].node_id@ == node);
    }
}

/// What a run says of a node shows every error the node swallowed: a
/// swallowed error that kept its message is warned about in those words, and
/// the stock warning that an error was swallowed stands only for one that
/// kept no message (or whose message reads the same).
pub proof fn lemma_swallowed_errors_are_shown(run: RunRecord, node: Seq<char>, is_agent: bool)
    requires
        run.diagnosis is Some,
    ensures
        forall|k: int|
            0 <= k < run.diagnosis->0.hidden_errors@.len() && (#[trigger] run.diagnosis->0.hidden_errors@[k]).node_id@
                == node && run.diagnosis->0.hidden_errors@[k].message is Some ==> run_lines_spec(
                run,
                node,
                is_agent,
            ).contains(LineSpec::Warning(run.diagnosis->0.hidden_errors@[k].message->0@)),
        forall|j: int|
            0 <= j < hidden_warnings(run.diagnosis->0.hidden_errors@, node).len() && #[trigger] hidden_warnings(
                run.diagnosis->0.hidden_errors@,
                node,
            )[j] == LineSpec::Warning("error was swallowed by this step's policy"@) ==> exists|k: int|
                0 <= k < run.diagnosis->0.hidden_errors@.len() && (#[trigger] run.diagnosis->0.hidden_errors@[k]).node_id@
                    == node && (run.diagnosis->0.hidden_errors@[k].message is None
                    || run.diagnosis->0.hidden_errors@[k].message->0@ == "error was swallowed by this step's policy"@),
{
    let d = run.diagnosis->0;
    let hs = d.hidden_errors@;
    assert forall|k: int|
        0 <= k < hs.len() && (#[trigger] hs[k]).node_id@ == node && hs[k].message is Some implies run_lines_spec(
            run,
            node,
            is_agent,
        ).contains(LineSpec::Warning(hs[k].message->0@)) by {
        lemma_hidden_message_warned(hs, node, k);
        let w = LineSpec::Warning(hs[k].message->0@);
        let hw = hidden_warnings(hs, node);
        let j = choose|j: int| 0 <= j < hw.len() && hw[j] == w;
        let bw = binding_warnings(d.null_bindings@, node);
        let dl = diagnosis_lines(d, node);
        let all = run_lines_spec(run, node, is_agent);
        let summary = match run.summary {
            Some(s) => seq![LineSpec::Summary(s@)],
            None => Seq::<LineSpec>::empty(),
        };
        let step = match last_step(run.steps@, node) {
            Some(i) => step_lines(run.steps@[i], is_agent),
            None => seq![LineSpec::NotReached],
        };
        let failure = match run.error {
            Some(e) => seq![LineSpec::Labelled("failure"@, Json::Str(e))],
            None => Seq::<LineSpec>::empty(),
        };
        let pre = summary + step + failure;
        assert(dl[bw.len() + j] == w);
        assert(all[pre.len() + bw.len() + j] == w);
    }
    assert forall|j: int|
        0 <= j < hidden_warnings(hs, node).len() && #[trigger] hidden_warnings(hs, node)[j]
            == LineSpec::Warning("error was swallowed by this step's policy"@) implies exists|k: int|
            0 <= k < hs.len() && (#[trigger] hs[k]).node_id@ == node && (hs[k].message is None
                || hs[k].message->0@ == "error was swallowed by this step's policy"@) by {
        lemma_default_warning_means_no_message(hs, node, j);
    }
}

/// Whether `lines` say what `specs` describe, line for line.
pub open spec fn lines_are(specs: Seq<LineSpec>, lines: Seq<RunLine>) -> bool {
    &&& lines.len() == specs.len()
    &&& forall|i: int| 0 <= i < specs.len() ==> line_is(#[trigger] specs[i], lines[i])
}


/// Append a line that says what `spec` describes.
fn say(out: &mut Vec<RunLine>, line: RunLine, Ghost(specs): Ghost<Seq<LineSpec>>, Ghost(spec): Ghost<LineSpec>)
    requires
        lines_are(specs, old(out)@),
        line_is(spec, line),
    ensures
        lines_are(specs.push(spec), final(out)@),
{
    out.push(line);
    assert forall|i: int| 0 <= i < specs.len() + 1 implies line_is(#[trigger] specs.push(spec)[i], out@[i]) by {
        if i < specs.len() {
            assert(specs.push(spec)[i] == specs[i]);
        }
    }
}

/// The index of the last step that ran `node`.
fn find_last_step(steps: &Vec<RunStep>, node: &str) -> (r: Option<usize>)
    ensures
        match r {
            Some(i) => i < steps@.len() && last_step(steps@, node@) == Some(i as int),
            None => last_step(steps@, node@) is None,
        },
{
    let mut i = steps.len();
    assert(steps@.take(i as int) =~= steps@);
    while i > 0
        invariant
            i <= steps@.len(),
            last_step(steps@, node@) == last_step(steps@.take(i as int), node@),
        decreases i,
    {
        assert(steps@.take(i as int).drop_last() =~= steps@.take(i - 1));
        assert(steps@.take(i as int).last() == steps@[i - 1]);
        if str_eq(steps[i - 1].node_id.as_str(), node) {
            return Some(i - 1);
        }
        i -= 1;
    }
    None
}

/// Say what the step that ran the node was asked and answered.
fn say_step(out: &mut Vec<RunLine>, step: &RunStep, is_agent: bool, Ghost(specs): Ghost<Seq<LineSpec>>)
    requires
        lines_are(specs, old(out)@),
    ensures
        lines_are(specs + step_lines(*step, is_agent), final(out)@),
{
    let ghost mut said = specs;
    if is_agent {
        match &step.input {
            Some(input) => {
                let ghost sp = LineSpec::Labelled("prompt"@, *input);
                say(out, RunLine::Labelled { label: to_string("prompt"), value: input.copy() }, Ghost(said), Ghost(sp));
                proof { said = said.push(sp); }
            },
            None => {
                let ghost sp = LineSpec::Missing("prompt  unavailable in this older run record"@);
                say(out, RunLine::Missing(to_string("prompt  unavailable in this older run record")), Ghost(said), Ghost(sp));
                proof { said = said.push(sp); }
            },
        }
    }
    let ghost result = step_lines(*step, is_agent).last();
    match &step.output {
        Some(output) => {
            if is_agent {
                say(out, RunLine::Labelled { label: to_string("output"), value: agent_output(output) }, Ghost(said), Ghost(result));
            } else {
                say(out, RunLine::Labelled { label: to_string("result"), value: output.copy() }, Ghost(said), Ghost(result));
            }
        },
        None => {
            let lower = to_ascii_lowercase(step.status.as_str());
            if str_eq(lower.as_str(), "error") {
                let text = if is_agent {
                    to_string("output  no output was produced")
                } else {
                    to_string("result  no output was produced")
                };
                say(out, RunLine::NoOutput(text), Ghost(said), Ghost(result));
            } else {
                say(out, RunLine::Missing(to_string("result  unavailable in this older run record")), Ghost(said), Ghost(result));
            }
        },
    }
    proof {
        assert(specs + step_lines(*step, is_agent) =~= said.push(result));
    }
}

/// Say the null-binding warnings of `node`.
fn say_bindings(out: &mut Vec<RunLine>, bs: &Vec<NullBinding>, node: &str, Ghost(specs): Ghost<Seq<LineSpec>>)
    requires
        lines_are(specs, old(out)@),
    ensures
        lines_are(specs + binding_warnings(bs@, node@), final(out)@),
{
    let mut i: usize = 0;
    assert(specs + binding_warnings(bs@.take(0), node@) =~= specs);
    while i < bs.len()
        invariant
            i <= bs@.len(),
            lines_are(specs + binding_warnings(bs@.take(i as int), node@), out@),
        decreases bs@.len() - i,
    {
        assert(bs@.take(i + 1).drop_last() =~= bs@.take(i as int));
        assert(bs@.take(i + 1).last() == bs@[i as int]);
        let b = &bs[i];
        if str_eq(b.node_id.as_str(), node) {
            let t = concat(b.location.as_str(), " resolved to null · ");
            let t = concat(t.as_str(), b.suggestion.as_str());
            let ghost sp = LineSpec::Warning(
                bs@[i as int].location@ + " resolved to null · "@ + bs@[i as int].suggestion@,
            );
            let ghost before = specs + binding_warnings(bs@.take(i as int), node@);
            say(out, RunLine::Warning(t), Ghost(before), Ghost(sp));
            assert(before.push(sp) =~= specs + binding_warnings(bs@.take(i + 1), node@));
        }
        i += 1;
    }
    assert(bs@.take(bs@.len() as int) =~= bs@);
}

/// Say the swallowed-error warnings of `node`.
fn say_hidden(out: &mut Vec<RunLine>, hs: &Vec<HiddenError>, node: &str, Ghost(specs): Ghost<Seq<LineSpec>>)
    requires
        lines_are(specs, old(out)@),
    ensures
        lines_are(specs + hidden_warnings(hs@, node@), final(out)@),
{
    let mut i: usize = 0;
    assert(specs + hidden_warnings(hs@.take(0), node@) =~= specs);
    while i < hs.len()
        invariant
            i <= hs@.len(),
            lines_are(specs + hidden_warnings(hs@.take(i as int), node@), out@),
        decreases hs@.len() - i,
    {
        assert(hs@.take(i + 1).drop_last() =~= hs@.take(i as int));
        assert(hs@.take(i + 1).last() == hs@[i as int]);
        let h = &hs[i];
        if str_eq(h.node_id.as_str(), node) {
            let t = match &h.message {
                Some(m) => m.clone(),
                None => to_string("error was swallowed by this step's policy"),
            };
            let ghost sp = LineSpec::Warning(
                match hs@[i as int].message {
                    Some(m) => m@,
                    None => "error was swallowed by this step's policy"@,
                },
            );
            let ghost before = specs + hidden_warnings(hs@.take(i as int), node@);
            say(out, RunLine::Warning(t), Ghost(before), Ghost(sp));
            assert(before.push(sp) =~= specs + hidden_warnings(hs@.take(i + 1), node@));
        }
        i += 1;
    }
    assert(hs@.take(hs@.len() as int) =~= hs@);
}

/// Whether `names` holds `node`.
fn names_hold(names: &Vec<String>, node: &str) -> (r: bool)
    ensures
        r == names@.map_values(|s: String| s@).contains(node@),
{
    let ghost views = names@.map_values(|s: String| s@);
    let mut i: usize = 0;
    while i < names.len()
        invariant
            i <= names@.len(),
            views == names@.map_values(|s: String| s@),
            forall|j: int| 0 <= j < i ==> views[j] != node@,
        decreases names@.len() - i,
    {
        if str_eq(names[i].as_str(), node) {
            assert(views[i as int] == node@);
            return true;
        }
        i += 1;
    }
    false
}

/// The first record of `node` among the nodes never reached.
fn find_first_skip(ss: &Vec<SkippedNode>, node: &str) -> (r: Option<usize>)
    ensures
        match r {
            Some(i) => i < ss@.len() && first_skip(ss@, node@) == Some(i as int),
            None => first_skip(ss@, node@) is None,
        },
{
    let mut i: usize = 0;
    while i < ss.len()
        invariant
            i <= ss@.len(),
            first_skip(ss@.take(i as int), node@) is None,
        decreases ss@.len() - i,
    {
        assert(ss@.take(i + 1).drop_last() =~= ss@.take(i as int));
        assert(ss@.take(i + 1).last() == ss@[i as int]);
        if str_eq(ss[i].node_id.as_str(), node) {
            proof {
                lemma_first_skip_extends(ss@, node@, i + 1);
            }
            return Some(i);
        }
        i += 1;
    }
    assert(ss@.take(ss@.len() as int) =~= ss@);
    None
}

/// Once found in a prefix, the first record stays the first.
proof fn lemma_first_skip_extends(ss: Seq<SkippedNode>, node: Seq<char>, n: int)
    requires
        0 <= n <= ss.len(),
        first_skip(ss.take(n), node) is Some,
    ensures
        first_skip(ss, node) == first_skip(ss.take(n), node),
    decreases ss.len() - n,
{
    if n == ss.len() {
        assert(ss.take(n) =~= ss);
    } else {
        assert(ss.take(n + 1).drop_last() =~= ss.take(n));
        lemma_first_skip_extends(ss, node, n + 1);
    }
}

/// Say what the diagnosis found about `node`.
fn say_diagnosis(out: &mut Vec<RunLine>, d: &RunDiagnosis, node: &str, Ghost(specs): Ghost<Seq<LineSpec>>)
    requires
        lines_are(specs, old(out)@),
    ensures
        lines_are(specs + diagnosis_lines(*d, node@), final(out)@),
{
    say_bindings(out, &d.null_bindings, node, Ghost(specs));
    let ghost s1 = specs + binding_warnings(d.null_bindings@, node@);
    say_hidden(out, &d.hidden_errors, node, Ghost(s1));
    let ghost s2 = s1 + hidden_warnings(d.hidden_errors@, node@);
    let ghost mut s3 = s2;
    if names_hold(&d.empty_prompts, node) {
        let ghost sp = LineSpec::Warning("agent ran with an empty prompt"@);
        say(out, RunLine::Warning(to_string("agent ran with an empty prompt")), Ghost(s2), Ghost(sp));
        proof { s3 = s2.push(sp); }
    }
    let ghost mut s4 = s3;
    match find_first_skip(&d.never_ran, node) {
        Some(i) => {
            let t = match &d.never_ran[i].routed_by {
                Some(c) => concat("not reached; routed away by ", c.as_str()),
                None => to_string("not reached by this run"),
            };
            let ghost sp = LineSpec::Warning(
                match d.never_ran@[i as int].routed_by {
                    Some(c) => "not reached; routed away by "@ + c@,
                    None => "not reached by this run"@,
                },
            );
            say(out, RunLine::Warning(t), Ghost(s3), Ghost(sp));
            proof { s4 = s3.push(sp); }
        },
        None => {},
    }
    proof {
        assert(specs + diagnosis_lines(*d, node@) =~= s4);
    }
}

/// Render what the selected run recorded for one node, as lines.
pub fn run_lines(run: &RunRecord, node_id: &str, is_agent: bool) -> (r: Vec<RunLine>)
    ensures
        lines_are(run_lines_spec(*run, node_id@, is_agent), r@),
{
    let mut out: Vec<RunLine> = Vec::new();
    let ghost mut said = Seq::<LineSpec>::empty();
    if let Some(summary) = &run.summary {
        let ghost sp = LineSpec::Summary(summary@);
        say(&mut out, RunLine::Summary(summary.clone()), Ghost(said), Ghost(sp));
        proof { said = said.push(sp); }
    }
    match find_last_step(&run.steps, node_id) {
        Some(i) => {
            say_step(&mut out, &run.steps[i], is_agent, Ghost(said));
            proof { said = said + step_lines(run.steps@[i as int], is_agent); }
        },
        None => {
            say(&mut out, RunLine::NotReached, Ghost(said), Ghost(LineSpec::NotReached));
            proof { said = said.push(LineSpec::NotReached); }
        },
    }
    if let Some(error) = &run.error {
        let ghost sp = LineSpec::Labelled("failure"@, Json::Str(*error));
        say(&mut out, RunLine::Labelled { label: to_string("failure"), value: Json::Str(error.clone()) }, Ghost(said), Ghost(sp));
        proof { said = said.push(sp); }
    }
    if let Some(d) = &run.diagnosis {
        say_diagnosis(&mut out, d, node_id, Ghost(said));
        proof { said = said + diagnosis_lines(*d, node_id@); }
    }
    if run.failed {
        say(&mut out, RunLine::FixHint, Ghost(said), Ghost(LineSpec::FixHint));
        proof { said = said.push(LineSpec::FixHint); }
    }
    proof {
        assert(said =~= run_lines_spec(*run, node_id@, is_agent));
    }
    out
}

} // verus!
