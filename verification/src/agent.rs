//! The agent executor: a bounded loop in which a model either gives a final
//! answer or asks for a tool, and tool results are fed back to the model.
//!
//! The model speaks a line protocol. An output that starts with
//! `final answer:` ends the run with the text after the mark. An output that
//! starts with `tool:` asks for the tool named by the next word, with the rest
//! of the output as its argument. Any other output fails the run: the loop
//! never guesses. A tool that fails does not fail the run; its message is put
//! into the trace for the model to react to. A provider failure, an unknown
//! tool and an exhausted step budget are fatal.

use vstd::prelude::*;
use crate::llm::{ProviderError, ProviderErrorView, LLM};
use crate::text::{append_chars, chars_of, matches_at, occurs_at, string_of, texts};

verus! {

/// Why a run failed.
#[derive(Debug)]
pub enum AgentError {
    /// The model asked for a tool that is not registered.
    UnknownTool(String),
    /// The step budget was used up before a final answer came.
    StepLimitExceeded,
    /// The provider failed.
    ProviderFailed(ProviderError),
    /// The model's output follows neither form of the protocol.
    UnparseableModelOutput(String),
    /// A tool failed with the given message. A run never ends with this
    /// error: it is what a failed call in the trace stands for.
    ToolExecutionFailed(String),
}

/// What a model output asks for.
#[derive(Debug)]
pub enum Decision {
    FinalAnswer(String),
    ToolRequest { tool: String, argument: String },
    Unparseable,
}

/// What a tool call gave.
#[derive(Debug)]
pub enum Observation {
    /// The tool's result.
    Output(String),
    /// The message of the tool's failure.
    Failure(String),
}

/// One completed tool call of a run.
#[derive(Debug)]
pub struct TraceEntry {
    pub tool: String,
    pub argument: String,
    pub observation: Observation,
}

impl TraceEntry {
    /// The error that the call's failure stands for; `None` where the tool
    /// gave a result.
    pub fn failure(&self) -> (out: Option<AgentError>)
        ensures
            match self.observation {
                Observation::Output(_) => out is None,
                Observation::Failure(message) => out matches Some(
                    AgentError::ToolExecutionFailed(m),
                ) && m@ == message@,
            },
    {
        match &self.observation {
            Observation::Output(_) => None,
            Observation::Failure(message) => Some(
                AgentError::ToolExecutionFailed(message.clone()),
            ),
        }
    }
}

/// Where a run stands.
#[derive(Debug)]
pub enum Phase {
    /// The model is to be asked.
    Thinking,
    /// The tool at index `tool` of the registry is to be called.
    ActingWithTool { tool: usize, argument: String },
    /// The run ended with an answer.
    Finished(String),
    /// The run ended without one.
    Failed(AgentError),
}

/// What the driver of a run has to do next.
#[derive(Debug)]
pub enum Action {
    /// Ask the provider to complete `prompt` and report the reply.
    AskModel { prompt: String },
    /// Call the tool at index `tool` with `argument` and report the result.
    CallTool { tool: usize, argument: String },
    /// Nothing: the run has ended.
    Stop,
}

/// A tool that an agent may call by name.
pub trait Tool {
    /// Runs the tool on `argument`; an error carries its message.
    fn call(&mut self, argument: &str) -> Result<String, String>;
}

/// What a decision is.
pub enum DecisionView {
    FinalAnswer(Seq<char>),
    ToolRequest { tool: Seq<char>, argument: Seq<char> },
    Unparseable,
}

/// What an observation is.
pub enum ObservationView {
    Output(Seq<char>),
    Failure(Seq<char>),
}

/// What a trace entry is.
pub struct TraceEntryView {
    pub tool: Seq<char>,
    pub argument: Seq<char>,
    pub observation: ObservationView,
}

/// What an agent error is.
pub enum Failure {
    UnknownTool(Seq<char>),
    StepLimitExceeded,
    ProviderFailed(ProviderErrorView),
    UnparseableModelOutput(Seq<char>),
    ToolExecutionFailed(Seq<char>),
}

/// What a phase is.
pub enum PhaseView {
    Thinking,
    ActingWithTool { tool: int, argument: Seq<char> },
    Finished(Seq<char>),
    Failed(Failure),
}

/// The state of a run.
pub struct RunView {
    pub input: Seq<char>,
    pub tools: Seq<Seq<char>>,
    pub max_steps: nat,
    pub trace: Seq<TraceEntryView>,
    pub phase: PhaseView,
}

impl View for AgentError {
    type V = Failure;

    open spec fn view(&self) -> Failure {
        match self {
            AgentError::UnknownTool(name) => Failure::UnknownTool(name@),
            AgentError::StepLimitExceeded => Failure::StepLimitExceeded,
            AgentError::ProviderFailed(e) => Failure::ProviderFailed(e@),
            AgentError::UnparseableModelOutput(text) => Failure::UnparseableModelOutput(text@),
            AgentError::ToolExecutionFailed(message) => Failure::ToolExecutionFailed(message@),
        }
    }
}

impl View for Decision {
    type V = DecisionView;

    open spec fn view(&self) -> DecisionView {
        match self {
            Decision::FinalAnswer(answer) => DecisionView::FinalAnswer(answer@),
            Decision::ToolRequest { tool, argument } => DecisionView::ToolRequest {
                tool: tool@,
                argument: argument@,
            },
            Decision::Unparseable => DecisionView::Unparseable,
        }
    }
}

impl View for Observation {
    type V = ObservationView;

    open spec fn view(&self) -> ObservationView {
        match self {
            Observation::Output(text) => ObservationView::Output(text@),
            Observation::Failure(message) => ObservationView::Failure(message@),
        }
    }
}

impl View for TraceEntry {
    type V = TraceEntryView;

    open spec fn view(&self) -> TraceEntryView {
        TraceEntryView {
            tool: self.tool@,
            argument: self.argument@,
            observation: self.observation@,
        }
    }
}

impl View for Phase {
    type V = PhaseView;

    open spec fn view(&self) -> PhaseView {
        match self {
            Phase::Thinking => PhaseView::Thinking,
            Phase::ActingWithTool { tool, argument } => PhaseView::ActingWithTool {
                tool: *tool as int,
                argument: argument@,
            },
            Phase::Finished(answer) => PhaseView::Finished(answer@),
            Phase::Failed(e) => PhaseView::Failed(e@),
        }
    }
}

/// The mark that starts a final answer.
pub open spec fn answer_mark() -> Seq<char> {
    "final answer:"@
}

/// The mark that starts a tool request.
pub open spec fn tool_mark() -> Seq<char> {
    "tool:"@
}

/// The first position at or after `from` that holds no space, or the end.
pub open spec fn spaces_end(s: Seq<char>, from: int) -> int
    decreases s.len() - from,
{
    if 0 <= from < s.len() && s[from] == ' ' {
        spaces_end(s, from + 1)
    } else {
        from
    }
}

/// The first position at or after `from` that holds a space, or the end.
pub open spec fn word_end(s: Seq<char>, from: int) -> int
    decreases s.len() - from,
{
    if 0 <= from < s.len() && s[from] != ' ' {
        word_end(s, from + 1)
    } else {
        from
    }
}

/// What a model output asks for, by the line protocol.
pub open spec fn decision_of(output: Seq<char>) -> DecisionView {
    if occurs_at(output, 0, answer_mark()) {
        DecisionView::FinalAnswer(output.skip(spaces_end(output, answer_mark().len() as int)))
    } else if occurs_at(output, 0, tool_mark()) {
        let start = spaces_end(output, tool_mark().len() as int);
        let end = word_end(output, start);
        if start == end {
            DecisionView::Unparseable
        } else {
            DecisionView::ToolRequest {
                tool: output.subrange(start, end),
                argument: output.skip(spaces_end(output, end)),
            }
        }
    } else {
        DecisionView::Unparseable
    }
}

/// The first index at or after `from` at which `tools` holds `name`;
/// `tools.len()` where there is none.
pub open spec fn tool_index(tools: Seq<Seq<char>>, name: Seq<char>, from: int) -> int
    decreases tools.len() - from,
{
    if from < 0 || from >= tools.len() {
        tools.len() as int
    } else if tools[from] == name {
        from
    } else {
        tool_index(tools, name, from + 1)
    }
}

/// `tool_index` finds a registered name, and only a registered name.
pub proof fn lemma_tool_index(tools: Seq<Seq<char>>, name: Seq<char>, from: int)
    requires
        0 <= from <= tools.len(),
    ensures
        from <= tool_index(tools, name, from) <= tools.len(),
        tool_index(tools, name, from) < tools.len() ==> tools[tool_index(tools, name, from)]
            == name,
        forall|i: int| from <= i < tool_index(tools, name, from) ==> tools[i] != name,
    decreases tools.len() - from,
{
    if from < tools.len() && tools[from] != name {
        lemma_tool_index(tools, name, from + 1);
    }
}

/// What the model is told before the question.
pub open spec fn instructions() -> Seq<char> {
    "Reply with `final answer: <answer>` or with `tool: <name> <argument>`.\n"@
}

/// The lines that one completed tool call adds to the prompt.
pub open spec fn trace_lines(entry: TraceEntryView) -> Seq<char> {
    "tool: "@ + entry.tool + seq![' '] + entry.argument + seq!['\n'] + match entry.observation {
        ObservationView::Output(text) => "observation: "@ + text,
        ObservationView::Failure(message) => "error: "@ + message,
    } + seq!['\n']
}

/// The lines of all completed tool calls, oldest first.
pub open spec fn trace_text(trace: Seq<TraceEntryView>) -> Seq<char>
    decreases trace.len(),
{
    if trace.len() == 0 {
        Seq::empty()
    } else {
        trace_text(trace.drop_last()) + trace_lines(trace.last())
    }
}

/// The prompt of a reasoning step: instructions, the question, and the trace.
pub open spec fn reasoning_prompt(input: Seq<char>, trace: Seq<TraceEntryView>) -> Seq<char> {
    instructions() + "question: "@ + input + seq!['\n'] + trace_text(trace)
}

/// A run that has not begun: with no step to spend it has failed already.
pub open spec fn started(input: Seq<char>, tools: Seq<Seq<char>>, max_steps: nat) -> RunView {
    RunView {
        input,
        tools,
        max_steps,
        trace: Seq::empty(),
        phase: if max_steps == 0 {
            PhaseView::Failed(Failure::StepLimitExceeded)
        } else {
            PhaseView::Thinking
        },
    }
}

/// The phase that follows `Thinking` on the provider's reply.
pub open spec fn phase_after_reply(
    tools: Seq<Seq<char>>,
    reply: Result<Seq<char>, ProviderErrorView>,
) -> PhaseView {
    match reply {
        Err(e) => PhaseView::Failed(Failure::ProviderFailed(e)),
        Ok(output) => match decision_of(output) {
            DecisionView::FinalAnswer(answer) => PhaseView::Finished(answer),
            DecisionView::Unparseable => PhaseView::Failed(
                Failure::UnparseableModelOutput(output),
            ),
            DecisionView::ToolRequest { tool, argument } => {
                let index = tool_index(tools, tool, 0);
                if index < tools.len() {
                    PhaseView::ActingWithTool { tool: index, argument }
                } else {
                    PhaseView::Failed(Failure::UnknownTool(tool))
                }
            },
        },
    }
}

/// The run after the provider's reply. Outside `Thinking` a reply changes
/// nothing.
pub open spec fn after_reply(run: RunView, reply: Result<Seq<char>, ProviderErrorView>) -> RunView {
    if run.phase is Thinking {
        RunView { phase: phase_after_reply(run.tools, reply), ..run }
    } else {
        run
    }
}

/// The run after a tool's result: the call joins the trace, and the run
/// thinks again unless the step budget is used up. Outside `ActingWithTool` a
/// result changes nothing.
pub open spec fn after_tool(run: RunView, result: Result<Seq<char>, Seq<char>>) -> RunView {
    match run.phase {
        PhaseView::ActingWithTool { tool, argument } => {
            let entry = TraceEntryView {
                tool: run.tools[tool],
                argument,
                observation: match result {
                    Ok(text) => ObservationView::Output(text),
                    Err(message) => ObservationView::Failure(message),
                },
            };
            RunView {
                trace: run.trace.push(entry),
                phase: if run.trace.len() + 1 >= run.max_steps {
                    PhaseView::Failed(Failure::StepLimitExceeded)
                } else {
                    PhaseView::Thinking
                },
                ..run
            }
        },
        _ => run,
    }
}

/// A provider's reply, as the transitions read it.
pub open spec fn reply_view(reply: Result<String, ProviderError>) -> Result<
    Seq<char>,
    ProviderErrorView,
> {
    match reply {
        Ok(text) => Ok(text@),
        Err(e) => Err(e@),
    }
}

/// A tool's result, as the transitions read it.
pub open spec fn result_view(result: Result<String, String>) -> Result<Seq<char>, Seq<char>> {
    match result {
        Ok(text) => Ok(text@),
        Err(message) => Err(message@),
    }
}

/// What holds of every run that the transitions can reach.
pub open spec fn run_invariant(run: RunView) -> bool {
    &&& run.trace.len() <= run.max_steps
    &&& (run.phase is Thinking || run.phase is ActingWithTool) ==> run.trace.len() < run.max_steps
    &&& run.phase matches PhaseView::ActingWithTool { tool, .. } ==> 0 <= tool < run.tools.len()
    &&& run.phase == PhaseView::Failed(Failure::StepLimitExceeded) ==> run.trace.len()
        == run.max_steps
    &&& run.phase matches PhaseView::Failed(Failure::UnknownTool(name)) ==> !run.tools.contains(
        name,
    )
    &&& !(run.phase matches PhaseView::Failed(Failure::ToolExecutionFailed(_)))
    &&& forall|i: int| 0 <= i < run.trace.len() ==> run.tools.contains(#[trigger] run.trace[i].tool)
}

/// The first position at or after `from` that holds no space, or the end.
fn skip_spaces(text: &[char], from: usize) -> (out: usize)
    requires
        from <= text.len(),
    ensures
        out == spaces_end(text@, from as int),
        from <= out <= text.len(),
{
    let mut i = from;
    while i < text.len() && text[i] == ' '
        invariant
            from <= i <= text.len(),
            spaces_end(text@, from as int) == spaces_end(text@, i as int),
        decreases text.len() - i,
    {
        i += 1;
    }
    i
}

/// The first position at or after `from` that holds a space, or the end.
fn skip_word(text: &[char], from: usize) -> (out: usize)
    requires
        from <= text.len(),
    ensures
        out == word_end(text@, from as int),
        from <= out <= text.len(),
{
    let mut i = from;
    while i < text.len() && text[i] != ' '
        invariant
            from <= i <= text.len(),
            word_end(text@, from as int) == word_end(text@, i as int),
        decreases text.len() - i,
    {
        i += 1;
    }
    i
}

/// The string of the characters of `text` from `from` up to `to`.
fn substring(text: &[char], from: usize, to: usize) -> (out: String)
    requires
        from <= to <= text.len(),
    ensures
        out@ == text@.subrange(from as int, to as int),
{
    let mut out = String::new();
    let mut i = from;
    while i < to
        invariant
            from <= i <= to <= text.len(),
            out@ == text@.subrange(from as int, i as int),
        decreases to - i,
    {
        out.push(text[i]);
        assert(text@.subrange(from as int, i + 1) =~= text@.subrange(from as int, i as int).push(
            text@[i as int],
        ));
        i += 1;
    }
    out
}

/// Reads a model output by the line protocol.
pub fn parse_decision(output: &str) -> (out: Decision)
    ensures
        out@ == decision_of(output@),
{
    let text = chars_of(output);
    let answer = chars_of("final answer:");
    let tool = chars_of("tool:");
    if matches_at(text.as_slice(), 0, answer.as_slice()) {
        let start = skip_spaces(text.as_slice(), answer.len());
        Decision::FinalAnswer(substring(text.as_slice(), start, text.len()))
    } else if matches_at(text.as_slice(), 0, tool.as_slice()) {
        let start = skip_spaces(text.as_slice(), tool.len());
        let end = skip_word(text.as_slice(), start);
        if start == end {
            Decision::Unparseable
        } else {
            let rest = skip_spaces(text.as_slice(), end);
            Decision::ToolRequest {
                tool: substring(text.as_slice(), start, end),
                argument: substring(text.as_slice(), rest, text.len()),
            }
        }
    } else {
        Decision::Unparseable
    }
}

/// The first index at which `names` holds `name`, if any.
fn find_tool(names: &Vec<String>, name: &String) -> (out: Option<usize>)
    ensures
        match out {
            Some(i) => i < names@.len() && i == tool_index(texts(names@), name@, 0),
            None => tool_index(texts(names@), name@, 0) == names@.len(),
        },
{
    let mut i: usize = 0;
    while i < names.len()
        invariant
            i <= names.len(),
            tool_index(texts(names@), name@, 0) == tool_index(texts(names@), name@, i as int),
        decreases names.len() - i,
    {
        if names[i] == *name {
            return Some(i);
        }
        i += 1;
    }
    None
}

/// One run of an agent: the question, the registry's names, the step budget,
/// the completed tool calls and the phase.
#[derive(Debug)]
pub struct AgentRun {
    input: String,
    tools: Vec<String>,
    max_steps: usize,
    trace: Vec<TraceEntry>,
    phase: Phase,
}

/// The views of a sequence of trace entries.
pub open spec fn entry_views(trace: Seq<TraceEntry>) -> Seq<TraceEntryView> {
    trace.map_values(|e: TraceEntry| e@)
}

impl View for AgentRun {
    type V = RunView;

    closed spec fn view(&self) -> RunView {
        RunView {
            input: self.input@,
            tools: texts(self.tools@),
            max_steps: self.max_steps as nat,
            trace: entry_views(self.trace@),
            phase: self.phase@,
        }
    }
}

impl AgentRun {
    /// Whether the run is in a state that the transitions can reach.
    pub open spec fn well_formed(&self) -> bool {
        run_invariant(self@)
    }

    /// A run for the question `input` over the tools named `tools`, with at
    /// most `max_steps` tool calls.
    pub fn new(input: String, tools: Vec<String>, max_steps: usize) -> (out: Self)
        ensures
            out@ == started(input@, texts(tools@), max_steps as nat),
            out.well_formed(),
    {
        let phase = if max_steps == 0 {
            Phase::Failed(AgentError::StepLimitExceeded)
        } else {
            Phase::Thinking
        };
        let out = AgentRun { input, tools, max_steps, trace: Vec::new(), phase };
        assert(out@.trace =~= Seq::<TraceEntryView>::empty());
        out
    }

    /// The phase of the run.
    pub fn phase(&self) -> (out: &Phase)
        ensures
            out@ == self@.phase,
    {
        &self.phase
    }

    /// The number of completed tool calls.
    pub fn steps(&self) -> (out: usize)
        ensures
            out == self@.trace.len(),
    {
        self.trace.len()
    }

    /// The completed tool call at position `index`, oldest first.
    pub fn trace_entry(&self, index: usize) -> (out: &TraceEntry)
        requires
            index < self@.trace.len(),
        ensures
            out@ == self@.trace[index as int],
    {
        &self.trace[index]
    }

    /// Whether the run has ended.
    pub fn is_over(&self) -> (out: bool)
        ensures
            out == (self@.phase is Finished || self@.phase is Failed),
    {
        match &self.phase {
            Phase::Finished(_) => true,
            Phase::Failed(_) => true,
            _ => false,
        }
    }

    /// The prompt of the next reasoning step.
    pub fn prompt(&self) -> (out: String)
        ensures
            out@ == reasoning_prompt(self@.input, self@.trace),
    {
        let mut out = chars_of(
            "Reply with `final answer: <answer>` or with `tool: <name> <argument>`.\n",
        );
        let question = chars_of("question: ");
        let tool = chars_of("tool: ");
        let observation = chars_of("observation: ");
        let error = chars_of("error: ");
        append_chars(&mut out, question.as_slice());
        let input = chars_of(self.input.as_str());
        append_chars(&mut out, input.as_slice());
        out.push('\n');
        let ghost head = out@;
        assert(head =~= instructions() + "question: "@ + self@.input + seq!['\n']);
        let mut i: usize = 0;
        while i < self.trace.len()
            invariant
                i <= self.trace.len(),
                tool@ == "tool: "@,
                observation@ == "observation: "@,
                error@ == "error: "@,
                out@ == head + trace_text(self@.trace.take(i as int)),
            decreases self.trace.len() - i,
        {
            let entry = &self.trace[i];
            let ghost before = out@;
            append_chars(&mut out, tool.as_slice());
            let name = chars_of(entry.tool.as_str());
            append_chars(&mut out, name.as_slice());
            out.push(' ');
            let argument = chars_of(entry.argument.as_str());
            append_chars(&mut out, argument.as_slice());
            out.push('\n');
            match &entry.observation {
                Observation::Output(text) => {
                    append_chars(&mut out, observation.as_slice());
                    let text = chars_of(text.as_str());
                    append_chars(&mut out, text.as_slice());
                },
                Observation::Failure(message) => {
                    append_chars(&mut out, error.as_slice());
                    let message = chars_of(message.as_str());
                    append_chars(&mut out, message.as_slice());
                },
            }
            out.push('\n');
            proof {
                assert(out@ =~= before + trace_lines(entry@));
                assert(self@.trace.take(i + 1).drop_last() =~= self@.trace.take(i as int));
                assert(self@.trace.take(i + 1).last() == entry@);
                assert(out@ =~= head + trace_text(self@.trace.take(i + 1)));
            }
            i += 1;
        }
        assert(self@.trace.take(i as int) =~= self@.trace);
        string_of(out.as_slice())
    }

    /// What the driver has to do next.
    pub fn next_action(&self) -> (out: Action)
        ensures
            match self@.phase {
                PhaseView::Thinking => out matches Action::AskModel { prompt } && prompt@
                    == reasoning_prompt(self@.input, self@.trace),
                PhaseView::ActingWithTool { tool, argument } => out matches Action::CallTool {
                    tool: t,
                    argument: a,
                } && t == tool && a@ == argument,
                _ => out is Stop,
            },
    {
        match &self.phase {
            Phase::Thinking => Action::AskModel { prompt: self.prompt() },
            Phase::ActingWithTool { tool, argument } => Action::CallTool {
                tool: *tool,
                argument: argument.clone(),
            },
            _ => Action::Stop,
        }
    }

    /// Takes the provider's reply to the prompt of a reasoning step.
    pub fn on_model_reply(&mut self, reply: Result<String, ProviderError>)
        requires
            old(self).well_formed(),
        ensures
            final(self)@ == after_reply(old(self)@, reply_view(reply)),
            final(self).well_formed(),
    {
        match &self.phase {
            Phase::Thinking => {},
            _ => {
                return ;
            },
        }
        proof {
            if let Ok(output) = &reply {
                if let DecisionView::ToolRequest { tool, argument } = decision_of(output@) {
                    lemma_tool_index(self@.tools, tool, 0);
                }
            }
        }
        let next = match reply {
            Err(e) => Phase::Failed(AgentError::ProviderFailed(e)),
            Ok(output) => match parse_decision(output.as_str()) {
                Decision::FinalAnswer(answer) => Phase::Finished(answer),
                Decision::Unparseable => Phase::Failed(AgentError::UnparseableModelOutput(output)),
                Decision::ToolRequest { tool, argument } => match find_tool(&self.tools, &tool) {
                    Some(index) => Phase::ActingWithTool { tool: index, argument },
                    None => Phase::Failed(AgentError::UnknownTool(tool)),
                },
            },
        };
        self.phase = next;
    }

    /// Takes the result of the tool call that the run asked for.
    pub fn on_tool_result(&mut self, result: Result<String, String>)
        requires
            old(self).well_formed(),
        ensures
            final(self)@ == after_tool(old(self)@, result_view(result)),
            final(self).well_formed(),
    {
        let (tool, argument) = match &self.phase {
            Phase::ActingWithTool { tool, argument } => (*tool, argument.clone()),
            _ => {
                return ;
            },
        };
        let observation = match result {
            Ok(text) => Observation::Output(text),
            Err(message) => Observation::Failure(message),
        };
        let entry = TraceEntry { tool: self.tools[tool].clone(), argument, observation };
        let ghost entry_view = entry@;
        self.trace.push(entry);
        if self.trace.len() >= self.max_steps {
            self.phase = Phase::Failed(AgentError::StepLimitExceeded);
        } else {
            self.phase = Phase::Thinking;
        }
        proof {
            assert(self@.trace =~= old(self)@.trace.push(entry_view));
            assert(self@.tools[tool as int] == entry_view.tool);
            assert forall|i: int| 0 <= i < self@.trace.len() implies self@.tools.contains(
                #[trigger] self@.trace[i].tool,
            ) by {
                if i < old(self)@.trace.len() {
                    assert(self@.trace[i] == old(self)@.trace[i]);
                }
            }
        }
    }

    /// The result of a run that has ended; `None` while it goes on.
    pub fn into_outcome(self) -> (out: Option<Result<String, AgentError>>)
        ensures
            match self@.phase {
                PhaseView::Finished(answer) => out matches Some(Ok(a)) && a@ == answer,
                PhaseView::Failed(failure) => out matches Some(Err(e)) && e@ == failure,
                _ => out is None,
            },
    {
        match self.phase {
            Phase::Finished(answer) => Some(Ok(answer)),
            Phase::Failed(e) => Some(Err(e)),
            _ => None,
        }
    }
}

/// A tool under the name by which the model asks for it.
pub struct Registered<T: Tool> {
    pub name: String,
    pub tool: T,
}

/// An agent: a provider, a registry of named tools, and a step budget.
pub struct AgentExecutor<L: LLM, T: Tool> {
    provider: L,
    tools: Vec<Registered<T>>,
    max_steps: usize,
}

/// The names of a registry, in order of registration.
pub open spec fn registered_names<T: Tool>(tools: Seq<Registered<T>>) -> Seq<Seq<char>> {
    tools.map_values(|r: Registered<T>| r.name@)
}

/// The number of tool calls that an agent allows unless told otherwise.
pub const DEFAULT_MAX_STEPS: usize = 10;

/// How much of a run is left at most: a measure that every transition of a
/// run in progress lowers.
pub open spec fn remaining(run: RunView) -> int {
    2 * (run.max_steps - run.trace.len()) + if run.phase is Thinking {
        1int
    } else {
        0int
    }
}

impl<L: LLM, T: Tool> AgentExecutor<L, T> {
    /// The names of the registered tools, in order of registration.
    pub closed spec fn tool_names(&self) -> Seq<Seq<char>> {
        registered_names(self.tools@)
    }

    /// The step budget.
    pub closed spec fn step_budget(&self) -> nat {
        self.max_steps as nat
    }

    /// The provider as it is now.
    pub closed spec fn provider_state(&self) -> L {
        self.provider
    }

    /// An agent over `provider` with no tools and the default step budget.
    pub fn new(provider: L) -> (out: Self)
        ensures
            out.tool_names() == Seq::<Seq<char>>::empty(),
            out.step_budget() == DEFAULT_MAX_STEPS,
            out.provider_state() == provider,
    {
        let out = AgentExecutor { provider, tools: Vec::new(), max_steps: DEFAULT_MAX_STEPS };
        assert(out.tool_names() =~= Seq::<Seq<char>>::empty());
        out
    }

    /// The same agent with the step budget `max_steps`.
    pub fn with_max_steps(self, max_steps: usize) -> (out: Self)
        ensures
            out.tool_names() == self.tool_names(),
            out.step_budget() == max_steps,
            out.provider_state() == self.provider_state(),
    {
        AgentExecutor { provider: self.provider, tools: self.tools, max_steps }
    }

    /// The same agent with `tool` registered under `name`, after the tools
    /// registered before. Where a name is registered twice the earlier tool
    /// answers to it.
    pub fn with_tool(self, name: String, tool: T) -> (out: Self)
        ensures
            out.tool_names() == self.tool_names().push(name@),
            out.step_budget() == self.step_budget(),
            out.provider_state() == self.provider_state(),
    {
        let mut tools = self.tools;
        tools.push(Registered { name, tool });
        let out = AgentExecutor { provider: self.provider, tools, max_steps: self.max_steps };
        assert(out.tool_names() =~= self.tool_names().push(name@));
        out
    }

    /// The provider.
    pub fn provider(&self) -> (out: &L)
        ensures
            *out == self.provider_state(),
    {
        &self.provider
    }

    /// The number of registered tools.
    pub fn tool_count(&self) -> (out: usize)
        ensures
            out == self.tool_names().len(),
    {
        self.tools.len()
    }

    /// The tool registered at position `index`.
    pub fn tool(&self, index: usize) -> (out: &Registered<T>)
        requires
            index < self.tool_names().len(),
        ensures
            out.name@ == self.tool_names()[index as int],
    {
        &self.tools[index]
    }

    /// The names of the registered tools.
    fn names(&self) -> (out: Vec<String>)
        ensures
            texts(out@) == self.tool_names(),
    {
        let mut out: Vec<String> = Vec::new();
        let mut i: usize = 0;
        while i < self.tools.len()
            invariant
                i <= self.tools.len(),
                out@.len() == i,
                forall|j: int| 0 <= j < i ==> (#[trigger] out@[j])@ == self.tools@[j].name@,
            decreases self.tools.len() - i,
        {
            out.push(self.tools[i].name.clone());
            i += 1;
        }
        assert(texts(out@) =~= self.tool_names());
        out
    }

    /// Runs the loop for the question `input` until the run has ended, and
    /// returns the run with its trace.
    ///
    /// The provider is asked once per reasoning step and a tool is called once
    /// per request; what they answer decides the course of the run by the
    /// transitions `after_reply` and `after_tool`.
    pub fn run(&mut self, input: &str) -> (out: AgentRun)
        ensures
            out.well_formed(),
            out@.phase is Finished || out@.phase is Failed,
            out@.input == input@,
            out@.tools == old(self).tool_names(),
            out@.max_steps == old(self).step_budget(),
            old(self).step_budget() == 0 ==> out@ == started(input@, old(self).tool_names(), 0)
                && final(self).provider_state() == old(self).provider_state(),
            reachable(started(input@, old(self).tool_names(), old(self).step_budget()), out@),
            final(self).tool_names() == old(self).tool_names(),
            final(self).step_budget() == old(self).step_budget(),
    {
        let mut run = AgentRun::new(String::from_str(input), self.names(), self.max_steps);
        let ghost start = run@;
        let ghost mut rounds: Seq<Round> = Seq::empty();
        let ghost mut last: Option<Result<Seq<char>, ProviderErrorView>> = None;
        loop
            invariant
                start == started(input@, old(self).tool_names(), old(self).step_budget()),
                run@ == reached(start, rounds, last),
                last is Some ==> after_rounds(start, rounds).phase is Thinking,
                run.well_formed(),
                run@.input == input@,
                run@.tools == self.tool_names(),
                run@.max_steps == self.step_budget(),
                self.tool_names() == old(self).tool_names(),
                self.step_budget() == old(self).step_budget(),
                self.step_budget() == 0 ==> run@ == started(input@, self.tool_names(), 0)
                    && self.provider_state() == old(self).provider_state(),
            decreases remaining(run@),
        {
            match run.next_action() {
                Action::Stop => {
                    return run;
                },
                Action::AskModel { prompt } => {
                    let reply = self.provider.generate(prompt.as_str());
                    proof {
                        assert(last is None);
                        last = Some(reply_view(reply));
                    }
                    run.on_model_reply(reply);
                },
                Action::CallTool { tool, argument } => {
                    let ghost names = self.tool_names();
                    let result = self.tools[tool].tool.call(argument.as_str());
                    assert(self.tool_names() =~= names);
                    proof {
                        lemma_rounds_leave_no_call_open(start, rounds);
                        let output = last->Some_0->Ok_0;
                        let round = Round { output, result: result_view(result) };
                        assert(rounds.push(round).drop_last() =~= rounds);
                        rounds = rounds.push(round);
                        last = None;
                    }
                    run.on_tool_result(result);
                },
            }
        }
    }

    /// Answers the question `input`: the final answer of the run, or the
    /// reason why the run failed.
    pub fn execute(&mut self, input: &str) -> (out: Result<String, AgentError>)
        ensures
            old(self).step_budget() == 0 ==> out matches Err(AgentError::StepLimitExceeded),
            !(out matches Err(AgentError::ToolExecutionFailed(_))),
            out matches Err(AgentError::UnknownTool(name)) ==> !old(self).tool_names().contains(
                name@,
            ),
            exists|end: RunView|
                reachable(
                    started(input@, old(self).tool_names(), old(self).step_budget()),
                    end,
                ) && match out {
                    Ok(answer) => end.phase == PhaseView::Finished(answer@),
                    Err(e) => end.phase == PhaseView::Failed(e@),
                },
            final(self).tool_names() == old(self).tool_names(),
            final(self).step_budget() == old(self).step_budget(),
    {
        let run = self.run(input);
        match run.into_outcome() {
            Some(outcome) => outcome,
            None => Err(AgentError::StepLimitExceeded),
        }
    }
}

/// One round of a run: what the model said and what the tool it asked for
/// gave back.
pub struct Round {
    pub output: Seq<char>,
    pub result: Result<Seq<char>, Seq<char>>,
}

/// The run after each of `rounds` in order: the model's reply, then the
/// tool's result.
pub open spec fn after_rounds(run: RunView, rounds: Seq<Round>) -> RunView
    decreases rounds.len(),
{
    if rounds.len() == 0 {
        run
    } else {
        after_tool(
            after_reply(after_rounds(run, rounds.drop_last()), Ok(rounds.last().output)),
            rounds.last().result,
        )
    }
}

/// The run that `start` has come to after `rounds` and, where `last` is
/// given, one more reply of the provider.
pub open spec fn reached(
    start: RunView,
    rounds: Seq<Round>,
    last: Option<Result<Seq<char>, ProviderErrorView>>,
) -> RunView {
    match last {
        None => after_rounds(start, rounds),
        Some(reply) => after_reply(after_rounds(start, rounds), reply),
    }
}

/// The transitions lead from `start` to `end` for some replies of the
/// provider and some results of the tools.
pub open spec fn reachable(start: RunView, end: RunView) -> bool {
    exists|rounds: Seq<Round>, last: Option<Result<Seq<char>, ProviderErrorView>>|
        end == reached(start, rounds, last)
}

/// After whole rounds no tool call is pending.
pub proof fn lemma_rounds_leave_no_call_open(start: RunView, rounds: Seq<Round>)
    requires
        !(start.phase is ActingWithTool),
    ensures
        !(after_rounds(start, rounds).phase is ActingWithTool),
    decreases rounds.len(),
{
    if rounds.len() > 0 {
        lemma_rounds_leave_no_call_open(start, rounds.drop_last());
    }
}

/// The model output asks for a tool that `tools` holds.
pub open spec fn requests_known_tool(tools: Seq<Seq<char>>, output: Seq<char>) -> bool {
    decision_of(output) matches DecisionView::ToolRequest { tool, .. } && tools.contains(tool)
}

/// The transitions keep a run well formed.
pub proof fn lemma_transitions_keep_invariant(
    run: RunView,
    reply: Result<Seq<char>, ProviderErrorView>,
    result: Result<Seq<char>, Seq<char>>,
)
    requires
        run_invariant(run),
    ensures
        run_invariant(after_reply(run, reply)),
        run_invariant(after_tool(run, result)),
{
    match reply {
        Ok(output) => match decision_of(output) {
            DecisionView::ToolRequest { tool, argument } => {
                lemma_tool_index(run.tools, tool, 0);
            },
            _ => {},
        },
        _ => {},
    }
    let next = after_tool(run, result);
    assert forall|i: int| 0 <= i < next.trace.len() implies next.tools.contains(
        #[trigger] next.trace[i].tool,
    ) by {
        if i < run.trace.len() {
            assert(next.trace[i] == run.trace[i]);
        }
    }
}

/// The text `final answer: ` followed by an answer that does not begin with a
/// space is read as that final answer.
pub proof fn lemma_final_answer_form(answer: Seq<char>)
    requires
        answer.len() == 0 || answer[0] != ' ',
    ensures
        decision_of("final answer: "@ + answer) == DecisionView::FinalAnswer(answer),
{
    reveal_strlit("final answer:");
    reveal_strlit("final answer: ");
    let output = "final answer: "@ + answer;
    assert(output.subrange(0, 13) =~= answer_mark());
    assert(output[13] == ' ');
    assert(spaces_end(output, 13) == spaces_end(output, 14));
    assert(spaces_end(output, 14) == 14) by {
        if answer.len() > 0 {
            assert(output[14] == answer[0]);
        }
    }
    assert(output.skip(14) =~= answer);
}

/// A final answer ends the run at once: the run finishes with the answer and
/// its trace is as before, so no tool is called for it.
pub proof fn lemma_final_answer_ends_run(run: RunView, output: Seq<char>, answer: Seq<char>)
    requires
        run.phase is Thinking,
        decision_of(output) == DecisionView::FinalAnswer(answer),
    ensures
        after_reply(run, Ok(output)) == (RunView { phase: PhaseView::Finished(answer), ..run }),
        after_reply(run, Ok(output)).trace == run.trace,
{
}

/// A request for a tool that is not registered fails the run at once with
/// the name that was asked for, and no tool is called.
pub proof fn lemma_unknown_tool_fails_run(
    run: RunView,
    output: Seq<char>,
    tool: Seq<char>,
    argument: Seq<char>,
)
    requires
        run.phase is Thinking,
        decision_of(output) == (DecisionView::ToolRequest { tool, argument }),
        !run.tools.contains(tool),
    ensures
        after_reply(run, Ok(output)) == (RunView {
            phase: PhaseView::Failed(Failure::UnknownTool(tool)),
            ..run
        }),
{
    lemma_tool_index(run.tools, tool, 0);
}

/// A model that asks for a registered tool in every round uses up the step
/// budget and nothing less: after fewer rounds than the budget allows the run
/// still thinks, and after exactly as many it has failed with the step limit.
/// Each round adds one call to the trace.
pub proof fn lemma_tool_requests_exhaust_budget(
    input: Seq<char>,
    tools: Seq<Seq<char>>,
    max_steps: nat,
    rounds: Seq<Round>,
)
    requires
        rounds.len() <= max_steps,
        forall|i: int|
            0 <= i < rounds.len() ==> requests_known_tool(tools, (#[trigger] rounds[i]).output),
    ensures
        after_rounds(started(input, tools, max_steps), rounds).trace.len() == rounds.len(),
        after_rounds(started(input, tools, max_steps), rounds).tools == tools,
        after_rounds(started(input, tools, max_steps), rounds).max_steps == max_steps,
        after_rounds(started(input, tools, max_steps), rounds).phase == if rounds.len()
            == max_steps {
            PhaseView::Failed(Failure::StepLimitExceeded)
        } else {
            PhaseView::Thinking
        },
    decreases rounds.len(),
{
    if rounds.len() > 0 {
        let earlier = rounds.drop_last();
        assert forall|i: int| 0 <= i < earlier.len() implies requests_known_tool(
            tools,
            (#[trigger] earlier[i]).output,
        ) by {
            assert(earlier[i] == rounds[i]);
        }
        lemma_tool_requests_exhaust_budget(input, tools, max_steps, earlier);
        let before = after_rounds(started(input, tools, max_steps), earlier);
        let last = rounds.last();
        assert(requests_known_tool(tools, last.output));
        match decision_of(last.output) {
            DecisionView::ToolRequest { tool, argument } => {
                lemma_tool_index(tools, tool, 0);
                let index = tool_index(tools, tool, 0);
                assert(index < tools.len()) by {
                    if index == tools.len() {
                        let j = choose|j: int| 0 <= j < tools.len() && tools[j] == tool;
                        assert(tools[j] != tool);
                    }
                }
            },
            _ => {},
        }
    }
}

} // verus!
