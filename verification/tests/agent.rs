use mini_langchain::agent::{
    parse_decision, Action, AgentError, AgentExecutor, AgentRun, Decision, Observation, Phase, Tool,
    DEFAULT_MAX_STEPS,
};
use mini_langchain::llm::{ProviderError, LLM};

/// Replays `script` in order, then repeats its last output; counts its calls.
struct Scripted {
    script: Vec<Result<String, String>>,
    calls: usize,
    prompts: Vec<String>,
}

impl Scripted {
    fn saying(outputs: &[&str]) -> Scripted {
        Scripted { script: outputs.iter().map(|s| Ok(s.to_string())).collect(), calls: 0, prompts: Vec::new() }
    }
}

impl LLM for Scripted {
    fn generate(&mut self, prompt: &str) -> Result<String, ProviderError> {
        let index = self.calls.min(self.script.len() - 1);
        self.calls += 1;
        self.prompts.push(prompt.to_string());
        match &self.script[index] {
            Ok(s) => Ok(s.clone()),
            Err(m) => Err(ProviderError::Transport(m.clone())),
        }
    }
}

/// Upper-cases its argument; fails on the argument "boom".
struct Upper {
    calls: usize,
}

impl Tool for Upper {
    fn call(&mut self, argument: &str) -> Result<String, String> {
        self.calls += 1;
        if argument == "boom" {
            Err("exploded".to_string())
        } else {
            Ok(argument.to_uppercase())
        }
    }
}

fn agent(outputs: &[&str], max_steps: usize) -> AgentExecutor<Scripted, Upper> {
    AgentExecutor::new(Scripted::saying(outputs))
        .with_tool("upper".to_string(), Upper { calls: 0 })
        .with_max_steps(max_steps)
}

#[test]
fn parse_final_answer() {
    match parse_decision("final answer: 42") {
        Decision::FinalAnswer(a) => assert_eq!(a, "42"),
        other => panic!("unexpected decision: {:?}", other),
    }
    match parse_decision("final answer:no space") {
        Decision::FinalAnswer(a) => assert_eq!(a, "no space"),
        other => panic!("unexpected decision: {:?}", other),
    }
    match parse_decision("final answer:") {
        Decision::FinalAnswer(a) => assert_eq!(a, ""),
        other => panic!("unexpected decision: {:?}", other),
    }
}

#[test]
fn parse_tool_request() {
    match parse_decision("tool: search  rust verification ") {
        Decision::ToolRequest { tool, argument } => {
            assert_eq!(tool, "search");
            assert_eq!(argument, "rust verification ");
        }
        other => panic!("unexpected decision: {:?}", other),
    }
    match parse_decision("tool:clock") {
        Decision::ToolRequest { tool, argument } => {
            assert_eq!(tool, "clock");
            assert_eq!(argument, "");
        }
        other => panic!("unexpected decision: {:?}", other),
    }
}

#[test]
fn parse_rejects_other_output() {
    assert!(matches!(parse_decision("I think the answer is 42"), Decision::Unparseable));
    assert!(matches!(parse_decision(""), Decision::Unparseable));
    assert!(matches!(parse_decision("tool:"), Decision::Unparseable));
    assert!(matches!(parse_decision("tool:   "), Decision::Unparseable));
    assert!(matches!(parse_decision(" final answer: x"), Decision::Unparseable));
    assert!(matches!(parse_decision("Final Answer: x"), Decision::Unparseable));
}

#[test]
fn final_answer_on_first_step_calls_no_tool() {
    let mut a = agent(&["final answer: X"], 3);
    assert_eq!(a.execute("q").unwrap(), "X");
    assert_eq!(a.provider().calls, 1);
    assert_eq!(a.tool(0).tool.calls, 0);
}

#[test]
fn unknown_tool_fails_on_first_step() {
    let mut a = agent(&["tool: missing arg"], 3);
    match a.execute("q") {
        Err(AgentError::UnknownTool(name)) => assert_eq!(name, "missing"),
        other => panic!("unexpected outcome: {:?}", other),
    }
    assert_eq!(a.provider().calls, 1);
    assert_eq!(a.tool(0).tool.calls, 0);
}

#[test]
fn valid_tool_forever_hits_step_limit_after_max_steps() {
    let mut a = agent(&["tool: upper abc"], 4);
    let run = a.run("q");
    assert!(matches!(run.phase(), Phase::Failed(AgentError::StepLimitExceeded)));
    assert_eq!(run.steps(), 4);
    assert_eq!(a.provider().calls, 4);
    assert_eq!(a.tool(0).tool.calls, 4);
}

#[test]
fn zero_steps_fails_without_asking() {
    let mut a = agent(&["final answer: X"], 0);
    assert!(matches!(a.execute("q"), Err(AgentError::StepLimitExceeded)));
    assert_eq!(a.provider().calls, 0);
}

#[test]
fn provider_failure_aborts_the_run() {
    let provider = Scripted { script: vec![Err("offline".to_string())], calls: 0, prompts: Vec::new() };
    let mut a: AgentExecutor<Scripted, Upper> = AgentExecutor::new(provider);
    match a.execute("q") {
        Err(AgentError::ProviderFailed(ProviderError::Transport(m))) => assert_eq!(m, "offline"),
        other => panic!("unexpected outcome: {:?}", other),
    }
}

#[test]
fn unparseable_output_is_fatal() {
    let mut a = agent(&["hmm"], 3);
    match a.execute("q") {
        Err(AgentError::UnparseableModelOutput(text)) => assert_eq!(text, "hmm"),
        other => panic!("unexpected outcome: {:?}", other),
    }
}

#[test]
fn tool_result_is_fed_back_and_answer_follows() {
    let mut a = agent(&["tool: upper abc", "final answer: ABC"], 5);
    let run = a.run("shout abc");
    assert!(matches!(run.phase(), Phase::Finished(answer) if answer == "ABC"));
    assert_eq!(run.steps(), 1);
    let entry = run.trace_entry(0);
    assert_eq!(entry.tool, "upper");
    assert_eq!(entry.argument, "abc");
    assert!(matches!(&entry.observation, Observation::Output(text) if text == "ABC"));
    let prompts = &a.provider().prompts;
    assert_eq!(
        prompts[0],
        "Reply with `final answer: <answer>` or with `tool: <name> <argument>`.\nquestion: shout abc\n"
    );
    assert_eq!(
        prompts[1],
        "Reply with `final answer: <answer>` or with `tool: <name> <argument>`.\nquestion: shout abc\ntool: upper abc\nobservation: ABC\n"
    );
}

#[test]
fn tool_failure_is_recorded_and_the_run_goes_on() {
    let mut a = agent(&["tool: upper boom", "final answer: gave up"], 5);
    let run = a.run("q");
    assert!(matches!(run.phase(), Phase::Finished(answer) if answer == "gave up"));
    assert!(matches!(&run.trace_entry(0).observation, Observation::Failure(m) if m == "exploded"));
    assert!(a.provider().prompts[1].ends_with("tool: upper boom\nerror: exploded\n"));
}

#[test]
fn default_agent_has_no_tools() {
    let a: AgentExecutor<Scripted, Upper> = AgentExecutor::new(Scripted::saying(&["final answer: x"]));
    assert_eq!(a.tool_count(), 0);
    assert_eq!(DEFAULT_MAX_STEPS, 10);
}

#[test]
fn first_registered_tool_answers_to_a_repeated_name() {
    let mut a = AgentExecutor::new(Scripted::saying(&["tool: upper x", "final answer: done"]))
        .with_tool("upper".to_string(), Upper { calls: 0 })
        .with_tool("upper".to_string(), Upper { calls: 0 });
    assert_eq!(a.execute("q").unwrap(), "done");
    assert_eq!(a.tool(0).tool.calls, 1);
    assert_eq!(a.tool(1).tool.calls, 0);
}

#[test]
fn run_state_machine_by_hand() {
    let mut run = AgentRun::new("q".to_string(), vec!["t".to_string()], 2);
    assert!(!run.is_over());
    assert!(matches!(run.next_action(), Action::AskModel { .. }));
    run.on_tool_result(Ok("ignored".to_string()));
    assert_eq!(run.steps(), 0);
    run.on_model_reply(Ok("tool: t a".to_string()));
    match run.next_action() {
        Action::CallTool { tool, argument } => {
            assert_eq!(tool, 0);
            assert_eq!(argument, "a");
        }
        other => panic!("unexpected action: {:?}", other),
    }
    run.on_model_reply(Ok("final answer: ignored".to_string()));
    assert!(matches!(run.phase(), Phase::ActingWithTool { .. }));
    run.on_tool_result(Ok("r".to_string()));
    assert!(matches!(run.phase(), Phase::Thinking));
    run.on_model_reply(Ok("tool: t b".to_string()));
    run.on_tool_result(Err("bad".to_string()));
    assert!(run.is_over());
    assert!(matches!(run.next_action(), Action::Stop));
    assert!(matches!(run.into_outcome(), Some(Err(AgentError::StepLimitExceeded))));
}

#[test]
fn outcome_of_a_run_in_progress_is_none() {
    let run = AgentRun::new("q".to_string(), vec![], 1);
    assert!(run.into_outcome().is_none());
}

#[test]
fn failed_call_stands_for_a_tool_execution_error() {
    let mut a = agent(&["tool: upper boom", "tool: upper ok", "final answer: done"], 5);
    let run = a.run("q");
    match run.trace_entry(0).failure() {
        Some(AgentError::ToolExecutionFailed(message)) => assert_eq!(message, "exploded"),
        other => panic!("unexpected failure: {:?}", other),
    }
    assert!(run.trace_entry(1).failure().is_none());
}
