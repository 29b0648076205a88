//! The chain: one request/response unit made of a prompt template, a model
//! provider and, optionally, conversation memory and a response cache.
//!
//! A call renders the prompt, looks the prompt up in the cache, asks the
//! provider on a miss, stores the completion, and appends the exchange to the
//! memory. A cache hit appends to the memory exactly as a fresh completion
//! does. A call that fails changes neither memory nor cache.

use vstd::prelude::*;
use vstd::string::StringExecFns;
use crate::cache::InMemoryCache;
use crate::llm::{ProviderError, LLM};
use crate::memory::{transcript_of, ConversationBufferMemory, Role};
use crate::prompt::{
    format_outcome, lemma_format_reads_declared_only, PromptTemplate, TemplateError,
};
use crate::strmap::StringMap;
use crate::text::chars_of;

verus! {

/// Why a chain call failed.
#[derive(Debug)]
pub enum ChainError {
    /// The prompt could not be rendered.
    Template(TemplateError),
    /// The provider failed.
    Provider(ProviderError),
    /// No cache key can be derived for this chain's model name.
    CacheKeyDerivation,
}

/// What a chain has found out before any provider call.
#[derive(Debug)]
pub enum Lookup {
    /// The cache holds `value` for the rendered `prompt`.
    Hit { prompt: String, value: String },
    /// The provider has to be asked to complete `prompt`.
    Miss { prompt: String },
}

/// What a chain keeps between calls: its template, the model name that cache
/// keys are derived from, and the memory and cache attached to it.
pub struct ChainState {
    prompt: PromptTemplate,
    model: String,
    memory: Option<ConversationBufferMemory>,
    cache: Option<InMemoryCache>,
}

/// A chain over the provider type `L`: its state and its provider.
pub struct Chain<L: LLM> {
    state: ChainState,
    provider: L,
}

/// What the state of a chain is.
pub struct ChainView {
    pub template: Seq<char>,
    pub variables: Seq<Seq<char>>,
    pub model: Seq<char>,
    pub memory: Option<Seq<(Role, Seq<char>)>>,
    pub cache: Option<Map<Seq<char>, Seq<char>>>,
}

/// What the first phase of a call decides.
pub enum Plan {
    /// Rendering fails: the named declared variable has no value.
    MissingVariable(Seq<char>),
    /// A cache is attached and the model name admits no cache key.
    KeyUnderivable,
    /// The cache holds `value` for `prompt`.
    Hit { prompt: Seq<char>, value: Seq<char> },
    /// The provider is to be asked to complete `prompt`.
    Miss { prompt: Seq<char> },
}

/// The variable under which the memory's transcript is offered to the template.
pub open spec fn history_variable() -> Seq<char> {
    "history"@
}

/// The input that is recorded as the user's turn, where the inputs have it.
pub open spec fn input_variable() -> Seq<char> {
    "input"@
}

/// The values that the template is rendered with: the inputs and, with a
/// memory attached, the transcript under the history variable.
pub open spec fn effective_values(
    inputs: Map<Seq<char>, Seq<char>>,
    memory: Option<Seq<(Role, Seq<char>)>>,
) -> Map<Seq<char>, Seq<char>> {
    match memory {
        Some(turns) => inputs.insert(history_variable(), transcript_of(turns)),
        None => inputs,
    }
}

/// A cache key exists for a model name that holds no line feed.
pub open spec fn key_derivable(model: Seq<char>) -> bool {
    !model.contains('\n')
}

/// The cache key of a rendered prompt for a model: name, line feed, prompt.
pub open spec fn cache_key(model: Seq<char>, prompt: Seq<char>) -> Seq<char> {
    model + seq!['\n'] + prompt
}

/// The text of the user's turn: the input named `input` where there is one,
/// else the rendered prompt.
pub open spec fn user_text(inputs: Map<Seq<char>, Seq<char>>, prompt: Seq<char>) -> Seq<char> {
    if inputs.contains_key(input_variable()) {
        inputs[input_variable()]
    } else {
        prompt
    }
}

/// What a call on the chain `c` with `inputs` decides before any provider call.
pub open spec fn plan(c: ChainView, inputs: Map<Seq<char>, Seq<char>>) -> Plan {
    match format_outcome(c.template, c.variables, effective_values(inputs, c.memory)) {
        Err(name) => Plan::MissingVariable(name),
        Ok(prompt) => match c.cache {
            None => Plan::Miss { prompt },
            Some(cache) => if !key_derivable(c.model) {
                Plan::KeyUnderivable
            } else if cache.contains_key(cache_key(c.model, prompt)) {
                Plan::Hit { prompt, value: cache[cache_key(c.model, prompt)] }
            } else {
                Plan::Miss { prompt }
            },
        },
    }
}

/// The chain `c` after the completion of `prompt` has been recorded: the
/// cache holds it under the prompt's key, and the memory ends with the user's
/// turn and the assistant's.
pub open spec fn recorded(
    c: ChainView,
    inputs: Map<Seq<char>, Seq<char>>,
    prompt: Seq<char>,
    completion: Seq<char>,
) -> ChainView {
    ChainView {
        memory: match c.memory {
            Some(turns) => Some(
                turns.push((Role::User, user_text(inputs, prompt))).push(
                    (Role::Assistant, completion),
                ),
            ),
            None => None,
        },
        cache: match c.cache {
            Some(cache) => Some(cache.insert(cache_key(c.model, prompt), completion)),
            None => None,
        },
        ..c
    }
}

/// The log that `exchanges` leave behind when recorded one after the other on
/// top of `turns`: for each exchange the user's turn, then the assistant's.
pub open spec fn replayed(
    turns: Seq<(Role, Seq<char>)>,
    exchanges: Seq<(Seq<char>, Seq<char>)>,
) -> Seq<(Role, Seq<char>)>
    decreases exchanges.len(),
{
    if exchanges.len() == 0 {
        turns
    } else {
        replayed(turns, exchanges.drop_last()).push((Role::User, exchanges.last().0)).push(
            (Role::Assistant, exchanges.last().1),
        )
    }
}

impl View for ChainState {
    type V = ChainView;

    closed spec fn view(&self) -> ChainView {
        ChainView {
            template: self.prompt.template_text(),
            variables: self.prompt.variable_names(),
            model: self.model@,
            memory: match self.memory {
                Some(m) => Some(m@),
                None => None,
            },
            cache: match self.cache {
                Some(c) => Some(c@),
                None => None,
            },
        }
    }
}

impl<L: LLM> View for Chain<L> {
    type V = ChainView;

    closed spec fn view(&self) -> ChainView {
        self.state@
    }
}

/// Whether `model` holds no line feed.
fn model_admits_key(model: &String) -> (out: bool)
    ensures
        out == key_derivable(model@),
{
    let chars = chars_of(model.as_str());
    let mut i: usize = 0;
    while i < chars.len()
        invariant
            i <= chars.len(),
            chars@ == model@,
            forall|j: int| 0 <= j < i ==> chars@[j] != '\n',
        decreases chars.len() - i,
    {
        if chars[i] == '\n' {
            return false;
        }
        i += 1;
    }
    true
}

/// The cache key of `prompt` for `model`.
fn derive_key(model: &String, prompt: &String) -> (out: String)
    ensures
        out@ == cache_key(model@, prompt@),
{
    let mut key = model.clone();
    key.push('\n');
    key.append(prompt.as_str());
    assert(key@ =~= cache_key(model@, prompt@));
    key
}

impl ChainState {
    /// The state of a chain of `prompt` for the model named `model`, with
    /// `memory` where one is given and without a cache.
    pub fn new(prompt: PromptTemplate, model: String, memory: Option<ConversationBufferMemory>) -> (out:
        Self)
        ensures
            out@ == (ChainView {
                template: prompt.template_text(),
                variables: prompt.variable_names(),
                model: model@,
                memory: match memory {
                    Some(m) => Some(m@),
                    None => None,
                },
                cache: None,
            }),
    {
        ChainState { prompt, model, memory, cache: None }
    }

    /// The same state with `memory` attached in place of any earlier one.
    pub fn with_memory(self, memory: ConversationBufferMemory) -> (out: Self)
        ensures
            out@ == (ChainView { memory: Some(memory@), ..self@ }),
    {
        ChainState { prompt: self.prompt, model: self.model, memory: Some(memory), cache: self.cache }
    }

    /// The same state with `cache` attached in place of any earlier one.
    pub fn with_cache(self, cache: InMemoryCache) -> (out: Self)
        ensures
            out@ == (ChainView { cache: Some(cache@), ..self@ }),
    {
        ChainState { prompt: self.prompt, model: self.model, memory: self.memory, cache: Some(cache) }
    }

    /// The attached memory, if any.
    pub fn memory(&self) -> (out: Option<&ConversationBufferMemory>)
        ensures
            match out {
                Some(m) => self@.memory == Some(m@),
                None => self@.memory is None,
            },
    {
        self.memory.as_ref()
    }

    /// The attached cache, if any.
    pub fn cache(&self) -> (out: Option<&InMemoryCache>)
        ensures
            match out {
                Some(c) => self@.cache == Some(c@),
                None => self@.cache is None,
            },
    {
        self.cache.as_ref()
    }

    /// The model name that cache keys are derived from.
    pub fn model(&self) -> (out: &String)
        ensures
            out@ == self@.model,
    {
        &self.model
    }

    /// The first phase of a call: renders the prompt and consults the cache.
    /// Nothing is changed and the provider is not called.
    pub fn begin(&self, inputs: &StringMap) -> (out: Result<Lookup, ChainError>)
        ensures
            match plan(self@, inputs@) {
                Plan::MissingVariable(name) => out matches Err(
                    ChainError::Template(TemplateError::MissingVariable(n)),
                ) && n@ == name,
                Plan::KeyUnderivable => out matches Err(ChainError::CacheKeyDerivation),
                Plan::Hit { prompt, value } => out matches Ok(Lookup::Hit { prompt: p, value: v })
                    && p@ == prompt && v@ == value,
                Plan::Miss { prompt } => out matches Ok(Lookup::Miss { prompt: p }) && p@ == prompt,
            },
    {
        let rendering = match &self.memory {
            Some(memory) => {
                let mut values = inputs.clone();
                values.insert(String::from_str("history"), memory.transcript());
                self.prompt.format(&values)
            },
            None => self.prompt.format(inputs),
        };
        let prompt = match rendering {
            Ok(prompt) => prompt,
            Err(e) => {
                return Err(ChainError::Template(e));
            },
        };
        match &self.cache {
            None => Ok(Lookup::Miss { prompt }),
            Some(cache) => {
                if !model_admits_key(&self.model) {
                    return Err(ChainError::CacheKeyDerivation);
                }
                let key = derive_key(&self.model, &prompt);
                match cache.get(&key) {
                    Some(value) => Ok(Lookup::Hit { prompt, value }),
                    None => Ok(Lookup::Miss { prompt }),
                }
            },
        }
    }

    /// Records the completion of `prompt`: stores it in the cache, where one
    /// is attached and a key can be derived, and appends the user's turn and
    /// the assistant's to the memory, where one is attached.
    pub fn record(&mut self, inputs: &StringMap, prompt: &String, completion: &String)
        ensures
            final(self)@ == recorded(old(self)@, inputs@, prompt@, completion@),
    {
        match &mut self.cache {
            Some(cache) => {
                let key = derive_key(&self.model, prompt);
                cache.set(key, completion.clone());
            },
            None => {},
        }
        match &mut self.memory {
            Some(memory) => {
                let user = match inputs.get(&String::from_str("input")) {
                    Some(text) => text.clone(),
                    None => prompt.clone(),
                };
                memory.append(Role::User, user);
                memory.append(Role::Assistant, completion.clone());
            },
            None => {},
        }
    }

    /// The second phase of a call on a cache miss: takes the provider's reply
    /// to `prompt`. A failure is handed on and changes nothing; a completion
    /// is recorded and returned.
    pub fn settle(
        &mut self,
        inputs: &StringMap,
        prompt: &String,
        reply: Result<String, ProviderError>,
    ) -> (out: Result<String, ChainError>)
        ensures
            match reply {
                Ok(completion) => out == Ok::<String, ChainError>(completion) && final(self)@
                    == recorded(old(self)@, inputs@, prompt@, completion@),
                Err(e) => out == Err::<String, ChainError>(ChainError::Provider(e)) && final(self)@
                    == old(self)@,
            },
    {
        match reply {
            Ok(completion) => {
                self.record(inputs, prompt, &completion);
                Ok(completion)
            },
            Err(e) => Err(ChainError::Provider(e)),
        }
    }
}

impl<L: LLM> Chain<L> {
    /// The provider as it is now.
    pub closed spec fn provider_state(&self) -> L {
        self.provider
    }

    /// A chain of `prompt` and `provider`, with `memory` where one is given
    /// and without a cache. `model` names the provider's model: cache keys are
    /// derived from it.
    pub fn new(
        prompt: PromptTemplate,
        provider: L,
        model: String,
        memory: Option<ConversationBufferMemory>,
    ) -> (out: Self)
        ensures
            out@ == (ChainView {
                template: prompt.template_text(),
                variables: prompt.variable_names(),
                model: model@,
                memory: match memory {
                    Some(m) => Some(m@),
                    None => None,
                },
                cache: None,
            }),
            out.provider_state() == provider,
    {
        Chain { state: ChainState::new(prompt, model, memory), provider }
    }

    /// The same chain with `memory` attached in place of any earlier one.
    pub fn with_memory(self, memory: ConversationBufferMemory) -> (out: Self)
        ensures
            out@ == (ChainView { memory: Some(memory@), ..self@ }),
            out.provider_state() == self.provider_state(),
    {
        Chain { state: self.state.with_memory(memory), provider: self.provider }
    }

    /// The same chain with `cache` attached in place of any earlier one.
    pub fn with_cache(self, cache: InMemoryCache) -> (out: Self)
        ensures
            out@ == (ChainView { cache: Some(cache@), ..self@ }),
            out.provider_state() == self.provider_state(),
    {
        Chain { state: self.state.with_cache(cache), provider: self.provider }
    }

    /// The chain's state.
    pub fn state(&self) -> (out: &ChainState)
        ensures
            out@ == self@,
    {
        &self.state
    }

    /// The provider.
    pub fn provider(&self) -> (out: &L)
        ensures
            *out == self.provider_state(),
    {
        &self.provider
    }

    /// The chain's state and its provider, each on its own.
    pub fn into_parts(self) -> (out: (ChainState, L))
        ensures
            out.0@ == self@,
            out.1 == self.provider_state(),
    {
        (self.state, self.provider)
    }

    /// Runs one call: renders the prompt, answers from the cache on a hit and
    /// from the provider on a miss, and records the exchange.
    ///
    /// The provider is left untouched unless the cache misses. Whatever the
    /// provider answers on a miss, a failure leaves memory and cache as they
    /// were, and a completion is returned and recorded.
    pub fn call(&mut self, inputs: &StringMap) -> (out: Result<String, ChainError>)
        ensures
            match plan(old(self)@, inputs@) {
                Plan::MissingVariable(name) => {
                    &&& out matches Err(ChainError::Template(TemplateError::MissingVariable(n)))
                        && n@ == name
                    &&& final(self)@ == old(self)@
                    &&& final(self).provider_state() == old(self).provider_state()
                },
                Plan::KeyUnderivable => {
                    &&& out matches Err(ChainError::CacheKeyDerivation)
                    &&& final(self)@ == old(self)@
                    &&& final(self).provider_state() == old(self).provider_state()
                },
                Plan::Hit { prompt, value } => {
                    &&& out matches Ok(s) && s@ == value
                    &&& final(self)@ == recorded(old(self)@, inputs@, prompt, value)
                    &&& final(self).provider_state() == old(self).provider_state()
                },
                Plan::Miss { prompt } => match out {
                    Ok(s) => final(self)@ == recorded(old(self)@, inputs@, prompt, s@),
                    Err(e) => e is Provider && final(self)@ == old(self)@,
                },
            },
    {
        match self.state.begin(inputs) {
            Err(e) => Err(e),
            Ok(Lookup::Hit { prompt, value }) => {
                self.state.record(inputs, &prompt, &value);
                Ok(value)
            },
            Ok(Lookup::Miss { prompt }) => {
                let reply = self.provider.generate(prompt.as_str());
                self.state.settle(inputs, &prompt, reply)
            },
        }
    }
}

/// One recorded call: its inputs, its rendered prompt and its completion.
pub struct Exchange {
    pub inputs: Map<Seq<char>, Seq<char>>,
    pub prompt: Seq<char>,
    pub completion: Seq<char>,
}

/// The chain `c` after `calls` have been recorded on it in order.
pub open spec fn recorded_all(c: ChainView, calls: Seq<Exchange>) -> ChainView
    decreases calls.len(),
{
    if calls.len() == 0 {
        c
    } else {
        recorded(
            recorded_all(c, calls.drop_last()),
            calls.last().inputs,
            calls.last().prompt,
            calls.last().completion,
        )
    }
}

/// The user's text and the completion of each call.
pub open spec fn turns_of(calls: Seq<Exchange>) -> Seq<(Seq<char>, Seq<char>)> {
    calls.map_values(|e: Exchange| (user_text(e.inputs, e.prompt), e.completion))
}

/// A key determines the model name and the prompt it was derived from: two
/// derivable keys are equal only if names and prompts are.
pub proof fn lemma_cache_key_injective(
    model_a: Seq<char>,
    prompt_a: Seq<char>,
    model_b: Seq<char>,
    prompt_b: Seq<char>,
)
    requires
        key_derivable(model_a),
        key_derivable(model_b),
        cache_key(model_a, prompt_a) == cache_key(model_b, prompt_b),
    ensures
        model_a == model_b,
        prompt_a == prompt_b,
{
    let ka = cache_key(model_a, prompt_a);
    let kb = cache_key(model_b, prompt_b);
    assert(ka[model_a.len() as int] == '\n');
    assert(kb[model_b.len() as int] == '\n');
    if model_a.len() < model_b.len() {
        assert(kb[model_a.len() as int] == model_b[model_a.len() as int]);
        assert(model_b.contains('\n'));
    }
    if model_b.len() < model_a.len() {
        assert(ka[model_b.len() as int] == model_a[model_b.len() as int]);
        assert(model_a.contains('\n'));
    }
    assert(model_a =~= model_b) by {
        assert forall|i: int| 0 <= i < model_a.len() implies model_a[i] == model_b[i] by {
            assert(ka[i] == model_a[i]);
            assert(kb[i] == model_b[i]);
        }
    }
    assert(prompt_a =~= prompt_b) by {
        assert(ka.len() == kb.len());
        assert forall|i: int| 0 <= i < prompt_a.len() implies prompt_a[i] == prompt_b[i] by {
            assert(ka[model_a.len() + 1 + i] == prompt_a[i]);
            assert(kb[model_b.len() + 1 + i] == prompt_b[i]);
        }
    }
}

/// A memory whose transcript the template does not ask for changes nothing
/// in what is rendered: where the history variable is not declared, the
/// outcome of rendering is that of the inputs alone.
pub proof fn lemma_undeclared_history_is_ignored(c: ChainView, inputs: Map<Seq<char>, Seq<char>>)
    requires
        !c.variables.contains(history_variable()),
    ensures
        format_outcome(c.template, c.variables, effective_values(inputs, c.memory))
            == format_outcome(c.template, c.variables, inputs),
{
    let values = effective_values(inputs, c.memory);
    assert forall|i: int| 0 <= i < c.variables.len() implies {
        &&& values.contains_key(#[trigger] c.variables[i]) == inputs.contains_key(c.variables[i])
        &&& values[c.variables[i]] == inputs[c.variables[i]]
    } by {
        assert(c.variables.contains(c.variables[i]));
    }
    lemma_format_reads_declared_only(c.template, c.variables, values, inputs);
}

/// With a cache attached, a call that has been recorded is answered from the
/// cache when it is repeated with the same inputs: the second call needs no
/// provider and returns the completion of the first. This holds where the
/// rendered prompt does not change between the two calls, that is, where no
/// memory is attached or the template does not declare the history variable.
pub proof fn lemma_repeated_call_hits_cache(
    c: ChainView,
    inputs: Map<Seq<char>, Seq<char>>,
    prompt: Seq<char>,
    completion: Seq<char>,
)
    requires
        c.cache is Some,
        plan(c, inputs) == (Plan::Miss { prompt }),
        c.memory is None || !c.variables.contains(history_variable()),
    ensures
        plan(recorded(c, inputs, prompt, completion), inputs) == (Plan::Hit {
            prompt,
            value: completion,
        }),
{
    let after = recorded(c, inputs, prompt, completion);
    let before_values = effective_values(inputs, c.memory);
    let after_values = effective_values(inputs, after.memory);
    assert forall|i: int| 0 <= i < c.variables.len() implies {
        &&& before_values.contains_key(#[trigger] c.variables[i]) == after_values.contains_key(
            c.variables[i],
        )
        &&& before_values[c.variables[i]] == after_values[c.variables[i]]
    } by {
        if c.memory is Some {
            assert(c.variables.contains(c.variables[i]));
        }
    }
    lemma_format_reads_declared_only(c.template, c.variables, before_values, after_values);
}

/// Recording calls one after the other appends to an attached memory, for
/// each call in order, the user's turn and then the assistant's, and nothing
/// else.
pub proof fn lemma_memory_after_calls(c: ChainView, calls: Seq<Exchange>)
    requires
        c.memory is Some,
    ensures
        recorded_all(c, calls).memory == Some(replayed(c.memory.unwrap(), turns_of(calls))),
    decreases calls.len(),
{
    if calls.len() > 0 {
        lemma_memory_after_calls(c, calls.drop_last());
        assert(turns_of(calls).drop_last() =~= turns_of(calls.drop_last()));
    }
}

/// A replayed log keeps the turns it started from and holds after them exactly
/// one user turn and one assistant turn per exchange, in the order of the
/// exchanges.
pub proof fn lemma_replayed_turns(
    turns: Seq<(Role, Seq<char>)>,
    exchanges: Seq<(Seq<char>, Seq<char>)>,
)
    ensures
        replayed(turns, exchanges).len() == turns.len() + 2 * exchanges.len(),
        forall|i: int| 0 <= i < turns.len() ==> replayed(turns, exchanges)[i] == turns[i],
        forall|i: int|
            0 <= i < exchanges.len() ==> {
                &&& replayed(turns, exchanges)[turns.len() + 2 * i] == (
                    Role::User,
                    (#[trigger] exchanges[i]).0,
                )
                &&& replayed(turns, exchanges)[turns.len() + 2 * i + 1] == (
                    Role::Assistant,
                    exchanges[i].1,
                )
            },
    decreases exchanges.len(),
{
    if exchanges.len() > 0 {
        let shorter = exchanges.drop_last();
        lemma_replayed_turns(turns, shorter);
        assert forall|i: int| 0 <= i < exchanges.len() implies {
            &&& replayed(turns, exchanges)[turns.len() + 2 * i] == (
                Role::User,
                (#[trigger] exchanges[i]).0,
            )
            &&& replayed(turns, exchanges)[turns.len() + 2 * i + 1] == (
                Role::Assistant,
                exchanges[i].1,
            )
        } by {
            if i < shorter.len() {
                assert(shorter[i] == exchanges[i]);
            }
        }
    }
}

} // verus!
