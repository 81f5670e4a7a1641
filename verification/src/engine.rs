//! The model session and the budget-aware autoregressive generation loop.
//!
//! The transformer forward pass together with its sampler, and the
//! tokenizer, are consumed as opaque capabilities behind the
//! [`LanguageModel`] and [`TokenCodec`] traits: their numerics (floating
//! point throughout) stay outside the verified core, while every decision
//! the loop takes — when to stop, what state to keep, what to report — is
//! verified here for every possible capability behavior. The per-call
//! compute ceiling is likewise read through the injected [`ComputeMeter`].

use vstd::prelude::*;
use vstd::string::StringExecFns;
use crate::storage::StableStore;

verus! {

/// The default cap on generated tokens per call.
pub const DEFAULT_MAX_TOKENS: usize = 50;

/// The per-call compute ceiling, in the host's instruction units.
pub const INSTRUCTION_BUDGET: u64 = 30_000_000_000;

// ─────────────────────────────────────────────────────
//  Configuration and wire types
// ─────────────────────────────────────────────────────

/// Per-call sampling configuration. The knobs that the loop's decisions
/// read are held as plain values in thousandths, so that `0` disables
/// temperature, a value outside `(0, 1000)` disables nucleus truncation,
/// and `1000` disables the repeat penalty; the capability converts them to
/// its own numeric types.
#[derive(Clone, Copy, PartialEq, Eq, Structural, Debug)]
pub struct GenerationConfig {
    /// Sampling temperature in thousandths; `0` selects greedy argmax.
    pub temperature_milli: u32,
    /// Nucleus mass in thousandths; `0` or `>= 1000` disables truncation.
    pub top_p_milli: u32,
    /// Repeat-penalty strength in thousandths; `1000` disables the penalty.
    pub repeat_penalty_milli: u32,
    /// How many trailing history tokens the penalty window covers.
    pub repeat_last_n: usize,
    /// Seed for the stochastic sampling policy.
    pub seed: u64,
}

impl GenerationConfig {
    /// Greedy argmax is selected iff the temperature is disabled.
    pub open spec fn greedy_spec(&self) -> bool {
        self.temperature_milli == 0
    }

    /// Nucleus truncation applies iff the mass lies strictly inside (0, 1).
    pub open spec fn nucleus_spec(&self) -> bool {
        0 < self.top_p_milli < 1000
    }

    /// The repeat penalty applies iff its strength is not exactly one.
    pub open spec fn penalty_spec(&self) -> bool {
        self.repeat_penalty_milli != 1000
    }

    pub fn greedy(&self) -> (r: bool)
        ensures
            r == self.greedy_spec(),
    {
        self.temperature_milli == 0
    }

    pub fn nucleus_enabled(&self) -> (r: bool)
        ensures
            r == self.nucleus_spec(),
    {
        0 < self.top_p_milli && self.top_p_milli < 1000
    }

    pub fn penalty_enabled(&self) -> (r: bool)
        ensures
            r == self.penalty_spec(),
    {
        self.repeat_penalty_milli != 1000
    }
}

impl Default for GenerationConfig {
    /// Temperature 0.7, nucleus mass 0.9, repeat penalty 1.1 over a window
    /// of 64, seed 42.
    fn default() -> (r: Self)
        ensures
            r.temperature_milli == 700,
            r.top_p_milli == 900,
            r.repeat_penalty_milli == 1100,
            r.repeat_last_n == 64,
            r.seed == 42,
    {
        GenerationConfig {
            temperature_milli: 700,
            top_p_milli: 900,
            repeat_penalty_milli: 1100,
            repeat_last_n: 64,
            seed: 42,
        }
    }
}

/// A generation request: the prompt and an optional configuration; absent
/// configuration means the defaults.
pub struct InferenceRequest {
    pub prompt: String,
    pub config: Option<GenerationConfig>,
}

/// What a generation call reports back.
#[derive(Debug)]
pub struct InferenceResponse {
    pub generated_text: String,
    pub tokens_generated: usize,
    pub instructions_used: u64,
    pub success: bool,
    pub error: Option<String>,
}

/// Whether the model session is present, and how long its token history is.
#[derive(Clone, Copy, PartialEq, Eq, Structural, Debug)]
pub struct ModelInfo {
    pub loaded: bool,
    pub current_tokens: usize,
}

/// Outcome of an operation that yields no value, carrying a message on
/// failure.
#[derive(Debug)]
pub enum EmptyResult {
    Completed,
    Failed(String),
}

/// Why a generation call ended.
#[derive(Clone, Copy, PartialEq, Eq, Structural, Debug)]
pub enum StopKind {
    /// The end-of-sequence token was produced.
    Eos,
    /// The compute budget was exhausted; a soft stop with partial output.
    Budget,
    /// The cap on generated tokens was reached.
    MaxTokens,
    /// Tokenization or a forward step failed.
    Failed,
}

/// Errors of model setup and generation.
#[derive(Debug)]
pub enum ModelError {
    /// No blob under the weights key.
    WeightsNotFound,
    /// No blob under the tokenizer key.
    TokenizerNotFound,
    /// The tokenizer blob did not decode.
    TokenizerDecodeError(String),
    /// The weights blob did not decode into a model.
    WeightsDecodeError(String),
    /// The prompt did not tokenize.
    TokenizationError(String),
    /// No model session exists yet.
    NotInitialized,
    /// A forward step failed mid-generation.
    StepFailed(String),
}

impl ModelError {
    /// The exact text of [`Self::message`].
    pub open spec fn message_spec(&self) -> Seq<char> {
        match self {
            ModelError::WeightsNotFound => "Weights not found in stable storage"@,
            ModelError::TokenizerNotFound => "Tokenizer not found in stable storage"@,
            ModelError::TokenizerDecodeError(m) => "Failed to load tokenizer: "@ + m@,
            ModelError::WeightsDecodeError(m) => "Failed to load model: "@ + m@,
            ModelError::TokenizationError(m) => "Tokenization error: "@ + m@,
            ModelError::NotInitialized => "Model not initialized. Call setup_model first."@,
            ModelError::StepFailed(m) => "Token generation error: "@ + m@,
        }
    }

    /// A human-readable message for the caller.
    pub fn message(self) -> (r: String)
        ensures
            r@ == self.message_spec(),
    {
        match self {
            ModelError::WeightsNotFound => "Weights not found in stable storage".to_owned(),
            ModelError::TokenizerNotFound => "Tokenizer not found in stable storage".to_owned(),
            ModelError::TokenizerDecodeError(m) => {
                let mut s = "Failed to load tokenizer: ".to_owned();
                s.append(m.as_str());
                s
            },
            ModelError::WeightsDecodeError(m) => {
                let mut s = "Failed to load model: ".to_owned();
                s.append(m.as_str());
                s
            },
            ModelError::TokenizationError(m) => {
                let mut s = "Tokenization error: ".to_owned();
                s.append(m.as_str());
                s
            },
            ModelError::NotInitialized => "Model not initialized. Call setup_model first.".to_owned(),
            ModelError::StepFailed(m) => {
                let mut s = "Token generation error: ".to_owned();
                s.append(m.as_str());
                s
            },
        }
    }
}

// ─────────────────────────────────────────────────────
//  Capabilities
// ─────────────────────────────────────────────────────

/// The opaque forward-and-sample capability: given the new input tokens
/// and their position offset, advance the attention cache over them and
/// sample one next token. An arbitrary numeric backend promises nothing,
/// so the methods carry no contracts; the session keeps its own ghost
/// count of what it has fed the cache and the loop is verified for every
/// capability behavior.
pub trait LanguageModel: Sized {
    /// Decodes the capability from the raw weights blob.
    fn load(weights: &Vec<u8>) -> Result<Self, String>;

    /// Re-seeds the sampler from the configuration and clears the cache.
    fn begin(&mut self, config: &GenerationConfig);

    /// Clears the cache without touching the sampler.
    fn reset(&mut self);

    /// Runs one forward evaluation over `input` at position `offset` and
    /// samples a token for the final position.
    fn forward_sample(&mut self, input: &Vec<u32>, offset: usize) -> Result<u32, String>;
}

/// The opaque text-to-token capability. Nothing can be promised of an
/// arbitrary tokenizer, so the methods carry no contracts; the loop is
/// verified for every behavior.
pub trait TokenCodec: Sized {
    /// Decodes the capability from the raw tokenizer blob.
    fn from_bytes(data: &Vec<u8>) -> Result<Self, String>;

    /// Text to token ids.
    fn encode(&self, text: &str) -> Result<Vec<u32>, String>;

    /// One token id back to text.
    fn decode(&self, token: u32) -> Result<String, String>;

    /// The id of a vocabulary entry, if present.
    fn token_id(&self, text: &str) -> Option<u32>;
}

/// The injected compute meter: how many of the host's instruction units
/// the current call has consumed so far. External state; nothing can be
/// promised of its readings.
pub trait ComputeMeter {
    fn units_used(&mut self) -> u64;
}

/// The end-of-sequence id: the primary marker's id if the vocabulary has
/// it, else the secondary marker's, else `0` — a defined, if non-ideal,
/// terminator, never a failure.
pub fn resolve_eos(primary: Option<u32>, secondary: Option<u32>) -> (r: u32)
    ensures
        r == (match primary {
            Some(t) => t,
            None => match secondary {
                Some(t) => t,
                None => 0u32,
            },
        }),
{
    match primary {
        Some(t) => t,
        None => match secondary {
            Some(t) => t,
            None => 0,
        },
    }
}

// ─────────────────────────────────────────────────────
//  The model session
// ─────────────────────────────────────────────────────

/// One conversation's state: the capabilities, the token history, and the
/// end-of-sequence id. The logical attention-cache length — the count of
/// tokens this session has fed the capability since the last reset —
/// always trails the history by exactly one pending sampled token (or
/// both are zero): the most recent sampled token has not been evaluated
/// yet and is fed back at the next step, at the position offset the
/// cache length names. Feeding it back restores the cache-equals-history
/// equality the data model describes, so the two phrasings agree.
pub struct ModelSession<M: LanguageModel, C: TokenCodec> {
    model: M,
    codec: C,
    history: Vec<u32>,
    eos_token: u32,
    cache_fed: Ghost<nat>,
}

impl<M: LanguageModel, C: TokenCodec> ModelSession<M, C> {
    /// The token history: prompt tokens followed by every sampled token.
    pub closed spec fn token_history(&self) -> Seq<u32> {
        self.history@
    }

    /// The logical attention-cache length: how many tokens this session
    /// has fed the capability since the last reset.
    pub closed spec fn cache_len(&self) -> nat {
        self.cache_fed@
    }

    /// The end-of-sequence token id.
    pub closed spec fn eos_spec(&self) -> u32 {
        self.eos_token
    }

    /// The cache has consumed everything but the one pending sampled
    /// token; an empty history means an empty cache.
    pub open spec fn wf(&self) -> bool {
        if self.token_history().len() == 0 {
            self.cache_len() == 0
        } else {
            self.cache_len() + 1 == self.token_history().len()
        }
    }

    /// The most recent token is the end-of-sequence id.
    pub open spec fn at_eos(&self) -> bool {
        self.token_history().len() > 0 && self.token_history().last() == self.eos_spec()
    }

    pub fn new(model: M, codec: C, eos_token: u32) -> (r: Self)
        ensures
            r.wf(),
            r.token_history().len() == 0,
            r.cache_len() == 0,
            r.eos_spec() == eos_token,
    {
        ModelSession { model, codec, history: Vec::new(), eos_token, cache_fed: Ghost(0nat) }
    }

    /// Decodes both capabilities from their raw blobs, resolves the
    /// end-of-sequence id from the vocabulary, and builds a fresh session.
    pub fn load(weights: &Vec<u8>, tokenizer_bytes: &Vec<u8>) -> (r: Result<Self, ModelError>)
        ensures
            r matches Err(e) ==> (e is TokenizerDecodeError || e is WeightsDecodeError),
            r matches Ok(session) ==> session.wf() && session.token_history().len() == 0
                && session.cache_len() == 0,
    {
        let codec = match C::from_bytes(tokenizer_bytes) {
            Ok(c) => c,
            Err(m) => {
                return Err(ModelError::TokenizerDecodeError(m));
            },
        };
        let eos = resolve_eos(codec.token_id("<|endoftext|>"), codec.token_id("<|im_end|>"));
        let model = match M::load(weights) {
            Ok(m) => m,
            Err(m) => {
                return Err(ModelError::WeightsDecodeError(m));
            },
        };
        Ok(ModelSession::new(model, codec, eos))
    }

    /// Whether generation has reached the end-of-sequence token.
    pub fn is_eos(&self) -> (r: bool)
        ensures
            r == self.at_eos(),
    {
        if self.history.len() == 0 {
            false
        } else {
            self.history[self.history.len() - 1] == self.eos_token
        }
    }

    /// How many tokens the history holds.
    pub fn get_token_count(&self) -> (r: usize)
        ensures
            r == self.token_history().len(),
    {
        self.history.len()
    }

    /// Clears the token history and the attention cache without reloading
    /// weights.
    pub fn reset(&mut self)
        ensures
            final(self).wf(),
            final(self).token_history().len() == 0,
            final(self).cache_len() == 0,
            final(self).eos_spec() == old(self).eos_spec(),
    {
        self.history.clear();
        self.model.reset();
        self.cache_fed = Ghost(0nat);
    }

    /// Appends what the forward capability sampled to the history and
    /// counts the one token it consumed.
    fn record_sampled(&mut self, tok: u32)
        requires
            old(self).wf(),
            old(self).token_history().len() >= 1,
        ensures
            final(self).wf(),
            final(self).eos_spec() == old(self).eos_spec(),
            final(self).token_history() == old(self).token_history().push(tok),
            final(self).cache_len() == old(self).cache_len() + 1,
    {
        self.cache_fed = Ghost(self.cache_fed@ + 1);
        self.history.push(tok);
    }

    /// Takes what the tokenizer's encode returned and primes the session
    /// with it. An encode failure, and equally an empty encoding, is
    /// exactly a tokenization error and leaves the session empty;
    /// otherwise the whole encoding is consumed in one forward evaluation
    /// at position offset zero and exactly one sampled token is appended
    /// after it, whose id and text fragment are returned.
    pub fn prime_with_encoding(
        &mut self,
        config: &GenerationConfig,
        encoding: Result<Vec<u32>, String>,
    ) -> (r: Result<(u32, String), ModelError>)
        ensures
            final(self).wf(),
            final(self).eos_spec() == old(self).eos_spec(),
            r is Err ==> final(self).token_history().len() == 0 && final(self).cache_len() == 0,
            encoding matches Err(m) ==> (r matches Err(e) && e matches
                ModelError::TokenizationError(mm) && mm@ == m@),
            encoding matches Ok(toks) ==> ((toks@.len() == 0 ==> (r matches Err(e) && e matches
                ModelError::TokenizationError(mm) && mm@ == "prompt produced no tokens"@)) && (
            toks@.len() >= 1 ==> (match r {
                Result::Ok(p) => final(self).token_history() == toks@.push(p.0)
                    && final(self).cache_len() == toks@.len(),
                Result::Err(e) => e is StepFailed,
            }))),
    {
        self.model.begin(config);
        self.history.clear();
        self.cache_fed = Ghost(0nat);
        let toks = match encoding {
            Ok(t) => t,
            Err(m) => {
                return Err(ModelError::TokenizationError(m));
            },
        };
        if toks.len() == 0 {
            return Err(ModelError::TokenizationError("prompt produced no tokens".to_owned()));
        }
        extend_tokens(&mut self.history, &toks);
        let first = match self.model.forward_sample(&toks, 0) {
            Ok(t) => t,
            Err(m) => {
                self.history.clear();
                return Err(ModelError::StepFailed(m));
            },
        };
        self.cache_fed = Ghost(toks@.len());
        self.history.push(first);
        proof {
            assert(self.history@ =~= toks@.push(first));
        }
        let d = self.codec.decode(first);
        Ok((first, fragment_of(d)))
    }

    /// Primes the session from a prompt, with the error flattened to a
    /// message: consumes the prompt and emits exactly one generated
    /// fragment.
    pub fn init_with_prompt(&mut self, prompt: &str, config: &GenerationConfig) -> (r: Result<
        String,
        String,
    >)
        ensures
            final(self).wf(),
            final(self).eos_spec() == old(self).eos_spec(),
            r is Err ==> final(self).token_history().len() == 0 && final(self).cache_len() == 0,
            r is Ok ==> final(self).token_history().len() >= 2,
    {
        let encoding = self.codec.encode(prompt);
        match self.prime_with_encoding(config, encoding) {
            Ok(p) => Ok(p.1),
            Err(e) => Err(e.message()),
        }
    }

    /// Feeds the most recent token back at its position offset, samples
    /// one more token, appends exactly that token to the history, and
    /// returns its id with its text fragment; a token the codec cannot
    /// decode becomes an empty fragment, never an error.
    fn step_internal(&mut self) -> (r: Result<(u32, String), ModelError>)
        requires
            old(self).wf(),
            old(self).token_history().len() >= 1,
        ensures
            final(self).wf(),
            final(self).eos_spec() == old(self).eos_spec(),
            r matches Err(e) ==> e is StepFailed,
            r matches Ok(p) ==> final(self).token_history()
                == old(self).token_history().push(p.0)
                && final(self).cache_len() == old(self).cache_len() + 1,
            r is Err ==> final(self).token_history() == old(self).token_history()
                && final(self).cache_len() == old(self).cache_len(),
    {
        let last = self.history[self.history.len() - 1];
        let input = vec![last];
        let offset = self.history.len() - 1;
        match self.model.forward_sample(&input, offset) {
            Ok(tok) => {
                self.record_sampled(tok);
                let d = self.codec.decode(tok);
                Ok((tok, fragment_of(d)))
            },
            Err(m) => Err(ModelError::StepFailed(m)),
        }
    }

    /// [`Self::step_internal`] with the error flattened to a message; it
    /// fails when nothing has been generated yet to feed back.
    pub fn next_token(&mut self) -> (r: Result<String, String>)
        requires
            old(self).wf(),
        ensures
            final(self).wf(),
            final(self).eos_spec() == old(self).eos_spec(),
            old(self).token_history().len() == 0 ==> r is Err && final(self).token_history()
                == old(self).token_history(),
            r is Ok ==> old(self).token_history().len() >= 1
                && final(self).token_history().len() == old(self).token_history().len() + 1
                && final(self).token_history().drop_last() == old(self).token_history(),
    {
        if self.history.len() == 0 {
            return Err("No tokens generated yet".to_owned());
        }
        match self.step_internal() {
            Ok(p) => Ok(p.1),
            Err(e) => Err(e.message()),
        }
    }

    /// Runs one full generation call: primes the session over the prompt,
    /// then decodes until the end-of-sequence token, the compute budget,
    /// or the token cap stops it. A budget stop is a soft stop — success
    /// with partial output — never an error.
    pub fn run_generation<B: ComputeMeter>(
        &mut self,
        meter: &mut B,
        prompt: &str,
        config: &GenerationConfig,
        max_tokens: usize,
        budget_ceiling: u64,
    ) -> (r: (InferenceResponse, StopKind))
        requires
            old(self).wf(),
            max_tokens >= 1,
        ensures
            final(self).wf(),
            final(self).eos_spec() == old(self).eos_spec(),
            r.0.success == (r.1 != StopKind::Failed),
            !r.0.success ==> r.0.error is Some && r.0.tokens_generated == 0
                && r.0.generated_text@.len() == 0 && r.0.instructions_used == 0,
            r.0.success ==> r.0.error is None && 1 <= r.0.tokens_generated <= max_tokens,
            r.0.success ==> r.0.tokens_generated < final(self).token_history().len(),
            r.1 == StopKind::Eos ==> final(self).at_eos(),
            r.1 == StopKind::MaxTokens ==> r.0.tokens_generated == max_tokens,
            r.1 == StopKind::Budget ==> r.0.tokens_generated < max_tokens,
            r.0.success ==> forall|i: int|
                final(self).token_history().len() - r.0.tokens_generated <= i
                    < final(self).token_history().len() - 1
                    ==> final(self).token_history()[i] != final(self).eos_spec(),
    {
        let encoding = self.codec.encode(prompt);
        let (_first, frag0) = match self.prime_with_encoding(config, encoding) {
            Ok(p) => p,
            Err(e) => {
                return (failure_response(e), StopKind::Failed);
            },
        };
        let mut text: String = frag0;
        let ghost plen = self.token_history().len() - 1;
        let mut generated: usize = 1;
        while generated < max_tokens
            invariant
                self.wf(),
                max_tokens >= 1,
                1 <= generated <= max_tokens,
                self.token_history().len() == plen + generated,
                plen >= 1,
                self.eos_spec() == old(self).eos_spec(),
                forall|i: int|
                    plen <= i < self.token_history().len() - 1
                        ==> self.token_history()[i] != self.eos_spec(),
            decreases max_tokens - generated,
        {
            if self.is_eos() {
                let units = meter.units_used();
                return (success_response(text, generated, units), StopKind::Eos);
            }
            let units = meter.units_used();
            if units > budget_ceiling {
                return (success_response(text, generated, units), StopKind::Budget);
            }
            let ghost pre = self.token_history();
            match self.step_internal() {
                Ok(p) => {
                    generated = generated + 1;
                    text.append(p.1.as_str());
                    proof {
                        assert forall|i: int|
                            plen <= i < self.token_history().len() - 1
                                implies self.token_history()[i] != self.eos_spec() by {
                            assert(self.token_history() == pre.push(p.0));
                            assert(self.token_history()[i] == pre[i]);
                            if i == pre.len() - 1 {
                                assert(pre.last() != self.eos_spec());
                            }
                        }
                    }
                },
                Err(e) => {
                    return (failure_response(e), StopKind::Failed);
                },
            }
        }
        let units = meter.units_used();
        (success_response(text, generated, units), StopKind::MaxTokens)
    }
}

/// What a decode outcome contributes to the output text: the fragment on
/// success, nothing on failure — a single undecodable token never aborts
/// generation.
pub fn fragment_of(d: Result<String, String>) -> (r: String)
    ensures
        d matches Ok(s) ==> r == s,
        d is Err ==> r@ == Seq::<char>::empty(),
{
    match d {
        Ok(s) => s,
        Err(_) => String::new(),
    }
}

/// A failing response: no tokens, no text, no compute reported, and
/// exactly the error's message.
fn failure_response(err: ModelError) -> (r: InferenceResponse)
    ensures
        !r.success,
        r.error matches Some(m) && m@ == err.message_spec(),
        r.tokens_generated == 0,
        r.generated_text@.len() == 0,
        r.instructions_used == 0,
{
    InferenceResponse {
        generated_text: String::new(),
        tokens_generated: 0,
        instructions_used: 0,
        success: false,
        error: Some(err.message()),
    }
}

/// A successful response carrying the accumulated text.
fn success_response(text: String, tokens_generated: usize, units: u64) -> (r: InferenceResponse)
    ensures
        r.success,
        r.error is None,
        r.tokens_generated == tokens_generated,
        r.generated_text == text,
        r.instructions_used == units,
{
    InferenceResponse {
        generated_text: text,
        tokens_generated,
        instructions_used: units,
        success: true,
        error: None,
    }
}

/// Appends `src`'s tokens to `dst`, preserving order.
fn extend_tokens(dst: &mut Vec<u32>, src: &Vec<u32>)
    ensures
        final(dst)@ == old(dst)@ + src@,
{
    let n = src.len();
    for i in 0..n
        invariant
            n == src@.len(),
            dst@ =~= old(dst)@ + src@.subrange(0, i as int),
    {
        dst.push(src[i]);
        proof {
            assert(dst@ =~= old(dst)@ + src@.subrange(0, i + 1 as int));
        }
    }
    proof {
        assert(dst@ =~= old(dst)@ + src@);
    }
}

// ─────────────────────────────────────────────────────
//  The engine: one session per process
// ─────────────────────────────────────────────────────

/// Owns the single model session and exposes the callable operations.
/// There is no session until the weights and tokenizer have been loaded
/// from the byte-blob store; loading again replaces the session wholesale.
pub struct Engine<M: LanguageModel, C: TokenCodec> {
    session: Option<ModelSession<M, C>>,
}

impl<M: LanguageModel, C: TokenCodec> Engine<M, C> {
    /// Whether a session exists.
    pub closed spec fn loaded_spec(&self) -> bool {
        self.session is Some
    }

    /// The session's token-history length; zero when no session exists.
    pub closed spec fn current_tokens_spec(&self) -> nat {
        match self.session {
            Some(s) => s.token_history().len(),
            None => 0,
        }
    }

    /// The session's logical attention-cache length; zero when no session
    /// exists.
    pub closed spec fn cache_len_spec(&self) -> nat {
        match self.session {
            Some(s) => s.cache_len(),
            None => 0,
        }
    }

    pub closed spec fn wf(&self) -> bool {
        match self.session {
            Some(s) => s.wf(),
            None => true,
        }
    }

    pub fn new() -> (r: Self)
        ensures
            r.wf(),
            !r.loaded_spec(),
    {
        Engine { session: None }
    }

    /// Builds a fresh session from the `model_weights` and `tokenizer`
    /// blobs in the store. Exactly when the weights key is absent the
    /// result is `WeightsNotFound`; exactly when the weights key is
    /// present and the tokenizer key absent it is `TokenizerNotFound`.
    /// Decode failures are reported as such. On any failure the prior
    /// session, if any, is untouched; on success it is replaced wholesale.
    pub fn internal_setup_model(&mut self, store: &StableStore) -> (r: Result<(), ModelError>)
        requires
            old(self).wf(),
            store.wf(),
        ensures
            final(self).wf(),
            r matches Err(ModelError::WeightsNotFound) <==> !store.view_map().contains_key(
                "model_weights"@,
            ),
            r matches Err(ModelError::TokenizerNotFound) <==> store.view_map().contains_key(
                "model_weights"@,
            ) && !store.view_map().contains_key("tokenizer"@),
            r is Err ==> *final(self) == *old(self),
            r is Ok ==> final(self).loaded_spec() && final(self).current_tokens_spec() == 0
                && final(self).cache_len_spec() == 0,
            r is Ok ==> store.view_map().contains_key("model_weights"@)
                && store.view_map().contains_key("tokenizer"@),
    {
        let weights_key = "model_weights".to_owned();
        let weights = match store.load_bytes_from_stable(&weights_key) {
            Some(b) => b,
            None => {
                return Err(ModelError::WeightsNotFound);
            },
        };
        let tokenizer_key = "tokenizer".to_owned();
        let tokenizer_bytes = match store.load_bytes_from_stable(&tokenizer_key) {
            Some(b) => b,
            None => {
                return Err(ModelError::TokenizerNotFound);
            },
        };
        let session = match ModelSession::<M, C>::load(&weights, &tokenizer_bytes) {
            Ok(s) => s,
            Err(e) => {
                return Err(e);
            },
        };
        self.session = Some(session);
        Ok(())
    }

    /// [`Self::internal_setup_model`] with the error flattened to a message.
    pub fn setup_model(&mut self, store: &StableStore) -> (r: EmptyResult)
        requires
            old(self).wf(),
            store.wf(),
        ensures
            final(self).wf(),
            r is Failed ==> *final(self) == *old(self),
            !store.view_map().contains_key("model_weights"@) ==> (r matches EmptyResult::Failed(
                m,
            ) && m@ == "Weights not found in stable storage"@),
            store.view_map().contains_key("model_weights"@) && !store.view_map().contains_key(
                "tokenizer"@,
            ) ==> (r matches EmptyResult::Failed(m) && m@
                == "Tokenizer not found in stable storage"@),
            r is Completed ==> final(self).loaded_spec() && final(self).current_tokens_spec()
                == 0 && final(self).cache_len_spec() == 0 && store.view_map().contains_key(
                "model_weights"@,
            ) && store.view_map().contains_key("tokenizer"@),
    {
        match self.internal_setup_model(store) {
            Ok(_) => EmptyResult::Completed,
            Err(e) => EmptyResult::Failed(e.message()),
        }
    }

    /// Runs a generation request against the session, with the default
    /// token cap and compute ceiling. Without a session the call fails
    /// with the not-initialized message and changes nothing.
    pub fn generate<B: ComputeMeter>(&mut self, meter: &mut B, request: InferenceRequest) -> (r:
        InferenceResponse)
        requires
            old(self).wf(),
        ensures
            final(self).wf(),
            final(self).loaded_spec() == old(self).loaded_spec(),
            !old(self).loaded_spec() ==> *final(self) == *old(self) && !r.success
                && r.tokens_generated == 0 && r.generated_text@.len() == 0
                && r.instructions_used == 0 && (r.error matches Some(m) && m@
                == "Model not initialized. Call setup_model first."@),
            r.success ==> old(self).loaded_spec() && r.error is None && 1 <= r.tokens_generated
                <= DEFAULT_MAX_TOKENS && r.tokens_generated < final(self).current_tokens_spec(),
            old(self).loaded_spec() && !r.success ==> r.error is Some && r.tokens_generated == 0
                && r.generated_text@.len() == 0 && r.instructions_used == 0,
    {
        let config = match request.config {
            Some(c) => c,
            None => GenerationConfig::default(),
        };
        match &mut self.session {
            Some(session) => {
                let (resp, _stop) = session.run_generation(
                    meter,
                    request.prompt.as_str(),
                    &config,
                    DEFAULT_MAX_TOKENS,
                    INSTRUCTION_BUDGET,
                );
                resp
            },
            None => failure_response(ModelError::NotInitialized),
        }
    }

    /// Clears the token history and attention cache, keeping the loaded
    /// weights. Fails exactly when no session exists.
    pub fn reset_generation(&mut self) -> (r: EmptyResult)
        requires
            old(self).wf(),
        ensures
            final(self).wf(),
            final(self).loaded_spec() == old(self).loaded_spec(),
            old(self).loaded_spec() ==> r is Completed && final(self).current_tokens_spec() == 0
                && final(self).cache_len_spec() == 0,
            !old(self).loaded_spec() ==> *final(self) == *old(self) && (r matches
                EmptyResult::Failed(m) && m@
                == "Model not initialized. Call setup_model first."@),
    {
        match &mut self.session {
            Some(session) => {
                session.reset();
                EmptyResult::Completed
            },
            None => EmptyResult::Failed(ModelError::NotInitialized.message()),
        }
    }

    /// Whether a model session exists.
    pub fn is_model_loaded(&self) -> (r: bool)
        ensures
            r == self.loaded_spec(),
    {
        match &self.session {
            Some(_) => true,
            None => false,
        }
    }

    /// The session's presence and token-history length.
    pub fn get_model_info(&self) -> (r: ModelInfo)
        ensures
            r.loaded == self.loaded_spec(),
            r.current_tokens == self.current_tokens_spec(),
    {
        match &self.session {
            Some(session) => ModelInfo { loaded: true, current_tokens: session.get_token_count() },
            None => ModelInfo { loaded: false, current_tokens: 0 },
        }
    }
}

} // verus!
