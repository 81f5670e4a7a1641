use qwen3_backend::engine::{
    fragment_of, ComputeMeter, Engine, EmptyResult, GenerationConfig, InferenceRequest,
    ModelInfo, ModelSession, StopKind,
};
use qwen3_backend::scripted::{ScriptedCodec, ScriptedModel};
use qwen3_backend::storage::StableStore;
use qwen3_backend::upload::Uploader;

/// A meter that advances by a fixed amount on every reading.
struct TickMeter {
    per_call: u64,
    total: u64,
}

impl TickMeter {
    fn new(per_call: u64) -> Self {
        TickMeter { per_call, total: 0 }
    }
}

impl ComputeMeter for TickMeter {
    fn units_used(&mut self) -> u64 {
        self.total += self.per_call;
        self.total
    }
}

fn session_with_script(script: Vec<u32>, eos: u32) -> ModelSession<ScriptedModel, ScriptedCodec> {
    let model = ScriptedModel::from_script(script);
    let codec = ScriptedCodec::with_markers(Some(26), Some(27));
    ModelSession::new(model, codec, eos)
}

fn greedy_config() -> GenerationConfig {
    GenerationConfig {
        temperature_milli: 0,
        top_p_milli: 900,
        repeat_penalty_milli: 1000,
        repeat_last_n: 64,
        seed: 42,
    }
}

fn weights_for_script(script: &[u32]) -> Vec<u8> {
    let mut bytes = Vec::new();
    for t in script {
        bytes.extend_from_slice(&t.to_le_bytes());
    }
    bytes
}

#[test]
fn generation_stops_exactly_at_eos() {
    // Script: 'c', 'd', eos, then one more token that must never be reached.
    let mut session = session_with_script(vec![2, 3, 26, 4], 26);
    let mut meter = TickMeter::new(1);
    let (resp, stop) = session.run_generation(&mut meter, "ab", &greedy_config(), 50, 1_000_000);
    assert!(resp.success);
    assert_eq!(stop, StopKind::Eos);
    assert_eq!(resp.tokens_generated, 3);
    assert_eq!(resp.generated_text, "cd"); // the eos token decodes to nothing
    assert!(session.is_eos());
    // prompt "ab" (2 tokens) + 3 generated
    assert_eq!(session.get_token_count(), 5);
}

#[test]
fn budget_exhaustion_is_a_soft_stop_with_partial_output() {
    let mut session = session_with_script(vec![7, 8, 9, 10, 11], 26);
    // Every reading already exceeds the tiny ceiling.
    let mut meter = TickMeter::new(100);
    let (resp, stop) = session.run_generation(&mut meter, "a", &greedy_config(), 50, 50);
    assert!(resp.success);
    assert_eq!(stop, StopKind::Budget);
    assert_eq!(resp.tokens_generated, 1);
    assert_eq!(resp.generated_text, "h");
    assert!(!resp.generated_text.is_empty());
    assert!(resp.error.is_none());
}

#[test]
fn token_cap_stops_generation() {
    let mut session = session_with_script(vec![0, 1, 2, 3, 4, 5, 6], 26);
    let mut meter = TickMeter::new(1);
    let (resp, stop) = session.run_generation(&mut meter, "zz", &greedy_config(), 3, 1_000_000);
    assert!(resp.success);
    assert_eq!(stop, StopKind::MaxTokens);
    assert_eq!(resp.tokens_generated, 3);
    assert_eq!(resp.generated_text, "abc");
}

#[test]
fn generation_with_fixed_seed_is_deterministic() {
    let script = vec![4, 5, 6, 26];
    let mut s1 = session_with_script(script.clone(), 26);
    let mut s2 = session_with_script(script, 26);
    let mut m1 = TickMeter::new(1);
    let mut m2 = TickMeter::new(1);
    let config = greedy_config();
    let (r1, k1) = s1.run_generation(&mut m1, "abc", &config, 50, 1_000_000);
    let (r2, k2) = s2.run_generation(&mut m2, "abc", &config, 50, 1_000_000);
    assert_eq!(r1.generated_text, r2.generated_text);
    assert_eq!(r1.tokens_generated, r2.tokens_generated);
    assert_eq!(r1.success, r2.success);
    assert_eq!(k1, k2);
    // A repeated call on the same session rewinds the script and agrees too.
    let (r3, _) = s1.run_generation(&mut m1, "abc", &config, 50, 1_000_000);
    assert_eq!(r3.generated_text, r1.generated_text);
}

#[test]
fn undecodable_tokens_become_empty_fragments() {
    // 200 is outside the codec's vocabulary: decode fails, generation goes on.
    let mut session = session_with_script(vec![0, 200, 1, 26], 26);
    let mut meter = TickMeter::new(1);
    let (resp, stop) = session.run_generation(&mut meter, "a", &greedy_config(), 50, 1_000_000);
    assert!(resp.success);
    assert_eq!(stop, StopKind::Eos);
    assert_eq!(resp.generated_text, "ab");
    assert_eq!(resp.tokens_generated, 4);
}

#[test]
fn exhausted_model_fails_the_call() {
    let mut session = session_with_script(vec![], 26);
    let mut meter = TickMeter::new(1);
    let (resp, stop) = session.run_generation(&mut meter, "ab", &greedy_config(), 50, 1_000_000);
    assert!(!resp.success);
    assert_eq!(stop, StopKind::Failed);
    assert_eq!(resp.tokens_generated, 0);
    assert_eq!(resp.generated_text, "");
    let err = resp.error.expect("a failing call carries a message");
    assert!(err.starts_with("Token generation error:"));
}

#[test]
fn unsupported_prompt_is_a_tokenization_error() {
    let mut session = session_with_script(vec![0, 1], 26);
    let mut meter = TickMeter::new(1);
    let (resp, stop) = session.run_generation(&mut meter, "A!", &greedy_config(), 50, 1_000_000);
    assert!(!resp.success);
    assert_eq!(stop, StopKind::Failed);
    let err = resp.error.expect("a failing call carries a message");
    assert!(err.starts_with("Tokenization error:"));
}

#[test]
fn empty_prompt_is_rejected() {
    let mut session = session_with_script(vec![0, 1], 26);
    let mut meter = TickMeter::new(1);
    let (resp, stop) = session.run_generation(&mut meter, "", &greedy_config(), 50, 1_000_000);
    assert!(!resp.success);
    assert_eq!(stop, StopKind::Failed);
}

#[test]
fn session_reset_clears_history() {
    let mut session = session_with_script(vec![2, 3, 26], 26);
    let mut meter = TickMeter::new(1);
    let (_, _) = session.run_generation(&mut meter, "ab", &greedy_config(), 50, 1_000_000);
    assert!(session.get_token_count() > 0);
    session.reset();
    assert_eq!(session.get_token_count(), 0);
    assert!(!session.is_eos());
}

#[test]
fn generate_without_setup_reports_not_initialized() {
    let mut engine: Engine<ScriptedModel, ScriptedCodec> = Engine::new();
    let mut meter = TickMeter::new(1);
    let resp = engine.generate(
        &mut meter,
        InferenceRequest { prompt: String::from("ab"), config: None },
    );
    assert!(!resp.success);
    assert_eq!(resp.tokens_generated, 0);
    let err = resp.error.expect("a failing call carries a message");
    assert!(err.contains("not initialized"));
}

#[test]
fn reset_without_setup_fails() {
    let mut engine: Engine<ScriptedModel, ScriptedCodec> = Engine::new();
    match engine.reset_generation() {
        EmptyResult::Failed(m) => assert!(m.contains("not initialized")),
        EmptyResult::Completed => panic!("reset must fail before setup"),
    }
}

#[test]
fn setup_fails_without_weights() {
    let mut engine: Engine<ScriptedModel, ScriptedCodec> = Engine::new();
    let store = StableStore::new();
    match engine.setup_model(&store) {
        EmptyResult::Failed(m) => assert_eq!(m, "Weights not found in stable storage"),
        EmptyResult::Completed => panic!("setup must fail without weights"),
    }
    assert!(!engine.is_model_loaded());
}

#[test]
fn setup_fails_without_tokenizer() {
    let mut engine: Engine<ScriptedModel, ScriptedCodec> = Engine::new();
    let mut store = StableStore::new();
    let wkey = String::from("model_weights");
    store.save_bytes_to_stable(&wkey, weights_for_script(&[0, 26]));
    match engine.setup_model(&store) {
        EmptyResult::Failed(m) => assert_eq!(m, "Tokenizer not found in stable storage"),
        EmptyResult::Completed => panic!("setup must fail without a tokenizer"),
    }
}

#[test]
fn setup_reports_tokenizer_decode_failure() {
    let mut engine: Engine<ScriptedModel, ScriptedCodec> = Engine::new();
    let mut store = StableStore::new();
    let wkey = String::from("model_weights");
    let tkey = String::from("tokenizer");
    store.save_bytes_to_stable(&wkey, weights_for_script(&[0, 26]));
    store.save_bytes_to_stable(&tkey, Vec::new()); // malformed: empty blob
    match engine.setup_model(&store) {
        EmptyResult::Failed(m) => assert!(m.starts_with("Failed to load tokenizer:")),
        EmptyResult::Completed => panic!("setup must fail on a malformed tokenizer"),
    }
}

#[test]
fn setup_reports_weights_decode_failure() {
    let mut engine: Engine<ScriptedModel, ScriptedCodec> = Engine::new();
    let mut store = StableStore::new();
    let wkey = String::from("model_weights");
    let tkey = String::from("tokenizer");
    store.save_bytes_to_stable(&wkey, vec![1, 2, 3]); // not a multiple of four
    store.save_bytes_to_stable(&tkey, vec![1]);
    match engine.setup_model(&store) {
        EmptyResult::Failed(m) => assert!(m.starts_with("Failed to load model:")),
        EmptyResult::Completed => panic!("setup must fail on malformed weights"),
    }
}

#[test]
fn full_pipeline_upload_setup_generate_reset() {
    let mut engine: Engine<ScriptedModel, ScriptedCodec> = Engine::new();
    let mut store = StableStore::new();
    let mut up = Uploader::new();

    // Weights arrive as two out-of-order chunks; tokenizer sequentially.
    let weights = weights_for_script(&[7, 4, 11, 11, 14, 26]); // "hello" then eos
    let (first, second) = weights.split_at(8);
    up.append_parallel_chunk(1, second.to_vec());
    up.append_parallel_chunk(0, first.to_vec());
    let wkey = String::from("model_weights");
    assert_eq!(up.save_parallel_to_stable(&mut store, &wkey), Ok(weights.len()));

    up.append_chunk(vec![1]); // flag byte: primary end marker present
    let tkey = String::from("tokenizer");
    assert_eq!(up.save_to_stable(&mut store, &tkey), Ok(()));

    match engine.setup_model(&store) {
        EmptyResult::Completed => {},
        EmptyResult::Failed(m) => panic!("setup failed: {}", m),
    }
    assert!(engine.is_model_loaded());
    assert_eq!(engine.get_model_info(), ModelInfo { loaded: true, current_tokens: 0 });

    let mut meter = TickMeter::new(1);
    let resp = engine.generate(
        &mut meter,
        InferenceRequest { prompt: String::from("hi"), config: Some(greedy_config()) },
    );
    assert!(resp.success);
    assert_eq!(resp.generated_text, "hello"); // eos decodes to nothing
    assert_eq!(resp.tokens_generated, 6);
    assert!(resp.instructions_used > 0);

    let info = engine.get_model_info();
    assert!(info.loaded);
    assert_eq!(info.current_tokens, 2 + 6); // prompt + generated

    match engine.reset_generation() {
        EmptyResult::Completed => {},
        EmptyResult::Failed(m) => panic!("reset failed: {}", m),
    }
    assert_eq!(engine.get_model_info(), ModelInfo { loaded: true, current_tokens: 0 });
}

#[test]
fn eos_resolution_falls_back_to_secondary_marker() {
    let mut engine: Engine<ScriptedModel, ScriptedCodec> = Engine::new();
    let mut store = StableStore::new();
    let wkey = String::from("model_weights");
    let tkey = String::from("tokenizer");
    // Script: 'x', then the secondary marker id 27.
    store.save_bytes_to_stable(&wkey, weights_for_script(&[23, 27, 0, 0]));
    store.save_bytes_to_stable(&tkey, vec![2]); // only the secondary marker
    match engine.setup_model(&store) {
        EmptyResult::Completed => {},
        EmptyResult::Failed(m) => panic!("setup failed: {}", m),
    }
    let mut meter = TickMeter::new(1);
    let resp = engine.generate(
        &mut meter,
        InferenceRequest { prompt: String::from("a"), config: Some(greedy_config()) },
    );
    assert!(resp.success);
    assert_eq!(resp.tokens_generated, 2); // stopped at 27
    assert_eq!(resp.generated_text, "x");
}

#[test]
fn eos_resolution_defaults_to_zero_without_markers() {
    let mut engine: Engine<ScriptedModel, ScriptedCodec> = Engine::new();
    let mut store = StableStore::new();
    let wkey = String::from("model_weights");
    let tkey = String::from("tokenizer");
    // Script: 'f', then token 0, which is the fallback terminator.
    store.save_bytes_to_stable(&wkey, weights_for_script(&[5, 0, 9, 9]));
    store.save_bytes_to_stable(&tkey, vec![4]); // flag byte without marker bits
    match engine.setup_model(&store) {
        EmptyResult::Completed => {},
        EmptyResult::Failed(m) => panic!("setup failed: {}", m),
    }
    let mut meter = TickMeter::new(1);
    let resp = engine.generate(
        &mut meter,
        InferenceRequest { prompt: String::from("b"), config: Some(greedy_config()) },
    );
    assert!(resp.success);
    assert_eq!(resp.tokens_generated, 2); // stopped at token 0
}

#[test]
fn stepwise_generation_matches_the_loop() {
    let mut session = session_with_script(vec![2, 3, 26], 26);
    let first = session.init_with_prompt("ab", &greedy_config()).expect("prime");
    assert_eq!(first, "c");
    assert_eq!(session.get_token_count(), 3);
    assert!(!session.is_eos());
    let second = session.next_token().expect("step");
    assert_eq!(second, "d");
    let third = session.next_token().expect("step");
    assert_eq!(third, ""); // the end marker decodes to nothing
    assert!(session.is_eos());
    assert_eq!(session.get_token_count(), 5);
}

#[test]
fn next_token_requires_a_primed_session() {
    let mut session = session_with_script(vec![0], 26);
    let err = session.next_token().expect_err("stepping before priming must fail");
    assert_eq!(err, "No tokens generated yet");
}

#[test]
fn session_load_checks_both_blobs() {
    let ok = ModelSession::<ScriptedModel, ScriptedCodec>::load(
        &weights_for_script(&[0, 26]),
        &vec![1u8],
    );
    assert!(ok.is_ok());
    let bad_weights =
        ModelSession::<ScriptedModel, ScriptedCodec>::load(&vec![1u8, 2, 3], &vec![1u8]);
    assert!(bad_weights.is_err());
    let bad_tokenizer = ModelSession::<ScriptedModel, ScriptedCodec>::load(
        &weights_for_script(&[0, 26]),
        &Vec::new(),
    );
    assert!(bad_tokenizer.is_err());
}

#[test]
fn prime_with_encoding_is_exact() {
    let mut session = session_with_script(vec![9], 26);
    // An encode failure passes through as a tokenization error.
    let r = session.prime_with_encoding(&greedy_config(), Err(String::from("bad prompt")));
    assert!(r.is_err());
    assert_eq!(session.get_token_count(), 0);
    // An empty encoding is rejected the same way.
    let r = session.prime_with_encoding(&greedy_config(), Ok(Vec::new()));
    assert!(r.is_err());
    assert_eq!(session.get_token_count(), 0);
    // A real encoding is consumed whole and exactly one token follows it.
    let r = session.prime_with_encoding(&greedy_config(), Ok(vec![0, 1, 2]));
    let (tok, frag) = r.expect("priming succeeds");
    assert_eq!(tok, 9);
    assert_eq!(frag, "j");
    assert_eq!(session.get_token_count(), 4);
}

#[test]
fn fragment_of_swallows_decode_failures() {
    assert_eq!(fragment_of(Ok(String::from("ok"))), "ok");
    assert_eq!(fragment_of(Err(String::from("broken"))), "");
}

#[test]
fn script_parsing_is_little_endian() {
    let parsed = ScriptedModel::parse_script(&vec![1, 0, 0, 0, 42, 1, 0, 0]);
    assert_eq!(parsed.expect("aligned payload parses"), vec![1, 298]);
    assert!(ScriptedModel::parse_script(&vec![1, 2, 3]).is_err());
    assert_eq!(ScriptedModel::parse_script(&Vec::new()).expect("empty is aligned"), Vec::new());
}

#[test]
fn scripted_codec_round_trips_letters() {
    let toks = ScriptedCodec::encode_letters("abz").expect("letters encode");
    assert_eq!(toks, vec![0, 1, 25]);
    assert!(ScriptedCodec::encode_letters("a b").is_err());
    assert_eq!(ScriptedCodec::decode_letter(25).expect("in vocabulary"), "z");
    assert!(ScriptedCodec::decode_letter(26).is_err());
    let codec = ScriptedCodec::decode_markers(&vec![3]).expect("flags decode");
    assert_eq!(codec.marker_id("<|endoftext|>"), Some(26));
    assert_eq!(codec.marker_id("<|im_end|>"), Some(27));
    assert_eq!(codec.marker_id("other"), None);
    assert!(ScriptedCodec::decode_markers(&Vec::new()).is_err());
}

#[test]
fn default_config_matches_documented_values() {
    let c = GenerationConfig::default();
    assert_eq!(c.temperature_milli, 700);
    assert_eq!(c.top_p_milli, 900);
    assert_eq!(c.repeat_penalty_milli, 1100);
    assert_eq!(c.repeat_last_n, 64);
    assert_eq!(c.seed, 42);
    assert!(!c.greedy());
    assert!(c.nucleus_enabled());
    assert!(c.penalty_enabled());
    let greedy = greedy_config();
    assert!(greedy.greedy());
    assert!(!greedy.penalty_enabled());
}

#[test]
fn reloading_replaces_the_session() {
    let mut engine: Engine<ScriptedModel, ScriptedCodec> = Engine::new();
    let mut store = StableStore::new();
    let wkey = String::from("model_weights");
    let tkey = String::from("tokenizer");
    store.save_bytes_to_stable(&wkey, weights_for_script(&[2, 26]));
    store.save_bytes_to_stable(&tkey, vec![1]);
    match engine.setup_model(&store) {
        EmptyResult::Completed => {},
        EmptyResult::Failed(m) => panic!("setup failed: {}", m),
    }
    let mut meter = TickMeter::new(1);
    let resp = engine.generate(
        &mut meter,
        InferenceRequest { prompt: String::from("a"), config: Some(greedy_config()) },
    );
    assert!(resp.success);
    assert!(engine.get_model_info().current_tokens > 0);
    // A fresh setup discards all prior generation state.
    match engine.setup_model(&store) {
        EmptyResult::Completed => {},
        EmptyResult::Failed(m) => panic!("second setup failed: {}", m),
    }
    assert_eq!(engine.get_model_info(), ModelInfo { loaded: true, current_tokens: 0 });
}
