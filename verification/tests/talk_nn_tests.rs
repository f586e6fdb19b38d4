use lilith::nn::{AiModality, AiStatus, LogLevel, NeuralCore, PipelineStage, RequireItem, LOG_CAPACITY};
use lilith::talk::{tokenize_kana, wav_key};

#[test]
fn kana_become_sample_names() {
    assert_eq!(tokenize_kana("こんにちは"), vec!["ko", "nn", "ni", "ti", "ha"]);
    assert_eq!(tokenize_kana("きょうはしゃしん"), vec!["kyo", "u", "ha", "sya", "si", "nn"]);
    assert_eq!(tokenize_kana("ヴぁ"), vec!["va"]);
    // characters without a sample are skipped
    assert_eq!(tokenize_kana("あ、A い"), vec!["a", "i"]);
    assert!(tokenize_kana("").is_empty());
}

#[test]
fn sample_key_drops_leading_underscores() {
    assert_eq!(wav_key("__ka"), "ka");
    assert_eq!(wav_key("a_b"), "a_b");
    assert_eq!(wav_key("___"), "");
    assert_eq!(wav_key(""), "");
}

#[test]
fn labels_and_keys() {
    assert_eq!(AiModality::Llm.label(), "mini-LLM");
    assert_eq!(AiModality::Image.require_key(), "cnn_weights");
    assert_eq!(AiModality::Sensor.require_key(), "sensor_bridge");
    assert_eq!(PipelineStage::MetaProtocol.label(), "META-PROTO");
    assert_eq!(LogLevel::AiResponse.tag(), "[AI] ");
    assert_eq!(LogLevel::Require.tag(), "[REQ]");
    let r = RequireItem::new("k".to_string(), "L".to_string(), 3);
    assert!(!r.resolved);
    assert_eq!(r.priority, 3);
}

#[test]
fn new_core_state() {
    let c = NeuralCore::new();
    assert_eq!(c.stage, PipelineStage::Idle);
    assert_eq!(c.frame, 0);
    assert_eq!(c.logs.len(), 4);
    assert_eq!(c.logs[0].message, "NeuralCore initialized");
    assert_eq!(c.logs[3].level, LogLevel::Require);
    assert_eq!(c.requires.len(), 4);
    assert_eq!(c.requires[0].key, "llm_weights");
    assert_eq!(c.unresolved_count(), 4);
}

#[test]
fn stages_cycle_through_seven() {
    let mut c = NeuralCore::new();
    let start = c.stage.clone();
    for _ in 0..7 {
        c.advance_stage();
    }
    assert_eq!(c.stage, start);
    assert_eq!(c.logs.back().unwrap().message, "→ IDLE");
    c.advance_stage();
    assert_eq!(c.stage, PipelineStage::Iot);
    assert_eq!(c.logs.back().unwrap().source, "Pipeline");
}

#[test]
fn log_keeps_the_newest_entries() {
    let mut c = NeuralCore::new();
    for i in 0..300 {
        c.log(LogLevel::Info, "t".to_string(), format!("m{}", i));
    }
    assert_eq!(c.logs.len(), LOG_CAPACITY);
    assert_eq!(c.logs.back().unwrap().message, "m299");
    assert_eq!(c.logs.front().unwrap().message, "m44");
}

#[test]
fn ticks_advance_and_ask_once() {
    let mut c = NeuralCore::new();
    for _ in 0..119 {
        c.tick();
    }
    assert_eq!(c.stage, PipelineStage::Idle);
    c.tick();
    assert_eq!(c.frame, 120);
    assert_eq!(c.stage, PipelineStage::Iot);
    for _ in 120..300 {
        c.tick();
    }
    assert_eq!(c.human_requests.len(), 1);
    assert_eq!(c.human_requests[0], "HUMAN INPUT NEEDED: LLM学習済み重み");
    assert_eq!(c.logs.back().unwrap().frame, 300);
    for _ in 300..600 {
        c.tick();
    }
    assert_eq!(c.human_requests.len(), 1);
}

#[test]
fn resolving_brings_waiting_ais_online() {
    let mut c = NeuralCore::new();
    let before = c.logs.len();
    let online = c.resolve_require("tts_model");
    assert_eq!(online, Some(2));
    assert!(c.requires[1].resolved);
    assert!(!c.requires[0].resolved);
    assert!(c.internals[2].online);
    assert!(c.internals[0].online);
    assert!(!c.internals[1].online && !c.internals[3].online && !c.internals[4].online);
    assert_eq!(c.logs.len(), before + 1);
    assert_eq!(c.logs.back().unwrap().source, "mini-Talk");
    assert_eq!(c.logs.back().unwrap().message, "tts_model online");
    let before = c.logs.len();
    assert_eq!(c.resolve_require("nothing"), None);
    assert_eq!(c.logs.len(), before);
}

#[test]
fn only_the_first_waiting_ai_comes_online() {
    let mut c = NeuralCore::new();
    c.internals.push(AiStatus { modality: AiModality::Talk, online: false });
    let before = c.logs.len();
    assert_eq!(c.resolve_require("tts_model"), Some(2));
    assert!(c.internals[2].online);
    assert!(!c.internals[5].online);
    assert_eq!(c.logs.len(), before + 2);
}

#[test]
fn new_core_ais_and_layers() {
    let c = NeuralCore::new();
    let mods: Vec<AiModality> = c.internals.iter().map(|a| a.modality).collect();
    assert_eq!(mods, vec![AiModality::Image, AiModality::Llm, AiModality::Talk, AiModality::Listen, AiModality::Sensor]);
    let online: Vec<bool> = c.internals.iter().map(|a| a.online).collect();
    assert_eq!(online, vec![true, false, false, false, false]);
    let shapes: Vec<(String, usize, usize)> = c.layers.iter().map(|l| (l.label.clone(), l.rows, l.cols)).collect();
    assert_eq!(shapes, vec![
        ("perception".to_string(), 64, 64),
        ("integration".to_string(), 64, 128),
        ("output".to_string(), 128, 32),
    ]);
    assert!(c.human_requests.is_empty());
    assert!(c.logs.iter().all(|e| e.frame == 0));
}

#[test]
fn mark_online_takes_the_first_of_a_modality() {
    let mut c = NeuralCore::new();
    assert_eq!(c.mark_online(AiModality::Llm), Some(1));
    assert!(c.internals[1].online);
    assert!(!c.internals[2].online);
    let logs = c.logs.len();
    assert_eq!(c.mark_online(AiModality::Llm), Some(1));
    assert_eq!(c.logs.len(), logs);
}

#[test]
fn ticks_keep_the_log_bounded() {
    let mut c = NeuralCore::new();
    for i in 0..300 {
        c.log(LogLevel::Info, "t".to_string(), format!("m{}", i));
    }
    for _ in 0..1200 {
        c.tick();
        assert!(c.logs.len() <= LOG_CAPACITY);
    }
}

#[test]
fn requirement_line_and_requests() {
    let mut c = NeuralCore::new();
    assert_eq!(c.require_line(), "REQUIRE: llm_weights | tts_model | stt_model | sensor_bridge");
    c.resolve_require("tts_model");
    c.resolve_require("llm_weights");
    assert_eq!(c.require_line(), "REQUIRE: stt_model | sensor_bridge");
    let before = c.logs.len();
    c.request_to_human();
    assert_eq!(c.logs.len(), before + 2);
    assert_eq!(c.logs.back().unwrap().message, "[HUMAN] Please provide: IOTセンサーブリッジ");
    c.resolve_require("stt_model");
    c.resolve_require("sensor_bridge");
    assert_eq!(c.require_line(), "REQUIRE: (all resolved)");
    assert_eq!(c.unresolved_count(), 0);
}

#[test]
fn autosave_needs_open_requirements() {
    let mut c = NeuralCore::new();
    assert!(c.autosave_due(600));
    assert!(c.autosave_due(0));
    assert!(!c.autosave_due(599));
    c.resolve_require("llm_weights");
    c.resolve_require("tts_model");
    assert!(c.autosave_due(1200));
    c.resolve_require("stt_model");
    assert!(!c.autosave_due(1200));
}

#[test]
fn kana_text_splits_at_safe_points() {
    let a = "きょうは";
    let b = "しゃしん";
    let mut whole = tokenize_kana(a);
    whole.extend(tokenize_kana(b));
    assert_eq!(tokenize_kana(&format!("{}{}", a, b)), whole);
    // a pair across the cut is taken whole: the law's condition excludes it
    assert_eq!(tokenize_kana("き"), vec!["ki"]);
    assert_eq!(tokenize_kana("きゃ"), vec!["kya"]);
    // ASCII, 'ー', a lone 'ヴ' and kanji give no token
    assert!(tokenize_kana("Aー漢ヴ").is_empty());
}
