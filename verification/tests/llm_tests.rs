use lilith::llm::{
    build_tokenizer, encode_dataset, extract_num, extract_str, parse_dataset, parse_qa_line,
    record_exchange, LlmConfig, QaItem, HISTORY_LIMIT,
};
use lilith::tokenizer::{CharTokenizer, PAD, UNK};

const LINE: &str = r#"{"q_id": 42, "question":"主に子ども向けのもので、イラストのついた物語が書かれているものはどれ？", "choice0":"世界", "choice1":"写真集", "choice2":"絵本", "choice3":"論文", "choice4":"図鑑", "label": 2}"#;

fn item(q: &str, cs: [&str; 5], label: usize) -> QaItem {
    QaItem {
        q_id: 1,
        question: q.to_string(),
        choices: [
            cs[0].to_string(),
            cs[1].to_string(),
            cs[2].to_string(),
            cs[3].to_string(),
            cs[4].to_string(),
        ],
        label,
    }
}

#[test]
fn as_input_joins_question_and_choices() {
    let q = item("Q?", ["a", "b", "c", "d", "e"], 0);
    assert_eq!(q.as_input(), "Q? [0]a [1]b [2]c [3]d [4]e");
}

#[test]
fn extract_string_values() {
    assert_eq!(extract_str(LINE, "choice2"), Some("絵本"));
    assert_eq!(extract_str(r#"{"a":   "x y"}"#, "a"), Some("x y"));
    assert_eq!(extract_str(r#"{"a": 5}"#, "a"), None);
    assert_eq!(extract_str(r#"{"a": "open"#, "a"), None);
    assert_eq!(extract_str(r#"{"b": "x"}"#, "a"), None);
}

#[test]
fn extract_number_values() {
    assert_eq!(extract_num(LINE, "q_id"), Some(42));
    assert_eq!(extract_num(LINE, "label"), Some(2));
    // digits that run to the end of the line are not taken
    assert_eq!(extract_num(r#""n": 17"#, "n"), None);
    assert_eq!(extract_num(r#""n": x}"#, "n"), None);
    assert_eq!(extract_num(r#""n":18446744073709551615}"#, "n"), Some(u64::MAX));
    assert_eq!(extract_num(r#""n":18446744073709551616}"#, "n"), None);
}

#[test]
fn parse_a_full_line() {
    let q = parse_qa_line(LINE).unwrap();
    assert_eq!(q.q_id, 42);
    assert_eq!(q.label, 2);
    assert_eq!(q.choices[2], "絵本");
    assert_eq!(q.choices[4], "図鑑");
    assert!(q.question.starts_with("主に"));
    assert!(parse_qa_line(r#"{"q_id": 1, "question":"x"}"#).is_none());
}

#[test]
fn dataset_skips_blank_and_broken_lines() {
    let raw = format!("{}\n\n   \nnot json\r\n  {}  \r\n", LINE, LINE.replace("42", "43"));
    let items = parse_dataset(&raw);
    assert_eq!(items.len(), 2);
    assert_eq!(items[0].q_id, 42);
    assert_eq!(items[1].q_id, 43);
    assert!(parse_dataset("").is_empty());
}

#[test]
fn tokenizer_reserves_pad_and_unk() {
    let t = CharTokenizer::build(&["abca", "cd"]);
    assert_eq!(t.id_to_char, vec![PAD, UNK, 'a', 'b', 'c', 'd']);
    assert_eq!(t.vocab_size, 6);
    assert_eq!(t.char_to_id.get(&('c' as u32)), Some(&4));
}

#[test]
fn encode_pads_truncates_and_marks_unknown() {
    let t = CharTokenizer::build(&["abc"]);
    assert_eq!(t.encode("ab", 4), vec![2, 3, 0, 0]);
    assert_eq!(t.encode("abcab", 3), vec![2, 3, 4]);
    assert_eq!(t.encode("azc", 3), vec![2, 1, 4]);
    assert_eq!(t.encode("", 2), vec![0, 0]);
    assert!(t.encode("abc", 0).is_empty());
}

#[test]
fn known_characters_decode_back() {
    let t = CharTokenizer::build(&["日本語", "テキスト"]);
    let ids = t.encode("本テ語", 3);
    let back: String = ids.iter().map(|&i| t.id_to_char[i]).collect();
    assert_eq!(back, "本テ語");
}

#[test]
fn config_for_the_question_set() {
    let c = LlmConfig::default_qa(300);
    assert_eq!((c.d_model, c.n_heads, c.d_ff, c.seq_len, c.n_classes, c.vocab_size), (64, 4, 256, 128, 5, 300));
    assert_eq!(c.d_k(), 16);
}

#[test]
fn tokenizer_and_training_pairs_of_a_data_set() {
    let items = vec![item("あい", ["う", "え", "お", "か", "き"], 3)];
    let t = build_tokenizer(&items);
    assert_eq!(t.id_to_char[2], 'あ');
    assert_eq!(t.id_to_char[4], ' ');
    let data = encode_dataset(&t, &items, 8);
    assert_eq!(data.len(), 1);
    assert_eq!(data[0].1, 3);
    assert_eq!(data[0].0, t.encode("あい [0]う [1]え [2]お [3]か [4]き", 8));
    assert_eq!(data[0].0.len(), 8);
}

#[test]
fn chat_history_keeps_the_newest() {
    let mut h: Vec<(String, String)> = Vec::new();
    for i in 0..(HISTORY_LIMIT + 3) {
        record_exchange(&mut h, format!("u{}", i), format!("b{}", i));
    }
    assert_eq!(h.len(), HISTORY_LIMIT);
    assert_eq!(h[0].0, "u3");
    assert_eq!(h[HISTORY_LIMIT - 1].1, format!("b{}", HISTORY_LIMIT + 2));
}

#[test]
fn vocabulary_is_exactly_reserved_plus_text_chars() {
    let texts = ["hello", "world", ""];
    let t = CharTokenizer::build(&texts);
    assert_eq!(t.char_to_id.len(), t.vocab_size);
    assert_eq!(t.vocab_size, t.id_to_char.len());
    for (i, c) in t.id_to_char.iter().enumerate() {
        assert!(i < 2 || texts.iter().any(|s| s.contains(*c)));
        assert_eq!(t.char_to_id.get(&(*c as u32)), Some(&i));
    }
    assert_eq!(t.id_to_char, vec![PAD, UNK, 'h', 'e', 'l', 'o', 'w', 'r', 'd']);
}
