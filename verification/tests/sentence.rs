use whisper_vox::sentence::{is_abbreviation, is_terminal, SentenceDetector};

#[test]
fn test_simple_sentence() {
    let mut sd = SentenceDetector::new();
    let (sentences, remaining) = sd.process("Hello world. How are you?");
    assert_eq!(sentences, vec!["Hello world.", "How are you?"]);
    assert_eq!(remaining, "");
}

#[test]
fn test_abbreviation() {
    let mut sd = SentenceDetector::new();
    let (sentences, remaining) = sd.process("Talk to Dr. Smith about it.");
    assert_eq!(sentences, vec!["Talk to Dr. Smith about it."]);
    assert_eq!(remaining, "");
}

#[test]
fn test_ellipsis() {
    let mut sd = SentenceDetector::new();
    let (sentences, remaining) = sd.process("Well... I think so.");
    assert_eq!(sentences, vec!["Well... I think so."]);
    assert_eq!(remaining, "");
}

#[test]
fn test_fragment() {
    let mut sd = SentenceDetector::new();
    let (sentences, remaining) = sd.process("Hello world");
    assert!(sentences.is_empty());
    assert_eq!(remaining, "Hello world");
}

#[test]
fn sentence_fragment_carries_over() {
    let mut sd = SentenceDetector::new();
    let (s1, r1) = sd.process("Hello wor");
    assert!(s1.is_empty());
    assert_eq!(r1, "Hello wor");
    let (s2, r2) = sd.process("ld! And then");
    assert_eq!(s2, vec!["Hello world!"]);
    assert_eq!(r2, "And then");
    assert_eq!(sd.flush(), Some("And then".to_string()));
    assert_eq!(sd.flush(), None);
}

#[test]
fn sentence_reset_drops_buffer() {
    let mut sd = SentenceDetector::new();
    sd.process("Something unfinished");
    sd.reset();
    assert_eq!(sd.flush(), None);
    let (s, r) = sd.process("New. ");
    assert_eq!(s, vec!["New."]);
    assert_eq!(r, "");
}

#[test]
fn sentence_trailing_ellipsis_is_kept() {
    let mut sd = SentenceDetector::new();
    let (s, r) = sd.process("Wait...");
    assert!(s.is_empty());
    assert_eq!(r, "Wait...");
}

#[test]
fn sentence_multi_period_abbreviations_stay_inside() {
    let mut sd = SentenceDetector::new();
    let (s, r) = sd.process("Use e.g. this one.");
    assert_eq!(s, vec!["Use e.g. this one."]);
    assert_eq!(r, "");
    let (s, r) = sd.process("Fruit i.e. apples");
    assert!(s.is_empty());
    assert_eq!(r, "Fruit i.e. apples");
    sd.reset();
    let (s, r) = sd.process("Meet at 5 p.m. today. Done.");
    assert_eq!(s, vec!["Meet at 5 p.m. today.", "Done."]);
    assert_eq!(r, "");
}

#[test]
fn sentence_lone_initial_still_splits() {
    // "e." that the rest of an abbreviation does not follow ends a sentence
    let mut sd = SentenceDetector::new();
    let (s, r) = sd.process("Plan e. Then");
    assert_eq!(s, vec!["Plan e."]);
    assert_eq!(r, "Then");
}

#[test]
fn sentence_question_and_exclamation() {
    let mut sd = SentenceDetector::new();
    let (s, r) = sd.process("Why?  Because!   ");
    assert_eq!(s, vec!["Why?", "Because!"]);
    assert_eq!(r, "");
}

#[test]
fn terminal_and_abbreviation_checks() {
    assert!(is_terminal('.'));
    assert!(is_terminal('?'));
    assert!(is_terminal('!'));
    assert!(!is_terminal(','));
    assert!(is_abbreviation("  Talk to Dr.  "));
    assert!(is_abbreviation("Mrs."));
    assert!(is_abbreviation("at 5 p.m."));
    assert!(!is_abbreviation("The end."));
    assert!(!is_abbreviation("dr."));
}
