use whisper_vox::agreement::LocalAgreement;

#[test]
fn test_agreement_basic() {
    let mut ag = LocalAgreement::new(2);
    assert_eq!(ag.process("hello world"), None);
    assert_eq!(ag.process("hello world today"), Some("hello world".into()));
}

#[test]
fn test_agreement_no_match() {
    let mut ag = LocalAgreement::new(2);
    assert_eq!(ag.process("hello"), None);
    assert_eq!(ag.process("goodbye"), None);
}

#[test]
fn test_agreement_incremental() {
    let mut ag = LocalAgreement::new(2);
    ag.process("the quick");
    ag.process("the quick brown");
    // "the quick" confirmed
    assert_eq!(ag.process("the quick brown fox"), Some("brown".into()));
}

#[test]
fn test_reset() {
    let mut ag = LocalAgreement::new(2);
    ag.process("hello world");
    ag.process("hello world");
    ag.reset();
    assert_eq!(ag.process("new text"), None);
}

#[test]
fn agreement_lowercases_words() {
    let mut ag = LocalAgreement::new(2);
    assert_eq!(ag.process("Hello WORLD"), None);
    assert_eq!(ag.process("hello World again"), Some("hello world".into()));
}

#[test]
fn agreement_zero_acts_as_one() {
    let mut ag = LocalAgreement::new(0);
    assert_eq!(ag.process("  One   two\tthree "), Some("one two three".into()));
    assert_eq!(ag.process("one two three four"), Some("four".into()));
}

#[test]
fn agreement_needs_n_passes() {
    let mut ag = LocalAgreement::new(3);
    assert_eq!(ag.process("a b c"), None);
    assert_eq!(ag.process("a b c"), None);
    assert_eq!(ag.process("a b d"), Some("a b".into()));
    // only the newest three passes count
    assert_eq!(ag.process("a b d"), None);
    assert_eq!(ag.process("a b d e"), Some("d".into()));
}

#[test]
fn agreement_never_repeats_positions() {
    let mut ag = LocalAgreement::new(2);
    ag.process("a b");
    assert_eq!(ag.process("a b"), Some("a b".into()));
    // shorter passes confirm nothing new
    assert_eq!(ag.process("a"), None);
    assert_eq!(ag.process("x y z"), None);
    assert_eq!(ag.process("x y z"), Some("z".into()));
}

#[test]
fn agreement_empty_text() {
    let mut ag = LocalAgreement::new(1);
    assert_eq!(ag.process("   "), None);
    assert_eq!(ag.process(""), None);
}
