use harper_zh::{classify_char, ScriptKind};

#[test]
fn classifies_mixed() {
    assert_eq!(classify_char('中'), ScriptKind::Cjk);
    assert_eq!(classify_char('A'), ScriptKind::Latin);
    assert_eq!(classify_char('1'), ScriptKind::Digit);
    assert_eq!(classify_char(' '), ScriptKind::Space);
    assert_eq!(classify_char('，'), ScriptKind::Punctuation);
}
