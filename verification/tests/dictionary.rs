use harper_zh::dictionary::{audit_dictionary, rename_flag, AuditFault, RenameFault};

const ANNOTATIONS: &str = r##"{"affixes":{"A":{"#":"plural"}},"properties":{"B":{}}}"##;

#[test]
fn rename_flag_rewrites_annotations_only() {
    let dict = "2\nfoo/AB # A comment\nbar/B\n#com/A\nAlpha\n";
    let r = rename_flag(dict, ANNOTATIONS, "A", "Z").unwrap();
    assert_eq!(r.dictionary, "2\nfoo/ZB # A comment\nbar/B\n#com/A\nAlpha");
    assert_eq!(r.annotations, r##"{"affixes":{"Z":{"#":"plural"}},"properties":{"B":{}}}"##);
    assert_eq!(r.description, "plural");
}

#[test]
fn rename_flag_handles_crlf_lines() {
    let r = rename_flag("x/A\r\ny/BA\r\n", ANNOTATIONS, "A", "Q").unwrap();
    assert_eq!(r.dictionary, "x/Q\ny/BQ");
}

#[test]
fn rename_flag_errors() {
    let fault = |d: &str, a: &str, o: &str, n: &str| rename_flag(d, a, o, n).unwrap_err().fault;
    assert_eq!(fault("", ANNOTATIONS, "AB", "Z"), RenameFault::BadOldFlag);
    assert_eq!(fault("", ANNOTATIONS, "A", "/"), RenameFault::BadNewFlag);
    assert_eq!(fault("", ANNOTATIONS, "A", " "), RenameFault::BadNewFlag);
    assert_eq!(fault("", "{not json", "A", "Z"), RenameFault::NotJson);
    assert_eq!(fault("", r##"{"properties":{}}"##, "A", "Z"), RenameFault::NoAffixes);
    assert_eq!(fault("", r##"{"affixes":{"A":{}}}"##, "A", "Z"), RenameFault::NoProperties);
    assert_eq!(fault("", ANNOTATIONS, "C", "Z"), RenameFault::UnknownFlag);
    let taken = rename_flag("", ANNOTATIONS, "A", "B").unwrap_err();
    assert_eq!(taken.fault, RenameFault::FlagTaken);
    assert_eq!(taken.description, "(no description)");
    let taken = rename_flag("", ANNOTATIONS, "B", "A").unwrap_err();
    assert_eq!(taken.description, "plural");
}

#[test]
fn rename_flag_finds_properties_too() {
    let r = rename_flag("w/B\n", ANNOTATIONS, "B", "C").unwrap();
    assert_eq!(r.dictionary, "w/C");
    assert_eq!(r.description, "(no description)");
    assert_eq!(r.annotations, r##"{"affixes":{"A":{"#":"plural"}},"properties":{"C":{}}}"##);
}

#[test]
fn audit_reports_duplicate_unknown_and_unused_flags() {
    let ann = r##"{"affixes":{"A":{},"B":{}},"properties":{"P":{}}}"##;
    let dict = "3\nfoo/AAC\nbar/B x\n# note/Q\nbaz\n";
    let report = audit_dictionary(dict, ann).unwrap();
    let found: Vec<(usize, char, bool, String, String)> = report
        .findings
        .iter()
        .map(|f| (f.line, f.flag, f.duplicate, f.lexeme.clone(), f.annotation.clone()))
        .collect();
    assert_eq!(
        found,
        vec![
            (2, 'A', true, "foo".to_string(), "AAC".to_string()),
            (2, 'C', false, "foo".to_string(), "AAC".to_string()),
        ]
    );
    assert_eq!(report.unused, vec!['P']);
}

#[test]
fn audit_of_a_clean_dictionary_finds_nothing() {
    let ann = r##"{"affixes":{"A":{}},"properties":{"B":{}}}"##;
    let report = audit_dictionary("1\nx/AB # c/Z\n", ann).unwrap();
    assert!(report.findings.is_empty());
    assert!(report.unused.is_empty());
}

#[test]
fn audit_errors() {
    assert_eq!(audit_dictionary("", "nope").unwrap_err(), AuditFault::NotJson);
    assert_eq!(audit_dictionary("", "[1]").unwrap_err(), AuditFault::NotObject);
    assert_eq!(audit_dictionary("", r##"{"properties":{}}"##).unwrap_err(), AuditFault::NoAffixes);
    assert_eq!(audit_dictionary("", r##"{"affixes":{},"properties":[]}"##).unwrap_err(), AuditFault::NoProperties);
}
