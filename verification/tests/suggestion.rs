use harper_zh::lint::Span;
use harper_zh::suggestion::Suggestion;

#[test]
fn insert_comma_after() {
    let source = "This is a test";
    let mut source_chars: Vec<char> = source.chars().collect();
    let sug = Suggestion::InsertAfter(vec![',']);
    sug.apply(Span::new(0, 4), &mut source_chars);

    assert_eq!(source_chars, "This, is a test".chars().collect::<Vec<_>>());
}

#[test]
fn suggestion_your_match_case() {
    let template: Vec<_> = "You're".chars().collect();
    let value: Vec<_> = "you are".chars().collect();

    let correct = "You are".chars().collect();

    assert_eq!(
        Suggestion::replace_with_match_case(value, &template),
        Suggestion::ReplaceWith(correct)
    )
}

#[test]
fn issue_1065() {
    let template: Vec<_> = "Stack Overflow".chars().collect();
    let value: Vec<_> = "stackoverflow".chars().collect();

    let correct = "StackOverflow".chars().collect();

    assert_eq!(
        Suggestion::replace_with_match_case(value, &template),
        Suggestion::ReplaceWith(correct)
    )
}
