use dupfind::index::DuplicateGroup;
use dupfind::input::ParseFailure;
use dupfind::resolve::{respond, respond_trimmed, Action, Resolver};

fn group(paths: &[&str]) -> DuplicateGroup {
    DuplicateGroup { digest: 7, paths: paths.iter().map(|p| p.to_string()).collect() }
}

#[test]
fn blank_answer_deletes_nothing_and_moves_on() {
    let (actions, accepted) = respond(&group(&["a", "b"]), "   \n");
    assert_eq!(actions, vec![Action::ReportNothingDeleted]);
    assert!(accepted);
    let (actions, accepted) = respond(&group(&["a", "b"]), "");
    assert_eq!(actions, vec![Action::ReportNothingDeleted]);
    assert!(accepted);
}

#[test]
fn out_of_range_member_is_reported_after_valid_deletion() {
    let (actions, accepted) = respond(&group(&["a", "b"]), "1,99");
    assert_eq!(actions, vec![Action::SoftDelete("a".to_string()), Action::ReportOutOfRange(99)]);
    assert!(!accepted);
}

#[test]
fn unparsable_token_deletes_nothing() {
    let (actions, accepted) = respond(&group(&["a", "b"]), "abc");
    assert_eq!(actions, vec![Action::ReportUnparsable("abc".to_string(), ParseFailure::InvalidDigit)]);
    assert!(!accepted);
}

#[test]
fn tokens_are_trimmed_and_numbered_from_one() {
    let (actions, accepted) = respond(&group(&["a", "b", "c"]), " 3 , +2\n");
    assert_eq!(actions, vec![Action::SoftDelete("c".to_string()), Action::SoftDelete("b".to_string())]);
    assert!(accepted);
}

#[test]
fn zero_is_out_of_range() {
    let (actions, accepted) = respond(&group(&["a", "b"]), "0");
    assert_eq!(actions, vec![Action::ReportOutOfRange(0)]);
    assert!(!accepted);
}

#[test]
fn empty_token_and_huge_number_are_unparsable() {
    let (actions, accepted) = respond(&group(&["a", "b"]), "2,,99999999999999999999999999");
    assert_eq!(
        actions,
        vec![
            Action::SoftDelete("b".to_string()),
            Action::ReportUnparsable("".to_string(), ParseFailure::Empty),
            Action::ReportUnparsable("99999999999999999999999999".to_string(), ParseFailure::TooLarge),
        ]
    );
    assert!(!accepted);
}

#[test]
fn unparsable_token_keeps_its_spaces() {
    let (actions, _) = respond(&group(&["a", "b"]), "1, x ");
    assert_eq!(
        actions,
        vec![Action::SoftDelete("a".to_string()), Action::ReportUnparsable(" x".to_string(), ParseFailure::InvalidDigit)]
    );
}

#[test]
fn resolver_repeats_a_group_until_answered() {
    let mut r = Resolver::new(vec![group(&["a", "b"]), group(&["c", "d", "e"])]);
    assert_eq!(r.total(), 2);
    assert!(!r.is_done());
    assert_eq!(r.position(), 1);
    let actions = r.submit("1,99");
    assert_eq!(actions, vec![Action::SoftDelete("a".to_string()), Action::ReportOutOfRange(99)]);
    assert_eq!(r.position(), 1);
    let actions = r.submit("abc");
    assert_eq!(actions.len(), 1);
    assert_eq!(r.position(), 1);
    let actions = r.submit("");
    assert_eq!(actions, vec![Action::ReportNothingDeleted]);
    assert_eq!(r.position(), 2);
    assert_eq!(r.current_group().paths.len(), 3);
    let actions = r.submit("3");
    assert_eq!(actions, vec![Action::SoftDelete("e".to_string())]);
    assert!(r.is_done());
}

#[test]
fn unicode_white_space_is_trimmed() {
    let (actions, accepted) = respond(&group(&["a", "b"]), "\u{3000}2\u{a0},\t1 ");
    assert_eq!(actions, vec![Action::SoftDelete("b".to_string()), Action::SoftDelete("a".to_string())]);
    assert!(accepted);
}

#[test]
fn trimmed_line_is_answered_without_trimming_it_again() {
    let (actions, accepted) = respond_trimmed(&group(&["a", "b"]), "2");
    assert_eq!(actions, vec![Action::SoftDelete("b".to_string())]);
    assert!(accepted);
    let (actions, accepted) = respond_trimmed(&group(&["a", "b"]), "");
    assert_eq!(actions, vec![Action::ReportNothingDeleted]);
    assert!(accepted);
}
