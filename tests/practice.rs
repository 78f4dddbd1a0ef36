use practice_quiz::catalog::{CatalogError, Question, QuestionCatalog, QuestionOption};
use practice_quiz::progress::{contains_id, distinct_ids, AnswerLog, AnswerRecord};
use practice_quiz::report::{accuracy_in_hundredths, accuracy_text, format_percent};
use practice_quiz::selection::{next, next_with_choice, Outcome};
use practice_quiz::session::{
    entry_path, practice_url, resolve, resolve_with, session_cookie, SESSION_LIFETIME_SECS,
};

fn question(id: &str) -> Question {
    Question {
        id: id.to_string(),
        content: Some(format!("content of {}", id)),
        images: None,
        options: vec![
            QuestionOption { content: "yes".to_string(), is_correct: true },
            QuestionOption { content: "no".to_string(), is_correct: false },
        ],
    }
}

fn catalog(ids: &[&str]) -> QuestionCatalog {
    QuestionCatalog::from_questions(ids.iter().map(|id| question(id)).collect()).unwrap()
}

fn offered_id(outcome: &Outcome) -> String {
    match outcome {
        Outcome::InProgress { question, .. } => question.id.clone(),
        Outcome::Completed(_) => panic!("expected a question"),
    }
}

fn strings(ids: &[&str]) -> Vec<String> {
    ids.iter().map(|s| s.to_string()).collect()
}

#[test]
fn two_question_session_end_to_end() {
    let cat = catalog(&["q1", "q2"]);
    let mut log = AnswerLog::new();
    log.record("S", "q1", true);

    let answered = log.answered("S");
    match next(&cat, &answered) {
        Outcome::InProgress { question, current_question_number, total } => {
            assert_eq!(question.id, "q2");
            assert_eq!(current_question_number, 1);
            assert_eq!(total, 2);
        }
        Outcome::Completed(_) => panic!("q2 is still to answer"),
    }

    log.record("S", "q2", false);
    let answered = log.answered("S");
    match next(&cat, &answered) {
        Outcome::Completed(c) => {
            assert_eq!(c.total, 2);
            assert_eq!(c.answered_count, 2);
            assert_eq!(c.accuracy, "100.00%");
        }
        Outcome::InProgress { .. } => panic!("nothing is left"),
    }
}

#[test]
fn empty_catalog_completes_at_once() {
    let cat = catalog(&[]);
    for session in ["S", "another", ""] {
        let log = AnswerLog::new();
        match next(&cat, &log.answered(session)) {
            Outcome::Completed(c) => {
                assert_eq!(c.total, 0);
                assert_eq!(c.answered_count, 0);
                assert_eq!(c.accuracy, "0.00%");
            }
            Outcome::InProgress { .. } => panic!("an empty catalog has nothing to offer"),
        }
    }
}

#[test]
fn empty_catalog_with_stray_answers_reports_zero_accuracy() {
    let cat = catalog(&[]);
    match next(&cat, &strings(&["ghost"])) {
        Outcome::Completed(c) => {
            assert_eq!(c.total, 0);
            assert_eq!(c.answered_count, 1);
            assert_eq!(c.accuracy, "0.00%");
        }
        Outcome::InProgress { .. } => panic!("an empty catalog has nothing to offer"),
    }
}

#[test]
fn next_offers_only_unanswered_questions() {
    let cat = catalog(&["a", "b", "c", "d", "e"]);
    let answered = strings(&["b", "d"]);
    let mut seen = Vec::new();
    for _ in 0..200 {
        let outcome = next(&cat, &answered);
        let id = offered_id(&outcome);
        assert!(id == "a" || id == "c" || id == "e", "offered {}", id);
        if let Outcome::InProgress { current_question_number, total, .. } = outcome {
            assert_eq!(current_question_number, 3);
            assert_eq!(total, 5);
        }
        if !seen.contains(&id) {
            seen.push(id);
        }
    }
    assert_eq!(seen.len(), 3);
}

#[test]
fn next_with_choice_picks_among_remaining_in_catalog_order() {
    let cat = catalog(&["a", "b", "c", "d"]);
    let answered = strings(&["a", "c"]);
    assert_eq!(offered_id(&next_with_choice(&cat, &answered, 0)), "b");
    assert_eq!(offered_id(&next_with_choice(&cat, &answered, 1)), "d");
    assert_eq!(offered_id(&next_with_choice(&cat, &answered, 2)), "b");
    assert_eq!(offered_id(&next_with_choice(&cat, &answered, 7)), "d");
}

#[test]
fn current_number_counts_what_is_left() {
    let cat = catalog(&["a", "b", "c"]);
    match next_with_choice(&cat, &Vec::new(), 0) {
        Outcome::InProgress { question, current_question_number, total } => {
            assert_eq!(question.id, "a");
            assert_eq!(question.content.as_deref(), Some("content of a"));
            assert_eq!(question.options.len(), 2);
            assert_eq!(current_question_number, 3);
            assert_eq!(total, 3);
        }
        Outcome::Completed(_) => panic!("nothing answered yet"),
    }
}

#[test]
fn answered_count_counts_answered_not_correct() {
    let cat = catalog(&["a", "b", "c"]);
    let mut log = AnswerLog::new();
    log.record("S", "a", false);
    log.record("S", "b", false);
    log.record("S", "c", true);
    match next(&cat, &log.answered("S")) {
        Outcome::Completed(c) => {
            assert_eq!(c.total, 3);
            assert_eq!(c.answered_count, 3);
            assert_eq!(c.accuracy, "100.00%");
        }
        Outcome::InProgress { .. } => panic!("all answered"),
    }
}

#[test]
fn unknown_ids_count_toward_accuracy() {
    let cat = catalog(&["a", "b"]);
    match next_with_choice(&cat, &strings(&["a", "b", "zzz"]), 0) {
        Outcome::Completed(c) => {
            assert_eq!(c.answered_count, 3);
            assert_eq!(c.accuracy, "150.00%");
        }
        Outcome::InProgress { .. } => panic!("all answered"),
    }
}

#[test]
fn duplicate_answers_count_once_in_next() {
    let cat = catalog(&["a", "b"]);
    match next_with_choice(&cat, &strings(&["a", "a", "b", "a"]), 0) {
        Outcome::Completed(c) => {
            assert_eq!(c.answered_count, 2);
            assert_eq!(c.accuracy, "100.00%");
        }
        Outcome::InProgress { .. } => panic!("all answered"),
    }
}

#[test]
fn accuracy_is_rounded_to_two_decimals() {
    assert_eq!(accuracy_text(1, 3), "33.33%");
    assert_eq!(accuracy_text(2, 3), "66.67%");
    assert_eq!(accuracy_text(1, 8), "12.50%");
    assert_eq!(accuracy_text(1, 32), "3.12%");
    assert_eq!(accuracy_text(3, 32), "9.38%");
    assert_eq!(accuracy_text(0, 5), "0.00%");
    assert_eq!(accuracy_text(7, 7), "100.00%");
    assert_eq!(accuracy_text(5, 0), "0.00%");
    assert_eq!(accuracy_text(1, 7), "14.29%");
}

#[test]
fn accuracy_hundredths_values() {
    assert_eq!(accuracy_in_hundredths(2, 2), 10000);
    assert_eq!(accuracy_in_hundredths(1, 3), 3333);
    assert_eq!(accuracy_in_hundredths(2, 3), 6667);
    assert_eq!(accuracy_in_hundredths(0, 0), 0);
    assert_eq!(accuracy_in_hundredths(usize::MAX, usize::MAX), 10000);
}

#[test]
fn percent_formatting() {
    assert_eq!(format_percent(0), "0.00%");
    assert_eq!(format_percent(5), "0.05%");
    assert_eq!(format_percent(1234), "12.34%");
    assert_eq!(format_percent(1234567), "12345.67%");
}

#[test]
fn repeated_submission_keeps_remaining_but_adds_a_record() {
    let cat = catalog(&["a", "b", "c"]);
    let mut log = AnswerLog::new();
    log.record("S", "a", true);
    let once = log.answered("S");
    let left_once = match next(&cat, &once) {
        Outcome::InProgress { current_question_number, .. } => current_question_number,
        Outcome::Completed(_) => panic!("two are left"),
    };
    log.record("S", "a", false);
    assert_eq!(log.len(), 2);
    let twice = log.answered("S");
    assert_eq!(twice, vec!["a".to_string()]);
    let left_twice = match next(&cat, &twice) {
        Outcome::InProgress { current_question_number, .. } => current_question_number,
        Outcome::Completed(_) => panic!("two are left"),
    };
    assert_eq!(left_once, 2);
    assert_eq!(left_twice, 2);
}

#[test]
fn remaining_never_grows_as_answers_arrive() {
    let cat = catalog(&["a", "b", "c", "d"]);
    let mut log = AnswerLog::new();
    let mut last = 4usize;
    for q in ["c", "zzz", "c", "a", "b", "d"] {
        log.record("S", q, true);
        let left = match next(&cat, &log.answered("S")) {
            Outcome::InProgress { current_question_number, .. } => current_question_number,
            Outcome::Completed(_) => 0,
        };
        assert!(left <= last);
        last = left;
    }
    assert_eq!(last, 0);
}

#[test]
fn restart_and_fresh_entry_give_a_new_token_with_no_progress() {
    let cat = catalog(&["a", "b"]);
    let mut log = AnswerLog::new();
    let first = resolve(None);
    assert!(first.minted);
    log.record(&first.session_id, "a", true);
    log.record(&first.session_id, "b", true);

    assert_eq!(entry_path(), "/class7/practice");
    let second = resolve(None);
    assert!(second.minted);
    assert_ne!(first.session_id, second.session_id);

    assert!(log.answered(&second.session_id).is_empty());
    assert_eq!(log.answered(&first.session_id).len(), 2);
    assert_eq!(log.len(), 2);
    match next_with_choice(&cat, &log.answered(&second.session_id), 0) {
        Outcome::InProgress { current_question_number, .. } => assert_eq!(current_question_number, 2),
        Outcome::Completed(_) => panic!("a new token starts afresh"),
    }
}

#[test]
fn minted_token_is_a_hyphenated_uuid() {
    let r = resolve(None);
    let id = r.session_id;
    assert_eq!(id.len(), 36);
    for (i, c) in id.chars().enumerate() {
        if i == 8 || i == 13 || i == 18 || i == 23 {
            assert_eq!(c, '-');
        } else {
            assert!(c.is_ascii_hexdigit() && !c.is_ascii_uppercase());
        }
    }
}

#[test]
fn incoming_token_is_used_verbatim() {
    let r = resolve(Some("any string at all".to_string()));
    assert_eq!(r.session_id, "any string at all");
    assert!(!r.minted);
    let r = resolve(Some(String::new()));
    assert_eq!(r.session_id, "");
    assert!(!r.minted);
}

#[test]
fn resolve_with_uses_the_given_fresh_id() {
    let r = resolve_with(None, "fresh".to_string());
    assert_eq!(r.session_id, "fresh");
    assert!(r.minted);
    let r = resolve_with(Some("kept".to_string()), "fresh".to_string());
    assert_eq!(r.session_id, "kept");
    assert!(!r.minted);
}

#[test]
fn cookie_and_urls() {
    assert_eq!(SESSION_LIFETIME_SECS, 3 * 60 * 60);
    assert_eq!(session_cookie("abc"), "practice_id=abc; Path=/class7; HttpOnly; Max-Age=10800");
    assert_eq!(practice_url("abc"), "/class7/practice/abc");
    assert_eq!(entry_path(), "/class7/practice");
}

#[test]
fn catalog_refuses_duplicate_ids() {
    let r = QuestionCatalog::from_questions(vec![question("a"), question("b"), question("a")]);
    assert!(matches!(r, Err(CatalogError::DuplicateId)));
}

#[test]
fn catalog_lookup() {
    let cat = catalog(&["a", "b"]);
    assert_eq!(cat.len(), 2);
    assert_eq!(cat.lookup("b").unwrap().id, "b");
    assert!(matches!(cat.lookup("x"), Err(CatalogError::NotFound)));
    assert!(cat.contains("a"));
    assert!(!cat.contains("x"));
    assert_eq!(cat.questions().len(), 2);
}

#[test]
fn answered_lists_distinct_ids_per_session() {
    let mut log = AnswerLog::new();
    log.record("S", "b", true);
    log.record("T", "a", true);
    log.record("S", "a", false);
    log.record("S", "b", false);
    log.record("S", "unknown", true);
    assert_eq!(log.len(), 5);
    assert_eq!(log.answered("S"), strings(&["b", "a", "unknown"]));
    assert_eq!(log.answered("T"), strings(&["a"]));
    assert!(log.answered("U").is_empty());
}

#[test]
fn records_carry_their_fields() {
    let r = AnswerRecord::submitted("S", "q", true);
    assert_eq!(r.session_id, "S");
    assert_eq!(r.question_id, "q");
    assert!(r.is_correct);
    assert!(!r.created_at.is_empty());
    assert_eq!(r.correct_flag(), 1);
    let r = AnswerRecord::new("S", "q", false, "then".to_string());
    assert_eq!(r.created_at, "then");
    assert_eq!(r.correct_flag(), 0);
    let mut log = AnswerLog::new();
    log.append(r);
    assert_eq!(log.answered("S"), strings(&["q"]));
}

#[test]
fn id_helpers() {
    let ids = strings(&["x", "y", "x", "z", "y"]);
    assert_eq!(distinct_ids(&ids), strings(&["x", "y", "z"]));
    assert!(contains_id(&ids, &"z".to_string()));
    assert!(!contains_id(&ids, &"w".to_string()));
    assert!(distinct_ids(&Vec::new()).is_empty());
}
