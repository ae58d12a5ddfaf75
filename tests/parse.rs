use quizgen::generate::{build_prompt, exit_code, question_from_reply, trim_text};
use quizgen::question::{parse_response, Marker, Question, QuizError};

fn opts(q: &Question) -> Vec<&str> {
    q.options.iter().map(|s| s.as_str()).collect()
}

#[test]
fn strips_question_label() {
    let q = parse_response("Math", "Question: What is 2+2?\nOptions: 3; 4; 5; 6\nAnswer: 4").unwrap();
    assert_eq!(q.category, "Math");
    assert_eq!(q.question, "What is 2+2?");
    assert_eq!(opts(&q), vec!["3", "4", "5", "6"]);
    assert_eq!(q.answer, "4");
}

#[test]
fn drops_empty_option_pieces() {
    let q = parse_response("c", "Options: a; ; b;\nAnswer: a").unwrap();
    assert_eq!(opts(&q), vec!["a", "b"]);
    assert_eq!(q.question, "");
}

#[test]
fn whitespace_only_options_give_empty_list() {
    let q = parse_response("c", "Q?\nOptions:  ;\t;  \nAnswer: none").unwrap();
    assert!(q.options.is_empty());
    assert_eq!(q.answer, "none");
}

#[test]
fn missing_options_marker() {
    let r = parse_response("c", "Question: x\nAnswer: y");
    assert!(matches!(r, Err(QuizError::MalformedResponse(Marker::Options))));
}

#[test]
fn two_options_markers_are_malformed() {
    let r = parse_response("c", "Options: a Options: b Answer: c");
    assert!(matches!(r, Err(QuizError::MalformedResponse(Marker::Options))));
}

#[test]
fn missing_answer_marker() {
    let r = parse_response("c", "Question: x\nOptions: a; b");
    assert!(matches!(r, Err(QuizError::MalformedResponse(Marker::Answer))));
}

#[test]
fn two_answer_markers_are_malformed() {
    let r = parse_response("c", "Q\nOptions: a; b\nAnswer: a\nAnswer: b");
    assert!(matches!(r, Err(QuizError::MalformedResponse(Marker::Answer))));
}

#[test]
fn answer_before_options_is_malformed() {
    let r = parse_response("c", "Answer: 4\nOptions: 3; 4");
    assert!(matches!(r, Err(QuizError::MalformedResponse(Marker::Answer))));
}

#[test]
fn empty_reply_is_malformed() {
    let r = parse_response("c", "");
    assert!(matches!(r, Err(QuizError::MalformedResponse(Marker::Options))));
}

#[test]
fn options_keep_order_and_inner_spaces() {
    let q = parse_response("c", "Pick one Options:  the first ;second one;  third\nAnswer:  second one  ").unwrap();
    assert_eq!(opts(&q), vec!["the first", "second one", "third"]);
    assert_eq!(q.question, "Pick one");
    assert_eq!(q.answer, "second one");
}

#[test]
fn every_question_label_is_removed() {
    let q = parse_response("c", "Question: Question: twice\nOptions: a\nAnswer: a").unwrap();
    assert_eq!(q.question, "twice");
}

#[test]
fn unicode_whitespace_is_trimmed() {
    let q = parse_response("c", "\u{3000}Why?\u{A0}Options:\u{2003}x\u{2003};y Answer:\u{85}x").unwrap();
    assert_eq!(q.question, "Why?");
    assert_eq!(opts(&q), vec!["x", "y"]);
    assert_eq!(q.answer, "x");
}

#[test]
fn non_ascii_text_is_kept() {
    let q = parse_response("c", "Question: Qu'est-ce que π?\nOptions: 3,14; ≈3\nAnswer: ≈3").unwrap();
    assert_eq!(q.question, "Qu'est-ce que π?");
    assert_eq!(opts(&q), vec!["3,14", "≈3"]);
    assert_eq!(q.answer, "≈3");
}

#[test]
fn reparsing_serialized_fields_gives_same_values() {
    let q = parse_response("Math", "Question: What is 2+2?\nOptions: 3; 4; 5; 6\nAnswer: 4").unwrap();
    let text = q.to_reply_text();
    let again = parse_response("Math", &text).unwrap();
    assert_eq!(again.question, q.question);
    assert_eq!(again.options, q.options);
    assert_eq!(again.answer, q.answer);
}

#[test]
fn backend_failure_is_reported_with_nonzero_exit() {
    let r = question_from_reply("Quantitative Aptitude", Err("connection refused".to_string()));
    match &r {
        Err(QuizError::Backend(cause)) => assert_eq!(cause, "connection refused"),
        _ => panic!("expected a backend error"),
    }
    assert_eq!(exit_code(&r), 1);
    assert_eq!(r.unwrap_err().message(), "generation backend failed: connection refused");
}

#[test]
fn reply_text_is_trimmed_and_parsed() {
    let r = question_from_reply("c", Ok("  \n Question: A?\nOptions: x; y\nAnswer: y \n".to_string()));
    assert_eq!(exit_code(&r), 0);
    let q = r.unwrap();
    assert_eq!(q.question, "A?");
    assert_eq!(opts(&q), vec!["x", "y"]);
    assert_eq!(q.answer, "y");
}

#[test]
fn malformed_reply_gives_nonzero_exit() {
    let r = question_from_reply("c", Ok("no markers here".to_string()));
    assert_eq!(exit_code(&r), 1);
    assert_eq!(r.unwrap_err().message(), "Unexpected response format: missing 'Options:'");
}

#[test]
fn missing_answer_message() {
    let e = parse_response("c", "Options: a").unwrap_err();
    assert_eq!(e.message(), "Unexpected response format: missing 'Answer:'");
}

#[test]
fn prompt_names_category_and_template() {
    let p = build_prompt("Quantitative Aptitude");
    assert_eq!(
        p,
        "Generate a unique Quantitative Aptitude question with a detailed answer and multiple choice options in the following format:\nQuestion: <question text>\nOptions: <option1>; <option2>; <option3>; <option4>\nAnswer: <short Answer for understanding>"
    );
}

#[test]
fn trim_text_removes_outer_whitespace_only() {
    assert_eq!(trim_text(" \t a b \r\n"), "a b");
    assert_eq!(trim_text("   "), "");
    assert_eq!(trim_text(""), "");
}

#[test]
fn reply_text_follows_template() {
    let q = parse_response("c", "Question: Sum?\nOptions: 1;2 ; ;3\nAnswer: 3").unwrap();
    assert_eq!(q.to_reply_text(), "Question: Sum?\nOptions: 1; 2; 3\nAnswer: 3");
}

#[test]
fn reply_text_without_options_reparses_to_empty_list() {
    let q = Question { category: "c".to_string(), question: "Q?".to_string(), options: vec![], answer: "none".to_string() };
    let text = q.to_reply_text();
    assert_eq!(text, "Question: Q?\nOptions: \nAnswer: none");
    let again = parse_response("c", &text).unwrap();
    assert!(again.options.is_empty());
    assert_eq!(again.question, "Q?");
    assert_eq!(again.answer, "none");
}
