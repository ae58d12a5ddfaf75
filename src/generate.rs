//! The request side: the prompt sent to the generation backend, what becomes
//! of the backend's reply, and the exit status that reports the outcome.
use vstd::prelude::*;
use vstd::string::*;
use crate::question::{
    outcome_view, parse_response, parse_spec, ErrorView, Marker, Question, QuestionView, QuizError,
};
use crate::text::{chars_of, string_of, trim, trim_chars};

verus! {

/// The prompt text before the category.
pub open spec fn prompt_head() -> Seq<char> {
    "Generate a unique "@
}

/// The prompt text after the category: the template the reply must follow.
pub open spec fn prompt_tail() -> Seq<char> {
    " question with a detailed answer and multiple choice options in the following format:\nQuestion: <question text>\nOptions: <option1>; <option2>; <option3>; <option4>\nAnswer: <short Answer for understanding>"@
}

/// The prompt that asks for one question of `category`.
pub open spec fn prompt_spec(category: Seq<char>) -> Seq<char> {
    prompt_head() + category + prompt_tail()
}

/// Builds the prompt that asks the model for one question of `category`.
pub fn build_prompt(category: &str) -> (r: String)
    ensures
        r@ == prompt_spec(category@),
{
    let mut r = String::from_str("Generate a unique ");
    r.append(category);
    r.append(
        " question with a detailed answer and multiple choice options in the following format:\nQuestion: <question text>\nOptions: <option1>; <option2>; <option3>; <option4>\nAnswer: <short Answer for understanding>",
    );
    r
}

/// `s` without leading and trailing whitespace.
pub fn trim_text(s: &str) -> (r: String)
    ensures
        r@ == trim(s@),
{
    let t = trim_chars(&chars_of(s));
    string_of(&t)
}

/// The value of a backend reply: its text, or the cause of its failure.
pub open spec fn reply_view(reply: Result<String, String>) -> Result<Seq<char>, Seq<char>> {
    match reply {
        Ok(t) => Ok(t@),
        Err(d) => Err(d@),
    }
}

/// What a backend reply yields: a failure stays a backend error with its
/// cause; a text is trimmed and parsed.
pub open spec fn reply_spec(category: Seq<char>, reply: Result<Seq<char>, Seq<char>>) -> Result<
    QuestionView,
    ErrorView,
> {
    match reply {
        Ok(t) => parse_spec(category, trim(t)),
        Err(d) => Err(ErrorView::Backend(d)),
    }
}

/// Turns the backend's reply for `category` into a question or an error.
pub fn question_from_reply(category: &str, reply: Result<String, String>) -> (r: Result<
    Question,
    QuizError,
>)
    ensures
        outcome_view(r) == reply_spec(category@, reply_view(reply)),
{
    match reply {
        Ok(t) => {
            let trimmed = trim_text(t.as_str());
            parse_response(category, trimmed.as_str())
        },
        Err(d) => Err(QuizError::Backend(d)),
    }
}

/// The process exit status for an outcome: zero on success, one on any error.
pub open spec fn exit_code_spec(outcome: Result<QuestionView, ErrorView>) -> i32 {
    if outcome is Ok {
        0
    } else {
        1
    }
}

/// The process exit status that reports `outcome`.
pub fn exit_code(outcome: &Result<Question, QuizError>) -> (r: i32)
    ensures
        r == exit_code_spec(outcome_view(*outcome)),
{
    match outcome {
        Ok(_) => 0,
        Err(_) => 1,
    }
}

/// The text that describes an error.
pub open spec fn message_spec(e: ErrorView) -> Seq<char> {
    match e {
        ErrorView::Backend(d) => "generation backend failed: "@ + d,
        ErrorView::MalformedResponse(Marker::Options) => "Unexpected response format: missing 'Options:'"@,
        ErrorView::MalformedResponse(Marker::Answer) => "Unexpected response format: missing 'Answer:'"@,
    }
}

impl QuizError {
    /// The text that describes this error.
    pub fn message(&self) -> (r: String)
        ensures
            r@ == message_spec(self@),
    {
        match self {
            QuizError::Backend(d) => {
                let mut r = String::from_str("generation backend failed: ");
                r.append(d.as_str());
                r
            },
            QuizError::MalformedResponse(Marker::Options) => String::from_str(
                "Unexpected response format: missing 'Options:'",
            ),
            QuizError::MalformedResponse(Marker::Answer) => String::from_str(
                "Unexpected response format: missing 'Answer:'",
            ),
        }
    }
}

} // verus!
