//! The quiz question record, its error taxonomy, and the parser that extracts
//! a question from a model's reply.
use vstd::prelude::*;
use vstd::string::*;
use crate::text::{
    chars_of, join, remove_all, remove_all_chars, split_chars, split_on, string_of, trim,
    trim_chars, views,
};

verus! {

/// The marker that opens the option list.
pub open spec fn options_marker() -> Seq<char> {
    "Options:"@
}

/// The marker that opens the answer.
pub open spec fn answer_marker() -> Seq<char> {
    "Answer:"@
}

/// The label that may stand before the question text.
pub open spec fn question_label() -> Seq<char> {
    "Question:"@
}

/// The separator between options.
pub open spec fn option_separator() -> Seq<char> {
    seq![';']
}

/// Which marker a reply lacked.
#[derive(Clone, Copy, Debug, PartialEq, Eq, Structural)]
pub enum Marker {
    Options,
    Answer,
}

/// Why no question came out.
#[derive(Debug)]
pub enum QuizError {
    /// The generation backend failed or could not be reached; the cause is kept.
    Backend(String),
    /// The reply lacked a marker in the expected number.
    MalformedResponse(Marker),
}

/// The mathematical value of a `QuizError`.
pub enum ErrorView {
    Backend(Seq<char>),
    MalformedResponse(Marker),
}

impl View for QuizError {
    type V = ErrorView;

    open spec fn view(&self) -> ErrorView {
        match self {
            QuizError::Backend(d) => ErrorView::Backend(d@),
            QuizError::MalformedResponse(m) => ErrorView::MalformedResponse(*m),
        }
    }
}

/// One multiple-choice question.
#[derive(Debug)]
pub struct Question {
    pub category: String,
    pub question: String,
    pub options: Vec<String>,
    pub answer: String,
}

/// The mathematical value of a `Question`.
pub struct QuestionView {
    pub category: Seq<char>,
    pub question: Seq<char>,
    pub options: Seq<Seq<char>>,
    pub answer: Seq<char>,
}

/// The views of a vector of strings.
pub open spec fn string_views(v: Seq<String>) -> Seq<Seq<char>> {
    v.map_values(|x: String| x@)
}

impl View for Question {
    type V = QuestionView;

    open spec fn view(&self) -> QuestionView {
        QuestionView {
            category: self.category@,
            question: self.question@,
            options: string_views(self.options@),
            answer: self.answer@,
        }
    }
}

/// The value of a parse or generation outcome.
pub open spec fn outcome_view(r: Result<Question, QuizError>) -> Result<QuestionView, ErrorView> {
    match r {
        Ok(q) => Ok(q@),
        Err(e) => Err(e@),
    }
}

/// The pieces trimmed, with those left empty dropped, in order.
pub open spec fn clean_options(parts: Seq<Seq<char>>) -> Seq<Seq<char>>
    decreases parts.len(),
{
    if parts.len() == 0 {
        Seq::empty()
    } else {
        let rest = clean_options(parts.drop_last());
        let t = trim(parts.last());
        if t.len() == 0 {
            rest
        } else {
            rest.push(t)
        }
    }
}

/// What parsing `raw` for `category` yields: the reply split once on the
/// options marker and its remainder once on the answer marker, or the marker
/// that was not found exactly once.
pub open spec fn parse_spec(category: Seq<char>, raw: Seq<char>) -> Result<QuestionView, ErrorView> {
    let halves = split_on(raw, options_marker());
    if halves.len() != 2 {
        Err(ErrorView::MalformedResponse(Marker::Options))
    } else {
        let tail = split_on(halves[1], answer_marker());
        if tail.len() != 2 {
            Err(ErrorView::MalformedResponse(Marker::Answer))
        } else {
            Ok(
                QuestionView {
                    category,
                    question: trim(remove_all(halves[0], question_label())),
                    options: clean_options(split_on(tail[0], option_separator())),
                    answer: trim(tail[1]),
                },
            )
        }
    }
}

/// The pieces trimmed, with those left empty dropped, as strings.
pub fn clean_option_list(parts: &Vec<Vec<char>>) -> (r: Vec<String>)
    ensures
        string_views(r@) == clean_options(views(parts@)),
{
    let mut r: Vec<String> = Vec::new();
    let mut k: usize = 0;
    assert(views(parts@).take(0) =~= Seq::<Seq<char>>::empty());
    assert(string_views(r@) =~= Seq::<Seq<char>>::empty());
    while k < parts.len()
        invariant
            k <= parts.len(),
            string_views(r@) == clean_options(views(parts@).take(k as int)),
        decreases parts.len() - k,
    {
        let t = trim_chars(&parts[k]);
        let ghost before = r@;
        assert(views(parts@).take(k + 1).drop_last() =~= views(parts@).take(k as int));
        if t.len() > 0 {
            r.push(string_of(&t));
            assert(string_views(r@) =~= string_views(before).push(t@));
        }
        k = k + 1;
    }
    assert(views(parts@).take(k as int) =~= views(parts@));
    r
}

/// Extracts the question, options and answer from a model's reply.
pub fn parse_response(category: &str, raw: &str) -> (r: Result<Question, QuizError>)
    ensures
        outcome_view(r) == parse_spec(category@, raw@),
{
    let text = chars_of(raw);
    let opt_mark = chars_of("Options:");
    proof {
        reveal_strlit("Options:");
    }
    let halves = split_chars(&text, &opt_mark);
    if halves.len() != 2 {
        return Err(QuizError::MalformedResponse(Marker::Options));
    }
    assert(views(halves@)[0] == halves[0]@);
    assert(views(halves@)[1] == halves[1]@);
    let ans_mark = chars_of("Answer:");
    proof {
        reveal_strlit("Answer:");
    }
    let tail = split_chars(&halves[1], &ans_mark);
    if tail.len() != 2 {
        return Err(QuizError::MalformedResponse(Marker::Answer));
    }
    assert(views(tail@)[0] == tail[0]@);
    assert(views(tail@)[1] == tail[1]@);
    let label = chars_of("Question:");
    proof {
        reveal_strlit("Question:");
    }
    let question = trim_chars(&remove_all_chars(&halves[0], &label));
    let separator = vec![';'];
    assert(separator@ =~= option_separator());
    let pieces = split_chars(&tail[0], &separator);
    let options = clean_option_list(&pieces);
    let answer = trim_chars(&tail[1]);
    let q = Question {
        category: String::from_str(category),
        question: string_of(&question),
        options,
        answer: string_of(&answer),
    };
    assert(q@ == parse_spec(category@, raw@)->Ok_0);
    Ok(q)
}

/// The reply text that carries `q`'s fields in the template the parser reads.
pub open spec fn reply_text_spec(q: QuestionView) -> Seq<char> {
    "Question: "@ + q.question + "\nOptions: "@ + join(q.options, "; "@) + "\nAnswer: "@ + q.answer
}

impl Question {
    /// Writes the question's fields back in the reply template.
    pub fn to_reply_text(&self) -> (r: String)
        ensures
            r@ == reply_text_spec(self@),
    {
        let mut r = String::from_str("Question: ");
        r.append(self.question.as_str());
        r.append("\nOptions: ");
        let ghost head = r@;
        let ghost opts = string_views(self.options@);
        let mut k: usize = 0;
        assert(opts.take(0) =~= Seq::<Seq<char>>::empty());
        while k < self.options.len()
            invariant
                k <= self.options.len(),
                opts == string_views(self.options@),
                r@ == head + join(opts.take(k as int), "; "@),
            decreases self.options.len() - k,
        {
            assert(opts.take(k + 1).drop_last() =~= opts.take(k as int));
            assert(opts[k as int] == self.options[k as int]@);
            if k > 0 {
                r.append("; ");
            }
            r.append(self.options[k].as_str());
            proof {
                if k == 0 {
                    assert(join(opts.take(1), "; "@) == opts[0]);
                }
            }
            k = k + 1;
        }
        assert(opts.take(k as int) =~= opts);
        r.append("\nAnswer: ");
        r.append(self.answer.as_str());
        r
    }
}

} // verus!
