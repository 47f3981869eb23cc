use vstd::prelude::*;

use crate::report::{decimal, decimal_string};

verus! {

/// Why a job template cannot be used. Each of these is a startup error: the
/// process stops before any job is read.
pub enum TemplateError {
    /// The source did not parse; the first parse error.
    Parse(String),
    /// The source parsed but did not compile; the first compile error.
    Compile(String),
    /// The template does not take exactly one argument (the job id); the
    /// number of required arguments it takes.
    Arity(usize),
}

/// The mathematical view of a [`TemplateError`].
pub enum TemplateErrorView {
    Parse(Seq<char>),
    Compile(Seq<char>),
    Arity(nat),
}

impl View for TemplateError {
    type V = TemplateErrorView;

    open spec fn view(&self) -> TemplateErrorView {
        match self {
            TemplateError::Parse(e) => TemplateErrorView::Parse(e@),
            TemplateError::Compile(e) => TemplateErrorView::Compile(e@),
            TemplateError::Arity(n) => TemplateErrorView::Arity(*n as nat),
        }
    }
}

/// `"Parse error: "`
pub open spec fn parse_error_words() -> Seq<char> {
    seq!['P', 'a', 'r', 's', 'e', ' ', 'e', 'r', 'r', 'o', 'r', ':', ' ']
}

/// `"Compile error: "`
pub open spec fn compile_error_words() -> Seq<char> {
    seq!['C', 'o', 'm', 'p', 'i', 'l', 'e', ' ', 'e', 'r', 'r', 'o', 'r', ':', ' ']
}

/// `"Found "`
pub open spec fn found_words() -> Seq<char> {
    seq!['F', 'o', 'u', 'n', 'd', ' ']
}

/// `" arguments, expected 1"`
pub open spec fn expected_words() -> Seq<char> {
    seq![
        ' ', 'a', 'r', 'g', 'u', 'm', 'e', 'n', 't', 's', ',', ' ',
        'e', 'x', 'p', 'e', 'c', 't', 'e', 'd', ' ', '1'
    ]
}

/// The text that describes `e`.
pub open spec fn error_text(e: TemplateErrorView) -> Seq<char> {
    match e {
        TemplateErrorView::Parse(d) => parse_error_words() + d,
        TemplateErrorView::Compile(d) => compile_error_words() + d,
        TemplateErrorView::Arity(n) => found_words() + decimal(n) + expected_words(),
    }
}

impl TemplateError {
    /// Describes the error: `"Parse error: <first error>"`,
    /// `"Compile error: <first error>"`, or
    /// `"Found <n> arguments, expected 1"`.
    pub fn message(&self) -> (r: String)
        ensures
            r@ == error_text(self@),
    {
        match self {
            TemplateError::Parse(d) => {
                proof { reveal_strlit("Parse error: "); }
                let mut s = String::from_str("Parse error: ");
                s.append(d.as_str());
                s
            },
            TemplateError::Compile(d) => {
                proof { reveal_strlit("Compile error: "); }
                let mut s = String::from_str("Compile error: ");
                s.append(d.as_str());
                s
            },
            TemplateError::Arity(n) => {
                proof {
                    reveal_strlit("Found ");
                    reveal_strlit(" arguments, expected 1");
                }
                let mut s = String::from_str("Found ");
                let d = decimal_string(*n);
                s.append(d.as_str());
                s.append(" arguments, expected 1");
                s
            },
        }
    }
}

/// Accepts a front end's diagnostics for the template source: the first
/// parse error if there is any, else the first compile error if there is
/// any, else success.
pub fn check_compiled(parse_errors: &Vec<String>, compile_errors: &Vec<String>) -> (r: Result<(), TemplateError>)
    ensures
        parse_errors@.len() > 0 ==> (r matches Err(e) && e@ == TemplateErrorView::Parse(parse_errors@[0]@)),
        parse_errors@.len() == 0 && compile_errors@.len() > 0 ==>
            (r matches Err(e) && e@ == TemplateErrorView::Compile(compile_errors@[0]@)),
        r is Ok <==> parse_errors@.len() == 0 && compile_errors@.len() == 0,
{
    if parse_errors.len() > 0 {
        Err(TemplateError::Parse(parse_errors[0].clone()))
    } else if compile_errors.len() > 0 {
        Err(TemplateError::Compile(compile_errors[0].clone()))
    } else {
        Ok(())
    }
}

/// Accepts a template that takes exactly one required argument, through
/// which each job receives its id.
pub fn check_arity(required: usize) -> (r: Result<(), TemplateError>)
    ensures
        r is Ok <==> required == 1,
        r matches Err(e) ==> e@ == TemplateErrorView::Arity(required as nat),
{
    if required != 1 {
        Err(TemplateError::Arity(required))
    } else {
        Ok(())
    }
}

} // verus!
