//! Why a template or its arguments were rejected.

use vstd::prelude::*;
use vstd::string::StringExecFns;

verus! {

/// A fatal fault in a template or in the arguments supplied for it.
#[derive(Debug, Clone, PartialEq, Eq)]
pub enum SnippetError {
    /// The body of a delay is not an unsigned number; it is given as written.
    MalformedDelay(String),
    /// A token of a key combo stands for no key.
    UnknownKeyToken(String),
    /// The template opens an argument list, which is reserved.
    UnsupportedArglist,
    /// The supplied arguments do not pair into names and values.
    OddArgumentSupply,
}

/// What a `SnippetError` holds.
pub enum ErrorModel {
    MalformedDelay(Seq<char>),
    UnknownKeyToken(Seq<char>),
    UnsupportedArglist,
    OddArgumentSupply,
}

impl DeepView for SnippetError {
    type V = ErrorModel;

    open spec fn deep_view(&self) -> ErrorModel {
        match self {
            SnippetError::MalformedDelay(body) => ErrorModel::MalformedDelay(body@),
            SnippetError::UnknownKeyToken(token) => ErrorModel::UnknownKeyToken(token@),
            SnippetError::UnsupportedArglist => ErrorModel::UnsupportedArglist,
            SnippetError::OddArgumentSupply => ErrorModel::OddArgumentSupply,
        }
    }
}

/// The one-line message for the operator.
pub open spec fn error_text(error: ErrorModel) -> Seq<char> {
    match error {
        ErrorModel::MalformedDelay(body) => "Delay `"@ + body + "` is not a number of milliseconds"@,
        ErrorModel::UnknownKeyToken(token) => "Unknown key `"@ + token + "`"@,
        ErrorModel::UnsupportedArglist => "Arglist is not supported yet"@,
        ErrorModel::OddArgumentSupply => "Arguments must be given as pairs of name and value"@,
    }
}

impl SnippetError {
    /// The one-line message for the operator.
    pub fn message(&self) -> (text: String)
        ensures
            text@ == error_text(self.deep_view()),
    {
        match self {
            SnippetError::MalformedDelay(body) => {
                let mut text = "Delay `".to_owned();
                text.append(body.as_str());
                text.append("` is not a number of milliseconds");
                text
            },
            SnippetError::UnknownKeyToken(token) => {
                let mut text = "Unknown key `".to_owned();
                text.append(token.as_str());
                text.append("`");
                text
            },
            SnippetError::UnsupportedArglist => "Arglist is not supported yet".to_owned(),
            SnippetError::OddArgumentSupply => "Arguments must be given as pairs of name and value"
                .to_owned(),
        }
    }
}

} // verus!
