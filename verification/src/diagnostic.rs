//! What the parser repaired on its own, reported beside the parse result.

use vstd::prelude::*;
use vstd::string::StringExecFns;

verus! {

/// A repair that the parser made instead of failing.
#[derive(Debug, Clone, PartialEq, Eq)]
pub enum Diagnostic {
    /// A default was declared for a name that already had one; `previous` is
    /// the value that no longer counts.
    DuplicateDefault { name: String, previous: String },
    /// The line ended inside an argument reference. With an empty `name` the
    /// opener was taken as the literal text `$@`.
    IncompleteArg { name: String },
    /// The line ended inside a key combo, after these tokens.
    IncompleteKeyCombo { tokens: Vec<String> },
    /// The last line of the template ended with a continuation backslash.
    PendingContinuation,
}

/// What a `Diagnostic` holds.
pub enum DiagnosticModel {
    DuplicateDefault { name: Seq<char>, previous: Seq<char> },
    IncompleteArg { name: Seq<char> },
    IncompleteKeyCombo { tokens: Seq<Seq<char>> },
    PendingContinuation,
}

impl DeepView for Diagnostic {
    type V = DiagnosticModel;

    open spec fn deep_view(&self) -> DiagnosticModel {
        match self {
            Diagnostic::DuplicateDefault { name, previous } => DiagnosticModel::DuplicateDefault {
                name: name@,
                previous: previous@,
            },
            Diagnostic::IncompleteArg { name } => DiagnosticModel::IncompleteArg { name: name@ },
            Diagnostic::IncompleteKeyCombo { tokens } => DiagnosticModel::IncompleteKeyCombo {
                tokens: tokens.deep_view(),
            },
            Diagnostic::PendingContinuation => DiagnosticModel::PendingContinuation,
        }
    }
}

/// The tokens of a combo as a diagnostic shows them: each between backticks,
/// with `+` between two of them.
pub open spec fn quoted_tokens(tokens: Seq<Seq<char>>) -> Seq<char>
    decreases tokens.len(),
{
    if tokens.len() == 0 {
        Seq::empty()
    } else if tokens.len() == 1 {
        "`"@ + tokens[0] + "`"@
    } else {
        quoted_tokens(tokens.drop_last()) + "+"@ + "`"@ + tokens.last() + "`"@
    }
}

/// The message of a diagnostic.
pub open spec fn diagnostic_text(diagnostic: DiagnosticModel) -> Seq<char> {
    match diagnostic {
        DiagnosticModel::DuplicateDefault { name, previous } =>
            "Duplicate default value for argument `"@ + name + "`. Previous value `"@ + previous
                + "` will be ignored."@,
        DiagnosticModel::IncompleteArg { name } => "Argument `$@"@ + name
            + "` is incomplete, you might've wanted to complete it or escape it with `$@$`. Autocompleting as `$@"@
            + name + "$` ("@ + (if name.len() == 0 {
            "text \"$@\""@
        } else {
            "arg"@
        }) + ")."@,
        DiagnosticModel::IncompleteKeyCombo { tokens } => "Key combo `$!"@ + quoted_tokens(tokens)
            + "` is incomplete, you might've wanted to complete it or escape it with `$!$`. Autocompleting as `$!"@
            + quoted_tokens(tokens) + "$` ("@ + (if tokens.len() == 0 {
            "text \"$!\""@
        } else {
            "key combo"@
        }) + ")."@,
        DiagnosticModel::PendingContinuation =>
            "Last line ended with an appending backslash `\\`, assuming there is an empty line after it to append nothing. To use a backslash, append it with a whitespace (`\\ `)."@,
    }
}

/// The tokens as a diagnostic shows them.
fn quote_tokens(tokens: &Vec<String>) -> (quoted: String)
    ensures
        quoted@ == quoted_tokens(tokens.deep_view()),
{
    let ghost all = tokens.deep_view();
    let mut quoted = String::new();
    assert(all.take(0) =~= Seq::<Seq<char>>::empty());
    let mut i: usize = 0;
    while i < tokens.len()
        invariant
            i <= tokens.len(),
            all == tokens.deep_view(),
            quoted@ == quoted_tokens(all.take(i as int)),
        decreases tokens.len() - i,
    {
        let ghost longer = all.take(i + 1);
        assert(longer.drop_last() =~= all.take(i as int));
        assert(longer.last() == tokens[i as int]@);
        if i > 0 {
            quoted.append("+");
        } else {
            assert(Seq::<char>::empty() + "`"@ =~= "`"@);
        }
        quoted.append("`");
        quoted.append(tokens[i].as_str());
        quoted.append("`");
        i += 1;
    }
    assert(all.take(i as int) =~= all);
    quoted
}

impl Diagnostic {
    /// The message of the diagnostic, for a log.
    pub fn message(&self) -> (text: String)
        ensures
            text@ == diagnostic_text(self.deep_view()),
    {
        match self {
            Diagnostic::DuplicateDefault { name, previous } => {
                let mut text = "Duplicate default value for argument `".to_owned();
                text.append(name.as_str());
                text.append("`. Previous value `");
                text.append(previous.as_str());
                text.append("` will be ignored.");
                text
            },
            Diagnostic::IncompleteArg { name } => {
                let mut text = "Argument `$@".to_owned();
                text.append(name.as_str());
                text.append(
                    "` is incomplete, you might've wanted to complete it or escape it with `$@$`. Autocompleting as `$@",
                );
                text.append(name.as_str());
                text.append("$` (");
                if name.as_str().is_empty() {
                    text.append("text \"$@\"");
                } else {
                    text.append("arg");
                }
                text.append(").");
                text
            },
            Diagnostic::IncompleteKeyCombo { tokens } => {
                let quoted = quote_tokens(tokens);
                let mut text = "Key combo `$!".to_owned();
                text.append(quoted.as_str());
                text.append(
                    "` is incomplete, you might've wanted to complete it or escape it with `$!$`. Autocompleting as `$!",
                );
                text.append(quoted.as_str());
                text.append("$` (");
                if tokens.len() == 0 {
                    text.append("text \"$!\"");
                } else {
                    text.append("key combo");
                }
                text.append(").");
                text
            },
            Diagnostic::PendingContinuation =>
                "Last line ended with an appending backslash `\\`, assuming there is an empty line after it to append nothing. To use a backslash, append it with a whitespace (`\\ `)."
                    .to_owned(),
        }
    }
}

} // verus!
