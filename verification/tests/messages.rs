use keysnip::diagnostic::Diagnostic;
use keysnip::error::SnippetError;
use keysnip::target::Error;

#[test]
fn diagnostics_have_their_messages() {
    assert_eq!(
        Diagnostic::DuplicateDefault { name: "a".to_string(), previous: "1".to_string() }
            .message(),
        "Duplicate default value for argument `a`. Previous value `1` will be ignored."
    );
    assert_eq!(
        Diagnostic::IncompleteArg { name: "abc".to_string() }.message(),
        "Argument `$@abc` is incomplete, you might've wanted to complete it or escape it with `$@$`. Autocompleting as `$@abc$` (arg)."
    );
    assert_eq!(
        Diagnostic::IncompleteArg { name: String::new() }.message(),
        "Argument `$@` is incomplete, you might've wanted to complete it or escape it with `$@$`. Autocompleting as `$@$` (text \"$@\")."
    );
    assert_eq!(
        Diagnostic::IncompleteKeyCombo { tokens: vec!["ctrl".to_string(), "alt".to_string()] }
            .message(),
        "Key combo `$!`ctrl`+`alt`` is incomplete, you might've wanted to complete it or escape it with `$!$`. Autocompleting as `$!`ctrl`+`alt`$` (key combo)."
    );
    assert_eq!(
        Diagnostic::IncompleteKeyCombo { tokens: vec![] }.message(),
        "Key combo `$!` is incomplete, you might've wanted to complete it or escape it with `$!$`. Autocompleting as `$!$` (text \"$!\")."
    );
    assert_eq!(
        Diagnostic::PendingContinuation.message(),
        "Last line ended with an appending backslash `\\`, assuming there is an empty line after it to append nothing. To use a backslash, append it with a whitespace (`\\ `)."
    );
}

#[test]
fn snippet_errors_have_their_messages() {
    assert_eq!(
        SnippetError::MalformedDelay("1x".to_string()).message(),
        "Delay `1x` is not a number of milliseconds"
    );
    assert_eq!(SnippetError::UnknownKeyToken("nope".to_string()).message(), "Unknown key `nope`");
    assert_eq!(SnippetError::UnsupportedArglist.message(), "Arglist is not supported yet");
    assert_eq!(
        SnippetError::OddArgumentSupply.message(),
        "Arguments must be given as pairs of name and value"
    );
}

#[test]
fn target_errors_have_their_messages() {
    assert_eq!(Error::GitHubFormat.message(), "Could not parse `github:` formatted input");
    assert_eq!(Error::GistFormat.message(), "Could not parse `gist:` formatted input");
    assert_eq!(Error::GistNotFound("abc".to_string()).message(), "Gist abc not found");
    assert_eq!(Error::GistUserNotFound("bob".to_string()).message(), "User bob not found");
    assert_eq!(Error::URLFormat.message(), "Could not parse URL");
    assert_eq!(
        Error::PathIsNotFile.message(),
        "Path does not exist or does not point to a file"
    );
    assert_eq!(Error::NetworkError("down".to_string()).message(), "Network error: down");
    assert_eq!(Error::IOError("full".to_string()).message(), "IO error: full");
    assert_eq!(Error::CancelledRun.message(), "Cancelled");
}
