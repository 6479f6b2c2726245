//! Where a template comes from, and why it could not be had.

use crate::registry::{lemma_position_prefix, lookup, position, Entries};
use crate::text::{
    chars_of, count_leading_whitespace, count_trailing_whitespace, decimal, find_char, first_of,
    has_prefix, lemma_first_of_skip, push_decimal, starts_with, string_of, trim, trim_start,
};
use vstd::prelude::*;
use vstd::string::StringExecFns;

verus! {

/// Why the target of a run gave no template.
#[derive(Debug, Clone)]
pub enum Error {
    /// A `github:` target that does not name user, repository and file.
    GitHubFormat,
    /// A `gist:` target that cannot be made into an address.
    GistFormat,
    /// No gist of that id, or no gist of the user with that file.
    GistNotFound(String),
    /// No user of that name.
    GistUserNotFound(String),
    /// An `http://` or `https://` target that is no address.
    URLFormat,
    /// A path that leads to no file.
    PathIsNotFile,
    /// The network failed; the text says how.
    NetworkError(String),
    /// Reading or writing failed; the text says how.
    IOError(String),
    /// The operator did not confirm the run.
    CancelledRun,
}

/// What an `Error` holds.
pub enum ErrorKind {
    GitHubFormat,
    GistFormat,
    GistNotFound(Seq<char>),
    GistUserNotFound(Seq<char>),
    URLFormat,
    PathIsNotFile,
    NetworkError(Seq<char>),
    IOError(Seq<char>),
    CancelledRun,
}

impl DeepView for Error {
    type V = ErrorKind;

    open spec fn deep_view(&self) -> ErrorKind {
        match self {
            Error::GitHubFormat => ErrorKind::GitHubFormat,
            Error::GistFormat => ErrorKind::GistFormat,
            Error::GistNotFound(gist) => ErrorKind::GistNotFound(gist@),
            Error::GistUserNotFound(user) => ErrorKind::GistUserNotFound(user@),
            Error::URLFormat => ErrorKind::URLFormat,
            Error::PathIsNotFile => ErrorKind::PathIsNotFile,
            Error::NetworkError(cause) => ErrorKind::NetworkError(cause@),
            Error::IOError(cause) => ErrorKind::IOError(cause@),
            Error::CancelledRun => ErrorKind::CancelledRun,
        }
    }
}

/// The one-line message for the operator.
pub open spec fn error_text(error: ErrorKind) -> Seq<char> {
    match error {
        ErrorKind::GitHubFormat => "Could not parse `github:` formatted input"@,
        ErrorKind::GistFormat => "Could not parse `gist:` formatted input"@,
        ErrorKind::GistNotFound(gist) => "Gist "@ + gist + " not found"@,
        ErrorKind::GistUserNotFound(user) => "User "@ + user + " not found"@,
        ErrorKind::URLFormat => "Could not parse URL"@,
        ErrorKind::PathIsNotFile => "Path does not exist or does not point to a file"@,
        ErrorKind::NetworkError(cause) => "Network error: "@ + cause,
        ErrorKind::IOError(cause) => "IO error: "@ + cause,
        ErrorKind::CancelledRun => "Cancelled"@,
    }
}

impl Error {
    /// The one-line message for the operator.
    pub fn message(&self) -> (text: String)
        ensures
            text@ == error_text(self.deep_view()),
    {
        match self {
            Error::GitHubFormat => "Could not parse `github:` formatted input".to_owned(),
            Error::GistFormat => "Could not parse `gist:` formatted input".to_owned(),
            Error::GistNotFound(gist) => {
                let mut text = "Gist ".to_owned();
                text.append(gist.as_str());
                text.append(" not found");
                text
            },
            Error::GistUserNotFound(user) => {
                let mut text = "User ".to_owned();
                text.append(user.as_str());
                text.append(" not found");
                text
            },
            Error::URLFormat => "Could not parse URL".to_owned(),
            Error::PathIsNotFile => "Path does not exist or does not point to a file".to_owned(),
            Error::NetworkError(cause) => {
                let mut text = "Network error: ".to_owned();
                text.append(cause.as_str());
                text
            },
            Error::IOError(cause) => {
                let mut text = "IO error: ".to_owned();
                text.append(cause.as_str());
                text
            },
            Error::CancelledRun => "Cancelled".to_owned(),
        }
    }
}

/// Where a template comes from.
#[derive(Debug, Clone, PartialEq, Eq)]
pub enum Target {
    /// A file in a repository.
    GitHub { user: String, repo: String, filepath: String },
    /// A gist, by its id.
    Gist { id: String },
    /// The gist of a user that holds a file.
    UserGist { user: String, file: String },
    /// An address.
    Url(String),
    /// A path on this machine.
    Path(String),
}

/// What a `Target` holds.
pub enum TargetModel {
    GitHub { user: Seq<char>, repo: Seq<char>, filepath: Seq<char> },
    Gist { id: Seq<char> },
    UserGist { user: Seq<char>, file: Seq<char> },
    Url(Seq<char>),
    Path(Seq<char>),
}

impl DeepView for Target {
    type V = TargetModel;

    open spec fn deep_view(&self) -> TargetModel {
        match self {
            Target::GitHub { user, repo, filepath } => TargetModel::GitHub {
                user: user@,
                repo: repo@,
                filepath: filepath@,
            },
            Target::Gist { id } => TargetModel::Gist { id: id@ },
            Target::UserGist { user, file } => TargetModel::UserGist { user: user@, file: file@ },
            Target::Url(address) => TargetModel::Url(address@),
            Target::Path(path) => TargetModel::Path(path@),
        }
    }
}

/// The text before the first `mark` and the text after it.
pub open spec fn split_once(text: Seq<char>, mark: char) -> Option<(Seq<char>, Seq<char>)> {
    match first_of(text, mark, 0) {
        Some(at) => Some((text.take(at), text.skip(at + 1))),
        None => None,
    }
}

/// What a target names.
///
/// White space around the target does not count. A target that begins with
/// `github:` names a file in a repository: the text after the first five
/// characters is split at its first two `/` into user, repository and file.
/// A target that begins with `gist:` names a gist: the text after these five
/// characters is an id, or a user and a file with a `/` between them. A
/// target that begins with `https://` or `http://` is an address. Any other
/// target is a path.
pub open spec fn classify(target: Seq<char>) -> Result<TargetModel, ErrorKind> {
    let text = trim(target);
    if has_prefix(text, "github:"@) {
        match split_once(text.skip(5), '/') {
            None => Err(ErrorKind::GitHubFormat),
            Some((user, rest)) => match split_once(rest, '/') {
                None => Err(ErrorKind::GitHubFormat),
                Some((repo, filepath)) => Ok(TargetModel::GitHub { user, repo, filepath }),
            },
        }
    } else if has_prefix(text, "gist:"@) {
        match split_once(text.skip(5), '/') {
            None => Ok(TargetModel::Gist { id: text.skip(5) }),
            Some((user, file)) => Ok(TargetModel::UserGist { user, file }),
        }
    } else if has_prefix(text, "https://"@) || has_prefix(text, "http://"@) {
        Ok(TargetModel::Url(text))
    } else {
        Ok(TargetModel::Path(text))
    }
}

/// `target` without the white space around it, as characters.
fn trimmed(target: &str) -> (text: Vec<char>)
    ensures
        text@ == trim(target@),
{
    let chars = chars_of(target);
    let from: usize = count_leading_whitespace(&chars);
    let dropped: usize = count_trailing_whitespace(&chars, from);
    let inner = string_of(&chars, from, chars.len() - dropped);
    assert(inner@ =~= trim(target@)) by {
        let rest = trim_start(target@);
        assert(rest =~= chars@.skip(from as int));
        assert(chars@.subrange(from as int, chars.len() - dropped) =~= rest.take(
            rest.len() - dropped,
        ));
    }
    chars_of(inner.as_str())
}

/// Says what `target` names.
pub fn parse_target(target: &str) -> (parsed: Result<Target, Error>)
    ensures
        match parsed {
            Ok(found) => classify(target@) == Ok::<TargetModel, ErrorKind>(found.deep_view()),
            Err(e) => classify(target@) == Err::<TargetModel, ErrorKind>(e.deep_view()),
        },
{
    let text = trimmed(target);
    let n: usize = text.len();
    assert(text@.skip(0) =~= text@);
    assert(text@.subrange(0, n as int) =~= text@);
    if starts_with(&text, 0, "github:") {
        proof {
            reveal_strlit("github:");
        }
        let ghost rest = text@.skip(5);
        let first: usize = match find_char(&text, '/', 5) {
            Some(at) => at,
            None => {
                proof {
                    lemma_first_of_skip(text@, '/', 5, 0);
                }
                return Err(Error::GitHubFormat);
            },
        };
        let second: usize = match find_char(&text, '/', first + 1) {
            Some(at) => at,
            None => {
                proof {
                    lemma_first_of_skip(text@, '/', 5, 0);
                    lemma_first_of_skip(text@, '/', first + 1, 0);
                    assert(rest.skip(first - 5 + 1) =~= text@.skip(first + 1));
                }
                return Err(Error::GitHubFormat);
            },
        };
        proof {
            lemma_first_of_skip(text@, '/', 5, 0);
            lemma_first_of_skip(text@, '/', first + 1, 0);
            assert(rest.skip(first - 5 + 1) =~= text@.skip(first + 1));
            assert(text@.subrange(5, first as int) =~= rest.take(first - 5));
            assert(text@.subrange(first + 1, second as int) =~= text@.skip(first + 1).take(
                second - first - 1,
            ));
            assert(text@.subrange(second + 1, n as int) =~= text@.skip(first + 1).skip(
                second - first,
            ));
        }
        Ok(
            Target::GitHub {
                user: string_of(&text, 5, first),
                repo: string_of(&text, first + 1, second),
                filepath: string_of(&text, second + 1, n),
            },
        )
    } else if starts_with(&text, 0, "gist:") {
        proof {
            reveal_strlit("gist:");
            lemma_first_of_skip(text@, '/', 5, 0);
        }
        let ghost rest = text@.skip(5);
        match find_char(&text, '/', 5) {
            Some(at) => {
                proof {
                    assert(text@.subrange(5, at as int) =~= rest.take(at - 5));
                    assert(text@.subrange(at + 1, n as int) =~= rest.skip(at - 5 + 1));
                }
                Ok(
                    Target::UserGist {
                        user: string_of(&text, 5, at),
                        file: string_of(&text, at + 1, n),
                    },
                )
            },
            None => {
                assert(text@.subrange(5, n as int) =~= rest);
                Ok(Target::Gist { id: string_of(&text, 5, n) })
            },
        }
    } else if starts_with(&text, 0, "https://") || starts_with(&text, 0, "http://") {
        Ok(Target::Url(string_of(&text, 0, n)))
    } else {
        Ok(Target::Path(string_of(&text, 0, n)))
    }
}

/// The address of a file in a repository, on a branch.
pub open spec fn github_address(
    user: Seq<char>,
    repo: Seq<char>,
    branch: Seq<char>,
    filepath: Seq<char>,
) -> Seq<char> {
    "https://raw.githubusercontent.com/"@ + user + "/"@ + repo + "/"@ + branch + "/"@ + filepath
}

/// The address that describes the gist of that id.
pub open spec fn gist_address(id: Seq<char>) -> Seq<char> {
    "https://api.github.com/gists/"@ + id
}

/// The address of one page of the list of a user's gists.
pub open spec fn user_gists_address(user: Seq<char>, page: nat) -> Seq<char> {
    "https://api.github.com/users/"@ + user + "/gists?page="@ + decimal(page) + "&per_page=100"@
}

/// What parsing `text` as an absolute address gives: nothing if it is none,
/// else the fragment of the address, if it has one.
pub uninterp spec fn address_fragment(text: Seq<char>) -> Option<Option<Seq<char>>>;

/// Parses `text` with `url::Url::parse` and reads the fragment of the address
/// with `Url::fragment`: the text after the `#`, if the address has one.
#[verifier::external_body]
fn parse_fragment(text: &str) -> (parsed: Option<Option<String>>)
    ensures
        parsed.deep_view() == address_fragment(text@),
{
    match url::Url::parse(text) {
        Ok(address) => match address.fragment() {
            Some(fragment) => Some(Some(fragment.to_owned())),
            None => Some(None),
        },
        Err(_) => None,
    }
}

/// The address text of a file in a repository.
fn github_text(user: &str, repo: &str, branch: &str, filepath: &str) -> (text: String)
    ensures
        text@ == github_address(user@, repo@, branch@, filepath@),
{
    let mut text = "https://raw.githubusercontent.com/".to_owned();
    text.append(user);
    text.append("/");
    text.append(repo);
    text.append("/");
    text.append(branch);
    text.append("/");
    text.append(filepath);
    text
}

/// The branch that the fragment of a `github:` address names: the fragment,
/// or `master` where the address has none.
pub open spec fn branch_of(fragment: Option<Seq<char>>) -> Seq<char> {
    match fragment {
        Some(branch) => branch,
        None => "master"@,
    }
}

/// The branch of a `github:` target, from what parsing gave for its address
/// on `master`.
pub fn github_branch(parsed: Option<Option<String>>) -> (branch: Result<String, Error>)
    ensures
        match branch {
            Ok(name) => parsed.deep_view() matches Some(fragment) && name@ == branch_of(fragment),
            Err(e) => e is GitHubFormat && parsed is None,
        },
{
    match parsed {
        None => Err(Error::GitHubFormat),
        Some(Some(branch)) => Ok(branch),
        Some(None) => Ok("master".to_owned()),
    }
}

/// The address of a `github:` target, or that there is none.
///
/// The branch is `master`, unless the file path ends with `#` and the name of
/// a branch.
pub open spec fn github_source_of(user: Seq<char>, repo: Seq<char>, filepath: Seq<char>) -> Option<
    Seq<char>,
> {
    match address_fragment(github_address(user, repo, "master"@, filepath)) {
        None => None,
        Some(fragment) => {
            let address = github_address(user, repo, branch_of(fragment), filepath);
            if address_fragment(address) is Some {
                Some(address)
            } else {
                None
            }
        },
    }
}

/// The address from which the file of a `github:` target is fetched.
pub fn github_source(user: &str, repo: &str, filepath: &str) -> (source: Result<String, Error>)
    ensures
        match source {
            Ok(address) => github_source_of(user@, repo@, filepath@) == Some(address@),
            Err(e) => e is GitHubFormat && github_source_of(user@, repo@, filepath@) is None,
        },
{
    let first = github_text(user, repo, "master", filepath);
    let branch = match github_branch(parse_fragment(first.as_str())) {
        Ok(branch) => branch,
        Err(e) => {
            return Err(e);
        },
    };
    let address = github_text(user, repo, branch.as_str(), filepath);
    match parse_fragment(address.as_str()) {
        Some(_) => Ok(address),
        None => Err(Error::GitHubFormat),
    }
}

/// Where to ask for a gist, and which of its files is wanted.
#[derive(Debug, Clone, PartialEq, Eq)]
pub struct GistLookup {
    /// The address that describes the gist.
    pub address: String,
    /// The name of the file that is wanted.
    pub file: String,
}

/// The file of a gist that is wanted: the one that the fragment of the
/// gist's address names, or where there is none, the one called like the id.
pub open spec fn wanted_file(fragment: Option<Seq<char>>, id: Seq<char>) -> Seq<char> {
    match fragment {
        Some(file) => file,
        None => id,
    }
}

/// The wanted file of the gist `id`, from what parsing gave for its address.
pub fn gist_file(parsed: Option<Option<String>>, id: &str) -> (file: Result<String, Error>)
    ensures
        match file {
            Ok(name) => parsed.deep_view() matches Some(fragment) && name@ == wanted_file(
                fragment,
                id@,
            ),
            Err(e) => e is GistFormat && parsed is None,
        },
{
    match parsed {
        None => Err(Error::GistFormat),
        Some(Some(file)) => Ok(file),
        Some(None) => Ok(id.to_owned()),
    }
}

/// The lookup of a `gist:` target that gives an id.
pub open spec fn gist_lookup_of(id: Seq<char>) -> Option<(Seq<char>, Seq<char>)> {
    match address_fragment(gist_address(id)) {
        None => None,
        Some(fragment) => Some((gist_address(id), wanted_file(fragment, id))),
    }
}

/// Where to ask for the gist of that id, and which file of it is wanted.
pub fn gist_source(id: &str) -> (source: Result<GistLookup, Error>)
    ensures
        match source {
            Ok(found) => gist_lookup_of(id@) == Some((found.address@, found.file@)),
            Err(e) => e is GistFormat && gist_lookup_of(id@) is None,
        },
{
    let mut address = "https://api.github.com/gists/".to_owned();
    address.append(id);
    match gist_file(parse_fragment(address.as_str()), id) {
        Ok(file) => Ok(GistLookup { address, file }),
        Err(e) => Err(e),
    }
}

/// The address of page `page` of the list of the gists of `user`, a hundred
/// gists to the page.
pub fn user_gists_page(user: &str, page: u32) -> (source: Result<String, Error>)
    ensures
        match source {
            Ok(address) => address@ == user_gists_address(user@, page as nat) && address_fragment(
                address@,
            ) is Some,
            Err(e) => e is GistFormat && address_fragment(user_gists_address(user@, page as nat))
                is None,
        },
{
    let mut address = "https://api.github.com/users/".to_owned();
    address.append(user);
    address.append("/gists?page=");
    push_decimal(page as u64, &mut address);
    address.append("&per_page=100");
    match parse_fragment(address.as_str()) {
        Some(_) => Ok(address),
        None => Err(Error::GistFormat),
    }
}

/// The address of an `http://` or `https://` target.
pub fn url_source(target: &str) -> (source: Result<String, Error>)
    ensures
        match source {
            Ok(address) => address@ == target@ && address_fragment(target@) is Some,
            Err(e) => e is URLFormat && address_fragment(target@) is None,
        },
{
    match parse_fragment(target) {
        Some(_) => Ok(target.to_owned()),
        None => Err(Error::URLFormat),
    }
}

/// One file of a gist.
#[derive(Debug, Clone, PartialEq, Eq)]
pub struct GistFile {
    /// The address of the file's contents.
    pub raw_url: String,
}

/// A gist: its files by name, in the gist's own order.
#[derive(Debug, Clone, PartialEq, Eq)]
pub struct Gist {
    pub files: Vec<(String, GistFile)>,
}

impl DeepView for Gist {
    type V = Entries;

    /// The files as pairs of a name and an address.
    open spec fn deep_view(&self) -> Entries {
        Seq::new(self.files@.len(), |i: int| (self.files@[i].0@, self.files@[i].1.raw_url@))
    }
}

/// The address of the file of a gist to take: the file called `wanted`, or
/// else the first file; none if the gist has no file.
pub open spec fn chosen_file(files: Entries, wanted: Seq<char>) -> Option<Seq<char>> {
    match lookup(files, wanted) {
        Some(address) => Some(address),
        None => if files.len() > 0 {
            Some(files[0].1)
        } else {
            None
        },
    }
}

/// The file of the gist that is called `name`.
fn find_file<'a>(gist: &'a Gist, name: &str) -> (file: Option<&'a GistFile>)
    ensures
        match file {
            Some(found) => lookup(gist.deep_view(), name@) == Some(found.raw_url@),
            None => lookup(gist.deep_view(), name@) is None,
        },
{
    let ghost files = gist.deep_view();
    let wanted = name.to_owned();
    let mut i: usize = 0;
    assert(files.take(0) =~= Seq::<(Seq<char>, Seq<char>)>::empty());
    while i < gist.files.len()
        invariant
            i <= gist.files.len(),
            files == gist.deep_view(),
            wanted@ == name@,
            position(files.take(i as int), name@) is None,
        decreases gist.files.len() - i,
    {
        let ghost longer = files.take(i + 1);
        assert(longer.drop_last() =~= files.take(i as int));
        assert(longer.last() == files[i as int]);
        if gist.files[i].0 == wanted {
            proof {
                lemma_position_prefix(files, i + 1, name@);
            }
            return Some(&gist.files[i].1);
        }
        i += 1;
    }
    assert(files.take(i as int) =~= files);
    None
}

/// Which file of a gist to take when the file called `wanted` is asked for.
pub fn choose_gist_file<'a>(gist: &'a Gist, wanted: &str) -> (file: Option<&'a GistFile>)
    ensures
        match file {
            Some(found) => chosen_file(gist.deep_view(), wanted@) == Some(found.raw_url@),
            None => chosen_file(gist.deep_view(), wanted@) is None,
        },
{
    match find_file(gist, wanted) {
        Some(found) => Some(found),
        None => if gist.files.len() > 0 {
            Some(&gist.files[0].1)
        } else {
            None
        },
    }
}

/// What one page of a user's gists says about the search for a file.
#[derive(Debug, Clone, PartialEq, Eq)]
pub enum PageVerdict {
    /// A gist of the page holds the file; this is the file.
    Found(GistFile),
    /// No gist of this page holds the file; the next page may.
    NextPage,
    /// The page is empty: the gists are at their end.
    NotFound,
}

/// The address of the file called `file` in the first gist from position `i`
/// on that holds one.
pub open spec fn file_on_page(gists: Seq<Entries>, file: Seq<char>, i: int) -> Option<Seq<char>>
    decreases gists.len() - i,
{
    if i < 0 || i >= gists.len() {
        None
    } else {
        match lookup(gists[i], file) {
            Some(address) => Some(address),
            None => file_on_page(gists, file, i + 1),
        }
    }
}

/// Looks for the file called `file` on one page of a user's gists.
pub fn search_page(gists: &Vec<Gist>, file: &str) -> (verdict: PageVerdict)
    ensures
        match verdict {
            PageVerdict::Found(found) => file_on_page(gists.deep_view(), file@, 0) == Some(
                found.raw_url@,
            ),
            PageVerdict::NextPage => gists.len() > 0 && file_on_page(gists.deep_view(), file@, 0)
                is None,
            PageVerdict::NotFound => gists.len() == 0,
        },
{
    if gists.len() == 0 {
        return PageVerdict::NotFound;
    }
    let mut i: usize = 0;
    while i < gists.len()
        invariant
            i <= gists.len(),
            file_on_page(gists.deep_view(), file@, i as int) == file_on_page(
                gists.deep_view(),
                file@,
                0,
            ),
        decreases gists.len() - i,
    {
        assert(gists.deep_view()[i as int] == gists[i as int].deep_view());
        match find_file(&gists[i], file) {
            Some(found) => {
                return PageVerdict::Found(GistFile { raw_url: found.raw_url.clone() });
            },
            None => {},
        }
        i += 1;
    }
    PageVerdict::NextPage
}

/// The question that asks the operator to confirm a run.
pub open spec fn confirmation_text(word: Seq<char>) -> Seq<char> {
    "To run this snippet, type `"@ + word + "`, or anything else to cancel"@
}

/// The question that asks the operator to confirm a run by typing `word`.
pub fn confirmation_question(word: &str) -> (question: String)
    ensures
        question@ == confirmation_text(word@),
{
    let mut question = "To run this snippet, type `".to_owned();
    question.append(word);
    question.append("`, or anything else to cancel");
    question
}

/// Whether the operator confirmed the run: the answer is the word asked for.
pub fn check_confirmation(word: &str, answer: &str) -> (result: Result<(), Error>)
    ensures
        match result {
            Ok(()) => answer@ == word@,
            Err(e) => e is CancelledRun && answer@ != word@,
        },
{
    if word.to_owned() == answer.to_owned() {
        Ok(())
    } else {
        Err(Error::CancelledRun)
    }
}

} // verus!
