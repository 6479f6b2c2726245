use keysnip::target::{
    check_confirmation, choose_gist_file, confirmation_question, gist_file, gist_source,
    github_branch, github_source, parse_target, search_page, url_source, user_gists_page, Error,
    Gist, GistFile, GistLookup, PageVerdict, Target,
};

#[test]
fn github_target_is_split_after_five_characters() {
    assert_eq!(
        parse_target("  github:user/repo/dir/file.txt#dev \n").unwrap(),
        Target::GitHub {
            user: "b:user".to_string(),
            repo: "repo".to_string(),
            filepath: "dir/file.txt#dev".to_string(),
        }
    );
}

#[test]
fn github_target_needs_two_slashes() {
    assert!(matches!(parse_target("github:user"), Err(Error::GitHubFormat)));
    assert!(matches!(parse_target("github:user/repo"), Err(Error::GitHubFormat)));
    assert!(matches!(parse_target("github:"), Err(Error::GitHubFormat)));
    assert_eq!(
        parse_target("github:u/r/").unwrap(),
        Target::GitHub { user: "b:u".to_string(), repo: "r".to_string(), filepath: String::new() }
    );
}

#[test]
fn gist_target_is_an_id_or_a_user_and_a_file() {
    assert_eq!(parse_target("gist:abc123").unwrap(), Target::Gist { id: "abc123".to_string() });
    assert_eq!(parse_target("gist:").unwrap(), Target::Gist { id: String::new() });
    assert_eq!(
        parse_target("gist:bob/notes/a.txt").unwrap(),
        Target::UserGist { user: "bob".to_string(), file: "notes/a.txt".to_string() }
    );
}

#[test]
fn address_and_path_targets() {
    assert_eq!(
        parse_target(" https://example.com/x ").unwrap(),
        Target::Url("https://example.com/x".to_string())
    );
    assert_eq!(
        parse_target("http://example.com").unwrap(),
        Target::Url("http://example.com".to_string())
    );
    assert_eq!(parse_target("ftp://example.com").unwrap(), Target::Path("ftp://example.com".to_string()));
    assert_eq!(parse_target("  some dir/file  ").unwrap(), Target::Path("some dir/file".to_string()));
    assert_eq!(parse_target("githu").unwrap(), Target::Path("githu".to_string()));
    assert_eq!(parse_target("   ").unwrap(), Target::Path(String::new()));
}

#[test]
fn github_address_takes_the_branch_from_the_fragment() {
    assert_eq!(
        github_source("u", "r", "dir/f.txt").unwrap(),
        "https://raw.githubusercontent.com/u/r/master/dir/f.txt"
    );
    assert_eq!(
        github_source("u", "r", "f.txt#dev").unwrap(),
        "https://raw.githubusercontent.com/u/r/dev/f.txt#dev"
    );
}

#[test]
fn branch_and_file_follow_the_parse_result() {
    assert_eq!(github_branch(Some(None)).unwrap(), "master");
    assert_eq!(github_branch(Some(Some("dev".to_string()))).unwrap(), "dev");
    assert!(matches!(github_branch(None), Err(Error::GitHubFormat)));
    assert_eq!(gist_file(Some(None), "abc").unwrap(), "abc");
    assert_eq!(gist_file(Some(Some("f.txt".to_string())), "abc").unwrap(), "f.txt");
    assert!(matches!(gist_file(None, "abc"), Err(Error::GistFormat)));
}

#[test]
fn gist_lookup_names_the_wanted_file() {
    assert_eq!(
        gist_source("abc").unwrap(),
        GistLookup {
            address: "https://api.github.com/gists/abc".to_string(),
            file: "abc".to_string()
        }
    );
    assert_eq!(
        gist_source("abc#f.txt").unwrap(),
        GistLookup {
            address: "https://api.github.com/gists/abc#f.txt".to_string(),
            file: "f.txt".to_string()
        }
    );
}

#[test]
fn user_gists_pages_are_numbered() {
    assert_eq!(
        user_gists_page("bob", 1).unwrap(),
        "https://api.github.com/users/bob/gists?page=1&per_page=100"
    );
    assert_eq!(
        user_gists_page("bob", 120).unwrap(),
        "https://api.github.com/users/bob/gists?page=120&per_page=100"
    );
    assert_eq!(
        user_gists_page("bob", 0).unwrap(),
        "https://api.github.com/users/bob/gists?page=0&per_page=100"
    );
    assert_eq!(
        user_gists_page("bob", u32::MAX).unwrap(),
        "https://api.github.com/users/bob/gists?page=4294967295&per_page=100"
    );
}

#[test]
fn address_target_must_parse() {
    assert_eq!(url_source("https://example.com/a b").unwrap(), "https://example.com/a b");
    assert!(matches!(url_source("https://"), Err(Error::URLFormat)));
    assert!(matches!(url_source("http://[::1"), Err(Error::URLFormat)));
}

fn gist(files: &[(&str, &str)]) -> Gist {
    Gist {
        files: files
            .iter()
            .map(|(name, url)| (name.to_string(), GistFile { raw_url: url.to_string() }))
            .collect(),
    }
}

fn file(url: &str) -> GistFile {
    GistFile { raw_url: url.to_string() }
}

#[test]
fn gist_file_is_the_wanted_one_or_the_first() {
    let one = gist(&[("a.txt", "u/a"), ("b.txt", "u/b"), ("c.txt", "u/c")]);
    assert_eq!(choose_gist_file(&one, "b.txt"), Some(&file("u/b")));
    assert_eq!(choose_gist_file(&one, "zzz"), Some(&file("u/a")));
    assert_eq!(choose_gist_file(&gist(&[]), "a.txt"), None);
}

#[test]
fn page_search_finds_the_first_gist_with_the_file() {
    let page = vec![gist(&[("a", "1")]), gist(&[("b", "2"), ("f", "3")]), gist(&[("f", "4")])];
    assert_eq!(search_page(&page, "f"), PageVerdict::Found(file("3")));
    assert_eq!(search_page(&page, "g"), PageVerdict::NextPage);
    assert_eq!(search_page(&vec![], "f"), PageVerdict::NotFound);
    assert_eq!(search_page(&vec![gist(&[])], "f"), PageVerdict::NextPage);
}

#[test]
fn run_is_confirmed_by_the_exact_word() {
    assert_eq!(
        confirmation_question("brave otter"),
        "To run this snippet, type `brave otter`, or anything else to cancel"
    );
    assert!(check_confirmation("brave otter", "brave otter").is_ok());
    assert!(matches!(check_confirmation("brave otter", "Brave otter"), Err(Error::CancelledRun)));
    assert!(matches!(check_confirmation("brave otter", ""), Err(Error::CancelledRun)));
}
