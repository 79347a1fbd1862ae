use mentee_watch::link::{check_url, strip_git, UrlError};

#[test]
fn check_url_extracts_owner_and_repo() {
    let r = check_url("https://github.com/octocat/hello-world.git").unwrap();
    assert_eq!(r.0, "octocat");
    assert_eq!(r.1, "hello-world");
}

#[test]
fn check_url_without_git_suffix() {
    let r = check_url("https://github.com/octocat/hello-world").unwrap();
    assert_eq!(r.0, "octocat");
    assert_eq!(r.1, "hello-world");
}

#[test]
fn check_url_keeps_extra_segments_out() {
    let r = check_url("https://github.com/owner/repo/tree/main").unwrap();
    assert_eq!(r.0, "owner");
    assert_eq!(r.1, "repo");
}

#[test]
fn check_url_rejects_unparsable_text() {
    assert_eq!(check_url("not a url").unwrap_err(), UrlError::Unparsable);
}

#[test]
fn check_url_rejects_paths_with_too_few_segments() {
    // The path of "https://github.com" is "/": too short to hold an owner
    // and a repository name.
    assert_eq!(check_url("https://github.com").unwrap_err(), UrlError::TooFewSegments);
    assert_eq!(check_url("https://github.com/owner").unwrap_err(), UrlError::TooFewSegments);
}

#[test]
fn strip_git_removes_every_occurrence() {
    let chars: Vec<char> = "/a.git/b.git".chars().collect();
    let out: String = strip_git(&chars).into_iter().collect();
    assert_eq!(out, "/a/b");

    let partial: Vec<char> = "/a.gi/b".chars().collect();
    let kept: String = strip_git(&partial).into_iter().collect();
    assert_eq!(kept, "/a.gi/b");
}
