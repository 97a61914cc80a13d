use statsforge::error::AppError;
use statsforge::github::{
    aggregate, check_status, graphql_body, totals_fit, GqlData, GqlError, GqlLanguageConnection,
    GqlLanguageEdge, GqlLanguageNode, GqlRepo, GqlRepoConnection, GqlResponse, GqlUser, Ranking,
    GRAPHQL_QUERY,
};
use statsforge::params::SortBy;

fn edge(name: &str, size: u64, color: Option<&str>) -> GqlLanguageEdge {
    GqlLanguageEdge {
        size,
        node: GqlLanguageNode { name: name.into(), color: color.map(|c| c.to_string()) },
    }
}

fn repo(edges: Vec<GqlLanguageEdge>) -> GqlRepo {
    GqlRepo { languages: Some(GqlLanguageConnection { edges }) }
}

fn response(repos: Vec<GqlRepo>) -> GqlResponse {
    GqlResponse {
        data: Some(GqlData {
            user: Some(GqlUser { repositories: GqlRepoConnection { nodes: repos } }),
        }),
        errors: None,
    }
}

fn sample() -> GqlResponse {
    response(vec![
        repo(vec![edge("Rust", 500, Some("#dea584")), edge("Shell", 20, None)]),
        GqlRepo { languages: None },
        repo(vec![edge("Python", 300, Some("#3572A5")), edge("Rust", 100, Some("#000000"))]),
        repo(vec![edge("HTML", 900, Some("#e34c26")), edge("Shell", 10, None)]),
        repo(vec![edge("Python", 1, Some("#3572A5"))]),
    ])
}

fn names(r: &Ranking) -> Vec<&str> {
    r.languages.iter().map(|s| s.name.as_str()).collect()
}

fn run(g: GqlResponse, limit: u8, by: SortBy, exclude: &[String]) -> Result<Ranking, AppError> {
    assert!(totals_fit(&g, exclude));
    aggregate(g, "octocat", limit, by, exclude)
}

#[test]
fn totals_by_bytes_largest_first() {
    let r = run(sample(), 10, SortBy::Bytes, &[]).unwrap();
    assert_eq!(names(&r), vec!["HTML", "Rust", "Python", "Shell"]);
    assert_eq!(r.total_bytes, 1831);
    let rust = &r.languages[1];
    assert_eq!(rust.bytes, 600);
    assert_eq!(rust.repo_count, 2);
    // The colour of a language's first appearance is kept.
    assert_eq!(rust.color, "#dea584");
    // A language without a colour gets the fallback.
    assert_eq!(r.languages[3].color, "#8b949e");
}

#[test]
fn totals_by_repos_keep_first_seen_order_on_ties() {
    let r = run(sample(), 10, SortBy::Repos, &[]).unwrap();
    assert_eq!(names(&r), vec!["Rust", "Shell", "Python", "HTML"]);
    let counts: Vec<u32> = r.languages.iter().map(|s| s.repo_count).collect();
    assert_eq!(counts, vec![2, 2, 2, 1]);
}

#[test]
fn limit_cuts_the_list_but_not_the_total() {
    let r = run(sample(), 2, SortBy::Bytes, &[]).unwrap();
    assert_eq!(names(&r), vec!["HTML", "Rust"]);
    assert_eq!(r.total_bytes, 1831);
}

#[test]
fn excluded_languages_leave_list_and_total() {
    let exclude = vec!["html".to_string(), "shell".to_string()];
    let r = run(sample(), 10, SortBy::Bytes, &exclude).unwrap();
    assert_eq!(names(&r), vec!["Rust", "Python"]);
    assert_eq!(r.total_bytes, 901);
}

#[test]
fn excluding_everything_is_no_error() {
    let exclude: Vec<String> =
        ["html", "shell", "rust", "python"].iter().map(|s| s.to_string()).collect();
    let r = run(sample(), 10, SortBy::Bytes, &exclude).unwrap();
    assert!(r.languages.is_empty());
    assert_eq!(r.total_bytes, 0);
}

#[test]
fn graphql_errors_are_joined() {
    let mut g = sample();
    g.errors = Some(vec![
        GqlError { message: "first".into() },
        GqlError { message: "second".into() },
    ]);
    match run(g, 5, SortBy::Bytes, &[]) {
        Err(AppError::GitHub(m)) => assert_eq!(m, "first; second"),
        _ => panic!("expected a GitHub error"),
    }
}

#[test]
fn unknown_user() {
    let g = GqlResponse { data: Some(GqlData { user: None }), errors: None };
    let e = run(g, 5, SortBy::Bytes, &[]).unwrap_err();
    assert_eq!(e.message(), "GitHub API error: user 'octocat' not found");
    assert_eq!(e.status(), 502);
    let g = GqlResponse { data: None, errors: None };
    assert!(run(g, 5, SortBy::Bytes, &[]).is_err());
}

#[test]
fn user_without_languages() {
    let g = response(vec![GqlRepo { languages: None }, repo(vec![])]);
    match run(g, 5, SortBy::Bytes, &[]) {
        Err(AppError::GitHub(m)) => {
            assert_eq!(m, "no public repository language data found for 'octocat'")
        }
        _ => panic!("expected a GitHub error"),
    }
}

#[test]
fn overflowing_totals_are_detected() {
    let g = response(vec![repo(vec![edge("A", u64::MAX, None)]), repo(vec![edge("A", 1, None)])]);
    assert!(!totals_fit(&g, &[]));
    let g = response(vec![repo(vec![edge("A", u64::MAX, None), edge("B", 1, None)])]);
    assert!(!totals_fit(&g, &[]));
    assert!(totals_fit(&g, &["b".to_string()]));
    let r = aggregate(g, "x", 5, SortBy::Bytes, &["b".to_string()]).unwrap();
    assert_eq!(r.total_bytes, u64::MAX);
}

#[test]
fn request_body_is_the_json_serde_writes() {
    for login in ["octocat", "a\"b\\c", "line\nbreak\t\u{1}\u{1f}", "\u{e9}t\u{e9}"] {
        let mut vars = serde_json::Map::new();
        vars.insert("login".into(), serde_json::Value::String(login.into()));
        let mut body = serde_json::Map::new();
        body.insert("query".into(), serde_json::Value::String(GRAPHQL_QUERY.into()));
        body.insert("variables".into(), serde_json::Value::Object(vars));
        let expected = serde_json::to_string(&serde_json::Value::Object(body)).unwrap();
        assert_eq!(graphql_body(login), expected);
    }
}

#[test]
fn status_check() {
    assert!(check_status(200, "200 OK").is_ok());
    assert!(check_status(299, "299 <unknown status code>").is_ok());
    match check_status(404, "404 Not Found") {
        Err(AppError::GitHub(m)) => assert_eq!(m, "GitHub API returned status 404 Not Found"),
        _ => panic!("expected an error"),
    }
    assert!(check_status(199, "199 <unknown status code>").is_err());
    assert!(check_status(300, "300 Multiple Choices").is_err());
}
