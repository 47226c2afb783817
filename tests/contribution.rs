use github_wiki_bot::diff::{collect_changed_files, validate_changed_files, validate_pr_diff};
use github_wiki_bot::front_matter::{field_of, parse_contribution, split_article, ParseError};
use github_wiki_bot::stamping::{stamp_header, update_file_contents};
use github_wiki_bot::handler::{
    classify, EventKind, IssueEvent, IssueFlow, IssueStage, IssueStep, PrEvent, PrFlow, PrStep,
    Route,
};
use github_wiki_bot::paths::{
    article_filename, article_path, destination_filename, disambiguated_filename,
};

const PI_TITLE: &str = "[Contribute] Pi is irrational";
const PI_BODY: &str = "language: en\nanswer: math\n---\n# Pi\nPi is irrational.";

fn diff_touching(paths: &[&str]) -> String {
    let mut diff = String::new();
    for p in paths {
        diff.push_str(&format!(
            "diff --git a/{p} b/{p}\nindex 0000000..1111111 100644\n--- a/{p}\n+++ b/{p}\n@@ -0,0 +1 @@\n+text\n"
        ));
    }
    diff
}

#[test]
fn unmarked_issue_is_ignored() {
    assert_eq!(classify(EventKind::IssueOpened, "Pi is irrational"), Route::Ignored);
    assert_eq!(classify(EventKind::IssueReopened, "[contribute] Pi"), Route::Ignored);
    assert_eq!(classify(EventKind::Other, PI_TITLE), Route::Ignored);
    let started = IssueFlow::start("Pi is irrational", PI_BODY, "alice", 7);
    assert!(matches!(started, Err(ParseError::NotAContribution)));
}

#[test]
fn marked_issues_and_pull_requests_are_routed() {
    assert_eq!(classify(EventKind::IssueOpened, PI_TITLE), Route::IssueCreated);
    assert_eq!(classify(EventKind::IssueReopened, PI_TITLE), Route::IssueReopened);
    assert_eq!(classify(EventKind::PullRequestOpened, "anything"), Route::PullRequestCreated);
}

#[test]
fn parse_reads_language_answer_and_content() {
    let c = parse_contribution(PI_TITLE, PI_BODY).ok().unwrap();
    assert_eq!(c.title, "Pi is irrational");
    assert_eq!(c.language, "en");
    assert_eq!(c.answer, "math");
    assert_eq!(c.header, "language: en\nanswer: math\n");
    assert_eq!(c.content, "\n# Pi\nPi is irrational.");
}

#[test]
fn parse_trims_header_lines() {
    let c = parse_contribution("[Contribute]Tau", "  answer:  geometry \r\n language:zh\n---x")
        .ok()
        .unwrap();
    assert_eq!(c.title, "Tau");
    assert_eq!(c.language, "zh");
    assert_eq!(c.answer, "geometry");
    assert_eq!(c.content, "x");
}

#[test]
fn parse_errors() {
    assert!(matches!(
        parse_contribution(PI_TITLE, "language: en\nanswer: math\n"),
        Err(ParseError::MissingDelimiter)
    ));
    assert!(matches!(
        parse_contribution(PI_TITLE, "answer: math\n---\nbody"),
        Err(ParseError::MissingLanguage)
    ));
    assert!(matches!(
        parse_contribution(PI_TITLE, "language: en\n---\nanswer: math"),
        Err(ParseError::MissingAnswer)
    ));
    assert!(matches!(
        parse_contribution("Pi", PI_BODY),
        Err(ParseError::NotAContribution)
    ));
}

#[test]
fn stamping_round_trip() {
    let c = parse_contribution(PI_TITLE, PI_BODY).ok().unwrap();
    let file = stamp_header(&c.header, &c.content, "alice", "2021-05-01T10:20:30Z");
    assert_eq!(
        file,
        "---\nlanguage: en\nanswer: math\nauthor: alice\nlast_update: 2021-05-01T10:20:30Z\n---\n# Pi\nPi is irrational."
    );
    let (header, content) = split_article(&file).unwrap();
    assert_eq!(field_of(&header, "language:").unwrap(), "en");
    assert_eq!(field_of(&header, "answer:").unwrap(), "math");
    assert_eq!(field_of(&header, "author:").unwrap(), "alice");
    assert_eq!(field_of(&header, "last_update:").unwrap(), "2021-05-01T10:20:30Z");
    assert_eq!(header.matches("author:").count(), 1);
    assert_eq!(header.matches("last_update:").count(), 1);
    assert_eq!(content, "\n# Pi\nPi is irrational.");
}

#[test]
fn stamping_adds_newline_after_unterminated_header() {
    let file = stamp_header("language: en", "x", "bob", "2021-01-01T00:00:00Z");
    assert_eq!(
        file,
        "---\nlanguage: en\nauthor: bob\nlast_update: 2021-01-01T00:00:00Z\n---x"
    );
}

#[test]
fn stamping_uses_current_utc_time() {
    let file = update_file_contents("language: en\n", "\nbody", "carol");
    let (header, content) = split_article(&file).unwrap();
    let stamp = field_of(&header, "last_update:").unwrap();
    assert!(stamp.ends_with('Z'));
    assert_eq!(stamp.len(), 20);
    assert_eq!(field_of(&header, "author:").unwrap(), "carol");
    assert_eq!(content, "\nbody");
}

#[test]
fn split_article_needs_two_delimiters() {
    assert!(split_article("no header").is_none());
    assert!(split_article("---\nonly one").is_none());
    let (h, c) = split_article("---a---b---c").unwrap();
    assert_eq!(h, "a");
    assert_eq!(c, "b---c");
}

#[test]
fn field_of_takes_first_matching_line() {
    assert_eq!(field_of("a: 1\na: 2\n", "a:").unwrap(), "1");
    assert!(field_of("b: 1\n", "a:").is_none());
}

#[test]
fn article_file_names() {
    assert_eq!(article_filename("Pi is irrational"), "pi-is-irrational.md");
    assert_eq!(article_filename("v1.0 Notes/Draft"), "v1-0-notes-draft.md");
    assert_eq!(article_filename(""), ".md");
    assert_eq!(
        article_path("en", "math", "pi-is-irrational.md"),
        "data/en/math/pi-is-irrational.md"
    );
}

#[test]
fn collision_is_disambiguated_by_digest() {
    let fresh = destination_filename("pi.md", "content", false);
    assert_eq!(fresh, "pi.md");
    let taken = destination_filename("pi.md", "", true);
    assert_eq!(taken, "pi-d41d8cd98f00b204e9800998ecf8427e.md");
    let again = destination_filename("pi.md", "", true);
    assert_eq!(taken, again);
    let other = destination_filename("pi.md", "other", true);
    assert_ne!(taken, other);
    assert_ne!(other, "pi.md");
    assert!(other.starts_with("pi-") && other.ends_with(".md"));
    assert_eq!(other.len(), "pi-".len() + 32 + ".md".len());
}

#[test]
fn disambiguated_names() {
    assert_eq!(disambiguated_filename("pi.md", "abc"), "pi-abc.md");
    assert_eq!(disambiguated_filename("notes", "abc"), "notes-abc.md");
}

#[test]
fn pr_validation() {
    assert!(validate_pr_diff(&diff_touching(&["data/en/math/pi.md"])));
    assert!(!validate_pr_diff(&diff_touching(&["data/en/math/pi.md", "src/main.rs"])));
    assert!(!validate_pr_diff(&diff_touching(&[])));
    assert!(!validate_pr_diff(&diff_touching(&["database.md"])));
    assert!(!validate_pr_diff(&diff_touching(&["data/en/math/pi.txt"])));
}

#[test]
fn pr_validation_of_path_lists() {
    let ok = vec!["data/en/math/pi.md".to_string()];
    let mixed = vec!["data/en/math/pi.md".to_string(), "src/main.rs".to_string()];
    let none: Vec<String> = vec![];
    assert!(validate_changed_files(&ok));
    assert!(!validate_changed_files(&mixed));
    assert!(!validate_changed_files(&none));
}

#[test]
fn changed_files_are_the_before_paths() {
    let diff = "diff --git a/data/x.md b/data/y.md\r\n--- a/data/x.md\ndiff --git a/with space.md b/with space.md\nnot diff --git a/z.md b/z.md\n";
    let files = collect_changed_files(diff);
    assert_eq!(files, vec!["data/x.md".to_string(), "with space.md".to_string()]);
}

#[test]
fn indented_header_text_is_no_file_header() {
    assert!(collect_changed_files(" diff --git a/x b/y").is_empty());
    assert!(collect_changed_files("").is_empty());
    assert!(collect_changed_files("no header here\n").is_empty());
    let diff = format!(
        "{}{}",
        diff_touching(&["data/en/math/pi.md"]),
        " diff --git a/src/main.rs b/src/main.rs\n"
    );
    assert_eq!(collect_changed_files(&diff), vec!["data/en/math/pi.md".to_string()]);
    assert!(validate_pr_diff(&diff));
}

#[test]
fn pi_contribution_end_to_end() {
    let (mut flow, step) = IssueFlow::start(PI_TITLE, PI_BODY, "alice", 42).ok().unwrap();
    assert!(matches!(step, IssueStep::AcquireLock(42)));
    let step = flow.advance(IssueEvent::LockHeld);
    let path = match step {
        IssueStep::CheckExists(p) => p,
        _ => panic!("expected an existence check"),
    };
    assert_eq!(path, "data/en/math/pi-is-irrational.md");
    let (path, contents) = match flow.advance(IssueEvent::Exists(false)) {
        IssueStep::WriteAndPush { path, contents } => (path, contents),
        _ => panic!("expected a write"),
    };
    assert_eq!(path, "data/en/math/pi-is-irrational.md");
    let (header, content) = split_article(&contents).unwrap();
    let keys: Vec<&str> = header
        .lines()
        .filter(|l| !l.trim().is_empty())
        .map(|l| l.split(':').next().unwrap().trim())
        .collect();
    assert_eq!(keys, vec!["language", "answer", "author", "last_update"]);
    assert_eq!(field_of(&header, "author:").unwrap(), "alice");
    assert_eq!(content.trim_start_matches('\n'), "# Pi\nPi is irrational.");
    let mut comments = 0;
    match flow.advance(IssueEvent::Pushed) {
        IssueStep::Comment(text) => {
            comments += 1;
            assert_eq!(text, "Merged. Thank you for contribution!");
        }
        _ => panic!("expected a comment"),
    }
    assert!(matches!(flow.advance(IssueEvent::Commented), IssueStep::CloseIssue));
    assert!(matches!(flow.advance(IssueEvent::Closed), IssueStep::Finish));
    assert_eq!(comments, 1);
    assert_eq!(flow.stage, IssueStage::Finished);
}

#[test]
fn existing_article_gets_a_digest_name() {
    let (mut flow, _) = IssueFlow::start(PI_TITLE, PI_BODY, "alice", 42).ok().unwrap();
    flow.advance(IssueEvent::LockHeld);
    match flow.advance_with_time(IssueEvent::Exists(true), "2021-05-01T10:20:30Z") {
        IssueStep::WriteAndPush { path, contents } => {
            let name = destination_filename("pi-is-irrational.md", &contents, true);
            assert_eq!(path, format!("data/en/math/{name}"));
            assert_ne!(path, "data/en/math/pi-is-irrational.md");
        }
        _ => panic!("expected a write"),
    }
}

#[test]
fn unexpected_issue_event_repeats_the_step() {
    let (mut flow, _) = IssueFlow::start(PI_TITLE, PI_BODY, "alice", 9).ok().unwrap();
    assert!(matches!(flow.advance(IssueEvent::Pushed), IssueStep::AcquireLock(9)));
    assert_eq!(flow.stage, IssueStage::AwaitingLock);
}

#[test]
fn valid_pr_is_merged_under_the_lock() {
    let (mut flow, step) = PrFlow::start(3, 11);
    assert!(matches!(step, PrStep::FetchDiff));
    let step = flow.advance(PrEvent::Diff(diff_touching(&["data/en/math/pi.md"])));
    assert!(matches!(step, PrStep::AcquireLock(11)));
    assert!(matches!(flow.advance(PrEvent::LockHeld), PrStep::Merge));
    assert!(matches!(flow.advance(PrEvent::Merged), PrStep::Finish));
}

#[test]
fn invalid_pr_is_handed_to_a_reviewer() {
    let (mut flow, _) = PrFlow::start(3, 11);
    match flow.advance(PrEvent::Diff(diff_touching(&["src/main.rs"]))) {
        PrStep::Comment(text) => assert!(text.contains("@longfangsong")),
        _ => panic!("expected a comment"),
    }
    assert!(matches!(flow.advance(PrEvent::Commented), PrStep::Finish));
}

#[test]
fn header_values_lose_all_surrounding_whitespace() {
    let c = parse_contribution(
        "[Contribute]\u{3000}Tau\u{a0}",
        "language:\u{c}zh\u{b}\nanswer:\u{2003}geometry\u{85}\n---x",
    )
    .ok()
    .unwrap();
    assert_eq!(c.title, "Tau");
    assert_eq!(c.language, "zh");
    assert_eq!(c.answer, "geometry");
    assert_eq!(field_of(" \u{205f}key: v\u{2029}", "key:").unwrap(), "v");
}

#[test]
fn repeated_write_step_keeps_path_and_contents() {
    let (mut flow, _) = IssueFlow::start(PI_TITLE, PI_BODY, "alice", 42).ok().unwrap();
    flow.advance(IssueEvent::LockHeld);
    let first = match flow.advance_with_time(IssueEvent::Exists(false), "2021-05-01T10:20:30Z") {
        IssueStep::WriteAndPush { path, contents } => (path, contents),
        _ => panic!("expected a write"),
    };
    let again = match flow.advance_with_time(IssueEvent::Closed, "2022-01-01T00:00:00Z") {
        IssueStep::WriteAndPush { path, contents } => (path, contents),
        _ => panic!("expected the write again"),
    };
    assert_eq!(first, again);
    assert_eq!(flow.stage, IssueStage::AwaitingPush);
}
