use open_gitea::releases::{releases_found, describe_start, describe_step, tag_names, DescribeState, DescribeStep, GitOutput, ReleaseTag};

fn ok(text: &str) -> Option<GitOutput> {
    Some(GitOutput { success: true, stdout: text.as_bytes().to_vec() })
}

fn run(name: &str, outputs: Vec<Option<GitOutput>>) -> (Vec<Vec<String>>, Option<ReleaseTag>) {
    let mut commands = Vec::new();
    let mut step = describe_start(name.to_string());
    let mut outputs = outputs.into_iter();
    loop {
        match step {
            DescribeStep::Run(state, args) => {
                commands.push(args);
                step = describe_step(state, outputs.next().unwrap());
            }
            DescribeStep::Done(result) => return (commands, result),
        }
    }
}

#[test]
fn tag_list_skips_blank_lines() {
    assert_eq!(tag_names(ok("v0.2.0\n  v0.1.0  \n\n")), vec!["v0.2.0", "v0.1.0"]);
    assert!(tag_names(None).is_empty());
    assert!(tag_names(Some(GitOutput { success: false, stdout: b"v1".to_vec() })).is_empty());
    assert!(tag_names(ok("")).is_empty());
}

#[test]
fn annotated_tag_is_read_with_its_message() {
    let (commands, tag) = run("v0.1.0", vec![ok("abc123\n"), ok("tag\n"), ok("First release\n\nInitial version.\n"), ok("2026-01-01T00:00:00+00:00\n")]);
    assert_eq!(commands[0], vec!["rev-list", "-n", "1", "v0.1.0"]);
    assert_eq!(commands[1], vec!["cat-file", "-t", "refs/tags/v0.1.0"]);
    assert_eq!(commands[2], vec!["for-each-ref", "refs/tags/v0.1.0", "--format=%(contents)"]);
    assert_eq!(commands[3], vec!["log", "-1", "--format=%aI", "abc123"]);
    let tag = tag.unwrap();
    assert_eq!(tag.name, "v0.1.0");
    assert_eq!(tag.commit_sha, "abc123");
    assert!(tag.message.contains("First release"));
    assert_eq!(tag.created_at, "2026-01-01T00:00:00+00:00");
}

#[test]
fn lightweight_tag_has_no_message() {
    let (commands, tag) = run("v0.2.0-lightweight", vec![ok("def456\n"), ok("commit\n"), ok("2026-02-01T00:00:00+00:00\n")]);
    assert_eq!(commands.len(), 3);
    assert_eq!(commands[2], vec!["log", "-1", "--format=%aI", "def456"]);
    let tag = tag.unwrap();
    assert!(tag.message.is_empty());
    assert!(!tag.commit_sha.is_empty());
}

#[test]
fn failures_end_or_blank_fields() {
    let (_, tag) = run("v", vec![Some(GitOutput { success: false, stdout: Vec::new() })]);
    assert!(tag.is_none());
    let (_, tag) = run("v", vec![ok("a"), None]);
    assert!(tag.is_none());
    let (_, tag) = run("v", vec![ok("a"), ok("tag"), Some(GitOutput { success: false, stdout: b"x".to_vec() }), Some(GitOutput { success: false, stdout: b"y".to_vec() })]);
    let tag = tag.unwrap();
    assert!(tag.message.is_empty() && tag.created_at.is_empty());
    let step = describe_step(DescribeState::AwaitSha { name: "v".to_string() }, None);
    assert!(matches!(step, DescribeStep::Done(None)));
}

#[test]
fn list_returns_empty_for_repo_without_tags() {
    let names = tag_names(ok(""));
    assert!(names.is_empty());
    assert_eq!(names.len(), 0);
}

#[test]
fn list_returns_annotated_and_lightweight_tags_with_expected_fields() {
    let names = tag_names(ok("v0.2.0-lightweight\nv0.1.0\n"));
    assert_eq!(names, vec!["v0.2.0-lightweight", "v0.1.0"]);

    let (_, annotated) = run("v0.1.0", vec![ok("1111111\n"), ok("tag\n"), ok("First release\n\nInitial version.\n"), ok("2026-01-01T00:00:00+00:00\n")]);
    let annotated = annotated.expect("v0.1.0 must be present");
    assert_eq!(annotated.message, "First release\n\nInitial version.");
    assert!(!annotated.commit_sha.is_empty());
    assert!(!annotated.created_at.is_empty());

    let (_, light) = run("v0.2.0-lightweight", vec![ok("2222222\n"), ok("commit\n"), ok("2026-01-02T00:00:00+00:00\n")]);
    let light = light.expect("lightweight tag must be present");
    assert!(light.message.is_empty(), "lightweight tags have no message");
}

#[test]
fn unreadable_tags_are_left_out_in_order() {
    let tag = |n: &str| ReleaseTag { name: n.to_string(), commit_sha: String::new(), message: String::new(), created_at: String::new() };
    let found = releases_found(vec![Some(tag("v3")), None, Some(tag("v1"))]);
    let names: Vec<String> = found.into_iter().map(|t| t.name).collect();
    assert_eq!(names, vec!["v3", "v1"]);
    assert!(releases_found(Vec::new()).is_empty());
}
