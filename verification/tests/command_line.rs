//! Arguments and closing report.

use validate_readme::cli::{
    compare_revisions, missing_revision, parse_arguments, revision_target, summary,
};

fn parse(args: &[&str]) -> Result<(Option<String>, bool, Option<String>), String> {
    let args: Vec<String> = args.iter().map(|a| a.to_string()).collect();
    parse_arguments(&args).map(|o| (o.readme, o.check_links, o.base))
}

fn some(s: &str) -> Option<String> {
    Some(s.to_string())
}

#[test]
fn arguments() {
    assert_eq!(parse(&[]), Ok((None, false, None)));
    assert_eq!(parse(&["a.md"]), Ok((some("a.md"), false, None)));
    assert_eq!(
        parse(&["--check-links", "a.md", "--base", "main"]),
        Ok((some("a.md"), true, some("main")))
    );
    assert_eq!(parse(&["--base=v1", "--base="]), Ok((None, false, some(""))));
    assert_eq!(
        parse(&["--base", "--check-links"]),
        Ok((None, false, some("--check-links")))
    );
    assert_eq!(parse(&["--other"]), Ok((some("--other"), false, None)));
}

#[test]
fn bad_arguments() {
    assert_eq!(parse(&["a", "--base"]), Err("--base requires a value".to_string()));
    assert_eq!(parse(&["a", "b"]), Err("unexpected argument 'b'".to_string()));
    assert_eq!(
        parse(&["a", "b", "--base"]),
        Err("unexpected argument 'b'".to_string())
    );
}

#[test]
fn targets() {
    assert_eq!(revision_target("main", "docs\\a\\b.md"), "main:docs/a/b.md");
    assert_eq!(revision_target("", ""), ":");
}

#[test]
fn revisions_are_bytes() {
    let current = "### C\n- [A](https://h/\u{e9}): D.";
    assert_eq!(compare_revisions(&current.as_bytes().to_vec(), current), Vec::<String>::new());
    assert_eq!(
        compare_revisions(&b"### \xff".to_vec(), current),
        vec!["cannot calculate churn until both README versions are structurally valid"]
    );
    // a faulty byte is replaced, and the rest is read
    let mut base = b"caf\xe9\n".to_vec();
    base.extend_from_slice(current.as_bytes());
    assert_eq!(compare_revisions(&base, current), Vec::<String>::new());
}

#[test]
fn missing_revisions() {
    assert_eq!(
        missing_revision("main:a.md", &b"fatal: \xff\n".to_vec()),
        "git show main:a.md failed: fatal: \u{fffd}\n"
    );
}

#[test]
fn closing_line() {
    assert_eq!(
        summary(12, 0, 3),
        "Validated 12 resources with 0 errors and 3 warnings."
    );
}
