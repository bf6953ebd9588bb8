//! What is reported of the step from one revision to the next, word for word.

use validate_readme::churn::{map_by_keys, resource_map, signature};
use validate_readme::{validate_churn, validate_text};

/// A valid README with `count` tools and `books` foundational entries.
fn readme(count: usize, books: usize, word: &str) -> String {
    let mut text = String::from("## LEARN\n### Books\n");
    for i in 0..books {
        text.push_str(&format!("- [Book {i}](https://h/b{i}): {word}.\n"));
    }
    text.push_str("## Build\n### Tools\n");
    for i in 0..count {
        text.push_str(&format!("- [Tool {i}](https://h/t{i}): {word}.\n"));
    }
    text
}

#[test]
fn nothing_changes() {
    let text = readme(3, 2, "x");
    assert_eq!(validate_churn(&text, &text), Vec::<String>::new());
    // neither the order of lines nor the case of titles counts
    let moved = text.replace(
        "- [Tool 0](https://h/t0): x.\n- [Tool 1](https://h/t1): x.\n",
        "- [TOOL 1](https://h/t1): x.\n\n- [tool 0](https://h/t0): x.\n",
    );
    assert_ne!(moved, text);
    assert_eq!(validate_churn(&text, &moved), Vec::<String>::new());
}

#[test]
fn limits_are_told() {
    let base = readme(7, 2, "x");
    assert_eq!(
        validate_churn(&base, &readme(7, 2, "y")),
        vec![
            "churn limit exceeded: 9 resource entries changed (maximum 6)",
            "churn limit exceeded: 2 foundational entries changed (maximum 1)",
        ]
    );
    assert_eq!(
        validate_churn(&base, &readme(11, 2, "x")),
        vec!["churn limit exceeded: 4 net entries added (maximum 3)"]
    );
    assert_eq!(validate_churn(&base, &readme(10, 2, "x")), Vec::<String>::new());
    assert_eq!(validate_churn(&base, &readme(1, 2, "x")), Vec::<String>::new());
    assert_eq!(
        validate_churn(&readme(14, 2, "x"), &base),
        vec!["churn limit exceeded: 7 resource entries changed (maximum 6)"]
    );
    assert_eq!(
        validate_churn(&base, &readme(14, 2, "x")),
        vec![
            "churn limit exceeded: 7 resource entries changed (maximum 6)",
            "churn limit exceeded: 7 net entries added (maximum 3)",
        ]
    );
}

#[test]
fn one_foundation_may_change() {
    let base = readme(2, 2, "x");
    let one = base.replace("https://h/b0", "https://h/other");
    assert_eq!(validate_churn(&base, &one), Vec::<String>::new());
    assert_eq!(
        validate_churn(&base, &one.replace("https://h/b1", "https://h/another")),
        vec!["churn limit exceeded: 2 foundational entries changed (maximum 1)"]
    );
}

#[test]
fn section_and_category_count() {
    let base = readme(7, 1, "x");
    for changed in [
        base.replace("### Tools", "### Other"),
        base.replace("## Build", "## Make"),
    ] {
        assert_eq!(
            validate_churn(&base, &changed),
            vec!["churn limit exceeded: 7 resource entries changed (maximum 6)"]
        );
    }
}

#[test]
fn invalid_revisions() {
    let good = readme(1, 1, "x");
    let message =
        vec!["cannot calculate churn until both README versions are structurally valid"];
    assert_eq!(validate_churn("### E", &good), message);
    assert_eq!(validate_churn(&good, "### E"), message);
    assert_eq!(validate_churn("### E", "### E"), message);
}

#[test]
fn titles_find_resources() {
    let result = validate_text("## S\n### C\n- [A](https://a): 1.\n- [B](https://b): 2.\n- [a](https://c): 3.");
    let map = resource_map(&result.resources);
    assert_eq!(map.len(), 2);
    assert_eq!(map.get("a").unwrap().line, 5);
    assert_eq!(map.get("b"), Some(&result.resources[1]));
    assert!(map.get("A").is_none());
    assert_eq!(
        signature(map.get("b")),
        Some((
            "S".to_string(),
            "C".to_string(),
            "https://b".to_string(),
            "2.".to_string()
        ))
    );
    assert_eq!(signature(None), None);
}

#[test]
fn rearranged_entries() {
    let entries = ["- [A](https://h/a): 1.", "- [B](https://h/b): 2.", "- [\u{c9}](https://h/c): 3."];
    let base = format!("### C\n{}\n{}\n{}", entries[0], entries[1], entries[2]);
    for order in [[0, 1, 2], [0, 2, 1], [1, 0, 2], [1, 2, 0], [2, 0, 1], [2, 1, 0]] {
        let mut current = String::from("words\n### C\n");
        for i in order {
            current.push_str(entries[i]);
            current.push_str("\n\n");
        }
        let current = current.replace("[A]", "[a]").replace("\u{c9}", "\u{e9}");
        assert_eq!(validate_churn(&base, &current), Vec::<String>::new());
    }
    // whole sections change places
    let first = readme(9, 2, "x");
    let books = first.find("## Build").unwrap();
    let moved = format!("{}\n{}", &first[books..], &first[..books]);
    assert_ne!(first, moved);
    assert_eq!(validate_churn(&first, &moved), Vec::<String>::new());
}

#[test]
fn titles_are_folded() {
    let text = "## S\n### C\n- [Stra\u{df}e](https://e.com/): D.";
    let result = validate_text(text);
    let map = resource_map(&result.resources);
    assert_eq!(map.len(), 1);
    assert_eq!(map.get("strasse"), Some(&result.resources[0]));
    assert!(map.get("stra\u{df}e").is_none());

    // another spelling of the same title is no change
    let other = text.replace("Stra\u{df}e", "STRASSE");
    assert_eq!(validate_churn(text, &other), Vec::<String>::new());
    let many = |name: &str| {
        let mut text = String::from("### C\n");
        for i in 0..7 {
            text.push_str(&format!("- [{name} {i}](https://h/{i}): D.\n"));
        }
        text
    };
    assert_eq!(
        validate_churn(&many("Stra\u{df}e"), &many("STRASSE")),
        Vec::<String>::new()
    );
    assert_eq!(
        validate_churn(&many("Stra\u{df}e"), &many("Strase")),
        vec!["churn limit exceeded: 14 resource entries changed (maximum 6)"]
    );
}

#[test]
fn folding_may_join_titles() {
    // both titles are valid side by side; the later one counts for their key
    let result =
        validate_text("### C\n- [Stra\u{df}e](https://a): 1.\n- [Strasse](https://b): 2.");
    assert_eq!(result.errors, Vec::<String>::new());
    let map = resource_map(&result.resources);
    assert_eq!(map.len(), 1);
    assert_eq!(map.get("strasse"), Some(&result.resources[1]));
}

#[test]
fn keys_find_resources() {
    let resources = validate_text("### C\n- [A](https://a): 1.\n- [B](https://b): 2.").resources;
    let map = map_by_keys(&vec!["x".to_string(), "y".to_string()], &resources);
    assert_eq!(map.len(), 2);
    assert_eq!(map.get("x"), Some(&resources[0]));
    assert_eq!(map.get("y"), Some(&resources[1]));
    let map = map_by_keys(&vec!["x".to_string(), "x".to_string()], &resources);
    assert_eq!(map.len(), 1);
    assert_eq!(map.get("x"), Some(&resources[1]));
}

#[test]
fn two_small_steps_make_a_large_one() {
    let first = readme(8, 0, "x").replace("### Books\n", "");
    let second = first.replacen("x.", "y.", 6);
    let third = second.replace("x.", "y.");
    assert_eq!(validate_churn(&first, &second), Vec::<String>::new());
    assert_eq!(validate_churn(&second, &third), Vec::<String>::new());
    assert_eq!(
        validate_churn(&first, &third),
        vec!["churn limit exceeded: 8 resource entries changed (maximum 6)"]
    );
    assert_eq!(validate_churn(&third, &first), validate_churn(&first, &third));
    // every resource of a valid revision is found by its title
    let resources = validate_text(&third).resources;
    assert_eq!(resource_map(&resources).len(), resources.len());
}
