//! What is reported of READMEs, word for word.

use validate_readme::{validate_text, Resource};

fn errors(text: &str) -> Vec<String> {
    validate_text(text).errors
}

#[test]
fn resources_carry_their_place() {
    let text = "# T\n## Learn \n###  Books\t\n- [ A [x ](https://h/a): D. \n";
    let result = validate_text(text);
    assert_eq!(
        result.resources,
        vec![Resource {
            line: 4,
            section: "Learn".to_string(),
            category: "Books".to_string(),
            title: "A [x".to_string(),
            url: "https://h/a".to_string(),
            description: "D.".to_string(),
        }]
    );
    // the period has to be the very last character
    assert_eq!(result.errors, vec!["line 4: description must end with a period"]);
    assert_eq!(result.resources[0].clone(), result.resources[0]);
}

#[test]
fn malformed_entries() {
    for line in [
        "- [A](http://h): D.",
        "- [A](https://): D.",
        "- [](https://h): D.",
        "- [A](https://h) D.",
        "- [A](https://h):D.",
        "- [A](https://h): ",
        "- [A] (https://h): D.",
        "- [A](https://h h): D.",
        "- [A](https://h\u{a0}h): D.",
        "- [A",
    ] {
        assert_eq!(
            errors(&format!("### C\n- [Z](https://z): Z.\n{line}")),
            vec!["line 3: malformed resource entry"],
            "{line:?}"
        );
    }
}

#[test]
fn entries_that_are_read() {
    for (line, title, url, description) in [
        ("- [A](https://h/(x): D.", "A", "https://h/(x", "D."),
        ("- [A](https://h): D): E.", "A", "https://h", "D): E."),
        ("- [A](b](https://h): D.", "", "", ""),
        ("- [\u{4e2d}](https://h/\u{4e2d}): \u{e9}.", "\u{4e2d}", "https://h/\u{4e2d}", "\u{e9}."),
    ] {
        let result = validate_text(&format!("### C\n{line}"));
        if title.is_empty() {
            assert!(result.resources.is_empty(), "{line:?}");
        } else {
            assert_eq!(result.errors, Vec::<String>::new());
            assert_eq!(result.resources[0].title, title);
            assert_eq!(result.resources[0].url, url);
            assert_eq!(result.resources[0].description, description);
        }
    }
}

#[test]
fn other_lines_are_prose() {
    assert_eq!(errors(" - [A](x)\n-[A]\n* [A]\n#### H\n##\n##X\n"), Vec::<String>::new());
    assert_eq!(errors(""), Vec::<String>::new());
}

#[test]
fn outside_of_categories() {
    assert_eq!(
        errors("- [A](https://h): D\n### C\n- [B](https://b): B.\n## S\n- [E](https://e): E."),
        vec![
            "line 1: resource is outside a level-three category",
            "line 5: resource is outside a level-three category",
        ]
    );
}

#[test]
fn category_without_a_name_holds_nothing() {
    assert_eq!(
        errors("### \n- [A](https://h): D."),
        vec![
            "line 2: resource is outside a level-three category",
            "line 1: category '' has no resources",
        ]
    );
}

#[test]
fn empty_categories_in_their_first_order() {
    assert_eq!(
        errors("### B\n## S\n### A\n### B\n### A\n- [A](https://h): D.\n### A"),
        vec![
            "line 1: category 'B' has no resources",
            "line 7: category 'A' in section 'S' has no resources",
            "line 4: category 'B' in section 'S' has no resources",
        ]
    );
}

#[test]
fn category_that_is_taken_up_again() {
    assert_eq!(
        errors("### A\n### A\n- [A](https://h): D."),
        Vec::<String>::new()
    );
}

#[test]
fn duplicates_tell_the_first_use() {
    let text = "### C\n\
- [A](https://h/1): D.\n\
- [\u{c9}](https://h/2): D.\n\
- [a](https://H/1/): D.\n\
- [A](https://h:x/1): D.\n\
- [\u{e9}](https://h/1#f): D.\n";
    assert_eq!(
        errors(text),
        vec![
            "line 4: duplicate title 'a' (first used on line 2)",
            "line 4: duplicate URL 'https://H/1/' (first used on line 2)",
            "line 5: duplicate title 'A' (first used on line 2)",
            "line 5: invalid URL 'https://h:x/1' (Port could not be cast to integer value as 'x')",
            "line 6: duplicate title '\u{e9}' (first used on line 3)",
            "line 6: duplicate URL 'https://h/1#f' (first used on line 2)",
        ]
    );
}

#[test]
fn errors_come_in_three_groups() {
    let text = "### Empty\n### C\n- [A](https://h): D\n- [a](https://i): D.\n- [bad\n";
    assert_eq!(
        errors(text),
        vec![
            "line 3: description must end with a period",
            "line 5: malformed resource entry",
            "line 1: category 'Empty' has no resources",
            "line 4: duplicate title 'a' (first used on line 3)",
        ]
    );
}

#[test]
fn carriage_returns_belong_to_the_line() {
    let result = validate_text("## S\r\n### C\r\n- [A](https://h): D.\r\n");
    assert_eq!(result.resources[0].section, "S");
    assert_eq!(result.resources[0].category, "C");
    assert_eq!(result.resources[0].description, "D.");
    assert_eq!(result.errors, vec!["line 3: description must end with a period"]);
}

#[test]
fn prose_at_the_end() {
    let text = "### C\n- [A](https://h): D\n### E";
    for end in ["\n", "\nwords", "\n\n\n#"] {
        let longer = validate_text(&format!("{text}{end}"));
        assert_eq!(longer.errors, errors(text));
        assert_eq!(longer.resources, validate_text(text).resources);
        assert_eq!(longer.warnings, Vec::<String>::new());
    }
}

#[test]
fn prose_in_front() {
    let text = "### C\n- [A](https://h): D\n- [a](https://h/): D.\n### E";
    let short = validate_text(text);
    let long = validate_text(&format!("words\n{text}"));
    assert_eq!(long.resources.len(), 2);
    for (below, above) in long.resources.iter().zip(&short.resources) {
        let mut moved = above.clone();
        moved.line += 1;
        assert_eq!(*below, moved);
    }
    assert_eq!(long.errors.len(), short.errors.len());
    assert_eq!(short.errors[0], "line 2: description must end with a period");
    assert_eq!(long.errors[0], "line 3: description must end with a period");
    assert_eq!(long.errors[1], "line 5: category 'E' has no resources");
    assert_eq!(
        long.errors[2],
        "line 4: duplicate title 'a' (first used on line 3)"
    );
}

#[test]
fn every_error_tells_its_line() {
    let text = "### E\n- [x\n### C\n- [A](https://h:x): D\n- [a](https://h): D.\n- [B](https://h/): D.";
    let found = errors(text);
    assert_eq!(found.len(), 6);
    for error in found {
        let number = error.strip_prefix("line ").unwrap().split(':').next().unwrap();
        let number: usize = number.parse().unwrap();
        assert!(1 <= number && number <= text.split('\n').count());
    }
}

#[test]
fn written_entries_are_read_back() {
    for (title, url, description) in [
        ("T", "https://h", "d."),
        ("a (b) [c", "https://h/?x=(y", "see (https://h): it."),
    ] {
        let text = format!("### C\n- [{title}]({url}): {description}");
        let result = validate_text(&text);
        assert_eq!(result.errors, Vec::<String>::new());
        assert_eq!(result.resources[0].title, title);
        assert_eq!(result.resources[0].url, url);
        assert_eq!(result.resources[0].description, description);
    }
}
