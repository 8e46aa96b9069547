use tegami::links::{parse_tags, ClinkError, Section, SectionParser, Tag, TagParser};

fn lines_of(input: &str) -> Vec<String> {
    input.lines().map(String::from).collect()
}

#[test]
fn section_parser_handles_simple_sections() {
    let input = "import os
        # [clink open](main)
        def show_process():
            print os.getpid()
        # [clink close]()";
    let expected_sections = vec![Section {
        open_line_number: 2,
        close_line_number: 5,
        file_path: "/process.py".to_owned(),
        tags: vec!["main".to_owned()],
    }];
    let parser = SectionParser::new("/process.py", lines_of(input));
    let sections_found = parser.parse().unwrap();
    assert_eq!(sections_found.len(), expected_sections.len());
    assert_eq!(sections_found[0], expected_sections[0]);
}

#[test]
fn section_parser_handles_nested_sections() {
    let input = "// [clink open](test)
        fn test() {
            // [clink open](logger)
            println!(\"hello\");
            // [clink close]()
        }
        // [clink close]()";
    let expected_sections = vec![
        Section {
            open_line_number: 3,
            close_line_number: 5,
            file_path: "/src/main.rs".to_owned(),
            tags: vec!["logger".to_owned()],
        },
        Section {
            open_line_number: 1,
            close_line_number: 7,
            file_path: "/src/main.rs".to_owned(),
            tags: vec!["test".to_owned()],
        },
    ];
    let parser = SectionParser::new("/src/main.rs", lines_of(input));
    let sections_found = parser.parse().unwrap();
    assert_eq!(sections_found.len(), expected_sections.len());
    assert_eq!(sections_found[0], expected_sections[0]);
    assert_eq!(sections_found[1], expected_sections[1]);
}

#[test]
fn section_parser_handles_multiple_links() {
    let input = "// [clink open](logger)
        println!(\"hello\");
        // [clink close]()";
    let expected_sections = vec![Section {
        open_line_number: 1,
        close_line_number: 3,
        file_path: "/tests/mod.rs".to_owned(),
        tags: vec!["logger".to_owned()],
    }];
    let parser = SectionParser::new("/tests/mod.rs", lines_of(input));
    let sections_found = parser.parse().unwrap();
    assert_eq!(sections_found.len(), expected_sections.len());
    assert_eq!(sections_found[0], expected_sections[0]);
}

#[test]
fn section_parser_errors_on_missing_links() {
    let input = "## [clink open]()
        # [clink close]()";
    let parser = SectionParser::new("/tests/mod.rs", lines_of(input));
    assert!(parser.parse().is_err());
}

#[test]
fn section_parser_errors_on_malformed_links() {
    let input = "// [clink open](/src/main.rs#logger one)
        // [clink close]()";
    let parser = SectionParser::new("/tests/mod.rs", lines_of(input));
    assert!(parser.parse().is_err());
}

#[test]
fn section_parser_errors_on_unclosed_parens() {
    let input = "// [clink open](/src/main.rs#logger
        println!(\"hello\");
        // [clink close]()";
    let parser = SectionParser::new("/tests/mod.rs", lines_of(input));
    assert!(parser.parse().is_err());
}

#[test]
fn section_parser_error_on_unclosed_delimiters() {
    let input = "// [clink open](/src/main.rs)
        // [click close]()";
    let parser = SectionParser::new("/tests/mod.rs", lines_of(input));
    assert!(parser.parse().is_err());
}

#[test]
fn section_parser_skips_malformed_delimiters() {
    let input = "// [click open](/hello.py)
        // [clink close]()";
    let parser = SectionParser::new("/tests/mod.rs", lines_of(input));
    assert!(parser.parse().is_err());
}

#[test]
fn tag_parser_handles_single_tag_anchors() {
    let input = "import os
        # [clink tag](main)
        def main():
            print 'Hello world!'";
    let expected_tags = vec![Tag {
        line_number: 2,
        file_path: "/main.py".to_owned(),
        tag_names: vec!["main".to_owned()],
    }];
    let parser = TagParser::new("/main.py", lines_of(input));
    let tags_found = parser.parse().unwrap();
    assert_eq!(tags_found.len(), expected_tags.len());
    assert_eq!(tags_found[0], expected_tags[0]);
}

#[test]
fn tag_parser_handles_multiple_tag_names() {
    let input = "import os
        def main():
            # [clink tag](first, second)
            print 'Hello world'";
    let expected_tags = vec![Tag {
        line_number: 3,
        file_path: "/src/hello.py".to_owned(),
        tag_names: vec!["first".to_owned(), "second".to_owned()],
    }];
    let parser = TagParser::new("/src/hello.py", lines_of(input));
    let tags_found = parser.parse().unwrap();
    assert_eq!(tags_found.len(), expected_tags.len());
    assert_eq!(tags_found[0], expected_tags[0]);
}

#[test]
fn tag_parser_handles_multiple_tags() {
    let input = "/// Hello world!
        // [clink tag](hello)
        fn hello() {
            // [clink tag](hello, implementation)
            println!(\"Hello world!\");
        }";
    let expected_tags = vec![
        Tag {
            line_number: 2,
            file_path: "/src/main.rs".to_owned(),
            tag_names: vec!["hello".to_owned()],
        },
        Tag {
            line_number: 4,
            file_path: "/src/main.rs".to_owned(),
            tag_names: vec!["hello".to_owned(), "implementation".to_owned()],
        },
    ];
    let parser = TagParser::new("/src/main.rs", lines_of(input));
    let tags_found = parser.parse().unwrap();
    assert_eq!(tags_found.len(), expected_tags.len());
    assert_eq!(tags_found[0], expected_tags[0]);
    assert_eq!(tags_found[1], expected_tags[1]);
}

#[test]
fn tag_parser_errors_on_missing_tag_names() {
    let input = "// [clink tag]()";
    let parser = TagParser::new("/src/main.rs", lines_of(input));
    assert!(parser.parse().is_err());
}

#[test]
fn tag_parser_errors_on_unclosed_parens() {
    let input = "// [clink tag](hello";
    let parser = TagParser::new("/src/main.rs", lines_of(input));
    assert!(parser.parse().is_err());
}

#[test]
fn tag_parser_skips_malformed_tag() {
    let input = "// [click tag](hello)";
    let parser = TagParser::new("/src/main.rs", lines_of(input));
    let tags_found = parser.parse().unwrap();
    assert_eq!(tags_found.len(), 0);
}

#[test]
fn parse_tags_trims_each_tag() {
    assert_eq!(
        parse_tags("  ( alpha ,beta )  ").unwrap(),
        vec!["alpha".to_owned(), "beta".to_owned()]
    );
}

#[test]
fn parse_tags_reports_each_fault() {
    assert_eq!(parse_tags("  main "), Err(ClinkError::NoLinkSection("main".to_owned())));
    assert_eq!(parse_tags(" (main "), Err(ClinkError::UnclosedLinkSection("(main".to_owned())));
    assert_eq!(parse_tags("(a, b c)"), Err(ClinkError::BadTagName("b c".to_owned())));
    assert_eq!(parse_tags("(a,,b)"), Err(ClinkError::BadTagName("".to_owned())));
}

#[test]
fn anchor_faults_carry_their_text() {
    assert_eq!(
        Tag::parse(1, "/a.rs", "hello"),
        Err(ClinkError::NoTagNames("hello".to_owned()))
    );
    assert_eq!(
        Tag::parse(1, "/a.rs", "(hello"),
        Err(ClinkError::UnclosedNameSection("(hello".to_owned()))
    );
    assert_eq!(
        Tag::parse(1, "/a.rs", "(a, b c)"),
        Err(ClinkError::BadTagName("a, b c".to_owned()))
    );
}

#[test]
fn section_faults_name_file_and_line() {
    let extra = SectionParser::new("/f.rs", lines_of("x\n// [clink close]()"));
    assert_eq!(extra.parse(), Err(ClinkError::ExtraClose("/f.rs".to_owned(), 2)));
    let open = SectionParser::new("/f.rs", lines_of("// [clink open](a)\n// [clink open](b)"));
    assert_eq!(open.parse(), Err(ClinkError::UnclosedSections("/f.rs".to_owned(), 2)));
}

#[test]
fn one_line_can_open_and_close() {
    let parser = SectionParser::new("/f.rs", lines_of("a [clink open](t) b [clink close]()"));
    let found = parser.parse().unwrap();
    assert_eq!(found.len(), 1);
    assert_eq!(found[0].open_line_number(), 1);
    assert_eq!(found[0].close_line_number(), 1);
}

#[test]
fn covers_any_line_includes_both_ends() {
    let mut s = Section::start("/f.rs".to_owned(), 3);
    s.set_end(5);
    assert!(s.covers_any_line(&vec![3]));
    assert!(s.covers_any_line(&vec![1, 5]));
    assert!(!s.covers_any_line(&vec![2, 6]));
    assert!(!s.covers_any_line(&vec![]));
}
