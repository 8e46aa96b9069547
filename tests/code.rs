use tegami::code::{process, update_indent_guess, IndentGuess, Line};
use tegami::writing::sample_of;

#[test]
fn indentation_counts_spaces_and_tabs() {
    let src = process("a.py".to_owned(), "def f():\n    x\n      y\n\t\tz\n".to_owned());
    assert_eq!(src.file_name, "a.py");
    let lines: Vec<(u32, u32, &str)> = src
        .lines_of_code
        .iter()
        .map(|l| (l.number, l.indent, l.code.as_str()))
        .collect();
    assert_eq!(
        lines,
        vec![
            (0, 0, "def f():"),
            (1, 1, "    x"),
            (2, 3, "      y"),
            (3, 2, "\t\tz"),
            (4, 0, ""),
        ]
    );
}

#[test]
fn indent_guess_follows_the_line() {
    let line = Line { number: 7, indent: 0, code: "  two".to_owned() };
    let (l, g) = update_indent_guess(&line, IndentGuess::FourSpaces);
    assert_eq!((l.number, l.indent, l.code.as_str()), (7, 1, "  two"));
    assert_eq!(g, IndentGuess::TwoSpaces);
    let line = Line { number: 0, indent: 0, code: "        eight".to_owned() };
    let (l, g) = update_indent_guess(&line, IndentGuess::Tab);
    assert_eq!(l.indent, 2);
    assert_eq!(g, IndentGuess::FourSpaces);
    let line = Line { number: 0, indent: 0, code: "none".to_owned() };
    let (l, g) = update_indent_guess(&line, IndentGuess::TwoSpaces);
    assert_eq!(l.indent, 0);
    assert_eq!(g, IndentGuess::Tab);
}

#[test]
fn empty_source_has_one_empty_line() {
    let src = process("e.rs".to_owned(), String::new());
    assert_eq!(src.lines_of_code.len(), 1);
    assert_eq!(src.lines_of_code[0].code, "");
}

#[test]
fn sample_lines_are_trimmed() {
    let s = sample_of("  first line \n\tsecond\n");
    let texts: Vec<&str> = s.lines.iter().map(|l| l.text.as_str()).collect();
    assert_eq!(texts, vec!["first line", "second", ""]);
}
