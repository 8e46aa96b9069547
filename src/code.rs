//! Splits source text into lines and guesses each line's indentation level.
use vstd::prelude::*;

use crate::text::{chars_of, split, split_on, string_of};

verus! {

/// One line of a source file: its number (from zero), indentation level and
/// text.
#[derive(Debug)]
pub struct Line {
    pub number: u32,
    pub indent: u32,
    pub code: String,
}

/// A source file as numbered, indented lines.
#[derive(Debug)]
pub struct Source {
    pub file_name: String,
    pub lines_of_code: Vec<Line>,
}

/// The source files of one language.
#[derive(Debug)]
pub struct SourceCodeDirectory {
    pub language_name: String,
    pub source_files: Vec<Source>,
}

/// The indentation unit guessed from the last line seen.
#[derive(Clone, Copy, Debug, PartialEq, Eq, Structural)]
pub enum IndentGuess {
    FourSpaces,
    TwoSpaces,
    Tab,
}

/// The steps of indenting a file: not yet split, lines being indented one
/// by one, or done.
pub enum IndentCounterSM {
    Start { source_code: String },
    Processing {
        file_name: String,
        lines: Vec<Line>,
        processing_index: usize,
        indent_guess: IndentGuess,
    },
    Finished(Source),
}

/// How many characters at the front of `s` equal `c`.
pub open spec fn leading(s: Seq<char>, c: char) -> nat
    decreases s.len(),
{
    if s.len() > 0 && s[0] == c {
        1 + leading(s.drop_first(), c)
    } else {
        0
    }
}

/// The indentation level of a line and the unit it suggests: leading spaces
/// count in fours when their number is a multiple of four and in twos
/// otherwise; a line that does not start with a space counts its leading
/// tabs.
pub open spec fn indent_of(s: Seq<char>) -> (u32, IndentGuess) {
    if s.len() > 0 && s[0] == ' ' {
        let n = leading(s, ' ');
        if n % 4 == 0 {
            ((n / 4) as u32, IndentGuess::FourSpaces)
        } else {
            ((n / 2) as u32, IndentGuess::TwoSpaces)
        }
    } else {
        (leading(s, '\t') as u32, IndentGuess::Tab)
    }
}

/// The lines of `code`: split on `'\n'`, numbered from zero.
pub open spec fn lines_of(code: Seq<char>) -> Seq<Seq<char>> {
    split(code, '\n')
}

/// `v` holds line `k` of `code` at position `k`, with its number and text;
/// its indentation is `indent_of` the text for `k < done` and zero after.
pub open spec fn holds_lines(v: Seq<Line>, code: Seq<char>, done: int) -> bool {
    &&& v.len() == lines_of(code).len()
    &&& forall|k: int|
        0 <= k < v.len() ==> {
            &&& (#[trigger] v[k]).number == k as u32
            &&& v[k].code@ == lines_of(code)[k]
            &&& v[k].indent == if k < done {
                indent_of(v[k].code@).0
            } else {
                0
            }
        }
}

proof fn lemma_leading_stops(s: Seq<char>, c: char, n: int)
    requires
        0 <= n <= s.len(),
        forall|k: int| 0 <= k < n ==> s[k] == c,
        n == s.len() || s[n] != c,
    ensures
        leading(s, c) == n,
    decreases n,
{
    if n > 0 {
        lemma_leading_stops(s.drop_first(), c, n - 1);
    }
}

/// How many characters at the front of `s` equal `c`.
fn count_leading(s: &Vec<char>, c: char) -> (r: usize)
    ensures
        r == leading(s@, c),
{
    let mut n: usize = 0;
    while n < s.len() && s[n] == c
        invariant
            n <= s@.len(),
            forall|k: int| 0 <= k < n ==> s@[k] == c,
        decreases s@.len() - n,
    {
        n = n + 1;
    }
    proof {
        lemma_leading_stops(s@, c, n as int);
    }
    n
}

/// The line with its indentation level worked out, and the indentation
/// unit it suggests; the guess handed in plays no part.
pub fn update_indent_guess(line: &Line, indent_guess: IndentGuess) -> (r: (Line, IndentGuess))
    ensures
        r.0.number == line.number,
        r.0.code@ == line.code@,
        (r.0.indent, r.1) == indent_of(line.code@),
{
    let cs = chars_of(line.code.as_str());
    let code = line.code.clone();
    if cs.len() > 0 && cs[0] == ' ' {
        let n = count_leading(&cs, ' ');
        if n % 4 == 0 {
            (Line { number: line.number, indent: (n / 4) as u32, code }, IndentGuess::FourSpaces)
        } else {
            (Line { number: line.number, indent: (n / 2) as u32, code }, IndentGuess::TwoSpaces)
        }
    } else {
        let n = count_leading(&cs, '\t');
        (Line { number: line.number, indent: n as u32, code }, IndentGuess::Tab)
    }
}

/// Splits `source_code` into numbered lines, none indented yet, ready to be
/// processed from the first.
pub fn tokenize(file_name: String, source_code: String) -> (r: IndentCounterSM)
    ensures
        match r {
            IndentCounterSM::Processing { file_name: f, lines, processing_index, indent_guess } => {
                &&& f == file_name
                &&& holds_lines(lines@, source_code@, 0)
                &&& processing_index == 0
                &&& indent_guess == IndentGuess::FourSpaces
            },
            _ => false,
        },
{
    let cs = chars_of(source_code.as_str());
    let pieces = split_on(&cs, '\n');
    let mut lines: Vec<Line> = Vec::new();
    let mut i: usize = 0;
    while i < pieces.len()
        invariant
            i <= pieces@.len(),
            pieces@.map_values(|p: Vec<char>| p@) == lines_of(source_code@),
            lines@.len() == i,
            forall|k: int|
                0 <= k < i ==> {
                    &&& (#[trigger] lines@[k]).number == k as u32
                    &&& lines@[k].code@ == lines_of(source_code@)[k]
                    &&& lines@[k].indent == 0
                },
        decreases pieces@.len() - i,
    {
        proof {
            assert(pieces@.map_values(|p: Vec<char>| p@)[i as int] == pieces@[i as int]@);
        }
        lines.push(Line { number: i as u32, indent: 0, code: string_of(pieces[i].as_slice()) });
        i = i + 1;
    }
    IndentCounterSM::Processing {
        file_name,
        lines,
        processing_index: 0,
        indent_guess: IndentGuess::FourSpaces,
    }
}

/// One step of the machine: indents the next line, or finishes once every
/// line is done. `Start` and `Finished` are left as they are.
pub fn proceed(state: IndentCounterSM) -> (r: IndentCounterSM)
    ensures
        match (state, r) {
            (
                IndentCounterSM::Processing { file_name, lines, processing_index, indent_guess },
                IndentCounterSM::Finished(src),
            ) => processing_index >= lines@.len() && src.file_name == file_name
                && src.lines_of_code@ == lines@,
            (
                IndentCounterSM::Processing { file_name, lines, processing_index, indent_guess },
                IndentCounterSM::Processing {
                    file_name: next_name,
                    lines: next_lines,
                    processing_index: next_index,
                    indent_guess: next_guess,
                },
            ) => {
                let k = processing_index as int;
                &&& k < lines@.len()
                &&& next_name == file_name
                &&& next_index == k + 1
                &&& next_lines@.len() == lines@.len()
                &&& forall|j: int| 0 <= j < lines@.len() && j != k ==> next_lines@[j] == lines@[j]
                &&& next_lines@[k].number == lines@[k].number
                &&& next_lines@[k].code@ == lines@[k].code@
                &&& (next_lines@[k].indent, next_guess) == indent_of(lines@[k].code@)
            },
            (IndentCounterSM::Processing { .. }, _) => false,
            (s, r) => r == s,
        },
{
    match state {
        IndentCounterSM::Processing { file_name, lines, processing_index, indent_guess } => {
            if processing_index >= lines.len() {
                IndentCounterSM::Finished(Source { file_name, lines_of_code: lines })
            } else {
                let (new_line, new_indent_guess) = update_indent_guess(
                    &lines[processing_index],
                    indent_guess,
                );
                let mut lines = lines;
                lines.set(processing_index, new_line);
                IndentCounterSM::Processing {
                    file_name,
                    lines,
                    processing_index: processing_index + 1,
                    indent_guess: new_indent_guess,
                }
            }
        },
        other => other,
    }
}

/// The file `file_name` with text `source_code` as numbered lines, each
/// with its indentation level (see `indent_of`).
pub fn process(file_name: String, source_code: String) -> (r: Source)
    ensures
        r.file_name == file_name,
        holds_lines(r.lines_of_code@, source_code@, r.lines_of_code@.len() as int),
{
    let ghost code = source_code@;
    let mut state = tokenize(file_name, source_code);
    loop
        invariant
            code == source_code@,
            match state {
                IndentCounterSM::Processing { file_name: f, lines, processing_index, indent_guess } => {
                    &&& f == file_name
                    &&& processing_index <= lines@.len()
                    &&& holds_lines(lines@, code, processing_index as int)
                },
                IndentCounterSM::Finished(src) => {
                    &&& src.file_name == file_name
                    &&& holds_lines(src.lines_of_code@, code, src.lines_of_code@.len() as int)
                },
                _ => false,
            },
        decreases match state {
            IndentCounterSM::Processing { lines, processing_index, .. } => (lines@.len() + 1
                - processing_index) as int,
            _ => 0int,
        },
    {
        match state {
            IndentCounterSM::Finished(src) => {
                return src;
            },
            _ => {},
        }
        state = proceed(state);
    }
}

} // verus!
