//! Writing samples: text kept line by line, each line trimmed.
use vstd::prelude::*;

use crate::text::{chars_of, split, split_on, string_of, trim, trimmed};

verus! {

/// One line of a sample.
#[derive(Debug)]
pub struct Line {
    pub text: String,
}

/// A writing sample.
#[derive(Debug)]
pub struct Sample {
    pub lines: Vec<Line>,
}

/// The sample of `content`: its lines, split on `'\n'`, each trimmed.
pub fn sample_of(content: &str) -> (r: Sample)
    ensures
        r.lines@.len() == split(content@, '\n').len(),
        forall|k: int|
            0 <= k < r.lines@.len() ==> (#[trigger] r.lines@[k]).text@ == trim(
                split(content@, '\n')[k],
            ),
{
    let cs = chars_of(content);
    let pieces = split_on(&cs, '\n');
    let mut lines: Vec<Line> = Vec::new();
    let mut i: usize = 0;
    while i < pieces.len()
        invariant
            i <= pieces@.len(),
            pieces@.map_values(|p: Vec<char>| p@) == split(content@, '\n'),
            lines@.len() == i,
            forall|k: int|
                0 <= k < i ==> (#[trigger] lines@[k]).text@ == trim(split(content@, '\n')[k]),
        decreases pieces@.len() - i,
    {
        let piece = &pieces[i];
        let t = trimmed(piece, 0, piece.len());
        proof {
            assert(pieces@.map_values(|p: Vec<char>| p@)[i as int] == pieces@[i as int]@);
            assert(piece@.subrange(0, piece@.len() as int) =~= piece@);
        }
        lines.push(Line { text: string_of(t.as_slice()) });
        i = i + 1;
    }
    Sample { lines }
}

} // verus!
