//! Finds the sections delimited by `[clink open](tags)` and `[clink close]()`
//! and the anchors written `[clink tag](names)` in the lines of a source file.
use vstd::prelude::*;

use crate::text::{
    chars_of, find, find_from, split, split_on, string_of, trim, trimmed,
};

verus! {

/// What can go wrong while scanning a file for links and tags.
#[derive(Clone, Debug, PartialEq, Eq)]
pub enum ClinkError {
    /// An open delimiter without a parenthesised tag list.
    NoLinkSection(String),
    /// An open delimiter whose tag list is not closed.
    UnclosedLinkSection(String),
    /// A tag or name that is empty or holds a space.
    BadTagName(String),
    /// A tag anchor without a parenthesised name list.
    NoTagNames(String),
    /// A tag anchor whose name list is not closed.
    UnclosedNameSection(String),
    /// A close delimiter without an open section: the file and line.
    ExtraClose(String, usize),
    /// Sections left open at the end: the file and how many.
    UnclosedSections(String, usize),
}

/// What scanning a parenthesised, comma-separated name list found.
pub enum Scan {
    Names(Seq<Seq<char>>),
    /// No `(`.
    NoOpen,
    /// No `)` after the `(`.
    NoClose,
    /// The text between the parentheses, and its first bad name.
    BadName(Seq<char>, Seq<char>),
}

/// A name that is empty or holds a space.
pub open spec fn bad_name(n: Seq<char>) -> bool {
    n.len() == 0 || n.contains(' ')
}

/// The position of the first bad name.
pub open spec fn first_bad(names: Seq<Seq<char>>) -> Option<int>
    decreases names.len(),
{
    if names.len() == 0 {
        None
    } else {
        match first_bad(names.drop_last()) {
            Some(k) => Some(k),
            None => if bad_name(names.last()) {
                Some(names.len() - 1)
            } else {
                None
            },
        }
    }
}

/// The pieces of `inner` between commas, trimmed.
pub open spec fn names_of(inner: Seq<char>) -> Seq<Seq<char>> {
    split(inner, ',').map_values(|n: Seq<char>| trim(n))
}

/// The names between the first `(` of `t` and the first `)` after it, split
/// on `,` and trimmed.
pub open spec fn scan(t: Seq<char>) -> Scan {
    match find_from(t, seq!['('], 0) {
        None => Scan::NoOpen,
        Some(p) => match find_from(t, seq![')'], p + 1) {
            None => Scan::NoClose,
            Some(q) => {
                let inner = t.subrange(p + 1, q);
                let names = names_of(inner);
                match first_bad(names) {
                    Some(k) => Scan::BadName(inner, names[k]),
                    None => Scan::Names(names),
                }
            },
        },
    }
}

/// The views of a list of strings.
pub open spec fn views(v: Seq<String>) -> Seq<Seq<char>> {
    v.map_values(|s: String| s@)
}

/// A fault as plain values: which kind (the position of its variant in
/// `ClinkError`), its text and its number.
pub type Fault = (nat, Seq<char>, nat);

pub open spec fn fault(e: ClinkError) -> Fault {
    match e {
        ClinkError::NoLinkSection(x) => (0, x@, 0),
        ClinkError::UnclosedLinkSection(x) => (1, x@, 0),
        ClinkError::BadTagName(x) => (2, x@, 0),
        ClinkError::NoTagNames(x) => (3, x@, 0),
        ClinkError::UnclosedNameSection(x) => (4, x@, 0),
        ClinkError::ExtraClose(x, n) => (5, x@, n as nat),
        ClinkError::UnclosedSections(x, n) => (6, x@, n as nat),
    }
}

/// The views of a list of names, or the fault.
pub open spec fn names_view(r: Result<Vec<String>, ClinkError>) -> Result<Seq<Seq<char>>, Fault> {
    match r {
        Ok(v) => Ok(views(v@)),
        Err(e) => Err(fault(e)),
    }
}

/// What `parse_tags` gives for `section`: the names of the trimmed text, or
/// a fault that carries the trimmed text (no list, or no closing
/// parenthesis) or the first bad name.
pub open spec fn link_tags(section: Seq<char>) -> Result<Seq<Seq<char>>, Fault> {
    let t = trim(section);
    match scan(t) {
        Scan::Names(names) => Ok(names),
        Scan::NoOpen => Err((0, t, 0)),
        Scan::NoClose => Err((1, t, 0)),
        Scan::BadName(_, bad) => Err((2, bad, 0)),
    }
}

/// What a tag anchor's text gives: its names, or a fault that carries the
/// text (no list, or no closing parenthesis) or the whole list (a bad name).
pub open spec fn anchor_names(section: Seq<char>) -> Result<Seq<Seq<char>>, Fault> {
    match scan(section) {
        Scan::Names(names) => Ok(names),
        Scan::NoOpen => Err((3, section, 0)),
        Scan::NoClose => Err((4, section, 0)),
        Scan::BadName(inner, _) => Err((2, inner, 0)),
    }
}

/// Scans a parenthesised name list (see `scan`).
fn scan_names(t: &Vec<char>) -> (r: Result<Vec<String>, (u8, Vec<char>, Vec<char>)>)
    ensures
        match scan(t@) {
            Scan::Names(names) => r matches Ok(v) && views(v@) == names,
            Scan::NoOpen => r matches Err(e) && e.0 == 0,
            Scan::NoClose => r matches Err(e) && e.0 == 1,
            Scan::BadName(inner, bad) => r matches Err(e) && e.0 == 2 && e.1@ == inner && e.2@
                == bad,
        },
{
    let n = t.len();
    let mut open: Vec<char> = Vec::new();
    open.push('(');
    let mut close: Vec<char> = Vec::new();
    close.push(')');
    proof {
        assert(open@ =~= seq!['(']);
        assert(close@ =~= seq![')']);
    }
    let p = match find(t, &open, 0) {
        None => {
            return Err((0, Vec::new(), Vec::new()));
        },
        Some(p) => p,
    };
    proof {
        assert(t@.subrange(p as int, p + 1)[0] == '(');
        assert(p + 1 <= t@.len());
    }
    let q = match find(t, &close, p + 1) {
        None => {
            return Err((1, Vec::new(), Vec::new()));
        },
        Some(q) => q,
    };
    let ghost inner_v = t@.subrange(p + 1, q as int);
    let mut inner: Vec<char> = Vec::new();
    let mut i = p + 1;
    while i < q
        invariant
            p + 1 <= i <= q <= t@.len(),
            inner@ == t@.subrange(p + 1, i as int),
        decreases q - i,
    {
        inner.push(t[i]);
        i = i + 1;
        proof {
            assert(inner@ =~= t@.subrange(p + 1, i as int));
        }
    }
    let pieces = split_on(&inner, ',');
    let ghost names = names_of(inner_v);
    let mut out: Vec<String> = Vec::new();
    let mut k: usize = 0;
    while k < pieces.len()
        invariant
            k <= pieces@.len(),
            pieces@.map_values(|p: Vec<char>| p@) == split(inner_v, ','),
            names == names_of(inner_v),
            find_from(t@, seq!['('], 0) == Some(p as int),
            find_from(t@, seq![')'], p + 1) == Some(q as int),
            inner_v == t@.subrange(p + 1, q as int),
            names.len() == pieces@.len(),
            inner@ == inner_v,
            first_bad(names.take(k as int)) is None,
            views(out@) == names.take(k as int),
        decreases pieces@.len() - k,
    {
        let piece = &pieces[k];
        let name = trimmed(piece, 0, piece.len());
        proof {
            assert(piece@.subrange(0, piece@.len() as int) =~= piece@);
            assert(name@ == trim(piece@));
            assert(piece@ == pieces[k as int]@);
            assert(pieces[k as int]@.subrange(0, pieces[k as int]@.len() as int) =~= pieces[k as int]@);
            assert(pieces@.map_values(|p: Vec<char>| p@)[k as int] == pieces[k as int]@);
            assert(split(inner_v, ',')[k as int] == pieces[k as int]@);
            assert(split(inner_v, ',').len() == pieces@.len());
            assert(names.len() == split(inner_v, ',').len());
            lemma_names_of_index(inner_v, k as int);
            assert(name@ == names[k as int]);
            assert(names.take(k + 1).drop_last() =~= names.take(k as int));
            assert(names.take(k + 1).last() == names[k as int]);
        }
        let mut space = false;
        let mut j: usize = 0;
        while j < name.len()
            invariant
                j <= name@.len(),
                space == (exists|m: int| 0 <= m < j && name@[m] == ' '),
            decreases name@.len() - j,
        {
            if name[j] == ' ' {
                space = true;
            }
            j = j + 1;
        }
        if name.len() == 0 || space {
            proof {
                if space {
                    let m = choose|m: int| 0 <= m < j && name@[m] == ' ';
                    assert(name@.contains(' '));
                }
                assert(first_bad(names.take(k + 1)) == Some(k as int));
                lemma_first_bad_prefix(names, k as int);
            }
            return Err((2, inner, name));
        }
        proof {
            if name@.contains(' ') {
                let m = choose|m: int| 0 <= m < name@.len() && name@[m] == ' ';
                assert(space);
            }
        }
        out.push(string_of(name.as_slice()));
        k = k + 1;
        proof {
            assert(views(out@) =~= names.take(k as int));
        }
    }
    proof {
        assert(names.take(k as int) =~= names);
    }
    Ok(out)
}

proof fn lemma_names_of_index(inner: Seq<char>, k: int)
    requires
        0 <= k < split(inner, ',').len(),
    ensures
        names_of(inner).len() == split(inner, ',').len(),
        names_of(inner)[k] == trim(split(inner, ',')[k]),
{
}

proof fn lemma_first_bad_prefix(names: Seq<Seq<char>>, k: int)
    requires
        0 <= k < names.len(),
        first_bad(names.take(k + 1)) == Some(k),
    ensures
        first_bad(names) == Some(k),
    decreases names.len(),
{
    if names.len() > k + 1 {
        assert(names.drop_last().take(k + 1) =~= names.take(k + 1));
        lemma_first_bad_prefix(names.drop_last(), k);
    } else {
        assert(names.take(k + 1) =~= names);
    }
}

/// Parses a tag list `(tag[, tag ...])`, after trimming `tag_section`.
pub fn parse_tags(tag_section: &str) -> (r: Result<Vec<String>, ClinkError>)
    ensures
        names_view(r) == link_tags(tag_section@),
{
    let chars = chars_of(tag_section);
    proof {
        assert(chars@.subrange(0, chars@.len() as int) =~= chars@);
    }
    tags_from(&chars, 0)
}

/// `parse_tags` on the characters of `cs` from position `from` on.
fn tags_from(cs: &Vec<char>, from: usize) -> (r: Result<Vec<String>, ClinkError>)
    requires
        from <= cs@.len(),
    ensures
        names_view(r) == link_tags(cs@.subrange(from as int, cs@.len() as int)),
{
    let t = trimmed(cs, from, cs.len());
    match scan_names(&t) {
        Ok(v) => Ok(v),
        Err(e) => {
            if e.0 == 0 {
                Err(ClinkError::NoLinkSection(string_of(t.as_slice())))
            } else if e.0 == 1 {
                Err(ClinkError::UnclosedLinkSection(string_of(t.as_slice())))
            } else {
                Err(ClinkError::BadTagName(string_of(e.2.as_slice())))
            }
        },
    }
}

} // verus!

verus! {

/// The delimiter that opens a section.
pub const OPEN_DELIM: &'static str = "[clink open]";

/// The delimiter that closes a section.
pub const CLOSE_DELIM: &'static str = "[clink close]()";

/// The marker of a tag anchor.
pub const TAG_DELIM: &'static str = "[clink tag]";

/// A stretch of a file between `[clink open](tags)` and `[clink close]()`,
/// with line numbers counted from one.
#[derive(Clone, Debug, PartialEq, Eq)]
pub struct Section {
    pub tags: Vec<String>,
    pub file_path: String,
    pub open_line_number: u64,
    pub close_line_number: u64,
}

/// A section as plain values: its tags, opening line and closing line.
pub type SectionView = (Seq<Seq<char>>, int, int);

impl Section {
    pub open spec fn opens(&self) -> u64 {
        self.open_line_number
    }

    pub open spec fn closes(&self) -> u64 {
        self.close_line_number
    }

    pub open spec fn view_of(&self) -> SectionView {
        (views(self.tags@), self.opens() as int, self.closes() as int)
    }

    /// A section of `path` that opens, and for now closes, on line
    /// `open_line_num`, with no tags yet.
    pub fn start(path: String, open_line_num: u64) -> (r: Section)
        ensures
            r.file_path == path,
            r.tags@.len() == 0,
            r.opens() == open_line_num,
            r.closes() == open_line_num,
    {
        Section {
            file_path: path,
            open_line_number: open_line_num,
            close_line_number: open_line_num,
            tags: Vec::new(),
        }
    }

    /// Sets the line on which the section closes.
    pub fn set_end(&mut self, end_line_num: u64)
        ensures
            final(self).closes() == end_line_num,
            final(self).opens() == old(self).opens(),
            final(self).tags == old(self).tags,
            final(self).file_path == old(self).file_path,
    {
        self.close_line_number = end_line_num;
    }

    /// The line on which the section opens.
    pub fn open_line_number(&self) -> (r: u64)
        ensures
            r == self.opens(),
    {
        self.open_line_number
    }

    /// The line on which the section closes.
    pub fn close_line_number(&self) -> (r: u64)
        ensures
            r == self.closes(),
    {
        self.close_line_number
    }

    /// Whether any of `line_nums` lies within the section, both ends
    /// included.
    pub fn covers_any_line(&self, line_nums: &Vec<u32>) -> (r: bool)
        ensures
            r == exists|i: int|
                0 <= i < line_nums@.len() && self.opens() <= (#[trigger] line_nums@[i]) as u64
                    <= self.closes(),
    {
        let mut i: usize = 0;
        while i < line_nums.len()
            invariant
                i <= line_nums@.len(),
                forall|j: int|
                    0 <= j < i ==> !(self.opens() <= (#[trigger] line_nums@[j]) as u64
                        <= self.closes()),
            decreases line_nums@.len() - i,
        {
            let line_num = line_nums[i] as u64;
            if line_num >= self.open_line_number && line_num <= self.close_line_number {
                return true;
            }
            i = i + 1;
        }
        false
    }
}

/// Scans the lines of one file for sections.
pub struct SectionParser {
    file_path: String,
    lines: Vec<String>,
}

/// What the lines seen so far give: the closed sections in the order they
/// closed, and the open ones, innermost last; or the fault that stopped the
/// scan. Line `k` of `lines` is numbered `k + 1`.
pub open spec fn scan_sections(path: Seq<char>, lines: Seq<Seq<char>>) -> Result<
    (Seq<SectionView>, Seq<SectionView>),
    Fault,
>
    decreases lines.len(),
{
    if lines.len() == 0 {
        Ok((seq![], seq![]))
    } else {
        match scan_sections(path, lines.drop_last()) {
            Err(e) => Err(e),
            Ok((done, stack)) => {
                let line = lines.last();
                let n = lines.len() as int;
                let opened = match find_from(line, OPEN_DELIM@, 0) {
                    None => Ok(stack),
                    Some(i) => match link_tags(line.subrange(i + OPEN_DELIM@.len(), line.len() as int)) {
                        Err(e) => Err(e),
                        Ok(tags) => if tags.len() == 0 {
                            Err((0, line, 0))
                        } else {
                            Ok(stack.push((tags, n, n)))
                        },
                    },
                };
                match opened {
                    Err(e) => Err(e),
                    Ok(stack) => match find_from(line, CLOSE_DELIM@, 0) {
                        None => Ok((done, stack)),
                        Some(_) => if stack.len() == 0 {
                            Err((5, path, n as nat))
                        } else {
                            let last = stack.last();
                            Ok((done.push((last.0, last.1, n)), stack.drop_last()))
                        },
                    },
                }
            },
        }
    }
}

/// What parsing the whole file gives: the sections in the order they close,
/// or a fault; sections still open at the end are a fault that counts them.
pub open spec fn file_sections(path: Seq<char>, lines: Seq<Seq<char>>) -> Result<
    Seq<SectionView>,
    Fault,
> {
    match scan_sections(path, lines) {
        Err(e) => Err(e),
        Ok((done, stack)) => if stack.len() > 0 {
            Err((6, path, stack.len()))
        } else {
            Ok(done)
        },
    }
}

pub open spec fn section_views(v: Seq<Section>) -> Seq<SectionView> {
    v.map_values(|s: Section| s.view_of())
}

proof fn lemma_scan_sections_fault_stays(path: Seq<char>, lines: Seq<Seq<char>>, k: int)
    requires
        0 <= k <= lines.len(),
        scan_sections(path, lines.take(k)) is Err,
    ensures
        scan_sections(path, lines) == scan_sections(path, lines.take(k)),
    decreases lines.len() - k,
{
    if k < lines.len() {
        assert(lines.take(k + 1).drop_last() =~= lines.take(k));
        lemma_scan_sections_fault_stays(path, lines, k + 1);
    } else {
        assert(lines.take(k) =~= lines);
    }
}

impl SectionParser {
    pub closed spec fn path(&self) -> Seq<char> {
        self.file_path@
    }

    pub closed spec fn text(&self) -> Seq<Seq<char>> {
        views(self.lines@)
    }

    /// A parser for the file at `path` whose lines are `lines`.
    pub fn new(path: &str, lines: Vec<String>) -> (r: SectionParser)
        ensures
            r.path() == path@,
            r.text() == views(lines@),
    {
        SectionParser { file_path: path.to_owned(), lines }
    }

    /// The sections of the file, in the order in which they close, each
    /// with its tags and the lines of its delimiters; or the first fault.
    pub fn parse(self) -> (r: Result<Vec<Section>, ClinkError>)
        requires
            self.text().len() < u64::MAX,
        ensures
            match r {
                Ok(v) => file_sections(self.path(), self.text()) == Ok::<Seq<SectionView>, Fault>(
                    section_views(v@),
                ) && forall|k: int| 0 <= k < v@.len() ==> (#[trigger] v@[k]).file_path@ == self.path(),
                Err(e) => file_sections(self.path(), self.text()) == Err::<Seq<SectionView>, Fault>(
                    fault(e),
                ),
            },
    {
        let ghost path = self.path();
        let ghost text = self.text();
        let open = chars_of(OPEN_DELIM);
        let close = chars_of(CLOSE_DELIM);
        let mut sections: Vec<Section> = Vec::new();
        let mut stack: Vec<Section> = Vec::new();
        let mut i: usize = 0;
        proof {
            assert(text.take(0) =~= Seq::<Seq<char>>::empty());
            assert(section_views(sections@) =~= Seq::<SectionView>::empty());
            assert(section_views(stack@) =~= Seq::<SectionView>::empty());
        }
        while i < self.lines.len()
            invariant
                path == self.path(),
                text == self.text(),
                text.len() < u64::MAX,
                open@ == OPEN_DELIM@,
                close@ == CLOSE_DELIM@,
                i <= text.len(),
                scan_sections(path, text.take(i as int)) == Ok::<
                    (Seq<SectionView>, Seq<SectionView>),
                    Fault,
                >((section_views(sections@), section_views(stack@))),
                forall|k: int| 0 <= k < sections@.len() ==> (#[trigger] sections@[k]).file_path@ == path,
                forall|k: int| 0 <= k < stack@.len() ==> (#[trigger] stack@[k]).file_path@ == path,
            decreases text.len() - i,
        {
            let line = chars_of(self.lines[i].as_str());
            let line_len = line.len();
            let n: u64 = i as u64 + 1;
            let ghost done_v = section_views(sections@);
            let ghost stack_v = section_views(stack@);
            proof {
                assert(text.take(i + 1).drop_last() =~= text.take(i as int));
                assert(text.take(i + 1).last() == line@);
            }
            match find(&line, &open, 0) {
                None => {},
                Some(at) => {
                    let tags = tags_from(&line, at + open.len());
                    match tags {
                        Err(e) => {
                            proof {
                                lemma_scan_sections_fault_stays(path, text, i + 1);
                            }
                            return Err(e);
                        },
                        Ok(tags) => {
                            if tags.len() == 0 {
                                proof {
                                    lemma_scan_sections_fault_stays(path, text, i + 1);
                                }
                                return Err(ClinkError::NoLinkSection(self.lines[i].clone()));
                            }
                            let mut section = Section::start(self.file_path.clone(), n);
                            section.tags = tags;
                            stack.push(section);
                            proof {
                                assert(section_views(stack@) =~= stack_v.push(section.view_of()));
                            }
                        },
                    }
                },
            }
            let ghost opened_v = section_views(stack@);
            proof {
                let line_v = text.take(i + 1).last();
                let opened = match find_from(line_v, OPEN_DELIM@, 0) {
                    None => Ok(stack_v),
                    Some(j) => match link_tags(line_v.subrange(j + OPEN_DELIM@.len(), line_v.len() as int)) {
                        Err(e) => Err(e),
                        Ok(tags) => if tags.len() == 0 {
                            Err((0, line_v, 0))
                        } else {
                            Ok(stack_v.push((tags, (i + 1) as int, (i + 1) as int)))
                        },
                    },
                };
                assert(opened == Ok::<Seq<SectionView>, Fault>(opened_v));
            }
            match find(&line, &close, 0) {
                None => {},
                Some(_) => {
                    let ghost before_pop = stack@;
                    match stack.pop() {
                        None => {
                            proof {
                                lemma_scan_sections_fault_stays(path, text, i + 1);
                            }
                            return Err(ClinkError::ExtraClose(self.file_path.clone(), i + 1));
                        },
                        Some(last) => {
                            let ghost before = sections@;
                            let mut last = last;
                            last.set_end(n);
                            sections.push(last);
                            proof {
                                assert(section_views(sections@) =~= section_views(before).push(last.view_of()));
                                assert(section_views(stack@) =~= opened_v.drop_last());
                                assert(opened_v.last() == before_pop.last().view_of());
                            }
                        },
                    }
                },
            }
            i = i + 1;
        }
        proof {
            assert(text.take(i as int) =~= text);
        }
        if stack.len() > 0 {
            Err(ClinkError::UnclosedSections(self.file_path.clone(), stack.len()))
        } else {
            Ok(sections)
        }
    }
}

} // verus!

verus! {

/// An anchor `[clink tag](names)` that sections can point to.
#[derive(Clone, Debug, PartialEq, Eq)]
pub struct Tag {
    pub line_number: u64,
    pub file_path: String,
    pub tag_names: Vec<String>,
}

/// A tag as plain values: its line and names.
pub type TagView = (int, Seq<Seq<char>>);

impl Tag {
    pub open spec fn view_of(&self) -> TagView {
        (self.line_number as int, views(self.tag_names@))
    }

    /// Parses the names of an anchor on line `line_num` of `file_path`, from
    /// `name_section`, the text after the marker.
    pub fn parse(line_num: u64, file_path: &str, name_section: &str) -> (r: Result<Tag, ClinkError>)
        ensures
            match r {
                Ok(t) => anchor_names(name_section@) == Ok::<Seq<Seq<char>>, Fault>(
                    views(t.tag_names@),
                ) && t.line_number == line_num && t.file_path@ == file_path@,
                Err(e) => anchor_names(name_section@) == Err::<Seq<Seq<char>>, Fault>(fault(e)),
            },
    {
        let cs = chars_of(name_section);
        proof {
            assert(cs@.subrange(0, cs@.len() as int) =~= cs@);
        }
        match anchor_from(&cs, 0) {
            Ok(names) => Ok(Tag { line_number: line_num, file_path: file_path.to_owned(), tag_names: names }),
            Err(e) => Err(e),
        }
    }
}

/// The names of an anchor whose text is `cs` from position `from` on.
fn anchor_from(cs: &Vec<char>, from: usize) -> (r: Result<Vec<String>, ClinkError>)
    requires
        from <= cs@.len(),
    ensures
        names_view(r) == anchor_names(cs@.subrange(from as int, cs@.len() as int)),
{
    let mut t: Vec<char> = Vec::new();
    let mut i = from;
    while i < cs.len()
        invariant
            from <= i <= cs@.len(),
            t@ == cs@.subrange(from as int, i as int),
        decreases cs@.len() - i,
    {
        t.push(cs[i]);
        i = i + 1;
        proof {
            assert(t@ =~= cs@.subrange(from as int, i as int));
        }
    }
    match scan_names(&t) {
        Ok(v) => Ok(v),
        Err(e) => {
            if e.0 == 0 {
                Err(ClinkError::NoTagNames(string_of(t.as_slice())))
            } else if e.0 == 1 {
                Err(ClinkError::UnclosedNameSection(string_of(t.as_slice())))
            } else {
                Err(ClinkError::BadTagName(string_of(e.1.as_slice())))
            }
        },
    }
}

/// Scans the lines of one file for tag anchors.
pub struct TagParser {
    file_path: String,
    lines: Vec<String>,
}

/// The anchors of `lines`, in order, or the first fault. Line `k` of
/// `lines` is numbered `k + 1`.
pub open spec fn file_tags(lines: Seq<Seq<char>>) -> Result<Seq<TagView>, Fault>
    decreases lines.len(),
{
    if lines.len() == 0 {
        Ok(seq![])
    } else {
        match file_tags(lines.drop_last()) {
            Err(e) => Err(e),
            Ok(found) => {
                let line = lines.last();
                match find_from(line, TAG_DELIM@, 0) {
                    None => Ok(found),
                    Some(i) => match anchor_names(line.subrange(i + TAG_DELIM@.len(), line.len() as int)) {
                        Err(e) => Err(e),
                        Ok(names) => Ok(found.push((lines.len() as int, names))),
                    },
                }
            },
        }
    }
}

pub open spec fn tag_views(v: Seq<Tag>) -> Seq<TagView> {
    v.map_values(|t: Tag| t.view_of())
}

proof fn lemma_file_tags_fault_stays(lines: Seq<Seq<char>>, k: int)
    requires
        0 <= k <= lines.len(),
        file_tags(lines.take(k)) is Err,
    ensures
        file_tags(lines) == file_tags(lines.take(k)),
    decreases lines.len() - k,
{
    if k < lines.len() {
        assert(lines.take(k + 1).drop_last() =~= lines.take(k));
        lemma_file_tags_fault_stays(lines, k + 1);
    } else {
        assert(lines.take(k) =~= lines);
    }
}

impl TagParser {
    pub closed spec fn path(&self) -> Seq<char> {
        self.file_path@
    }

    pub closed spec fn text(&self) -> Seq<Seq<char>> {
        views(self.lines@)
    }

    /// A parser for the file at `path` whose lines are `lines`.
    pub fn new(path: &str, lines: Vec<String>) -> (r: TagParser)
        ensures
            r.path() == path@,
            r.text() == views(lines@),
    {
        TagParser { file_path: path.to_owned(), lines }
    }

    /// The anchors of the file, in order, each with its line and names; or
    /// the first fault.
    pub fn parse(self) -> (r: Result<Vec<Tag>, ClinkError>)
        requires
            self.text().len() < u64::MAX,
        ensures
            match r {
                Ok(v) => file_tags(self.text()) == Ok::<Seq<TagView>, Fault>(tag_views(v@))
                    && forall|k: int| 0 <= k < v@.len() ==> (#[trigger] v@[k]).file_path@ == self.path(),
                Err(e) => file_tags(self.text()) == Err::<Seq<TagView>, Fault>(fault(e)),
            },
    {
        let ghost text = self.text();
        let marker = chars_of(TAG_DELIM);
        let mut tags: Vec<Tag> = Vec::new();
        let mut i: usize = 0;
        proof {
            assert(text.take(0) =~= Seq::<Seq<char>>::empty());
            assert(tag_views(tags@) =~= Seq::<TagView>::empty());
        }
        while i < self.lines.len()
            invariant
                text == self.text(),
                text.len() < u64::MAX,
                marker@ == TAG_DELIM@,
                i <= text.len(),
                file_tags(text.take(i as int)) == Ok::<Seq<TagView>, Fault>(tag_views(tags@)),
                forall|k: int| 0 <= k < tags@.len() ==> (#[trigger] tags@[k]).file_path@ == self.path(),
            decreases text.len() - i,
        {
            let line = chars_of(self.lines[i].as_str());
            let line_len = line.len();
            proof {
                assert(text.take(i + 1).drop_last() =~= text.take(i as int));
                assert(text.take(i + 1).last() == line@);
            }
            match find(&line, &marker, 0) {
                None => {},
                Some(at) => {
                    match anchor_from(&line, at + marker.len()) {
                        Err(e) => {
                            proof {
                                lemma_file_tags_fault_stays(text, i + 1);
                            }
                            return Err(e);
                        },
                        Ok(names) => {
                            let ghost before = tags@;
                            let tag = Tag {
                                line_number: i as u64 + 1,
                                file_path: self.file_path.clone(),
                                tag_names: names,
                            };
                            tags.push(tag);
                            proof {
                                assert(tag_views(tags@) =~= tag_views(before).push(tag.view_of()));
                            }
                        },
                    }
                },
            }
            i = i + 1;
        }
        proof {
            assert(text.take(i as int) =~= text);
        }
        Ok(tags)
    }
}

} // verus!
