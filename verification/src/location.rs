//! Source locations.

use vstd::prelude::*;

verus! {

/// A position in a source file: lines and columns count from one.
#[derive(Debug, PartialEq, Eq, PartialOrd, Ord, Hash)]
pub struct Loc {
    pub filename: Option<String>,
    pub line: i32,
    pub col: i32,
}

/// The mathematical value of a [`Loc`].
pub ghost struct LocView {
    pub filename: Option<Seq<char>>,
    pub line: int,
    pub col: int,
}

impl View for Loc {
    type V = LocView;

    open spec fn view(&self) -> LocView {
        LocView {
            filename: match self.filename {
                Some(f) => Some(f@),
                None => None,
            },
            line: self.line as int,
            col: self.col as int,
        }
    }
}

impl Default for Loc {
    fn default() -> (loc: Loc)
        ensures
            loc@ == start_of_input(),
    {
        Loc { filename: None, line: 1, col: 1 }
    }
}

impl Clone for Loc {
    fn clone(&self) -> (copy: Loc)
        ensures
            copy@ == self@,
    {
        Loc {
            filename: match &self.filename {
                Some(name) => Some(name.clone()),
                None => None,
            },
            line: self.line,
            col: self.col,
        }
    }
}

/// The first position of an unnamed input.
pub open spec fn start_of_input() -> LocView {
    LocView { filename: None, line: 1, col: 1 }
}

} // verus!

verus! {

/// The position at the start of the next line.
pub open spec fn next_line(pos: LocView) -> LocView {
    LocView { line: pos.line + 1, col: 1, ..pos }
}

/// The position one column on.
pub open spec fn next_col(pos: LocView) -> LocView {
    LocView { col: pos.col + 1, ..pos }
}

/// The position `pos` and the index `index` into `chars`, moved past one
/// character: past nothing at the end of the text, and past both
/// characters of a carriage return with a line feed. A carriage return, a
/// line feed and the two together each begin a line.
pub open spec fn spec_next(pos: LocView, chars: Seq<char>, index: int) -> (LocView, int) {
    if index < 0 || index >= chars.len() {
        (pos, index)
    } else if chars[index] == '\n' {
        (next_line(pos), index + 1)
    } else if chars[index] == '\r' {
        if index + 1 < chars.len() && chars[index + 1] == '\n' {
            (next_line(pos), index + 2)
        } else {
            (next_line(pos), index + 1)
        }
    } else {
        (next_col(pos), index + 1)
    }
}

/// The position of the character at `index` in a text from the file
/// `file`.
pub open spec fn loc_at(file: Option<Seq<char>>, chars: Seq<char>, index: int) -> LocView
    decreases index,
{
    if index <= 0 || index > chars.len() {
        LocView { filename: file, line: 1, col: 1 }
    } else {
        let before = loc_at(file, chars, index - 1);
        let c = chars[index - 1];
        if c == '\r' {
            next_line(before)
        } else if c == '\n' {
            if index >= 2 && chars[index - 2] == '\r' {
                before
            } else {
                next_line(before)
            }
        } else {
            next_col(before)
        }
    }
}

/// Lines and columns are counted from one and grow by at most one for
/// each character.
pub proof fn lemma_loc_bounds(file: Option<Seq<char>>, chars: Seq<char>, index: int)
    requires
        0 <= index <= chars.len(),
    ensures
        loc_at(file, chars, index).filename == file,
        1 <= loc_at(file, chars, index).line <= index + 1,
        1 <= loc_at(file, chars, index).col <= index + 1,
    decreases index,
{
    if index > 0 {
        lemma_loc_bounds(file, chars, index - 1);
    }
}

/// Whether `index` does not stand between a carriage return and the line
/// feed that follows it.
pub open spec fn on_boundary(chars: Seq<char>, index: int) -> bool {
    !(0 < index < chars.len() && chars[index - 1] == '\r' && chars[index] == '\n')
}

/// Moving past a character leads from its position to the position of
/// the character behind it.
pub proof fn lemma_next_loc(file: Option<Seq<char>>, chars: Seq<char>, index: int)
    requires
        0 <= index < chars.len(),
        on_boundary(chars, index),
    ensures
        spec_next(loc_at(file, chars, index), chars, index).0 == loc_at(
            file,
            chars,
            spec_next(loc_at(file, chars, index), chars, index).1,
        ),
        index < spec_next(loc_at(file, chars, index), chars, index).1 <= chars.len(),
        on_boundary(chars, spec_next(loc_at(file, chars, index), chars, index).1),
{
    let here = loc_at(file, chars, index);
    let after = spec_next(here, chars, index).1;
    assert(loc_at(file, chars, index + 1) == if chars[index] == '\r' || chars[index] == '\n' {
        next_line(here)
    } else {
        next_col(here)
    });
    if after == index + 2 {
        assert(loc_at(file, chars, index + 2) == loc_at(file, chars, index + 1));
    }
}

impl Loc {
    /// Moves the position, which is that of the character at `index` in
    /// `chars`, past that character, and returns the index of the next
    /// one; see [`spec_next`].
    pub fn next(&mut self, chars: &Vec<char>, index: usize) -> (after: usize)
        requires
            old(self).line < i32::MAX,
            old(self).col < i32::MAX,
        ensures
            (final(self)@, after as int) == spec_next(old(self)@, chars@, index as int),
    {
        if index >= chars.len() {
            return index;
        }
        let nl = chars[index] == '\n';
        let cr = chars[index] == '\r';
        let mut after = index + 1;
        self.col += 1;
        if nl || cr {
            if cr && after < chars.len() && chars[after] == '\n' {
                after += 1;
            }
            self.line += 1;
            self.col = 1;
        }
        after
    }
}

} // verus!
