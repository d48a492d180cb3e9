//! Source code windows: where a jump lands in a text, and the states of an
//! editor window.
use crate::text::string_to_chars;
use std::time::SystemTime;
use vstd::prelude::*;

verus! {

/// A point in time of std, carried as it is.
#[verifier::external_type_specification]
#[verifier::external_body]
pub struct ExSystemTime(SystemTime);

/// Which editor opens source files.
#[derive(Clone, Copy, Debug, PartialEq, Eq, Structural)]
pub enum CodeEditorType {
    Internal,
    Scaleda,
    VsCode,
}

impl Default for CodeEditorType {
    fn default() -> (t: Self)
        ensures
            t == CodeEditorType::Internal,
    {
        CodeEditorType::Internal
    }
}

impl CodeEditorType {
    pub open spec fn spec_name(self) -> Seq<char> {
        match self {
            CodeEditorType::Internal => seq!['I', 'n', 't', 'e', 'r', 'n', 'a', 'l'],
            CodeEditorType::Scaleda => seq!['S', 'c', 'a', 'l', 'e', 'd', 'a'],
            CodeEditorType::VsCode => seq!['V', 's', 'C', 'o', 'd', 'e'],
        }
    }

    /// The name of the editor kind, as it is printed.
    pub fn to_string(&self) -> (s: String)
        ensures
            s@ == self.spec_name(),
    {
        let c = match self {
            CodeEditorType::Internal => vec!['I', 'n', 't', 'e', 'r', 'n', 'a', 'l'],
            CodeEditorType::Scaleda => vec!['S', 'c', 'a', 'l', 'e', 'd', 'a'],
            CodeEditorType::VsCode => vec!['V', 's', 'C', 'o', 'd', 'e'],
        };
        crate::text::string_from_chars(&c)
    }
}

/// A place in a source file: a line (counted from 1) and a column.
#[derive(Clone, Copy, Debug, PartialEq, Eq, Structural)]
pub struct CodeLocation {
    pub line: isize,
    pub column: isize,
}

/// Walks `text` from its start with the current line number `line`: the
/// number of characters passed before the line number reaches `goal`, or none
/// when the text ends first. A newline raises the line number after its own
/// position has been looked at.
pub open spec fn chars_before_line(text: Seq<char>, goal: int, line: int) -> Option<nat>
    decreases text.len(),
{
    if text.len() == 0 {
        None
    } else if line >= goal {
        Some(0)
    } else {
        match chars_before_line(
            text.drop_first(),
            goal,
            if text[0] == '\n' {
                line + 1
            } else {
                line
            },
        ) {
            Some(k) => Some(k + 1),
            None => None,
        }
    }
}

/// The character offset a jump to `goto` lands on: the first character of the
/// line plus the column; 0 when the text has fewer lines.
pub open spec fn spec_goto_offset(text: Seq<char>, goto: CodeLocation) -> nat {
    match chars_before_line(text, goto.line as int, 1) {
        Some(k) => (k + (goto.column as usize)) as nat,
        None => 0,
    }
}

proof fn lemma_chars_before_line_step(text: Seq<char>, i: int, goal: int, line: int)
    requires
        0 <= i < text.len(),
        line < goal,
    ensures
        chars_before_line(text.skip(i), goal, line) == match chars_before_line(
            text.skip(i + 1),
            goal,
            if text[i] == '\n' {
                line + 1
            } else {
                line
            },
        ) {
            Some(k) => Some(k + 1),
            None => None::<nat>,
        },
{
    assert(text.skip(i).drop_first() =~= text.skip(i + 1));
}

/// Where a jump to `goto` lands in `text`, counted in characters.
pub fn goto_offset(text: &String, goto: &CodeLocation) -> (offset: usize)
    requires
        chars_before_line(text@, goto.line as int, 1) matches Some(k) ==> k + (goto.column as usize)
            <= usize::MAX,
    ensures
        offset == spec_goto_offset(text@, *goto),
{
    let chars = string_to_chars(text);
    let mut line: isize = 1;
    let mut i: usize = 0;
    let column: usize = #[verifier::truncate] (goto.column as usize);
    assert(chars@.skip(0) =~= chars@);
    while i < chars.len()
        invariant
            chars@ == text@,
            i <= chars@.len(),
            1 <= line,
            i > 0 ==> line <= goto.line,
            chars_before_line(text@, goto.line as int, 1) == match chars_before_line(
                chars@.skip(i as int),
                goto.line as int,
                line as int,
            ) {
                Some(k) => Some((k + i) as nat),
                None => None::<nat>,
            },
            chars_before_line(text@, goto.line as int, 1) matches Some(k) ==> k + column
                <= usize::MAX,
            column == goto.column as usize,
        decreases chars.len() - i,
    {
        if line >= goto.line {
            assert(chars_before_line(chars@.skip(i as int), goto.line as int, line as int) == Some(
                0nat,
            ));
            return i + column;
        }
        proof {
            lemma_chars_before_line_step(chars@, i as int, goto.line as int, line as int);
        }
        if chars[i] == '\n' {
            line = line + 1;
        }
        i = i + 1;
    }
    assert(chars@.skip(i as int).len() == 0);
    0
}

/// States of an editor window.
#[derive(Clone, Copy, Debug, PartialEq, Eq, Structural)]
pub enum CodeEditorState {
    FirstLoad,
    FileOpenFailed,
    Idle,
    Modified,
    NeedReload,
}

/// An editor window of a source file.
pub struct CodeEditor {
    pub file: String,
    pub text: String,
    pub read_time: Option<SystemTime>,
    pub state: CodeEditorState,
    pub open: bool,
    pub goto: Option<CodeLocation>,
    pub goto_offset: Option<usize>,
}

impl CodeEditor {
    /// A window on `path` that loads the file first, then jumps to `goto`.
    pub fn new(path: &str, goto: Option<CodeLocation>) -> (e: Self)
        ensures
            e.file@ == path@,
            e.text@.len() == 0,
            e.read_time is None,
            e.state == CodeEditorState::FirstLoad,
            e.open,
            e.goto == goto,
            e.goto_offset is None,
    {
        CodeEditor {
            file: path.to_string(),
            text: String::new(),
            read_time: None,
            state: CodeEditorState::FirstLoad,
            open: true,
            goto,
            goto_offset: None,
        }
    }

    /// The file was read (`Some` with its text, appended to what the window
    /// holds) at `now`, or could not be read.
    pub fn loaded(&mut self, read: Option<String>, now: SystemTime)
        ensures
            match read {
                Some(t) => {
                    &&& final(self).text@ == old(self).text@ + t@
                    &&& final(self).state == CodeEditorState::Idle
                    &&& final(self).read_time == Some(now)
                },
                None => {
                    &&& final(self).text == old(self).text
                    &&& final(self).state == CodeEditorState::FileOpenFailed
                    &&& final(self).read_time == old(self).read_time
                },
            },
            final(self).file == old(self).file,
            final(self).goto == old(self).goto,
            final(self).goto_offset == old(self).goto_offset,
            final(self).open == old(self).open,
    {
        match read {
            Some(t) => {
                let mut chars = string_to_chars(&self.text);
                let more = string_to_chars(&t);
                crate::text::push_all(&mut chars, &more);
                self.text = crate::text::string_from_chars(&chars);
                self.state = CodeEditorState::Idle;
                self.read_time = Some(now);
            },
            None => {
                self.state = CodeEditorState::FileOpenFailed;
            },
        }
    }

    /// Asking again after a failed read starts over.
    pub fn refresh(&mut self)
        ensures
            old(self).state == CodeEditorState::FileOpenFailed ==> final(self).state
                == CodeEditorState::FirstLoad,
            old(self).state != CodeEditorState::FileOpenFailed ==> final(self).state == old(
                self,
            ).state,
            final(self).text == old(self).text,
            final(self).goto == old(self).goto,
            final(self).goto_offset == old(self).goto_offset,
    {
        if self.state == CodeEditorState::FileOpenFailed {
            self.state = CodeEditorState::FirstLoad;
        }
    }

    /// The offset to scroll to in this frame: a pending jump is turned into an
    /// offset in the text; the offset is handed out once.
    pub fn take_goto_offset(&mut self) -> (r: Option<usize>)
        requires
            old(self).goto matches Some(g) ==> (chars_before_line(
                old(self).text@,
                g.line as int,
                1,
            ) matches Some(k) ==> k + (g.column as usize) <= usize::MAX),
        ensures
            match old(self).goto {
                Some(g) => r == Some(spec_goto_offset(old(self).text@, g) as usize),
                None => r == old(self).goto_offset,
            },
            final(self).goto is None,
            final(self).goto_offset is None,
            final(self).text == old(self).text,
            final(self).state == old(self).state,
    {
        match self.goto.take() {
            Some(g) => {
                let offset = goto_offset(&self.text, &g);
                self.goto_offset = Some(offset);
            },
            None => {},
        }
        self.goto_offset.take()
    }

    /// The text was edited; `outdated` tells whether the file changed on disk
    /// since it was read. An edit of an outdated file needs a reload; any
    /// other edit marks the window modified.
    pub fn edited(&mut self, outdated: bool)
        ensures
            outdated ==> final(self).state == CodeEditorState::NeedReload,
            !outdated ==> final(self).state == if old(self).state == CodeEditorState::NeedReload {
                CodeEditorState::NeedReload
            } else {
                CodeEditorState::Modified
            },
            final(self).text == old(self).text,
    {
        if outdated {
            self.state = CodeEditorState::NeedReload;
        }
        if self.state != CodeEditorState::NeedReload {
            self.state = CodeEditorState::Modified;
        }
    }

    /// Saving was asked for: an outdated file needs a reload first; the text is
    /// written only from the modified state.
    pub fn save_requested(&mut self, outdated: bool) -> (write: bool)
        ensures
            final(self).state == if outdated {
                CodeEditorState::NeedReload
            } else {
                old(self).state
            },
            write == (final(self).state == CodeEditorState::Modified),
            final(self).text == old(self).text,
    {
        if outdated {
            self.state = CodeEditorState::NeedReload;
        }
        self.state == CodeEditorState::Modified
    }
}

} // verus!
