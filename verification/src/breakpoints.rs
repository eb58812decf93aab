//! The breakpoint registry: breakpoints grouped by source file, one per
//! line, lines kept in ascending order.

use vstd::prelude::*;
use crate::json::text_eq;

verus! {

broadcast use vstd::std_specs::vec::group_vec_axioms;

/// A breakpoint the user can set; only source breakpoints exist today.
#[derive(Debug, Clone)]
pub enum Breakpoint {
    Source(CodeBreakpoint),
}

/// A breakpoint at a line of a source file.
#[derive(Debug, Clone)]
pub struct CodeBreakpoint {
    pub file: Vec<char>,
    pub lineno: u64,
}

pub struct CodeBreakpointView {
    pub file: Seq<char>,
    pub lineno: u64,
}

impl View for CodeBreakpoint {
    type V = CodeBreakpointView;

    open spec fn view(&self) -> CodeBreakpointView {
        CodeBreakpointView { file: self.file@, lineno: self.lineno }
    }
}

pub enum BreakpointView {
    Source(CodeBreakpointView),
}

impl View for Breakpoint {
    type V = BreakpointView;

    open spec fn view(&self) -> BreakpointView {
        match self {
            Breakpoint::Source(b) => BreakpointView::Source(b@),
        }
    }
}

impl Breakpoint {
    /// A breakpoint on a line of a source file.
    pub fn on_source(file: Vec<char>, lineno: u64) -> (r: Self)
        ensures
            r@ == BreakpointView::Source(CodeBreakpointView { file: file@, lineno }),
    {
        Breakpoint::Source(CodeBreakpoint { file, lineno })
    }

    /// The file this breakpoint lies in.
    pub open spec fn spec_file(self) -> Seq<char> {
        match self {
            Breakpoint::Source(b) => b.file@,
        }
    }

    /// The line this breakpoint lies on.
    pub open spec fn spec_line(self) -> u64 {
        match self {
            Breakpoint::Source(b) => b.lineno,
        }
    }
}

/// All breakpoints of one file.
struct FileBreakpoints {
    file: Vec<char>,
    lines: Vec<u64>,
}

/// Breakpoints for the whole workspace, grouped by file.
pub struct BreakpointStore {
    files: Vec<FileBreakpoints>,
}

/// A strictly ascending line list.
pub open spec fn lines_sorted(lines: Seq<u64>) -> bool {
    forall|i: int, j: int| 0 <= i < j < lines.len() ==> lines[i] < lines[j]
}

/// Inserting a line into a sorted list: kept sorted, duplicates collapse.
pub open spec fn insert_line(lines: Seq<u64>, line: u64) -> Seq<u64>
    decreases lines.len(),
{
    if lines.len() == 0 {
        seq![line]
    } else if line < lines[0] {
        seq![line] + lines
    } else if line == lines[0] {
        lines
    } else {
        seq![lines[0]] + insert_line(lines.skip(1), line)
    }
}

/// Removing a line from a list.
pub open spec fn remove_line(lines: Seq<u64>, line: u64) -> Seq<u64>
    decreases lines.len(),
{
    if lines.len() == 0 {
        lines
    } else if lines[0] == line {
        lines.skip(1)
    } else {
        seq![lines[0]] + remove_line(lines.skip(1), line)
    }
}

impl BreakpointStore {
    /// No file appears twice, no file is empty, and each file's lines
    /// ascend strictly.
    pub closed spec fn wf(self) -> bool {
        &&& forall|i: int, j: int|
            0 <= i < j < self.files.len() ==> (#[trigger] self.files[i].file@) != (
            #[trigger] self.files[j].file@)
        &&& forall|i: int|
            0 <= i < self.files.len() ==> lines_sorted(#[trigger] self.files[i].lines@)
        &&& forall|i: int| 0 <= i < self.files.len() ==> (#[trigger] self.files[i].lines@).len() > 0
    }

    /// The files that hold at least one breakpoint, in the order they first
    /// gained one.
    pub closed spec fn spec_files(self) -> Seq<Seq<char>> {
        Seq::new(self.files@.len(), |i: int| self.files[i].file@)
    }

    /// The breakpoint lines of one file, ascending; empty when the file has
    /// none.
    pub closed spec fn spec_lines(self, file: Seq<char>) -> Seq<u64> {
        if exists|i: int| 0 <= i < self.files.len() && (#[trigger] self.files[i].file@) == file {
            let i = choose|i: int|
                0 <= i < self.files.len() && (#[trigger] self.files[i].file@) == file;
            self.files[i].lines@
        } else {
            Seq::empty()
        }
    }

    /// Whether some file holds a breakpoint.
    pub open spec fn spec_has_file(self, file: Seq<char>) -> bool {
        self.spec_files().contains(file)
    }

    /// An empty registry.
    pub fn new() -> (r: Self)
        ensures
            r.wf(),
            r.spec_files() == Seq::<Seq<char>>::empty(),
            forall|f: Seq<char>| r.spec_lines(f) == Seq::<u64>::empty(),
    {
        let r = BreakpointStore { files: Vec::new() };
        proof {
            assert(r.spec_files() =~= Seq::<Seq<char>>::empty());
        }
        r
    }

    /// The position of a file's entry, if it has one.
    fn find_file(&self, file: &Vec<char>) -> (r: Option<usize>)
        requires
            self.wf(),
        ensures
            ({
                match r {
                    Some(i) => i < self.files@.len() && self.files[i as int].file@ == file@
                        && self.spec_lines(file@) == self.files[i as int].lines@
                        && self.spec_has_file(file@),
                    None => !self.spec_has_file(file@) && self.spec_lines(file@) == Seq::<
                        u64,
                    >::empty(),
                }
            }),
    {
        let mut i: usize = 0;
        while i < self.files.len()
            invariant
                i <= self.files.len(),
                self.wf(),
                forall|k: int| 0 <= k < i ==> (#[trigger] self.files[k].file@) != file@,
            decreases self.files.len() - i,
        {
            if text_eq(&self.files[i].file, file) {
                proof {
                    assert(self.spec_files()[i as int] == file@);
                    let w = choose|w: int|
                        0 <= w < self.files.len() && (#[trigger] self.files[w].file@) == file@;
                    assert(w == i);
                }
                return Some(i);
            }
            i = i + 1;
        }
        proof {
            if self.spec_has_file(file@) {
                let w = choose|w: int|
                    0 <= w < self.spec_files().len() && self.spec_files()[w] == file@;
                assert(self.files[w].file@ == file@);
            }
            assert(!(exists|w: int|
                0 <= w < self.files.len() && (#[trigger] self.files[w].file@) == file@));
        }
        None
    }

    /// Puts a breakpoint in: a new file gains an entry, an existing line is
    /// replaced, everything else stays.
    pub fn add(&mut self, breakpoint: Breakpoint)
        requires
            old(self).wf(),
        ensures
            final(self).wf(),
            final(self).spec_lines(breakpoint.spec_file()) == insert_line(
                old(self).spec_lines(breakpoint.spec_file()),
                breakpoint.spec_line(),
            ),
            forall|f: Seq<char>|
                f != breakpoint.spec_file() ==> final(self).spec_lines(f) == old(self).spec_lines(
                    f,
                ),
            final(self).spec_files() == (if old(self).spec_has_file(breakpoint.spec_file()) {
                old(self).spec_files()
            } else {
                old(self).spec_files().push(breakpoint.spec_file())
            }),
    {
        let Breakpoint::Source(code_bp) = breakpoint;
        let CodeBreakpoint { file, lineno } = code_bp;
        match self.find_file(&file) {
            Some(i) => {
                let ghost old_self = *self;
                let lines = &self.files[i].lines;
                let mut k: usize = 0;
                while k < lines.len() && lines[k] < lineno
                    invariant
                        k <= lines.len(),
                        lines == &self.files[i as int].lines,
                        i < self.files@.len(),
                        lines_sorted(lines@),
                        forall|t: int| 0 <= t < k ==> (#[trigger] lines@[t]) < lineno,
                    decreases lines.len() - k,
                {
                    k = k + 1;
                }
                let ghost lv = self.files[i as int].lines@;
                if k < self.files[i].lines.len() && self.files[i].lines[k] == lineno {
                    proof {
                        lemma_insert_present(lv, lineno, k as int);
                        assert_store_frame(old_self, *self, i as int);
                    }
                } else {
                    let entry = &mut self.files[i];
                    entry.lines.insert(k, lineno);
                    proof {
                        lemma_insert_at(lv, lineno, k as int);
                        assert(self.files[i as int].lines@ =~= insert_line(lv, lineno));
                        lemma_sorted_insert(lv, lineno);
                        assert_store_frame(old_self, *self, i as int);
                    }
                }
            },
            None => {
                let ghost old_self = *self;
                let mut lines: Vec<u64> = Vec::new();
                lines.push(lineno);
                self.files.push(FileBreakpoints { file, lines });
                proof {
                    let n = self.files.len() as int - 1;
                    assert(self.files[n].lines@ =~= seq![breakpoint.spec_line()]);
                    assert(insert_line(Seq::<u64>::empty(), breakpoint.spec_line()) =~= seq![
                        breakpoint.spec_line(),
                    ]);
                    assert(final(self).spec_files() =~= old_self.spec_files().push(
                        breakpoint.spec_file(),
                    ));
                    assert forall|f: Seq<char>|
                        f != breakpoint.spec_file() implies self.spec_lines(f)
                        == old_self.spec_lines(f) by {
                        lemma_lines_frame_push(old_self, *self, f);
                    }
                    assert(self.spec_lines(breakpoint.spec_file()) =~= self.files[n].lines@) by {
                        let w = choose|w: int|
                            0 <= w < self.files.len() && (#[trigger] self.files[w].file@)
                                == breakpoint.spec_file();
                        assert(self.files[n].file@ == breakpoint.spec_file());
                        if w != n {
                            assert(old_self.files[w].file@ == breakpoint.spec_file());
                            assert(old_self.spec_files()[w] == breakpoint.spec_file());
                        }
                    }
                }
            },
        }
    }

    /// Takes a breakpoint out; dropping a file's last breakpoint drops the
    /// file's entry. Yields whether anything was removed.
    pub fn remove(&mut self, breakpoint: &Breakpoint) -> (removed: bool)
        requires
            old(self).wf(),
        ensures
            final(self).wf(),
            removed == old(self).spec_lines(breakpoint.spec_file()).contains(
                breakpoint.spec_line(),
            ),
            final(self).spec_lines(breakpoint.spec_file()) == remove_line(
                old(self).spec_lines(breakpoint.spec_file()),
                breakpoint.spec_line(),
            ),
            forall|f: Seq<char>|
                f != breakpoint.spec_file() ==> final(self).spec_lines(f) == old(self).spec_lines(
                    f,
                ),
            !removed ==> *final(self) == *old(self),
            final(self).spec_files() == (if removed && remove_line(
                old(self).spec_lines(breakpoint.spec_file()),
                breakpoint.spec_line(),
            ).len() == 0 {
                old(self).spec_files().remove(
                    old(self).spec_files().index_of(breakpoint.spec_file()),
                )
            } else {
                old(self).spec_files()
            }),
    {
        let Breakpoint::Source(code_bp) = breakpoint;
        let file = &code_bp.file;
        let lineno = code_bp.lineno;
        match self.find_file(file) {
            Some(i) => {
                let ghost old_self = *self;
                let ghost lv = self.files[i as int].lines@;
                let lines = &self.files[i].lines;
                let mut k: usize = 0;
                while k < lines.len() && lines[k] != lineno
                    invariant
                        k <= lines.len(),
                        lines == &self.files[i as int].lines,
                        i < self.files@.len(),
                        forall|t: int| 0 <= t < k ==> (#[trigger] lines@[t]) != lineno,
                    decreases lines.len() - k,
                {
                    k = k + 1;
                }
                if k == self.files[i].lines.len() {
                    proof {
                        assert(!lv.contains(lineno));
                        lemma_remove_absent(lv, lineno);
                    }
                    return false;
                }
                proof {
                    assert(lv[k as int] == lineno);
                    assert(lv.contains(lineno));
                }
                if self.files[i].lines.len() == 1 {
                    self.files.remove(i);
                    proof {
                        assert(lv =~= seq![lineno]);
                        assert(remove_line(lv, lineno) =~= Seq::<u64>::empty());
                        lemma_store_after_file_removal(old_self, *self, i as int, breakpoint@);
                        let w = old_self.spec_files().index_of(breakpoint.spec_file());
                        assert(old_self.spec_files().contains(breakpoint.spec_file())) by {
                            assert(old_self.spec_files()[i as int] == breakpoint.spec_file());
                        }
                        assert(0 <= w < old_self.spec_files().len() && old_self.spec_files()[w]
                            == breakpoint.spec_file());
                        assert(old_self.files[w].file@ == breakpoint.spec_file());
                        assert(w == i);
                    }
                } else {
                    let entry = &mut self.files[i];
                    entry.lines.remove(k);
                    proof {
                        lemma_remove_at(lv, lineno, k as int);
                        assert(self.files[i as int].lines@ =~= remove_line(lv, lineno));
                        lemma_sorted_remove(lv, lineno);
                        assert_store_frame(old_self, *self, i as int);
                    }
                }
                true
            },
            None => {
                proof {
                    lemma_remove_absent(Seq::<u64>::empty(), breakpoint.spec_line());
                }
                false
            },
        }
    }

    /// Copies one file's breakpoints out, ascending by line; `out` is
    /// replaced wholesale.
    pub fn get_file_breakpoints(&self, file: &Vec<char>, out: &mut Vec<Breakpoint>)
        requires
            self.wf(),
        ensures
            final(out)@.len() == self.spec_lines(file@).len(),
            forall|t: int|
                0 <= t < final(out)@.len() ==> (#[trigger] final(out)@[t])@
                    == BreakpointView::Source(
                    CodeBreakpointView { file: file@, lineno: self.spec_lines(file@)[t] },
                ),
    {
        out.clear();
        match self.find_file(file) {
            Some(i) => {
                let mut k: usize = 0;
                while k < self.files[i].lines.len()
                    invariant
                        i < self.files@.len(),
                        self.wf(),
                        self.files[i as int].file@ == file@,
                        self.spec_lines(file@) == self.files[i as int].lines@,
                        k <= self.files[i as int].lines@.len(),
                        out@.len() == k,
                        forall|t: int|
                            0 <= t < k ==> (#[trigger] out@[t])@ == BreakpointView::Source(
                                CodeBreakpointView {
                                    file: file@,
                                    lineno: self.files[i as int].lines@[t],
                                },
                            ),
                    decreases self.files[i as int].lines@.len() - k,
                {
                    let line = self.files[i].lines[k];
                    out.push(
                        Breakpoint::Source(
                            CodeBreakpoint { file: crate::json::copy_text(file), lineno: line },
                        ),
                    );
                    k = k + 1;
                }
            },
            None => {},
        }
    }

    /// Copies the list of files with breakpoints out; `out` is replaced
    /// wholesale.
    pub fn get_files(&self, out: &mut Vec<Vec<char>>)
        requires
            self.wf(),
        ensures
            final(out)@.len() == self.spec_files().len(),
            forall|t: int|
                0 <= t < final(out)@.len() ==> (#[trigger] final(out)@[t])@ == self.spec_files()[t],
    {
        out.clear();
        let mut k: usize = 0;
        while k < self.files.len()
            invariant
                k <= self.files@.len(),
                out@.len() == k,
                forall|t: int| 0 <= t < k ==> (#[trigger] out@[t])@ == self.spec_files()[t],
            decreases self.files@.len() - k,
        {
            out.push(crate::json::copy_text(&self.files[k].file));
            k = k + 1;
        }
    }

    /// How many files hold breakpoints.
    pub fn num_files(&self) -> (n: usize)
        ensures
            n == self.spec_files().len(),
    {
        self.files.len()
    }
}

proof fn lemma_insert_present(lines: Seq<u64>, line: u64, k: int)
    requires
        lines_sorted(lines),
        0 <= k < lines.len(),
        lines[k] == line,
        forall|t: int| 0 <= t < k ==> (#[trigger] lines[t]) < line,
    ensures
        insert_line(lines, line) == lines,
    decreases k,
{
    if k == 0 {
        assert(insert_line(lines, line) == lines);
    } else {
        assert(lines[0] < line);
        assert forall|t: int| 0 <= t < k - 1 implies (#[trigger] lines.skip(1)[t]) < line by {
            assert(lines.skip(1)[t] == lines[t + 1]);
        }
        assert(lines.skip(1)[k - 1] == lines[k]);
        lemma_insert_present(lines.skip(1), line, k - 1);
        assert(seq![lines[0]] + lines.skip(1) =~= lines);
    }
}

proof fn lemma_insert_at(lines: Seq<u64>, line: u64, k: int)
    requires
        lines_sorted(lines),
        0 <= k <= lines.len(),
        forall|t: int| 0 <= t < k ==> (#[trigger] lines[t]) < line,
        k < lines.len() ==> lines[k] > line,
    ensures
        insert_line(lines, line) == lines.insert(k, line),
    decreases k,
{
    if lines.len() == 0 {
        assert(insert_line(lines, line) =~= lines.insert(0, line));
    } else if k == 0 {
        assert(lines[0] > line || lines.len() == 0);
        assert(insert_line(lines, line) =~= lines.insert(0, line));
    } else {
        assert(lines[0] < line);
        assert forall|t: int| 0 <= t < k - 1 implies (#[trigger] lines.skip(1)[t]) < line by {
            assert(lines.skip(1)[t] == lines[t + 1]);
        }
        if k - 1 < lines.skip(1).len() {
            assert(lines.skip(1)[k - 1] == lines[k]);
        }
        lemma_insert_at(lines.skip(1), line, k - 1);
        assert(seq![lines[0]] + lines.skip(1).insert(k - 1, line) =~= lines.insert(k, line));
    }
}

proof fn lemma_sorted_insert(lines: Seq<u64>, line: u64)
    requires
        lines_sorted(lines),
    ensures
        lines_sorted(insert_line(lines, line)),
        insert_line(lines, line).len() > 0,
    decreases lines.len(),
{
    if lines.len() == 0 {
    } else if line < lines[0] {
        let w = seq![line] + lines;
        assert forall|i: int, j: int| 0 <= i < j < w.len() implies w[i] < w[j] by {
            if i > 0 {
                assert(w[i] == lines[i - 1] && w[j] == lines[j - 1]);
            } else {
                if j > 0 {
                    assert(w[j] == lines[j - 1]);
                    if j - 1 > 0 {
                        assert(lines[0] < lines[j - 1]);
                    }
                }
            }
        }
    } else if line == lines[0] {
    } else {
        assert forall|i: int, j: int|
            0 <= i < j < lines.skip(1).len() implies lines.skip(1)[i] < lines.skip(1)[j] by {
            assert(lines.skip(1)[i] == lines[i + 1] && lines.skip(1)[j] == lines[j + 1]);
        }
        lemma_sorted_insert(lines.skip(1), line);
        let t = insert_line(lines.skip(1), line);
        let w = seq![lines[0]] + t;
        assert(lines[0] < line);
        assert forall|j: int| 0 <= j < t.len() implies lines[0] < t[j] by {
            lemma_insert_members(lines.skip(1), line, j);
            if t[j] != line {
                let x = t[j];
                assert(lines.skip(1).contains(x));
                let w2 = choose|w2: int|
                    0 <= w2 < lines.skip(1).len() && lines.skip(1)[w2] == x;
                assert(lines.skip(1)[w2] == lines[w2 + 1]);
            }
        }
        assert forall|i: int, j: int| 0 <= i < j < w.len() implies w[i] < w[j] by {
            if i > 0 {
                assert(w[i] == t[i - 1] && w[j] == t[j - 1]);
            } else {
                assert(w[j] == t[j - 1]);
            }
        }
    }
}

proof fn lemma_insert_members(lines: Seq<u64>, line: u64, j: int)
    requires
        0 <= j < insert_line(lines, line).len(),
    ensures
        insert_line(lines, line)[j] == line || lines.contains(insert_line(lines, line)[j]),
    decreases lines.len(),
{
    if lines.len() == 0 {
    } else if line < lines[0] {
        if j > 0 {
            assert(insert_line(lines, line)[j] == lines[j - 1]);
        }
    } else if line == lines[0] {
    } else {
        if j > 0 {
            lemma_insert_members(lines.skip(1), line, j - 1);
            let x = insert_line(lines, line)[j];
            assert(x == insert_line(lines.skip(1), line)[j - 1]);
            if x != line {
                let w = choose|w: int| 0 <= w < lines.skip(1).len() && lines.skip(1)[w] == x;
                assert(lines.skip(1)[w] == lines[w + 1]);
            }
        }
    }
}

proof fn lemma_remove_absent(lines: Seq<u64>, line: u64)
    requires
        !lines.contains(line),
    ensures
        remove_line(lines, line) == lines,
    decreases lines.len(),
{
    if lines.len() > 0 {
        assert(lines[0] != line);
        assert forall|t: int| 0 <= t < lines.skip(1).len() implies lines.skip(1)[t] != line by {
            assert(lines.skip(1)[t] == lines[t + 1]);
        }
        assert(!lines.skip(1).contains(line));
        lemma_remove_absent(lines.skip(1), line);
        assert(seq![lines[0]] + lines.skip(1) =~= lines);
    }
}

proof fn lemma_remove_at(lines: Seq<u64>, line: u64, k: int)
    requires
        lines_sorted(lines),
        0 <= k < lines.len(),
        lines[k] == line,
        forall|t: int| 0 <= t < k ==> (#[trigger] lines[t]) != line,
    ensures
        remove_line(lines, line) == lines.remove(k),
    decreases k,
{
    if k == 0 {
        assert(remove_line(lines, line) =~= lines.remove(0));
    } else {
        assert(lines[0] != line);
        assert forall|t: int| 0 <= t < k - 1 implies (#[trigger] lines.skip(1)[t]) != line by {
            assert(lines.skip(1)[t] == lines[t + 1]);
        }
        assert(lines.skip(1)[k - 1] == lines[k]);
        lemma_remove_at(lines.skip(1), line, k - 1);
        assert(seq![lines[0]] + lines.skip(1).remove(k - 1) =~= lines.remove(k));
    }
}

proof fn lemma_sorted_remove(lines: Seq<u64>, line: u64)
    requires
        lines_sorted(lines),
    ensures
        lines_sorted(remove_line(lines, line)),
    decreases lines.len(),
{
    if lines.len() == 0 {
    } else if lines[0] == line {
        assert forall|i: int, j: int|
            0 <= i < j < lines.skip(1).len() implies lines.skip(1)[i] < lines.skip(1)[j] by {
            assert(lines.skip(1)[i] == lines[i + 1] && lines.skip(1)[j] == lines[j + 1]);
        }
    } else {
        assert forall|i: int, j: int|
            0 <= i < j < lines.skip(1).len() implies lines.skip(1)[i] < lines.skip(1)[j] by {
            assert(lines.skip(1)[i] == lines[i + 1] && lines.skip(1)[j] == lines[j + 1]);
        }
        lemma_sorted_remove(lines.skip(1), line);
        let t = remove_line(lines.skip(1), line);
        let w = seq![lines[0]] + t;
        assert forall|j: int| 0 <= j < t.len() implies lines[0] < t[j] by {
            lemma_remove_members(lines.skip(1), line, j);
            let x = t[j];
            assert(lines.skip(1).contains(x));
            let w2 = choose|w2: int| 0 <= w2 < lines.skip(1).len() && lines.skip(1)[w2] == x;
            assert(lines.skip(1)[w2] == lines[w2 + 1]);
        }
        assert forall|i: int, j: int| 0 <= i < j < w.len() implies w[i] < w[j] by {
            if i > 0 {
                assert(w[i] == t[i - 1] && w[j] == t[j - 1]);
            } else {
                assert(w[j] == t[j - 1]);
            }
        }
    }
}

proof fn lemma_remove_members(lines: Seq<u64>, line: u64, j: int)
    requires
        0 <= j < remove_line(lines, line).len(),
    ensures
        lines.contains(remove_line(lines, line)[j]),
    decreases lines.len(),
{
    if lines.len() == 0 {
    } else if lines[0] == line {
        assert(remove_line(lines, line)[j] == lines[j + 1]);
    } else {
        if j == 0 {
            assert(remove_line(lines, line)[0] == lines[0]);
        } else {
            lemma_remove_members(lines.skip(1), line, j - 1);
            let x = remove_line(lines, line)[j];
            assert(x == remove_line(lines.skip(1), line)[j - 1]);
            let w = choose|w: int| 0 <= w < lines.skip(1).len() && lines.skip(1)[w] == x;
            assert(lines.skip(1)[w] == lines[w + 1]);
        }
    }
}

/// A store whose only change is inside entry `i` keeps every other file's
/// lines, its file list, and its well-formedness.
proof fn assert_store_frame(old_s: BreakpointStore, new_s: BreakpointStore, i: int)
    requires
        old_s.wf(),
        0 <= i < old_s.files.len(),
        new_s.files.len() == old_s.files.len(),
        forall|t: int| 0 <= t < new_s.files.len() && t != i ==> new_s.files[t] == old_s.files[t],
        new_s.files[i].file@ == old_s.files[i].file@,
        lines_sorted(new_s.files[i].lines@),
        new_s.files[i].lines@.len() > 0,
    ensures
        new_s.wf(),
        new_s.spec_files() == old_s.spec_files(),
        forall|f: Seq<char>|
            f != old_s.files[i].file@ ==> new_s.spec_lines(f) == old_s.spec_lines(f),
        new_s.spec_lines(old_s.files[i].file@) == new_s.files[i].lines@,
{
    assert(new_s.spec_files() =~= old_s.spec_files());
    assert forall|f: Seq<char>|
        f != old_s.files[i].file@ implies new_s.spec_lines(f) == old_s.spec_lines(f) by {
        if exists|w: int| 0 <= w < new_s.files.len() && (#[trigger] new_s.files[w].file@) == f {
            let w = choose|w: int|
                0 <= w < new_s.files.len() && (#[trigger] new_s.files[w].file@) == f;
            assert(old_s.files[w].file@ == f);
            let w2 = choose|w2: int|
                0 <= w2 < old_s.files.len() && (#[trigger] old_s.files[w2].file@) == f;
            assert(w2 == w);
        } else {
            if exists|w: int| 0 <= w < old_s.files.len() && (#[trigger] old_s.files[w].file@)
                == f {
                let w = choose|w: int|
                    0 <= w < old_s.files.len() && (#[trigger] old_s.files[w].file@) == f;
                assert(new_s.files[w].file@ == f);
            }
        }
    }
    let fi = old_s.files[i].file@;
    let w = choose|w: int| 0 <= w < new_s.files.len() && (#[trigger] new_s.files[w].file@) == fi;
    assert(w == i);
}

/// Pushing a new file entry leaves every other file's lines alone.
proof fn lemma_lines_frame_push(old_s: BreakpointStore, new_s: BreakpointStore, f: Seq<char>)
    requires
        old_s.wf(),
        new_s.files.len() == old_s.files.len() + 1,
        forall|t: int| 0 <= t < old_s.files.len() ==> new_s.files[t] == old_s.files[t],
        f != new_s.files[new_s.files.len() - 1].file@,
    ensures
        new_s.spec_lines(f) == old_s.spec_lines(f),
{
    let n = old_s.files.len() as int;
    if exists|w: int| 0 <= w < new_s.files.len() && (#[trigger] new_s.files[w].file@) == f {
        let w = choose|w: int|
            0 <= w < new_s.files.len() && (#[trigger] new_s.files[w].file@) == f;
        assert(w < n);
        assert(old_s.files[w].file@ == f);
        let w2 = choose|w2: int| 0 <= w2 < old_s.files.len() && (#[trigger] old_s.files[w2].file@)
            == f;
        assert(new_s.files[w2].file@ == f);
    } else {
        if exists|w: int| 0 <= w < old_s.files.len() && (#[trigger] old_s.files[w].file@) == f {
            let w = choose|w: int|
                0 <= w < old_s.files.len() && (#[trigger] old_s.files[w].file@) == f;
            assert(new_s.files[w].file@ == f);
        }
    }
}

/// Removing a file entry whose last breakpoint went away.
proof fn lemma_store_after_file_removal(
    old_s: BreakpointStore,
    new_s: BreakpointStore,
    i: int,
    bp: BreakpointView,
)
    requires
        old_s.wf(),
        0 <= i < old_s.files.len(),
        new_s.files@ == old_s.files@.remove(i),
        old_s.files[i].file@ == (match bp {
            BreakpointView::Source(b) => b.file,
        }),
    ensures
        new_s.wf(),
        new_s.spec_lines(
            match bp {
                BreakpointView::Source(b) => b.file,
            },
        ) == Seq::<u64>::empty(),
        forall|f: Seq<char>|
            f != (match bp {
                BreakpointView::Source(b) => b.file,
            }) ==> new_s.spec_lines(f) == old_s.spec_lines(f),
        new_s.spec_files() == old_s.spec_files().remove(i),
    decreases 0int,
{
    let fi = old_s.files[i].file@;
    assert forall|a: int, b: int|
        0 <= a < b < new_s.files.len() implies (#[trigger] new_s.files[a].file@) != (
    #[trigger] new_s.files[b].file@) by {
        let a2 = if a < i { a } else { a + 1 };
        let b2 = if b < i { b } else { b + 1 };
        assert(new_s.files[a] == old_s.files[a2]);
        assert(new_s.files[b] == old_s.files[b2]);
    }
    assert forall|t: int| 0 <= t < new_s.files.len() implies lines_sorted(
        #[trigger] new_s.files[t].lines@,
    ) && new_s.files[t].lines@.len() > 0 by {
        let t2 = if t < i { t } else { t + 1 };
        assert(new_s.files[t] == old_s.files[t2]);
    }
    if exists|w: int| 0 <= w < new_s.files.len() && (#[trigger] new_s.files[w].file@) == fi {
        let w = choose|w: int|
            0 <= w < new_s.files.len() && (#[trigger] new_s.files[w].file@) == fi;
        let w2 = if w < i { w } else { w + 1 };
        assert(old_s.files[w2].file@ == fi);
        assert(old_s.files[i].file@ == fi);
        assert(false);
    }
    assert forall|f: Seq<char>| f != fi implies new_s.spec_lines(f) == old_s.spec_lines(f) by {
        if exists|w: int| 0 <= w < new_s.files.len() && (#[trigger] new_s.files[w].file@) == f {
            let w = choose|w: int|
                0 <= w < new_s.files.len() && (#[trigger] new_s.files[w].file@) == f;
            let w2 = if w < i { w } else { w + 1 };
            assert(new_s.files[w] == old_s.files[w2]);
            let w3 = choose|w3: int|
                0 <= w3 < old_s.files.len() && (#[trigger] old_s.files[w3].file@) == f;
            assert(w3 == w2);
        } else {
            if exists|w: int| 0 <= w < old_s.files.len() && (#[trigger] old_s.files[w].file@)
                == f {
                let w = choose|w: int|
                    0 <= w < old_s.files.len() && (#[trigger] old_s.files[w].file@) == f;
                assert(w != i);
                let w2 = if w < i { w } else { w - 1 };
                assert(new_s.files[w2] == old_s.files[w]);
            }
        }
    }
    assert(new_s.spec_files() =~= old_s.spec_files().remove(i));
}

/// What a well-formed registry guarantees of its views: the listed files
/// are pairwise distinct, a file is listed exactly when it holds at least
/// one breakpoint (never an empty entry), and every file's lines ascend
/// strictly.
pub proof fn lemma_store_views(st: BreakpointStore)
    requires
        st.wf(),
    ensures
        forall|i: int, j: int|
            0 <= i < j < st.spec_files().len() ==> (#[trigger] st.spec_files()[i]) != (
            #[trigger] st.spec_files()[j]),
        forall|f: Seq<char>| #[trigger] st.spec_has_file(f) <==> st.spec_lines(f).len() > 0,
        forall|f: Seq<char>| lines_sorted(#[trigger] st.spec_lines(f)),
{
    assert forall|i: int, j: int|
        0 <= i < j < st.spec_files().len() implies (#[trigger] st.spec_files()[i]) != (
    #[trigger] st.spec_files()[j]) by {
        assert(st.spec_files()[i] == st.files[i].file@);
        assert(st.spec_files()[j] == st.files[j].file@);
    }
    assert forall|f: Seq<char>| #[trigger] st.spec_has_file(f) <==> st.spec_lines(f).len()
        > 0 by {
        if st.spec_has_file(f) {
            let w = choose|w: int|
                0 <= w < st.spec_files().len() && st.spec_files()[w] == f;
            assert(st.files[w].file@ == f);
            let w2 = choose|w2: int|
                0 <= w2 < st.files.len() && (#[trigger] st.files[w2].file@) == f;
            assert(st.spec_lines(f) == st.files[w2].lines@);
        } else {
            if exists|w: int| 0 <= w < st.files.len() && (#[trigger] st.files[w].file@) == f {
                let w = choose|w: int|
                    0 <= w < st.files.len() && (#[trigger] st.files[w].file@) == f;
                assert(st.spec_files()[w] == f);
                assert(st.spec_has_file(f));
            }
        }
    }
    assert forall|f: Seq<char>| lines_sorted(#[trigger] st.spec_lines(f)) by {
        if exists|w: int| 0 <= w < st.files.len() && (#[trigger] st.files[w].file@) == f {
            let w = choose|w: int|
                0 <= w < st.files.len() && (#[trigger] st.files[w].file@) == f;
            assert(lines_sorted(st.files[w].lines@));
        }
    }
}

/// Putting the same breakpoint in twice leaves exactly what one insertion
/// leaves: one entry for that line.
pub proof fn lemma_add_idempotent(lines: Seq<u64>, line: u64)
    requires
        lines_sorted(lines),
    ensures
        insert_line(insert_line(lines, line), line) == insert_line(lines, line),
    decreases lines.len(),
{
    if lines.len() == 0 {
    } else if line < lines[0] {
    } else if line == lines[0] {
    } else {
        assert forall|i: int, j: int|
            0 <= i < j < lines.skip(1).len() implies lines.skip(1)[i] < lines.skip(1)[j] by {
            assert(lines.skip(1)[i] == lines[i + 1] && lines.skip(1)[j] == lines[j + 1]);
        }
        lemma_add_idempotent(lines.skip(1), line);
        let t = insert_line(lines, line);
        assert(t == seq![lines[0]] + insert_line(lines.skip(1), line));
        assert(t[0] == lines[0]);
        assert(t.skip(1) =~= insert_line(lines.skip(1), line));
        assert(insert_line(t, line) == seq![t[0]] + insert_line(t.skip(1), line));
        assert(insert_line(t, line) =~= t);
    }
}


impl Default for BreakpointStore {
    /// The same empty registry `new` yields.
    fn default() -> (r: Self)
        ensures
            r.wf(),
            r.spec_files() == Seq::<Seq<char>>::empty(),
    {
        BreakpointStore::new()
    }
}

} // verus!
