use vstd::prelude::*;

verus! {

/// A named position in a buffer.
#[derive(Clone, Copy, Debug, PartialEq, Eq, Structural)]
pub enum Mark {
    /// The cursor of a view; the number tells the cursors apart.
    Cursor(usize),
    /// The top left corner of a view's display.
    DisplayMark(usize),
}

/// A mark and the position it stands at.
#[derive(Clone, Copy, Debug, PartialEq, Eq, Structural)]
pub struct MarkEntry {
    pub mark: Mark,
    pub pos: usize,
}

/// What an edit did to the text.
#[derive(Clone, Copy, Debug, PartialEq, Eq, Structural)]
pub enum ChangeKind {
    Insert,
    Delete,
}

/// One recorded edit: its kind, where it happened, the text it inserted or
/// removed, and the marks before and after it.
pub struct Change {
    kind: ChangeKind,
    pos: usize,
    text: Vec<char>,
    marks_before: Vec<MarkEntry>,
    marks_after: Vec<MarkEntry>,
}

/// The abstract value of a `Change`.
pub struct ChangeModel {
    pub kind: ChangeKind,
    pub pos: nat,
    pub text: Seq<char>,
    pub before: Seq<MarkEntry>,
    pub after: Seq<MarkEntry>,
}

impl View for Change {
    type V = ChangeModel;

    closed spec fn view(&self) -> ChangeModel {
        ChangeModel {
            kind: self.kind,
            pos: self.pos as nat,
            text: self.text@,
            before: self.marks_before@,
            after: self.marks_after@,
        }
    }
}

/// The text `s` put into `t` at position `p`.
pub open spec fn insert_text(t: Seq<char>, p: nat, s: Seq<char>) -> Seq<char> {
    t.take(p as int) + s + t.skip(p as int)
}

/// The text `t` without the positions `a` up to `b`.
pub open spec fn remove_text(t: Seq<char>, a: nat, b: nat) -> Seq<char> {
    t.take(a as int) + t.skip(b as int)
}

pub open spec fn min_nat(a: nat, b: nat) -> nat {
    if a <= b {
        a
    } else {
        b
    }
}

/// The position a mark at `q` moves to when `n` characters are inserted at `p`.
pub open spec fn pos_after_insert(q: nat, p: nat, n: nat) -> nat {
    if q >= p {
        q + n
    } else {
        q
    }
}

/// The position a mark at `q` moves to when the positions `a` up to `b` are removed.
pub open spec fn pos_after_delete(q: nat, a: nat, b: nat) -> nat {
    if q >= b {
        (q - (b - a)) as nat
    } else if q >= a {
        a
    } else {
        q
    }
}

pub open spec fn shift_insert(marks: Seq<MarkEntry>, p: nat, n: nat) -> Seq<MarkEntry> {
    marks.map_values(
        |e: MarkEntry| MarkEntry { mark: e.mark, pos: pos_after_insert(e.pos as nat, p, n) as usize },
    )
}

pub open spec fn shift_delete(marks: Seq<MarkEntry>, a: nat, b: nat) -> Seq<MarkEntry> {
    marks.map_values(
        |e: MarkEntry| MarkEntry { mark: e.mark, pos: pos_after_delete(e.pos as nat, a, b) as usize },
    )
}

/// Every mark moved back to at most `len`.
pub open spec fn clamp_marks(marks: Seq<MarkEntry>, len: nat) -> Seq<MarkEntry> {
    marks.map_values(
        |e: MarkEntry| MarkEntry { mark: e.mark, pos: min_nat(e.pos as nat, len) as usize },
    )
}

/// Every mark stands within a text of length `len`.
pub open spec fn marks_within(marks: Seq<MarkEntry>, len: nat) -> bool {
    forall|i: int| 0 <= i < marks.len() ==> #[trigger] marks[i].pos <= len
}

/// Whether `i` is the first index of `marks` that holds `m`.
pub open spec fn is_first_index(marks: Seq<MarkEntry>, m: Mark, i: int) -> bool {
    0 <= i < marks.len() && marks[i].mark == m && forall|j: int|
        0 <= j < i ==> #[trigger] marks[j].mark != m
}

/// The first index of `marks` that holds `m`, if any.
pub open spec fn mark_index(marks: Seq<MarkEntry>, m: Mark) -> Option<int> {
    if exists|i: int| is_first_index(marks, m, i) {
        Some(choose|i: int| is_first_index(marks, m, i))
    } else {
        None
    }
}

/// The position of `m` in `marks`, if it is there.
pub open spec fn mark_pos(marks: Seq<MarkEntry>, m: Mark) -> Option<nat> {
    match mark_index(marks, m) {
        Some(i) => Some(marks[i].pos as nat),
        None => None,
    }
}

/// `marks` with `m` set to `p`: its first entry is changed, or one is added.
pub open spec fn set_mark_in(marks: Seq<MarkEntry>, m: Mark, p: nat) -> Seq<MarkEntry> {
    match mark_index(marks, m) {
        Some(i) => marks.update(i, MarkEntry { mark: m, pos: p as usize }),
        None => marks.push(MarkEntry { mark: m, pos: p as usize }),
    }
}

/// Two lists of marks that hold the same marks in the same order.
pub open spec fn same_marks(a: Seq<MarkEntry>, b: Seq<MarkEntry>) -> bool {
    a.len() == b.len() && forall|i: int| 0 <= i < a.len() ==> #[trigger] a[i].mark == b[i].mark
}

pub proof fn lemma_first_index_unique(marks: Seq<MarkEntry>, m: Mark, i: int, j: int)
    requires
        is_first_index(marks, m, i),
        is_first_index(marks, m, j),
    ensures
        i == j,
{
    if i < j {
        assert(marks[i].mark != m);
    } else if j < i {
        assert(marks[j].mark != m);
    }
}

/// Lists that hold the same marks in the same order find each mark at the same index.
pub proof fn lemma_same_marks_index(a: Seq<MarkEntry>, b: Seq<MarkEntry>, m: Mark)
    requires
        same_marks(a, b),
    ensures
        mark_index(a, m) == mark_index(b, m),
{
    assert forall|i: int| is_first_index(a, m, i) == is_first_index(b, m, i) by {
        if 0 <= i < a.len() {
            assert(a[i].mark == b[i].mark);
            assert forall|j: int| 0 <= j < i implies a[j].mark == b[j].mark by {
                assert(a[j].mark == b[j].mark);
            }
        }
    }
    if exists|i: int| is_first_index(a, m, i) {
        let i = choose|i: int| is_first_index(a, m, i);
        let j = choose|j: int| is_first_index(b, m, j);
        lemma_first_index_unique(b, m, i, j);
    }
}

/// A copy of a vector of plain values.
pub fn copy_vec<T: Copy>(a: &Vec<T>) -> (r: Vec<T>)
    ensures
        r@ == a@,
{
    let mut out: Vec<T> = Vec::new();
    let mut i: usize = 0;
    while i < a.len()
        invariant
            i <= a@.len(),
            out@ == a@.take(i as int),
        decreases a@.len() - i,
    {
        out.push(a[i]);
        assert(a@.take(i as int + 1) =~= a@.take(i as int).push(a@[i as int]));
        i = i + 1;
    }
    assert(a@ =~= a@.take(i as int));
    out
}

/// The text `s` put into `t` at position `p`.
fn splice_insert(t: &Vec<char>, p: usize, s: &Vec<char>) -> (r: Vec<char>)
    requires
        p <= t@.len(),
    ensures
        r@ == insert_text(t@, p as nat, s@),
{
    let mut out: Vec<char> = Vec::new();
    let mut i: usize = 0;
    while i < p
        invariant
            i <= p <= t@.len(),
            out@ == t@.take(i as int),
        decreases p - i,
    {
        out.push(t[i]);
        assert(t@.take(i as int + 1) =~= t@.take(i as int).push(t@[i as int]));
        i = i + 1;
    }
    let mut j: usize = 0;
    while j < s.len()
        invariant
            j <= s@.len(),
            out@ == t@.take(p as int) + s@.take(j as int),
        decreases s@.len() - j,
    {
        out.push(s[j]);
        assert(s@.take(j as int + 1) =~= s@.take(j as int).push(s@[j as int]));
        j = j + 1;
    }
    assert(s@ =~= s@.take(j as int));
    let mut k: usize = p;
    while k < t.len()
        invariant
            p <= k <= t@.len(),
            out@ == t@.take(p as int) + s@ + t@.subrange(p as int, k as int),
        decreases t@.len() - k,
    {
        out.push(t[k]);
        assert(t@.subrange(p as int, k as int + 1) =~= t@.subrange(p as int, k as int).push(
            t@[k as int],
        ));
        k = k + 1;
    }
    assert(t@.skip(p as int) =~= t@.subrange(p as int, k as int));
    out
}

/// The text `t` without the positions `a` up to `b`, and the text removed.
fn splice_remove(t: &Vec<char>, a: usize, b: usize) -> (r: (Vec<char>, Vec<char>))
    requires
        a <= b <= t@.len(),
    ensures
        r.0@ == remove_text(t@, a as nat, b as nat),
        r.1@ == t@.subrange(a as int, b as int),
{
    let mut out: Vec<char> = Vec::new();
    let mut gone: Vec<char> = Vec::new();
    let mut i: usize = 0;
    while i < t.len()
        invariant
            a <= b <= t@.len(),
            i <= t@.len(),
            out@ == if i <= a {
                t@.take(i as int)
            } else if i <= b {
                t@.take(a as int)
            } else {
                t@.take(a as int) + t@.subrange(b as int, i as int)
            },
            gone@ == if i <= a {
                Seq::<char>::empty()
            } else if i <= b {
                t@.subrange(a as int, i as int)
            } else {
                t@.subrange(a as int, b as int)
            },
        decreases t@.len() - i,
    {
        if i < a {
            out.push(t[i]);
            assert(t@.take(i as int + 1) =~= t@.take(i as int).push(t@[i as int]));
        } else if i < b {
            gone.push(t[i]);
            assert(t@.subrange(a as int, i as int + 1) =~= t@.subrange(a as int, i as int).push(
                t@[i as int],
            ));
        } else {
            out.push(t[i]);
            assert(t@.subrange(b as int, i as int + 1) =~= t@.subrange(b as int, i as int).push(
                t@[i as int],
            ));
        }
        i = i + 1;
    }
    assert(t@.skip(b as int) =~= t@.subrange(b as int, t@.len() as int));
    assert(t@.subrange(b as int, b as int) =~= Seq::<char>::empty());
    assert(out@ =~= remove_text(t@, a as nat, b as nat));
    (out, gone)
}

/// The marks moved as by an insertion of `n` characters at `p`.
fn shift_marks_insert(marks: &Vec<MarkEntry>, p: usize, n: usize) -> (r: Vec<MarkEntry>)
    requires
        forall|i: int| 0 <= i < marks@.len() ==> #[trigger] marks@[i].pos + n <= usize::MAX,
    ensures
        r@ == shift_insert(marks@, p as nat, n as nat),
{
    let mut out: Vec<MarkEntry> = Vec::new();
    let mut i: usize = 0;
    while i < marks.len()
        invariant
            i <= marks@.len(),
            out@.len() == i,
            forall|i: int| 0 <= i < marks@.len() ==> #[trigger] marks@[i].pos + n <= usize::MAX,
            forall|j: int|
                0 <= j < i ==> #[trigger] out@[j] == (MarkEntry {
                    mark: marks@[j].mark,
                    pos: pos_after_insert(marks@[j].pos as nat, p as nat, n as nat) as usize,
                }),
        decreases marks@.len() - i,
    {
        let e = marks[i];
        let q = if e.pos >= p {
            e.pos + n
        } else {
            e.pos
        };
        out.push(MarkEntry { mark: e.mark, pos: q });
        i = i + 1;
    }
    assert(out@ =~= shift_insert(marks@, p as nat, n as nat));
    out
}

/// The marks moved as by a removal of the positions `a` up to `b`.
fn shift_marks_delete(marks: &Vec<MarkEntry>, a: usize, b: usize) -> (r: Vec<MarkEntry>)
    requires
        a <= b,
    ensures
        r@ == shift_delete(marks@, a as nat, b as nat),
{
    let mut out: Vec<MarkEntry> = Vec::new();
    let mut i: usize = 0;
    while i < marks.len()
        invariant
            a <= b,
            i <= marks@.len(),
            out@.len() == i,
            forall|j: int|
                0 <= j < i ==> #[trigger] out@[j] == (MarkEntry {
                    mark: marks@[j].mark,
                    pos: pos_after_delete(marks@[j].pos as nat, a as nat, b as nat) as usize,
                }),
        decreases marks@.len() - i,
    {
        let e = marks[i];
        let q = if e.pos >= b {
            e.pos - (b - a)
        } else if e.pos >= a {
            a
        } else {
            e.pos
        };
        out.push(MarkEntry { mark: e.mark, pos: q });
        i = i + 1;
    }
    assert(out@ =~= shift_delete(marks@, a as nat, b as nat));
    out
}

/// The marks, each moved back to at most `len`.
fn clamp_marks_to(marks: &Vec<MarkEntry>, len: usize) -> (r: Vec<MarkEntry>)
    ensures
        r@ == clamp_marks(marks@, len as nat),
{
    let mut out: Vec<MarkEntry> = Vec::new();
    let mut i: usize = 0;
    while i < marks.len()
        invariant
            i <= marks@.len(),
            out@.len() == i,
            forall|j: int|
                0 <= j < i ==> #[trigger] out@[j] == (MarkEntry {
                    mark: marks@[j].mark,
                    pos: min_nat(marks@[j].pos as nat, len as nat) as usize,
                }),
        decreases marks@.len() - i,
    {
        let e = marks[i];
        let q = if e.pos <= len {
            e.pos
        } else {
            len
        };
        out.push(MarkEntry { mark: e.mark, pos: q });
        i = i + 1;
    }
    assert(out@ =~= clamp_marks(marks@, len as nat));
    out
}

/// The index of the first entry of `m`, if any.
fn find_mark(marks: &Vec<MarkEntry>, m: Mark) -> (r: Option<usize>)
    ensures
        match r {
            Some(i) => mark_index(marks@, m) == Some(i as int),
            None => mark_index(marks@, m) is None,
        },
{
    let mut i: usize = 0;
    while i < marks.len()
        invariant
            i <= marks@.len(),
            forall|j: int| 0 <= j < i ==> #[trigger] marks@[j].mark != m,
        decreases marks@.len() - i,
    {
        if marks[i].mark == m {
            proof {
                assert(is_first_index(marks@, m, i as int));
                let k = choose|k: int| is_first_index(marks@, m, k);
                lemma_first_index_unique(marks@, m, i as int, k);
            }
            return Some(i);
        }
        i = i + 1;
    }
    assert forall|k: int| !is_first_index(marks@, m, k) by {
        if 0 <= k < marks@.len() {
            assert(marks@[k].mark != m);
        }
    }
    None
}

/// The abstract value of a `Buffer`.
pub struct BufferModel {
    pub text: Seq<char>,
    pub marks: Seq<MarkEntry>,
    pub undo: Seq<ChangeModel>,
    pub redo: Seq<ChangeModel>,
    pub dirty: bool,
}

pub open spec fn change_weight(c: ChangeModel, k: ChangeKind) -> nat {
    if c.kind == k {
        c.text.len()
    } else {
        0
    }
}

/// The number of characters held by the changes of kind `k` in `s`.
pub open spec fn weight(s: Seq<ChangeModel>, k: ChangeKind) -> nat
    decreases s.len(),
{
    if s.len() == 0 {
        0
    } else {
        weight(s.drop_last(), k) + change_weight(s.last(), k)
    }
}

/// The longest the text can grow by undoing and redoing.
pub open spec fn span(m: BufferModel) -> nat {
    m.text.len() + weight(m.undo, ChangeKind::Delete) + weight(m.redo, ChangeKind::Insert)
}

/// Whether the text, with what undoing could bring back, has room for `n` more characters.
pub open spec fn model_has_room(m: BufferModel, n: nat) -> bool {
    m.text.len() + weight(m.undo, ChangeKind::Delete) + n <= usize::MAX
}

pub open spec fn model_wf(m: BufferModel) -> bool {
    marks_within(m.marks, m.text.len()) && span(m) <= usize::MAX
}

/// `m` after inserting `s` at position `p`.
pub open spec fn model_insert(m: BufferModel, p: nat, s: Seq<char>) -> BufferModel {
    let after = shift_insert(m.marks, p, s.len());
    BufferModel {
        text: insert_text(m.text, p, s),
        marks: after,
        undo: m.undo.push(
            ChangeModel { kind: ChangeKind::Insert, pos: p, text: s, before: m.marks, after },
        ),
        redo: Seq::empty(),
        dirty: true,
    }
}

/// `m` after removing the positions `a` up to `b`.
pub open spec fn model_delete(m: BufferModel, a: nat, b: nat) -> BufferModel {
    let after = shift_delete(m.marks, a, b);
    BufferModel {
        text: remove_text(m.text, a, b),
        marks: after,
        undo: m.undo.push(
            ChangeModel {
                kind: ChangeKind::Delete,
                pos: a,
                text: m.text.subrange(a as int, b as int),
                before: m.marks,
                after,
            },
        ),
        redo: Seq::empty(),
        dirty: true,
    }
}

/// Applies the text part of `c` to `t` (positions clamped to the text), and
/// gives the change as it was applied.
pub open spec fn apply_change(t: Seq<char>, c: ChangeModel, forward: bool) -> (Seq<char>, ChangeModel) {
    if (c.kind == ChangeKind::Insert) == forward {
        let p = min_nat(c.pos, t.len());
        (insert_text(t, p, c.text), ChangeModel { pos: p, ..c })
    } else {
        let b = min_nat(c.pos + c.text.len(), t.len());
        let a = min_nat(c.pos, b);
        (remove_text(t, a, b), ChangeModel { pos: a, text: t.subrange(a as int, b as int), ..c })
    }
}

/// `m` after undoing its last change, if any.
pub open spec fn model_undo(m: BufferModel) -> BufferModel {
    if m.undo.len() == 0 {
        m
    } else {
        let c = m.undo.last();
        let (t, done) = apply_change(m.text, c, false);
        BufferModel {
            text: t,
            marks: clamp_marks(c.before, t.len()),
            undo: m.undo.drop_last(),
            redo: m.redo.push(done),
            dirty: true,
        }
    }
}

/// `m` after redoing its last undone change, if any.
pub open spec fn model_redo(m: BufferModel) -> BufferModel {
    if m.redo.len() == 0 {
        m
    } else {
        let c = m.redo.last();
        let (t, done) = apply_change(m.text, c, true);
        BufferModel {
            text: t,
            marks: clamp_marks(c.after, t.len()),
            undo: m.undo.push(done),
            redo: m.redo.drop_last(),
            dirty: true,
        }
    }
}

pub proof fn lemma_weight_push(s: Seq<ChangeModel>, c: ChangeModel, k: ChangeKind)
    ensures
        weight(s.push(c), k) == weight(s, k) + change_weight(c, k),
{
    assert(s.push(c).drop_last() =~= s);
}

pub open spec fn changes_view(v: Seq<Change>) -> Seq<ChangeModel> {
    v.map_values(|c: Change| c@)
}

/// Text with named marks, and a history of its edits that can be undone and redone.
pub struct Buffer {
    text: Vec<char>,
    marks: Vec<MarkEntry>,
    undo_stack: Vec<Change>,
    redo_stack: Vec<Change>,
    undo_deleted: usize,
    redo_inserted: usize,
    file_path: Option<Vec<char>>,
    dirty: bool,
}

impl View for Buffer {
    type V = BufferModel;

    closed spec fn view(&self) -> BufferModel {
        BufferModel {
            text: self.text@,
            marks: self.marks@,
            undo: changes_view(self.undo_stack@),
            redo: changes_view(self.redo_stack@),
            dirty: self.dirty,
        }
    }
}

impl Buffer {
    pub closed spec fn wf(&self) -> bool {
        &&& model_wf(self@)
        &&& self.undo_deleted == weight(self@.undo, ChangeKind::Delete)
        &&& self.redo_inserted == weight(self@.redo, ChangeKind::Insert)
    }

    /// A well-formed buffer's marks lie within its text, and its text fits in memory.
    pub proof fn lemma_wf(&self)
        requires
            self.wf(),
        ensures
            model_wf(self@),
    {
    }

    /// The path the buffer is associated with, if any.
    pub closed spec fn path(&self) -> Option<Seq<char>> {
        match self.file_path {
            Some(p) => Some(p@),
            None => None,
        }
    }

    /// An empty buffer with no marks, no history and no path.
    pub fn new() -> (r: Buffer)
        ensures
            r.wf(),
            r@.text.len() == 0,
            r@.marks.len() == 0,
            r@.undo.len() == 0,
            r@.redo.len() == 0,
            !r@.dirty,
            r.path() is None,
    {
        let r = Buffer {
            text: Vec::new(),
            marks: Vec::new(),
            undo_stack: Vec::new(),
            redo_stack: Vec::new(),
            undo_deleted: 0,
            redo_inserted: 0,
            file_path: None,
            dirty: false,
        };
        assert(r@.undo =~= Seq::<ChangeModel>::empty());
        assert(r@.redo =~= Seq::<ChangeModel>::empty());
        r
    }

    /// A buffer holding `text`, associated with `path`, with no marks and no history.
    pub fn from_text(text: Vec<char>, path: Option<Vec<char>>) -> (r: Buffer)
        ensures
            r.wf(),
            r@.text == text@,
            r@.marks.len() == 0,
            r@.undo.len() == 0,
            r@.redo.len() == 0,
            !r@.dirty,
            r.path() == match path {
                Some(p) => Some(p@),
                None => None::<Seq<char>>,
            },
    {
        let r = Buffer {
            text,
            marks: Vec::new(),
            undo_stack: Vec::new(),
            redo_stack: Vec::new(),
            undo_deleted: 0,
            redo_inserted: 0,
            file_path: path,
            dirty: false,
        };
        assert(r@.undo =~= Seq::<ChangeModel>::empty());
        assert(r@.redo =~= Seq::<ChangeModel>::empty());
        assert(r.text@.len() == r.text.len());
        assert(weight(r@.undo, ChangeKind::Delete) == 0);
        assert(weight(r@.redo, ChangeKind::Insert) == 0);
        r
    }

    /// The text of the buffer.
    pub fn text(&self) -> (r: &Vec<char>)
        ensures
            r@ == self@.text,
    {
        &self.text
    }

    /// The number of characters in the buffer.
    pub fn len(&self) -> (r: usize)
        ensures
            r == self@.text.len(),
    {
        self.text.len()
    }

    /// Whether the buffer changed since it was loaded or saved.
    pub fn is_dirty(&self) -> (r: bool)
        ensures
            r == self@.dirty,
    {
        self.dirty
    }

    /// The position of mark `m`, if the buffer has it.
    pub fn mark_position(&self, m: Mark) -> (r: Option<usize>)
        ensures
            match r {
                Some(p) => mark_pos(self@.marks, m) == Some(p as nat),
                None => mark_pos(self@.marks, m) is None,
            },
    {
        match find_mark(&self.marks, m) {
            Some(i) => Some(self.marks[i].pos),
            None => None,
        }
    }

    /// Puts mark `m` at `pos`, clamped to the end of the text; the history is kept.
    pub fn set_mark(&mut self, m: Mark, pos: usize)
        requires
            old(self).wf(),
        ensures
            final(self).wf(),
            final(self)@ == (BufferModel {
                marks: set_mark_in(old(self)@.marks, m, min_nat(pos as nat, old(self)@.text.len())),
                ..old(self)@
            }),
            final(self).path() == old(self).path(),
    {
        let n = self.text.len();
        let p = if pos <= n {
            pos
        } else {
            n
        };
        let e = MarkEntry { mark: m, pos: p };
        match find_mark(&self.marks, m) {
            Some(i) => {
                self.marks.set(i, e);
            },
            None => {
                self.marks.push(e);
            },
        }
        assert(marks_within(self@.marks, n as nat));
    }
}


impl Buffer {
    /// Whether the text, with what undoing could bring back, has room for `n` more characters.
    pub open spec fn has_room(&self, n: nat) -> bool {
        model_has_room(self@, n)
    }

    /// Inserts `s` at position `pos` (clamped to the end of the text) and records it.
    /// Returns false, and changes nothing, where the text has no room for `s`.
    pub fn insert_at(&mut self, pos: usize, s: &Vec<char>) -> (r: bool)
        requires
            old(self).wf(),
        ensures
            final(self).wf(),
            final(self).path() == old(self).path(),
            r == old(self).has_room(s@.len()),
            r ==> final(self)@ == model_insert(
                old(self)@,
                min_nat(pos as nat, old(self)@.text.len()),
                s@,
            ),
            !r ==> final(self)@ == old(self)@,
    {
        let n = self.text.len();
        let room = usize::MAX - n - self.undo_deleted;
        if s.len() > room {
            return false;
        }
        let p = if pos <= n {
            pos
        } else {
            n
        };
        let ghost m0 = self@;
        let new_text = splice_insert(&self.text, p, s);
        let new_marks = shift_marks_insert(&self.marks, p, s.len());
        let change = Change {
            kind: ChangeKind::Insert,
            pos: p,
            text: copy_vec(s),
            marks_before: copy_vec(&self.marks),
            marks_after: copy_vec(&new_marks),
        };
        let ghost cm = change@;
        self.text = new_text;
        self.marks = new_marks;
        self.undo_stack.push(change);
        self.redo_stack = Vec::new();
        self.redo_inserted = 0;
        self.dirty = true;
        proof {
            assert(self@.undo =~= m0.undo.push(cm));
            assert(self@.redo =~= Seq::<ChangeModel>::empty());
            lemma_weight_push(m0.undo, cm, ChangeKind::Delete);
            assert(self@ == model_insert(m0, p as nat, s@));
            assert(self@.text.len() == n + s@.len());
            assert(marks_within(self@.marks, self@.text.len())) by {
                assert forall|i: int| 0 <= i < self@.marks.len() implies #[trigger] self@.marks[i].pos
                    <= self@.text.len() by {
                    assert(m0.marks[i].pos <= n);
                }
            }
        }
        true
    }

    /// Removes the positions `a` up to `b`, both clamped to the text, and records it.
    pub fn delete_range(&mut self, a: usize, b: usize)
        requires
            old(self).wf(),
        ensures
            final(self).wf(),
            final(self).path() == old(self).path(),
            final(self)@ == ({
                let hi = min_nat(b as nat, old(self)@.text.len());
                model_delete(old(self)@, min_nat(a as nat, hi), hi)
            }),
    {
        let n = self.text.len();
        let hi = if b <= n {
            b
        } else {
            n
        };
        let lo = if a <= hi {
            a
        } else {
            hi
        };
        let ghost m0 = self@;
        let (new_text, gone) = splice_remove(&self.text, lo, hi);
        let new_marks = shift_marks_delete(&self.marks, lo, hi);
        let removed = gone.len();
        let change = Change {
            kind: ChangeKind::Delete,
            pos: lo,
            text: gone,
            marks_before: copy_vec(&self.marks),
            marks_after: copy_vec(&new_marks),
        };
        let ghost cm = change@;
        self.text = new_text;
        self.marks = new_marks;
        self.undo_stack.push(change);
        self.redo_stack = Vec::new();
        self.redo_inserted = 0;
        self.undo_deleted = self.undo_deleted + removed;
        self.dirty = true;
        proof {
            assert(self@.undo =~= m0.undo.push(cm));
            assert(self@.redo =~= Seq::<ChangeModel>::empty());
            lemma_weight_push(m0.undo, cm, ChangeKind::Delete);
            assert(self@ == model_delete(m0, lo as nat, hi as nat));
            assert(self@.text.len() == n - (hi - lo));
            assert(marks_within(self@.marks, self@.text.len())) by {
                assert forall|i: int| 0 <= i < self@.marks.len() implies #[trigger] self@.marks[i].pos
                    <= self@.text.len() by {
                    assert(m0.marks[i].pos <= n);
                }
            }
        }
    }
}


/// Applies the text part of `c` to `t`, forward (as it was done) or backward
/// (to undo it), and gives the change as it was applied.
fn apply_to_text(t: &Vec<char>, c: Change, forward: bool) -> (r: (Vec<char>, Change))
    requires
        (c@.kind == ChangeKind::Insert) == forward ==> t@.len() + c@.text.len() <= usize::MAX,
    ensures
        (r.0@, r.1@) == apply_change(t@, c@, forward),
{
    let n = t.len();
    let k = c.text.len();
    let ghost cm = c@;
    if (c.kind == ChangeKind::Insert) == forward {
        let p = if c.pos <= n {
            c.pos
        } else {
            n
        };
        let new_text = splice_insert(t, p, &c.text);
        let done = Change { pos: p, ..c };
        proof {
            assert(done@ == (ChangeModel { pos: p as nat, ..cm }));
        }
        (new_text, done)
    } else {
        let b = if k <= n && c.pos <= n - k {
            c.pos + k
        } else {
            n
        };
        let a = if c.pos <= b {
            c.pos
        } else {
            b
        };
        let (new_text, gone) = splice_remove(t, a, b);
        let done = Change { pos: a, text: gone, ..c };
        proof {
            assert(done@ == (ChangeModel { pos: a as nat, text: t@.subrange(a as int, b as int), ..cm }));
        }
        (new_text, done)
    }
}

impl Buffer {
    /// Undoes the last recorded change, if any; it can then be redone.
    pub fn undo(&mut self)
        requires
            old(self).wf(),
        ensures
            final(self).wf(),
            final(self).path() == old(self).path(),
            final(self)@ == model_undo(old(self)@),
    {
        let ghost m0 = self@;
        match self.undo_stack.pop() {
            None => {
                assert(m0.undo.len() == 0);
            },
            Some(c) => {
                let ghost cm = c@;
                proof {
                    assert(self.undo_stack@.push(c) == old(self).undo_stack@);
                    assert(changes_view(self.undo_stack@) =~= m0.undo.drop_last());
                    assert(m0.undo.last() == cm);
                    assert(m0.undo =~= m0.undo.drop_last().push(cm));
                    lemma_weight_push(m0.undo.drop_last(), cm, ChangeKind::Delete);
                }
                let is_delete = c.kind == ChangeKind::Delete;
                let k = c.text.len();
                let (new_text, done) = apply_to_text(&self.text, c, false);
                let ghost dm = done@;
                let new_marks = clamp_marks_to(&done.marks_before, new_text.len());
                let removed = done.text.len();
                self.text = new_text;
                self.marks = new_marks;
                self.redo_stack.push(done);
                if is_delete {
                    self.undo_deleted = self.undo_deleted - k;
                } else {
                    self.redo_inserted = self.redo_inserted + removed;
                }
                self.dirty = true;
                proof {
                    assert(self@.redo =~= m0.redo.push(dm));
                    lemma_weight_push(m0.redo, dm, ChangeKind::Insert);
                    assert(self@ == model_undo(m0));
                    assert(marks_within(self@.marks, self@.text.len()));
                }
            },
        }
    }

    /// Redoes the last undone change, if any; it can then be undone again.
    pub fn redo(&mut self)
        requires
            old(self).wf(),
        ensures
            final(self).wf(),
            final(self).path() == old(self).path(),
            final(self)@ == model_redo(old(self)@),
    {
        let ghost m0 = self@;
        match self.redo_stack.pop() {
            None => {
                assert(m0.redo.len() == 0);
            },
            Some(c) => {
                let ghost cm = c@;
                proof {
                    assert(self.redo_stack@.push(c) == old(self).redo_stack@);
                    assert(changes_view(self.redo_stack@) =~= m0.redo.drop_last());
                    assert(m0.redo.last() == cm);
                    assert(m0.redo =~= m0.redo.drop_last().push(cm));
                    lemma_weight_push(m0.redo.drop_last(), cm, ChangeKind::Insert);
                }
                let is_insert = c.kind == ChangeKind::Insert;
                let k = c.text.len();
                let (new_text, done) = apply_to_text(&self.text, c, true);
                let ghost dm = done@;
                let new_marks = clamp_marks_to(&done.marks_after, new_text.len());
                let removed = done.text.len();
                self.text = new_text;
                self.marks = new_marks;
                self.undo_stack.push(done);
                if is_insert {
                    self.redo_inserted = self.redo_inserted - k;
                } else {
                    self.undo_deleted = self.undo_deleted + removed;
                }
                self.dirty = true;
                proof {
                    assert(self@.undo =~= m0.undo.push(dm));
                    lemma_weight_push(m0.undo, dm, ChangeKind::Delete);
                    assert(self@ == model_redo(m0));
                    assert(marks_within(self@.marks, self@.text.len()));
                }
            },
        }
    }
}


impl Buffer {
    /// Inserts `s` at mark `m` and records it. Returns false, and changes
    /// nothing, where the buffer has no mark `m` or the text has no room for `s`.
    pub fn insert(&mut self, m: Mark, s: &Vec<char>) -> (r: bool)
        requires
            old(self).wf(),
        ensures
            final(self).wf(),
            final(self).path() == old(self).path(),
            r == (mark_pos(old(self)@.marks, m) is Some && old(self).has_room(s@.len())),
            r ==> final(self)@ == model_insert(
                old(self)@,
                mark_pos(old(self)@.marks, m)->0,
                s@,
            ),
            !r ==> final(self)@ == old(self)@,
    {
        match self.mark_position(m) {
            Some(p) => self.insert_at(p, s),
            None => false,
        }
    }
}

/// Undoing an insertion brings back the text and every mark as they were before it.
pub proof fn lemma_undo_after_insert(m: BufferModel, p: nat, s: Seq<char>)
    requires
        model_wf(m),
        p <= m.text.len(),
    ensures
        model_undo(model_insert(m, p, s)).text == m.text,
        model_undo(model_insert(m, p, s)).marks == m.marks,
{
    let m1 = model_insert(m, p, s);
    let t1 = m1.text;
    assert(t1.len() == m.text.len() + s.len());
    assert(m1.undo.last().pos == p);
    assert(min_nat(p + s.len(), t1.len()) == p + s.len());
    assert(remove_text(t1, p, p + s.len()) =~= m.text);
    let m2 = model_undo(m1);
    assert(m2.text == m.text);
    assert(clamp_marks(m.marks, m.text.len()) =~= m.marks);
}

/// Undoing a deletion brings back the text and every mark as they were before it.
pub proof fn lemma_undo_after_delete(m: BufferModel, a: nat, b: nat)
    requires
        model_wf(m),
        a <= b <= m.text.len(),
    ensures
        model_undo(model_delete(m, a, b)).text == m.text,
        model_undo(model_delete(m, a, b)).marks == m.marks,
{
    let m1 = model_delete(m, a, b);
    let t1 = m1.text;
    assert(t1.len() == m.text.len() - (b - a));
    assert(min_nat(a, t1.len()) == a);
    assert(insert_text(t1, a, m.text.subrange(a as int, b as int)) =~= m.text);
    let m2 = model_undo(m1);
    assert(m2.text == m.text);
    assert(clamp_marks(m.marks, m.text.len()) =~= m.marks);
}

/// Redoing with nothing to redo changes nothing: text, marks and both histories stay.
pub proof fn lemma_redo_when_empty(m: BufferModel)
    requires
        m.redo.len() == 0,
    ensures
        model_redo(m) == m,
{
}

/// Setting a mark puts it where it was asked to be.
pub proof fn lemma_set_mark_pos(marks: Seq<MarkEntry>, m: Mark, p: nat)
    requires
        p <= usize::MAX,
    ensures
        mark_pos(set_mark_in(marks, m, p), m) == Some(p),
{
    let r = set_mark_in(marks, m, p);
    match mark_index(marks, m) {
        Some(i) => {
            assert(is_first_index(marks, m, i));
            assert(is_first_index(r, m, i));
            let k = choose|k: int| is_first_index(r, m, k);
            lemma_first_index_unique(r, m, i, k);
        },
        None => {
            let i = marks.len() as int;
            assert forall|j: int| 0 <= j < i implies #[trigger] r[j].mark != m by {
                if marks[j].mark == m {
                    lemma_first_occurrence(marks, m, j);
                }
            }
            assert(is_first_index(r, m, i));
            let k = choose|k: int| is_first_index(r, m, k);
            lemma_first_index_unique(r, m, i, k);
        },
    }
}

/// Where `marks` holds `m` at `j`, some index is the first to hold it.
pub proof fn lemma_first_occurrence(marks: Seq<MarkEntry>, m: Mark, j: int)
    requires
        0 <= j < marks.len(),
        marks[j].mark == m,
    ensures
        mark_index(marks, m) is Some,
    decreases j,
{
    if forall|l: int| 0 <= l < j ==> #[trigger] marks[l].mark != m {
        assert(is_first_index(marks, m, j));
    } else {
        let l = choose|l: int| 0 <= l < j && #[trigger] marks[l].mark == m;
        lemma_first_occurrence(marks, m, l);
    }
}

/// A mark moves with an insertion as `pos_after_insert` says.
pub proof fn lemma_shift_insert_pos(marks: Seq<MarkEntry>, m: Mark, p: nat, n: nat)
    requires
        mark_pos(marks, m) is Some,
        mark_pos(marks, m)->0 + n <= usize::MAX,
    ensures
        mark_pos(shift_insert(marks, p, n), m) == Some(
            pos_after_insert(mark_pos(marks, m)->0, p, n),
        ),
{
    let r = shift_insert(marks, p, n);
    assert(same_marks(marks, r));
    lemma_same_marks_index(marks, r, m);
}

/// A mark moves with a deletion as `pos_after_delete` says.
pub proof fn lemma_shift_delete_pos(marks: Seq<MarkEntry>, m: Mark, a: nat, b: nat)
    requires
        mark_pos(marks, m) is Some,
        a <= b,
    ensures
        mark_pos(shift_delete(marks, a, b), m) == Some(
            pos_after_delete(mark_pos(marks, m)->0, a, b),
        ),
{
    let r = shift_delete(marks, a, b);
    assert(same_marks(marks, r));
    lemma_same_marks_index(marks, r, m);
}

/// Why a buffer cannot be saved.
#[derive(Clone, Copy, Debug, PartialEq, Eq, Structural)]
pub enum SaveError {
    /// No path was given and the buffer has none.
    NoPath,
}

impl Buffer {
    /// Where saving writes to: `path` where given, else the buffer's own path.
    pub fn save_path(&self, path: Option<Vec<char>>) -> (r: Result<Vec<char>, SaveError>)
        ensures
            match path {
                Some(p) => r matches Ok(q) && q@ == p@,
                None => match self.path() {
                    Some(q) => r matches Ok(o) && o@ == q,
                    None => r == Err::<Vec<char>, SaveError>(SaveError::NoPath),
                },
            },
    {
        match path {
            Some(p) => Ok(p),
            None => match &self.file_path {
                Some(q) => Ok(copy_vec(q)),
                None => Err(SaveError::NoPath),
            },
        }
    }

    /// Records that the text was written to `path`: the buffer is now
    /// associated with it and no longer dirty.
    pub fn mark_saved(&mut self, path: Vec<char>)
        requires
            old(self).wf(),
        ensures
            final(self).wf(),
            final(self)@ == (BufferModel { dirty: false, ..old(self)@ }),
            final(self).path() == Some(path@),
    {
        self.file_path = Some(path);
        self.dirty = false;
    }
}

impl Buffer {
    /// Associates the buffer with `path`; text, marks, history and the dirty flag stay.
    pub fn set_path(&mut self, path: Vec<char>)
        requires
            old(self).wf(),
        ensures
            final(self).wf(),
            final(self)@ == old(self)@,
            final(self).path() == Some(path@),
    {
        self.file_path = Some(path);
    }
}

} // verus!
