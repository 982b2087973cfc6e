use vstd::prelude::*;
use crate::buffer::{
    Buffer, BufferModel, Mark, is_first_index, lemma_set_mark_pos, lemma_shift_delete_pos,
    lemma_shift_insert_pos, mark_index, mark_pos, min_nat, model_delete, model_has_room,
    model_insert, model_redo, model_undo, pos_after_delete, set_mark_in,
};
use crate::overlay::{Overlay, OverlayEvent, OverlayType, typed};
use crate::keyboard::Key;
use crate::textobject::{
    TextObject, find_line_end, find_line_start, lemma_line_bounds, line_end, line_start,
    object_range, resolve,
};

verus! {

/// The number of newlines in `s`.
pub open spec fn count_newlines(s: Seq<char>) -> nat
    decreases s.len(),
{
    if s.len() == 0 {
        0
    } else {
        count_newlines(s.drop_last()) + if s.last() == '\n' {
            1nat
        } else {
            0nat
        }
    }
}

/// The line (counted from 0) that holds position `p`.
pub open spec fn line_of(t: Seq<char>, p: nat) -> nat {
    count_newlines(t.take(p as int))
}

/// The first line shown after scrolling from `top` so that `line` is shown
/// in a window of `height` lines.
pub open spec fn scroll_for(top: nat, line: nat, height: nat) -> nat {
    if line < top || height == 0 {
        line
    } else if line >= top + height {
        (line - height + 1) as nat
    } else {
        top
    }
}

/// The position one line up from `p`, in the same column where the line is long enough.
pub open spec fn pos_up(t: Seq<char>, p: nat) -> nat {
    let ls = line_start(t, p);
    if ls == 0 {
        p
    } else {
        let prev = line_start(t, (ls - 1) as nat);
        prev + min_nat((p - ls) as nat, (ls - 1 - prev) as nat)
    }
}

/// The position one line down from `p`, in the same column where the line is long enough.
pub open spec fn pos_down(t: Seq<char>, p: nat) -> nat {
    let le = line_end(t, p);
    if le >= t.len() {
        p
    } else {
        let next = le + 1;
        next + min_nat((p - line_start(t, p)) as nat, (line_end(t, next) - next) as nat)
    }
}

/// A window onto a buffer: the cursor, the first line shown, the size, and a prompt.
pub struct Window {
    buffer: Buffer,
    cursor: Mark,
    top_line: usize,
    width: usize,
    height: usize,
    overlay: Overlay,
}

/// The line that holds position `p`.
fn find_line(t: &Vec<char>, p: usize) -> (r: usize)
    requires
        p <= t@.len(),
    ensures
        r == line_of(t@, p as nat),
{
    let mut i: usize = 0;
    let mut n: usize = 0;
    while i < p
        invariant
            i <= p <= t@.len(),
            n == count_newlines(t@.take(i as int)),
            n <= i,
        decreases p - i,
    {
        assert(t@.take(i as int + 1).drop_last() =~= t@.take(i as int));
        if t[i] == '\n' {
            n = n + 1;
        }
        i = i + 1;
    }
    n
}

impl Window {
    pub closed spec fn wf(&self) -> bool {
        &&& self.buffer.wf()
        &&& self.cursor == Mark::Cursor(0)
        &&& mark_pos(self.buffer@.marks, self.cursor) is Some
        &&& self.top_line <= self.cursor_line()
        &&& (self.height == 0 || self.cursor_line() < self.top_line + self.height)
    }

    /// The buffer shown.
    pub closed spec fn buf(&self) -> BufferModel {
        self.buffer@
    }

    /// The position of the cursor.
    pub closed spec fn cursor_pos(&self) -> nat {
        mark_pos(self.buffer@.marks, self.cursor)->0
    }

    /// The line that holds the cursor.
    pub open spec fn cursor_line(&self) -> nat {
        line_of(self.buf().text, self.cursor_pos())
    }

    /// The cursor of a well-formed window is the first cursor mark.
    pub proof fn lemma_cursor_mark(&self)
        requires
            self.wf(),
        ensures
            self.cursor_mark() == Mark::Cursor(0),
    {
    }

    /// The path of the buffer shown, if any.
    pub closed spec fn buf_path(&self) -> Option<Seq<char>> {
        self.buffer.path()
    }

    /// The mark that is the cursor.
    pub closed spec fn cursor_mark(&self) -> Mark {
        self.cursor
    }

    /// The first line shown.
    pub closed spec fn top(&self) -> nat {
        self.top_line as nat
    }

    /// The number of lines shown.
    pub closed spec fn rows(&self) -> nat {
        self.height as nat
    }

    /// The number of columns shown.
    pub closed spec fn cols(&self) -> nat {
        self.width as nat
    }

    /// The prompt of the view.
    pub closed spec fn prompt(&self) -> Overlay {
        self.overlay
    }

    /// The line that holds the cursor lies among those shown.
    pub proof fn lemma_cursor_shown(&self)
        requires
            self.wf(),
        ensures
            self.top() <= self.cursor_line(),
            self.rows() > 0 ==> self.cursor_line() < self.top() + self.rows(),
            self.cursor_pos() <= self.buf().text.len(),
    {
        self.buffer.lemma_wf();
        let i = mark_index(self.buffer@.marks, self.cursor)->0;
        assert(is_first_index(self.buffer@.marks, self.cursor, i));
    }

    /// Scrolls so that the cursor's line is shown.
    fn scroll(&mut self)
        requires
            old(self).buffer.wf(),
            old(self).cursor == Mark::Cursor(0),
            mark_pos(old(self).buffer@.marks, old(self).cursor) is Some,
        ensures
            final(self).wf(),
            final(self).buffer == old(self).buffer,
            final(self).cursor == old(self).cursor,
            final(self).overlay == old(self).overlay,
            final(self).width == old(self).width,
            final(self).height == old(self).height,
            final(self).top_line == scroll_for(
                old(self).top_line as nat,
                old(self).cursor_line(),
                old(self).height as nat,
            ),
    {
        let p = self.cursor_at();
        let line = find_line(self.buffer.text(), p);
        if line < self.top_line || self.height == 0 {
            self.top_line = line;
        } else if line - self.top_line >= self.height {
            self.top_line = line - self.height + 1;
        }
    }

    /// The position of the cursor.
    pub fn cursor_position(&self) -> (r: usize)
        requires
            self.wf(),
        ensures
            r == self.cursor_pos(),
            r <= self.buf().text.len(),
    {
        self.cursor_at()
    }

    fn cursor_at(&self) -> (r: usize)
        requires
            self.buffer.wf(),
            mark_pos(self.buffer@.marks, self.cursor) is Some,
        ensures
            r == self.cursor_pos(),
            r <= self.buf().text.len(),
    {
        proof {
            self.buffer.lemma_wf();
            let i = mark_index(self.buffer@.marks, self.cursor)->0;
            assert(is_first_index(self.buffer@.marks, self.cursor, i));
        }
        match self.buffer.mark_position(self.cursor) {
            Some(p) => p,
            None => 0,
        }
    }

    /// A view onto `buffer`, `width` columns by `height` lines, with the
    /// cursor at the start of the text.
    pub fn new(buffer: Buffer, width: usize, height: usize) -> (r: Window)
        requires
            buffer.wf(),
        ensures
            r.wf(),
            r.buf() == (BufferModel { marks: set_mark_in(buffer@.marks, Mark::Cursor(0), 0), ..buffer@ }),
            r.buf_path() == buffer.path(),
            r.cursor_pos() == 0,
            r.cursor_mark() == Mark::Cursor(0),
            r.top() == 0,
            r.rows() == height,
            r.cols() == width,
            r.prompt().kind() is None,
    {
        let ghost b0 = buffer@;
        let mut buffer = buffer;
        buffer.set_mark(Mark::Cursor(0), 0);
        proof {
            lemma_set_mark_pos(b0.marks, Mark::Cursor(0), 0);
        }
        let mut v = Window {
            buffer,
            cursor: Mark::Cursor(0),
            top_line: 0,
            width,
            height,
            overlay: Overlay::inactive(),
        };
        v.scroll();
        assert(line_of(v.buffer@.text, 0) == 0) by {
            assert(v.buffer@.text.take(0) =~= Seq::<char>::empty());
        }
        v
    }

    /// The buffer shown.
    pub fn buffer(&self) -> (r: &Buffer)
        ensures
            r@ == self.buf(),
            self.wf() ==> r.wf(),
    {
        &self.buffer
    }

    /// The first line shown.
    pub fn top_line(&self) -> (r: usize)
        ensures
            r == self.top(),
    {
        self.top_line
    }

    /// Puts the cursor at `p` (clamped to the text) and scrolls to it.
    fn move_cursor_to(&mut self, p: usize)
        requires
            old(self).wf(),
        ensures
            final(self).wf(),
            final(self).buf() == (BufferModel {
                marks: set_mark_in(
                    old(self).buf().marks,
                    Mark::Cursor(0),
                    min_nat(p as nat, old(self).buf().text.len()),
                ),
                ..old(self).buf()
            }),
            final(self).buf_path() == old(self).buf_path(),
            final(self).cursor_pos() == min_nat(p as nat, old(self).buf().text.len()),
            final(self).prompt() == old(self).prompt(),
            final(self).rows() == old(self).rows(),
            final(self).cols() == old(self).cols(),
    {
        self.buffer.set_mark(self.cursor, p);
        proof {
            lemma_set_mark_pos(
                old(self).buffer@.marks,
                self.cursor,
                min_nat(p as nat, old(self).buffer@.text.len()),
            );
        }
        self.scroll();
    }

    /// Moves the cursor one character back, where it is not at the start.
    pub fn move_left(&mut self)
        requires
            old(self).wf(),
        ensures
            final(self).wf(),
            final(self).buf() == (BufferModel {
                marks: set_mark_in(old(self).buf().marks, Mark::Cursor(0), final(self).cursor_pos()),
                ..old(self).buf()
            }),
            final(self).buf_path() == old(self).buf_path(),
            final(self).prompt() == old(self).prompt(),
            final(self).cursor_pos() == if old(self).cursor_pos() > 0 {
                (old(self).cursor_pos() - 1) as nat
            } else {
                0
            },
    {
        let p = self.cursor_position();
        let target = if p > 0 {
            p - 1
        } else {
            0
        };
        self.move_cursor_to(target);
    }

    /// Moves the cursor one character on, where it is not at the end.
    pub fn move_right(&mut self)
        requires
            old(self).wf(),
        ensures
            final(self).wf(),
            final(self).buf() == (BufferModel {
                marks: set_mark_in(old(self).buf().marks, Mark::Cursor(0), final(self).cursor_pos()),
                ..old(self).buf()
            }),
            final(self).buf_path() == old(self).buf_path(),
            final(self).prompt() == old(self).prompt(),
            final(self).cursor_pos() == min_nat(
                old(self).cursor_pos() + 1,
                old(self).buf().text.len(),
            ),
    {
        let p = self.cursor_position();
        let target = if p < self.buffer.len() {
            p + 1
        } else {
            p
        };
        self.move_cursor_to(target);
    }
}

impl Window {
    /// Moves the cursor one line up, keeping its column where the line is long enough.
    pub fn move_up(&mut self)
        requires
            old(self).wf(),
        ensures
            final(self).wf(),
            final(self).buf() == (BufferModel {
                marks: set_mark_in(old(self).buf().marks, Mark::Cursor(0), final(self).cursor_pos()),
                ..old(self).buf()
            }),
            final(self).buf_path() == old(self).buf_path(),
            final(self).prompt() == old(self).prompt(),
            final(self).cursor_pos() == pos_up(old(self).buf().text, old(self).cursor_pos()),
    {
        let p = self.cursor_position();
        let t = self.buffer.text();
        let ls = find_line_start(t, p);
        proof {
            lemma_line_bounds(t@, p as nat);
        }
        if ls == 0 {
            self.move_cursor_to(p);
            return ;
        }
        let prev = find_line_start(t, ls - 1);
        proof {
            lemma_line_bounds(t@, (ls - 1) as nat);
        }
        let col = p - ls;
        let width = ls - 1 - prev;
        let target = prev + if col <= width {
            col
        } else {
            width
        };
        self.move_cursor_to(target);
    }

    /// Moves the cursor one line down, keeping its column where the line is long enough.
    pub fn move_down(&mut self)
        requires
            old(self).wf(),
        ensures
            final(self).wf(),
            final(self).buf() == (BufferModel {
                marks: set_mark_in(old(self).buf().marks, Mark::Cursor(0), final(self).cursor_pos()),
                ..old(self).buf()
            }),
            final(self).buf_path() == old(self).buf_path(),
            final(self).prompt() == old(self).prompt(),
            final(self).cursor_pos() == pos_down(old(self).buf().text, old(self).cursor_pos()),
    {
        let p = self.cursor_position();
        let t = self.buffer.text();
        let le = find_line_end(t, p);
        proof {
            lemma_line_bounds(t@, p as nat);
        }
        if le >= t.len() {
            self.move_cursor_to(p);
            return ;
        }
        let ls = find_line_start(t, p);
        let next = le + 1;
        let ne = find_line_end(t, next);
        proof {
            lemma_line_bounds(t@, next as nat);
        }
        let col = p - ls;
        let width = ne - next;
        let target = next + if col <= width {
            col
        } else {
            width
        };
        self.move_cursor_to(target);
    }

    /// Inserts `c` at the cursor, which moves on past it. Returns false, and
    /// changes nothing, where the buffer has no room for it.
    pub fn insert_char(&mut self, c: char) -> (r: bool)
        requires
            old(self).wf(),
        ensures
            final(self).wf(),
            final(self).cursor_mark() == old(self).cursor_mark(),
            final(self).prompt() == old(self).prompt(),
            final(self).buf_path() == old(self).buf_path(),
            r == model_has_room(old(self).buf(), 1),
            r ==> final(self).buf() == model_insert(old(self).buf(), old(self).cursor_pos(), seq![c]),
            r ==> final(self).cursor_pos() == old(self).cursor_pos() + 1,
            !r ==> final(self).buf() == old(self).buf(),
    {
        let p = self.cursor_position();
        let v = vec![c];
        let ok = self.buffer.insert(self.cursor, &v);
        proof {
            assert(v@ =~= seq![c]);
            if ok {
                lemma_shift_insert_pos(old(self).buffer@.marks, self.cursor, p as nat, 1);
            }
        }
        self.scroll();
        ok
    }

    /// Removes the text between `mark` and `obj`, where the buffer has the
    /// marks they name; the cursor moves with the removal.
    pub fn delete_from_mark_to_object(&mut self, mark: Mark, obj: TextObject)
        requires
            old(self).wf(),
        ensures
            final(self).wf(),
            final(self).cursor_mark() == old(self).cursor_mark(),
            final(self).prompt() == old(self).prompt(),
            match mark_pos(old(self).buf().marks, mark) {
                Some(f) => match object_range(old(self).buf().text, old(self).buf().marks, f, obj) {
                    Some((a, b)) => final(self).buf() == model_delete(old(self).buf(), a, b)
                        && final(self).cursor_pos() == pos_after_delete(
                        old(self).cursor_pos(),
                        a,
                        b,
                    ),
                    None => final(self).buf() == old(self).buf(),
                },
                None => final(self).buf() == old(self).buf(),
            },
    {
        let from = match self.buffer.mark_position(mark) {
            Some(f) => f,
            None => {
                return ;
            },
        };
        proof {
            self.buffer.lemma_wf();
            let i = mark_index(self.buffer@.marks, mark)->0;
            assert(is_first_index(self.buffer@.marks, mark, i));
        }
        match resolve(&self.buffer, from, obj) {
            Some(g) => {
                self.buffer.delete_range(g.start, g.end);
                proof {
                    lemma_shift_delete_pos(
                        old(self).buffer@.marks,
                        self.cursor,
                        g.start as nat,
                        g.end as nat,
                    );
                }
                self.scroll();
            },
            None => {},
        }
    }

    /// Puts the cursor back at the start where the history no longer has it.
    fn keep_cursor(&mut self)
        requires
            old(self).buffer.wf(),
            old(self).cursor == Mark::Cursor(0),
        ensures
            final(self).wf(),
            final(self).cursor == old(self).cursor,
            final(self).overlay == old(self).overlay,
            final(self).width == old(self).width,
            final(self).height == old(self).height,
            final(self).buffer@.text == old(self).buffer@.text,
            final(self).buffer@.undo == old(self).buffer@.undo,
            final(self).buffer@.redo == old(self).buffer@.redo,
            mark_pos(old(self).buffer@.marks, old(self).cursor) is Some ==> final(self).buffer@
                == old(self).buffer@,
    {
        if self.buffer.mark_position(self.cursor).is_none() {
            self.buffer.set_mark(self.cursor, 0);
            proof {
                lemma_set_mark_pos(old(self).buffer@.marks, self.cursor, 0);
            }
        }
        self.scroll();
    }

    /// Undoes the last change to the buffer.
    pub fn undo(&mut self)
        requires
            old(self).wf(),
        ensures
            final(self).wf(),
            final(self).cursor_mark() == old(self).cursor_mark(),
            final(self).prompt() == old(self).prompt(),
            final(self).buf().text == model_undo(old(self).buf()).text,
            final(self).buf().undo == model_undo(old(self).buf()).undo,
            final(self).buf().redo == model_undo(old(self).buf()).redo,
            mark_pos(model_undo(old(self).buf()).marks, old(self).cursor_mark()) is Some
                ==> final(self).buf() == model_undo(old(self).buf()),
    {
        self.buffer.undo();
        self.keep_cursor();
    }

    /// Redoes the last undone change to the buffer.
    pub fn redo(&mut self)
        requires
            old(self).wf(),
        ensures
            final(self).wf(),
            final(self).cursor_mark() == old(self).cursor_mark(),
            final(self).prompt() == old(self).prompt(),
            final(self).buf().text == model_redo(old(self).buf()).text,
            final(self).buf().undo == model_redo(old(self).buf()).undo,
            final(self).buf().redo == model_redo(old(self).buf()).redo,
            mark_pos(model_redo(old(self).buf()).marks, old(self).cursor_mark()) is Some
                ==> final(self).buf() == model_redo(old(self).buf()),
    {
        self.buffer.redo();
        self.keep_cursor();
    }

    /// Takes the new size of the window and scrolls so that the cursor stays shown.
    pub fn resize(&mut self, width: usize, height: usize)
        requires
            old(self).wf(),
        ensures
            final(self).wf(),
            final(self).buf() == old(self).buf(),
            final(self).cursor_pos() == old(self).cursor_pos(),
            final(self).prompt() == old(self).prompt(),
            final(self).cols() == width,
            final(self).rows() == height,
            final(self).top() == scroll_for(old(self).top(), old(self).cursor_line(), height as nat),
    {
        self.width = width;
        self.height = height;
        self.scroll();
    }

    /// Opens a prompt of type `t`, with no text typed yet.
    pub fn set_overlay(&mut self, t: OverlayType)
        requires
            old(self).wf(),
        ensures
            final(self).wf(),
            final(self).buf() == old(self).buf(),
            final(self).cursor_pos() == old(self).cursor_pos(),
            final(self).prompt().kind() == Some(t),
            final(self).prompt().data().len() == 0,
    {
        self.overlay = Overlay::new(t);
    }

    /// The prompt that is open, if any.
    pub fn overlay_type(&self) -> (r: Option<OverlayType>)
        ensures
            r == self.prompt().kind(),
    {
        self.overlay.overlay_type()
    }

    /// Feeds a key to the open prompt; a prompt that finishes is closed.
    pub fn handle_overlay_key(&mut self, key: Key) -> (r: OverlayEvent)
        requires
            old(self).wf(),
        ensures
            final(self).wf(),
            final(self).buf() == old(self).buf(),
            final(self).cursor_pos() == old(self).cursor_pos(),
            final(self).cursor_mark() == old(self).cursor_mark(),
            final(self).buf_path() == old(self).buf_path(),
            old(self).prompt().kind() is None ==> {
                &&& r == OverlayEvent::Continue
                &&& final(self).prompt().kind() is None
                &&& final(self).prompt().data() == old(self).prompt().data()
            },
            old(self).prompt().kind() is Some ==> match key {
                Key::Enter => r matches OverlayEvent::Finished(Some(d)) && d@ == old(
                    self,
                ).prompt().data() && final(self).prompt().kind() is None,
                Key::Esc => r == OverlayEvent::Finished(None) && final(self).prompt().kind() is None,
                _ => r == OverlayEvent::Continue && final(self).prompt().kind() == old(
                    self,
                ).prompt().kind() && final(self).prompt().data() == typed(
                    old(self).prompt().data(),
                    key,
                ),
            },
    {
        let r = self.overlay.handle_key(key);
        match r {
            OverlayEvent::Finished(_) => {
                self.overlay = Overlay::inactive();
            },
            OverlayEvent::Continue => {},
        }
        r
    }
}

impl Window {
    /// Records that the buffer was written to `path`.
    pub fn mark_saved(&mut self, path: Vec<char>)
        requires
            old(self).wf(),
        ensures
            final(self).wf(),
            final(self).buf() == (BufferModel { dirty: false, ..old(self).buf() }),
            final(self).buf_path() == Some(path@),
            final(self).cursor_pos() == old(self).cursor_pos(),
            final(self).prompt() == old(self).prompt(),
    {
        self.buffer.mark_saved(path);
    }
}

impl Window {
    /// Associates the buffer shown with `path`.
    pub fn set_path(&mut self, path: Vec<char>)
        requires
            old(self).wf(),
        ensures
            final(self).wf(),
            final(self).buf() == old(self).buf(),
            final(self).buf_path() == Some(path@),
            final(self).cursor_pos() == old(self).cursor_pos(),
            final(self).prompt() == old(self).prompt(),
            final(self).rows() == old(self).rows(),
            final(self).cols() == old(self).cols(),
    {
        self.buffer.set_path(path);
    }

    /// The number of lines shown.
    pub fn height(&self) -> (r: usize)
        ensures
            r == self.rows(),
    {
        self.height
    }

    /// The number of columns shown.
    pub fn width(&self) -> (r: usize)
        ensures
            r == self.cols(),
    {
        self.width
    }
}

} // verus!
