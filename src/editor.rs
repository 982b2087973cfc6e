use vstd::prelude::*;
use crate::buffer::{
    Buffer, BufferModel, Mark, mark_pos, model_delete, model_has_room, model_insert, model_redo,
    model_undo, set_mark_in,
};
use crate::keyboard::{
    Key, chars_eq, chars_of, keys_of_names, lemma_default_key_lists, parse_keys, str_eq,
};
use crate::keymap::{KeyMap, KeyMapState, is_extended, lookup, step_state};
use crate::overlay::{OverlayEvent, OverlayType, typed};
use crate::textobject::{Kind, Offset, TextObject, object_range};
use crate::window::{Window, pos_down, pos_up};

verus! {

/// A named token that a completed key sequence produces, queued for the editor to act on.
#[derive(Copy, Clone, Debug)]
pub struct Event {
    name: &'static str,
}

impl Event {
    /// The name of the event.
    pub closed spec fn name_of(&self) -> Seq<char> {
        self.name@
    }

    /// An event named `name`.
    pub fn new(name: &'static str) -> (r: Event)
        ensures
            r.name_of() == name@,
    {
        Event { name: name }
    }

    /// The name of the event.
    pub fn get_name(&self) -> (r: &'static str)
        ensures
            r@ == self.name_of(),
    {
        self.name
    }
}

/// What the editor does for an event it knows.
#[derive(Clone, Copy, Debug, PartialEq, Eq, Structural)]
pub enum Action {
    Quit,
    Undo,
    Redo,
    Save,
    Newline,
    DeleteBackwards,
    DeleteForwards,
    MoveUp,
    MoveDown,
    MoveLeft,
    MoveRight,
}

/// The action an event name stands for, if the editor knows it.
pub open spec fn action_of(name: Seq<char>) -> Option<Action> {
    if name == "iota.quit"@ {
        Some(Action::Quit)
    } else if name == "iota.undo"@ {
        Some(Action::Undo)
    } else if name == "iota.redo"@ {
        Some(Action::Redo)
    } else if name == "iota.save"@ {
        Some(Action::Save)
    } else if name == "iota.newline"@ {
        Some(Action::Newline)
    } else if name == "iota.delete_backwards"@ {
        Some(Action::DeleteBackwards)
    } else if name == "iota.delete_forwards"@ {
        Some(Action::DeleteForwards)
    } else if name == "iota.move_up"@ {
        Some(Action::MoveUp)
    } else if name == "iota.move_down"@ {
        Some(Action::MoveDown)
    } else if name == "iota.move_left"@ {
        Some(Action::MoveLeft)
    } else if name == "iota.move_right"@ {
        Some(Action::MoveRight)
    } else {
        None
    }
}

impl Action {
    /// The action an event name stands for, if the editor knows it.
    pub fn from_name(name: &str) -> (r: Option<Action>)
        ensures
            r == action_of(name@),
    {
        if str_eq(name, "iota.quit") {
            Some(Action::Quit)
        } else if str_eq(name, "iota.undo") {
            Some(Action::Undo)
        } else if str_eq(name, "iota.redo") {
            Some(Action::Redo)
        } else if str_eq(name, "iota.save") {
            Some(Action::Save)
        } else if str_eq(name, "iota.newline") {
            Some(Action::Newline)
        } else if str_eq(name, "iota.delete_backwards") {
            Some(Action::DeleteBackwards)
        } else if str_eq(name, "iota.delete_forwards") {
            Some(Action::DeleteForwards)
        } else if str_eq(name, "iota.move_up") {
            Some(Action::MoveUp)
        } else if str_eq(name, "iota.move_down") {
            Some(Action::MoveDown)
        } else if str_eq(name, "iota.move_left") {
            Some(Action::MoveLeft)
        } else if str_eq(name, "iota.move_right") {
            Some(Action::MoveRight)
        } else {
            None
        }
    }
}

/// How keys that no binding matches are treated.
#[derive(Clone, Copy, Debug, PartialEq, Eq, Structural)]
pub enum ModeType {
    /// A printable key is inserted into the text.
    Insert,
    /// A printable key does nothing.
    Normal,
}

/// One event from the terminal.
#[derive(Clone, Copy, Debug, PartialEq, Eq, Structural)]
pub enum EditorEvent {
    KeyEvent(Option<Key>),
    Resize(usize, usize),
    Other,
}

/// The text object one character before (or after) the cursor.
pub open spec fn char_object(forward: bool) -> TextObject {
    TextObject {
        kind: Kind::Char,
        offset: if forward {
            Offset::Forward(1, Mark::Cursor(0))
        } else {
            Offset::Backward(1, Mark::Cursor(0))
        },
    }
}

/// What removing `obj` relative to the cursor does to a window.
pub open spec fn deleted(w0: Window, w1: Window, obj: TextObject) -> bool {
    match mark_pos(w0.buf().marks, Mark::Cursor(0)) {
        Some(f) => match object_range(w0.buf().text, w0.buf().marks, f, obj) {
            Some((a, b)) => w1.buf() == model_delete(w0.buf(), a, b),
            None => w1.buf() == w0.buf(),
        },
        None => w1.buf() == w0.buf(),
    }
}

/// The cursor of `w0` moved to `p` gives `w1`: text, history and the other marks stay.
pub open spec fn moved_to(w0: Window, w1: Window, p: nat) -> bool {
    &&& w1.cursor_pos() == p
    &&& w1.buf() == (BufferModel { marks: set_mark_in(w0.buf().marks, Mark::Cursor(0), p), ..w0.buf() })
}

/// What acting on event `e` does to a window: its action, or nothing for an unknown name.
pub open spec fn event_acted(e: Event, w0: Window, w1: Window) -> bool {
    match action_of(e.name_of()) {
        Some(a) => window_acted(a, w0, w1),
        None => w1 == w0,
    }
}

/// Acting on the events of `q` in order takes the window `w0` to `w1`.
pub open spec fn applied_in_order(q: Seq<Event>, w0: Window, w1: Window) -> bool {
    exists|ws: Seq<Window>|
        ws.len() == q.len() + 1 && ws[0] == w0 && ws[q.len() as int] == w1 && forall|j: int|
            0 <= j < q.len() ==> #[trigger] event_acted(q[j], ws[j], ws[j + 1])
}

/// With no events the window stays; with one, its action takes the window along.
pub proof fn lemma_applied_short(q: Seq<Event>, w0: Window, w1: Window)
    requires
        applied_in_order(q, w0, w1),
        q.len() <= 1,
    ensures
        q.len() == 0 ==> w1 == w0,
        q.len() == 1 ==> event_acted(q[0], w0, w1),
{
    let ws = choose|ws: Seq<Window>|
        ws.len() == q.len() + 1 && ws[0] == w0 && ws[q.len() as int] == w1 && forall|j: int|
            0 <= j < q.len() ==> #[trigger] event_acted(q[j], ws[j], ws[j + 1]);
    if q.len() == 1 {
        let j: int = 0;
        assert(0 <= j < q.len());
        assert(event_acted(q[j], ws[j], ws[j + 1]));
        assert(ws[j + 1] == w1);
    }
}

/// What action `a` does to a window.
pub open spec fn window_acted(a: Action, w0: Window, w1: Window) -> bool {
    match a {
        Action::Quit | Action::Save => w1 == w0,
        Action::Undo => {
            &&& w1.buf().text == model_undo(w0.buf()).text
            &&& w1.buf().undo == model_undo(w0.buf()).undo
            &&& w1.buf().redo == model_undo(w0.buf()).redo
            &&& mark_pos(model_undo(w0.buf()).marks, Mark::Cursor(0)) is Some ==> w1.buf()
                == model_undo(w0.buf())
        },
        Action::Redo => {
            &&& w1.buf().text == model_redo(w0.buf()).text
            &&& w1.buf().undo == model_redo(w0.buf()).undo
            &&& w1.buf().redo == model_redo(w0.buf()).redo
            &&& mark_pos(model_redo(w0.buf()).marks, Mark::Cursor(0)) is Some ==> w1.buf()
                == model_redo(w0.buf())
        },
        Action::Newline => if model_has_room(w0.buf(), 1) {
            w1.buf() == model_insert(w0.buf(), w0.cursor_pos(), seq!['\n']) && w1.cursor_pos()
                == w0.cursor_pos() + 1
        } else {
            w1.buf() == w0.buf()
        },
        Action::DeleteBackwards => deleted(w0, w1, char_object(false)),
        Action::DeleteForwards => deleted(w0, w1, char_object(true)),
        Action::MoveUp => moved_to(w0, w1, pos_up(w0.buf().text, w0.cursor_pos())),
        Action::MoveDown => moved_to(w0, w1, pos_down(w0.buf().text, w0.cursor_pos())),
        Action::MoveLeft => moved_to(
            w0,
            w1,
            if w0.cursor_pos() > 0 {
                (w0.cursor_pos() - 1) as nat
            } else {
                0
            },
        ),
        Action::MoveRight => moved_to(
            w0,
            w1,
            crate::buffer::min_nat(w0.cursor_pos() + 1, w0.buf().text.len()),
        ),
    }
}

/// Whether `b` binds the single key `k` to an event named `name`.
pub open spec fn binds(b: Seq<(Seq<Key>, Event)>, k: Key, name: Seq<char>) -> bool {
    lookup(b, seq![k]) matches Some(e) && e.name_of() == name
}

/// Whether `b` holds the default binding table.
pub open spec fn has_default_bindings(b: Seq<(Seq<Key>, Event)>) -> bool {
    &&& binds(b, Key::Up, "iota.move_up"@)
    &&& binds(b, Key::Down, "iota.move_down"@)
    &&& binds(b, Key::Left, "iota.move_left"@)
    &&& binds(b, Key::Right, "iota.move_right"@)
    &&& binds(b, Key::Ctrl('q'), "iota.quit"@)
    &&& binds(b, Key::Backspace, "iota.delete_backwards"@)
    &&& binds(b, Key::Delete, "iota.delete_forwards"@)
    &&& binds(b, Key::Enter, "iota.newline"@)
    &&& binds(b, Key::Ctrl('z'), "iota.undo"@)
    &&& binds(b, Key::Ctrl('r'), "iota.redo"@)
    &&& binds(b, Key::Ctrl('s'), "iota.save"@)
}

/// The keys of the default binding table.
pub open spec fn default_keys() -> Set<Key> {
    set![
        Key::Up,
        Key::Down,
        Key::Left,
        Key::Right,
        Key::Ctrl('q'),
        Key::Backspace,
        Key::Delete,
        Key::Enter,
        Key::Ctrl('z'),
        Key::Ctrl('r'),
        Key::Ctrl('s'),
    ]
}

/// Whether `s` is the sequence of one key of the default table.
pub open spec fn is_default_sequence(s: Seq<Key>) -> bool {
    s.len() == 1 && default_keys().contains(s[0])
}

/// Whether some event of `q` is a quit.
pub open spec fn has_quit(q: Seq<Event>) -> bool {
    exists|i: int| 0 <= i < q.len() && action_of((#[trigger] q[i]).name_of()) == Some(Action::Quit)
}

/// Whether some event of `q` is a save.
pub open spec fn has_save(q: Seq<Event>) -> bool {
    exists|i: int| 0 <= i < q.len() && action_of((#[trigger] q[i]).name_of()) == Some(Action::Save)
}

/// The top-level controller: the window, the key bindings, the input mode
/// and the queue of events waiting to be acted on.
pub struct Editor {
    window: Window,
    running: bool,
    mode: ModeType,
    events_queue: Vec<Event>,
    keymap: KeyMap<Event>,
    save_requested: bool,
    open_request: Option<Vec<char>>,
}

impl Editor {
    pub closed spec fn wf(&self) -> bool {
        self.window.wf() && self.keymap.wf()
    }

    /// The window.
    pub closed spec fn win(&self) -> Window {
        self.window
    }

    /// Whether the editor goes on.
    pub closed spec fn is_running(&self) -> bool {
        self.running
    }

    /// The input mode.
    pub closed spec fn mode_of(&self) -> ModeType {
        self.mode
    }

    /// The events waiting to be acted on, oldest first.
    pub closed spec fn queue(&self) -> Seq<Event> {
        self.events_queue@
    }

    /// The key matcher.
    pub closed spec fn keys(&self) -> KeyMap<Event> {
        self.keymap
    }

    /// Whether a save was asked for and not yet taken.
    pub closed spec fn wants_save(&self) -> bool {
        self.save_requested
    }

    /// The file asked for by the file prompt and not yet taken.
    pub closed spec fn wants_open(&self) -> Option<Seq<char>> {
        match self.open_request {
            Some(p) => Some(p@),
            None => None,
        }
    }

    /// An editor showing `buffer` in a window of `width` columns by `height`
    /// lines, running, in `mode`, with no bindings and no events.
    pub fn new(buffer: Buffer, mode: ModeType, width: usize, height: usize) -> (r: Editor)
        requires
            buffer.wf(),
        ensures
            r.wf(),
            r.is_running(),
            r.mode_of() == mode,
            r.queue().len() == 0,
            r.keys().bindings().len() == 0,
            r.keys().pending().len() == 0,
            !r.wants_save(),
            r.wants_open() is None,
            r.win().buf() == (BufferModel {
                marks: set_mark_in(buffer@.marks, Mark::Cursor(0), 0),
                ..buffer@
            }),
            r.win().buf_path() == buffer.path(),
            r.win().prompt().kind() is None,
            r.win().top() == 0,
            r.win().cursor_pos() == 0,
            r.win().rows() == height,
            r.win().cols() == width,
    {
        Editor {
            window: Window::new(buffer, width, height),
            running: true,
            mode,
            events_queue: Vec::new(),
            keymap: KeyMap::new(),
            save_requested: false,
            open_request: None,
        }
    }

    /// The window.
    pub fn window(&self) -> (r: &Window)
        ensures
            *r == self.win(),
    {
        &self.window
    }

    /// Whether the editor goes on.
    pub fn running(&self) -> (r: bool)
        ensures
            r == self.is_running(),
    {
        self.running
    }

    /// Records that the buffer was written to `path`.
    pub fn mark_saved(&mut self, path: Vec<char>)
        requires
            old(self).wf(),
        ensures
            final(self).wf(),
            final(self).win().buf_path() == Some(path@),
            final(self).win().buf().text == old(self).win().buf().text,
            !final(self).win().buf().dirty,
            final(self).is_running() == old(self).is_running(),
    {
        self.window.mark_saved(path);
    }

    /// Whether a save was asked for since the last call; the request is taken.
    pub fn take_save_request(&mut self) -> (r: bool)
        ensures
            r == old(self).wants_save(),
            !final(self).wants_save(),
            final(self).wf() == old(self).wf(),
            final(self).win() == old(self).win(),
            final(self).is_running() == old(self).is_running(),
    {
        let r = self.save_requested;
        self.save_requested = false;
        r
    }
}

impl Editor {
    /// Acts on one event.
    fn process_event(&mut self, event: Event)
        requires
            old(self).wf(),
        ensures
            final(self).wf(),
            final(self).queue() == old(self).queue(),
            final(self).keys() == old(self).keys(),
            final(self).mode_of() == old(self).mode_of(),
            final(self).is_running() == (old(self).is_running() && action_of(event.name_of())
                != Some(Action::Quit)),
            final(self).wants_save() == (old(self).wants_save() || action_of(event.name_of())
                == Some(Action::Save)),
            final(self).wants_open() == old(self).wants_open(),
            event_acted(event, old(self).win(), final(self).win()),
    {
        proof {
            self.window.lemma_cursor_mark();
        }
        match Action::from_name(event.get_name()) {
            Some(Action::Quit) => {
                self.running = false;
            },
            Some(Action::Undo) => {
                self.window.undo();
            },
            Some(Action::Redo) => {
                self.window.redo();
            },
            Some(Action::Save) => {
                self.save_requested = true;
            },
            Some(Action::Newline) => {
                self.window.insert_char('\n');
            },
            Some(Action::DeleteBackwards) => {
                self.window.delete_from_mark_to_object(
                    Mark::Cursor(0),
                    TextObject { kind: Kind::Char, offset: Offset::Backward(1, Mark::Cursor(0)) },
                );
            },
            Some(Action::DeleteForwards) => {
                self.window.delete_from_mark_to_object(
                    Mark::Cursor(0),
                    TextObject { kind: Kind::Char, offset: Offset::Forward(1, Mark::Cursor(0)) },
                );
            },
            Some(Action::MoveUp) => {
                self.window.move_up();
            },
            Some(Action::MoveDown) => {
                self.window.move_down();
            },
            Some(Action::MoveLeft) => {
                self.window.move_left();
            },
            Some(Action::MoveRight) => {
                self.window.move_right();
            },
            None => {},
        }
    }

    /// Queues an event to be acted on.
    fn fire_event(&mut self, event: Event)
        ensures
            final(self).queue() == old(self).queue().push(event),
            final(self).window == old(self).window,
            final(self).keymap == old(self).keymap,
            final(self).running == old(self).running,
            final(self).mode == old(self).mode,
            final(self).save_requested == old(self).save_requested,
            final(self).open_request == old(self).open_request,
    {
        self.events_queue.push(event);
    }

    /// Acts on every queued event, oldest first, and empties the queue.
    fn run_events(&mut self)
        requires
            old(self).wf(),
        ensures
            final(self).wf(),
            final(self).queue().len() == 0,
            final(self).keys() == old(self).keys(),
            final(self).mode_of() == old(self).mode_of(),
            final(self).is_running() == (old(self).is_running() && !has_quit(old(self).queue())),
            final(self).wants_save() == (old(self).wants_save() || has_save(old(self).queue())),
            final(self).wants_open() == old(self).wants_open(),
            applied_in_order(old(self).queue(), old(self).win(), final(self).win()),
    {
        let ghost q = self.events_queue@;
        let ghost mut ws: Seq<Window> = seq![self.window];
        let mut queue: Vec<Event> = Vec::new();
        std::mem::swap(&mut queue, &mut self.events_queue);
        assert(queue@ == q);
        let mut i: usize = 0;
        while i < queue.len()
            invariant
                self.wf(),
                queue@ == q,
                i <= q.len(),
                self.events_queue@.len() == 0,
                self.keymap == old(self).keymap,
                self.mode == old(self).mode,
                self.running == (old(self).running && !has_quit(q.take(i as int))),
                self.save_requested == (old(self).save_requested || has_save(q.take(i as int))),
                self.wants_open() == old(self).wants_open(),
                ws.len() == i + 1,
                ws[0] == old(self).window,
                ws[i as int] == self.window,
                forall|j: int| 0 <= j < i ==> #[trigger] event_acted(q[j], ws[j], ws[j + 1]),
            decreases q.len() - i,
        {
            let e = queue[i];
            self.process_event(e);
            proof {
                assert(q.take(i as int + 1) =~= q.take(i as int).push(e));
                lemma_has_quit_push(q.take(i as int), e);
                let ws0 = ws;
                ws = ws.push(self.window);
                assert forall|j: int| 0 <= j < i + 1 implies #[trigger] event_acted(
                    q[j],
                    ws[j],
                    ws[j + 1],
                ) by {
                    if j < i {
                        assert(event_acted(q[j], ws0[j], ws0[j + 1]));
                    }
                }
            }
            i = i + 1;
        }
        assert(q.take(i as int) =~= q);
        assert(ws.len() == q.len() + 1 && ws[0] == old(self).window && ws[q.len() as int]
            == self.window);
    }
}

/// The action a command typed into the command line stands for.
pub open spec fn prompt_action(d: Seq<char>) -> Option<Action> {
    if d == "q"@ || d == "quit"@ {
        Some(Action::Quit)
    } else if d == "w"@ || d == "write"@ {
        Some(Action::Save)
    } else {
        None
    }
}

/// The action that finishing a prompt of type `t` holding `data` with key `k` stands for:
/// a known command of the command line, or a save from the save prompt.
pub open spec fn prompt_outcome(t: OverlayType, data: Seq<char>, k: Key) -> Option<Action> {
    if k != Key::Enter {
        None
    } else {
        match t {
            OverlayType::Prompt => prompt_action(data),
            OverlayType::SavePrompt => Some(Action::Save),
            OverlayType::SelectFile => None,
        }
    }
}

/// The action of the event that feeding `k` to the editor `ed` queues, if one is queued
/// and its name is known.
pub open spec fn key_action(ed: Editor, k: Key) -> Option<Action> {
    match ed.win().prompt().kind() {
        Some(t) => prompt_outcome(t, ed.win().prompt().data(), k),
        None => match step_state(ed.keys().bindings(), ed.keys().pending().push(k)) {
            KeyMapState::Match(e) => action_of(e.name_of()),
            _ => None,
        },
    }
}

/// Whether feeding `k` to the editor `ed` produces a quit event.
pub open spec fn key_quits(ed: Editor, k: Key) -> bool {
    key_action(ed, k) == Some(Action::Quit)
}

/// Whether feeding `k` to the editor `ed` produces a save event.
pub open spec fn key_saves(ed: Editor, k: Key) -> bool {
    key_action(ed, k) == Some(Action::Save)
}

/// What a key that the matcher does not know does to the window in mode `mode`:
/// a character is inserted in insert mode, where there is room; otherwise nothing.
pub open spec fn fallback(mode: ModeType, k: Key, w0: Window, w1: Window) -> bool {
    match k {
        Key::Char(c) => if mode != ModeType::Insert {
            w1 == w0
        } else if model_has_room(w0.buf(), 1) {
            &&& w1.buf() == model_insert(w0.buf(), w0.cursor_pos(), seq![c])
            &&& w1.cursor_pos() == w0.cursor_pos() + 1
            &&& w1.buf_path() == w0.buf_path()
            &&& w1.prompt() == w0.prompt()
        } else {
            &&& w1.buf() == w0.buf()
            &&& w1.buf_path() == w0.buf_path()
            &&& w1.prompt() == w0.prompt()
        },
        _ => w1 == w0,
    }
}

pub proof fn lemma_has_quit_push(q: Seq<Event>, e: Event)
    ensures
        has_quit(q.push(e)) == (has_quit(q) || action_of(e.name_of()) == Some(Action::Quit)),
        has_save(q.push(e)) == (has_save(q) || action_of(e.name_of()) == Some(Action::Save)),
{
    let q1 = q.push(e);
    assert(q1[q.len() as int] == e);
    if has_quit(q) {
        let k = choose|k: int| 0 <= k < q.len() && action_of((#[trigger] q[k]).name_of()) == Some(Action::Quit);
        assert(q1[k] == q[k]);
    }
    if has_quit(q1) {
        let k = choose|k: int| 0 <= k < q1.len() && action_of((#[trigger] q1[k]).name_of()) == Some(Action::Quit);
        if k < q.len() {
            assert(q1[k] == q[k]);
        }
    }
    if has_save(q) {
        let k = choose|k: int| 0 <= k < q.len() && action_of((#[trigger] q[k]).name_of()) == Some(Action::Save);
        assert(q1[k] == q[k]);
    }
    if has_save(q1) {
        let k = choose|k: int| 0 <= k < q1.len() && action_of((#[trigger] q1[k]).name_of()) == Some(Action::Save);
        if k < q.len() {
            assert(q1[k] == q[k]);
        }
    }
}

/// The action a command line text stands for.
fn command_of(d: &Vec<char>) -> (r: Option<Action>)
    ensures
        r == prompt_action(d@),
{
    if chars_eq(d, &chars_of("q")) || chars_eq(d, &chars_of("quit")) {
        Some(Action::Quit)
    } else if chars_eq(d, &chars_of("w")) || chars_eq(d, &chars_of("write")) {
        Some(Action::Save)
    } else {
        None
    }
}

impl Editor {
    /// Handles one key: an open prompt takes it; otherwise the key matcher
    /// does, and a key that matches nothing is inserted in insert mode.
    fn handle_key_event(&mut self, key: Option<Key>)
        requires
            old(self).wf(),
        ensures
            final(self).wf(),
            final(self).mode_of() == old(self).mode_of(),
            final(self).is_running() == old(self).is_running(),
            final(self).wants_save() == old(self).wants_save(),
            final(self).keys().bindings() == old(self).keys().bindings(),
            key matches Some(k) ==> {
                &&& has_quit(final(self).queue()) == (has_quit(old(self).queue()) || key_quits(
                    *old(self),
                    k,
                ))
                &&& has_save(final(self).queue()) == (has_save(old(self).queue()) || key_saves(
                    *old(self),
                    k,
                ))
            },
            key is None ==> {
                &&& final(self).queue() == old(self).queue()
                &&& final(self).win() == old(self).win()
                &&& final(self).keys() == old(self).keys()
                &&& final(self).wants_open() == old(self).wants_open()
            },
            key matches Some(k) ==> old(self).win().prompt().kind() matches Some(t) ==> {
                &&& final(self).keys() == old(self).keys()
                &&& match prompt_outcome(t, old(self).win().prompt().data(), k) {
                    Some(a) => {
                        &&& final(self).queue().len() == old(self).queue().len() + 1
                        &&& final(self).queue().drop_last() == old(self).queue()
                        &&& action_of(final(self).queue().last().name_of()) == Some(a)
                    },
                    None => final(self).queue() == old(self).queue(),
                }
                &&& final(self).win().buf() == old(self).win().buf()
                &&& final(self).win().cursor_pos() == old(self).win().cursor_pos()
                &&& (k == Key::Enter || k == Key::Esc) ==> final(self).win().prompt().kind() is None
                &&& !(k == Key::Enter || k == Key::Esc) ==> {
                    &&& final(self).win().prompt().kind() == Some(t)
                    &&& final(self).win().prompt().data() == typed(old(self).win().prompt().data(), k)
                }
                &&& final(self).win().buf_path() == if k == Key::Enter && t
                    == OverlayType::SavePrompt {
                    Some(old(self).win().prompt().data())
                } else {
                    old(self).win().buf_path()
                }
                &&& final(self).wants_open() == if k == Key::Enter && t == OverlayType::SelectFile {
                    Some(old(self).win().prompt().data())
                } else {
                    old(self).wants_open()
                }
            },
            key matches Some(k) ==> old(self).win().prompt().kind() is None ==> {
                let st = step_state(old(self).keys().bindings(), old(self).keys().pending().push(k));
                &&& final(self).keys().pending() == if st is Continue {
                    old(self).keys().pending().push(k)
                } else {
                    Seq::<Key>::empty()
                }
                &&& final(self).wants_open() == old(self).wants_open()
                &&& match st {
                    KeyMapState::Match(e) => {
                        &&& final(self).queue() == old(self).queue().push(e)
                        &&& final(self).win() == old(self).win()
                    },
                    KeyMapState::Continue => {
                        &&& final(self).queue() == old(self).queue()
                        &&& final(self).win() == old(self).win()
                    },
                    KeyMapState::NoMatch => {
                        &&& final(self).queue() == old(self).queue()
                        &&& fallback(old(self).mode_of(), k, old(self).win(), final(self).win())
                    },
                }
            },
    {
        let k = match key {
            Some(k) => k,
            None => {
                return ;
            },
        };
        let ghost q0 = self.events_queue@;
        if self.window.overlay_type().is_some() {
            let kind = self.window.overlay_type();
            let r = self.window.handle_overlay_key(k);
            match r {
                OverlayEvent::Finished(Some(d)) => {
                    match kind {
                        Some(OverlayType::Prompt) => {
                            match command_of(&d) {
                                Some(Action::Quit) => {
                                    let e = Event::new("iota.quit");
                                    self.fire_event(e);
                                    proof {
                                        lemma_has_quit_push(q0, e);
                                    }
                                },
                                Some(_) => {
                                    let e = Event::new("iota.save");
                                    self.fire_event(e);
                                    proof {
                                        lemma_save_name();
                                        lemma_has_quit_push(q0, e);
                                    }
                                },
                                None => {},
                            }
                        },
                        Some(OverlayType::SavePrompt) => {
                            self.window.set_path(d);
                            let e = Event::new("iota.save");
                            self.fire_event(e);
                            proof {
                                lemma_save_name();
                                lemma_has_quit_push(q0, e);
                            }
                        },
                        _ => {
                            self.open_request = Some(d);
                        },
                    }
                },
                _ => {},
            }
            return ;
        }
        match self.keymap.check_key(k) {
            KeyMapState::Match(e) => {
                self.fire_event(e);
                proof {
                    lemma_has_quit_push(q0, e);
                }
            },
            KeyMapState::Continue => {},
            KeyMapState::NoMatch => {
                match k {
                    Key::Char(c) => {
                        if self.mode == ModeType::Insert {
                            self.window.insert_char(c);
                        }
                    },
                    _ => {},
                }
            },
        }
    }

    /// Takes the file asked for by the file prompt, if any.
    pub fn take_open_request(&mut self) -> (r: Option<Vec<char>>)
        ensures
            match r {
                Some(p) => old(self).wants_open() == Some(p@),
                None => old(self).wants_open() is None,
            },
            final(self).wants_open() is None,
            final(self).wf() == old(self).wf(),
            final(self).win() == old(self).win(),
            final(self).is_running() == old(self).is_running(),
            final(self).queue() == old(self).queue(),
            final(self).keys() == old(self).keys(),
    {
        let mut r: Option<Vec<char>> = None;
        std::mem::swap(&mut r, &mut self.open_request);
        r
    }

    /// Shows `buffer` in a fresh window of the same size, with the cursor at its start.
    pub fn open_buffer(&mut self, buffer: Buffer)
        requires
            old(self).wf(),
            buffer.wf(),
        ensures
            final(self).wf(),
            final(self).win().buf() == (BufferModel {
                marks: set_mark_in(buffer@.marks, Mark::Cursor(0), 0),
                ..buffer@
            }),
            final(self).win().buf_path() == buffer.path(),
            final(self).win().cursor_pos() == 0,
            final(self).win().rows() == old(self).win().rows(),
            final(self).win().cols() == old(self).win().cols(),
            final(self).is_running() == old(self).is_running(),
            final(self).queue() == old(self).queue(),
            final(self).keys() == old(self).keys(),
    {
        let w = self.window.width();
        let h = self.window.height();
        self.window = Window::new(buffer, w, h);
    }
}

impl Editor {
    /// Takes the new size of the terminal.
    fn handle_resize_event(&mut self, width: usize, height: usize)
        requires
            old(self).wf(),
        ensures
            final(self).wf(),
            final(self).win().buf() == old(self).win().buf(),
            final(self).win().cursor_pos() == old(self).win().cursor_pos(),
            final(self).win().cols() == width,
            final(self).win().rows() == height,
            final(self).queue() == old(self).queue(),
            final(self).keys() == old(self).keys(),
            final(self).mode_of() == old(self).mode_of(),
            final(self).is_running() == old(self).is_running(),
            final(self).wants_save() == old(self).wants_save(),
            final(self).wants_open() == old(self).wants_open(),
    {
        self.window.resize(width, height);
    }

    /// One turn of the main loop after the terminal gave `ev`: dispatches
    /// it, then acts on every queued event in order. A quit among them stops
    /// the editor, and the loop then draws no more.
    pub fn handle_event(&mut self, ev: EditorEvent)
        requires
            old(self).wf(),
        ensures
            final(self).wf(),
            final(self).queue().len() == 0,
            final(self).mode_of() == old(self).mode_of(),
            final(self).keys().bindings() == old(self).keys().bindings(),
            final(self).is_running() == (old(self).is_running() && !(has_quit(old(self).queue())
                || (ev matches EditorEvent::KeyEvent(Some(k)) && key_quits(*old(self), k)))),
            final(self).wants_save() == (old(self).wants_save() || has_save(old(self).queue()) || (
            ev matches EditorEvent::KeyEvent(Some(k)) && key_saves(*old(self), k))),
            final(self).wants_open() == (match ev {
                EditorEvent::KeyEvent(Some(k)) => if k == Key::Enter && old(self).win().prompt().kind()
                    == Some(OverlayType::SelectFile) {
                    Some(old(self).win().prompt().data())
                } else {
                    old(self).wants_open()
                },
                _ => old(self).wants_open(),
            }),
            ev matches EditorEvent::KeyEvent(Some(k)) ==> old(self).win().prompt().kind() is None
                ==> final(self).keys().pending() == if step_state(
                old(self).keys().bindings(),
                old(self).keys().pending().push(k),
            ) is Continue {
                old(self).keys().pending().push(k)
            } else {
                Seq::<Key>::empty()
            },
            old(self).queue().len() == 0 ==> match ev {
                EditorEvent::KeyEvent(Some(k)) => match old(self).win().prompt().kind() {
                    Some(t) => {
                        &&& final(self).win().buf() == old(self).win().buf()
                        &&& final(self).win().cursor_pos() == old(self).win().cursor_pos()
                        &&& (k == Key::Enter || k == Key::Esc) ==> final(self).win().prompt().kind()
                            is None
                        &&& !(k == Key::Enter || k == Key::Esc) ==> {
                            &&& final(self).win().prompt().kind() == Some(t)
                            &&& final(self).win().prompt().data() == typed(
                                old(self).win().prompt().data(),
                                k,
                            )
                        }
                        &&& final(self).keys() == old(self).keys()
                    },
                    None => match step_state(
                        old(self).keys().bindings(),
                        old(self).keys().pending().push(k),
                    ) {
                        KeyMapState::Match(e) => event_acted(e, old(self).win(), final(self).win()),
                        KeyMapState::Continue => final(self).win() == old(self).win(),
                        KeyMapState::NoMatch => fallback(
                            old(self).mode_of(),
                            k,
                            old(self).win(),
                            final(self).win(),
                        ),
                    },
                },
                EditorEvent::KeyEvent(None) => final(self).win() == old(self).win(),
                EditorEvent::Resize(w, h) => {
                    &&& final(self).win().rows() == h
                    &&& final(self).win().cols() == w
                    &&& final(self).win().buf() == old(self).win().buf()
                    &&& final(self).win().cursor_pos() == old(self).win().cursor_pos()
                },
                EditorEvent::Other => final(self).win() == old(self).win(),
            },
    {
        let ghost mid = *self;
        match ev {
            EditorEvent::KeyEvent(key) => self.handle_key_event(key),
            EditorEvent::Resize(width, height) => self.handle_resize_event(width, height),
            EditorEvent::Other => {},
        }
        proof {
            mid = *self;
        }
        self.run_events();
        proof {
            if old(self).queue().len() == 0 {
                lemma_applied_short(mid.queue(), mid.win(), self.win());
                if mid.queue().len() == 1 {
                    let e = mid.queue()[0];
                    if old(self).win().prompt().kind() is Some {
                        lemma_default_events_known();
                        assert(action_of(e.name_of()) is Some);
                    }
                }
            }
        }
    }

    /// Binds the space-separated key names of `key_str` to the event named
    /// `event`, replacing an earlier binding of the same keys. A list that
    /// holds a name that denotes no key is ignored.
    pub fn bind_keys(&mut self, key_str: &str, event: &'static str)
        requires
            old(self).wf(),
        ensures
            final(self).wf(),
            final(self).win() == old(self).win(),
            final(self).queue() == old(self).queue(),
            final(self).mode_of() == old(self).mode_of(),
            final(self).is_running() == old(self).is_running(),
            final(self).wants_save() == old(self).wants_save(),
            final(self).keys().pending() == old(self).keys().pending(),
            match keys_of_names(key_str@) {
                Some(ks) => {
                    &&& lookup(final(self).keys().bindings(), ks) matches Some(e) && e.name_of()
                        == event@
                    &&& forall|s: Seq<Key>|
                        s != ks ==> #[trigger] lookup(final(self).keys().bindings(), s) == lookup(
                            old(self).keys().bindings(),
                            s,
                        )
                    &&& forall|s: Seq<Key>|
                        #[trigger] is_extended(final(self).keys().bindings(), s) == (is_extended(
                            old(self).keys().bindings(),
                            s,
                        ) || (ks.len() > s.len() && ks.take(s.len() as int) == s))
                },
                None => final(self).keys() == old(self).keys(),
            },
    {
        match parse_keys(key_str) {
            Some(keys) => {
                let e = Event::new(event);
                self.keymap.bind_keys(&keys, e);
                assert(lookup(self.keymap.bindings(), keys@) == Some(e));
            },
            None => {},
        }
    }

    /// Binds the default keys.
    fn register_key_bindings(&mut self)
        requires
            old(self).wf(),
        ensures
            final(self).wf(),
            has_default_bindings(final(self).keys().bindings()),
            forall|s: Seq<Key>|
                !is_default_sequence(s) ==> #[trigger] lookup(final(self).keys().bindings(), s)
                    == lookup(old(self).keys().bindings(), s),
            forall|s: Seq<Key>|
                #[trigger] is_extended(final(self).keys().bindings(), s) == (is_extended(
                    old(self).keys().bindings(),
                    s,
                ) || s.len() == 0),
            final(self).win() == old(self).win(),
            final(self).queue() == old(self).queue(),
            final(self).mode_of() == old(self).mode_of(),
            final(self).is_running() == old(self).is_running(),
            final(self).wants_save() == old(self).wants_save(),
            final(self).keys().pending() == old(self).keys().pending(),
    {
        proof {
            lemma_default_key_lists();
            assert forall|a: Key, b: Key| a != b implies seq![a] != seq![b] by {
                assert(seq![a][0] == a);
                assert(seq![b][0] == b);
            }
            assert forall|a: Key, s: Seq<Key>|
                (seq![a].len() > s.len() && #[trigger] seq![a].take(s.len() as int) == s) <==> s.len()
                    == 0 by {
                if s.len() == 0 {
                    assert(seq![a].take(0) =~= s);
                }
            }
        }
        self.bind_keys("up", "iota.move_up");
        self.bind_keys("down", "iota.move_down");
        self.bind_keys("left", "iota.move_left");
        self.bind_keys("right", "iota.move_right");
        self.bind_keys("ctrl-q", "iota.quit");
        self.bind_keys("backspace", "iota.delete_backwards");
        self.bind_keys("delete", "iota.delete_forwards");
        self.bind_keys("enter", "iota.newline");
        self.bind_keys("ctrl-z", "iota.undo");
        self.bind_keys("ctrl-r", "iota.redo");
        self.bind_keys("ctrl-s", "iota.save");
    }

    /// Makes the editor ready for its main loop: the default keys are bound.
    /// The loop itself (draw, wait for the terminal, `handle_event`) runs
    /// while `running` holds, around the library.
    pub fn start(&mut self)
        requires
            old(self).wf(),
        ensures
            final(self).wf(),
            has_default_bindings(final(self).keys().bindings()),
            forall|s: Seq<Key>|
                !is_default_sequence(s) ==> #[trigger] lookup(final(self).keys().bindings(), s)
                    == lookup(old(self).keys().bindings(), s),
            forall|s: Seq<Key>|
                #[trigger] is_extended(final(self).keys().bindings(), s) == (is_extended(
                    old(self).keys().bindings(),
                    s,
                ) || s.len() == 0),
            final(self).win() == old(self).win(),
            final(self).queue() == old(self).queue(),
            final(self).mode_of() == old(self).mode_of(),
            final(self).is_running() == old(self).is_running(),
            final(self).keys().pending() == old(self).keys().pending(),
    {
        self.register_key_bindings();
    }
}

impl Editor {
    /// Opens a prompt of type `t` in the window; keys then go to it.
    pub fn set_overlay(&mut self, t: OverlayType)
        requires
            old(self).wf(),
        ensures
            final(self).wf(),
            final(self).win().buf() == old(self).win().buf(),
            final(self).win().prompt().kind() == Some(t),
            final(self).win().prompt().data().len() == 0,
            final(self).queue() == old(self).queue(),
            final(self).keys() == old(self).keys(),
            final(self).is_running() == old(self).is_running(),
    {
        self.window.set_overlay(t);
    }
}

/// Where the quit key is bound to the quit event and begins no longer bound
/// sequence, no keys are pending and no prompt is open, the quit key yields a
/// quit: by the contract of `handle_event`, the turn of the main loop that
/// receives it stops the editor, and the loop draws no more.
pub proof fn lemma_quit_key_stops(ed: Editor)
    requires
        binds(ed.keys().bindings(), Key::Ctrl('q'), "iota.quit"@),
        !is_extended(ed.keys().bindings(), seq![Key::Ctrl('q')]),
        ed.keys().pending().len() == 0,
        ed.win().prompt().kind() is None,
    ensures
        key_quits(ed, Key::Ctrl('q')),
{
    assert(ed.keys().pending().push(Key::Ctrl('q')) =~= seq![Key::Ctrl('q')]);
}

/// Every event of the default binding table names an action the editor knows.
pub proof fn lemma_default_events_known()
    ensures
        action_of("iota.move_up"@) == Some(Action::MoveUp),
        action_of("iota.move_down"@) == Some(Action::MoveDown),
        action_of("iota.move_left"@) == Some(Action::MoveLeft),
        action_of("iota.move_right"@) == Some(Action::MoveRight),
        action_of("iota.quit"@) == Some(Action::Quit),
        action_of("iota.delete_backwards"@) == Some(Action::DeleteBackwards),
        action_of("iota.delete_forwards"@) == Some(Action::DeleteForwards),
        action_of("iota.newline"@) == Some(Action::Newline),
        action_of("iota.undo"@) == Some(Action::Undo),
        action_of("iota.redo"@) == Some(Action::Redo),
        action_of("iota.save"@) == Some(Action::Save),
{
    reveal_strlit("iota.move_up");
    reveal_strlit("iota.move_down");
    reveal_strlit("iota.move_left");
    reveal_strlit("iota.move_right");
    reveal_strlit("iota.quit");
    reveal_strlit("iota.delete_backwards");
    reveal_strlit("iota.delete_forwards");
    reveal_strlit("iota.newline");
    reveal_strlit("iota.undo");
    reveal_strlit("iota.redo");
    reveal_strlit("iota.save");
    assert("iota.quit"@.len() == 9 && "iota.undo"@.len() == 9);
    assert("iota.redo"@.len() == 9 && "iota.save"@.len() == 9);
    assert("iota.newline"@.len() == 12 && "iota.move_up"@.len() == 12);
    assert("iota.delete_backwards"@.len() == 21 && "iota.delete_forwards"@.len() == 20);
    assert("iota.move_down"@.len() == 14 && "iota.move_left"@.len() == 14);
    assert("iota.move_right"@.len() == 15);
    assert("iota.quit"@[5] == 'q' && "iota.undo"@[5] == 'u');
    assert("iota.redo"@[5] == 'r' && "iota.save"@[5] == 's');
    assert("iota.newline"@[5] == 'n' && "iota.move_up"@[5] == 'm');
    assert("iota.move_down"@[10] == 'd' && "iota.move_left"@[10] == 'l');
}

/// The save event's name stands for the save action.
pub proof fn lemma_save_name()
    ensures
        action_of("iota.save"@) == Some(Action::Save),
{
    lemma_default_events_known();
}

} // verus!
