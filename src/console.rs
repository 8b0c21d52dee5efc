//! The interactive console's state and its response to each key: which
//! entry is selected, what is being typed, and which supervisor operation
//! the key asks for. Drawing and the terminal stay with the runner.

use vstd::prelude::*;
use crate::text::{split_whitespace, split_words, string_of, strings_view};

verus! {

/// Whether keys move through the list or type a command.
#[derive(Clone, Copy, Debug, PartialEq, Eq, Structural)]
pub enum Mode {
    Navigate,
    Input,
}

/// A key press, as far as the console tells keys apart.
#[derive(Clone, Copy, Debug, PartialEq, Eq, Structural)]
pub enum Key {
    Enter,
    Esc,
    Backspace,
    Char(char),
    Other,
}

/// A typed command that waits for its display name.
pub struct PendingLaunch {
    pub script_args: Vec<String>,
    pub timeout_ms: Option<u64>,
    pub working_dir: String,
}

pub struct PendingView {
    pub script_args: Seq<Seq<char>>,
    pub timeout_ms: Option<u64>,
    pub working_dir: Seq<char>,
}

impl View for PendingLaunch {
    type V = PendingView;

    open spec fn view(&self) -> PendingView {
        PendingView {
            script_args: strings_view(self.script_args@),
            timeout_ms: self.timeout_ms,
            working_dir: self.working_dir@,
        }
    }
}

/// What a key asks the runner to do. Positions refer to the list of
/// entries on display.
pub enum Action {
    Nothing,
    Quit,
    /// Launch the command under the given display name, or under its own.
    Launch(PendingLaunch, Option<String>),
    /// Stop the entry, if it is running.
    Kill(usize),
    /// Delete the entry's log file.
    ClearLog(usize),
    /// Stop the entry if running and launch its command again.
    Restart(usize),
    /// Stop the entry if running and delete it with its log file.
    Remove(usize),
}

pub enum ActionView {
    Nothing,
    Quit,
    Launch(PendingView, Option<Seq<char>>),
    Kill(usize),
    ClearLog(usize),
    Restart(usize),
    Remove(usize),
}

impl View for Action {
    type V = ActionView;

    open spec fn view(&self) -> ActionView {
        match self {
            Action::Nothing => ActionView::Nothing,
            Action::Quit => ActionView::Quit,
            Action::Launch(p, n) => ActionView::Launch(
                p@,
                match n {
                    Some(s) => Some(s@),
                    None => None,
                },
            ),
            Action::Kill(i) => ActionView::Kill(*i),
            Action::ClearLog(i) => ActionView::ClearLog(*i),
            Action::Restart(i) => ActionView::Restart(*i),
            Action::Remove(i) => ActionView::Remove(*i),
        }
    }
}

/// The console between keys.
pub struct ConsoleState {
    pub selected_index: usize,
    pub mode: Mode,
    pub input_buffer: Vec<char>,
    pub error_message: String,
    pub is_paused: bool,
    pub name_input_mode: bool,
    pub pending_launch: Option<PendingLaunch>,
}

pub struct ConsoleView {
    pub selected_index: usize,
    pub mode: Mode,
    pub input: Seq<char>,
    pub error_message: Seq<char>,
    pub is_paused: bool,
    pub name_input_mode: bool,
    pub pending: Option<PendingView>,
}

impl View for ConsoleState {
    type V = ConsoleView;

    open spec fn view(&self) -> ConsoleView {
        ConsoleView {
            selected_index: self.selected_index,
            mode: self.mode,
            input: self.input_buffer@,
            error_message: self.error_message@,
            is_paused: self.is_paused,
            name_input_mode: self.name_input_mode,
            pending: match self.pending_launch {
                Some(p) => Some(p@),
                None => None,
            },
        }
    }
}

/// The typed text after a key that edits it.
pub open spec fn edited(input: Seq<char>, key: Key) -> Seq<char> {
    match key {
        Key::Backspace => if input.len() > 0 {
            input.drop_last()
        } else {
            input
        },
        Key::Char(c) => input.push(c),
        _ => input,
    }
}

/// A key while a display name is typed.
pub open spec fn name_step(v: ConsoleView, key: Key) -> (ConsoleView, ActionView) {
    match key {
        Key::Enter => {
            let a = match v.pending {
                Some(p) => ActionView::Launch(p, if v.input.len() > 0 { Some(v.input) } else { None }),
                None => ActionView::Nothing,
            };
            (
                ConsoleView { name_input_mode: false, input: seq![], mode: Mode::Navigate, pending: None, ..v },
                a,
            )
        },
        Key::Esc => (
            ConsoleView { name_input_mode: false, input: seq![], mode: Mode::Navigate, pending: None, ..v },
            ActionView::Nothing,
        ),
        _ => (ConsoleView { input: edited(v.input, key), ..v }, ActionView::Nothing),
    }
}

/// A key while a command is typed.
pub open spec fn input_step(v: ConsoleView, key: Key, working_dir: Seq<char>) -> (ConsoleView, ActionView) {
    match key {
        Key::Enter => if v.input.len() > 0 {
            (
                ConsoleView {
                    pending: Some(
                        PendingView { script_args: split_words(v.input), timeout_ms: None, working_dir },
                    ),
                    name_input_mode: true,
                    input: seq![],
                    ..v
                },
                ActionView::Nothing,
            )
        } else {
            (ConsoleView { mode: Mode::Navigate, ..v }, ActionView::Nothing)
        },
        Key::Esc => (ConsoleView { mode: Mode::Navigate, input: seq![], ..v }, ActionView::Nothing),
        _ => (ConsoleView { input: edited(v.input, key), ..v }, ActionView::Nothing),
    }
}

/// A key while moving through a list of `n` entries.
pub open spec fn navigate_step(v: ConsoleView, key: Key, n: usize) -> (ConsoleView, ActionView) {
    let sel = v.selected_index;
    if v.is_paused {
        if key == Key::Char('p') {
            (ConsoleView { is_paused: false, ..v }, ActionView::Nothing)
        } else {
            (v, ActionView::Nothing)
        }
    } else {
        match key {
            Key::Char('q') => (v, ActionView::Quit),
            Key::Char('p') => (ConsoleView { is_paused: true, ..v }, ActionView::Nothing),
            Key::Char('j') => if n > 0 {
                (ConsoleView { selected_index: if sel + 1 < n { (sel + 1) as usize } else { (n - 1) as usize }, ..v }, ActionView::Nothing)
            } else {
                (v, ActionView::Nothing)
            },
            Key::Char('k') => if sel > 0 {
                (ConsoleView { selected_index: (sel - 1) as usize, ..v }, ActionView::Nothing)
            } else {
                (v, ActionView::Nothing)
            },
            Key::Char('o') => (ConsoleView { mode: Mode::Input, input: seq![], ..v }, ActionView::Nothing),
            Key::Char('x') => (v, if sel < n { ActionView::Kill(sel) } else { ActionView::Nothing }),
            Key::Char('c') => (v, if sel < n { ActionView::ClearLog(sel) } else { ActionView::Nothing }),
            Key::Char('R') => if sel < n {
                (ConsoleView { selected_index: 0, ..v }, ActionView::Restart(sel))
            } else {
                (v, ActionView::Nothing)
            },
            Key::Char('X') => if sel < n {
                (ConsoleView { selected_index: if sel > 0 { (sel - 1) as usize } else { 0 }, ..v }, ActionView::Remove(sel))
            } else {
                (v, ActionView::Nothing)
            },
            _ => (v, ActionView::Nothing),
        }
    }
}

/// The console after `key`, with `n` entries on display and `working_dir`
/// as the directory that a typed command runs in. Every key first clears
/// the message on display.
pub open spec fn console_step(v: ConsoleView, key: Key, n: usize, working_dir: Seq<char>) -> (ConsoleView, ActionView) {
    let w = ConsoleView { error_message: seq![], ..v };
    if w.name_input_mode {
        name_step(w, key)
    } else if w.mode == Mode::Input {
        input_step(w, key, working_dir)
    } else {
        navigate_step(w, key, n)
    }
}

impl ConsoleState {
    /// The console at start: navigating, first entry selected.
    pub fn new() -> (r: ConsoleState)
        ensures
            r@ == (ConsoleView {
                selected_index: 0,
                mode: Mode::Navigate,
                input: seq![],
                error_message: seq![],
                is_paused: false,
                name_input_mode: false,
                pending: None,
            }),
    {
        let r = ConsoleState {
            selected_index: 0,
            mode: Mode::Navigate,
            input_buffer: Vec::new(),
            error_message: String::new(),
            is_paused: false,
            name_input_mode: false,
            pending_launch: None,
        };
        assert(r@.input =~= seq![]);
        r
    }

    /// Keeps the selection on the list after it has changed to `n` entries.
    pub fn clamp_selection(&mut self, n: usize)
        ensures
            final(self)@ == (ConsoleView {
                selected_index: if old(self).selected_index >= n && n > 0 {
                    (n - 1) as usize
                } else {
                    old(self).selected_index
                },
                ..old(self)@
            }),
    {
        if self.selected_index >= n && n > 0 {
            self.selected_index = n - 1;
        }
    }

    /// Shows `msg` until the next key.
    pub fn set_error(&mut self, msg: String)
        ensures
            final(self)@ == (ConsoleView { error_message: msg@, ..old(self)@ }),
    {
        self.error_message = msg;
    }

    /// The typed text.
    pub fn input_text(&self) -> (r: String)
        ensures
            r@ == self.input_buffer@,
    {
        string_of(&self.input_buffer)
    }

    fn edit_input(&mut self, key: Key)
        ensures
            final(self)@ == (ConsoleView { input: edited(old(self)@.input, key), ..old(self)@ }),
    {
        match key {
            Key::Backspace => {
                if self.input_buffer.len() > 0 {
                    self.input_buffer.pop();
                }
            },
            Key::Char(c) => {
                self.input_buffer.push(c);
            },
            _ => {},
        }
    }

    fn handle_name_key(&mut self, key: Key) -> (a: Action)
        ensures
            (final(self)@, a@) == name_step(old(self)@, key),
    {
        match key {
            Key::Enter => {
                let pending = self.pending_launch.take();
                let a = match pending {
                    Some(p) => {
                        let name = if self.input_buffer.len() > 0 {
                            Some(string_of(&self.input_buffer))
                        } else {
                            None
                        };
                        Action::Launch(p, name)
                    },
                    None => Action::Nothing,
                };
                self.name_input_mode = false;
                self.input_buffer = Vec::new();
                self.mode = Mode::Navigate;
                assert(self@.input =~= seq![]);
                a
            },
            Key::Esc => {
                self.name_input_mode = false;
                self.input_buffer = Vec::new();
                self.pending_launch = None;
                self.mode = Mode::Navigate;
                assert(self@.input =~= seq![]);
                Action::Nothing
            },
            _ => {
                self.edit_input(key);
                Action::Nothing
            },
        }
    }

    fn handle_input_key(&mut self, key: Key, working_dir: &str) -> (a: Action)
        ensures
            (final(self)@, a@) == input_step(old(self)@, key, working_dir@),
    {
        match key {
            Key::Enter => {
                if self.input_buffer.len() > 0 {
                    let text = string_of(&self.input_buffer);
                    let args = split_whitespace(text.as_str());
                    self.pending_launch = Some(
                        PendingLaunch {
                            script_args: args,
                            timeout_ms: None,
                            working_dir: String::from_str(working_dir),
                        },
                    );
                    self.name_input_mode = true;
                    self.input_buffer = Vec::new();
                    assert(self@.input =~= seq![]);
                } else {
                    self.mode = Mode::Navigate;
                }
                Action::Nothing
            },
            Key::Esc => {
                self.mode = Mode::Navigate;
                self.input_buffer = Vec::new();
                assert(self@.input =~= seq![]);
                Action::Nothing
            },
            _ => {
                self.edit_input(key);
                Action::Nothing
            },
        }
    }

    fn handle_navigate_key(&mut self, key: Key, n: usize) -> (a: Action)
        ensures
            (final(self)@, a@) == navigate_step(old(self)@, key, n),
    {
        let sel = self.selected_index;
        if self.is_paused {
            if key == Key::Char('p') {
                self.is_paused = false;
            }
            return Action::Nothing;
        }
        match key {
            Key::Char('q') => Action::Quit,
            Key::Char('p') => {
                self.is_paused = true;
                Action::Nothing
            },
            Key::Char('j') => {
                if n > 0 {
                    self.selected_index = if sel < n - 1 { sel + 1 } else { n - 1 };
                }
                Action::Nothing
            },
            Key::Char('k') => {
                if sel > 0 {
                    self.selected_index = sel - 1;
                }
                Action::Nothing
            },
            Key::Char('o') => {
                self.mode = Mode::Input;
                self.input_buffer = Vec::new();
                assert(self@.input =~= seq![]);
                Action::Nothing
            },
            Key::Char('x') => if sel < n { Action::Kill(sel) } else { Action::Nothing },
            Key::Char('c') => if sel < n { Action::ClearLog(sel) } else { Action::Nothing },
            Key::Char('R') => {
                if sel < n {
                    self.selected_index = 0;
                    Action::Restart(sel)
                } else {
                    Action::Nothing
                }
            },
            Key::Char('X') => {
                if sel < n {
                    if sel > 0 {
                        self.selected_index = sel - 1;
                    }
                    Action::Remove(sel)
                } else {
                    Action::Nothing
                }
            },
            _ => Action::Nothing,
        }
    }

    /// Handles one key with `n` entries on display; see `console_step`.
    pub fn handle_key(&mut self, key: Key, n: usize, working_dir: &str) -> (a: Action)
        ensures
            (final(self)@, a@) == console_step(old(self)@, key, n, working_dir@),
    {
        self.error_message = String::new();
        if self.name_input_mode {
            self.handle_name_key(key)
        } else if self.mode == Mode::Input {
            self.handle_input_key(key, working_dir)
        } else {
            self.handle_navigate_key(key, n)
        }
    }
}

} // verus!
