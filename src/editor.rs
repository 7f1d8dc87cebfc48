use vstd::prelude::*;

verus! {

/// A key as the editor reads it.
#[derive(Clone, Copy, Debug, PartialEq, Eq, Structural)]
pub enum Key {
    Char(char),
    Left,
    Right,
    Up,
    Down,
    Other,
}

/// What an input event asks of the editor.
#[derive(Clone, Copy, Debug, PartialEq, Eq, Structural)]
pub enum EditorCommand {
    Quit,
    MoveCursor(i16, i16),
    SetPosition(u16, u16),
    MoveCursorStartOfNextLine,
    TypeChar(char),
    DoNothing,
}

/// What the terminal is to do after a command.
#[derive(Clone, Copy, Debug, PartialEq, Eq, Structural)]
pub enum Action {
    /// Clear the screen and leave.
    Quit,
    /// Move the cursor to the given cell.
    Goto(u16, u16),
    /// Write a line break, then move the cursor to the given cell.
    BreakLineThenGoto(u16, u16),
    /// Move the cursor to the given cell, then write the scalar.
    GotoThenWrite(u16, u16, char),
    Nothing,
}

/// The cursor's cell on a screen of `width` by `height` cells.
#[derive(Clone, Copy, Debug, PartialEq, Eq, Structural)]
pub struct Cursor {
    pub x: u16,
    pub y: u16,
    pub width: u16,
    pub height: u16,
}

pub open spec fn key_command(k: Key) -> EditorCommand {
    match k {
        Key::Char('q') => EditorCommand::Quit,
        Key::Char('\n') => EditorCommand::MoveCursorStartOfNextLine,
        Key::Left | Key::Char('h') => EditorCommand::MoveCursor(-1i16, 0i16),
        Key::Right | Key::Char('l') => EditorCommand::MoveCursor(1i16, 0i16),
        Key::Up | Key::Char('j') => EditorCommand::MoveCursor(0i16, -1i16),
        Key::Down | Key::Char('k') => EditorCommand::MoveCursor(0i16, 1i16),
        Key::Char(c) => EditorCommand::TypeChar(c),
        Key::Other => EditorCommand::DoNothing,
    }
}

/// `v` held within `[0, hi]`.
pub open spec fn clamped(v: int, hi: int) -> int {
    if v < 0 {
        0
    } else if v > hi {
        hi
    } else {
        v
    }
}

/// The cursor after moving by `(dx, dy)`, each axis held on the screen by itself.
pub open spec fn moved(c: Cursor, dx: int, dy: int) -> Cursor {
    Cursor {
        x: clamped(c.x + dx, c.width as int) as u16,
        y: clamped(c.y + dy, c.height as int) as u16,
        ..c
    }
}

/// The cursor after a command, and what the terminal is to do.
pub open spec fn step(c: Cursor, cmd: EditorCommand) -> (Cursor, Action) {
    match cmd {
        EditorCommand::Quit => (c, Action::Quit),
        EditorCommand::MoveCursor(dx, dy) => {
            let n = moved(c, dx as int, dy as int);
            (n, Action::Goto(n.x, n.y))
        },
        EditorCommand::SetPosition(x, y) => (Cursor { x, y, ..c }, Action::Goto(x, y)),
        EditorCommand::MoveCursorStartOfNextLine => {
            let n = Cursor { x: 0, y: clamped(c.y + 1, c.height as int) as u16, ..c };
            (n, Action::BreakLineThenGoto(n.x, n.y))
        },
        EditorCommand::TypeChar(ch) => {
            let n = moved(c, 1, 0);
            (n, Action::GotoThenWrite(n.x, n.y, ch))
        },
        EditorCommand::DoNothing => (c, Action::Nothing),
    }
}

/// The command that a key stands for.
pub fn handle_key_event(k: Key) -> (r: EditorCommand)
    ensures
        r == key_command(k),
{
    match k {
        Key::Char('q') => EditorCommand::Quit,
        Key::Char('\n') => EditorCommand::MoveCursorStartOfNextLine,
        Key::Left | Key::Char('h') => EditorCommand::MoveCursor(-1, 0),
        Key::Right | Key::Char('l') => EditorCommand::MoveCursor(1, 0),
        Key::Up | Key::Char('j') => EditorCommand::MoveCursor(0, -1),
        Key::Down | Key::Char('k') => EditorCommand::MoveCursor(0, 1),
        Key::Char(c) => EditorCommand::TypeChar(c),
        Key::Other => EditorCommand::DoNothing,
    }
}

/// A press, release or hold of the mouse at `(x, y)` puts the cursor there.
pub fn handle_mouse_event(x: u16, y: u16) -> (r: EditorCommand)
    ensures
        r == EditorCommand::SetPosition(x, y),
{
    EditorCommand::SetPosition(x, y)
}

/// `p + d` held within `[0, hi]`.
pub fn clamp_axis(p: u16, d: i16, hi: u16) -> (r: u16)
    ensures
        r == clamped(p + d, hi as int),
{
    let v: i32 = p as i32 + d as i32;
    if v < 0 {
        0
    } else if v > hi as i32 {
        hi
    } else {
        v as u16
    }
}

impl Cursor {
    /// A cursor at the top left cell of a `width` by `height` screen.
    pub fn new(width: u16, height: u16) -> (r: Cursor)
        ensures
            r == (Cursor { x: 1, y: 1, width, height }),
    {
        Cursor { x: 1, y: 1, width, height }
    }

    /// Moves by `(dx, dy)`, each axis held on the screen by itself.
    pub fn move_cursor(&mut self, dx: i16, dy: i16)
        ensures
            *final(self) == moved(*old(self), dx as int, dy as int),
    {
        self.x = clamp_axis(self.x, dx, self.width);
        self.y = clamp_axis(self.y, dy, self.height);
    }

    /// Carries out `cmd` on the cursor and says what the terminal is to do.
    pub fn process_command(&mut self, cmd: EditorCommand) -> (a: Action)
        ensures
            (*final(self), a) == step(*old(self), cmd),
    {
        match cmd {
            EditorCommand::Quit => Action::Quit,
            EditorCommand::MoveCursor(dx, dy) => {
                self.move_cursor(dx, dy);
                Action::Goto(self.x, self.y)
            },
            EditorCommand::SetPosition(x, y) => {
                self.x = x;
                self.y = y;
                Action::Goto(x, y)
            },
            EditorCommand::MoveCursorStartOfNextLine => {
                self.x = 0;
                self.y = clamp_axis(self.y, 1, self.height);
                Action::BreakLineThenGoto(self.x, self.y)
            },
            EditorCommand::TypeChar(ch) => {
                self.move_cursor(1, 0);
                Action::GotoThenWrite(self.x, self.y, ch)
            },
            EditorCommand::DoNothing => Action::Nothing,
        }
    }
}

} // verus!
