use vstd::prelude::*;
use crate::letters::{account, count_chars, lemma_letter_count_nonneg, MAX_TEXT};
use crate::suggest::{refresh_suggestions, suggestions_spec, views_of};

verus! {

/// Which buffer, if any, is receiving edits.
#[derive(Clone, Copy, PartialEq, Eq, Structural, Debug)]
pub enum InputMode {
    Normal,
    Editing1,
    Editing2,
}

/// One abstract keyboard command, as the editing state machine sees it.
#[derive(Clone, Copy, PartialEq, Eq, Structural, Debug)]
pub enum Key {
    Char(char),
    Backspace,
    Delete,
    Left,
    Right,
    Esc,
    Tab,
    Other,
}

/// The mathematical state of a session: both buffer contents, the cursor,
/// the mode, the cached account and suggestions, and the dictionary.
#[verifier::ext_equal]
pub ghost struct Model {
    pub mode: InputMode,
    pub buf1: Seq<char>,
    pub buf2: Seq<char>,
    pub cursor: int,
    pub letters: Seq<i32>,
    pub suggestions: Seq<Seq<char>>,
    pub words: Seq<Seq<char>>,
}

impl Model {
    /// The buffer receiving edits; empty text when no buffer is active.
    pub open spec fn active(self) -> Seq<char> {
        match self.mode {
            InputMode::Editing1 => self.buf1,
            InputMode::Editing2 => self.buf2,
            InputMode::Normal => Seq::empty(),
        }
    }

    /// The session invariant: a full account and a cursor inside the
    /// active buffer.
    pub open spec fn inv(self) -> bool {
        &&& self.letters.len() == 26
        &&& 0 <= self.cursor
        &&& (self.mode is Editing1 ==> self.cursor <= self.buf1.len())
        &&& (self.mode is Editing2 ==> self.cursor <= self.buf2.len())
    }

    /// Slot `i` of the account the session derives: the active buffer adds,
    /// the inactive one subtracts; with no active buffer, the second buffer
    /// adds and the first subtracts.
    pub open spec fn account_at(self, i: int) -> int {
        match self.mode {
            InputMode::Editing1 => account(self.buf2, self.buf1, i),
            _ => account(self.buf1, self.buf2, i),
        }
    }

    /// `pos` bounded to the active buffer's length.
    pub open spec fn clamped(self, pos: int) -> int {
        if pos <= self.active().len() {
            pos
        } else {
            self.active().len() as int
        }
    }
}

/// Cursor one step left, clamped.
pub open spec fn model_move_left(m: Model) -> Model {
    Model { cursor: m.clamped(if m.cursor > 0 { m.cursor - 1 } else { 0 }), ..m }
}

/// Cursor one step right, clamped.
pub open spec fn model_move_right(m: Model) -> Model {
    Model { cursor: m.clamped(m.cursor + 1), ..m }
}

/// A character inserted at the cursor of the active buffer; the cursor
/// moves past it. Nothing happens with no active buffer.
pub open spec fn model_enter(m: Model, c: char) -> Model {
    match m.mode {
        InputMode::Normal => m,
        InputMode::Editing1 => Model {
            buf1: m.buf1.insert(m.cursor, c),
            cursor: m.cursor + 1,
            ..m
        },
        InputMode::Editing2 => Model {
            buf2: m.buf2.insert(m.cursor, c),
            cursor: m.cursor + 1,
            ..m
        },
    }
}

/// Deletion at the cursor of the active buffer: one character to the left
/// (cursor follows) or one at the cursor. A deletion past either end of
/// the buffer changes nothing, as does having no active buffer.
pub open spec fn model_remove(m: Model, delete_left: bool) -> Model {
    match m.mode {
        InputMode::Normal => m,
        InputMode::Editing1 => {
            if delete_left && m.cursor == 0 {
                m
            } else if !delete_left && m.cursor >= m.buf1.len() {
                m
            } else if delete_left {
                Model { buf1: m.buf1.remove(m.cursor - 1), cursor: m.cursor - 1, ..m }
            } else {
                Model { buf1: m.buf1.remove(m.cursor), ..m }
            }
        },
        InputMode::Editing2 => {
            if delete_left && m.cursor == 0 {
                m
            } else if !delete_left && m.cursor >= m.buf2.len() {
                m
            } else if delete_left {
                Model { buf2: m.buf2.remove(m.cursor - 1), cursor: m.cursor - 1, ..m }
            } else {
                Model { buf2: m.buf2.remove(m.cursor), ..m }
            }
        },
    }
}

/// The account recomputed from the current buffers and mode.
pub open spec fn model_letters(m: Model) -> Model {
    Model { letters: Seq::new(26, |i: int| m.account_at(i) as i32), ..m }
}

/// The suggestion list recomputed from the active buffer, the account and
/// the dictionary; left as it was with no active buffer.
pub open spec fn model_suggest(m: Model) -> Model {
    match m.mode {
        InputMode::Normal => m,
        _ => Model { suggestions: suggestions_spec(m.active(), m.letters, m.words), ..m },
    }
}

/// Where one key routes before the account and suggestions are refreshed:
/// mode transitions with cursor re-clamping, and edits to the active
/// buffer. Editing keys are taken only from a key press.
pub open spec fn model_route(m: Model, k: Key, pressed: bool) -> Model {
    match m.mode {
        InputMode::Normal => match k {
            Key::Char(c) => if c == 'e' {
                let m2 = Model { mode: InputMode::Editing1, ..m };
                Model { cursor: m2.clamped(m.cursor), ..m2 }
            } else {
                m
            },
            _ => m,
        },
        _ => if !pressed {
            m
        } else {
            match k {
                Key::Char(c) => model_enter(m, c),
                Key::Backspace => model_remove(m, true),
                Key::Delete => model_remove(m, false),
                Key::Left => model_move_left(m),
                Key::Right => model_move_right(m),
                Key::Esc => Model { mode: InputMode::Normal, ..m },
                Key::Tab => {
                    let m2 = Model {
                        mode: if m.mode is Editing1 {
                            InputMode::Editing2
                        } else {
                            InputMode::Editing1
                        },
                        ..m
                    };
                    Model { cursor: m2.clamped(m.cursor), ..m2 }
                },
                Key::Other => m,
            }
        },
    }
}

/// One full cycle of the session on a key that does not quit: route the
/// key, then refresh the account, then refresh the suggestions.
pub open spec fn model_step(m: Model, k: Key, pressed: bool) -> Model {
    model_suggest(model_letters(model_route(m, k, pressed)))
}

/// The state a session starts in: empty buffers, no active buffer, an
/// all-zero account, no suggestions and no dictionary.
pub open spec fn init_model() -> Model {
    Model {
        mode: InputMode::Normal,
        buf1: Seq::empty(),
        buf2: Seq::empty(),
        cursor: 0,
        letters: Seq::new(26, |i: int| 0i32),
        suggestions: Seq::empty(),
        words: Seq::empty(),
    }
}

/// Width in bytes of one character under UTF-8.
pub open spec fn utf8_width(c: char) -> int {
    if (c as int) < 0x80 {
        1
    } else if (c as int) < 0x800 {
        2
    } else if (c as int) < 0x10000 {
        3
    } else {
        4
    }
}

/// Byte length of a text under UTF-8.
pub open spec fn utf8_len(s: Seq<char>) -> int
    decreases s.len(),
{
    if s.len() == 0 {
        0
    } else {
        utf8_len(s.drop_last()) + utf8_width(s.last())
    }
}

/// The whole interactive session: two editable buffers, the cursor of the
/// active one, the mode, the dictionary, and the cached account and
/// suggestion list, both recomputed after every processed key.
pub struct App {
    pub input1: Vec<char>,
    pub input2: Vec<char>,
    pub character_index: usize,
    pub input_mode: InputMode,
    pub suggestions: Vec<Vec<char>>,
    pub letters: Vec<i32>,
    pub word_list: Vec<Vec<char>>,
}

impl View for App {
    type V = Model;

    open spec fn view(&self) -> Model {
        Model {
            mode: self.input_mode,
            buf1: self.input1@,
            buf2: self.input2@,
            cursor: self.character_index as int,
            letters: self.letters@,
            suggestions: views_of(self.suggestions@),
            words: views_of(self.word_list@),
        }
    }
}

impl App {
    /// A fresh session: empty buffers, no active buffer, an all-zero
    /// account. The dictionary is filled in by the host before the first
    /// key is processed.
    pub fn new() -> (app: App)
        ensures
            app@ == init_model(),
            app@.inv(),
    {
        let mut letters: Vec<i32> = Vec::new();
        let mut k: usize = 0;
        while k < 26
            invariant
                k <= 26,
                letters@.len() == k,
                forall|i: int| 0 <= i < k ==> letters@[i] == 0i32,
            decreases 26 - k,
        {
            letters.push(0);
            k = k + 1;
        }
        let app = App {
            input1: Vec::new(),
            input2: Vec::new(),
            character_index: 0,
            input_mode: InputMode::Normal,
            suggestions: Vec::new(),
            letters,
            word_list: Vec::new(),
        };
        proof {
            assert(app@ =~~= init_model());
        }
        app
    }

    /// `new_cursor_pos` bounded to the active buffer's length.
    pub fn clamp_cursor(&self, new_cursor_pos: usize) -> (r: usize)
        ensures
            r as int == self@.clamped(new_cursor_pos as int),
    {
        let len = match self.input_mode {
            InputMode::Editing1 => self.input1.len(),
            InputMode::Editing2 => self.input2.len(),
            InputMode::Normal => 0,
        };
        if new_cursor_pos <= len {
            new_cursor_pos
        } else {
            len
        }
    }

    /// Moves the cursor one step left, clamped to the active buffer.
    pub fn move_cursor_left(&mut self)
        ensures
            final(self)@ == model_move_left(old(self)@),
            old(self)@.inv() ==> final(self)@.inv(),
    {
        let p = if self.character_index > 0 {
            self.character_index - 1
        } else {
            0
        };
        let c = self.clamp_cursor(p);
        self.character_index = c;
    }

    /// Moves the cursor one step right, clamped to the active buffer.
    pub fn move_cursor_right(&mut self)
        ensures
            final(self)@ == model_move_right(old(self)@),
            old(self)@.inv() ==> final(self)@.inv(),
    {
        let len = match self.input_mode {
            InputMode::Editing1 => self.input1.len(),
            InputMode::Editing2 => self.input2.len(),
            InputMode::Normal => 0,
        };
        let c = if self.character_index >= len {
            len
        } else {
            self.character_index + 1
        };
        self.character_index = c;
    }

    /// Inserts one character at the cursor of the active buffer and moves
    /// the cursor past it; does nothing with no active buffer.
    pub fn enter_char(&mut self, new_char: char)
        requires
            old(self)@.inv(),
        ensures
            final(self)@ == model_enter(old(self)@, new_char),
            final(self)@.inv(),
    {
        match self.input_mode {
            InputMode::Normal => {},
            InputMode::Editing1 => {
                let i = self.character_index;
                self.input1.insert(i, new_char);
                self.move_cursor_right();
            },
            InputMode::Editing2 => {
                let i = self.character_index;
                self.input2.insert(i, new_char);
                self.move_cursor_right();
            },
        }
    }

    /// The byte offset, under UTF-8, of the cursor in the active buffer.
    pub fn byte_index(&self) -> (r: usize)
        requires
            self@.active().len() <= MAX_TEXT,
        ensures
            r == utf8_len(self@.active().take(self@.clamped(self@.cursor))),
    {
        let input = match self.input_mode {
            InputMode::Editing1 => &self.input1,
            InputMode::Editing2 => &self.input2,
            InputMode::Normal => {
                proof {
                    assert(self@.active().take(self@.clamped(self@.cursor))
                        =~= Seq::<char>::empty());
                }
                return 0;
            },
        };
        let n = if self.character_index <= input.len() {
            self.character_index
        } else {
            input.len()
        };
        let mut total: usize = 0;
        let mut j: usize = 0;
        while j < n
            invariant
                j <= n,
                n <= input@.len() <= MAX_TEXT,
                total == utf8_len(input@.take(j as int)),
                total <= 4 * j,
            decreases n - j,
        {
            let c = input[j];
            let w: usize = if '\u{80}' > c {
                1
            } else if '\u{800}' > c {
                2
            } else if '\u{10000}' > c {
                3
            } else {
                4
            };
            proof {
                assert(input@.take(j + 1).drop_last() =~= input@.take(j as int));
                assert(input@.take(j + 1).last() == input@[j as int]);
            }
            total = total + w;
            j = j + 1;
        }
        proof {
            assert(input@.take(n as int) == self@.active().take(self@.clamped(self@.cursor)));
        }
        total
    }

    /// Deletes one character of the active buffer: the one left of the
    /// cursor (the cursor follows) or the one at it. A deletion past
    /// either end of the buffer changes nothing.
    pub fn remove_char(&mut self, delete_left: bool)
        requires
            old(self)@.inv(),
        ensures
            final(self)@ == model_remove(old(self)@, delete_left),
            final(self)@.inv(),
    {
        let idx = self.character_index;
        match self.input_mode {
            InputMode::Normal => {},
            InputMode::Editing1 => {
                if delete_left {
                    if idx > 0 {
                        self.input1.remove(idx - 1);
                        self.move_cursor_left();
                    }
                } else {
                    if idx < self.input1.len() {
                        self.input1.remove(idx);
                    }
                }
            },
            InputMode::Editing2 => {
                if delete_left {
                    if idx > 0 {
                        self.input2.remove(idx - 1);
                        self.move_cursor_left();
                    }
                } else {
                    if idx < self.input2.len() {
                        self.input2.remove(idx);
                    }
                }
            },
        }
    }

    /// Recomputes the letter account from the two buffers: the active one
    /// adds, the inactive one subtracts; with no active buffer the second
    /// buffer adds and the first subtracts.
    pub fn compute_letters(&mut self)
        requires
            old(self)@.buf1.len() <= MAX_TEXT,
            old(self)@.buf2.len() <= MAX_TEXT,
        ensures
            final(self)@ == model_letters(old(self)@),
            final(self)@.letters.len() == 26,
    {
        let l = match self.input_mode {
            InputMode::Editing1 => count_chars(&self.input2, &self.input1),
            _ => count_chars(&self.input1, &self.input2),
        };
        self.letters = l;
        proof {
            let m = old(self)@;
            assert forall|i: int| 0 <= i < 26 implies self.letters@[i] == m.account_at(i) as i32 by {
                lemma_letter_count_nonneg(m.buf1, i);
                lemma_letter_count_nonneg(m.buf2, i);
            }
            assert(self@ =~~= model_letters(old(self)@));
        }
    }

    /// Recomputes the suggestion list from the active buffer, the account
    /// and the dictionary; leaves it as it was with no active buffer.
    pub fn compute_suggestions(&mut self)
        requires
            old(self)@.letters.len() == 26,
            old(self)@.active().len() <= MAX_TEXT,
            forall|j: int| 0 <= j < old(self)@.words.len() ==> #[trigger] old(
                self,
            )@.words[j].len() <= MAX_TEXT,
        ensures
            final(self)@ == model_suggest(old(self)@),
    {
        proof {
            assert forall|j: int| 0 <= j < self.word_list@.len() implies #[trigger] self
                .word_list@[j]@.len() <= MAX_TEXT by {
                assert(self@.words[j] == self.word_list@[j]@);
            }
        }
        let s = match self.input_mode {
            InputMode::Editing1 => refresh_suggestions(
                &self.input1,
                &self.letters,
                &self.word_list,
            ),
            InputMode::Editing2 => refresh_suggestions(
                &self.input2,
                &self.letters,
                &self.word_list,
            ),
            InputMode::Normal => {
                return ;
            },
        };
        self.suggestions = s;
        proof {
            assert(self@ =~~= model_suggest(old(self)@));
        }
    }

    /// Processes one key: quits on `q` with no active buffer; otherwise
    /// routes the key through the state machine and refreshes the account
    /// and the suggestion list, in that order.
    pub fn handle_key(&mut self, k: Key, pressed: bool) -> (quit: bool)
        requires
            old(self)@.inv(),
            old(self)@.buf1.len() + old(self)@.buf2.len() < MAX_TEXT,
            forall|j: int| 0 <= j < old(self)@.words.len() ==> #[trigger] old(
                self,
            )@.words[j].len() <= MAX_TEXT,
        ensures
            quit == (old(self)@.mode is Normal && k == Key::Char('q')),
            quit ==> final(self)@ == old(self)@,
            !quit ==> final(self)@ == model_step(old(self)@, k, pressed),
            final(self)@.inv(),
            final(self)@.words == old(self)@.words,
    {
        match self.input_mode {
            InputMode::Normal => {
                match k {
                    Key::Char(c) => {
                        if c == 'q' {
                            return true;
                        }
                        if c == 'e' {
                            self.input_mode = InputMode::Editing1;
                            let cc = self.clamp_cursor(self.character_index);
                            self.character_index = cc;
                        }
                    },
                    _ => {},
                }
            },
            InputMode::Editing1 | InputMode::Editing2 => {
                if pressed {
                    match k {
                        Key::Char(c) => self.enter_char(c),
                        Key::Backspace => self.remove_char(true),
                        Key::Delete => self.remove_char(false),
                        Key::Left => self.move_cursor_left(),
                        Key::Right => self.move_cursor_right(),
                        Key::Esc => {
                            self.input_mode = InputMode::Normal;
                        },
                        Key::Tab => {
                            match self.input_mode {
                                InputMode::Editing1 => {
                                    self.input_mode = InputMode::Editing2;
                                },
                                InputMode::Editing2 => {
                                    self.input_mode = InputMode::Editing1;
                                },
                                InputMode::Normal => {},
                            }
                            let cc = self.clamp_cursor(self.character_index);
                            self.character_index = cc;
                        },
                        Key::Other => {},
                    }
                }
            },
        }
        proof {
            assert(self@ == model_route(old(self)@, k, pressed));
        }
        self.compute_letters();
        self.compute_suggestions();
        false
    }
}

/// Refreshing the suggestion list twice in a row changes nothing beyond
/// the first refresh: the list is a function of the buffers, the mode, the
/// account and the dictionary alone, with no hidden ranking state.
pub proof fn lemma_suggest_idempotent(m: Model)
    ensures
        model_suggest(model_suggest(m)) == model_suggest(m),
{
    assert(model_suggest(model_suggest(m)) =~~= model_suggest(m));
}

/// Deleting one character to the left immediately after inserting a
/// character restores the buffer contents and the cursor exactly.
pub proof fn lemma_insert_then_delete_left(m: Model, c: char)
    requires
        m.inv(),
        m.mode is Editing1 || m.mode is Editing2,
    ensures
        model_remove(model_enter(m, c), true) == m,
{
    let m1 = model_enter(m, c);
    if m.mode is Editing1 {
        assert(m1.buf1.remove(m.cursor) =~= m.buf1);
    } else {
        assert(m1.buf2.remove(m.cursor) =~= m.buf2);
    }
    assert(model_remove(m1, true) =~~= m);
}

} // verus!
