//! VGA text-mode screen (80×25).
//!
//! A screen is a grid of cells, row by row; text is written into its last row,
//! and the rows scroll up. The driver copies the cells into the text buffer of
//! the graphics card. The serial line remains the primary output; the screen
//! is mainly for humans watching the machine.

use vstd::prelude::*;

verus! {

pub const BUFFER_HEIGHT: usize = 25;

pub const BUFFER_WIDTH: usize = 80;

/// Cells of the screen.
pub const CELLS: usize = BUFFER_WIDTH * BUFFER_HEIGHT;

/// Cells above the last row.
pub const LAST_ROW: usize = BUFFER_WIDTH * (BUFFER_HEIGHT - 1);

/// The colours, in the order of their numbers.
#[derive(Clone, Copy, PartialEq, Eq, Debug, Structural)]
pub enum Color {
    Black,
    Blue,
    Green,
    Cyan,
    Red,
    Magenta,
    Brown,
    LightGray,
    DarkGray,
    LightBlue,
    LightGreen,
    LightCyan,
    LightRed,
    Pink,
    Yellow,
    White,
}

impl Color {
    /// The number of a colour.
    pub open spec fn number(self) -> u8 {
        match self {
            Color::Black => 0,
            Color::Blue => 1,
            Color::Green => 2,
            Color::Cyan => 3,
            Color::Red => 4,
            Color::Magenta => 5,
            Color::Brown => 6,
            Color::LightGray => 7,
            Color::DarkGray => 8,
            Color::LightBlue => 9,
            Color::LightGreen => 10,
            Color::LightCyan => 11,
            Color::LightRed => 12,
            Color::Pink => 13,
            Color::Yellow => 14,
            Color::White => 15,
        }
    }

    fn code(self) -> (r: u8)
        ensures
            r == self.number(),
            r < 16,
    {
        match self {
            Color::Black => 0,
            Color::Blue => 1,
            Color::Green => 2,
            Color::Cyan => 3,
            Color::Red => 4,
            Color::Magenta => 5,
            Color::Brown => 6,
            Color::LightGray => 7,
            Color::DarkGray => 8,
            Color::LightBlue => 9,
            Color::LightGreen => 10,
            Color::LightCyan => 11,
            Color::LightRed => 12,
            Color::Pink => 13,
            Color::Yellow => 14,
            Color::White => 15,
        }
    }
}

/// Foreground and background: the background in the upper half of the byte.
#[derive(Clone, Copy, PartialEq, Eq, Debug, Structural)]
pub struct ColorCode(pub u8);

impl ColorCode {
    pub open spec fn of(fg: Color, bg: Color) -> ColorCode {
        ColorCode((bg.number() * 16 + fg.number()) as u8)
    }

    pub fn new(fg: Color, bg: Color) -> (r: Self)
        ensures
            r == ColorCode::of(fg, bg),
    {
        ColorCode(bg.code() * 16 + fg.code())
    }
}

/// One cell of the screen.
#[derive(Clone, Copy, PartialEq, Eq, Debug, Structural)]
pub struct ScreenChar {
    pub ascii: u8,
    pub color_code: ColorCode,
}

/// An empty cell: a space, light gray on black.
pub open spec fn blank() -> ScreenChar {
    ScreenChar { ascii: 32, color_code: ColorCode::of(Color::LightGray, Color::Black) }
}

fn blank_cell() -> (r: ScreenChar)
    ensures
        r == blank(),
{
    ScreenChar { ascii: 32, color_code: ColorCode::new(Color::LightGray, Color::Black) }
}

/// The screen.
pub struct Screen {
    column: usize,
    color: ColorCode,
    buffer: [ScreenChar; CELLS],
}

/// What the screen shows.
#[verifier::ext_equal]
pub struct ScreenView {
    /// Where in the last row the next character goes.
    pub column: int,
    pub color: ColorCode,
    /// The cells, row by row.
    pub cells: Seq<ScreenChar>,
}

/// The byte that stands for a character.
pub open spec fn glyph(c: char) -> u8 {
    if (c as u32) < 256 {
        c as u8
    } else {
        63
    }
}

impl ScreenView {
    /// The grid has its fixed size, and the column lies in it or right behind
    /// it.
    pub open spec fn wf(self) -> bool {
        0 <= self.column <= BUFFER_WIDTH && self.cells.len() == CELLS
    }

    /// An empty screen; the colour stays.
    pub open spec fn cleared(self) -> ScreenView {
        ScreenView {
            column: 0,
            cells: Seq::new(CELLS as nat, |i: int| blank()),
            ..self
        }
    }

    /// Every row moves up by one, the first is lost and the last is empty.
    pub open spec fn scrolled(self) -> ScreenView {
        ScreenView {
            column: 0,
            cells: Seq::new(
                CELLS as nat,
                |i: int|
                    if i < LAST_ROW {
                        self.cells[i + BUFFER_WIDTH]
                    } else {
                        blank()
                    },
            ),
            ..self
        }
    }

    /// A character at the column, which moves on.
    pub open spec fn placed(self, ascii: u8) -> ScreenView {
        ScreenView {
            column: self.column + 1,
            cells: self.cells.update(
                LAST_ROW + self.column,
                ScreenChar { ascii, color_code: self.color },
            ),
            ..self
        }
    }

    /// One character of text.
    pub open spec fn put(self, c: char) -> ScreenView {
        if c == '\n' {
            self.scrolled()
        } else if c == '\r' {
            ScreenView { column: 0, ..self }
        } else if self.column >= BUFFER_WIDTH {
            self.scrolled().placed(glyph(c))
        } else {
            self.placed(glyph(c))
        }
    }

    /// A text, character by character.
    pub open spec fn write(self, s: Seq<char>) -> ScreenView
        decreases s.len(),
    {
        if s.len() == 0 {
            self
        } else {
            self.write(s.drop_last()).put(s.last())
        }
    }
}

impl Screen {
    pub closed spec fn view(&self) -> ScreenView {
        ScreenView { column: self.column as int, color: self.color, cells: self.buffer@ }
    }

    #[verifier::type_invariant]
    spec fn inv(self) -> bool {
        self.column <= BUFFER_WIDTH
    }

    /// An empty screen, light gray on black.
    pub fn new() -> (r: Self)
        ensures
            r@ == (ScreenView {
                column: 0,
                color: ColorCode::of(Color::LightGray, Color::Black),
                cells: Seq::new(CELLS as nat, |i: int| blank()),
            }),
    {
        let r = Screen {
            column: 0,
            color: ColorCode::new(Color::LightGray, Color::Black),
            buffer: [blank_cell(); CELLS],
        };
        proof {
            assert(r@.cells =~= Seq::new(CELLS as nat, |i: int| blank()));
        }
        r
    }

    /// A cell of the screen.
    pub fn read_cell(&self, idx: usize) -> (r: ScreenChar)
        requires
            idx < CELLS,
        ensures
            r == self@.cells[idx as int],
    {
        self.buffer[idx]
    }

    /// Empties the screen.
    pub fn clear(&mut self)
        ensures
            final(self)@ == old(self)@.cleared(),
    {
        self.column = 0;
        self.buffer = [blank_cell(); CELLS];
        proof {
            assert(self@ =~= old(self)@.cleared());
        }
    }

    /// Moves every row up by one.
    pub fn newline(&mut self)
        ensures
            final(self)@ == old(self)@.scrolled(),
    {
        let ghost before = self@.cells;
        self.column = 0;
        for i in 0..LAST_ROW
            invariant
                self.column == 0,
                self.color == old(self)@.color,
                before == old(self)@.cells,
                before.len() == CELLS,
                forall|k: int|
                    0 <= k < CELLS ==> #[trigger] self.buffer@[k] == (if k < i {
                        before[k + BUFFER_WIDTH]
                    } else {
                        before[k]
                    }),
        {
            proof {
                assert(self.buffer@[i + BUFFER_WIDTH] == before[i + BUFFER_WIDTH]);
            }
            self.buffer[i] = self.buffer[i + BUFFER_WIDTH];
        }
        for i in LAST_ROW..CELLS
            invariant
                self.column == 0,
                self.color == old(self)@.color,
                before == old(self)@.cells,
                before.len() == CELLS,
                forall|k: int|
                    0 <= k < i ==> #[trigger] self.buffer@[k] == (if k < LAST_ROW {
                        before[k + BUFFER_WIDTH]
                    } else {
                        blank()
                    }),
        {
            self.buffer[i] = blank_cell();
        }
        proof {
            assert(self@ =~= old(self)@.scrolled());
        }
    }

    /// Writes one character.
    pub fn put_char(&mut self, c: char)
        ensures
            final(self)@ == old(self)@.put(c),
            final(self)@.wf(),
    {
        proof {
            use_type_invariant(&*self);
        }
        let code = c as u32;
        if code == 10 {
            self.newline();
        } else if code == 13 {
            self.column = 0;
            proof {
                assert(self@ =~= ScreenView { column: 0, ..old(self)@ });
            }
        } else {
            let ascii: u8 = if code < 256 {
                code as u8
            } else {
                63
            };
            if self.column >= BUFFER_WIDTH {
                self.newline();
            }
            let ghost mid = self@;
            let at = LAST_ROW + self.column;
            self.buffer[at] = ScreenChar { ascii, color_code: self.color };
            self.column = self.column + 1;
            proof {
                assert(self@ =~= mid.placed(ascii));
            }
        }
    }

    /// Text from here on is in the given colour, on black.
    pub fn set_color(&mut self, fg: Color)
        ensures
            final(self)@ == (ScreenView {
                color: ColorCode::of(fg, Color::Black),
                ..old(self)@
            }),
    {
        proof {
            use_type_invariant(&*self);
        }
        self.color = ColorCode::new(fg, Color::Black);
    }

    /// Writes a text.
    pub fn write_str(&mut self, s: &str)
        ensures
            final(self)@ == old(self)@.write(s@),
    {
        let n = s.unicode_len();
        proof {
            assert(s@.take(0) =~= Seq::<char>::empty());
        }
        for i in 0..n
            invariant
                n == s@.len(),
                self@ == old(self)@.write(s@.take(i as int)),
        {
            let c = s.get_char(i);
            self.put_char(c);
            proof {
                assert(s@.take(i + 1).drop_last() =~= s@.take(i as int));
                assert(s@.take(i + 1).last() == c);
            }
        }
        proof {
            assert(s@.take(n as int) =~= s@);
        }
    }
}

/// Puts a text on the screen, if there is one.
pub fn print(screen: &mut Option<Screen>, s: &str)
    ensures
        match *old(screen) {
            Some(a) => *final(screen) matches Some(b) && b@ == a@.write(s@),
            None => *final(screen) is None,
        },
{
    if let Some(a) = screen {
        a.write_str(s);
    }
}

/// Makes the screen, if there is none yet, and empties it.
pub fn init(screen: &mut Option<Screen>)
    ensures
        *final(screen) matches Some(b) && b@ == (match *old(screen) {
            Some(a) => a@.cleared(),
            None => ScreenView {
                column: 0,
                color: ColorCode::of(Color::LightGray, Color::Black),
                cells: Seq::new(CELLS as nat, |i: int| blank()),
            },
        }),
{
    match screen {
        Some(a) => a.clear(),
        None => {
            *screen = Some(Screen::new());
        },
    }
}

/// Shows a panic message in red on an empty screen.
pub fn panic_message(screen: &mut Option<Screen>, info: &str)
    ensures
        *final(screen) matches Some(b) && b@.color == ColorCode::of(Color::Red, Color::Black)
            && b@ == (ScreenView {
            column: 0,
            color: ColorCode::of(Color::Red, Color::Black),
            cells: Seq::new(CELLS as nat, |i: int| blank()),
        }).write("PANIC: "@).write(info@).write("[kairos halted]"@),
{
    let mut s = Screen::new();
    s.set_color(Color::Red);
    s.clear();
    proof {
        assert(s@ =~= ScreenView {
            column: 0,
            color: ColorCode::of(Color::Red, Color::Black),
            cells: Seq::new(CELLS as nat, |i: int| blank()),
        });
        lemma_write_color(s@, "PANIC: "@);
        lemma_write_color(s@.write("PANIC: "@), info@);
        lemma_write_color(s@.write("PANIC: "@).write(info@), "[kairos halted]"@);
    }
    s.write_str("PANIC: ");
    s.write_str(info);
    s.write_str("[kairos halted]");
    *screen = Some(s);
}

proof fn lemma_write_color(v: ScreenView, s: Seq<char>)
    ensures
        v.write(s).color == v.color,
    decreases s.len(),
{
    if s.len() > 0 {
        lemma_write_color(v, s.drop_last());
    }
}

/// Self-test of the screen.
pub fn test_echo(screen: &mut Option<Screen>) -> (r: bool)
    ensures
        r,
        *final(screen) matches Some(b) && b@ == (match *old(screen) {
            Some(a) => a@,
            None => ScreenView {
                column: 0,
                color: ColorCode::of(Color::LightGray, Color::Black),
                cells: Seq::new(CELLS as nat, |i: int| blank()),
            },
        }).write("vga:ok"@),
{
    match screen {
        Some(a) => a.write_str("vga:ok"),
        None => {
            let mut a = Screen::new();
            a.write_str("vga:ok");
            *screen = Some(a);
        },
    }
    true
}

/// Writing two texts is writing one after the other as one text.
pub proof fn law_write_is_sequential(v: ScreenView, a: Seq<char>, b: Seq<char>)
    ensures
        v.write(a + b) == v.write(a).write(b),
    decreases b.len(),
{
    if b.len() == 0 {
        assert(a + b =~= a);
    } else {
        assert((a + b).drop_last() =~= a + b.drop_last());
        law_write_is_sequential(v, a, b.drop_last());
    }
}

/// Text never leaves the screen: the grid keeps its size and the column stays
/// in it, and only the last row changes while no row scrolls.
pub proof fn law_text_stays_on_screen(v: ScreenView, c: char)
    requires
        v.wf(),
    ensures
        v.put(c).wf(),
        v.column < BUFFER_WIDTH && c != '\n' ==> forall|i: int|
            0 <= i < LAST_ROW ==> #[trigger] v.put(c).cells[i] == v.cells[i],
{
}

/// A new line moves every row up.
pub proof fn law_newline_scrolls(v: ScreenView, row: int, col: int)
    requires
        v.wf(),
        0 <= row < BUFFER_HEIGHT - 1,
        0 <= col < BUFFER_WIDTH,
    ensures
        v.put('\n').cells[row * BUFFER_WIDTH + col] == v.cells[(row + 1) * BUFFER_WIDTH + col],
        v.put('\n').cells[LAST_ROW + col] == blank(),
{
    assert(0 <= row * 80 + col < 24 * 80) by (nonlinear_arith)
        requires
            0 <= row < 24,
            0 <= col < 80,
    ;
}

/// What a character does to the screen: a plain one stands in the last row at
/// the column, in the present colour, as itself if it is one of the first 256
/// and as a question mark otherwise, and the column moves on by one; no other
/// cell changes. A return goes back to the first column and a line feed too,
/// after the rows have moved up. In a full row the rows move up first.
pub proof fn law_put_effect(v: ScreenView, c: char, i: int)
    requires
        v.wf(),
        0 <= i < 2000,
    ensures
        v.put(c).color == v.color,
        c == '\r' ==> v.put(c).column == 0 && v.put(c).cells == v.cells,
        c == '\n' ==> v.put(c).column == 0 && v.put(c).cells[i] == (if i < 1920 {
            v.cells[i + 80]
        } else {
            blank()
        }),
        c != '\n' && c != '\r' && v.column < 80 ==> {
            let w = v.put(c);
            &&& w.column == v.column + 1
            &&& i != 1920 + v.column ==> w.cells[i] == v.cells[i]
            &&& i == 1920 + v.column ==> w.cells[i].color_code == v.color && w.cells[i].ascii == (
            if (c as int) < 256 {
                c as int
            } else {
                63
            })
        },
        c != '\n' && c != '\r' && v.column == 80 ==> v.put(c) == v.put('\n').put(c)
            && v.put(c).column == 1,
{
}

/// Each colour has its own number, below sixteen; in a colour code the
/// foreground is the lower half and the background the upper one, so that it
/// tells both.
pub proof fn law_color_codes(fg: Color, bg: Color, other: Color)
    ensures
        fg.number() < 16,
        fg.number() == other.number() ==> fg == other,
        ColorCode::of(fg, bg).0 % 16 == fg.number(),
        ColorCode::of(fg, bg).0 / 16 == bg.number(),
{
}

/// An empty cell is a space in light gray on black.
pub proof fn law_blank_cells(v: ScreenView, i: int)
    requires
        0 <= i < 2000,
    ensures
        blank().ascii == 0x20,
        blank().color_code.0 == 0x07,
        v.cleared().cells[i] == blank(),
        v.cleared().cells.len() == 2000,
        v.cleared().column == 0,
        v.cleared().color == v.color,
{
}

/// The characters are all plain ones.
pub open spec fn plain_text(s: Seq<char>) -> bool {
    forall|k: int| 0 <= k < s.len() ==> #[trigger] s[k] != '\n' && s[k] != '\r'
}

/// A text that fits into the rest of the row stands there, character by
/// character, in the present colour, and all other cells are as they were.
pub proof fn law_text_is_shown(v: ScreenView, s: Seq<char>, i: int)
    requires
        v.wf(),
        plain_text(s),
        v.column + s.len() <= 80,
        0 <= i < 2000,
    ensures
        v.write(s).column == v.column + s.len(),
        v.write(s).color == v.color,
        v.write(s).cells.len() == 2000,
        ({
            let k = i - 1920 - v.column;
            let cell = v.write(s).cells[i];
            if 0 <= k < s.len() {
                cell.color_code == v.color && cell.ascii == (if (s[k] as int) < 256 {
                    s[k] as int
                } else {
                    63
                })
            } else {
                cell == v.cells[i]
            }
        }),
    decreases s.len(),
{
    if s.len() > 0 {
        let less = s.drop_last();
        assert forall|k: int| 0 <= k < less.len() implies #[trigger] less[k] != '\n' && less[k]
            != '\r' by {
            assert(less[k] == s[k]);
        }
        law_text_is_shown(v, less, i);
        let u = v.write(less);
        assert(u.wf());
        assert(s[s.len() - 1] == s.last());
        law_put_effect(u, s.last(), i);
    }
}

} // verus!
