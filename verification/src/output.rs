//! The renderer: a list of towers that mirrors the sequence, rebuilt from
//! events alone, and the terminal text that paints it.

use vstd::prelude::*;
use vstd::string::StringExecFns;
use crate::escape::{clear_all, clear_screen, cursor_to, foreground, goto, rgb_foreground};
use crate::event::Event;

verus! {

/// The state that a tower is painted in.
#[derive(Clone, Copy, Debug, PartialEq, Eq, Structural)]
pub enum Shade {
    /// At rest.
    Idle,
    /// In the middle of a swap.
    Swapping,
    /// Confirmed to be in order.
    Confirmed,
}

impl Shade {
    /// The red, green and blue components of the shade: white at rest, red in
    /// a swap, green when confirmed.
    pub open spec fn components(self) -> (u8, u8, u8) {
        match self {
            Shade::Idle => (255, 255, 255),
            Shade::Swapping => (255, 0, 0),
            Shade::Confirmed => (0, 255, 0),
        }
    }

    /// The red, green and blue components of the shade.
    pub fn rgb(self) -> (rgb: (u8, u8, u8))
        ensures
            rgb == self.components(),
    {
        match self {
            Shade::Idle => (255, 255, 255),
            Shade::Swapping => (255, 0, 0),
            Shade::Confirmed => (0, 255, 0),
        }
    }
}

/// The glyph of a partial block that fills `level + 1` eighths of a cell, from
/// the bottom. The last one is the full block.
pub open spec fn ramp(level: int) -> char {
    seq![
        '\u{2581}',
        '\u{2582}',
        '\u{2583}',
        '\u{2584}',
        '\u{2585}',
        '\u{2586}',
        '\u{2587}',
        '\u{2588}',
    ][level]
}

/// The glyph of the ramp at `level`, as text.
pub fn tile(level: u16) -> (glyph: &'static str)
    requires
        level < 8,
    ensures
        glyph@ == seq![ramp(level as int)],
{
    proof {
        reveal_strlit("\u{2581}");
        reveal_strlit("\u{2582}");
        reveal_strlit("\u{2583}");
        reveal_strlit("\u{2584}");
        reveal_strlit("\u{2585}");
        reveal_strlit("\u{2586}");
        reveal_strlit("\u{2587}");
        reveal_strlit("\u{2588}");
    }
    let glyph = if level == 0 {
        "\u{2581}"
    } else if level == 1 {
        "\u{2582}"
    } else if level == 2 {
        "\u{2583}"
    } else if level == 3 {
        "\u{2584}"
    } else if level == 4 {
        "\u{2585}"
    } else if level == 5 {
        "\u{2586}"
    } else if level == 6 {
        "\u{2587}"
    } else {
        "\u{2588}"
    };
    assert(glyph@ =~= seq![ramp(level as int)]);
    glyph
}

/// The text that puts `glyph` into the cell at column `col` of row `row`,
/// both counted from 1, after switching to `ink`.
pub open spec fn cell(col: int, row: int, ink: Seq<char>, glyph: char) -> Seq<char> {
    cursor_to(col, row) + ink + seq![glyph]
}

/// The text that puts `glyph` into `count` cells of column `col`, from row
/// `top` downwards.
pub open spec fn column_run(col: int, top: int, count: nat, ink: Seq<char>, glyph: char) -> Seq<
    char,
>
    decreases count,
{
    if count == 0 {
        Seq::empty()
    } else {
        column_run(col, top, (count - 1) as nat, ink, glyph) + cell(
            col,
            top + count - 1,
            ink,
            glyph,
        )
    }
}

/// One bar of the display: a column, counted from 0, and a height in eighths
/// of a cell.
#[derive(Clone, Copy, Debug, PartialEq, Eq, Structural)]
pub struct Tower {
    pub x: u16,
    pub heigth: u16,
}

impl Tower {
    /// The number of cells that the tower fills completely.
    pub open spec fn full_rows(self) -> int {
        self.heigth as int / 8
    }

    /// The tower can be painted on a screen of `rows` rows: the cell above its
    /// full cells is row 0 at the highest, and its column has a successor.
    pub open spec fn paintable(self, rows: u16) -> bool {
        self.x < u16::MAX && self.full_rows() <= rows
    }

    /// The tower can be erased from a screen of `rows` rows: the cell above
    /// its full cells is on the screen, and its column has a successor.
    pub open spec fn erasable(self, rows: u16) -> bool {
        self.x < u16::MAX && self.full_rows() < rows
    }

    /// The text that paints the tower in `ink`, on a screen of `rows` rows
    /// whose last row is the ground: the full cells from the top down, then
    /// above them the glyph of the ramp for the eighths that remain.
    pub open spec fn painted(self, rows: u16, ink: Seq<char>) -> Seq<char> {
        column_run(
            self.x + 1,
            rows - self.full_rows() + 1,
            self.full_rows() as nat,
            ink,
            ramp(7),
        ) + cell(self.x + 1, rows - self.full_rows(), ink, ramp(self.heigth as int % 8))
    }

    /// The text that blanks every cell that painting the tower touches.
    pub open spec fn erased(self, rows: u16) -> Seq<char> {
        column_run(
            self.x + 1,
            rows - self.full_rows(),
            (self.full_rows() + 1) as nat,
            Seq::empty(),
            ' ',
        )
    }

    /// A tower of the given height at column `x`.
    pub fn new(x: u16, heigth: u16) -> (tower: Tower)
        ensures
            tower == (Tower { x, heigth }),
    {
        Tower { x, heigth }
    }

    /// The height of the tower.
    pub fn get_heigth(&self) -> (heigth: u16)
        ensures
            heigth == self.heigth,
    {
        self.heigth
    }

    /// The text that paints the tower in `ink` on a screen of the given
    /// columns and rows.
    pub fn print(&self, resolution: (u16, u16), ink: &str) -> (text: String)
        requires
            self.paintable(resolution.1),
        ensures
            text@ == self.painted(resolution.1, ink@),
    {
        let mut text = String::new();
        let top = resolution.1 - self.heigth / 8;
        let mut i = top;
        while i < resolution.1
            invariant
                top <= i <= resolution.1,
                top == resolution.1 - self.full_rows(),
                self.x < u16::MAX,
                text@ == column_run(self.x + 1, top + 1, (i - top) as nat, ink@, ramp(7)),
            decreases resolution.1 - i,
        {
            text.append(goto(self.x + 1, i + 1).as_str());
            text.append(ink);
            text.append(tile(7));
            i += 1;
        }
        text.append(goto(self.x + 1, top).as_str());
        text.append(ink);
        text.append(tile(self.heigth % 8));
        text
    }

    /// The text that blanks the tower on a screen of the given columns and
    /// rows.
    pub fn clear(&self, resolution: (u16, u16)) -> (text: String)
        requires
            self.erasable(resolution.1),
        ensures
            text@ == self.erased(resolution.1),
    {
        proof {
            reveal_strlit(" ");
        }
        let mut text = String::new();
        let top = resolution.1 - self.heigth / 8 - 1;
        let mut i = top;
        while i < resolution.1
            invariant
                top <= i <= resolution.1,
                top == resolution.1 - self.full_rows() - 1,
                self.x < u16::MAX,
                " "@ == seq![' '],
                text@ == column_run(self.x + 1, top + 1, (i - top) as nat, Seq::empty(), ' '),
            decreases resolution.1 - i,
        {
            text.append(goto(self.x + 1, i + 1).as_str());
            text.append(" ");
            i += 1;
        }
        text
    }
}

/// The colour sequences of the three shades, as the terminal takes them.
pub struct Palette {
    idle: String,
    swapping: String,
    confirmed: String,
}

impl Palette {
    /// The sequence that switches to `shade`.
    pub closed spec fn ink(&self, shade: Shade) -> Seq<char> {
        match shade {
            Shade::Idle => self.idle@,
            Shade::Swapping => self.swapping@,
            Shade::Confirmed => self.confirmed@,
        }
    }

    /// Each shade has either the sequence of its colour or, where the
    /// terminal is to stay without colour, none.
    pub open spec fn is_native(&self) -> bool {
        forall|shade: Shade|
            {
                let (r, g, b) = shade.components();
                #[trigger] self.ink(shade) == rgb_foreground(r, g, b) || self.ink(shade)
                    == Seq::<char>::empty()
            }
    }

    /// The palette of this process: the sequences that the terminal library
    /// writes for the three shades.
    pub fn detect() -> (palette: Palette)
        ensures
            palette.is_native(),
    {
        let (r, g, b) = Shade::Idle.rgb();
        let idle = foreground(r, g, b);
        let (r, g, b) = Shade::Swapping.rgb();
        let swapping = foreground(r, g, b);
        let (r, g, b) = Shade::Confirmed.rgb();
        let confirmed = foreground(r, g, b);
        Palette { idle, swapping, confirmed }
    }

    /// A palette of the given sequences.
    pub fn new(idle: String, swapping: String, confirmed: String) -> (palette: Palette)
        ensures
            palette.ink(Shade::Idle) == idle@,
            palette.ink(Shade::Swapping) == swapping@,
            palette.ink(Shade::Confirmed) == confirmed@,
    {
        Palette { idle, swapping, confirmed }
    }

    /// The sequence that switches to `shade`.
    pub fn code(&self, shade: Shade) -> (code: &str)
        ensures
            code@ == self.ink(shade),
    {
        match shade {
            Shade::Idle => self.idle.as_str(),
            Shade::Swapping => self.swapping.as_str(),
            Shade::Confirmed => self.confirmed.as_str(),
        }
    }
}

/// The towers after a `Place`: the tower at index `x` is overwritten, or, if
/// the list is too short for that, the new tower is appended.
pub open spec fn placed(towers: Seq<Tower>, x: u16, heigth: u16) -> Seq<Tower> {
    if x < towers.len() {
        towers.update(x as int, Tower { x, heigth })
    } else {
        towers.push(Tower { x, heigth })
    }
}

/// The towers after a `Swap`: the towers at the two indices stand at their
/// index and have exchanged their heights.
pub open spec fn swapped(towers: Seq<Tower>, x_l: u16, x_r: u16) -> Seq<Tower> {
    towers.update(x_l as int, Tower { x: x_l, heigth: towers[x_r as int].heigth }).update(
        x_r as int,
        Tower { x: x_r, heigth: towers[x_l as int].heigth },
    )
}

/// The towers after an event. A `Swap` that names a missing tower changes
/// nothing; a `VerifyStep` never does.
pub open spec fn step(towers: Seq<Tower>, event: Event) -> Seq<Tower> {
    match event {
        Event::Place { index, height } => placed(towers, index, height),
        Event::Swap { left, right } => if left < towers.len() && right < towers.len() {
            swapped(towers, left, right)
        } else {
            towers
        },
        Event::VerifyStep { index } => towers,
        Event::Clear => Seq::empty(),
    }
}

/// Whether the renderer can carry out `event` on a screen of `rows` rows: the
/// towers that the event names exist, and what it paints or erases fits.
pub open spec fn admits(towers: Seq<Tower>, rows: u16, event: Event) -> bool {
    match event {
        Event::Place { index, height } => (Tower { x: index, heigth: height }).paintable(rows),
        Event::Swap { left, right } => {
            &&& left < towers.len()
            &&& right < towers.len()
            &&& left < u16::MAX
            &&& right < u16::MAX
            &&& towers[left as int].erasable(rows)
            &&& towers[right as int].erasable(rows)
        },
        Event::VerifyStep { index } => index < towers.len() && towers[index as int].paintable(
            rows,
        ),
        Event::Clear => true,
    }
}

/// The texts that carrying out `event` writes, each of them flushed as a unit
/// before the next: a `Place` paints the new tower at rest; a `Swap` erases
/// both towers, then paints both in the swapping shade, then both at rest; a
/// `VerifyStep` paints the tower as confirmed; a `Clear` blanks the screen.
pub open spec fn frames(towers: Seq<Tower>, rows: u16, palette: Palette, event: Event) -> Seq<
    Seq<char>,
> {
    match event {
        Event::Place { index, height } => seq![
            (Tower { x: index, heigth: height }).painted(rows, palette.ink(Shade::Idle)),
        ],
        Event::Swap { left, right } => {
            let after = swapped(towers, left, right);
            seq![
                towers[left as int].erased(rows) + towers[right as int].erased(rows),
                after[left as int].painted(rows, palette.ink(Shade::Swapping))
                    + after[right as int].painted(rows, palette.ink(Shade::Swapping)),
                after[left as int].painted(rows, palette.ink(Shade::Idle))
                    + after[right as int].painted(rows, palette.ink(Shade::Idle)),
            ]
        },
        Event::VerifyStep { index } => seq![
            towers[index as int].painted(rows, palette.ink(Shade::Confirmed)),
        ],
        Event::Clear => seq![clear_screen()],
    }
}

/// The characters of each text.
pub open spec fn texts(written: Seq<String>) -> Seq<Seq<char>> {
    written.map_values(|text: String| text@)
}

/// The renderer.
pub struct Towers {
    tower_list: Vec<Tower>,
    resolution: (u16, u16),
    palette: Palette,
}

impl View for Towers {
    type V = Seq<Tower>;

    /// The towers, by index.
    closed spec fn view(&self) -> Seq<Tower> {
        self.tower_list@
    }
}

impl Towers {
    /// The columns and rows of the screen.
    pub closed spec fn screen(&self) -> (u16, u16) {
        self.resolution
    }

    /// The colour sequences in use.
    pub closed spec fn palette(&self) -> Palette {
        self.palette
    }

    /// A renderer without towers for a screen of the given columns and rows,
    /// with the palette of this process.
    pub fn new(resolution: (u16, u16)) -> (towers: Self)
        ensures
            towers@ == Seq::<Tower>::empty(),
            towers.screen() == resolution,
            towers.palette().is_native(),
    {
        Self { tower_list: Vec::new(), resolution, palette: Palette::detect() }
    }

    /// A renderer without towers for a screen of the given columns and rows,
    /// with the given palette.
    pub fn with_palette(resolution: (u16, u16), palette: Palette) -> (towers: Self)
        ensures
            towers@ == Seq::<Tower>::empty(),
            towers.screen() == resolution,
            towers.palette() == palette,
    {
        Self { tower_list: Vec::new(), resolution, palette }
    }

    /// The towers, by index.
    pub fn towers(&self) -> (towers: &Vec<Tower>)
        ensures
            towers@ == self@,
    {
        &self.tower_list
    }

    /// The colour sequences in use.
    pub fn inks(&self) -> (palette: &Palette)
        ensures
            *palette == self.palette(),
    {
        &self.palette
    }

    /// Whether `event` can be carried out on the towers as they stand.
    pub fn accepts(&self, event: &Event) -> (ok: bool)
        ensures
            ok == admits(self@, self.screen().1, *event),
    {
        let rows = self.resolution.1;
        match *event {
            Event::Place { index, height } => index < u16::MAX && height / 8 <= rows,
            Event::Swap { left, right } => {
                if (left as usize) < self.tower_list.len() && (right as usize)
                    < self.tower_list.len() && left < u16::MAX && right < u16::MAX {
                    let l = self.tower_list[left as usize];
                    let r = self.tower_list[right as usize];
                    l.x < u16::MAX && l.heigth / 8 < rows && r.x < u16::MAX && r.heigth / 8 < rows
                } else {
                    false
                }
            },
            Event::VerifyStep { index } => {
                if (index as usize) < self.tower_list.len() {
                    let tower = self.tower_list[index as usize];
                    tower.x < u16::MAX && tower.heigth / 8 <= rows
                } else {
                    false
                }
            },
            Event::Clear => true,
        }
    }

    /// Puts a tower of the given height at column `x`, over the one that
    /// stands at that index or behind the last one, and paints it at rest.
    pub fn place(&mut self, x: u16, heigth: u16) -> (written: Vec<String>)
        requires
            admits(old(self)@, old(self).screen().1, Event::Place { index: x, height: heigth }),
        ensures
            final(self)@ == placed(old(self)@, x, heigth),
            final(self).screen() == old(self).screen(),
            final(self).palette() == old(self).palette(),
            texts(written@) == frames(
                old(self)@,
                old(self).screen().1,
                old(self).palette(),
                Event::Place { index: x, height: heigth },
            ),
    {
        let new_tower = Tower { x, heigth };
        let text = new_tower.print(self.resolution, self.palette.code(Shade::Idle));
        if (x as usize) < self.tower_list.len() {
            self.tower_list.set(x as usize, new_tower);
        } else {
            self.tower_list.push(new_tower);
        }
        let mut written = Vec::new();
        written.push(text);
        assert(texts(written@) =~= seq![text@]);
        written
    }

    /// Exchanges the heights of the towers at `x_l` and `x_r`: erases both,
    /// then paints both in the swapping shade and at once again at rest.
    pub fn swap(&mut self, x_l: u16, x_r: u16) -> (written: Vec<String>)
        requires
            admits(old(self)@, old(self).screen().1, Event::Swap { left: x_l, right: x_r }),
        ensures
            final(self)@ == swapped(old(self)@, x_l, x_r),
            final(self).screen() == old(self).screen(),
            final(self).palette() == old(self).palette(),
            texts(written@) == frames(
                old(self)@,
                old(self).screen().1,
                old(self).palette(),
                Event::Swap { left: x_l, right: x_r },
            ),
    {
        let x_l_u = x_l as usize;
        let x_r_u = x_r as usize;

        let mut erase = self.tower_list[x_l_u].clear(self.resolution);
        erase.append(self.tower_list[x_r_u].clear(self.resolution).as_str());

        let tower1heigth = self.tower_list[x_l_u].get_heigth();
        let tower2heigth = self.tower_list[x_r_u].get_heigth();

        self.tower_list.set(x_l_u, Tower { x: x_l, heigth: tower2heigth });
        self.tower_list.set(x_r_u, Tower { x: x_r, heigth: tower1heigth });

        let red = self.palette.code(Shade::Swapping);
        let mut flash = self.tower_list[x_l_u].print(self.resolution, red);
        flash.append(self.tower_list[x_r_u].print(self.resolution, red).as_str());

        let white = self.palette.code(Shade::Idle);
        let mut rest = self.tower_list[x_l_u].print(self.resolution, white);
        rest.append(self.tower_list[x_r_u].print(self.resolution, white).as_str());

        let mut written = Vec::new();
        written.push(erase);
        written.push(flash);
        written.push(rest);
        assert(texts(written@) =~= seq![erase@, flash@, rest@]);
        written
    }

    /// Paints the tower at `x` as confirmed. The towers stay as they are.
    pub fn verify(&mut self, x: u16) -> (written: Vec<String>)
        requires
            admits(old(self)@, old(self).screen().1, Event::VerifyStep { index: x }),
        ensures
            final(self)@ == old(self)@,
            final(self).screen() == old(self).screen(),
            final(self).palette() == old(self).palette(),
            texts(written@) == frames(
                old(self)@,
                old(self).screen().1,
                old(self).palette(),
                Event::VerifyStep { index: x },
            ),
    {
        let text = self.tower_list[x as usize].print(
            self.resolution,
            self.palette.code(Shade::Confirmed),
        );
        let mut written = Vec::new();
        written.push(text);
        assert(texts(written@) =~= seq![text@]);
        written
    }

    /// Discards every tower and blanks the screen. Without towers that is
    /// blanking the screen and nothing else.
    pub fn clear(&mut self) -> (written: Vec<String>)
        ensures
            final(self)@ == Seq::<Tower>::empty(),
            old(self)@.len() == 0 ==> final(self)@ == old(self)@,
            final(self).screen() == old(self).screen(),
            final(self).palette() == old(self).palette(),
            texts(written@) == frames(
                old(self)@,
                old(self).screen().1,
                old(self).palette(),
                Event::Clear,
            ),
    {
        let text = clear_all();
        self.tower_list = Vec::new();
        let mut written = Vec::new();
        written.push(text);
        assert(texts(written@) =~= seq![text@]);
        written
    }

    /// Carries out one event: the towers change as `step` says, and the texts
    /// to write are those of `frames`.
    pub fn process(&mut self, event: Event) -> (written: Vec<String>)
        requires
            admits(old(self)@, old(self).screen().1, event),
        ensures
            final(self)@ == step(old(self)@, event),
            final(self).screen() == old(self).screen(),
            final(self).palette() == old(self).palette(),
            texts(written@) == frames(
                old(self)@,
                old(self).screen().1,
                old(self).palette(),
                event,
            ),
    {
        match event {
            Event::Place { index, height } => self.place(index, height),
            Event::Swap { left, right } => self.swap(left, right),
            Event::VerifyStep { index } => self.verify(index),
            Event::Clear => self.clear(),
        }
    }
}

/// Why the renderer turns a record down.
#[derive(Clone, Copy, Debug, PartialEq, Eq, Structural)]
pub enum Fault {
    /// The kind tag of the record is none of the four known ones.
    UnknownKind,
    /// The event names a tower that does not exist, or one that does not fit
    /// the screen.
    Inadmissible,
}

/// One turn of the renderer: reads the record, and if it stands for an event
/// that the towers admit, carries it out and hands back the texts to write.
/// Otherwise the towers stay as they are and the fault says why.
pub fn run(towers: &mut Towers, message: [u16; 3]) -> (outcome: Result<Vec<String>, Fault>)
    ensures
        final(towers).screen() == old(towers).screen(),
        final(towers).palette() == old(towers).palette(),
        match Event::parse(message@) {
            None => outcome == Err::<Vec<String>, Fault>(Fault::UnknownKind) && final(towers)@ == old(
                towers,
            )@,
            Some(event) => if admits(old(towers)@, old(towers).screen().1, event) {
                &&& outcome is Ok
                &&& final(towers)@ == step(old(towers)@, event)
                &&& texts(outcome->Ok_0@) == frames(
                    old(towers)@,
                    old(towers).screen().1,
                    old(towers).palette(),
                    event,
                )
            } else {
                outcome == Err::<Vec<String>, Fault>(Fault::Inadmissible) && final(towers)@ == old(
                    towers,
                )@
            },
        },
{
    match Event::decode(message) {
        None => Err(Fault::UnknownKind),
        Some(event) => {
            if towers.accepts(&event) {
                Ok(towers.process(event))
            } else {
                Err(Fault::Inadmissible)
            }
        },
    }
}

/// Clearing a renderer that has no towers leaves it as it was.
pub proof fn lemma_clear_without_towers()
    ensures
        step(Seq::<Tower>::empty(), Event::Clear) == Seq::<Tower>::empty(),
{
}

} // verus!
