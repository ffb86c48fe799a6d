use cursive::theme::Color as CursiveColor;
use vstd::prelude::*;
use vstd::utf8::is_ascii_chars;

verus! {

/// Index of the base colour black.
pub const BLACK: u8 = 0;
/// Index of the base colour green.
pub const GREEN: u8 = 2;
/// Index of the base colour blue.
pub const BLUE: u8 = 4;
/// Index of the base colour cyan.
pub const CYAN: u8 = 6;
/// Index of the base colour white.
pub const WHITE: u8 = 7;

/// A terminal colour. Base colours are given by their index, 0 (black) to
/// 7 (white), in the order black, red, green, yellow, blue, magenta, cyan,
/// white.
#[derive(Clone, Copy, Debug, PartialEq, Eq, Structural)]
pub enum Color {
    TerminalDefault,
    Dark(u8),
    Light(u8),
    Rgb(u8, u8, u8),
    RgbLowRes(u8, u8, u8),
}

/// How one row is painted.
#[derive(Clone, Copy, Debug, PartialEq, Eq, Structural)]
pub enum Style {
    /// The theme's primary style.
    Primary,
    /// The theme's highlight style.
    Highlight,
    /// A foreground colour over a background colour.
    Colors { front: Color, back: Color },
}

/// The style of an entry's row, unfocused and focused.
#[derive(Clone, Copy, Debug, PartialEq, Eq, Structural)]
pub struct ColorPair {
    pub regular: Style,
    pub highlight: Style,
}

/// What a file system entry is by its own type (a link is not followed).
#[derive(Clone, Copy, Debug, PartialEq, Eq, Structural)]
pub enum FileKind {
    Dir,
    File,
    Symlink,
    Other,
}

/// The colour configured for each file extension, as text; the first pair
/// with a given extension counts.
pub struct ColorTable {
    pub entries: Vec<(String, String)>,
}

/// What `cursive::theme::Color::parse` makes of a colour's text.
pub uninterp spec fn parsed_color(s: Seq<char>) -> Option<Color>;

/// Relies on `cursive::theme::Color::parse`: reads a colour name (`"red"`,
/// `"light green"`, `"default"`) or a hex colour (`"#123456"`). The result
/// depends on the text alone. Only ASCII text is handed over: the parser
/// slices by byte position and can panic on other text.
#[verifier::external_body]
fn parse_color(s: &str) -> (r: Option<Color>)
    requires
        is_ascii_chars(s@),
    ensures
        r == parsed_color(s@),
{
    match CursiveColor::parse(s) {
        None => None,
        Some(CursiveColor::TerminalDefault) => Some(Color::TerminalDefault),
        Some(CursiveColor::Dark(b)) => Some(Color::Dark(b as u8)),
        Some(CursiveColor::Light(b)) => Some(Color::Light(b as u8)),
        Some(CursiveColor::Rgb(r, g, b)) => Some(Color::Rgb(r, g, b)),
        Some(CursiveColor::RgbLowRes(r, g, b)) => Some(Color::RgbLowRes(r, g, b)),
    }
}

impl View for ColorTable {
    type V = Seq<(Seq<char>, Seq<char>)>;

    open spec fn view(&self) -> Seq<(Seq<char>, Seq<char>)> {
        self.entries@.map_values(|p: (String, String)| (p.0@, p.1@))
    }
}

/// The colour text configured for `ext`: that of the first pair that names it.
pub open spec fn lookup(t: Seq<(Seq<char>, Seq<char>)>, ext: Seq<char>) -> Option<Seq<char>>
    decreases t.len(),
{
    if t.len() == 0 {
        None
    } else if t[0].0 == ext {
        Some(t[0].1)
    } else {
        lookup(t.drop_first(), ext)
    }
}

/// The colour configured for `ext`, where one is configured and its text is
/// ASCII and names a colour; any other text names none.
pub open spec fn configured_color(t: Seq<(Seq<char>, Seq<char>)>, ext: Seq<char>) -> Option<Color> {
    match lookup(t, ext) {
        Some(s) => if is_ascii_chars(s) { parsed_color(s) } else { None },
        None => None,
    }
}

impl ColorTable {
    /// A table with no extension in it.
    pub fn empty() -> (r: ColorTable)
        ensures
            r@ == Seq::<(Seq<char>, Seq<char>)>::empty(),
    {
        let r = ColorTable { entries: Vec::new() };
        assert(r@ =~= Seq::<(Seq<char>, Seq<char>)>::empty());
        r
    }

    /// Adds the colour text `color` for files that end in `.ext`; an earlier
    /// pair for the same extension keeps precedence.
    pub fn add(&mut self, ext: String, color: String)
        ensures
            final(self)@ == old(self)@.push((ext@, color@)),
    {
        self.entries.push((ext, color));
        assert(final(self)@ =~= old(self)@.push((ext@, color@)));
    }

    /// The colour text configured for `ext`.
    pub fn get(&self, ext: &str) -> (r: Option<&String>)
        ensures
            match r {
                Some(s) => lookup(self@, ext@) == Some(s@),
                None => lookup(self@, ext@) is None,
            },
    {
        let mut i: usize = 0;
        assert(self@.skip(0) =~= self@);
        while i < self.entries.len()
            invariant
                i <= self.entries@.len(),
                lookup(self@, ext@) == lookup(self@.skip(i as int), ext@),
            decreases self.entries@.len() - i,
        {
            assert(self@.skip(i as int)[0] == self@[i as int]);
            if crate::order::same_name(self.entries[i].0.as_str(), ext) {
                return Some(&self.entries[i].1);
            }
            assert(self@.skip(i as int).drop_first() =~= self@.skip(i + 1));
            i = i + 1;
        }
        None
    }
}

/// Foreground `c` over black, and the reverse when focused.
pub open spec fn pair_on_black(c: Color) -> ColorPair {
    ColorPair {
        regular: Style::Colors { front: c, back: Color::Dark(BLACK) },
        highlight: Style::Colors { front: Color::Dark(BLACK), back: c },
    }
}

/// The theme's own styles.
pub open spec fn default_pair() -> ColorPair {
    ColorPair { regular: Style::Primary, highlight: Style::Highlight }
}

/// Some execute permission bit is set in `mode`.
pub open spec fn is_executable(mode: u32) -> bool {
    mode & 0o111u32 != 0
}

/// The colours of an entry: directories blue, executable files green, other
/// files the colour configured for their extension (the theme's styles where
/// none applies), links cyan, anything else the theme's styles.
pub open spec fn resolved_pair(kind: FileKind, mode: u32, configured: Option<Color>) -> ColorPair {
    match kind {
        FileKind::Dir => pair_on_black(Color::Dark(BLUE)),
        FileKind::File => if is_executable(mode) {
            pair_on_black(Color::Dark(GREEN))
        } else {
            match configured {
                Some(c) => pair_on_black(c),
                None => default_pair(),
            }
        },
        FileKind::Symlink => pair_on_black(Color::Dark(CYAN)),
        FileKind::Other => default_pair(),
    }
}

/// The colours of the entry `name`, of type `kind` with permission bits
/// `mode`, under the extension colours `t`.
pub open spec fn entry_colors(kind: FileKind, mode: u32, name: Seq<char>, t: Seq<(Seq<char>, Seq<char>)>) -> ColorPair {
    resolved_pair(
        kind,
        mode,
        match extension_of(name) {
            Some(e) => configured_color(t, e),
            None => None,
        },
    )
}

fn on_black(c: Color) -> (r: ColorPair)
    ensures
        r == pair_on_black(c),
{
    ColorPair {
        regular: Style::Colors { front: c, back: Color::Dark(BLACK) },
        highlight: Style::Colors { front: Color::Dark(BLACK), back: c },
    }
}

impl Default for ColorPair {
    fn default() -> (r: ColorPair)
        ensures
            r == default_pair(),
    {
        ColorPair { regular: Style::Primary, highlight: Style::Highlight }
    }
}

/// The last position of a `'.'` in `s`, or -1.
pub open spec fn last_dot(s: Seq<char>) -> int
    decreases s.len(),
{
    if s.len() == 0 {
        -1
    } else if s.last() == '.' {
        s.len() - 1
    } else {
        last_dot(s.drop_last())
    }
}

/// The extension of a file name: what follows its last dot, where that dot
/// is not the name's first character.
pub open spec fn extension_of(name: Seq<char>) -> Option<Seq<char>> {
    let i = last_dot(name);
    if i <= 0 {
        None
    } else {
        Some(name.subrange(i + 1, name.len() as int))
    }
}

/// The extension of the file name `name` (see [`extension_of`]).
pub fn extension(name: &str) -> (r: Option<&str>)
    ensures
        match r {
            Some(e) => extension_of(name@) == Some(e@),
            None => extension_of(name@) is None,
        },
{
    let len = name.unicode_len();
    let mut i: usize = len;
    assert(name@.subrange(0, len as int) =~= name@);
    while i > 0
        invariant
            i <= len == name@.len(),
            last_dot(name@) == last_dot(name@.subrange(0, i as int)),
        decreases i,
    {
        assert(name@.subrange(0, i as int).drop_last() =~= name@.subrange(0, i - 1));
        if name.get_char(i - 1) == '.' {
            if i == 1 {
                return None;
            }
            return Some(name.substring_char(i, len));
        }
        i = i - 1;
    }
    None
}

impl ColorPair {
    /// The colours for an entry of type `kind` with permission bits `mode`,
    /// given the colour configured for its extension, if any applies.
    pub fn resolve(kind: FileKind, mode: u32, configured: Option<Color>) -> (r: ColorPair)
        ensures
            r == resolved_pair(kind, mode, configured),
    {
        match kind {
            FileKind::Dir => on_black(Color::Dark(BLUE)),
            FileKind::File => if mode & 0o111u32 != 0 {
                on_black(Color::Dark(GREEN))
            } else {
                match configured {
                    Some(c) => on_black(c),
                    None => ColorPair::default(),
                }
            },
            FileKind::Symlink => on_black(Color::Dark(CYAN)),
            FileKind::Other => ColorPair::default(),
        }
    }

    /// The colours of the entry `name`, of type `kind` with permission bits
    /// `mode`, under the extension colours of `table`.
    pub fn new(kind: FileKind, mode: u32, name: &str, table: &ColorTable) -> (r: ColorPair)
        ensures
            r == entry_colors(kind, mode, name@, table@),
    {
        let ext = extension(name);
        let configured = match ext {
            Some(e) => match table.get(e) {
                Some(s) => if s.as_str().is_ascii() {
                    parse_color(s.as_str())
                } else {
                    None
                },
                None => None,
            },
            None => None,
        };
        ColorPair::resolve(kind, mode, configured)
    }
}

} // verus!
