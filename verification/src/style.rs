//! Colour and weight of text on a terminal.

use crate::text;
use vstd::prelude::*;

verus! {

/// Which colours a terminal can show.
#[derive(Copy, Clone, PartialEq, Eq, Debug, Structural)]
pub enum StyleSupport {
    Plain,
    FourBit,
    EightBit,
    TwentyFourBit,
}

/// A colour as a terminal is told of it: an entry of its palette, or amounts of
/// red, green and blue.
#[derive(Copy, Clone, PartialEq, Eq, Debug, Structural)]
pub enum Colour {
    Fixed(u8),
    RGB(u8, u8, u8),
}

/// How text is to look on a terminal.
#[derive(Copy, Clone, PartialEq, Eq, Debug)]
pub struct Style {
    pub support: StyleSupport,
    pub is_bold: bool,
    pub foreground: Option<Colour>,
}

/// The palette entry closest to the given amounts: one of six levels of each
/// colour, in the cube that starts at entry 16.
pub open spec fn palette(r: u8, g: u8, b: u8) -> u8 {
    (16 + 36 * (r / 43) + 6 * (g / 43) + b / 43) as u8
}

/// The numbers that select a foreground colour.
pub open spec fn colour_code(colour: Colour) -> Seq<char> {
    match colour {
        Colour::Fixed(n) => "38;5;"@ + text::decimal_text(n as nat),
        Colour::RGB(r, g, b) => "38;2;"@ + text::decimal_text(r as nat) + ";"@
            + text::decimal_text(g as nat) + ";"@ + text::decimal_text(b as nat),
    }
}

/// The numbers that select a style, parted by semicolons.
pub open spec fn style_code(is_bold: bool, foreground: Option<Colour>) -> Seq<char> {
    match (is_bold, foreground) {
        (false, None) => Seq::empty(),
        (true, None) => "1"@,
        (false, Some(colour)) => colour_code(colour),
        (true, Some(colour)) => "1;"@ + colour_code(colour),
    }
}

/// `input` between the escape sequences that select a style and end it. Text
/// without any style stays as it is.
pub open spec fn painted(
    is_bold: bool,
    foreground: Option<Colour>,
    input: Seq<char>,
) -> Seq<char> {
    if !is_bold && foreground is None {
        input
    } else {
        "\x1B["@ + style_code(is_bold, foreground) + "m"@ + input + "\x1B[0m"@
    }
}

/// `ansi_term::Style::paint`, shown as a string: the escape sequence for bold and
/// for the foreground colour, the text, and the sequence that resets the style;
/// with neither bold nor a colour the text alone.
#[verifier::external_body]
fn ansi_paint(is_bold: bool, foreground: Option<Colour>, input: &str) -> (r: String)
    ensures
        r@ == painted(is_bold, foreground, input@),
{
    let mut style = ansi_term::Style::new();
    style.is_bold = is_bold;
    style.foreground = match foreground {
        Some(Colour::Fixed(n)) => Some(ansi_term::Colour::Fixed(n)),
        Some(Colour::RGB(r, g, b)) => Some(ansi_term::Colour::RGB(r, g, b)),
        None => None,
    };
    style.paint(input).to_string()
}

impl StyleSupport {
    /// A style that leaves text as it is.
    pub open spec fn plain(self) -> Style {
        Style { support: self, is_bold: false, foreground: None }
    }

    /// A style that leaves text as it is.
    pub fn style(&self) -> (r: Style)
        ensures
            r == self.plain(),
            r.wf(),
    {
        Style { support: *self, is_bold: false, foreground: None }
    }
}

impl Style {
    /// A terminal that shows no styles is sent none.
    pub open spec fn wf(self) -> bool {
        self.support == StyleSupport::Plain ==> !self.is_bold && self.foreground is None
    }

    /// The same style in the given colour, as far as the terminal shows it.
    pub open spec fn coloured(self, r: u8, g: u8, b: u8) -> Style {
        match self.support {
            StyleSupport::EightBit => Style {
                foreground: Some(Colour::Fixed(palette(r, g, b))),
                ..self
            },
            StyleSupport::TwentyFourBit => Style {
                foreground: Some(Colour::RGB(r, g, b)),
                ..self
            },
            _ => self,
        }
    }

    /// The same style in bold, as far as the terminal shows it.
    pub open spec fn bolder(self) -> Style {
        if self.support == StyleSupport::Plain {
            self
        } else {
            Style { is_bold: true, ..self }
        }
    }

    /// `input` as it is sent to the terminal.
    pub open spec fn paints(self, input: Seq<char>) -> Seq<char> {
        painted(self.is_bold, self.foreground, input)
    }

    /// The same style in the given colour, as far as the terminal shows it.
    /// Terminals of sixteen colours are not catered for.
    pub fn color(&self, r: u8, g: u8, b: u8) -> (s: Style)
        requires
            self.wf(),
            self.support != StyleSupport::FourBit,
        ensures
            s.wf(),
            s == self.coloured(r, g, b),
    {
        match self.support {
            StyleSupport::Plain => *self,
            StyleSupport::FourBit => *self,
            StyleSupport::EightBit => Style {
                support: self.support,
                is_bold: self.is_bold,
                foreground: Some(Colour::Fixed(16 + 36 * (r / 43) + 6 * (g / 43) + (b / 43))),
            },
            StyleSupport::TwentyFourBit => Style {
                support: self.support,
                is_bold: self.is_bold,
                foreground: Some(Colour::RGB(r, g, b)),
            },
        }
    }

    /// The same style in bold, as far as the terminal shows it.
    pub fn bold(&self) -> (s: Style)
        requires
            self.wf(),
        ensures
            s.wf(),
            s == self.bolder(),
    {
        match self.support {
            StyleSupport::Plain => *self,
            _ => Style { support: self.support, is_bold: true, foreground: self.foreground },
        }
    }

    /// `input` as it is sent to the terminal.
    pub fn paint(self, input: &str) -> (r: String)
        requires
            self.wf(),
        ensures
            r@ == self.paints(input@),
            self.support == StyleSupport::Plain ==> r@ == input@,
    {
        ansi_paint(self.is_bold, self.foreground, input)
    }
}

/// Whether a colour is bright enough to be read on a dark ground.
pub open spec fn is_bright(rgb: (u8, u8, u8)) -> bool {
    (2 * rgb.0 + 3 * rgb.1 + rgb.2) / 6 > 100
}

/// Whether a colour is bright enough to be read on a dark ground.
pub fn bright(rgb: (u8, u8, u8)) -> (r: bool)
    ensures
        r == is_bright(rgb),
{
    let (r, g, b) = (rgb.0 as u16, rgb.1 as u16, rgb.2 as u16);
    (r + r + g + g + g + b) / 6 > 100
}

/// How a process is shown: `name`, in colour `rgb` if there is one, in bold if
/// asked for.
pub open spec fn shown_as(
    name: Seq<char>,
    rgb: Option<(u8, u8, u8)>,
    bold: bool,
    support: StyleSupport,
) -> Seq<char> {
    let colour = match rgb {
        Some((r, g, b)) => support.plain().coloured(r, g, b),
        None => support.plain(),
    };
    (if bold {
        colour.bolder()
    } else {
        colour
    }).paints(name)
}

/// How a process is shown: `name`, in colour `rgb` if there is one, in bold if
/// asked for.
pub fn show_as(name: &str, rgb: Option<(u8, u8, u8)>, bold: bool, support: StyleSupport) -> (r:
    String)
    requires
        support != StyleSupport::FourBit,
    ensures
        r@ == shown_as(name@, rgb, bold, support),
        support == StyleSupport::Plain ==> r@ == name@,
{
    let plain = support.style();
    let mut color = match rgb {
        Some((r, g, b)) => plain.color(r, g, b),
        None => plain,
    };
    if bold {
        color = color.bold();
    }
    color.paint(name)
}

/// On a terminal that shows no styles, text is shown as it is.
pub proof fn law_no_styles_no_codes(
    name: Seq<char>,
    rgb: Option<(u8, u8, u8)>,
    bold: bool,
)
    ensures
        shown_as(name, rgb, bold, StyleSupport::Plain) == name,
{
}

proof fn lemma_levels(x: int, y: int, z: int)
    requires
        0 <= x < 6,
        0 <= y < 6,
        0 <= z < 6,
    ensures
        (36 * x + 6 * y + z) / 36 == x,
        (36 * x + 6 * y + z) / 6 == 6 * x + y,
        (6 * x + y) % 6 == y,
        (36 * x + 6 * y + z) % 6 == z,
{
}

/// A colour of the palette tells how much red, green and blue it is made of, in six
/// levels each.
pub proof fn law_the_palette_keeps_the_levels(r: u8, g: u8, b: u8)
    ensures
        16 <= palette(r, g, b) <= 231,
        (palette(r, g, b) - 16) / 36 == r as int / 43,
        (palette(r, g, b) - 16) / 6 % 6 == g as int / 43,
        (palette(r, g, b) - 16) % 6 == b as int / 43,
{
    let (x, y, z) = (r as int / 43, g as int / 43, b as int / 43);
    assert(0 <= x < 6 && 0 <= y < 6 && 0 <= z < 6);
    lemma_levels(x, y, z);
    assert(palette(r, g, b) - 16 == 36 * x + 6 * y + z);
}

/// More light never makes a colour too dark, and green counts for more than red, and
/// red for more than blue.
pub proof fn law_brighter_stays_bright(r: u8, g: u8, b: u8, more: (u8, u8, u8), d: u8)
    ensures
        is_bright((r, g, b)) && r <= more.0 && g <= more.1 && b <= more.2 ==> is_bright(more),
        is_bright((d, d, d)) <==> d > 100,
        is_bright((r, g, b)) && g < r ==> is_bright((g, r, b)),
        is_bright((r, g, b)) && r < b ==> is_bright((b, g, r)),
{
}

/// However text is painted, it stands there whole, behind the sequence that starts a
/// style and before the one that ends it.
pub proof fn law_painted_text_is_whole(style: Style, input: Seq<char>)
    ensures
        style.paints(input) == input || exists|codes: Seq<char>|
            style.paints(input) == seq!['\x1B', '['] + #[trigger] (codes + input) + seq![
                '\x1B',
                '[',
                '0',
                'm',
            ] && codes.len() > 0 && codes.last() == 'm',
        !style.is_bold && style.foreground is None ==> style.paints(input) == input,
        style.is_bold || style.foreground is Some ==> style.paints(input).len() > input.len(),
{
    reveal_strlit("\x1B[");
    reveal_strlit("m");
    reveal_strlit("\x1B[0m");
    let codes = style_code(style.is_bold, style.foreground) + "m"@;
    assert("\x1B["@ =~= seq!['\x1B', '[']);
    assert("\x1B[0m"@ =~= seq!['\x1B', '[', '0', 'm']);
    if style.is_bold || style.foreground is Some {
        assert(style.paints(input) =~= seq!['\x1B', '['] + (codes + input) + seq![
            '\x1B',
            '[',
            '0',
            'm',
        ]);
        assert(codes.last() == 'm');
    }
}

/// A style only ever gains what a terminal shows: bold and colour change nothing on
/// one that shows none, and neither changes the other.
pub proof fn law_bold_and_colour_do_not_mix(style: Style, r: u8, g: u8, b: u8)
    ensures
        style.bolder().foreground == style.foreground,
        style.coloured(r, g, b).is_bold == style.is_bold,
        style.coloured(r, g, b).bolder() == style.bolder().coloured(r, g, b),
        style.support != StyleSupport::Plain ==> style.bolder().is_bold,
        style.support == StyleSupport::Plain ==> style.bolder() == style && style.coloured(r, g, b)
            == style,
        style.support == StyleSupport::TwentyFourBit ==> style.coloured(r, g, b).foreground == Some(
            Colour::RGB(r, g, b),
        ),
        style.support == StyleSupport::EightBit ==> (style.coloured(r, g, b).foreground matches Some(
            Colour::Fixed(n),
        ) && n >= 16),
{
}

} // verus!
