//! From ANSI foreground escape codes to terminal styles.

use vstd::prelude::*;
use crate::text::{chars_of, decimal, replace_all};

verus! {

/// The sixteen foreground colours of a terminal.
#[derive(Clone, Copy, Debug, PartialEq, Eq, Structural)]
pub enum TermColor {
    Black,
    Red,
    Green,
    Yellow,
    Blue,
    Magenta,
    Cyan,
    White,
    BrightBlack,
    BrightRed,
    BrightGreen,
    BrightYellow,
    BrightBlue,
    BrightMagenta,
    BrightCyan,
    BrightWhite,
}

/// A piece of text with the style it is to be shown in.
pub struct StyledText {
    pub color: TermColor,
    pub bold: bool,
    pub text: String,
}

/// The colour of a "select graphic rendition" number: 30 to 37 are the
/// standard colours, 90 to 97 their bright variants. Every other number
/// gives white.
pub open spec fn color_of_number(n: int) -> TermColor {
    if n == 30 {
        TermColor::Black
    } else if n == 31 {
        TermColor::Red
    } else if n == 32 {
        TermColor::Green
    } else if n == 33 {
        TermColor::Yellow
    } else if n == 34 {
        TermColor::Blue
    } else if n == 35 {
        TermColor::Magenta
    } else if n == 36 {
        TermColor::Cyan
    } else if n == 90 {
        TermColor::BrightBlack
    } else if n == 91 {
        TermColor::BrightRed
    } else if n == 92 {
        TermColor::BrightGreen
    } else if n == 93 {
        TermColor::BrightYellow
    } else if n == 94 {
        TermColor::BrightBlue
    } else if n == 95 {
        TermColor::BrightMagenta
    } else if n == 96 {
        TermColor::BrightCyan
    } else if n == 97 {
        TermColor::BrightWhite
    } else {
        TermColor::White
    }
}

/// Where the parameter of an escape code starts: 1 after the escape
/// character itself, 3 after its spelling as a NUL followed by "33".
/// `None` where the text starts with neither.
pub open spec fn escape_len(code: Seq<char>) -> Option<int> {
    if code.len() >= 1 && code[0] == '\x1b' {
        Some(1)
    } else if code.len() >= 3 && code[0] == '\0' && code[1] == '3' && code[2] == '3' {
        Some(3)
    } else {
        None
    }
}

/// The value of a decimal digit character, if it is one between '0' and '7'.
pub open spec fn low_digit(c: char) -> Option<int> {
    if c == '0' {
        Some(0)
    } else if c == '1' {
        Some(1)
    } else if c == '2' {
        Some(2)
    } else if c == '3' {
        Some(3)
    } else if c == '4' {
        Some(4)
    } else if c == '5' {
        Some(5)
    } else if c == '6' {
        Some(6)
    } else if c == '7' {
        Some(7)
    } else {
        None
    }
}

/// The number of a recognised foreground code: an escape, '[', a '3' or a
/// '9', a digit from 0 to 7, 'm', and nothing more.
pub open spec fn foreground_number(code: Seq<char>) -> Option<int> {
    match escape_len(code) {
        Some(k) => {
            if code.len() == k + 4 && code[k] == '[' && code[k + 3] == 'm' && (code[k + 1] == '3'
                || code[k + 1] == '9') {
                match low_digit(code[k + 2]) {
                    Some(d) => Some(
                        if code[k + 1] == '3' {
                            30 + d
                        } else {
                            90 + d
                        },
                    ),
                    None => None,
                }
            } else {
                None
            }
        },
        None => None,
    }
}

/// The style that an ANSI code asks for: the colour of a recognised
/// foreground code, and white for everything else.
pub open spec fn style_of(code: Seq<char>) -> TermColor {
    match foreground_number(code) {
        Some(n) => color_of_number(n),
        None => TermColor::White,
    }
}

/// A code that is not a recognised foreground code gives white.
pub proof fn lemma_unrecognised_is_white(code: Seq<char>)
    requires
        foreground_number(code) is None,
    ensures
        style_of(code) == TermColor::White,
{
}

/// A recognised foreground code is five or seven characters long and its
/// number lies in 30..=37 or in 90..=97.
pub proof fn lemma_recognised_shape(code: Seq<char>)
    requires
        foreground_number(code) is Some,
    ensures
        code.len() == 5 || code.len() == 7,
        30 <= foreground_number(code)->0 <= 37 || 90 <= foreground_number(code)->0 <= 97,
{
}

fn color_from_number(n: u32) -> (c: TermColor)
    ensures
        c == color_of_number(n as int),
{
    if n == 30 {
        TermColor::Black
    } else if n == 31 {
        TermColor::Red
    } else if n == 32 {
        TermColor::Green
    } else if n == 33 {
        TermColor::Yellow
    } else if n == 34 {
        TermColor::Blue
    } else if n == 35 {
        TermColor::Magenta
    } else if n == 36 {
        TermColor::Cyan
    } else if n == 90 {
        TermColor::BrightBlack
    } else if n == 91 {
        TermColor::BrightRed
    } else if n == 92 {
        TermColor::BrightGreen
    } else if n == 93 {
        TermColor::BrightYellow
    } else if n == 94 {
        TermColor::BrightBlue
    } else if n == 95 {
        TermColor::BrightMagenta
    } else if n == 96 {
        TermColor::BrightCyan
    } else if n == 97 {
        TermColor::BrightWhite
    } else {
        TermColor::White
    }
}

fn low_digit_value(c: char) -> (d: Option<u32>)
    ensures
        match d {
            Some(v) => low_digit(c) == Some(v as int) && v < 8,
            None => low_digit(c) is None,
        },
{
    if c == '0' {
        Some(0)
    } else if c == '1' {
        Some(1)
    } else if c == '2' {
        Some(2)
    } else if c == '3' {
        Some(3)
    } else if c == '4' {
        Some(4)
    } else if c == '5' {
        Some(5)
    } else if c == '6' {
        Some(6)
    } else if c == '7' {
        Some(7)
    } else {
        None
    }
}

/// Maps an ANSI escape code to a terminal style. Total: a code that is not a
/// recognised foreground code gives white.
pub fn ansi_to_style(code: &str) -> (c: TermColor)
    ensures
        c == style_of(code@),
{
    let cs = chars_of(code);
    let n: usize = cs.len();
    let k: usize = if n >= 1 && cs[0] == '\x1b' {
        1
    } else if n >= 3 && cs[0] == '\0' && cs[1] == '3' && cs[2] == '3' {
        3
    } else {
        return TermColor::White;
    };
    if n != k + 4 || cs[k] != '[' || cs[k + 3] != 'm' {
        return TermColor::White;
    }
    let bright: bool = cs[k + 1] == '9';
    if !bright && cs[k + 1] != '3' {
        return TermColor::White;
    }
    match low_digit_value(cs[k + 2]) {
        Some(d) => color_from_number(
            if bright {
                90 + d
            } else {
                30 + d
            },
        ),
        None => TermColor::White,
    }
}

/// The text in the style that the ANSI code asks for, not bold.
pub fn ansi_to_colored(ansi: &str, text: &str) -> (styled: StyledText)
    ensures
        styled.color == style_of(ansi@),
        !styled.bold,
        styled.text@ == text@,
{
    StyledText { color: ansi_to_style(ansi), bold: false, text: String::from_str(text) }
}

impl StyledText {
    /// The same text and colour, in bold.
    pub fn bold(self) -> (styled: StyledText)
        ensures
            styled.color == self.color,
            styled.bold,
            styled.text@ == self.text@,
    {
        StyledText { color: self.color, bold: true, text: self.text }
    }
}

/// The name of a colour: lower case, with "bright " before a bright variant.
pub open spec fn color_name(c: TermColor) -> Seq<char> {
    match c {
        TermColor::Black => "black"@,
        TermColor::Red => "red"@,
        TermColor::Green => "green"@,
        TermColor::Yellow => "yellow"@,
        TermColor::Blue => "blue"@,
        TermColor::Magenta => "magenta"@,
        TermColor::Cyan => "cyan"@,
        TermColor::White => "white"@,
        TermColor::BrightBlack => "bright black"@,
        TermColor::BrightRed => "bright red"@,
        TermColor::BrightGreen => "bright green"@,
        TermColor::BrightYellow => "bright yellow"@,
        TermColor::BrightBlue => "bright blue"@,
        TermColor::BrightMagenta => "bright magenta"@,
        TermColor::BrightCyan => "bright cyan"@,
        TermColor::BrightWhite => "bright white"@,
    }
}

impl TermColor {
    /// The colour's name.
    pub fn name(&self) -> (s: &'static str)
        ensures
            s@ == color_name(*self),
    {
        match self {
            TermColor::Black => "black",
            TermColor::Red => "red",
            TermColor::Green => "green",
            TermColor::Yellow => "yellow",
            TermColor::Blue => "blue",
            TermColor::Magenta => "magenta",
            TermColor::Cyan => "cyan",
            TermColor::White => "white",
            TermColor::BrightBlack => "bright black",
            TermColor::BrightRed => "bright red",
            TermColor::BrightGreen => "bright green",
            TermColor::BrightYellow => "bright yellow",
            TermColor::BrightBlue => "bright blue",
            TermColor::BrightMagenta => "bright magenta",
            TermColor::BrightCyan => "bright cyan",
            TermColor::BrightWhite => "bright white",
        }
    }
}

/// The number of a colour's foreground code: 30 to 37 for the standard
/// colours, 90 to 97 for the bright ones.
pub open spec fn number_of(c: TermColor) -> nat {
    match c {
        TermColor::Black => 30,
        TermColor::Red => 31,
        TermColor::Green => 32,
        TermColor::Yellow => 33,
        TermColor::Blue => 34,
        TermColor::Magenta => 35,
        TermColor::Cyan => 36,
        TermColor::White => 37,
        TermColor::BrightBlack => 90,
        TermColor::BrightRed => 91,
        TermColor::BrightGreen => 92,
        TermColor::BrightYellow => 93,
        TermColor::BrightBlue => 94,
        TermColor::BrightMagenta => 95,
        TermColor::BrightCyan => 96,
        TermColor::BrightWhite => 97,
    }
}

/// A colour's number gives the colour back.
pub proof fn lemma_number_names_color(c: TermColor)
    ensures
        color_of_number(number_of(c) as int) == c,
{
}

/// The escape sequence that switches a style on: the escape character, '[',
/// "1;" for bold, the colour's number, 'm'.
pub open spec fn style_on(c: TermColor, bold: bool) -> Seq<char> {
    seq!['\x1b', '['] + (if bold {
        seq!['1', ';']
    } else {
        Seq::<char>::empty()
    }) + decimal(number_of(c)) + seq!['m']
}

/// The escape sequence that switches every style off.
pub open spec fn style_off() -> Seq<char> {
    seq!['\x1b', '[', '0', 'm']
}

/// The text between `outer` and a final reset, with `inner` put behind
/// every reset that the text itself holds.
pub open spec fn wrapped(outer: Seq<char>, inner: Seq<char>, text: Seq<char>) -> Seq<char> {
    outer + replace_all(text, style_off(), style_off() + inner) + style_off()
}

/// The text in a style, for a terminal that takes colours: the style is
/// switched on in front and again behind every reset inside the text, and
/// switched off at the end.
pub open spec fn styled_form(c: TermColor, bold: bool, text: Seq<char>) -> Seq<char> {
    wrapped(style_on(c, bold), style_on(c, bold), text)
}

/// What the terminal library may show for a text in a style. With colours
/// off it is the text alone, with colours on the [`styled_form`]. The
/// library asks its switch again for each part that it writes, so where the
/// switch is turned in between, the style may be missing in front, inside,
/// or both, while the final reset stands.
pub open spec fn rendered(shown: Seq<char>, c: TermColor, bold: bool, text: Seq<char>) -> bool {
    let on = style_on(c, bold);
    let nothing = Seq::<char>::empty();
    ||| shown == text
    ||| shown == styled_form(c, bold, text)
    ||| shown == wrapped(on, nothing, text)
    ||| shown == wrapped(nothing, on, text)
    ||| shown == wrapped(nothing, nothing, text)
}

/// `colored::Colorize::color` on the text, the colour given by name, and
/// the `Display` form of the result. For a name of one of the sixteen
/// colours the form is one of those that [`rendered`] lists: which one
/// depends on colored's switch, that is on the environment and on calls of
/// `colored::control::set_override`.
#[verifier::external_body]
pub(crate) fn show_colored(name: &str, text: &str) -> (shown: String)
    ensures
        forall|c: TermColor| name@ == color_name(c) ==> #[trigger] rendered(shown@, c, false, text@),
{
    colored::Colorize::color(text, name).to_string()
}

/// `colored::Colorize::color` on the text, the colour given by name, then
/// `colored::Colorize::bold`, and the `Display` form of the result. For a
/// name of one of the sixteen colours the form is one of those that
/// [`rendered`] lists for bold: which one depends on colored's switch.
#[verifier::external_body]
pub(crate) fn show_bold(name: &str, text: &str) -> (shown: String)
    ensures
        forall|c: TermColor| name@ == color_name(c) ==> #[trigger] rendered(shown@, c, true, text@),
{
    colored::Colorize::bold(colored::Colorize::color(text, name)).to_string()
}

impl StyledText {
    /// The text as the terminal library shows it in this style.
    pub fn render(&self) -> (shown: String)
        ensures
            rendered(shown@, self.color, self.bold, self.text@),
    {
        let name = self.color.name();
        if self.bold {
            show_bold(name, self.text.as_str())
        } else {
            show_colored(name, self.text.as_str())
        }
    }
}

} // verus!
