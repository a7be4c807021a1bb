//! ANSI colour support for the colour conversion words
//! (`%highlight(..)`, `%clr(..){color}`, `%red(..)`, `%boldBlue(..)`, ...).

use vstd::prelude::*;
use vstd::string::*;
use crate::level::Level;
use crate::text::{all_ascii, ascii_lower, ascii_lower_char, ascii_upper, ascii_upper_char, chars_eq_str, chars_of, str_to_lowercase, lowercase};

verus! {

/// ANSI colours.
#[derive(Debug, Clone, Copy, PartialEq, Eq, Structural)]
pub enum Color {
    Black,
    Red,
    Green,
    Yellow,
    Blue,
    Magenta,
    Cyan,
    White,
    Faint,
    BoldRed,
    BoldGreen,
    BoldYellow,
    BoldBlue,
    BoldMagenta,
    BoldCyan,
    BoldWhite,
}

/// The escape sequence that switches to colour `c`.
pub open spec fn color_code(c: Color) -> Seq<char> {
    match c {
        Color::Black => seq!['\x1b', '[', '3', '0', 'm'],
        Color::Red => seq!['\x1b', '[', '3', '1', 'm'],
        Color::Green => seq!['\x1b', '[', '3', '2', 'm'],
        Color::Yellow => seq!['\x1b', '[', '3', '3', 'm'],
        Color::Blue => seq!['\x1b', '[', '3', '4', 'm'],
        Color::Magenta => seq!['\x1b', '[', '3', '5', 'm'],
        Color::Cyan => seq!['\x1b', '[', '3', '6', 'm'],
        Color::White => seq!['\x1b', '[', '3', '7', 'm'],
        Color::Faint => seq!['\x1b', '[', '2', 'm'],
        Color::BoldRed => seq!['\x1b', '[', '1', ';', '3', '1', 'm'],
        Color::BoldGreen => seq!['\x1b', '[', '1', ';', '3', '2', 'm'],
        Color::BoldYellow => seq!['\x1b', '[', '1', ';', '3', '3', 'm'],
        Color::BoldBlue => seq!['\x1b', '[', '1', ';', '3', '4', 'm'],
        Color::BoldMagenta => seq!['\x1b', '[', '1', ';', '3', '5', 'm'],
        Color::BoldCyan => seq!['\x1b', '[', '1', ';', '3', '6', 'm'],
        Color::BoldWhite => seq!['\x1b', '[', '1', ';', '3', '7', 'm'],
    }
}

impl Color {
    /// Returns the ANSI escape sequence for this colour.
    pub fn code(&self) -> (r: &'static str)
        ensures
            r@ == color_code(*self),
    {
        match self {
            Color::Black => {
                let r = "\x1b[30m";
                proof {
                    reveal_strlit("\x1b[30m");
                    assert(r@ =~= seq!['\x1b', '[', '3', '0', 'm']);
                }
                r
            },
            Color::Red => {
                let r = "\x1b[31m";
                proof {
                    reveal_strlit("\x1b[31m");
                    assert(r@ =~= seq!['\x1b', '[', '3', '1', 'm']);
                }
                r
            },
            Color::Green => {
                let r = "\x1b[32m";
                proof {
                    reveal_strlit("\x1b[32m");
                    assert(r@ =~= seq!['\x1b', '[', '3', '2', 'm']);
                }
                r
            },
            Color::Yellow => {
                let r = "\x1b[33m";
                proof {
                    reveal_strlit("\x1b[33m");
                    assert(r@ =~= seq!['\x1b', '[', '3', '3', 'm']);
                }
                r
            },
            Color::Blue => {
                let r = "\x1b[34m";
                proof {
                    reveal_strlit("\x1b[34m");
                    assert(r@ =~= seq!['\x1b', '[', '3', '4', 'm']);
                }
                r
            },
            Color::Magenta => {
                let r = "\x1b[35m";
                proof {
                    reveal_strlit("\x1b[35m");
                    assert(r@ =~= seq!['\x1b', '[', '3', '5', 'm']);
                }
                r
            },
            Color::Cyan => {
                let r = "\x1b[36m";
                proof {
                    reveal_strlit("\x1b[36m");
                    assert(r@ =~= seq!['\x1b', '[', '3', '6', 'm']);
                }
                r
            },
            Color::White => {
                let r = "\x1b[37m";
                proof {
                    reveal_strlit("\x1b[37m");
                    assert(r@ =~= seq!['\x1b', '[', '3', '7', 'm']);
                }
                r
            },
            Color::Faint => {
                let r = "\x1b[2m";
                proof {
                    reveal_strlit("\x1b[2m");
                    assert(r@ =~= seq!['\x1b', '[', '2', 'm']);
                }
                r
            },
            Color::BoldRed => {
                let r = "\x1b[1;31m";
                proof {
                    reveal_strlit("\x1b[1;31m");
                    assert(r@ =~= seq!['\x1b', '[', '1', ';', '3', '1', 'm']);
                }
                r
            },
            Color::BoldGreen => {
                let r = "\x1b[1;32m";
                proof {
                    reveal_strlit("\x1b[1;32m");
                    assert(r@ =~= seq!['\x1b', '[', '1', ';', '3', '2', 'm']);
                }
                r
            },
            Color::BoldYellow => {
                let r = "\x1b[1;33m";
                proof {
                    reveal_strlit("\x1b[1;33m");
                    assert(r@ =~= seq!['\x1b', '[', '1', ';', '3', '3', 'm']);
                }
                r
            },
            Color::BoldBlue => {
                let r = "\x1b[1;34m";
                proof {
                    reveal_strlit("\x1b[1;34m");
                    assert(r@ =~= seq!['\x1b', '[', '1', ';', '3', '4', 'm']);
                }
                r
            },
            Color::BoldMagenta => {
                let r = "\x1b[1;35m";
                proof {
                    reveal_strlit("\x1b[1;35m");
                    assert(r@ =~= seq!['\x1b', '[', '1', ';', '3', '5', 'm']);
                }
                r
            },
            Color::BoldCyan => {
                let r = "\x1b[1;36m";
                proof {
                    reveal_strlit("\x1b[1;36m");
                    assert(r@ =~= seq!['\x1b', '[', '1', ';', '3', '6', 'm']);
                }
                r
            },
            Color::BoldWhite => {
                let r = "\x1b[1;37m";
                proof {
                    reveal_strlit("\x1b[1;37m");
                    assert(r@ =~= seq!['\x1b', '[', '1', ';', '3', '7', 'm']);
                }
                r
            },
        }
    }
}

/// The colour a lower-cased colour name stands for (`%clr(..){name}`).
pub open spec fn color_from_name(n: Seq<char>) -> Option<Color> {
    if n == "black"@ { Some(Color::Black) }
    else if n == "red"@ { Some(Color::Red) }
    else if n == "green"@ { Some(Color::Green) }
    else if n == "yellow"@ { Some(Color::Yellow) }
    else if n == "blue"@ { Some(Color::Blue) }
    else if n == "magenta"@ { Some(Color::Magenta) }
    else if n == "cyan"@ { Some(Color::Cyan) }
    else if n == "white"@ { Some(Color::White) }
    else if n == "faint"@ { Some(Color::Faint) }
    else if n == "boldred"@ || n == "bold_red"@ { Some(Color::BoldRed) }
    else if n == "boldgreen"@ || n == "bold_green"@ { Some(Color::BoldGreen) }
    else if n == "boldyellow"@ || n == "bold_yellow"@ { Some(Color::BoldYellow) }
    else if n == "boldblue"@ || n == "bold_blue"@ { Some(Color::BoldBlue) }
    else if n == "boldmagenta"@ || n == "bold_magenta"@ { Some(Color::BoldMagenta) }
    else if n == "boldcyan"@ || n == "bold_cyan"@ { Some(Color::BoldCyan) }
    else if n == "boldwhite"@ || n == "bold_white"@ { Some(Color::BoldWhite) }
    else { None }
}

/// The reset escape sequence.
pub open spec fn reset_code() -> Seq<char> {
    seq!['\x1b', '[', '0', 'm']
}

/// `s` wrapped in the escape sequences of colour `c`.
pub open spec fn colored(c: Color, s: Seq<char>) -> Seq<char> {
    color_code(c) + s + reset_code()
}

/// Highlight colour of each level.
pub open spec fn level_color_spec(l: Level) -> Color {
    match l {
        Level::Error => Color::BoldRed,
        Level::Warn => Color::Yellow,
        Level::Info => Color::Blue,
        Level::Debug => Color::Green,
        Level::Trace => Color::Faint,
    }
}

impl Color {
    /// Parses a colour name already in lower case.
    pub fn from_lowercase_name(n: &str) -> (r: Option<Color>)
        ensures
            r == color_from_name(n@),
    {
        let v = chars_of(n);
        let v = v.as_slice();
        if chars_eq_str(v, "black") { Some(Color::Black) }
        else if chars_eq_str(v, "red") { Some(Color::Red) }
        else if chars_eq_str(v, "green") { Some(Color::Green) }
        else if chars_eq_str(v, "yellow") { Some(Color::Yellow) }
        else if chars_eq_str(v, "blue") { Some(Color::Blue) }
        else if chars_eq_str(v, "magenta") { Some(Color::Magenta) }
        else if chars_eq_str(v, "cyan") { Some(Color::Cyan) }
        else if chars_eq_str(v, "white") { Some(Color::White) }
        else if chars_eq_str(v, "faint") { Some(Color::Faint) }
        else if chars_eq_str(v, "boldred") || chars_eq_str(v, "bold_red") { Some(Color::BoldRed) }
        else if chars_eq_str(v, "boldgreen") || chars_eq_str(v, "bold_green") { Some(Color::BoldGreen) }
        else if chars_eq_str(v, "boldyellow") || chars_eq_str(v, "bold_yellow") { Some(Color::BoldYellow) }
        else if chars_eq_str(v, "boldblue") || chars_eq_str(v, "bold_blue") { Some(Color::BoldBlue) }
        else if chars_eq_str(v, "boldmagenta") || chars_eq_str(v, "bold_magenta") { Some(Color::BoldMagenta) }
        else if chars_eq_str(v, "boldcyan") || chars_eq_str(v, "bold_cyan") { Some(Color::BoldCyan) }
        else if chars_eq_str(v, "boldwhite") || chars_eq_str(v, "bold_white") { Some(Color::BoldWhite) }
        else { None }
    }

    /// Parses a colour name, ignoring case (for `%clr(..){color}`).
    pub fn parse(s: &str) -> (r: Option<Color>)
        ensures
            r == color_from_name(lowercase(s@)),
            r == color_from_name(lowercase(ascii_upper(s@))),
            all_ascii(s@) ==> r == color_from_name(ascii_lower(s@)),
    {
        let lower = str_to_lowercase(s);
        Color::from_lowercase_name(lower.as_str())
    }
}

/// The snake-case name of a colour (`red`, `bold_red`).
pub open spec fn color_name(c: Color) -> Seq<char> {
    match c {
        Color::Black => "black"@,
        Color::Red => "red"@,
        Color::Green => "green"@,
        Color::Yellow => "yellow"@,
        Color::Blue => "blue"@,
        Color::Magenta => "magenta"@,
        Color::Cyan => "cyan"@,
        Color::White => "white"@,
        Color::Faint => "faint"@,
        Color::BoldRed => "bold_red"@,
        Color::BoldGreen => "bold_green"@,
        Color::BoldYellow => "bold_yellow"@,
        Color::BoldBlue => "bold_blue"@,
        Color::BoldMagenta => "bold_magenta"@,
        Color::BoldCyan => "bold_cyan"@,
        Color::BoldWhite => "bold_white"@,
    }
}

/// The camel-case name of a colour (`red`, `boldRed`).
pub open spec fn color_camel_name(c: Color) -> Seq<char> {
    match c {
        Color::BoldRed => "boldRed"@,
        Color::BoldGreen => "boldGreen"@,
        Color::BoldYellow => "boldYellow"@,
        Color::BoldBlue => "boldBlue"@,
        Color::BoldMagenta => "boldMagenta"@,
        Color::BoldCyan => "boldCyan"@,
        Color::BoldWhite => "boldWhite"@,
        _ => color_name(c),
    }
}

proof fn lemma_ascii_case_char(c: char)
    requires
        (c as u32) < 0x80u32,
    ensures
        ascii_lower_char(ascii_upper_char(c)) == ascii_lower_char(c),
        (ascii_upper_char(c) as u32) < 0x80u32,
        (ascii_lower_char(c) as u32) < 0x80u32,
{
}

/// Colour names are read without regard to ASCII case: an ASCII name, the
/// same name in upper case and in lower case are all ASCII and parse alike
/// (by `Color::parse`, whose result on ASCII text is `color_from_name` of
/// the text lowered).
pub proof fn law_color_names_ignore_ascii_case(s: Seq<char>)
    requires
        all_ascii(s),
    ensures
        all_ascii(ascii_upper(s)),
        all_ascii(ascii_lower(s)),
        color_from_name(ascii_lower(ascii_upper(s))) == color_from_name(ascii_lower(s)),
        color_from_name(ascii_lower(ascii_lower(s))) == color_from_name(ascii_lower(s)),
{
    assert forall|i: int| 0 <= i < s.len() implies (#[trigger] ascii_upper(s)[i] as u32) < 0x80u32
        && (ascii_lower(s)[i] as u32) < 0x80u32 by {
        lemma_ascii_case_char(s[i]);
    }
    assert(ascii_lower(ascii_upper(s)) =~= ascii_lower(s)) by {
        assert forall|i: int| 0 <= i < s.len() implies #[trigger] ascii_lower(ascii_upper(s))[i] == ascii_lower(s)[i] by {
            lemma_ascii_case_char(s[i]);
        }
    }
    assert(ascii_lower(ascii_lower(s)) =~= ascii_lower(s)) by {
        assert forall|i: int| 0 <= i < s.len() implies #[trigger] ascii_lower(ascii_lower(s))[i] == ascii_lower(s)[i] by {
            lemma_ascii_case_char(s[i]);
        }
    }
}

/// Colour names are read without regard to ASCII case, for any text:
/// `Color::parse` gives `color_from_name(lowercase(ascii_upper(s)))`, and
/// raising the ASCII letters of `s` again gives the same text, so `s` and
/// `s` in ASCII upper case parse alike.
pub proof fn law_parse_ignores_ascii_case(s: Seq<char>)
    ensures
        ascii_upper(ascii_upper(s)) == ascii_upper(s),
        color_from_name(lowercase(ascii_upper(ascii_upper(s)))) == color_from_name(lowercase(ascii_upper(s))),
{
    assert forall|i: int| 0 <= i < s.len() implies #[trigger] ascii_upper(ascii_upper(s))[i] == ascii_upper(s)[i] by {
        let c = s[i];
        if 0x61u32 <= (c as u32) && (c as u32) <= 0x7au32 {
            assert(ascii_upper_char(c) as u32 == (c as u32) - 0x20u32);
        }
    }
    assert(ascii_upper(ascii_upper(s)) =~= ascii_upper(s));
}

/// Every colour has a name that `Color::parse` reads back to it, in snake
/// case (`bold_red`) and in camel case (`boldRed`); both are ASCII.
pub proof fn law_every_color_has_a_name(c: Color)
    ensures
        all_ascii(color_name(c)),
        all_ascii(color_camel_name(c)),
        color_from_name(ascii_lower(color_name(c))) == Some(c),
        color_from_name(ascii_lower(color_camel_name(c))) == Some(c),
{
    reveal_strlit("black");
    reveal_strlit("red");
    reveal_strlit("green");
    reveal_strlit("yellow");
    reveal_strlit("blue");
    reveal_strlit("magenta");
    reveal_strlit("cyan");
    reveal_strlit("white");
    reveal_strlit("faint");
    reveal_strlit("boldred");
    reveal_strlit("bold_red");
    reveal_strlit("boldRed");
    reveal_strlit("boldgreen");
    reveal_strlit("bold_green");
    reveal_strlit("boldGreen");
    reveal_strlit("boldyellow");
    reveal_strlit("bold_yellow");
    reveal_strlit("boldYellow");
    reveal_strlit("boldblue");
    reveal_strlit("bold_blue");
    reveal_strlit("boldBlue");
    reveal_strlit("boldmagenta");
    reveal_strlit("bold_magenta");
    reveal_strlit("boldMagenta");
    reveal_strlit("boldcyan");
    reveal_strlit("bold_cyan");
    reveal_strlit("boldCyan");
    reveal_strlit("boldwhite");
    reveal_strlit("bold_white");
    reveal_strlit("boldWhite");
    let n = color_name(c);
    let m = color_camel_name(c);
    assert(ascii_lower(n) =~= n);
    let lm = match c {
        Color::BoldRed => "boldred"@,
        Color::BoldGreen => "boldgreen"@,
        Color::BoldYellow => "boldyellow"@,
        Color::BoldBlue => "boldblue"@,
        Color::BoldMagenta => "boldmagenta"@,
        Color::BoldCyan => "boldcyan"@,
        Color::BoldWhite => "boldwhite"@,
        _ => n,
    };
    assert(ascii_lower(m) =~= lm);
    assert("black"@[0] == 'b' && "black"@[4] == 'k');
    assert("red"@[0] == 'r');
    assert("green"@[0] == 'g' && "green"@[4] == 'n');
    assert("yellow"@[0] == 'y' && "yellow"@[4] == 'o' && "yellow"@[5] == 'w');
    assert("blue"@[0] == 'b');
    assert("magenta"@[0] == 'm' && "magenta"@[4] == 'n' && "magenta"@[5] == 't');
    assert("cyan"@[0] == 'c');
    assert("white"@[0] == 'w' && "white"@[4] == 'e');
    assert("faint"@[0] == 'f' && "faint"@[4] == 't');
    assert("boldred"@[0] == 'b' && "boldred"@[4] == 'r' && "boldred"@[5] == 'e');
    assert("bold_red"@[0] == 'b' && "bold_red"@[4] == '_' && "bold_red"@[5] == 'r');
    assert("boldgreen"@[0] == 'b' && "boldgreen"@[4] == 'g' && "boldgreen"@[5] == 'r');
    assert("bold_green"@[0] == 'b' && "bold_green"@[4] == '_' && "bold_green"@[5] == 'g');
    assert("boldyellow"@[0] == 'b' && "boldyellow"@[4] == 'y' && "boldyellow"@[5] == 'e');
    assert("bold_yellow"@[0] == 'b' && "bold_yellow"@[4] == '_' && "bold_yellow"@[5] == 'y');
    assert("boldblue"@[0] == 'b' && "boldblue"@[4] == 'b' && "boldblue"@[5] == 'l');
    assert("bold_blue"@[0] == 'b' && "bold_blue"@[4] == '_' && "bold_blue"@[5] == 'b');
    assert("boldmagenta"@[0] == 'b' && "boldmagenta"@[4] == 'm' && "boldmagenta"@[5] == 'a');
    assert("bold_magenta"@[0] == 'b' && "bold_magenta"@[4] == '_' && "bold_magenta"@[5] == 'm');
    assert("boldcyan"@[0] == 'b' && "boldcyan"@[4] == 'c' && "boldcyan"@[5] == 'y');
    assert("bold_cyan"@[0] == 'b' && "bold_cyan"@[4] == '_' && "bold_cyan"@[5] == 'c');
    assert("boldwhite"@[0] == 'b' && "boldwhite"@[4] == 'w' && "boldwhite"@[5] == 'h');
    assert("bold_white"@[0] == 'b' && "bold_white"@[4] == '_' && "bold_white"@[5] == 'w');
}

/// ANSI reset escape sequence.
pub const RESET: &'static str = "\x1b[0m";

/// The reset sequence as a string whose content is known.
pub fn reset() -> (r: &'static str)
    ensures
        r@ == reset_code(),
{
    let r = RESET;
    proof {
        reveal_strlit("\x1b[0m");
        assert(r@ =~= reset_code());
    }
    r
}

/// Maps a level to its default highlight colour.
pub fn level_color(level: &Level) -> (c: Color)
    ensures
        c == level_color_spec(*level),
{
    match level {
        Level::Error => Color::BoldRed,
        Level::Warn => Color::Yellow,
        Level::Info => Color::Blue,
        Level::Debug => Color::Green,
        Level::Trace => Color::Faint,
    }
}

/// Wraps a string in ANSI colour codes.
pub fn with_color(color: Color, s: &str) -> (r: String)
    ensures
        r@ == colored(color, s@),
{
    let mut r = String::new();
    r.append(color.code());
    r.append(s);
    r.append(reset());
    r
}

/// Appends `s` wrapped in ANSI colour codes to `writer`.
pub fn with_color_to_writer(color: Color, s: &str, writer: &mut String) -> (r: Result<(), std::fmt::Error>)
    ensures
        final(writer)@ == old(writer)@ + colored(color, s@),
        r is Ok,
{
    writer.append(color.code());
    writer.append(s);
    writer.append(reset());
    Ok(())
}

/// Wraps a string in the highlight colour of `level`.
pub fn highlight(level: Level, s: &str) -> (r: String)
    ensures
        r@ == colored(level_color_spec(level), s@),
{
    with_color(level_color(&level), s)
}

/// Appends `s` in the highlight colour of `level` to `writer`.
pub fn highlight_to_writer(level: Level, s: &str, writer: &mut String) -> (r: Result<(), std::fmt::Error>)
    ensures
        final(writer)@ == old(writer)@ + colored(level_color_spec(level), s@),
        r is Ok,
{
    with_color_to_writer(level_color(&level), s, writer)
}

} // verus!
