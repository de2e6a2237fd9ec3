use vstd::prelude::*;

verus! {

/// A terminal color of the basic ANSI palette.
#[derive(Debug, Clone, Copy, PartialEq, Eq, Structural)]
pub enum TermColor {
    Yellow,
    Green,
    Red,
    White,
}

/// How a piece of help text looks.
#[derive(Debug, Clone, Copy, PartialEq, Eq, Structural)]
pub struct TextStyle {
    pub bold: bool,
    pub underline: bool,
    pub color: Option<TermColor>,
}

/// How each part of the command-line help looks.
#[derive(Debug, Clone, Copy, PartialEq, Eq, Structural)]
pub struct HelpStyles {
    pub usage: TextStyle,
    pub header: TextStyle,
    pub literal: TextStyle,
    pub invalid: TextStyle,
    pub error: TextStyle,
    pub valid: TextStyle,
    pub placeholder: TextStyle,
}

/// A colored style.
pub open spec fn text_style(bold: bool, underline: bool, color: TermColor) -> TextStyle {
    TextStyle { bold, underline, color: Some(color) }
}

/// The look of the help: headings and usage bold, underlined and yellow;
/// literals green; errors bold red; valid values bold, underlined and green;
/// placeholders white.
pub open spec fn help_styles() -> HelpStyles {
    HelpStyles {
        usage: text_style(true, true, TermColor::Yellow),
        header: text_style(true, true, TermColor::Yellow),
        literal: text_style(false, false, TermColor::Green),
        invalid: text_style(true, false, TermColor::Red),
        error: text_style(true, false, TermColor::Red),
        valid: text_style(true, true, TermColor::Green),
        placeholder: text_style(false, false, TermColor::White),
    }
}

/// The look of the command-line help.
pub fn get_styles() -> (styles: HelpStyles)
    ensures
        styles == help_styles(),
        styles.usage == (TextStyle { bold: true, underline: true, color: Some(TermColor::Yellow) }),
        styles.header == (TextStyle { bold: true, underline: true, color: Some(TermColor::Yellow) }),
        styles.literal == (TextStyle { bold: false, underline: false, color: Some(TermColor::Green) }),
        styles.invalid == (TextStyle { bold: true, underline: false, color: Some(TermColor::Red) }),
        styles.error == (TextStyle { bold: true, underline: false, color: Some(TermColor::Red) }),
        styles.valid == (TextStyle { bold: true, underline: true, color: Some(TermColor::Green) }),
        styles.placeholder == (TextStyle { bold: false, underline: false, color: Some(TermColor::White) }),
{
    let yellow_heading = TextStyle { bold: true, underline: true, color: Some(TermColor::Yellow) };
    let red_alert = TextStyle { bold: true, underline: false, color: Some(TermColor::Red) };
    HelpStyles {
        usage: yellow_heading,
        header: yellow_heading,
        literal: TextStyle { bold: false, underline: false, color: Some(TermColor::Green) },
        invalid: red_alert,
        error: red_alert,
        valid: TextStyle { bold: true, underline: true, color: Some(TermColor::Green) },
        placeholder: TextStyle { bold: false, underline: false, color: Some(TermColor::White) },
    }
}

} // verus!
