//! Styles of template placeholders, written as dotted strings such as
//! `red.on_blue` and rendered by the `console` crate.
use vstd::prelude::*;

use crate::ansi::sgr;
use crate::text::{chars_of, push_str, string_of};

verus! {

/// The escape codes that `console` writes in front of a text for the style
/// its `Style::from_dotted_str` reads from `dotted`.
pub uninterp spec fn console_style_codes(dotted: Seq<char>) -> Seq<char>;

/// What `console` writes for `text` in the style read from `dotted`, with
/// styling on or off: the codes, the text and a reset where there is at
/// least one code, else the text alone.
pub open spec fn console_render(dotted: Seq<char>, enabled: bool, text: Seq<char>) -> Seq<char> {
    if enabled && console_style_codes(dotted).len() > 0 {
        console_style_codes(dotted) + text + sgr(0)
    } else {
        text
    }
}

/// Renders `text` through the `console` crate: `Style::from_dotted_str`,
/// with styling forced on or off (`force_styling`), applied to the text and
/// written by its `Display` impl.  The contract names the codes written in
/// front (they depend on the dotted string alone) and states what that impl
/// does with them: nothing is added when styling is off or the style has no
/// code, and otherwise the codes, the text and the reset `ESC [0m`.
#[verifier::external_body]
fn console_render_exec(dotted: &str, enabled: bool, text: &str) -> (r: String)
    ensures
        r@ == (if enabled && console_style_codes(dotted@).len() > 0 {
            console_style_codes(dotted@) + text@ + sgr(0)
        } else {
            text@
        }),
{
    console::Style::from_dotted_str(dotted).force_styling(enabled).apply_to(text).to_string()
}

/// A style as the `console` crate reads it from a dotted string.
#[derive(Clone, Debug)]
pub struct DottedStyle {
    pub dotted: String,
}

impl View for DottedStyle {
    type V = Seq<char>;

    open spec fn view(&self) -> Seq<char> {
        self.dotted@
    }
}

pub open spec fn opt_dotted(o: Option<DottedStyle>) -> Option<Seq<char>> {
    match o {
        Some(d) => Some(d@),
        None => None,
    }
}

/// `text` in the style `st` (plain where there is none), with styling on or
/// off.
pub open spec fn opt_render(st: Option<Seq<char>>, enabled: bool, text: Seq<char>) -> Seq<char> {
    match st {
        Some(d) => console_render(d, enabled, text),
        None => text,
    }
}

impl DottedStyle {
    /// The style a dotted string names.
    pub fn from_dotted_str(s: &str) -> (r: DottedStyle)
        ensures
            r@ == s@,
    {
        DottedStyle { dotted: string_of(&chars_of(s)) }
    }

    /// The same style, as a value of its own.
    pub fn duplicate(&self) -> (r: DottedStyle)
        ensures
            r@ == self@,
    {
        DottedStyle { dotted: string_of(&chars_of(self.dotted.as_str())) }
    }

    /// Appends `text` in this style, with styling on where `enabled`.
    pub fn render_into(&self, out: &mut Vec<char>, text: &Vec<char>, enabled: bool)
        ensures
            final(out)@ == old(out)@ + console_render(self@, enabled, text@),
    {
        let t = string_of(text);
        let r = console_render_exec(self.dotted.as_str(), enabled, t.as_str());
        push_str(out, r.as_str());
    }
}

/// Appends `text` in the style `st`, or plain where there is none.
pub fn opt_render_into(st: &Option<DottedStyle>, out: &mut Vec<char>, text: &Vec<char>, enabled: bool)
    ensures
        final(out)@ == old(out)@ + opt_render(opt_dotted(*st), enabled, text@),
{
    match st {
        Some(s) => s.render_into(out, text, enabled),
        None => crate::text::push_all(out, text),
    }
}

} // verus!
