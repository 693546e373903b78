//! Layout helpers of the list: column padding, truncation with an
//! ellipsis, and the colour of each language.
use vstd::prelude::*;

use crate::app::App;
use crate::text::{chars_of, slice_chars, string_of};

verus! {

broadcast use vstd::string::group_string_axioms;

/// The colours the list uses for languages.
#[derive(Clone, Copy, PartialEq, Eq, Debug, Structural)]
pub enum Tint {
    Yellow,
    Blue,
    Red,
    Cyan,
    LightRed,
    Magenta,
    LightMagenta,
    Reset,
}

pub open spec fn tint_for(l: Seq<char>) -> Tint {
    if l == "JS/TS"@ || l == "JS"@ || l == "TS"@ {
        Tint::Yellow
    } else if l == "Python"@ {
        Tint::Blue
    } else if l == "Java"@ || l == "Kotlin"@ || l == "Scala"@ {
        Tint::Red
    } else if l == "Go"@ {
        Tint::Cyan
    } else if l == "Rust"@ {
        Tint::LightRed
    } else if l == "Ruby"@ || l == "Elixir"@ {
        Tint::Magenta
    } else if l == "PHP"@ {
        Tint::LightMagenta
    } else {
        Tint::Reset
    }
}

fn is(l: &Vec<char>, s: &str) -> (r: bool)
    ensures
        r == (l@ == s@),
{
    let w = chars_of(s);
    crate::text::chars_eq(l, &w)
}

/// The colour of a language's name.
pub fn lang_color(l: &str) -> (t: Tint)
    ensures
        t == tint_for(l@),
{
    let v = chars_of(l);
    if is(&v, "JS/TS") || is(&v, "JS") || is(&v, "TS") {
        Tint::Yellow
    } else if is(&v, "Python") {
        Tint::Blue
    } else if is(&v, "Java") || is(&v, "Kotlin") || is(&v, "Scala") {
        Tint::Red
    } else if is(&v, "Go") {
        Tint::Cyan
    } else if is(&v, "Rust") {
        Tint::LightRed
    } else if is(&v, "Ruby") || is(&v, "Elixir") {
        Tint::Magenta
    } else if is(&v, "PHP") {
        Tint::LightMagenta
    } else {
        Tint::Reset
    }
}

/// `text` left-aligned in a column of `width` characters (never cut).
pub open spec fn padded(text: Seq<char>, width: int) -> Seq<char> {
    text + Seq::new(if width > text.len() { (width - text.len()) as nat } else { 0 }, |i: int| ' ')
}

/// `format!("{:<width$}", text)`: the text, then spaces up to `width`
/// characters.
pub fn fmt_col(text: &str, width: usize) -> (r: String)
    ensures
        r@ == padded(text@, width as int),
{
    let mut v = chars_of(text);
    let n: usize = v.len();
    while v.len() < width
        invariant
            n == text@.len(),
            n <= v.len(),
            v.len() == n || v.len() <= width,
            v@ == text@ + Seq::new((v.len() - n) as nat, |i: int| ' '),
        decreases width - v.len(),
    {
        let ghost before = v@;
        v.push(' ');
        assert(v@ =~= text@ + Seq::new((v.len() - n) as nat, |i: int| ' '));
    }
    assert(v@ =~= padded(text@, width as int));
    string_of(v.as_slice())
}

/// `text` cut to at most `max` characters, the last shown one replaced by
/// an ellipsis when it had to be cut.
pub open spec fn truncated(text: Seq<char>, max: int) -> Seq<char> {
    if text.len() <= max {
        text
    } else {
        text.take(max - 1).push('…')
    }
}

/// Cuts `text` to at most `max` characters, ending in "…" when cut. A text
/// that does not fit into zero characters has no such form.
pub fn trunc(text: &str, max: usize) -> (r: String)
    requires
        text@.len() <= max || max > 0,
    ensures
        r@ == truncated(text@, max as int),
{
    let v = chars_of(text);
    if v.len() <= max {
        string_of(v.as_slice())
    } else {
        let mut t = slice_chars(&v, 0, max - 1);
        t.push('…');
        assert(v@.subrange(0, max - 1) == v@.take(max - 1));
        string_of(t.as_slice())
    }
}

/// What the bottom line of the screen shows.
#[derive(Clone, Copy, PartialEq, Eq, Debug, Structural)]
pub enum Footer {
    /// The query being typed, with how to confirm or cancel it.
    SearchInput,
    /// The query in force over the list, with the list's keys.
    SearchActive,
    /// The list's keys.
    List,
    /// The actions panel's keys.
    Actions,
    /// The confirmation's keys.
    Confirm,
}

pub open spec fn footer_spec(searching: bool, query: Seq<char>, view: crate::app::View) -> Footer {
    if searching {
        Footer::SearchInput
    } else if query.len() > 0 && view == crate::app::View::List {
        Footer::SearchActive
    } else {
        match view {
            crate::app::View::List => Footer::List,
            crate::app::View::Actions => Footer::Actions,
            crate::app::View::Confirm => Footer::Confirm,
        }
    }
}

/// The footer for the state: typing a query comes first, then a query in
/// force over the list, then the view's own keys.
pub fn footer_for(app: &App) -> (f: Footer)
    ensures
        f == footer_spec(app.searching, app.search_query@, app.view),
{
    if app.searching {
        Footer::SearchInput
    } else if !app.search_query.as_str().is_empty() && app.view == crate::app::View::List {
        Footer::SearchActive
    } else {
        match app.view {
            crate::app::View::List => Footer::List,
            crate::app::View::Actions => Footer::Actions,
            crate::app::View::Confirm => Footer::Confirm,
        }
    }
}

/// The marker in front of row `idx`: an arrow on the selected row.
pub fn row_marker(selected: usize, idx: usize) -> (r: &'static str)
    ensures
        r@ == if idx == selected {
            "▸ "@
        } else {
            "  "@
        },
{
    if idx == selected {
        "▸ "
    } else {
        "  "
    }
}

/// The position indicator under the list, `(selected + 1, total)`, shown
/// when the `total` rows do not all fit in an area of `height` lines (two
/// taken by the header and its separator).
pub fn scroll_indicator(selected: usize, total: usize, height: usize) -> (r: Option<(usize, usize)>)
    requires
        selected < usize::MAX,
    ensures
        r == if total > (if height >= 2 { height - 2 } else { 0 }) {
            Some(((selected + 1) as usize, total))
        } else {
            None::<(usize, usize)>
        },
{
    let visible: usize = if height >= 2 {
        height - 2
    } else {
        0
    };
    if total > visible {
        Some((selected + 1, total))
    } else {
        None
    }
}

} // verus!
