use vstd::prelude::*;

use ansi_term::Colour;

verus! {

/// How many distinct highlight colors the palette holds. Group indices
/// beyond it cycle back through the palette.
pub const PALETTE_SIZE: usize = 6;

/// The style code of inserted replacement text, distinct from every
/// palette entry: bold and underlined, not a palette color.
pub const INSERT_STYLE: usize = 6;

/// The bytes that open the decoration with the given style code: the
/// escape sequence is a fixed function of the code alone.
pub uninterp spec fn style_prefix_of(code: int) -> Seq<u8>;

/// The bytes that close the decoration with the given style code.
pub uninterp spec fn style_suffix_of(code: int) -> Seq<u8>;

/// Relies on ansi_term::Style::prefix: the opening escape sequence is a
/// pure function of the style, and each code below names one fixed style
/// (palette entries are bold and struck through, the insertion style is
/// bold and underlined). The seven styles open with pairwise different
/// sequences: the six palette entries carry six different color codes,
/// and the insertion style different attributes and color.
#[verifier::external_body]
pub(crate) fn style_prefix(code: usize) -> (r: Vec<u8>)
    requires
        code <= 6,
    ensures
        r@ == style_prefix_of(code as int),
        forall|c: int| 0 <= c <= 6 && c != code as int ==> r@ != style_prefix_of(c),
{
    let style = match code {
        0 => Colour::Red.bold().strikethrough(),
        1 => Colour::Green.bold().strikethrough(),
        2 => Colour::Yellow.bold().strikethrough(),
        3 => Colour::Blue.bold().strikethrough(),
        4 => Colour::Purple.bold().strikethrough(),
        5 => Colour::Cyan.bold().strikethrough(),
        _ => Colour::White.bold().underline(),
    };
    format!("{}", style.prefix()).into_bytes()
}

/// Relies on ansi_term::Style::suffix: the closing escape sequence is a
/// pure function of the style; the styles are those of `style_prefix`.
#[verifier::external_body]
pub(crate) fn style_suffix(code: usize) -> (r: Vec<u8>)
    ensures
        r@ == style_suffix_of(code as int),
{
    let style = match code {
        0 => Colour::Red.bold().strikethrough(),
        1 => Colour::Green.bold().strikethrough(),
        2 => Colour::Yellow.bold().strikethrough(),
        3 => Colour::Blue.bold().strikethrough(),
        4 => Colour::Purple.bold().strikethrough(),
        5 => Colour::Cyan.bold().strikethrough(),
        _ => Colour::White.bold().underline(),
    };
    format!("{}", style.suffix()).into_bytes()
}

} // verus!
