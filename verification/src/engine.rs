//! The trusted boundary to the styling engine (the `stylist` crate).
//!
//! The engine parses style source, registers the generated stylesheet in a
//! process-wide registry, and hands back a [`stylist::Style`] handle. The
//! library only reads the stylesheet text out of the handle, releases the
//! registry entry, and renders engine failures as text; each of those calls
//! stands here behind a trusted item.

use vstd::prelude::*;

verus! {

#[verifier::external_type_specification]
#[verifier::external_body]
pub struct ExStyle(stylist::Style);

#[verifier::external_type_specification]
#[verifier::external_body]
pub struct ExStylistError(stylist::Error);

/// The stylesheet text stored in a style handle. `stylist::Style` keeps the
/// generated text in its registry entry, so the text is a function of the
/// handle alone.
pub uninterp spec fn style_css_of(s: stylist::Style) -> Seq<char>;

/// The description of an engine failure. `stylist::Error` renders its
/// description from the error value alone.
pub uninterp spec fn engine_error_text(e: stylist::Error) -> Seq<char>;

/// The class-name prefix the engine puts in front of every placeholder class
/// token it emits.
pub open spec fn engine_placeholder_prefix() -> Seq<char> {
    "stylist-"@
}

/// Relies on `stylist::Style::get_style_str`: it returns the generated
/// stylesheet text stored in this style handle.
#[verifier::external_body]
pub(crate) fn style_text(s: &stylist::Style) -> (r: String)
    ensures
        r@ == style_css_of(*s),
{
    s.get_style_str().to_owned()
}

/// Relies on `stylist::Style::unregister`: it removes this style's entry from
/// the engine's process-wide registry, so the engine's own injection
/// mechanism will not inject the text a second time.
#[verifier::external_body]
pub(crate) fn style_unregister(s: &stylist::Style) {
    s.unregister();
}

/// Relies on the `Display` rendering of `stylist::Error`: it describes the
/// failure, as a function of the error value alone.
#[verifier::external_body]
pub(crate) fn engine_error_message(e: &stylist::Error) -> (r: String)
    ensures
        r@ == engine_error_text(*e),
{
    format!("{}", e)
}

} // verus!
