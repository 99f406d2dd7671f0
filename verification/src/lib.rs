//! Scoped-style glue for a CSS-in-Rust styling engine.
//!
//! The library takes the stylesheet text that the styling engine produced,
//! generates a unique scoped class name, rewrites every internal placeholder
//! class reference to that name, repairs a known formatting defect around
//! pixel units, and corrects the position of scoping-class selectors, so that
//! the resulting `{class_name, style_string}` pair can be embedded in rendered
//! markup.

use vstd::prelude::*;

pub mod engine;
pub mod namegen;
pub mod rewrite;
pub mod text;

use crate::engine::{
    engine_error_message, engine_error_text, engine_placeholder_prefix, style_css_of, style_text,
    style_unregister,
};
use crate::namegen::{class_name_spec, NameGenerator};
use crate::rewrite::{rewrite_style, spec_rewrite};

verus! {

/// The output pair of one style derivation: the unique scoped class name and
/// the rewritten stylesheet text that refers to it.
#[derive(Clone)]
pub struct StyleInfo {
    pub class_name: String,
    pub style_string: String,
}

/// A failure of a style derivation.
#[derive(Debug)]
pub enum StyleError {
    /// The styling engine could not produce style text; fatal to the render
    /// that requested the style.
    EngineFailure { message: String },
}

impl StyleError {
    /// The description of the failure.
    pub fn message(&self) -> (m: &String)
        ensures
            match self {
                StyleError::EngineFailure { message } => m@ == message@,
            },
    {
        match self {
            StyleError::EngineFailure { message } => message,
        }
    }
}

/// Derives the style information for one render: unwraps the engine's result,
/// generates a fresh scoped class name, releases the engine's registry entry,
/// rewrites the stylesheet text to refer to the new name, and returns the
/// pair. An engine failure is fatal: it is returned as
/// [`StyleError::EngineFailure`] and no [`StyleInfo`] is produced.
pub fn get_style_info(styles_result: Result<stylist::Style, stylist::Error>, names: &mut
    NameGenerator) -> (r: Result<StyleInfo, StyleError>)
    requires
        old(names).counter < u64::MAX,
    ensures
        match styles_result {
            Ok(style) => {
                &&& final(names).counter == old(names).counter + 1
                &&& r matches Ok(info) && info.class_name@ == class_name_spec(old(names).counter)
                    && info.style_string@ == spec_rewrite(
                    style_css_of(style),
                    engine_placeholder_prefix(),
                    class_name_spec(old(names).counter),
                )
            },
            Err(e) => {
                &&& final(names).counter == old(names).counter
                &&& r matches Err(err) && match err {
                    StyleError::EngineFailure { message } => message@ == engine_error_text(e),
                }
            },
        },
{
    match styles_result {
        Ok(style) => {
            let style_source = style_text(&style);
            let class_name = names.generate_class_name();
            style_unregister(&style);
            proof {
                reveal_strlit("stylist-");
            }
            let style_string = rewrite_style(style_source.as_str(), "stylist-", class_name.as_str());
            Ok(StyleInfo { class_name, style_string })
        },
        Err(e) => {
            let message = engine_error_message(&e);
            Err(StyleError::EngineFailure { message })
        },
    }
}

} // verus!
