//! Importing shimeji-ee mascots: reading their `actions.xml` and `behaviors.xml`, and
//! wiring their actions into the animation schema.

pub mod actions;
pub mod detect;
pub mod mapping;
pub mod sprites;
pub mod values;
pub mod xml;

use vstd::prelude::*;

verus! {

/// `roxmltree::Error`, carried through as an opaque value.
#[verifier::external_type_specification]
#[verifier::external_body]
pub struct ExXmlError(roxmltree::Error);

/// Why a shimeji-ee mascot could not be imported.
#[derive(Debug)]
pub enum ShimejiEeError {
    Xml(roxmltree::Error),
    MissingRequiredAction(String),
    NoSprites,
}

} // verus!
