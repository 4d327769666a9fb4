use vstd::prelude::*;

verus! {

/// Why a line could not be parsed; each kind names the section at fault.
#[derive(Clone, Copy, PartialEq, Eq, Debug, Structural)]
pub enum ParseError {
    /// No command token follows the tag and prefix sections.
    MissingCommand,
    /// The tag section holds a tag with an empty key.
    MalformedTags,
    /// The prefix section has an empty name.
    MalformedPrefix,
}

} // verus!
