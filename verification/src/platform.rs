//! What a run has to know of the platform.
use vstd::prelude::*;

verus! {

/// Asks `std::path::is_separator` about a character. The answer rests on the
/// platform, and nothing is claimed of it.
#[verifier::external_body]
fn is_separator(c: char) -> (separates: bool) {
    std::path::is_separator(c)
}

/// Which of the characters `/` and `\` separate the parts of a path.
pub struct Separators {
    pub slash: bool,
    pub backslash: bool,
}

/// The platform that the library runs on. A value can only be had from
/// `Platform::here`, so that it always tells of this platform.
#[derive(Clone, Copy, Debug)]
pub struct Platform {
    slash: bool,
    backslash: bool,
}

impl View for Platform {
    type V = Separators;

    closed spec fn view(&self) -> Separators {
        Separators { slash: self.slash, backslash: self.backslash }
    }
}

impl Platform {
    /// Looks at the platform.
    pub fn here() -> (platform: Platform) {
        Platform { slash: is_separator('/'), backslash: is_separator('\\') }
    }
}

} // verus!
