//! The error cases that the library's own checks can raise. The launcher
//! around the library turns each variant into its message for the user.

use vstd::prelude::*;

verus! {

#[derive(Clone, Copy, Debug, PartialEq, Eq, Structural)]
pub enum Error {
    /// Text that is not a `kind/id/arch/branch` reference.
    InvalidRef,
    /// A manifest line that is neither a section header, an entry, a
    /// comment nor blank.
    IniSyntax,
    /// A manifest lookup named a section that is absent.
    MissingSection,
    /// A manifest lookup named a key that its section lacks.
    MissingKey,
    /// A tree path with an empty component.
    InvalidPath,
    /// A tree entry created where one already stands.
    AlreadyExists,
    /// A tree path that runs through a non-directory.
    NotADirectory,
    /// A tree entry placed under a parent that is absent.
    MissingParent,
    /// A command-line argument holding a zero byte.
    NulArgument,
    /// An argument stream grown past what one pipe holds.
    ArgsCapacity,
    /// A subordinate-id line whose fields are not two numerals.
    MalformedSubidLine,
    /// Id-mapping helpers demanded but no subordinate ranges found.
    MappingRequired,
}

} // verus!
