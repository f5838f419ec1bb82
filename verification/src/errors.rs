//! Error taxonomy: semantic failures raised while building a record,
//! parse errors (backtrackable syntax mismatch vs. fatal failure), and
//! the errors of the merge phase.

use vstd::prelude::*;
use crate::lantern::DefKey;

verus! {

/// A semantic failure: the grammar matched but an invariant of the
/// record under construction was violated. Fatal to the enclosing
/// file's parse; never recovered by backtracking.
#[derive(Debug)]
pub enum Fault {
    /// A probability value outside `[0, 100]`.
    InvalidProbability,
    /// A `set` statement assigned a key that may only be given in the
    /// component's signature (`id`, `label`, `description`).
    ReservedKey { key: DefKey },
    /// A `set` statement assigned the same key a second time.
    DuplicateAssignment { key: DefKey },
    /// A recognized key was assigned a literal of the wrong type.
    TypeMismatch { key: DefKey },
    /// A recognized key was assigned a string outside its closed
    /// enumeration of accepted values.
    InvalidEnumValue { key: DefKey },
    /// A required key was absent.
    MissingKey { key: DefKey },
    /// The same aspect appeared twice in a card's declared aspect list.
    DuplicateAspect { key: DefKey },
    /// A second `induce` statement on one component.
    DuplicateInduce,
    /// A second `unique` statement of either form, or a `unique` flag
    /// together with a uniqueness group, on one card.
    UniqueConflict,
    /// More than one deck entry carried the `default` marker.
    DuplicateDefault,
    /// A body that must be a literal object was some other literal.
    NotAnObject,
}

/// Ghost shape of a [`Fault`].
pub enum FaultV {
    InvalidProbability,
    ReservedKey { key: Seq<u8> },
    DuplicateAssignment { key: Seq<u8> },
    TypeMismatch { key: Seq<u8> },
    InvalidEnumValue { key: Seq<u8> },
    MissingKey { key: Seq<u8> },
    DuplicateAspect { key: Seq<u8> },
    DuplicateInduce,
    UniqueConflict,
    DuplicateDefault,
    NotAnObject,
}

impl View for Fault {
    type V = FaultV;

    open spec fn view(&self) -> FaultV {
        match self {
            Fault::InvalidProbability => FaultV::InvalidProbability,
            Fault::ReservedKey { key } => FaultV::ReservedKey { key: key@ },
            Fault::DuplicateAssignment { key } => FaultV::DuplicateAssignment { key: key@ },
            Fault::TypeMismatch { key } => FaultV::TypeMismatch { key: key@ },
            Fault::InvalidEnumValue { key } => FaultV::InvalidEnumValue { key: key@ },
            Fault::MissingKey { key } => FaultV::MissingKey { key: key@ },
            Fault::DuplicateAspect { key } => FaultV::DuplicateAspect { key: key@ },
            Fault::DuplicateInduce => FaultV::DuplicateInduce,
            Fault::UniqueConflict => FaultV::UniqueConflict,
            Fault::DuplicateDefault => FaultV::DuplicateDefault,
            Fault::NotAnObject => FaultV::NotAnObject,
        }
    }
}

/// The outcome of a failed parse attempt.
///
/// `Syntax` means the grammar did not match; among ordered alternatives
/// the caller recovers by trying the next one. `Fail` wraps a semantic
/// [`Fault`]: the grammar matched but the record was invalid, and the
/// whole file's parse aborts.
#[derive(Debug)]
pub enum ParseError {
    Syntax { pos: usize },
    Fail { pos: usize, fault: Fault },
    /// Unparsed text remained after the last recognized unit of a
    /// file; fatal to that file.
    NonEmpty { pos: usize },
}

impl ParseError {
    pub open spec fn is_syntax(&self) -> bool {
        self matches ParseError::Syntax { .. }
    }

    /// Whether a caller may recover by trying another alternative.
    pub fn recoverable(&self) -> (r: bool)
        ensures
            r == self.is_syntax(),
    {
        match self {
            ParseError::Syntax { .. } => true,
            _ => false,
        }
    }
}

/// The component kinds, used to say in which per-kind map a merge
/// conflict arose.
#[derive(Debug, Clone, Copy, PartialEq, Eq, Structural)]
pub enum ComponentKind {
    Aspect,
    Card,
    Deck,
    Recipe,
    Verb,
    Legacy,
    Ending,
}

/// An error attributed to one source file of a compilation run.
#[derive(Debug)]
pub enum CompileError {
    /// The file failed to parse; no part of it reached the corpus.
    Parse { error: ParseError },
    /// A fully-qualified key was defined twice in one per-kind map.
    /// `first_file` is the file whose definition was already present;
    /// the file this error is paired with supplied the second one.
    DuplicateDefinition { kind: ComponentKind, key: DefKey, first_file: String },
    /// A `from` clause named a key that no merged file defined, checked
    /// only after every file was merged.
    UnresolvedInheritance { key: DefKey, parent: DefKey },
}

} // verus!
