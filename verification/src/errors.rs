use vstd::prelude::*;

verus! {

/// The error kinds that the solver core and its host surface.
///
/// `NoAllocatableCell` is the one failure the constructive search itself can
/// produce: some class has no free `(room, period)` window left.  The other
/// kinds report misuse of the host-facing operations (commands issued before
/// an input was loaded, before a solver was adapted, or before any iteration
/// produced a best ant), a fatal out-of-range index, or malformed ingestion
/// data (rows that reference unknown names).
#[derive(Clone, Copy, Debug, PartialEq, Eq, Structural)]
pub enum AcoError {
    NoInput,
    NoSolver,
    NoBestAnt,
    NoAllocatableCell,
    InvalidIndex,
    IngestionError,
}

impl AcoError {
    /// A short human-readable name for the error kind.
    pub fn message(&self) -> (r: String)
        ensures
            r@ == self.message_spec(),
    {
        match self {
            AcoError::NoInput => String::from_str("no input loaded"),
            AcoError::NoSolver => String::from_str("no solver adapted"),
            AcoError::NoBestAnt => String::from_str("no best ant found"),
            AcoError::NoAllocatableCell => String::from_str("no allocatable cell"),
            AcoError::InvalidIndex => String::from_str("invalid index"),
            AcoError::IngestionError => String::from_str("ingestion error"),
        }
    }

    pub open spec fn message_spec(&self) -> Seq<char> {
        match self {
            AcoError::NoInput => "no input loaded"@,
            AcoError::NoSolver => "no solver adapted"@,
            AcoError::NoBestAnt => "no best ant found"@,
            AcoError::NoAllocatableCell => "no allocatable cell"@,
            AcoError::InvalidIndex => "invalid index"@,
            AcoError::IngestionError => "ingestion error"@,
        }
    }
}

} // verus!
