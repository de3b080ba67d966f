use vstd::prelude::*;

verus! {

/// Kind of I/O failure the host reports when a local read fails.
#[derive(Clone, Copy, PartialEq, Eq, Structural, Debug)]
pub enum IoKind {
    NotFound,
    PermissionDenied,
    Other,
}

/// The kind a loaded module is served as.
#[derive(Clone, Copy, PartialEq, Eq, Structural, Debug)]
pub enum ModuleType {
    Script,
    StructuredData,
}

/// The module kind a reference explicitly asked for.
#[derive(Clone, Copy, PartialEq, Eq, Structural, Debug)]
pub enum RequestedKind {
    /// No explicit kind: the module is served as a script.
    Default,
    /// An explicit structured-data request.
    StructuredData,
    /// Any other explicit kind; never silently coerced.
    Other,
}

/// Everything that can go wrong while resolving, fetching, lowering or
/// evaluating a module. The first error observed aborts the whole run.
#[derive(Clone, Copy, PartialEq, Eq, Structural, Debug)]
pub enum LoadError {
    /// The specifier/referrer combination is malformed or schemeless.
    Resolution,
    /// The specifier's scheme is none of `file`, `http`, `https`, `data`.
    UnsupportedScheme,
    /// A `file` specifier cannot be converted to a filesystem path.
    InvalidFileReference,
    /// A remote fetch failed at the transport level.
    Network,
    /// A remote fetch answered with a non-success status.
    HttpStatus(u16),
    /// A `data` specifier is not a well-formed data URL or its payload
    /// cannot be decoded.
    InvalidDataEncoding,
    /// An explicit module kind outside the supported set was requested.
    UnsupportedModuleType,
    /// Typed-superset source failed to parse or lower; carries the
    /// 1-indexed position of the offending syntax (0, 0 when the emitter
    /// rather than the parser failed).
    Transpile { line: usize, column: usize },
    /// Evaluated code, or the runtime itself, raised an error.
    Evaluation,
    /// A local read failed.
    Io(IoKind),
}

} // verus!
