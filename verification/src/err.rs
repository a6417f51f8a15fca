//! Failures that the library reports to its caller.

use vstd::prelude::*;
use vstd::string::*;

verus! {

/// What an unsuccessful filesystem operation reported.
#[derive(Debug, Clone, PartialEq, Eq)]
pub struct IoFailure {
    /// The entity that the operation addressed does not exist.
    pub not_found: bool,
    /// The operating system's description of the failure.
    pub message: String,
}

/// The ways in which taking or rendering an inventory fails.
#[derive(Debug, Clone, PartialEq, Eq)]
pub enum SError {
    /// A filesystem operation on `path` failed.
    Io { path: String, err: IoFailure },
    /// The enclosure directory lists no enclosure.
    NoEnclosuresFound,
    /// The enclosure directory lists several enclosures.
    MoreThanOneEnclosureFound,
    /// The bay count read from `path` is not a number.
    ComponentsNaN { path: String },
    /// The grid width is zero or does not divide the number of bays.
    InvalidLayout,
    /// More groups ask for a colour than the palette holds.
    PaletteExhausted,
    /// Two bays of one grid carry different numbers of detail lines.
    LineCountMismatch,
    /// A row of the grid is wider than the machine can count.
    GridTooLarge,
    /// The listing of block devices states no number of bytes for `device`.
    SizeNaN { device: String },
}

pub type SResult<R> = Result<R, SError>;

impl SError {
    /// The failure of a filesystem operation on `path`.
    pub fn io(path: String, err: IoFailure) -> (r: SError)
        ensures
            r == (SError::Io { path, err }),
    {
        SError::Io { path, err }
    }

    /// The failure in words.
    pub open spec fn message(&self) -> Seq<char> {
        match self {
            SError::Io { path, err } => "IoError "@ + path@ + " "@ + err.message@,
            SError::NoEnclosuresFound => "NoEnclosuresFound"@,
            SError::MoreThanOneEnclosureFound => "MoreThanOneEnclosureFound"@,
            SError::ComponentsNaN { path } => "ComponentsNaN "@ + path@,
            SError::InvalidLayout => "InvalidLayout"@,
            SError::PaletteExhausted => "PaletteExhausted"@,
            SError::LineCountMismatch => "LineCountMismatch"@,
            SError::GridTooLarge => "GridTooLarge"@,
            SError::SizeNaN { device } => "SizeNaN "@ + device@,
        }
    }

    /// The failure in words.
    pub fn to_string(&self) -> (r: String)
        ensures
            r@ == self.message(),
    {
        let mut out = String::new();
        match self {
            SError::Io { path, err } => {
                out.append("IoError ");
                out.append(path.as_str());
                out.append(" ");
                out.append(err.message.as_str());
            },
            SError::NoEnclosuresFound => out.append("NoEnclosuresFound"),
            SError::MoreThanOneEnclosureFound => out.append("MoreThanOneEnclosureFound"),
            SError::ComponentsNaN { path } => {
                out.append("ComponentsNaN ");
                out.append(path.as_str());
            },
            SError::InvalidLayout => out.append("InvalidLayout"),
            SError::PaletteExhausted => out.append("PaletteExhausted"),
            SError::LineCountMismatch => out.append("LineCountMismatch"),
            SError::GridTooLarge => out.append("GridTooLarge"),
            SError::SizeNaN { device } => {
                out.append("SizeNaN ");
                out.append(device.as_str());
            },
        }
        assert(out@ =~= self.message());
        out
    }
}

/// What becomes of the result `raw` of a filesystem operation on `path`: a
/// value is handed on, a failure is handed on together with the path.
pub open spec fn io_outcome<T>(raw: Result<T, IoFailure>, path: Seq<char>, r: SResult<T>) -> bool {
    match raw {
        Ok(v) => r == Ok::<T, SError>(v),
        Err(e) => r matches Err(SError::Io { path: p, err }) && p@ == path && err == e,
    }
}

/// Names the path in the failure of an operation that was made on it.
pub fn io_op<T>(source: Result<T, IoFailure>, path: &str) -> (r: SResult<T>)
    ensures
        io_outcome(source, path@, r),
{
    match source {
        Ok(v) => Ok(v),
        Err(e) => Err(SError::io(path.to_owned(), e)),
    }
}

/// Makes the operation `source` on `path`, and names the path in its
/// failure.
pub fn io_op_call<T, S: Fn(&str) -> Result<T, IoFailure>>(source: S, path: &str) -> (r: SResult<T>)
    requires
        call_requires(source, (path,)),
    ensures
        exists|raw: Result<T, IoFailure>|
            call_ensures(source, (path,), raw) && io_outcome(raw, path@, r),
{
    let raw = source(path);
    io_op(raw, path)
}

} // verus!
