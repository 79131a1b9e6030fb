//! The closed set of failures shared by the encoder, the decoder and the
//! replay log.

use vstd::prelude::*;

verus! {

/// A simulation step number, counted from the start.
pub type Turn = u64;

/// `std::io::Error`, carried through as the cause of a failed read or write.
#[verifier::external_type_specification]
#[verifier::external_body]
pub struct ExIoError(std::io::Error);

/// `ciborium::ser::Error`, carried through as the cause of a failed payload encoding.
#[verifier::external_type_specification]
#[verifier::external_body]
#[verifier::reject_recursive_types(T)]
pub struct ExCborEncodeError<T>(ciborium::ser::Error<T>);

/// `ciborium::de::Error`, carried through as the cause of a failed payload decoding.
#[verifier::external_type_specification]
#[verifier::external_body]
#[verifier::reject_recursive_types(T)]
pub struct ExCborDecodeError<T>(ciborium::de::Error<T>);

/// The structural rule that a `Parsing` failure reports as broken.
#[derive(Debug, Clone, Copy, PartialEq, Eq)]
pub enum ErrorKind {
    /// The input was expected to end here, and bytes were left over.
    Eof,
}

/// Failures of the replay subsystem. `I` is the form in which a `Parsing`
/// failure holds the input it refers to: a slice of the buffer that was
/// parsed (`ErrorBorrowed`), or a copy of it (`ErrorOwned`).
#[derive(Debug)]
pub enum GenericError<I> {
    /// A turn was recorded that is not after the last recorded one: (last, attempted).
    IncoherentTurn(Turn, Turn),
    /// Reading or writing the byte source or sink failed.
    IoError(std::io::Error),
    /// The four bytes found where a magic tag was expected.
    InvalidMagic([u8; 4]),
    /// The container's format version, which this code does not read.
    UnsupportedCoreVersion(u32),
    /// The simulation's schema version, which its version guard refused.
    UnsupportedGameVersion(u32),
    /// A turn input was framed with length zero.
    MissingTurnInput,
    /// The bytes at the given input break the given rule.
    Parsing(I, ErrorKind),
    /// A length-prefixed block declares more bytes than remain: (declared, available).
    InvalidLength(u64, usize),
    /// A payload could not be encoded.
    Encoder(ciborium::ser::Error<std::io::Error>),
    /// A payload could not be decoded.
    Decoder(ciborium::de::Error<std::io::Error>),
    /// The inner failure happened while reading the labelled field.
    Context(&'static str, Box<GenericError<I>>),
    /// The input ends early: at least this many more bytes are needed to decide.
    Incomplete(usize),
}

/// A failure that borrows from the buffer it was produced against.
pub type ErrorBorrowed<'a> = GenericError<&'a [u8]>;

/// A failure detached from any buffer.
pub type ErrorOwned = GenericError<Vec<u8>>;

/// `o` is `b` with every borrowed input replaced by a copy of its bytes.
pub open spec fn owned_form(b: ErrorBorrowed<'_>, o: ErrorOwned) -> bool
    decreases b,
{
    match (b, o) {
        (GenericError::IncoherentTurn(l, t), GenericError::IncoherentTurn(l2, t2)) => l == l2 && t
            == t2,
        (GenericError::IoError(e), GenericError::IoError(e2)) => e == e2,
        (GenericError::InvalidMagic(m), GenericError::InvalidMagic(m2)) => m == m2,
        (GenericError::UnsupportedCoreVersion(v), GenericError::UnsupportedCoreVersion(v2)) => v
            == v2,
        (GenericError::UnsupportedGameVersion(v), GenericError::UnsupportedGameVersion(v2)) => v
            == v2,
        (GenericError::MissingTurnInput, GenericError::MissingTurnInput) => true,
        (GenericError::Parsing(i, k), GenericError::Parsing(i2, k2)) => i@ == i2@ && k == k2,
        (GenericError::InvalidLength(d, a), GenericError::InvalidLength(d2, a2)) => d == d2 && a
            == a2,
        (GenericError::Encoder(e), GenericError::Encoder(e2)) => e == e2,
        (GenericError::Decoder(e), GenericError::Decoder(e2)) => e == e2,
        (GenericError::Context(l, inner), GenericError::Context(l2, inner2)) => l == l2
            && owned_form(*inner, *inner2),
        (GenericError::Incomplete(n), GenericError::Incomplete(n2)) => n == n2,
        _ => false,
    }
}

impl<'a> GenericError<&'a [u8]> {
    /// Detaches the failure from the buffer it borrows, copying what it refers to.
    pub fn into_owned(self) -> (r: ErrorOwned)
        ensures
            owned_form(self, r),
        decreases self,
    {
        match self {
            GenericError::IncoherentTurn(l, t) => GenericError::IncoherentTurn(l, t),
            GenericError::IoError(e) => GenericError::IoError(e),
            GenericError::InvalidMagic(m) => GenericError::InvalidMagic(m),
            GenericError::UnsupportedCoreVersion(v) => GenericError::UnsupportedCoreVersion(v),
            GenericError::UnsupportedGameVersion(v) => GenericError::UnsupportedGameVersion(v),
            GenericError::MissingTurnInput => GenericError::MissingTurnInput,
            GenericError::Parsing(i, k) => GenericError::Parsing(vstd::slice::slice_to_vec(i), k),
            GenericError::InvalidLength(d, a) => GenericError::InvalidLength(d, a),
            GenericError::Encoder(e) => GenericError::Encoder(e),
            GenericError::Decoder(e) => GenericError::Decoder(e),
            GenericError::Context(l, inner) => GenericError::Context(l, Box::new(inner.into_owned())),
            GenericError::Incomplete(n) => GenericError::Incomplete(n),
        }
    }
}

/// Tags a failure with the field being read. A shortage of input passes
/// through untagged: it is not a fault of the field.
pub open spec fn in_context<I>(label: &'static str, e: GenericError<I>) -> GenericError<I> {
    match e {
        GenericError::Incomplete(n) => GenericError::Incomplete(n),
        _ => GenericError::Context(label, Box::new(e)),
    }
}

/// Tags `e` with the field being read; see `in_context`.
pub fn context<I>(label: &'static str, e: GenericError<I>) -> (r: GenericError<I>)
    ensures
        r == in_context(label, e),
{
    match e {
        GenericError::Incomplete(n) => GenericError::Incomplete(n),
        _ => GenericError::Context(label, Box::new(e)),
    }
}

} // verus!
