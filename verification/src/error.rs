//! The failure taxonomy shared by every fallible operation of the crate.

use vstd::prelude::*;

verus! {

/// `std::io::Error`, carried through as an opaque value: nothing in this
/// crate looks inside one.
#[verifier::external_type_specification]
#[verifier::external_body]
pub struct ExIoError(std::io::Error);

/// Everything that can go wrong while describing or running a transfer.
#[derive(Debug)]
pub enum RddError {
    /// An open, read, write, seek or flush failed; the cause is kept as is.
    Io(std::io::Error),
    /// The job description was turned down, before any byte was moved.
    Config(String),
    /// The transfer finished but its digest is not the expected one.
    VerificationFailure { expected: String, actual: String },
    /// The parts of an engine lost track of each other.
    Channel(String),
    /// A feature that is announced but absent.
    NotImplemented(String),
}

pub type RddResult<T> = Result<T, RddError>;

/// What an [`RddError`] says, with every text as a sequence of characters.
pub enum Fault {
    Io(std::io::Error),
    Config(Seq<char>),
    VerificationFailure { expected: Seq<char>, actual: Seq<char> },
    Channel(Seq<char>),
    NotImplemented(Seq<char>),
}

impl View for RddError {
    type V = Fault;

    open spec fn view(&self) -> Fault {
        match *self {
            RddError::Io(e) => Fault::Io(e),
            RddError::Config(m) => Fault::Config(m@),
            RddError::VerificationFailure { expected, actual } => Fault::VerificationFailure {
                expected: expected@,
                actual: actual@,
            },
            RddError::Channel(m) => Fault::Channel(m@),
            RddError::NotImplemented(m) => Fault::NotImplemented(m@),
        }
    }
}

impl Fault {
    /// The fixed words that open the rendering of each kind of fault.
    pub open spec fn heading(self) -> Seq<char> {
        match self {
            Fault::Io(_) => "I/O Error: "@,
            Fault::Config(_) => "Configuration Error: "@,
            Fault::VerificationFailure { .. } => "Verification failed: Hashes do not match. Expected: "@,
            Fault::Channel(_) => "Threading channel error: "@,
            Fault::NotImplemented(_) => "Features not yet implement: "@,
        }
    }

    /// The full rendering of a fault, given the text `cause` that stands for
    /// the I/O error inside it (unused by the other kinds).
    pub open spec fn rendering(self, cause: Seq<char>) -> Seq<char> {
        match self {
            Fault::Io(_) => self.heading() + cause,
            Fault::Config(m) => self.heading() + m,
            Fault::VerificationFailure { expected, actual } => self.heading() + expected
                + ", Got: "@ + actual,
            Fault::Channel(m) => self.heading() + m,
            Fault::NotImplemented(m) => self.heading() + m,
        }
    }
}

impl From<std::io::Error> for RddError {
    /// An I/O failure as an error of this crate, with the failure as its
    /// cause.
    fn from(cause: std::io::Error) -> (e: RddError) {
        RddError::Io(cause)
    }
}

impl vstd::std_specs::convert::FromSpecImpl<std::io::Error> for RddError {
    open spec fn obeys_from_spec() -> bool {
        true
    }

    open spec fn from_spec(cause: std::io::Error) -> RddError {
        RddError::Io(cause)
    }
}

/// `Display` of `std::io::Error`. The text comes from the operating system,
/// so nothing is claimed of it.
#[verifier::external_body]
fn io_error_text(e: &std::io::Error) -> (text: String) {
    format!("{}", e)
}

impl RddError {
    /// The message shown to the user for this error.
    pub fn message(&self) -> (text: String)
        ensures
            !(self@ is Io) ==> text@ == self@.rendering(Seq::empty()),
            self@ is Io ==> exists|cause: Seq<char>| text@ == self@.rendering(cause),
    {
        match self {
            RddError::Io(e) => {
                let cause = io_error_text(e);
                let mut text = String::from_str("I/O Error: ");
                text.append(cause.as_str());
                assert(text@ == self@.rendering(cause@));
                text
            },
            RddError::Config(m) => {
                let mut text = String::from_str("Configuration Error: ");
                text.append(m.as_str());
                text
            },
            RddError::VerificationFailure { expected, actual } => {
                let mut text = String::from_str(
                    "Verification failed: Hashes do not match. Expected: ",
                );
                text.append(expected.as_str());
                text.append(", Got: ");
                text.append(actual.as_str());
                text
            },
            RddError::Channel(m) => {
                let mut text = String::from_str("Threading channel error: ");
                text.append(m.as_str());
                text
            },
            RddError::NotImplemented(m) => {
                let mut text = String::from_str("Features not yet implement: ");
                text.append(m.as_str());
                text
            },
        }
    }
}

} // verus!
