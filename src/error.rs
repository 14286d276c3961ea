use vstd::prelude::*;
use vstd::string::*;

verus! {

/// What can go wrong while resolving an invocation.
#[derive(Debug)]
pub enum MedusaError {
    /// A non-empty line of the alias file does not hold exactly one `=`;
    /// the line is carried along.
    MalformedConfig(String),
    /// The session cache does not start with the directory record, or holds a
    /// second one.
    MalformedCache,
}

/// The mathematical form of a [`MedusaError`].
pub enum Failure {
    MalformedConfig(Seq<char>),
    MalformedCache,
}

impl View for MedusaError {
    type V = Failure;

    open spec fn view(&self) -> Failure {
        match self {
            MedusaError::MalformedConfig(l) => Failure::MalformedConfig(l@),
            MedusaError::MalformedCache => Failure::MalformedCache,
        }
    }
}

impl MedusaError {
    /// A one-line description for the user.
    pub fn message(&self) -> (r: String)
        ensures
            self is MalformedCache ==> r@ == "invalid cache line"@,
            self matches MedusaError::MalformedConfig(l) ==> r@ == "invalid key pair for line : "@
                + l@,
    {
        match self {
            MedusaError::MalformedConfig(l) => {
                let mut r = String::from_str("invalid key pair for line : ");
                r.append(l.as_str());
                r
            },
            MedusaError::MalformedCache => String::from_str("invalid cache line"),
        }
    }
}

/// Turns a broken expectation into `err`: `Ok` exactly when `check` holds.
pub fn check_invariant(check: bool, err: MedusaError) -> (r: Result<(), MedusaError>)
    ensures
        check ==> r is Ok,
        !check ==> r == Err::<(), MedusaError>(err),
{
    if check {
        Ok(())
    } else {
        Err(err)
    }
}

} // verus!
