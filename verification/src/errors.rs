//! Why serializing a value can fail.

use vstd::prelude::*;

verus! {

/// How deep containers may nest before serialization gives up.
pub const MAX_DEPTH: usize = 128;

/// The Python exception class that an error is raised as.
#[derive(PartialEq, Eq, Structural, Clone, Copy, Debug)]
pub enum ErrorClass {
    ValueError,
    TypeError,
}

/// A value that cannot be written as JSON.
#[derive(Debug)]
pub enum SerializeError {
    /// Containers nest `MAX_DEPTH` deep or more.
    DepthExceeded,
    /// A NaN or an infinity, while those are not allowed.
    NonFiniteFloat,
    /// An object of a type that has no JSON form, named here.
    NotSerializable(String),
}

/// The text of an error's message.
pub open spec fn error_message(e: SerializeError) -> Seq<char> {
    match e {
        SerializeError::DepthExceeded => "Maximum recursion depth exceeded"@,
        SerializeError::NonFiniteFloat => "Out of range float values are not JSON compliant"@,
        SerializeError::NotSerializable(name) => "Object of type "@ + name@ + " is not JSON serializable"@,
    }
}

impl SerializeError {
    /// The message that the error is raised with.
    pub fn message(&self) -> (m: String)
        ensures
            m@ == error_message(*self),
    {
        match self {
            SerializeError::DepthExceeded => "Maximum recursion depth exceeded".to_owned(),
            SerializeError::NonFiniteFloat => "Out of range float values are not JSON compliant".to_owned(),
            SerializeError::NotSerializable(name) => {
                let mut m = "Object of type ".to_owned();
                m.push_str(name.as_str());
                m.push_str(" is not JSON serializable");
                m
            },
        }
    }

    /// The exception class: `TypeError` for an object that has no JSON form,
    /// `ValueError` for the others.
    pub fn class(&self) -> (c: ErrorClass)
        ensures
            c == (if self is NotSerializable {
                ErrorClass::TypeError
            } else {
                ErrorClass::ValueError
            }),
    {
        match self {
            SerializeError::NotSerializable(_) => ErrorClass::TypeError,
            _ => ErrorClass::ValueError,
        }
    }
}

/// Refuses to go deeper than `MAX_DEPTH` levels of containers.
pub fn check_depth(depth: usize) -> (r: Result<(), SerializeError>)
    ensures
        depth < MAX_DEPTH ==> r is Ok,
        depth >= MAX_DEPTH ==> r matches Err(SerializeError::DepthExceeded),
{
    if depth >= MAX_DEPTH {
        Err(SerializeError::DepthExceeded)
    } else {
        Ok(())
    }
}

} // verus!
