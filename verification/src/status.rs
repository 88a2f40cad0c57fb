//! gRPC status values, as plain data.
//!
//! A status is a code, a message, and the text that it prints. The numbering
//! of the codes and the text form of a status are tonic's.

use vstd::prelude::*;

verus! {

/// The code of a call that succeeded.
pub const CODE_OK: i32 = 0;

/// The code that stands for every number that is no gRPC code.
pub const CODE_UNKNOWN: i32 = 2;

/// The code of a failure inside the runtime.
pub const CODE_INTERNAL: i32 = 13;

/// The code of a peer that cannot be reached.
pub const CODE_UNAVAILABLE: i32 = 14;

/// The largest gRPC code.
pub const CODE_MAX: i32 = 16;

/// A gRPC status: one of the gRPC codes, and a message. A status that came
/// with details or metadata keeps the text that shows them.
#[derive(Debug)]
pub struct Status {
    code: i32,
    message: String,
    /// The text form, where it shows more than the code and the message.
    text: Option<String>,
}

/// What a [`Status`] says.
pub struct StatusView {
    pub code: i32,
    pub message: Seq<char>,
    /// The text form.
    pub text: Seq<char>,
}

impl View for Status {
    type V = StatusView;

    closed spec fn view(&self) -> StatusView {
        StatusView {
            code: self.code,
            message: self.message@,
            text: match self.text {
                Some(text) => text@,
                None => status_display(self.code, self.message@),
            },
        }
    }
}

/// What a status says that is made of a code and a message alone.
pub open spec fn plain_status(code: i32, message: Seq<char>) -> StatusView {
    StatusView { code, message, text: status_display(code, message) }
}

impl Clone for Status {
    fn clone(&self) -> (r: Self)
        ensures
            r == *self,
    {
        proof {
            use_type_invariant(self);
        }
        Status {
            code: self.code,
            message: self.message.clone(),
            text: match &self.text {
                Some(text) => Some(text.clone()),
                None => None,
            },
        }
    }
}

/// Whether `code` is one of the gRPC codes.
pub open spec fn is_code(code: int) -> bool {
    CODE_OK <= code <= CODE_MAX
}

/// The gRPC code that a number stands for.
pub open spec fn code_of(number: int) -> int {
    if is_code(number) {
        number
    } else {
        CODE_UNKNOWN as int
    }
}

/// The text form of a status with this code and message, as
/// `tonic::Status` prints it.
pub uninterp spec fn status_display(code: i32, message: Seq<char>) -> Seq<char>;

/// `tonic::Code::from_i32`: the numbers 0 to 16 are the gRPC codes, and every
/// other number is read as `Unknown`.
#[verifier::external_body]
fn code_from_i32(number: i32) -> (r: i32)
    ensures
        r == code_of(number as int),
{
    tonic::Code::from_i32(number) as i32
}

/// `tonic::Status::internal`: a status with code `Internal` and the given
/// message.
#[verifier::external_body]
fn tonic_internal(message: &str) -> (r: (i32, String))
    ensures
        r.0 == CODE_INTERNAL,
        r.1@ == message@,
{
    let s = tonic::Status::internal(message);
    (s.code() as i32, s.message().to_string())
}

/// `tonic::Status::unavailable`: a status with code `Unavailable` and the
/// given message.
#[verifier::external_body]
fn tonic_unavailable(message: &str) -> (r: (i32, String))
    ensures
        r.0 == CODE_UNAVAILABLE,
        r.1@ == message@,
{
    let s = tonic::Status::unavailable(message);
    (s.code() as i32, s.message().to_string())
}

/// `Display` of `tonic::Status`, on a status made of a code and a message
/// alone. The text is a function of the two.
#[verifier::external_body]
fn tonic_display(code: i32, message: &str) -> (r: String)
    ensures
        r@ == status_display(code, message@),
{
    tonic::Status::new(tonic::Code::from_i32(code), message).to_string()
}

impl Status {
    #[verifier::type_invariant]
    spec fn inv(self) -> bool {
        is_code(self.code as int)
    }

    /// The status with the code that `number` stands for.
    pub fn new(number: i32, message: String) -> (r: Status)
        ensures
            r@ == plain_status(code_of(number as int) as i32, message@),
    {
        Status { code: code_from_i32(number), message, text: None }
    }

    /// A status as it was received, with the text that it prints: the details
    /// and the metadata that came with it are kept in that text.
    pub fn received(number: i32, message: String, text: String) -> (r: Status)
        ensures
            r@ == (StatusView {
                code: code_of(number as int) as i32,
                message: message@,
                text: text@,
            }),
    {
        Status { code: code_from_i32(number), message, text: Some(text) }
    }

    /// A failure inside the runtime.
    pub fn internal(message: &str) -> (r: Status)
        ensures
            r@ == plain_status(CODE_INTERNAL, message@),
    {
        let (code, message) = tonic_internal(message);
        Status { code, message, text: None }
    }

    /// A peer that cannot be reached.
    pub fn unavailable(message: &str) -> (r: Status)
        ensures
            r@ == plain_status(CODE_UNAVAILABLE, message@),
    {
        let (code, message) = tonic_unavailable(message);
        Status { code, message, text: None }
    }

    /// The code.
    pub fn code(&self) -> (r: i32)
        ensures
            r == self@.code,
            is_code(r as int),
    {
        proof {
            use_type_invariant(self);
        }
        self.code
    }

    /// The message.
    pub fn message(&self) -> (r: &str)
        ensures
            r@ == self@.message,
    {
        self.message.as_str()
    }

    /// The status as text.
    pub fn to_string(&self) -> (r: String)
        ensures
            r@ == self@.text,
    {
        match &self.text {
            Some(text) => text.clone(),
            None => tonic_display(self.code, self.message.as_str()),
        }
    }
}

} // verus!
