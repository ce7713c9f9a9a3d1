use vstd::prelude::*;
use vstd::string::*;

verus! {

#[verifier::external_type_specification]
#[verifier::external_body]
pub struct ExIoError(std::io::Error);

/// What can go wrong while an event is dispatched.
#[derive(Debug)]
pub enum DispatchError {
    HandlerFailed(String),
    InvalidEvent(String),
    Io(std::io::Error),
}

/// A `DispatchError` with its messages taken as character sequences.
pub enum DispatchErrorView {
    HandlerFailed(Seq<char>),
    InvalidEvent(Seq<char>),
    Io(std::io::Error),
}

impl View for DispatchError {
    type V = DispatchErrorView;

    open spec fn view(&self) -> DispatchErrorView {
        match self {
            DispatchError::HandlerFailed(s) => DispatchErrorView::HandlerFailed(s@),
            DispatchError::InvalidEvent(s) => DispatchErrorView::InvalidEvent(s@),
            DispatchError::Io(e) => DispatchErrorView::Io(*e),
        }
    }
}

/// Renders an I/O error with std's `Display` for `std::io::Error`.
///
/// Nothing is claimed of the text: it depends on the error's kind and payload,
/// which are not visible here.
#[verifier::external_body]
fn io_error_text(e: &std::io::Error) -> String {
    e.to_string()
}

/// `text` is the message of an error: a prefix naming the kind of failure,
/// then its detail (for an I/O error, the detail is the text std gives it).
pub open spec fn describes(text: Seq<char>, e: DispatchErrorView) -> bool {
    match e {
        DispatchErrorView::HandlerFailed(s) => text == "handler failed: "@ + s,
        DispatchErrorView::InvalidEvent(s) => text == "invalid event data: "@ + s,
        DispatchErrorView::Io(_) => text.len() >= 10 && text.subrange(0, 10) == "io error: "@,
    }
}

impl DispatchError {
    /// The human-readable message: a prefix naming the kind of failure,
    /// followed by its detail.
    pub fn to_string(&self) -> (r: String)
        ensures
            describes(r@, self@),
    {
        match self {
            DispatchError::HandlerFailed(s) => {
                let mut r = String::from_str("handler failed: ");
                r.append(s.as_str());
                assert(describes(r@, self@));
                r
            },
            DispatchError::InvalidEvent(s) => {
                let mut r = String::from_str("invalid event data: ");
                r.append(s.as_str());
                assert(describes(r@, self@));
                r
            },
            DispatchError::Io(e) => {
                let mut r = String::from_str("io error: ");
                let detail = io_error_text(e);
                r.append(detail.as_str());
                proof {
                    reveal_strlit("io error: ");
                    assert(r@.subrange(0, 10) =~= "io error: "@);
                }
                assert(describes(r@, self@));
                r
            },
        }
    }
}

impl From<std::io::Error> for DispatchError {
    fn from(e: std::io::Error) -> (r: DispatchError) {
        DispatchError::Io(e)
    }
}

impl vstd::std_specs::convert::FromSpecImpl<std::io::Error> for DispatchError {
    open spec fn obeys_from_spec() -> bool {
        true
    }

    open spec fn from_spec(e: std::io::Error) -> DispatchError {
        DispatchError::Io(e)
    }
}

} // verus!
