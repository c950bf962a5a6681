//! The error of the nested form serializer.
use vstd::prelude::*;
use crate::text::push_str;

verus! {

/// A failure to serialize: where in the value it happened, what went wrong,
/// and the error of the final encoding step if it was that step that failed.
#[derive(Debug)]
pub struct UrlEncodeError {
    pub path: Option<String>,
    pub message: String,
    pub urlencode_error: Option<serde_urlencoded::ser::Error>,
}

/// The abstract value of an error: its path and message.
pub struct ErrorView {
    pub path: Option<Seq<char>>,
    pub message: Seq<char>,
}

impl View for UrlEncodeError {
    type V = ErrorView;

    open spec fn view(&self) -> ErrorView {
        ErrorView {
            path: match self.path {
                Some(p) => Some(p@),
                None => None,
            },
            message: self.message@,
        }
    }
}

/// The text of an error: `UrlEncodeError [path](message)`, or
/// `UrlEncodeError (message)` when it has no path.
pub open spec fn error_text(e: ErrorView) -> Seq<char> {
    match e.path {
        Some(p) => "UrlEncodeError ["@ + p + "]("@ + e.message + ")"@,
        None => "UrlEncodeError ("@ + e.message + ")"@,
    }
}

impl UrlEncodeError {
    /// An error at `path` with `message`.
    pub fn new(path: Option<String>, message: String) -> (e: UrlEncodeError)
        ensures
            e.path == path,
            e.message == message,
            e.urlencode_error is None,
    {
        UrlEncodeError { path, message, urlencode_error: None }
    }

    /// The error's text.
    pub fn to_string(&self) -> (s: String)
        ensures
            s@ == error_text(self@),
    {
        let mut s = String::new();
        match &self.path {
            Some(p) => {
                push_str(&mut s, "UrlEncodeError [");
                push_str(&mut s, p.as_str());
                push_str(&mut s, "](");
            },
            None => {
                push_str(&mut s, "UrlEncodeError (");
            },
        }
        push_str(&mut s, self.message.as_str());
        push_str(&mut s, ")");
        s
    }

    /// The error for a failed final encoding step.
    pub fn from_urlencoded(error: serde_urlencoded::ser::Error) -> (e: UrlEncodeError)
        ensures
            e.path is None,
            e.message@ == "urlencoding of key value array failed"@,
            e.urlencode_error == Some(error),
    {
        UrlEncodeError {
            path: None,
            message: "urlencoding of key value array failed".to_string(),
            urlencode_error: Some(error),
        }
    }
}

} // verus!
