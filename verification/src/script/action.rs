//! What a script decides for a request, and what can go wrong with one.

use vstd::prelude::*;

use crate::http::HeaderSeq;

verus! {

/// The decision of a script about one request.
#[derive(Debug, Clone)]
pub enum ScriptAction {
    /// Forward the request unmodified. This is also the decision when no
    /// script matches.
    Passthrough,
    /// Replace the request headers before forwarding. The body and all other
    /// parts of the request stay as they are.
    ModifyHeaders(Vec<(String, String)>),
    /// Answer the client with this response and forward nothing.
    MockResponse { status: u16, headers: Vec<(String, String)>, body: Vec<u8> },
    /// Answer the client with 502 Bad Gateway and forward nothing.
    Drop,
}

/// What a [`ScriptAction`] says.
pub enum ActionView {
    Passthrough,
    ModifyHeaders(HeaderSeq),
    MockResponse { status: u16, headers: HeaderSeq, body: Seq<u8> },
    Drop,
}

impl View for ScriptAction {
    type V = ActionView;

    open spec fn view(&self) -> ActionView {
        match *self {
            ScriptAction::Passthrough => ActionView::Passthrough,
            ScriptAction::ModifyHeaders(headers) => ActionView::ModifyHeaders(
                crate::http::headers_view(headers@),
            ),
            ScriptAction::MockResponse { status, headers, body } => ActionView::MockResponse {
                status,
                headers: crate::http::headers_view(headers@),
                body: body@,
            },
            ScriptAction::Drop => ActionView::Drop,
        }
    }
}

impl Default for ScriptAction {
    fn default() -> (r: ScriptAction)
        ensures
            r@ == ActionView::Passthrough,
    {
        ScriptAction::Passthrough
    }
}

/// What can go wrong with a script.
#[derive(Debug, Clone)]
pub enum ScriptError {
    /// The script failed while it ran.
    Eval(String),
    /// The script is not valid source text.
    Parse(String),
    /// The script returned something that is not a decision.
    InvalidAction(String),
    /// The script file could not be read.
    Io { path: String, source: String },
}

impl ScriptError {
    /// The text shown for the error.
    pub open spec fn text(&self) -> Seq<char> {
        match *self {
            ScriptError::Eval(e) => "Rhai evaluation error: "@ + e@,
            ScriptError::Parse(e) => "Rhai parse error: "@ + e@,
            ScriptError::InvalidAction(e) => "Script returned an invalid action map: "@ + e@,
            ScriptError::Io { path, source } => "I/O error reading script '"@ + path@ + "': "@
                + source@,
        }
    }

    /// The text shown for the error.
    pub fn message(&self) -> (out: String)
        ensures
            out@ == self.text(),
    {
        match self {
            ScriptError::Eval(e) => {
                let mut out = "Rhai evaluation error: ".to_string();
                out.append(e.as_str());
                out
            },
            ScriptError::Parse(e) => {
                let mut out = "Rhai parse error: ".to_string();
                out.append(e.as_str());
                out
            },
            ScriptError::InvalidAction(e) => {
                let mut out = "Script returned an invalid action map: ".to_string();
                out.append(e.as_str());
                out
            },
            ScriptError::Io { path, source } => {
                let mut out = "I/O error reading script '".to_string();
                out.append(path.as_str());
                out.append("': ");
                out.append(source.as_str());
                out
            },
        }
    }
}

} // verus!
