use vstd::prelude::*;

verus! {

/// The failures the library reports, each with its message.
#[derive(Debug)]
pub enum AppError {
    Cli(String),
    Network(String),
    Protocol(String),
    Execution(String),
    Io(String),
    Json(String),
    Other(String),
}

/// The model of an `AppError`: its kind and its message.
pub enum ErrorView {
    Cli(Seq<char>),
    Network(Seq<char>),
    Protocol(Seq<char>),
    Execution(Seq<char>),
    Io(Seq<char>),
    Json(Seq<char>),
    Other(Seq<char>),
}

impl View for AppError {
    type V = ErrorView;

    open spec fn view(&self) -> ErrorView {
        match self {
            AppError::Cli(m) => ErrorView::Cli(m@),
            AppError::Network(m) => ErrorView::Network(m@),
            AppError::Protocol(m) => ErrorView::Protocol(m@),
            AppError::Execution(m) => ErrorView::Execution(m@),
            AppError::Io(m) => ErrorView::Io(m@),
            AppError::Json(m) => ErrorView::Json(m@),
            AppError::Other(m) => ErrorView::Other(m@),
        }
    }
}

impl AppError {
    /// The process exit status for this error: every kind exits with 1.
    pub fn exit_code(&self) -> (r: i32)
        ensures
            r == 1,
    {
        1
    }

    /// The message carried by the error.
    pub fn message(&self) -> (r: &String)
        ensures
            r@ == self@.message(),
    {
        match self {
            AppError::Cli(m) => m,
            AppError::Network(m) => m,
            AppError::Protocol(m) => m,
            AppError::Execution(m) => m,
            AppError::Io(m) => m,
            AppError::Json(m) => m,
            AppError::Other(m) => m,
        }
    }
}

impl AppError {
    /// The error as it is shown to the user: its kind, then its message.
    pub fn to_display(&self) -> (r: String)
        ensures
            r@ == self@.display(),
    {
        match self {
            AppError::Cli(m) => crate::text::concat("CLI error: ", m.as_str()),
            AppError::Network(m) => crate::text::concat("Network error: ", m.as_str()),
            AppError::Protocol(m) => crate::text::concat("Protocol error: ", m.as_str()),
            AppError::Execution(m) => crate::text::concat("Execution error: ", m.as_str()),
            AppError::Io(m) => crate::text::concat("IO error: ", m.as_str()),
            AppError::Json(m) => crate::text::concat("JSON error: ", m.as_str()),
            AppError::Other(m) => m.clone(),
        }
    }
}

impl ErrorView {
    /// The text an error is shown with.
    pub open spec fn display(self) -> Seq<char> {
        match self {
            ErrorView::Cli(m) => "CLI error: "@ + m,
            ErrorView::Network(m) => "Network error: "@ + m,
            ErrorView::Protocol(m) => "Protocol error: "@ + m,
            ErrorView::Execution(m) => "Execution error: "@ + m,
            ErrorView::Io(m) => "IO error: "@ + m,
            ErrorView::Json(m) => "JSON error: "@ + m,
            ErrorView::Other(m) => m,
        }
    }

    pub open spec fn message(self) -> Seq<char> {
        match self {
            ErrorView::Cli(m) => m,
            ErrorView::Network(m) => m,
            ErrorView::Protocol(m) => m,
            ErrorView::Execution(m) => m,
            ErrorView::Io(m) => m,
            ErrorView::Json(m) => m,
            ErrorView::Other(m) => m,
        }
    }
}

pub open spec fn result_view<T: View>(r: Result<T, AppError>) -> Result<T::V, ErrorView> {
    match r {
        Ok(v) => Ok(v@),
        Err(e) => Err(e@),
    }
}

/// `result_view` for a result whose success value is its own model.
pub open spec fn result_view_copy<T>(r: Result<T, AppError>) -> Result<T, ErrorView> {
    match r {
        Ok(v) => Ok(v),
        Err(e) => Err(e@),
    }
}

} // verus!
