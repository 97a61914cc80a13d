//! The error type of the card service, with the text and HTTP status that a
//! client is answered with.
use vstd::prelude::*;

use crate::text::push_str;

verus! {

/// Why a card request failed.
#[derive(Debug)]
pub enum AppError {
    /// A required query parameter is absent (or blank).
    MissingParam(String),
    /// A query parameter is present but not acceptable.
    InvalidParam { param: &'static str, reason: String },
    /// GitHub answered with an error, or without usable data.
    GitHub(String),
    /// The request to GitHub failed at the HTTP level; holds the transport's
    /// description of the failure.
    Http(String),
}

/// `AppError` with its strings taken as character sequences.
pub enum AppErrorView {
    MissingParam(Seq<char>),
    InvalidParam { param: Seq<char>, reason: Seq<char> },
    GitHub(Seq<char>),
    Http(Seq<char>),
}

impl View for AppError {
    type V = AppErrorView;

    open spec fn view(&self) -> AppErrorView {
        match self {
            AppError::MissingParam(p) => AppErrorView::MissingParam(p@),
            AppError::InvalidParam { param, reason } => AppErrorView::InvalidParam {
                param: param@,
                reason: reason@,
            },
            AppError::GitHub(m) => AppErrorView::GitHub(m@),
            AppError::Http(m) => AppErrorView::Http(m@),
        }
    }
}

/// The human-readable text of an error.
pub open spec fn error_message(e: AppErrorView) -> Seq<char> {
    match e {
        AppErrorView::MissingParam(p) => "Missing required parameter: "@ + p,
        AppErrorView::InvalidParam { param, reason } => "Invalid parameter '"@ + param + "': "@
            + reason,
        AppErrorView::GitHub(m) => "GitHub API error: "@ + m,
        AppErrorView::Http(m) => "HTTP error: "@ + m,
    }
}

/// The HTTP status a client is answered with: the client's fault (400) for a
/// bad request, an upstream fault (502) for anything GitHub did.
pub open spec fn error_status(e: AppErrorView) -> u16 {
    match e {
        AppErrorView::MissingParam(_) | AppErrorView::InvalidParam { .. } => 400,
        AppErrorView::GitHub(_) | AppErrorView::Http(_) => 502,
    }
}

impl AppError {
    /// The error's text, as it is shown to clients and in logs.
    pub fn message(&self) -> (m: String)
        ensures
            m@ == error_message(self@),
    {
        let mut m = String::new();
        match self {
            AppError::MissingParam(p) => {
                push_str(&mut m, "Missing required parameter: ");
                push_str(&mut m, p.as_str());
            },
            AppError::InvalidParam { param, reason } => {
                push_str(&mut m, "Invalid parameter '");
                push_str(&mut m, param);
                push_str(&mut m, "': ");
                push_str(&mut m, reason.as_str());
            },
            AppError::GitHub(s) => {
                push_str(&mut m, "GitHub API error: ");
                push_str(&mut m, s.as_str());
            },
            AppError::Http(s) => {
                push_str(&mut m, "HTTP error: ");
                push_str(&mut m, s.as_str());
            },
        }
        m
    }

    /// The HTTP status code of the response that reports this error.
    pub fn status(&self) -> (code: u16)
        ensures
            code == error_status(self@),
    {
        match self {
            AppError::MissingParam(_) | AppError::InvalidParam { .. } => 400,
            AppError::GitHub(_) | AppError::Http(_) => 502,
        }
    }
}

} // verus!
