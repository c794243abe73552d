//! Why a definition could not be compiled.

use vstd::prelude::*;
use vstd::string::*;

verus! {

/// Why a definition could not be compiled into flight code.
#[derive(Clone, Debug)]
#[non_exhaustive]
pub enum FlightError {
    /// No container to start from.
    NoSuchContainer {
        /// The name that was looked up.
        name: String,
    },
    /// The database offers no unambiguous root and none was named.
    AmbiguousRoot,
    /// The root exists but nothing under it is a concrete container.
    NothingToEncode {
        /// The root that was walked.
        root: String,
    },
    /// A construct that no flight code is emitted for.
    ///
    /// Fatal rather than a fallback. A generator whose output silently covers half a definition
    /// is worse than one that stops: the gap only shows up in flight.
    Unsupported {
        /// The element that stopped compilation.
        element: String,
        /// Where it appeared.
        container: String,
        /// Why it cannot be compiled.
        reason: &'static str,
    },
    /// The plan could not be built, for the reason given.
    Plan(String),
    /// The plan is internally inconsistent.
    DanglingIndex,
}

/// The contents of a [`FlightError`].
pub enum ErrorModel {
    /// See [`FlightError::NoSuchContainer`].
    NoSuchContainer(Seq<char>),
    /// See [`FlightError::AmbiguousRoot`].
    AmbiguousRoot,
    /// See [`FlightError::NothingToEncode`].
    NothingToEncode(Seq<char>),
    /// See [`FlightError::Unsupported`].
    Unsupported {
        /// The element that stopped compilation.
        element: Seq<char>,
        /// Where it appeared.
        container: Seq<char>,
        /// Why it cannot be compiled.
        reason: Seq<char>,
    },
    /// See [`FlightError::Plan`].
    Plan(Seq<char>),
    /// See [`FlightError::DanglingIndex`].
    DanglingIndex,
}

impl View for FlightError {
    type V = ErrorModel;

    open spec fn view(&self) -> ErrorModel {
        match *self {
            FlightError::NoSuchContainer { name } => ErrorModel::NoSuchContainer(name@),
            FlightError::AmbiguousRoot => ErrorModel::AmbiguousRoot,
            FlightError::NothingToEncode { root } => ErrorModel::NothingToEncode(root@),
            FlightError::Unsupported { element, container, reason } => ErrorModel::Unsupported {
                element: element@,
                container: container@,
                reason: reason@,
            },
            FlightError::Plan(text) => ErrorModel::Plan(text@),
            FlightError::DanglingIndex => ErrorModel::DanglingIndex,
        }
    }
}

/// A refusal of an element, as text.
pub open spec fn refused(element: &'static str, container: Seq<char>, reason: &'static str) -> ErrorModel {
    ErrorModel::Unsupported { element: element@, container, reason: reason@ }
}

/// Refuses an element of a container.
pub fn refuse(element: &'static str, container: &String, reason: &'static str) -> (error: FlightError)
    ensures
        error@ == refused(element, container@, reason),
{
    FlightError::Unsupported { element: element.to_owned(), container: container.clone(), reason }
}

/// What `format!("{text:?}")` makes of a string: the string in quotes, with escapes.
pub uninterp spec fn quoted_text(text: Seq<char>) -> Seq<char>;

/// The `Debug` text of a string, by `format!`.
///
/// Taken on trust: it depends on the string alone.
#[verifier::external_body]
fn quoted(text: &str) -> (debug: String)
    ensures
        debug@ == quoted_text(text@),
{
    format!("{text:?}")
}

/// The message for an error, given the quoted form of the name it holds, if it holds one.
pub open spec fn message_of(error: ErrorModel, quoted_name: Seq<char>) -> Seq<char> {
    match error {
        ErrorModel::NoSuchContainer(_) => "no container named "@ + quoted_name,
        ErrorModel::AmbiguousRoot =>
            "no root container could be chosen automatically; name one explicitly"@,
        ErrorModel::NothingToEncode(root) => "nothing under "@ + root
            + " is a container a packet can be encoded as"@,
        ErrorModel::Unsupported { element, container, reason } => "cannot compile <"@ + element
            + "> in "@ + container + ": "@ + reason,
        ErrorModel::Plan(text) => text,
        ErrorModel::DanglingIndex => "internal: an index in the plan does not resolve"@,
    }
}

/// The name that an error quotes.
pub open spec fn name_in(error: ErrorModel) -> Seq<char> {
    match error {
        ErrorModel::NoSuchContainer(name) => name,
        _ => Seq::empty(),
    }
}

impl FlightError {
    /// The message for this error, given the quoted form of the name it holds.
    pub fn message_with(&self, quoted_name: &str) -> (message: String)
        ensures
            message@ == message_of(self@, quoted_name@),
    {
        match self {
            FlightError::NoSuchContainer { .. } => {
                let mut text = "no container named ".to_owned();
                text.append(quoted_name);
                text
            },
            FlightError::AmbiguousRoot =>
                "no root container could be chosen automatically; name one explicitly".to_owned(),
            FlightError::NothingToEncode { root } => {
                let mut text = "nothing under ".to_owned();
                text.append(root.as_str());
                text.append(" is a container a packet can be encoded as");
                text
            },
            FlightError::Unsupported { element, container, reason } => {
                let mut text = "cannot compile <".to_owned();
                text.append(element.as_str());
                text.append("> in ");
                text.append(container.as_str());
                text.append(": ");
                text.append(*reason);
                text
            },
            FlightError::Plan(text) => text.clone(),
            FlightError::DanglingIndex =>
                "internal: an index in the plan does not resolve".to_owned(),
        }
    }

    /// The message for this error.
    pub fn message(&self) -> (message: String)
        ensures
            message@ == message_of(self@, quoted_text(name_in(self@))),
    {
        let name = match self {
            FlightError::NoSuchContainer { name } => name.clone(),
            _ => String::new(),
        };
        self.message_with(quoted(name.as_str()).as_str())
    }
}

} // verus!
