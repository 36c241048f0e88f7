//! The error taxonomy shared by the three frontends: one classified error
//! drives the CLI exit code, the HTTP status code and the JSON-RPC / MCP
//! error code at once, so no transport ever has to interpret a
//! command-specific message.
use vstd::prelude::*;

verus! {

/// Classification of an error.  Frontends translate it with
/// [`http_status`], [`exit_code`] and [`jsonrpc_code`].
#[derive(Debug, Clone, Copy, PartialEq, Eq, Structural)]
pub enum Kind {
    /// Malformed or illegal input (missing required, failed validation, enum miss).
    InvalidInput,
    /// The caller must authenticate first.
    Unauthorized,
    /// The caller is authenticated but lacks permission.
    Forbidden,
    /// The target of the operation does not exist.
    NotFound,
    /// The operation conflicts with existing state.
    Conflict,
    /// The caller canceled the operation.
    Canceled,
    /// A dependency is temporarily unavailable.
    Unavailable,
    /// Fallback for unclassified failures.
    Internal,
}

/// The wire name of a kind.
pub open spec fn kind_name(k: Kind) -> Seq<char> {
    match k {
        Kind::InvalidInput => "invalid_input"@,
        Kind::Unauthorized => "unauthorized"@,
        Kind::Forbidden => "forbidden"@,
        Kind::NotFound => "not_found"@,
        Kind::Conflict => "conflict"@,
        Kind::Canceled => "canceled"@,
        Kind::Unavailable => "unavailable"@,
        Kind::Internal => "internal"@,
    }
}

impl Kind {
    pub fn as_str(&self) -> (s: &'static str)
        ensures
            s@ == kind_name(*self),
    {
        match self {
            Kind::InvalidInput => "invalid_input",
            Kind::Unauthorized => "unauthorized",
            Kind::Forbidden => "forbidden",
            Kind::NotFound => "not_found",
            Kind::Conflict => "conflict",
            Kind::Canceled => "canceled",
            Kind::Unavailable => "unavailable",
            Kind::Internal => "internal",
        }
    }
}

/// The library's error type.  An error either carries a classification
/// (`coded`), or stands for a foreign error that only has a message; a
/// classified error may wrap another error as its cause.
#[derive(Debug)]
pub struct Error {
    kind: Kind,
    coded: bool,
    message: String,
    cause: Option<Box<Error>>,
}

impl Error {
    /// The kind stored in this error (meaningful when it is classified).
    pub closed spec fn kind_spec(&self) -> Kind {
        self.kind
    }

    /// Whether this error carries a classification.
    pub closed spec fn coded_spec(&self) -> bool {
        self.coded
    }

    /// The error's own message.
    pub closed spec fn message_spec(&self) -> Seq<char> {
        self.message@
    }

    /// The wrapped cause, if any.
    pub closed spec fn cause_spec(&self) -> Option<Error> {
        match self.cause {
            Some(b) => Some(*b),
            None => None,
        }
    }

    /// The rendered message: own message, then `": "` and the cause's
    /// rendering (the cause's alone where the own message is empty); an
    /// empty classified error without cause renders its kind.
    pub closed spec fn text_spec(&self) -> Seq<char>
        decreases self,
    {
        if !self.coded {
            match self.cause {
                Some(c) => if self.message@.len() > 0 {
                    self.message@ + ": "@ + (*c).text_spec()
                } else {
                    (*c).text_spec()
                },
                None => self.message@,
            }
        } else {
            match self.cause {
                Some(c) => if self.message@.len() > 0 {
                    self.message@ + ": "@ + (*c).text_spec()
                } else {
                    (*c).text_spec()
                },
                None => if self.message@.len() > 0 {
                    self.message@
                } else {
                    kind_name(self.kind)
                },
            }
        }
    }

    /// The classification found along the cause chain: the first classified
    /// error decides; a chain without one falls back to `Internal`.
    pub closed spec fn class_spec(&self) -> Kind
        decreases self,
    {
        if self.coded {
            self.kind
        } else {
            match self.cause {
                Some(c) => (*c).class_spec(),
                None => Kind::Internal,
            }
        }
    }

    /// A classified error without cause.
    pub fn new(kind: Kind, msg: String) -> (e: Error)
        ensures
            e.kind_spec() == kind,
            e.coded_spec(),
            e.message_spec() == msg@,
            e.cause_spec() is None,
            e.class_spec() == kind,
            e.text_spec() == (if msg@.len() > 0 { msg@ } else { kind_name(kind) }),
    {
        Error { kind, coded: true, message: msg, cause: None }
    }

    /// A classified error from an already formatted message.
    pub fn errorf(kind: Kind, formatted: String) -> (e: Error)
        ensures
            e.kind_spec() == kind,
            e.coded_spec(),
            e.message_spec() == formatted@,
            e.cause_spec() is None,
            e.class_spec() == kind,
            e.text_spec() == (if formatted@.len() > 0 { formatted@ } else { kind_name(kind) }),
    {
        Error { kind, coded: true, message: formatted, cause: None }
    }

    /// A foreign (unclassified) error carrying only a message, such as the
    /// rendering of an I/O error.
    pub fn foreign(msg: String) -> (e: Error)
        ensures
            !e.coded_spec(),
            e.kind_spec() == Kind::Internal,
            e.message_spec() == msg@,
            e.cause_spec() is None,
            e.class_spec() == Kind::Internal,
            e.text_spec() == msg@,
    {
        Error { kind: Kind::Internal, coded: false, message: msg, cause: None }
    }

    /// Wraps a cause into a classified error; the message is the cause's.
    pub fn wrap(kind: Kind, cause: Error) -> (e: Error)
        ensures
            e.kind_spec() == kind,
            e.coded_spec(),
            e.message_spec().len() == 0,
            e.cause_spec() == Some(cause),
            e.class_spec() == kind,
            e.text_spec() == cause.text_spec(),
    {
        let ghost c = cause;
        let e = Error { kind, coded: true, message: String::new(), cause: Some(Box::new(cause)) };
        assert(e.text_spec() == c.text_spec());
        e
    }

    /// A classified error with both a message and a cause.
    pub fn wrap_msg(kind: Kind, cause: Error, msg: String) -> (e: Error)
        ensures
            e.kind_spec() == kind,
            e.coded_spec(),
            e.message_spec() == msg@,
            e.cause_spec() == Some(cause),
            e.class_spec() == kind,
            e.text_spec() == (if msg@.len() > 0 {
                msg@ + ": "@ + cause.text_spec()
            } else {
                cause.text_spec()
            }),
    {
        Error { kind, coded: true, message: msg, cause: Some(Box::new(cause)) }
    }

    /// Upgrades an error to a library error: one layer of kind `Internal`
    /// whose classification is still decided by the classified errors the
    /// cause already carries.
    pub fn upgrade(cause: Error) -> (e: Error)
        ensures
            !e.coded_spec(),
            e.kind_spec() == Kind::Internal,
            e.message_spec().len() == 0,
            e.cause_spec() == Some(cause),
            e.class_spec() == cause.class_spec(),
            e.text_spec() == cause.text_spec(),
    {
        Error { kind: Kind::Internal, coded: false, message: String::new(), cause: Some(Box::new(cause)) }
    }

    pub fn kind(&self) -> (k: Kind)
        ensures
            k == self.kind_spec(),
    {
        self.kind
    }

    /// One layer down the cause chain.
    pub fn cause(&self) -> (c: Option<&Error>)
        ensures
            match c {
                Some(x) => self.cause_spec() == Some(*x),
                None => self.cause_spec() is None,
            },
    {
        match &self.cause {
            Some(b) => Some(&**b),
            None => None,
        }
    }

    /// The rendered message (what a `Display` of the error shows).
    pub fn to_text(&self) -> (s: String)
        ensures
            s@ == self.text_spec(),
        decreases self,
    {
        if !self.coded {
            return match &self.cause {
                Some(c) => {
                    let inner = (&**c).to_text();
                    if !self.message.as_str().is_empty() {
                        let mut s = self.message.clone();
                        s.append(": ");
                        s.append(inner.as_str());
                        s
                    } else {
                        inner
                    }
                },
                None => self.message.clone(),
            };
        }
        match &self.cause {
            Some(c) => {
                let inner = (&**c).to_text();
                if !self.message.as_str().is_empty() {
                    let mut s = self.message.clone();
                    s.append(": ");
                    s.append(inner.as_str());
                    s
                } else {
                    inner
                }
            },
            None => {
                if !self.message.as_str().is_empty() {
                    self.message.clone()
                } else {
                    let mut s = String::new();
                    s.append(self.kind.as_str());
                    s
                }
            },
        }
    }
}

/// Walks the cause chain and returns the kind of the first classified
/// error; a chain without one is classified `Internal`.
pub fn classify(err: &Error) -> (k: Option<Kind>)
    ensures
        k == Some(err.class_spec()),
    decreases err,
{
    if err.coded {
        Some(err.kind)
    } else {
        match &err.cause {
            Some(c) => classify(&**c),
            None => Some(Kind::Internal),
        }
    }
}

/// The HTTP status code of a kind.
pub open spec fn http_status_spec(kind: Kind) -> int {
    match kind {
        Kind::InvalidInput => 400,
        Kind::Unauthorized => 401,
        Kind::Forbidden => 403,
        Kind::NotFound => 404,
        Kind::Conflict => 409,
        Kind::Unavailable => 503,
        Kind::Canceled => 499,
        Kind::Internal => 500,
    }
}

/// The CLI exit code of a kind.
pub open spec fn exit_code_spec(kind: Kind) -> int {
    if kind == Kind::InvalidInput { 2 } else { 1 }
}

/// The JSON-RPC 2.0 error code of a kind.
pub open spec fn jsonrpc_code_spec(kind: Kind) -> int {
    match kind {
        Kind::InvalidInput => -32602,
        Kind::NotFound => -32001,
        Kind::Conflict => -32009,
        Kind::Unauthorized => -32010,
        Kind::Forbidden => -32011,
        Kind::Canceled => -32012,
        _ => -32603,
    }
}

pub fn http_status(kind: Kind) -> (s: u16)
    ensures
        s == http_status_spec(kind),
{
    match kind {
        Kind::InvalidInput => 400,
        Kind::Unauthorized => 401,
        Kind::Forbidden => 403,
        Kind::NotFound => 404,
        Kind::Conflict => 409,
        Kind::Unavailable => 503,
        Kind::Canceled => 499,
        Kind::Internal => 500,
    }
}

pub fn exit_code(kind: Kind) -> (c: i32)
    ensures
        c == exit_code_spec(kind),
{
    if kind == Kind::InvalidInput {
        2
    } else {
        1
    }
}

pub fn jsonrpc_code(kind: Kind) -> (c: i64)
    ensures
        c == jsonrpc_code_spec(kind),
{
    match kind {
        Kind::InvalidInput => -32602,
        Kind::NotFound => -32001,
        Kind::Conflict => -32009,
        Kind::Unauthorized => -32010,
        Kind::Forbidden => -32011,
        Kind::Canceled => -32012,
        _ => -32603,
    }
}

/// Shorthand for [`Error::new`].
pub fn new(kind: Kind, msg: String) -> (e: Error)
    ensures
        e.kind_spec() == kind,
        e.coded_spec(),
        e.message_spec() == msg@,
        e.cause_spec() is None,
        e.class_spec() == kind,
        e.text_spec() == (if msg@.len() > 0 { msg@ } else { kind_name(kind) }),
{
    Error::new(kind, msg)
}

/// The three channel codes agree: exactly the invalid-input class maps to
/// the usage exit code 2, to HTTP 400 and to JSON-RPC "invalid params".
pub proof fn lemma_codes_agree_on_invalid_input(kind: Kind)
    ensures
        (exit_code_spec(kind) == 2) <==> (kind == Kind::InvalidInput),
        (http_status_spec(kind) == 400) <==> (kind == Kind::InvalidInput),
        (jsonrpc_code_spec(kind) == -32602) <==> (kind == Kind::InvalidInput),
{
}

/// Wrapping keeps the wrapped error reachable: the classification of a
/// cause that was wrapped is still found one layer down.
pub proof fn lemma_wrapped_cause_keeps_class(outer: Error, inner: Error)
    requires
        outer.cause_spec() == Some(inner),
    ensures
        !outer.coded_spec() ==> outer.class_spec() == inner.class_spec(),
{
}

} // verus!
