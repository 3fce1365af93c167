//! Error values of the Chim standard library: I/O errors, parse errors,
//! a text accumulator and values that carry a context note.
use vstd::prelude::*;
use crate::text::{owned, signed_decimal, string_push_str, push_signed_decimal};

verus! {

/// Kinds of I/O failure.
#[derive(Debug, Clone, Copy, PartialEq, Eq, Structural)]
pub enum ErrorKind {
    NotFound,
    PermissionDenied,
    ConnectionRefused,
    ConnectionReset,
    HostUnreachable,
    NetworkUnreachable,
    AddrInUse,
    AddrNotAvailable,
    BrokenPipe,
    WouldBlock,
    InvalidInput,
    InvalidData,
    TimedOut,
    WriteZero,
    UnexpectedEof,
    FileTooLarge,
    StorageFull,
    NotImplemented,
    Other,
}

/// The name of an error kind, as its variant is spelled.
pub open spec fn kind_name_spec(k: ErrorKind) -> Seq<char> {
    match k {
        ErrorKind::NotFound => "NotFound"@,
        ErrorKind::PermissionDenied => "PermissionDenied"@,
        ErrorKind::ConnectionRefused => "ConnectionRefused"@,
        ErrorKind::ConnectionReset => "ConnectionReset"@,
        ErrorKind::HostUnreachable => "HostUnreachable"@,
        ErrorKind::NetworkUnreachable => "NetworkUnreachable"@,
        ErrorKind::AddrInUse => "AddrInUse"@,
        ErrorKind::AddrNotAvailable => "AddrNotAvailable"@,
        ErrorKind::BrokenPipe => "BrokenPipe"@,
        ErrorKind::WouldBlock => "WouldBlock"@,
        ErrorKind::InvalidInput => "InvalidInput"@,
        ErrorKind::InvalidData => "InvalidData"@,
        ErrorKind::TimedOut => "TimedOut"@,
        ErrorKind::WriteZero => "WriteZero"@,
        ErrorKind::UnexpectedEof => "UnexpectedEof"@,
        ErrorKind::FileTooLarge => "FileTooLarge"@,
        ErrorKind::StorageFull => "StorageFull"@,
        ErrorKind::NotImplemented => "NotImplemented"@,
        ErrorKind::Other => "Other"@,
    }
}

/// An I/O error: a kind, a message and an optional detail.
pub struct IOError {
    kind: ErrorKind,
    message: String,
    detail: Option<String>,
}

impl IOError {
    pub closed spec fn spec_kind(&self) -> ErrorKind { self.kind }
    pub closed spec fn spec_message(&self) -> Seq<char> { self.message@ }
    pub closed spec fn spec_detail(&self) -> Option<Seq<char>> {
        match self.detail { Some(d) => Some(d@), None => None }
    }

    pub fn new(kind: ErrorKind, message: String) -> (r: IOError)
        ensures
            r.spec_kind() == kind,
            r.spec_message() == message@,
            r.spec_detail() is None,
    {
        IOError { kind, message, detail: None }
    }

    pub fn with_detail(kind: ErrorKind, message: String, detail: String) -> (r: IOError)
        ensures
            r.spec_kind() == kind,
            r.spec_message() == message@,
            r.spec_detail() == Some(detail@),
    {
        IOError { kind, message, detail: Some(detail) }
    }

    pub fn kind(&self) -> (r: ErrorKind)
        ensures
            r == self.spec_kind(),
    {
        self.kind
    }

    pub fn message(&self) -> (r: String)
        ensures
            r@ == self.spec_message(),
    {
        self.message.clone()
    }

    pub fn detail(&self) -> (r: Option<&String>)
        ensures
            match r {
                Some(d) => self.spec_detail() == Some(d@),
                None => self.spec_detail() is None,
            },
    {
        match &self.detail {
            Some(d) => Some(d),
            None => None,
        }
    }

    pub fn is_not_found(&self) -> (r: bool)
        ensures
            r == (self.spec_kind() == ErrorKind::NotFound),
    {
        self.kind == ErrorKind::NotFound
    }

    pub fn is_permission_denied(&self) -> (r: bool)
        ensures
            r == (self.spec_kind() == ErrorKind::PermissionDenied),
    {
        self.kind == ErrorKind::PermissionDenied
    }

    pub fn is_eof(&self) -> (r: bool)
        ensures
            r == (self.spec_kind() == ErrorKind::UnexpectedEof),
    {
        self.kind == ErrorKind::UnexpectedEof
    }

    pub fn is_timeout(&self) -> (r: bool)
        ensures
            r == (self.spec_kind() == ErrorKind::TimedOut),
    {
        self.kind == ErrorKind::TimedOut
    }

    /// The name of this error's kind.
    pub fn kind_name(&self) -> (r: String)
        ensures
            r@ == kind_name_spec(self.spec_kind()),
    {
        let s = match self.kind {
            ErrorKind::NotFound => "NotFound",
            ErrorKind::PermissionDenied => "PermissionDenied",
            ErrorKind::ConnectionRefused => "ConnectionRefused",
            ErrorKind::ConnectionReset => "ConnectionReset",
            ErrorKind::HostUnreachable => "HostUnreachable",
            ErrorKind::NetworkUnreachable => "NetworkUnreachable",
            ErrorKind::AddrInUse => "AddrInUse",
            ErrorKind::AddrNotAvailable => "AddrNotAvailable",
            ErrorKind::BrokenPipe => "BrokenPipe",
            ErrorKind::WouldBlock => "WouldBlock",
            ErrorKind::InvalidInput => "InvalidInput",
            ErrorKind::InvalidData => "InvalidData",
            ErrorKind::TimedOut => "TimedOut",
            ErrorKind::WriteZero => "WriteZero",
            ErrorKind::UnexpectedEof => "UnexpectedEof",
            ErrorKind::FileTooLarge => "FileTooLarge",
            ErrorKind::StorageFull => "StorageFull",
            ErrorKind::NotImplemented => "NotImplemented",
            ErrorKind::Other => "Other",
        };
        owned(s)
    }

    /// `message: detail (Kind)` or `message (Kind)`.
    pub fn to_string(&self) -> (r: String)
        ensures
            r@ == match self.spec_detail() {
                Some(d) => self.spec_message() + ": "@ + d + " ("@ + kind_name_spec(self.spec_kind()) + ")"@,
                None => self.spec_message() + " ("@ + kind_name_spec(self.spec_kind()) + ")"@,
            },
    {
        let mut s = self.message.clone();
        match &self.detail {
            Some(d) => {
                string_push_str(&mut s, ": ");
                string_push_str(&mut s, d.as_str());
            },
            None => {},
        }
        string_push_str(&mut s, " (");
        let k = self.kind_name();
        string_push_str(&mut s, k.as_str());
        string_push_str(&mut s, ")");
        s
    }
}

/// A parse failure: the input, a position, what was expected and an optional reason.
pub struct ParseError {
    input: String,
    position: i64,
    expected: String,
    reason: Option<String>,
}

impl ParseError {
    pub closed spec fn spec_input(&self) -> Seq<char> { self.input@ }
    pub closed spec fn spec_position(&self) -> int { self.position as int }
    pub closed spec fn spec_expected(&self) -> Seq<char> { self.expected@ }
    pub closed spec fn spec_reason(&self) -> Option<Seq<char>> {
        match self.reason { Some(d) => Some(d@), None => None }
    }

    pub fn new(input: String, position: i64, expected: String) -> (r: ParseError)
        ensures
            r.spec_input() == input@,
            r.spec_position() == position,
            r.spec_expected() == expected@,
            r.spec_reason() is None,
    {
        ParseError { input, position, expected, reason: None }
    }

    pub fn with_reason(input: String, position: i64, expected: String, reason: String) -> (r: ParseError)
        ensures
            r.spec_input() == input@,
            r.spec_position() == position,
            r.spec_expected() == expected@,
            r.spec_reason() == Some(reason@),
    {
        ParseError { input, position, expected, reason: Some(reason) }
    }

    pub fn input(&self) -> (r: String) ensures r@ == self.spec_input() { self.input.clone() }

    pub fn position(&self) -> (r: i64) ensures r == self.spec_position() { self.position }

    pub fn expected(&self) -> (r: String) ensures r@ == self.spec_expected() { self.expected.clone() }

    pub fn reason(&self) -> (r: Option<&String>)
        ensures
            match r {
                Some(d) => self.spec_reason() == Some(d@),
                None => self.spec_reason() is None,
            },
    {
        match &self.reason {
            Some(d) => Some(d),
            None => None,
        }
    }

    /// `Parse error at position P: expected E[, R]`.
    pub fn to_string(&self) -> (r: String)
        ensures
            r@ == "Parse error at position "@ + signed_decimal(self.spec_position()) + ": expected "@ + self.spec_expected()
                + match self.spec_reason() {
                    Some(d) => ", "@ + d,
                    None => Seq::<char>::empty(),
                },
    {
        let mut s = owned("Parse error at position ");
        push_signed_decimal(&mut s, self.position);
        string_push_str(&mut s, ": expected ");
        string_push_str(&mut s, self.expected.as_str());
        let ghost before = s@;
        match &self.reason {
            Some(d) => {
                string_push_str(&mut s, ", ");
                string_push_str(&mut s, d.as_str());
            },
            None => {
                assert(s@ =~= before + Seq::<char>::empty());
            },
        }
        s
    }
}

/// Accumulates text.
pub struct Formatter {
    output: String,
}

impl Formatter {
    pub closed spec fn out(&self) -> Seq<char> { self.output@ }

    pub fn new() -> (r: Formatter)
        ensures
            r.out() == Seq::<char>::empty(),
    {
        Formatter { output: String::new() }
    }

    pub fn write_str(&mut self, s: &str)
        ensures
            final(self).out() == old(self).out() + s@,
    {
        string_push_str(&mut self.output, s);
    }

    pub fn write_int(&mut self, n: i64)
        ensures
            final(self).out() == old(self).out() + signed_decimal(n as int),
    {
        push_signed_decimal(&mut self.output, n);
    }

    pub fn write_bool(&mut self, b: bool)
        ensures
            final(self).out() == old(self).out() + (if b { "true"@ } else { "false"@ }),
    {
        if b {
            string_push_str(&mut self.output, "true");
        } else {
            string_push_str(&mut self.output, "false");
        }
    }

    pub fn write_char(&mut self, c: &str)
        ensures
            final(self).out() == old(self).out() + c@,
    {
        string_push_str(&mut self.output, c);
    }

    pub fn result(&self) -> (r: String)
        ensures
            r@ == self.out(),
    {
        self.output.clone()
    }
}

/// A value with a note on where it came from.
pub struct Context<T> {
    value: T,
    context: String,
}

impl<T> Context<T> {
    pub closed spec fn spec_value(&self) -> T { self.value }
    pub closed spec fn spec_context(&self) -> Seq<char> { self.context@ }

    pub fn new(value: T, context: String) -> (r: Context<T>)
        ensures
            r.spec_value() == value,
            r.spec_context() == context@,
    {
        Context { value, context }
    }

    /// Maps the value; the new note is `context: old note`.
    pub fn with<U, F: Fn(T) -> U>(self, f: F, context: String) -> (r: Context<U>)
        requires
            f.requires((self.spec_value(),)),
        ensures
            f.ensures((self.spec_value(),), r.spec_value()),
            r.spec_context() == context@ + ": "@ + self.spec_context(),
    {
        let mut c = context;
        string_push_str(&mut c, ": ");
        string_push_str(&mut c, self.context.as_str());
        let v = f(self.value);
        Context { value: v, context: c }
    }

    pub fn value(self) -> (r: T)
        ensures
            r == self.spec_value(),
    {
        self.value
    }

    pub fn context(&self) -> (r: String)
        ensures
            r@ == self.spec_context(),
    {
        self.context.clone()
    }
}

impl<T> Context<Option<T>> {
    /// The value, or `error` when there is none.
    pub fn ok_or<E>(self, error: E) -> (r: Result<T, E>)
        ensures
            r == match self.spec_value() {
                Some(v) => Ok::<T, E>(v),
                None => Err(error),
            },
    {
        match self.value {
            Some(v) => Ok(v),
            None => Err(error),
        }
    }

    /// The value, or the error made by `f` when there is none.
    pub fn ok_or_else<E, F: Fn() -> E>(self, f: F) -> (r: Result<T, E>)
        requires
            self.spec_value() is None ==> f.requires(()),
        ensures
            match self.spec_value() {
                Some(v) => r == Ok::<T, E>(v),
                None => r matches Err(e) && f.ensures((), e),
            },
    {
        match self.value {
            Some(v) => Ok(v),
            None => Err(f()),
        }
    }
}

} // verus!
