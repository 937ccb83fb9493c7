//! Errors of the daemon and the bus error names they are reported under.
use vstd::prelude::*;

verus! {

/// What can go wrong while serving a request.
#[derive(Debug, Clone)]
pub enum Error {
    /// A filesystem error; `not_found` when the object is missing.
    IoError { not_found: bool, message: String },
    /// An error of the bus connection.
    DbusError(String),
    /// An error of the index store.
    RedbError(String),
    /// A padding, length or key-derivation failure of a session.
    EncryptionError(String),
    /// `gpg` failed; the message is what it wrote to stderr.
    GpgError(String),
    /// No `.gpg-id` file was found up to the store's root.
    NotInitialized,
    /// The session that a request refers to does not exist.
    InvalidSession,
    /// The caller is not the client that opened the session.
    PermissionDenied,
    /// The session algorithm that a client asked for is not offered.
    NotSupported,
}

/// The bus error name that an error is reported under.
pub open spec fn error_name(e: Error) -> Seq<char> {
    match e {
        Error::IoError { not_found, .. } => if not_found {
            "org.freedesktop.Secret.Error.NoSuchObject"@
        } else {
            "org.freedesktop.DBus.Error.IOError"@
        },
        Error::DbusError(_) => "org.freedesktop.zbus.Error"@,
        Error::RedbError(_) => "me.grimsteel.PassSecretService.ReDBError"@,
        Error::GpgError(_) => "me.grimsteel.PassSecretService.GPGError"@,
        Error::EncryptionError(_) => "me.grimsteel.PassSecretService.EncryptionError"@,
        Error::NotInitialized => "me.grimsteel.PassSecretService.PassNotInitialized"@,
        Error::InvalidSession => "org.freedesktop.Secret.Error.NoSession"@,
        Error::PermissionDenied => "org.freedesktop.DBus.Error.AccessDenied"@,
        Error::NotSupported => "org.freedesktop.DBus.Error.NotSupported"@,
    }
}

/// The error of a missing object.
pub open spec fn is_not_found(e: Error) -> bool {
    e matches Error::IoError { not_found: true, .. }
}

impl Error {
    /// The error of a missing object.
    pub fn not_found() -> (r: Error)
        ensures
            is_not_found(r),
    {
        Error::IoError { not_found: true, message: String::from_str("entity not found") }
    }

    /// The bus error name of this error.
    pub fn name(&self) -> (r: String)
        ensures
            r@ == error_name(*self),
    {
        match self {
            Error::IoError { not_found, .. } => if *not_found {
                String::from_str("org.freedesktop.Secret.Error.NoSuchObject")
            } else {
                String::from_str("org.freedesktop.DBus.Error.IOError")
            },
            Error::DbusError(_) => String::from_str("org.freedesktop.zbus.Error"),
            Error::RedbError(_) => String::from_str("me.grimsteel.PassSecretService.ReDBError"),
            Error::GpgError(_) => String::from_str("me.grimsteel.PassSecretService.GPGError"),
            Error::EncryptionError(_) => String::from_str("me.grimsteel.PassSecretService.EncryptionError"),
            Error::NotInitialized => String::from_str("me.grimsteel.PassSecretService.PassNotInitialized"),
            Error::InvalidSession => String::from_str("org.freedesktop.Secret.Error.NoSession"),
            Error::PermissionDenied => String::from_str("org.freedesktop.DBus.Error.AccessDenied"),
            Error::NotSupported => String::from_str("org.freedesktop.DBus.Error.NotSupported"),
        }
    }

    /// The text that goes with the error in a reply: the stderr of `gpg`, or
    /// the message of an I/O, bus or index error; none for the others.
    pub fn description(&self) -> (r: Option<String>)
        ensures
            match *self {
                Error::IoError { message, .. } => r matches Some(d) && d@ == message@,
                Error::DbusError(m) => r matches Some(d) && d@ == m@,
                Error::RedbError(m) => r matches Some(d) && d@ == m@,
                Error::GpgError(m) => r matches Some(d) && d@ == m@,
                _ => r is None,
            },
    {
        match self {
            Error::IoError { message, .. } => Some(message.clone()),
            Error::DbusError(m) => Some(m.clone()),
            Error::RedbError(m) => Some(m.clone()),
            Error::GpgError(m) => Some(m.clone()),
            _ => None,
        }
    }
}

/// Values that may be missing, where a missing one is the not-found error.
pub trait OptionNoneNotFound<T>: Sized {
    /// The value, if present.
    spec fn present(&self) -> Option<T>;

    /// The value, or the not-found error.
    fn into_not_found(self) -> (r: Result<T, Error>)
        ensures
            self.present() matches Some(v) ==> r == Ok::<T, Error>(v),
            self.present() is None ==> (r matches Err(e) && is_not_found(e)),
    ;
}

impl<T> OptionNoneNotFound<T> for Option<T> {
    open spec fn present(&self) -> Option<T> {
        *self
    }

    fn into_not_found(self) -> (r: Result<T, Error>) {
        into_not_found(self)
    }
}

/// Turns a missing value into the not-found error.
pub fn into_not_found<T>(o: Option<T>) -> (r: Result<T, Error>)
    ensures
        o matches Some(v) ==> r == Ok::<T, Error>(v),
        o is None ==> (r matches Err(e) && is_not_found(e)),
{
    match o {
        Some(v) => Ok(v),
        None => Err(Error::not_found()),
    }
}

} // verus!
