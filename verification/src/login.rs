//! The credentials of a run and where they come from.

use vstd::prelude::*;
use vstd::string::StringExecFns;
use crate::error::ErrorKind;

verus! {

/// The credentials to log in with.
#[derive(Debug)]
pub struct LoginInfo {
    pub login_id: String,
    pub password: String,
}

/// Credentials as plain values.
pub struct LoginInfoView {
    pub login_id: Seq<char>,
    pub password: Seq<char>,
}

impl View for LoginInfo {
    type V = LoginInfoView;

    open spec fn view(&self) -> LoginInfoView {
        LoginInfoView { login_id: self.login_id@, password: self.password@ }
    }
}

/// The view of credentials that may be absent.
pub open spec fn login_view(info: Option<LoginInfo>) -> Option<LoginInfoView> {
    match info {
        Some(i) => Some(i@),
        None => None,
    }
}

/// The credentials that two options give: both have to be there.
pub open spec fn supplied_login(login_id: Option<&str>, password: Option<&str>) -> Option<
    LoginInfoView,
> {
    match (login_id, password) {
        (Some(id), Some(pw)) => Some(LoginInfoView { login_id: id@, password: pw@ }),
        _ => None,
    }
}

/// The credentials of a run: the supplied ones before the stored ones;
/// without either, logging in is required first.
pub open spec fn resolved_login(supplied: Option<LoginInfoView>, stored: Option<LoginInfoView>)
    -> Result<LoginInfoView, ErrorKind> {
    match supplied {
        Some(info) => Ok(info),
        None => match stored {
            Some(info) => Ok(info),
            None => Err(ErrorKind::LoginRequired),
        },
    }
}

impl LoginInfo {
    /// Credentials from a login id and a password.
    pub fn new(login_id: &str, password: &str) -> (info: LoginInfo)
        ensures
            info@ == (LoginInfoView { login_id: login_id@, password: password@ }),
    {
        LoginInfo { login_id: String::from_str(login_id), password: String::from_str(password) }
    }

    /// The credentials given by two options of a command line, if both are
    /// there.
    pub fn from_options(login_id: Option<&str>, password: Option<&str>) -> (info: Option<
        LoginInfo,
    >)
        ensures
            login_view(info) == supplied_login(login_id, password),
    {
        match (login_id, password) {
            (Some(id), Some(pw)) => Some(LoginInfo::new(id, pw)),
            _ => None,
        }
    }

    /// The stored credentials of a run, given what the store held: without
    /// any, logging in is required first.
    pub fn load(stored: Option<LoginInfo>) -> (info: Result<LoginInfo, ErrorKind>)
        ensures
            match info {
                Ok(i) => stored == Some(i),
                Err(kind) => kind == ErrorKind::LoginRequired && stored is None,
            },
    {
        match stored {
            Some(info) => Ok(info),
            None => Err(ErrorKind::LoginRequired),
        }
    }

    /// Picks the credentials of a run from the supplied and the stored ones.
    pub fn resolve(supplied: Option<LoginInfo>, stored: Option<LoginInfo>) -> (info: Result<
        LoginInfo,
        ErrorKind,
    >)
        ensures
            match info {
                Ok(i) => resolved_login(login_view(supplied), login_view(stored)) == Ok::<
                    _,
                    ErrorKind,
                >(i@),
                Err(kind) => resolved_login(login_view(supplied), login_view(stored)) == Err::<
                    LoginInfoView,
                    _,
                >(kind),
            },
    {
        match supplied {
            Some(info) => Ok(info),
            None => LoginInfo::load(stored),
        }
    }
}

} // verus!
