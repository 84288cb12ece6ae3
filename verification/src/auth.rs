//! Credentials of a signed-in user, and the checks that guard the mail
//! routes.

use vstd::prelude::*;
use vstd::string::StringExecFns;

verus! {

/// The credentials a user signs in with.
#[derive(Debug, PartialEq, Eq)]
pub struct SignInMessage {
    pub email: String,
    pub password: String,
    pub domain: String,
}

impl SignInMessage {
    /// Host name of the IMAP server of the user's domain.
    pub fn get_imap_string(&self) -> (host: String)
        ensures
            host@ == "imap."@ + self.domain@,
    {
        "imap.".to_owned().concat(self.domain.as_str())
    }

    /// Host name of the SMTP server of the user's domain.
    pub fn get_smtp_string(&self) -> (host: String)
        ensures
            host@ == "smtp."@ + self.domain@,
    {
        "smtp.".to_owned().concat(self.domain.as_str())
    }
}

/// Why a request is turned away.
#[derive(Clone, Copy, Debug, PartialEq, Eq, Structural)]
pub enum SessionError {
    /// The session does not hold a full set of credentials.
    Unauthenticated,
}

impl SessionError {
    /// The text that is reported for the error.
    pub fn message(&self) -> (text: String)
        ensures
            text@ == "Unauthenticated"@,
    {
        "Unauthenticated".to_owned()
    }
}

/// Builds the credentials from what the session holds under its three keys.
/// The session is valid where it holds all three.
pub fn check_is_valid_session(
    email: Option<String>,
    password: Option<String>,
    domain: Option<String>,
) -> (credentials: Result<SignInMessage, SessionError>)
    ensures
        credentials is Ok <==> email is Some && password is Some && domain is Some,
        credentials matches Ok(message) ==> message.email == email->0 && message.password
            == password->0 && message.domain == domain->0,
        credentials matches Err(error) ==> error == SessionError::Unauthenticated,
{
    match (email, password, domain) {
        (Some(email), Some(password), Some(domain)) => Ok(SignInMessage { email, password, domain }),
        _ => Err(SessionError::Unauthenticated),
    }
}

/// Makes the guards that stand before the mail routes.
#[derive(Clone, Copy, Debug)]
pub struct AuthGuardFactory;

/// A guard before a service: it lets a request through to the service where
/// the request carries the session cookie.
#[derive(Debug, PartialEq, Eq)]
pub struct AuthGuard<S> {
    pub service: S,
}

impl AuthGuardFactory {
    /// Puts a guard before `service`.
    pub fn new_transform<S>(&self, service: S) -> (guard: AuthGuard<S>)
        ensures
            guard.service == service,
    {
        AuthGuard { service }
    }
}

impl<S> AuthGuard<S> {
    /// Decides on a request by its session cookie: the request goes on to the
    /// service where it has one, and is turned away as unauthenticated where
    /// it has none.
    pub fn call(&self, session_cookie: Option<&str>) -> (verdict: Result<&S, SessionError>)
        ensures
            verdict is Ok <==> session_cookie is Some,
            verdict matches Ok(service) ==> *service == self.service,
            verdict matches Err(error) ==> error == SessionError::Unauthenticated,
    {
        match session_cookie {
            Some(_) => Ok(&self.service),
            None => Err(SessionError::Unauthenticated),
        }
    }
}

/// A step of signing in that can fail.
#[derive(Clone, Copy, Debug, PartialEq, Eq, Structural)]
pub enum SignInStage {
    /// Opening the session with the SMTP server.
    SmtpSession,
    /// Opening the session with the IMAP server.
    ImapSession,
    /// Keeping the address in the session.
    StoreEmail,
    /// Keeping the password in the session.
    StorePassword,
    /// Keeping the domain in the session.
    StoreDomain,
}

/// The answer to a request to sign in or out.
#[derive(Debug, PartialEq, Eq)]
pub struct Reply {
    /// Whether the request is granted; it is answered as unauthorized where not.
    pub authorized: bool,
    pub body: String,
}

/// The words that open the answer to a failed step of signing in.
pub open spec fn failure_prefix(stage: SignInStage) -> Seq<char> {
    match stage {
        SignInStage::SmtpSession => "SMTP error: "@,
        SignInStage::ImapSession => "IMAP error: "@,
        SignInStage::StoreEmail => "Email add to session error: "@,
        SignInStage::StorePassword => "Password add to session error: "@,
        SignInStage::StoreDomain => "Password add to session error: "@,
    }
}

/// Answers a request to sign in of which a step failed: the request is not
/// granted, and the answer names the step and the error.
pub fn sign_in_failure(stage: SignInStage, error: &str) -> (reply: Reply)
    ensures
        !reply.authorized,
        reply.body@ == failure_prefix(stage) + error@,
{
    let prefix = match stage {
        SignInStage::SmtpSession => "SMTP error: ",
        SignInStage::ImapSession => "IMAP error: ",
        SignInStage::StoreEmail => "Email add to session error: ",
        SignInStage::StorePassword => "Password add to session error: ",
        SignInStage::StoreDomain => "Password add to session error: ",
    };
    Reply { authorized: false, body: prefix.to_owned().concat(error) }
}

/// Answers a request to sign in of which every step succeeded.
pub fn sign_in_success() -> (reply: Reply)
    ensures
        reply.authorized,
        reply.body@ == "IMAP and SMTP sessions created"@,
{
    Reply { authorized: true, body: "IMAP and SMTP sessions created".to_owned() }
}

/// Answers a request to sign out: it is granted where the session holds the
/// address of a signed-in user.
pub fn sign_out_reply(signed_in: bool) -> (reply: Reply)
    ensures
        reply.authorized == signed_in,
        reply.body@ == if signed_in {
            "Successfully signed out"@
        } else {
            "Unauthorized signing out"@
        },
{
    if signed_in {
        Reply { authorized: true, body: "Successfully signed out".to_owned() }
    } else {
        Reply { authorized: false, body: "Unauthorized signing out".to_owned() }
    }
}

} // verus!
