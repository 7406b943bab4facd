//! The state of the client that talks to the posting service.
//!
//! The client holds the HTTP client that carries its requests, the address of
//! the service, and the session once there is one. What it sends and how it
//! waits belongs to the caller; what it holds and whether it may send at all
//! is decided here.

use vstd::prelude::*;
use vstd::string::*;

verus! {

/// `reqwest::Client`: the HTTP client. It is carried along; nothing is said
/// of what it holds or does.
#[verifier::external_type_specification]
#[verifier::external_body]
pub struct ExReqwestClient(reqwest::Client);

/// A client of the posting service.
pub struct XrpcReqwestClient {
    client: reqwest::Client,
    session: Option<Session>,
    host: String,
    dry_run: bool,
}

/// The token and the account of a session.
struct Session {
    access_jwt: String,
    access_did: String,
}

/// A client as plain values; the HTTP client itself is carried along.
pub struct ClientView {
    pub client: reqwest::Client,
    pub host: Seq<char>,
    /// The token and the account of the session, once there is one.
    pub session: Option<(Seq<char>, Seq<char>)>,
    pub dry_run: bool,
}

/// What a request is refused with in a dry run.
pub open spec fn dry_run_message() -> Seq<char> {
    "Enabled dry run mode."@
}

impl View for XrpcReqwestClient {
    type V = ClientView;

    closed spec fn view(&self) -> ClientView {
        ClientView {
            client: self.client,
            host: self.host@,
            session: match self.session {
                Some(session) => Some((session.access_jwt@, session.access_did@)),
                None => None,
            },
            dry_run: self.dry_run,
        }
    }
}

impl XrpcReqwestClient {
    /// A client for the service at `host`, without a session.
    pub fn new(host: String, client: reqwest::Client, dry_run: bool) -> (created: Self)
        ensures
            created@ == (ClientView { client, host: host@, session: None, dry_run }),
    {
        Self { host, session: None, client, dry_run }
    }

    /// The HTTP client that carries the requests.
    pub fn client(&self) -> (client: &reqwest::Client)
        ensures
            *client == self@.client,
    {
        &self.client
    }

    /// The address of the service.
    pub fn host(&self) -> (host: &str)
        ensures
            host@ == self@.host,
    {
        self.host.as_str()
    }

    /// The token of the session, if there is one.
    pub fn auth(&self) -> (token: Option<&str>)
        ensures
            match self@.session {
                Some(session) => token matches Some(jwt) && jwt@ == session.0,
                None => token is None,
            },
    {
        match &self.session {
            Some(session) => Some(session.access_jwt.as_str()),
            None => None,
        }
    }

    /// The account of the session, if there is one.
    pub fn current_did(&self) -> (account: Option<&str>)
        ensures
            match self@.session {
                Some(session) => account matches Some(did) && did@ == session.1,
                None => account is None,
            },
    {
        match &self.session {
            Some(session) => Some(session.access_did.as_str()),
            None => None,
        }
    }

    /// Takes the token and the account of a new session.
    pub fn set_session(&mut self, jwt: String, did: String)
        ensures
            final(self)@ == (ClientView { session: Some((jwt@, did@)), ..old(self)@ }),
    {
        self.session = Some(Session { access_jwt: jwt, access_did: did });
    }

    /// Whether requests are only pretended.
    pub fn is_dry_run(&self) -> (dry_run: bool)
        ensures
            dry_run == self@.dry_run,
    {
        self.dry_run
    }

    /// What a request is refused with before it is sent: in a dry run every
    /// request is refused; otherwise none is.
    pub fn refusal(&self) -> (message: Option<String>)
        ensures
            match message {
                Some(text) => self@.dry_run && text@ == dry_run_message(),
                None => !self@.dry_run,
            },
    {
        if self.dry_run {
            Some("Enabled dry run mode.".to_owned())
        } else {
            None
        }
    }
}

/// Whether a response with this status carries the content that was asked
/// for: only the status 200 does.
pub fn carries_content(status: u16) -> (carries: bool)
    ensures
        carries == (status == 200),
{
    status == 200
}

} // verus!
