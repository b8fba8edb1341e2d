//! The authenticated session: static configuration, the mutable token pair
//! with its renewal deadline, and the selected division. Every decision of
//! the authenticate / refresh / logout lifecycle is made here; the
//! surrounding shell only performs the HTTP exchanges these decisions call
//! for and feeds the outcomes back in.

use vstd::prelude::*;
use vstd::string::*;
use crate::errors::ClientError;
use crate::token::TokenRecord;
use crate::text::{dec_signed, i64_to_string};

verus! {

/// Number of seconds after issuance at which a token pair is due for
/// renewal: a fixed safety margin before the provider's ~600 s expiry.
pub const REFRESH_MARGIN_SECS: i64 = 570;

/// Build-time configuration, immutable for the life of the session.
#[derive(Debug, Clone)]
pub struct StaticConfig {
    pub api: String,
    pub client_id: String,
    pub client_secret: String,
    pub redirect_uri: String,
}

/// A form POST to the provider's token endpoint that the shell must
/// perform: the target URL and the form parameters, in order.
#[derive(Debug, Clone)]
pub struct TokenRequest {
    pub url: String,
    pub params: Vec<(String, String)>,
}

/// An authenticated GET the shell must perform: the absolute URL and the
/// value of the `Authorization` header.
#[derive(Debug, Clone)]
pub struct ApiRequest {
    pub url: String,
    pub bearer: String,
}

/// In-memory session state. Exactly one lives per process, behind the
/// shell's lock; all methods here are lock-free pure state transitions.
#[derive(Debug)]
pub struct SessionState {
    pub config: StaticConfig,
    pub access_token: Option<String>,
    pub refresh_token: Option<String>,
    /// Epoch seconds; tokens are renewed at first use past this instant.
    pub refresh_at: i64,
    pub current_division: Option<i32>,
}

impl SessionState {
    /// A fresh session from configuration and whatever record was found on
    /// disk; an absent or unreadable record means "not authenticated".
    pub fn new(config: StaticConfig, persisted: Option<TokenRecord>) -> (s: SessionState)
        ensures
            s.config == config,
            (match persisted {
                Some(r) => {
                    &&& s.access_token matches Some(t) && t == r.access_token
                    &&& s.refresh_token matches Some(t) && t == r.refresh_token
                    &&& s.refresh_at == r.refresh_at
                    &&& s.current_division == r.current_division
                },
                None => {
                    &&& s.access_token is None
                    &&& s.refresh_token is None
                    &&& s.refresh_at == 0
                    &&& s.current_division is None
                },
            }),
    {
        match persisted {
            Some(r) => SessionState {
                config,
                access_token: Some(r.access_token),
                refresh_token: Some(r.refresh_token),
                refresh_at: r.refresh_at,
                current_division: r.current_division,
            },
            None => SessionState {
                config,
                access_token: None,
                refresh_token: None,
                refresh_at: 0,
                current_division: None,
            },
        }
    }

    /// True iff an access token is held in memory. Holding one does not
    /// imply it is unexpired; validity is checked lazily on next use.
    pub fn is_authenticated(&self) -> (r: bool)
        ensures
            r == self.access_token is Some,
    {
        self.access_token.is_some()
    }

    /// Clears every token field. The shell deletes the persisted record;
    /// together the two steps realize logout, and both are idempotent.
    pub fn logout(&mut self)
        ensures
            final(self).access_token is None,
            final(self).refresh_token is None,
            final(self).refresh_at == 0,
            final(self).current_division is None,
            final(self).config == old(self).config,
    {
        self.access_token = None;
        self.refresh_token = None;
        self.refresh_at = 0;
        self.current_division = None;
    }

    /// Records the division resolved from the "current user" endpoint.
    pub fn set_current_division(&mut self, d: Option<i32>)
        ensures
            final(self).current_division == d,
            final(self).config == old(self).config,
            final(self).access_token == old(self).access_token,
            final(self).refresh_token == old(self).refresh_token,
            final(self).refresh_at == old(self).refresh_at,
    {
        self.current_division = d;
    }

    /// The division every listing query is scoped by, or the error telling
    /// the caller to authenticate first.
    pub fn require_division(&self) -> (r: Result<i32, ClientError>)
        ensures
            (match self.current_division {
                Some(d) => r == Ok::<i32, ClientError>(d),
                None => r matches Err(e) && e matches ClientError::Auth(m)
                    && m@ == "No current division found. Please authenticate first."@,
            }),
    {
        match self.current_division {
            Some(d) => Ok(d),
            None => Err(ClientError::Auth(String::from_str(
                "No current division found. Please authenticate first.",
            ))),
        }
    }

    /// True iff the renewal deadline has passed at time `now`.
    pub fn needs_refresh(&self, now: i64) -> (r: bool)
        ensures
            r == (self.refresh_at <= now),
    {
        self.refresh_at <= now
    }

    /// The record to persist, or the error naming the missing token.
    pub fn token_record(&self) -> (r: Result<TokenRecord, ClientError>)
        ensures
            (self.access_token is Some && self.refresh_token is Some) <==> r is Ok,
            (r matches Ok(rec) ==> {
                &&& Some(rec.access_token) == self.access_token
                &&& Some(rec.refresh_token) == self.refresh_token
                &&& rec.refresh_at == self.refresh_at
                &&& rec.current_division == self.current_division
            }),
            self.access_token is None ==> (r matches Err(e)
                && e matches ClientError::Auth(m) && m@ == "No access token"@),
            self.access_token is Some && self.refresh_token is None ==> (r matches Err(e)
                && e matches ClientError::Auth(m) && m@ == "No refresh token"@),
    {
        match &self.access_token {
            None => Err(ClientError::Auth(String::from_str("No access token"))),
            Some(a) => match &self.refresh_token {
                None => Err(ClientError::Auth(String::from_str("No refresh token"))),
                Some(r) => Ok(TokenRecord {
                    access_token: a.clone(),
                    refresh_token: r.clone(),
                    refresh_at: self.refresh_at,
                    current_division: self.current_division,
                }),
            },
        }
    }

    /// The provider's token endpoint.
    pub fn token_url(&self) -> (r: String)
        ensures
            r@ == self.config.api@ + "/oauth2/token"@,
    {
        let mut u = self.config.api.clone();
        u.append("/oauth2/token");
        u
    }

    /// The authorization-code URL the user is sent to; no side effects.
    pub fn get_auth_url(&self) -> (r: String)
        ensures
            r@ == self.config.api@ + "/oauth2/auth?client_id="@ + self.config.client_id@
                + "&redirect_uri="@ + self.config.redirect_uri@ + "&response_type=code"@,
    {
        let mut u = self.config.api.clone();
        u.append("/oauth2/auth?client_id=");
        u.append(self.config.client_id.as_str());
        u.append("&redirect_uri=");
        u.append(self.config.redirect_uri.as_str());
        u.append("&response_type=code");
        u
    }

    /// The `grant_type=authorization_code` exchange for `code`.
    pub fn auth_code_request(&self, code: &str) -> (r: TokenRequest)
        ensures
            r.url@ == self.config.api@ + "/oauth2/token"@,
            r.params@.len() == 5,
            r.params@[0].0@ == "grant_type"@ && r.params@[0].1@ == "authorization_code"@,
            r.params@[1].0@ == "client_id"@ && r.params@[1].1@ == self.config.client_id@,
            r.params@[2].0@ == "client_secret"@ && r.params@[2].1@ == self.config.client_secret@,
            r.params@[3].0@ == "redirect_uri"@ && r.params@[3].1@ == self.config.redirect_uri@,
            r.params@[4].0@ == "code"@ && r.params@[4].1@ == code@,
    {
        let mut params: Vec<(String, String)> = Vec::new();
        params.push((String::from_str("grant_type"), String::from_str("authorization_code")));
        params.push((String::from_str("client_id"), self.config.client_id.clone()));
        params.push((String::from_str("client_secret"), self.config.client_secret.clone()));
        params.push((String::from_str("redirect_uri"), self.config.redirect_uri.clone()));
        params.push((String::from_str("code"), String::from_str(code)));
        TokenRequest { url: self.token_url(), params }
    }

    /// What the renewal path must do at time `now`: nothing while the
    /// deadline is in the future (no network call, no state change — this
    /// method takes `&self`); otherwise the `grant_type=refresh_token`
    /// exchange, or the error telling the caller to re-authenticate when no
    /// refresh token is held.
    pub fn refresh_request(&self, now: i64) -> (r: Result<Option<TokenRequest>, ClientError>)
        ensures
            now < self.refresh_at ==> (r matches Ok(o) && o is None),
            self.refresh_at <= now ==> (match self.refresh_token {
                None => r matches Err(e)
                    && e matches ClientError::Auth(m) && m@ == "No refresh token"@,
                Some(tok) => (
                r matches Ok(o) && o matches Some(req) && {
                    &&& req.url@ == self.config.api@ + "/oauth2/token"@
                    &&& req.params@.len() == 4
                    &&& req.params@[0].0@ == "grant_type"@ && req.params@[0].1@
                        == "refresh_token"@
                    &&& req.params@[1].0@ == "refresh_token"@ && req.params@[1].1@ == tok@
                    &&& req.params@[2].0@ == "client_id"@ && req.params@[2].1@
                        == self.config.client_id@
                    &&& req.params@[3].0@ == "client_secret"@ && req.params@[3].1@
                        == self.config.client_secret@
                }),
            }),
    {
        if now < self.refresh_at {
            return Ok(None);
        }
        match &self.refresh_token {
            None => Err(ClientError::Auth(String::from_str("No refresh token"))),
            Some(tok) => {
                let mut params: Vec<(String, String)> = Vec::new();
                params.push((String::from_str("grant_type"), String::from_str("refresh_token")));
                params.push((String::from_str("refresh_token"), tok.clone()));
                params.push((String::from_str("client_id"), self.config.client_id.clone()));
                params.push((
                    String::from_str("client_secret"),
                    self.config.client_secret.clone(),
                ));
                Ok(Some(TokenRequest { url: self.token_url(), params }))
            },
        }
    }

    /// Installs the token pair of a successful exchange and sets the
    /// renewal deadline to `now` plus the fixed margin. The provider may
    /// omit a token from its answer; an omitted token is stored as absent,
    /// exactly as answered.
    pub fn apply_token_grant(
        &mut self,
        access: Option<String>,
        refresh: Option<String>,
        now: i64,
    )
        requires
            now <= i64::MAX - REFRESH_MARGIN_SECS,
        ensures
            final(self).access_token == access,
            final(self).refresh_token == refresh,
            final(self).refresh_at == now + REFRESH_MARGIN_SECS,
            final(self).current_division == old(self).current_division,
            final(self).config == old(self).config,
    {
        self.access_token = access;
        self.refresh_token = refresh;
        self.refresh_at = now + REFRESH_MARGIN_SECS;
    }

    /// The authenticated GET for `path`, or the error when no access token
    /// is held.
    pub fn api_request(&self, path: &str) -> (r: Result<ApiRequest, ClientError>)
        ensures
            self.access_token is None ==> (r matches Err(e)
                && e matches ClientError::Auth(m) && m@ == "Not authenticated"@),
            (match self.access_token {
                Some(t) => r matches Ok(req) && ({
                    &&& req.url@ == self.config.api@ + path@
                    &&& req.bearer@ == "Bearer "@ + t@
                }),
                None => true,
            }),
    {
        match &self.access_token {
            None => Err(ClientError::Auth(String::from_str("Not authenticated"))),
            Some(t) => {
                let mut url = self.config.api.clone();
                url.append(path);
                let mut bearer = String::from_str("Bearer ");
                bearer.append(t.as_str());
                Ok(ApiRequest { url, bearer })
            },
        }
    }
}

/// Path of the divisions listing for `division`.
pub fn divisions_path(division: i32) -> (r: String)
    ensures
        r@ == "/v1/"@ + dec_signed(division as int)
            + "/system/Divisions?$select=Code,Customer,CustomerCode,CustomerName,Description"@,
{
    let mut p = String::from_str("/v1/");
    let d = i64_to_string(division as i64);
    p.append(d.as_str());
    p.append("/system/Divisions?$select=Code,Customer,CustomerCode,CustomerName,Description");
    p
}

} // verus!
