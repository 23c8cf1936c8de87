//! Credentials: the providers, the authorization flows that are under way,
//! and what is decided before and after the provider is asked.

use crate::error::{DEmailError, ErrorKind, ErrorModel};
use crate::models::{opt_text, OAuthProviderConfig};
use crate::numfmt::{decimal, decimal_of};
use crate::table::{first_where, lemma_position, position};
use crate::text::{chars_of, ends_with, str_equal, string_of};
use vstd::prelude::*;
use vstd::string::StringExecFns;

verus! {

/// `serde_json::Value`, a JSON value. The library reads of it the members
/// that are text, which [`text_members`] names.
#[verifier::external_type_specification]
#[verifier::external_body]
pub struct ExJsonValue(serde_json::Value);

/// What a JSON value holds as text, by the names of its members: for a JSON
/// object, each member whose value is a string, under its name; nothing for
/// a value that is no object.
pub uninterp spec fn text_members(value: serde_json::Value) -> Map<Seq<char>, Seq<char>>;

/// The text of the member `key` of a JSON value, where it has that member
/// as text.
pub open spec fn member_text(value: serde_json::Value, key: Seq<char>) -> Option<Seq<char>> {
    if text_members(value).dom().contains(key) {
        Some(text_members(value)[key])
    } else {
        None
    }
}

/// A mail provider that accounts can be added for.
#[derive(Clone, Copy, Debug, PartialEq, Eq, Structural)]
pub enum Provider {
    Google,
    Microsoft,
}

impl Provider {
    /// The tag under which the provider is configured and stored.
    pub open spec fn tag_text(self) -> Seq<char> {
        match self {
            Provider::Google => "google"@,
            Provider::Microsoft => "microsoft"@,
        }
    }

    /// The provider with the tag `tag`.
    pub open spec fn of_tag(tag: Seq<char>) -> Option<Provider> {
        if tag == "google"@ {
            Some(Provider::Google)
        } else if tag == "microsoft"@ {
            Some(Provider::Microsoft)
        } else {
            None
        }
    }

    /// The provider of an address, by its domain.
    pub open spec fn of_email(email: Seq<char>) -> Option<Provider> {
        if "@gmail.com"@.is_suffix_of(email) {
            Some(Provider::Google)
        } else if "@outlook.com"@.is_suffix_of(email) || "@hotmail.com"@.is_suffix_of(email) {
            Some(Provider::Microsoft)
        } else {
            None
        }
    }

    /// The tag under which the provider is configured and stored.
    pub fn tag(&self) -> (r: &'static str)
        ensures
            r@ == self.tag_text(),
    {
        match self {
            Provider::Google => "google",
            Provider::Microsoft => "microsoft",
        }
    }

    /// The provider with the tag `tag`.
    pub fn from_tag(tag: &str) -> (r: Option<Provider>)
        ensures
            r == Provider::of_tag(tag@),
    {
        if str_equal(tag, "google") {
            Some(Provider::Google)
        } else if str_equal(tag, "microsoft") {
            Some(Provider::Microsoft)
        } else {
            None
        }
    }

    /// The provider of an address, by its domain.
    pub fn for_email(email: &str) -> (r: Option<Provider>)
        ensures
            r == Provider::of_email(email@),
    {
        let e = chars_of(email);
        if ends_with(&e, &chars_of("@gmail.com")) {
            Some(Provider::Google)
        } else if ends_with(&e, &chars_of("@outlook.com")) || ends_with(
            &e,
            &chars_of("@hotmail.com"),
        ) {
            Some(Provider::Microsoft)
        } else {
            None
        }
    }

    /// Where the user is sent to authorize.
    pub fn auth_url(&self) -> (r: &'static str)
        ensures
            r@ == match self {
                Provider::Google => "https://accounts.google.com/o/oauth2/v2/auth"@,
                Provider::Microsoft => "https://login.microsoftonline.com/common/oauth2/v2.0/authorize"@,
            },
    {
        match self {
            Provider::Google => "https://accounts.google.com/o/oauth2/v2/auth",
            Provider::Microsoft => "https://login.microsoftonline.com/common/oauth2/v2.0/authorize",
        }
    }

    /// Where codes and refresh tokens are exchanged for access tokens.
    pub fn token_url(&self) -> (r: &'static str)
        ensures
            r@ == match self {
                Provider::Google => "https://oauth2.googleapis.com/token"@,
                Provider::Microsoft => "https://login.microsoftonline.com/common/oauth2/v2.0/token"@,
            },
    {
        match self {
            Provider::Google => "https://oauth2.googleapis.com/token",
            Provider::Microsoft => "https://login.microsoftonline.com/common/oauth2/v2.0/token",
        }
    }

    /// Where the profile of the user is read.
    pub fn profile_url(&self) -> (r: &'static str)
        ensures
            r@ == match self {
                Provider::Google => "https://www.googleapis.com/oauth2/v2/userinfo"@,
                Provider::Microsoft => "https://graph.microsoft.com/v1.0/me"@,
            },
    {
        match self {
            Provider::Google => "https://www.googleapis.com/oauth2/v2/userinfo",
            Provider::Microsoft => "https://graph.microsoft.com/v1.0/me",
        }
    }

    /// The name of the member of the profile that holds the address.
    pub open spec fn email_member(self) -> Seq<char> {
        match self {
            Provider::Google => "email"@,
            Provider::Microsoft => "userPrincipalName"@,
        }
    }

    /// The name of the member of the profile that holds the name.
    pub open spec fn name_member(self) -> Seq<char> {
        match self {
            Provider::Google => "name"@,
            Provider::Microsoft => "displayName"@,
        }
    }

    /// The member of the profile that holds the address.
    pub fn email_field(&self) -> (r: &'static str)
        ensures
            r@ == self.email_member(),
    {
        match self {
            Provider::Google => "email",
            Provider::Microsoft => "userPrincipalName",
        }
    }

    /// The member of the profile that holds the name.
    pub fn name_field(&self) -> (r: &'static str)
        ensures
            r@ == self.name_member(),
    {
        match self {
            Provider::Google => "name",
            Provider::Microsoft => "displayName",
        }
    }

    /// The IMAP server.
    pub fn imap_host(&self) -> (r: &'static str)
        ensures
            r@ == match self {
                Provider::Google => "imap.gmail.com"@,
                Provider::Microsoft => "outlook.office365.com"@,
            },
    {
        match self {
            Provider::Google => "imap.gmail.com",
            Provider::Microsoft => "outlook.office365.com",
        }
    }

    /// The SMTP server.
    pub fn smtp_host(&self) -> (r: &'static str)
        ensures
            r@ == match self {
                Provider::Google => "smtp.gmail.com"@,
                Provider::Microsoft => "smtp.office365.com"@,
            },
    {
        match self {
            Provider::Google => "smtp.gmail.com",
            Provider::Microsoft => "smtp.office365.com",
        }
    }
}

/// The seconds after which an authorization that was begun and not
/// completed is dropped: ten minutes.
pub const FLOW_TTL_SECS: i64 = 600;

/// The port of the IMAP servers.
pub const IMAP_PORT: u16 = 993;

/// Where the provider sends the user back to.
pub fn redirect_uri() -> (r: &'static str)
    ensures
        r@ == "http://localhost:1420/callback"@,
{
    "http://localhost:1420/callback"
}

/// The scopes that are asked for: mail access at either provider, and a
/// refresh token.
pub fn scopes() -> (r: Vec<&'static str>)
    ensures
        r.len() == 4,
        r@[0]@ == "https://mail.google.com/"@,
        r@[1]@ == "offline_access"@,
        r@[2]@ == "https://outlook.office.com/IMAP.AccessAsUser.All"@,
        r@[3]@ == "https://outlook.office.com/SMTP.Send"@,
{
    let mut r: Vec<&'static str> = Vec::new();
    r.push("https://mail.google.com/");
    r.push("offline_access");
    r.push("https://outlook.office.com/IMAP.AccessAsUser.All");
    r.push("https://outlook.office.com/SMTP.Send");
    r
}

/// Why credentials could not be had.
#[derive(Debug)]
pub enum AuthError {
    /// The state token names no flow that is under way.
    InvalidState,
    /// No refresh token is stored for the account.
    MissingRefreshToken,
    /// The provider is not one of those that are supported.
    UnsupportedProvider,
    /// The application has no credentials at the provider.
    MissingConfig(Provider),
    /// The provider granted no refresh token.
    NoRefreshTokenGranted,
    /// The profile of the user holds no address.
    ProfileWithoutEmail,
    /// The user took the consent back.
    ConsentRevoked,
    /// The exchange with the provider failed, as described.
    ExchangeFailed(String),
}

impl AuthError {
    /// The error as the rest of the system reports it.
    pub open spec fn reported(&self) -> ErrorModel {
        match self {
            AuthError::InvalidState => ErrorModel {
                kind: ErrorKind::Auth,
                detail: "Invalid OAuth state"@,
            },
            AuthError::MissingRefreshToken => ErrorModel {
                kind: ErrorKind::Auth,
                detail: "No refresh token is stored for the account"@,
            },
            AuthError::UnsupportedProvider => ErrorModel {
                kind: ErrorKind::OAuth,
                detail: "Unsupported provider"@,
            },
            AuthError::MissingConfig(p) => ErrorModel {
                kind: ErrorKind::Config,
                detail: "OAuth config for "@ + p.tag_text() + " not found"@,
            },
            AuthError::NoRefreshTokenGranted => ErrorModel {
                kind: ErrorKind::OAuth,
                detail: "No refresh token found"@,
            },
            AuthError::ProfileWithoutEmail => ErrorModel {
                kind: ErrorKind::OAuth,
                detail: "Email not found in userinfo"@,
            },
            AuthError::ConsentRevoked => ErrorModel {
                kind: ErrorKind::Auth,
                detail: "The consent was revoked"@,
            },
            AuthError::ExchangeFailed(d) => ErrorModel { kind: ErrorKind::OAuth, detail: d@ },
        }
    }

    /// Whether trying again cannot help: the error says what only the user
    /// or the configuration can change.
    pub open spec fn permanent(&self) -> bool {
        !(self is ExchangeFailed)
    }

    /// The error as the rest of the system reports it.
    pub fn into_error(self) -> (e: DEmailError)
        ensures
            e@ == self.reported(),
    {
        match self {
            AuthError::InvalidState => DEmailError::Auth(String::from_str("Invalid OAuth state")),
            AuthError::MissingRefreshToken => DEmailError::Auth(
                String::from_str("No refresh token is stored for the account"),
            ),
            AuthError::UnsupportedProvider => DEmailError::OAuth(
                String::from_str("Unsupported provider"),
            ),
            AuthError::MissingConfig(p) => {
                let mut m = String::from_str("OAuth config for ");
                m.append(p.tag());
                m.append(" not found");
                DEmailError::Config(m)
            },
            AuthError::NoRefreshTokenGranted => DEmailError::OAuth(
                String::from_str("No refresh token found"),
            ),
            AuthError::ProfileWithoutEmail => DEmailError::OAuth(
                String::from_str("Email not found in userinfo"),
            ),
            AuthError::ConsentRevoked => DEmailError::Auth(
                String::from_str("The consent was revoked"),
            ),
            AuthError::ExchangeFailed(d) => DEmailError::OAuth(d),
        }
    }

    /// Whether trying again cannot help.
    pub fn is_permanent(&self) -> (r: bool)
        ensures
            r == self.permanent(),
    {
        match self {
            AuthError::ExchangeFailed(_) => false,
            _ => true,
        }
    }
}

/// The credentials of the application at the provider with the tag `tag`.
#[derive(Debug)]
pub struct ProviderEntry {
    pub tag: String,
    pub config: OAuthProviderConfig,
}

/// The entry with the tag `tag`.
pub open spec fn has_tag(tag: Seq<char>) -> spec_fn(ProviderEntry) -> bool {
    |e: ProviderEntry| e.tag@ == tag
}

/// The credentials that are configured for the provider with the tag
/// `tag`: those of the first entry with that tag.
pub fn find_config<'a>(configs: &'a Vec<ProviderEntry>, tag: &str) -> (r: Option<
    &'a OAuthProviderConfig,
>)
    ensures
        match r {
            Some(c) => first_where(configs@, has_tag(tag@)) matches Some(e) && *c == e.config,
            None => first_where(configs@, has_tag(tag@)) is None,
        },
{
    let mut i: usize = 0;
    while i < configs.len() && !str_equal(configs[i].tag.as_str(), tag)
        invariant
            i <= configs.len(),
            position(configs@, has_tag(tag@), 0) == position(configs@, has_tag(tag@), i as int),
        decreases configs.len() - i,
    {
        i += 1;
    }
    if i < configs.len() {
        Some(&configs[i].config)
    } else {
        None
    }
}

/// What is needed to ask a provider for authorization or for a token.
#[derive(Debug)]
pub struct ClientPlan {
    pub provider: Provider,
    pub client_id: String,
    pub client_secret: String,
}

/// What is needed to ask for authorization for `email`, or why it cannot be
/// asked for.
pub open spec fn authorization_plan(email: Seq<char>, configs: Seq<ProviderEntry>) -> Result<
    (Provider, OAuthProviderConfig),
    ErrorModel,
> {
    match Provider::of_email(email) {
        None => Err(AuthError::UnsupportedProvider.reported()),
        Some(p) => match first_where(configs, has_tag(p.tag_text())) {
            None => Err(AuthError::MissingConfig(p).reported()),
            Some(e) => Ok((p, e.config)),
        },
    }
}

/// Decides how to ask for authorization for the address `email`: the
/// provider is chosen by the domain of the address, and the credentials of
/// the application at that provider are looked up. Fails with
/// [`AuthError::UnsupportedProvider`] where the domain is that of no
/// provider, and with [`AuthError::MissingConfig`] where the application
/// has no credentials at the provider.
pub fn start_oauth_flow(email: &str, configs: &Vec<ProviderEntry>) -> (r: Result<
    ClientPlan,
    AuthError,
>)
    ensures
        match r {
            Ok(plan) => authorization_plan(email@, configs@) matches Ok((p, c)) && plan.provider
                == p && plan.client_id == c.client_id && plan.client_secret == c.client_secret,
            Err(e) => authorization_plan(email@, configs@) == Err::<
                (Provider, OAuthProviderConfig),
                ErrorModel,
            >(e.reported()),
        },
{
    let provider = match Provider::for_email(email) {
        Some(p) => p,
        None => {
            return Err(AuthError::UnsupportedProvider);
        },
    };
    match find_config(configs, provider.tag()) {
        Some(c) => Ok(
            ClientPlan {
                provider,
                client_id: c.client_id.clone(),
                client_secret: c.client_secret.clone(),
            },
        ),
        None => Err(AuthError::MissingConfig(provider)),
    }
}

/// What is needed to ask for an access token for an account of the provider
/// with the tag `tag`, given the refresh token that is stored for it, or
/// why it cannot be asked for.
pub open spec fn token_plan(
    tag: Seq<char>,
    stored: Option<Seq<char>>,
    configs: Seq<ProviderEntry>,
) -> Result<(Provider, OAuthProviderConfig, Seq<char>), ErrorModel> {
    match Provider::of_tag(tag) {
        None => Err(AuthError::UnsupportedProvider.reported()),
        Some(p) => match first_where(configs, has_tag(p.tag_text())) {
            None => Err(AuthError::MissingConfig(p).reported()),
            Some(e) => match stored {
                None => Err(AuthError::MissingRefreshToken.reported()),
                Some(t) => Ok((p, e.config, t)),
            },
        },
    }
}

/// What is needed to refresh an access token.
#[derive(Debug)]
pub struct RefreshPlan {
    pub client: ClientPlan,
    pub refresh_token: String,
}

/// Decides how to get an access token for an account: every call asks the
/// provider anew, with the refresh token that is stored for the account.
/// Fails with [`AuthError::UnsupportedProvider`] for an unknown tag, with
/// [`AuthError::MissingConfig`] where the application has no credentials at
/// the provider, and with [`AuthError::MissingRefreshToken`] where no
/// refresh token is stored.
pub fn get_access_token(
    provider_type: &str,
    stored_refresh_token: Option<String>,
    configs: &Vec<ProviderEntry>,
) -> (r: Result<RefreshPlan, AuthError>)
    ensures
        match r {
            Ok(plan) => token_plan(provider_type@, opt_text(stored_refresh_token), configs@) matches Ok(
                (p, c, t),
            ) && plan.client.provider == p && plan.client.client_id == c.client_id
                && plan.client.client_secret == c.client_secret && plan.refresh_token@ == t,
            Err(e) => token_plan(provider_type@, opt_text(stored_refresh_token), configs@) == Err::<
                (Provider, OAuthProviderConfig, Seq<char>),
                ErrorModel,
            >(e.reported()),
        },
{
    let provider = match Provider::from_tag(provider_type) {
        Some(p) => p,
        None => {
            return Err(AuthError::UnsupportedProvider);
        },
    };
    let config = match find_config(configs, provider.tag()) {
        Some(c) => c,
        None => {
            return Err(AuthError::MissingConfig(provider));
        },
    };
    match stored_refresh_token {
        Some(t) => Ok(
            RefreshPlan {
                client: ClientPlan {
                    provider,
                    client_id: config.client_id.clone(),
                    client_secret: config.client_secret.clone(),
                },
                refresh_token: t,
            },
        ),
        None => Err(AuthError::MissingRefreshToken),
    }
}

/// The name under which the refresh token of the account `account_id` is
/// kept in the secret store.
pub fn keyring_user(account_id: i64) -> (r: String)
    ensures
        r@ == "account_"@ + decimal(account_id as int),
{
    let mut r = String::from_str("account_");
    r.append(string_of(&decimal_of(account_id)).as_str());
    r
}

/// The service under which the secret store keeps the refresh tokens.
pub fn keyring_service() -> (r: &'static str)
    ensures
        r@ == "demail"@,
{
    "demail"
}

/// The address and the name of a profile: the name is the address where the
/// profile holds none.
pub open spec fn profile(email: Option<Seq<char>>, name: Option<Seq<char>>) -> Option<
    (Seq<char>, Seq<char>),
> {
    match email {
        Some(e) => Some(
            (
                e,
                match name {
                    Some(n) => n,
                    None => e,
                },
            ),
        ),
        None => None,
    }
}

/// The address and the display name of the user, from the two members of
/// the profile that hold them. Fails with
/// [`AuthError::ProfileWithoutEmail`] where the profile holds no address.
pub fn profile_from(email: Option<String>, name: Option<String>) -> (r: Result<
    (String, String),
    AuthError,
>)
    ensures
        match r {
            Ok((e, n)) => profile(opt_text(email), opt_text(name)) == Some((e@, n@)),
            Err(err) => profile(opt_text(email), opt_text(name)) is None
                && err is ProfileWithoutEmail,
        },
{
    match email {
        Some(e) => {
            let n = match name {
                Some(n) => n,
                None => e.clone(),
            };
            Ok((e, n))
        },
        None => Err(AuthError::ProfileWithoutEmail),
    }
}

/// `serde_json::Value::get` with a text key and `Value::as_str` on what it
/// finds: the text of the member `key` of a JSON object; `None` where the
/// value is no object, has no such member, or the member is no text. That
/// is the entry of `key` among the members that the value holds as text.
#[verifier::external_body]
fn json_text(value: &serde_json::Value, key: &str) -> (r: Option<String>)
    ensures
        opt_text(r) == if text_members(*value).dom().contains(key@) {
            Some(text_members(*value)[key@])
        } else {
            None
        },
{
    value.get(key).and_then(|v| v.as_str()).map(|s| s.to_string())
}

/// What a profile says of the user of `provider`: the address and the name
/// from the two members that the provider keeps them in, the name being the
/// address where the profile holds none; `None` where the profile does not
/// hold the address as text.
pub open spec fn profile_of(provider: Provider, response: serde_json::Value) -> Option<
    (Seq<char>, Seq<char>),
> {
    profile(
        member_text(response, provider.email_member()),
        member_text(response, provider.name_member()),
    )
}

/// The address and the display name of the user, read from the profile
/// that the provider returned: Google keeps them in `email` and `name`,
/// Microsoft in `userPrincipalName` and `displayName`. Where the profile
/// holds no name as text, the address stands for it. Fails with
/// [`AuthError::ProfileWithoutEmail`] where the profile does not hold the
/// address as text.
pub fn extract_profile(provider: Provider, response: &serde_json::Value) -> (r: Result<
    (String, String),
    AuthError,
>)
    ensures
        match r {
            Ok((email, name)) => profile_of(provider, *response) == Some((email@, name@)),
            Err(e) => profile_of(provider, *response) is None && e is ProfileWithoutEmail,
        },
{
    let email = json_text(response, provider.email_field());
    let name = json_text(response, provider.name_field());
    profile_from(email, name)
}

/// An authorization that is under way: the secret that the code will be
/// exchanged with, for the provider, since `started_at`.
#[derive(Debug)]
pub struct OAuth2State {
    pub csrf_token: String,
    pub provider: Provider,
    pub pkce_verifier: String,
    pub started_at: i64,
}

/// The model of an [`OAuth2State`].
pub struct FlowModel {
    pub csrf_token: Seq<char>,
    pub provider: Provider,
    pub pkce_verifier: Seq<char>,
    pub started_at: i64,
}

impl View for OAuth2State {
    type V = FlowModel;

    open spec fn view(&self) -> FlowModel {
        FlowModel {
            csrf_token: self.csrf_token@,
            provider: self.provider,
            pkce_verifier: self.pkce_verifier@,
            started_at: self.started_at,
        }
    }
}

/// The flow with the state token `token`.
pub open spec fn is_flow(token: Seq<char>) -> spec_fn(FlowModel) -> bool {
    |f: FlowModel| f.csrf_token == token
}

/// The flows with another state token than `token`.
pub open spec fn other_flow(token: Seq<char>) -> spec_fn(FlowModel) -> bool {
    |f: FlowModel| f.csrf_token != token
}

/// The flows that started less than `ttl` seconds before `now`, or after
/// it.
pub open spec fn still_valid(now: i64, ttl: i64) -> spec_fn(FlowModel) -> bool {
    |f: FlowModel| now - f.started_at < ttl
}

/// The models of the flows that a vector holds.
pub open spec fn flow_models(v: Seq<OAuth2State>) -> Seq<FlowModel> {
    v.map_values(|f: OAuth2State| f@)
}

/// The authorizations that are under way, by their state tokens.
pub struct OAuth2StateMap {
    flows: Vec<OAuth2State>,
}

impl View for OAuth2StateMap {
    type V = Seq<FlowModel>;

    closed spec fn view(&self) -> Seq<FlowModel> {
        flow_models(self.flows@)
    }
}

impl OAuth2StateMap {
    /// No authorization is under way.
    pub fn new() -> (m: OAuth2StateMap)
        ensures
            m@.len() == 0,
    {
        OAuth2StateMap { flows: Vec::new() }
    }

    /// The number of authorizations that are under way.
    pub fn len(&self) -> (n: usize)
        ensures
            n == self@.len(),
    {
        self.flows.len()
    }

    /// The flows of `flows` that `keep` lets stay, where `keep` is either
    /// "another token than `token`" or "still valid at `now`".
    fn keep(&mut self, by_token: bool, token: &str, now: i64, ttl: i64)
        ensures
            final(self)@ == crate::table::retained(
                old(self)@,
                if by_token {
                    other_flow(token@)
                } else {
                    still_valid(now, ttl)
                },
            ),
    {
        let ghost keep = if by_token {
            other_flow(token@)
        } else {
            still_valid(now, ttl)
        };
        let ghost rows = self@;
        let mut left: Vec<OAuth2State> = Vec::new();
        let mut i: usize = 0;
        proof {
            assert(rows.take(0) =~= Seq::<FlowModel>::empty());
            crate::table::lemma_retained_empty(keep);
            assert(flow_models(left@) =~= Seq::<FlowModel>::empty());
        }
        while i < self.flows.len()
            invariant
                i <= self.flows.len(),
                rows == self@,
                keep == if by_token {
                    other_flow(token@)
                } else {
                    still_valid(now, ttl)
                },
                flow_models(left@) == crate::table::retained(rows.take(i as int), keep),
            decreases self.flows.len() - i,
        {
            let f = &self.flows[i];
            proof {
                assert(rows[i as int] == f@);
                assert(rows.take(i + 1) =~= rows.take(i as int).push(f@));
                crate::table::lemma_retained_push(rows.take(i as int), keep, f@);
            }
            let stays = if by_token {
                !str_equal(f.csrf_token.as_str(), token)
            } else {
                (now as i128) - (f.started_at as i128) < ttl as i128
            };
            if stays {
                let copy = OAuth2State {
                    csrf_token: f.csrf_token.clone(),
                    provider: f.provider,
                    pkce_verifier: f.pkce_verifier.clone(),
                    started_at: f.started_at,
                };
                proof {
                    assert(flow_models(left@.push(copy)) =~= flow_models(left@).push(copy@));
                }
                left.push(copy);
            }
            i += 1;
        }
        proof {
            assert(rows.take(self.flows.len() as int) =~= rows);
        }
        self.flows = left;
    }

    /// Records an authorization that begins: the flow is kept under its
    /// state token, in place of one that was kept under the same token.
    pub fn begin(&mut self, flow: OAuth2State)
        ensures
            final(self)@ == crate::table::retained(old(self)@, other_flow(flow.csrf_token@)).push(
                flow@,
            ),
    {
        self.keep(true, flow.csrf_token.as_str(), 0, 0);
        let ghost before = self@;
        self.flows.push(flow);
        proof {
            assert(self@ =~= before.push(flow@));
        }
    }

    /// Takes the flow with the state token `state` out, to complete it.
    /// Fails with [`AuthError::InvalidState`], and changes nothing, where no
    /// flow is kept under that token.
    pub fn complete(&mut self, state: &str) -> (r: Result<OAuth2State, AuthError>)
        ensures
            match r {
                Ok(f) => first_where(old(self)@, is_flow(state@)) == Some(f@) && final(self)@
                    == crate::table::retained(old(self)@, other_flow(state@)),
                Err(e) => first_where(old(self)@, is_flow(state@)) is None && e is InvalidState
                    && final(self)@ == old(self)@,
            },
    {
        let mut i: usize = 0;
        while i < self.flows.len() && !str_equal(self.flows[i].csrf_token.as_str(), state)
            invariant
                i <= self.flows.len(),
                position(self@, is_flow(state@), 0) == position(self@, is_flow(state@), i as int),
            decreases self.flows.len() - i,
        {
            proof {
                assert(self@[i as int] == self.flows@[i as int]@);
            }
            i += 1;
        }
        if i >= self.flows.len() {
            return Err(AuthError::InvalidState);
        }
        proof {
            assert(self@[i as int] == self.flows@[i as int]@);
        }
        let f = &self.flows[i];
        let found = OAuth2State {
            csrf_token: f.csrf_token.clone(),
            provider: f.provider,
            pkce_verifier: f.pkce_verifier.clone(),
            started_at: f.started_at,
        };
        self.keep(true, state, 0, 0);
        Ok(found)
    }

    /// Drops the flows that began `ttl` seconds before `now` or earlier.
    pub fn expire(&mut self, now: i64, ttl: i64)
        ensures
            final(self)@ == crate::table::retained(old(self)@, still_valid(now, ttl)),
    {
        self.keep(false, "", now, ttl);
    }
}

/// A flow can be completed once: after it was taken out, its state token
/// names no flow.
pub proof fn law_state_is_spent(flows: Seq<FlowModel>, state: Seq<char>)
    ensures
        first_where(crate::table::retained(flows, other_flow(state)), is_flow(state)) is None,
{
    let left = crate::table::retained(flows, other_flow(state));
    let apart = |a: FlowModel, b: FlowModel| true;
    crate::table::lemma_retained(flows, other_flow(state), apart);
    lemma_position(left, is_flow(state), 0);
    let p = position(left, is_flow(state), 0);
    if p < left.len() {
        assert(other_flow(state)(left[p]));
    }
}

/// A flow that began is found under its state token.
pub proof fn law_begun_flow_is_found(flows: Seq<FlowModel>, flow: FlowModel)
    ensures
        first_where(
            crate::table::retained(flows, other_flow(flow.csrf_token)).push(flow),
            is_flow(flow.csrf_token),
        ) == Some(flow),
{
    let left = crate::table::retained(flows, other_flow(flow.csrf_token));
    let all = left.push(flow);
    let apart = |a: FlowModel, b: FlowModel| true;
    crate::table::lemma_retained(flows, other_flow(flow.csrf_token), apart);
    lemma_position(all, is_flow(flow.csrf_token), 0);
    let p = position(all, is_flow(flow.csrf_token), 0);
    if p < left.len() {
        assert(all[p] == left[p]);
        assert(other_flow(flow.csrf_token)(left[p]));
    }
    if p >= all.len() {
        assert(is_flow(flow.csrf_token)(all[left.len() as int]));
    }
}

/// What is needed to ask Google, with the credentials of the application.
pub fn get_google_client(client_id: String, client_secret: String) -> (r: ClientPlan)
    ensures
        r.provider == Provider::Google,
        r.client_id == client_id,
        r.client_secret == client_secret,
{
    ClientPlan { provider: Provider::Google, client_id, client_secret }
}

/// What is needed to ask Microsoft, with the credentials of the
/// application.
pub fn get_microsoft_client(client_id: String, client_secret: String) -> (r: ClientPlan)
    ensures
        r.provider == Provider::Microsoft,
        r.client_id == client_id,
        r.client_secret == client_secret,
{
    ClientPlan { provider: Provider::Microsoft, client_id, client_secret }
}

} // verus!
