use demail::auth::{
    extract_profile, find_config, get_access_token, keyring_service, keyring_user, profile_from,
    redirect_uri, scopes, start_oauth_flow, AuthError, OAuth2State, OAuth2StateMap, Provider,
    ProviderEntry, FLOW_TTL_SECS, IMAP_PORT,
};
use demail::migrations::SchemaItem;
use demail::error::{DEmailError, ErrorKind};
use demail::models::{Account, OAuthProviderConfig};
use demail::orchestrator::{
    next_retry, plan_account, AccountOutcome, SyncFailure, SyncGuard, SyncPass, SyncReport,
    MAX_ATTEMPTS, MAX_DELAY_SECS, SYNC_INTERVAL_SECS,
};

fn configs() -> Vec<ProviderEntry> {
    vec![ProviderEntry {
        tag: "google".to_string(),
        config: OAuthProviderConfig {
            client_id: "id-g".to_string(),
            client_secret: "SECRET-REDACTED".to_string(),
        },
    }]
}

fn flow(token: &str, started_at: i64) -> OAuth2State {
    OAuth2State {
        csrf_token: token.to_string(),
        provider: Provider::Google,
        pkce_verifier: format!("verifier-{}", token),
        started_at,
    }
}

#[test]
fn the_provider_follows_from_the_address() {
    assert_eq!(Provider::for_email("a@gmail.com"), Some(Provider::Google));
    assert_eq!(Provider::for_email("a@outlook.com"), Some(Provider::Microsoft));
    assert_eq!(Provider::for_email("a@hotmail.com"), Some(Provider::Microsoft));
    assert_eq!(Provider::for_email("a@example.com"), None);
    assert_eq!(Provider::for_email("gmail.com"), None);
    assert_eq!(Provider::for_email("a@GMAIL.COM"), None);
    assert_eq!(Provider::from_tag("google"), Some(Provider::Google));
    assert_eq!(Provider::from_tag("microsoft"), Some(Provider::Microsoft));
    assert_eq!(Provider::from_tag("yahoo"), None);
    assert_eq!(Provider::Google.tag(), "google");
    assert_eq!(Provider::Microsoft.tag(), "microsoft");
}

#[test]
fn the_providers_have_their_servers() {
    assert_eq!(Provider::Google.imap_host(), "imap.gmail.com");
    assert_eq!(Provider::Microsoft.imap_host(), "outlook.office365.com");
    assert_eq!(Provider::Google.smtp_host(), "smtp.gmail.com");
    assert_eq!(Provider::Microsoft.smtp_host(), "smtp.office365.com");
    assert_eq!(
        Provider::Google.auth_url(),
        "https://accounts.google.com/o/oauth2/v2/auth"
    );
    assert_eq!(Provider::Google.token_url(), "https://oauth2.googleapis.com/token");
    assert_eq!(
        Provider::Microsoft.auth_url(),
        "https://login.microsoftonline.com/common/oauth2/v2.0/authorize"
    );
    assert_eq!(
        Provider::Microsoft.token_url(),
        "https://login.microsoftonline.com/common/oauth2/v2.0/token"
    );
    assert_eq!(
        Provider::Google.profile_url(),
        "https://www.googleapis.com/oauth2/v2/userinfo"
    );
    assert_eq!(Provider::Microsoft.profile_url(), "https://graph.microsoft.com/v1.0/me");
    assert_eq!(IMAP_PORT, 993);
    assert_eq!(redirect_uri(), "http://localhost:1420/callback");
    assert_eq!(scopes().len(), 4);
    assert_eq!(scopes()[1], "offline_access");
    assert_eq!(keyring_service(), "demail");
    assert_eq!(keyring_user(42), "account_42");
    assert_eq!(keyring_user(-1), "account_-1");
}

#[test]
fn an_authorization_needs_a_provider_and_credentials() {
    let plan = start_oauth_flow("me@gmail.com", &configs()).unwrap();
    assert_eq!(plan.provider, Provider::Google);
    assert_eq!(plan.client_id, "id-g");
    assert!(matches!(
        start_oauth_flow("me@example.com", &configs()),
        Err(AuthError::UnsupportedProvider)
    ));
    assert!(matches!(
        start_oauth_flow("me@outlook.com", &configs()),
        Err(AuthError::MissingConfig(Provider::Microsoft))
    ));
    assert!(find_config(&configs(), "google").is_some());
    assert!(find_config(&configs(), "microsoft").is_none());
}

#[test]
fn an_access_token_needs_a_refresh_token() {
    let plan = get_access_token("google", Some("refresh".to_string()), &configs()).unwrap();
    assert_eq!(plan.refresh_token, "refresh");
    assert_eq!(plan.client.provider, Provider::Google);
    assert!(matches!(
        get_access_token("google", None, &configs()),
        Err(AuthError::MissingRefreshToken)
    ));
    assert!(matches!(
        get_access_token("yahoo", Some("r".to_string()), &configs()),
        Err(AuthError::UnsupportedProvider)
    ));
    assert!(matches!(
        get_access_token("microsoft", Some("r".to_string()), &configs()),
        Err(AuthError::MissingConfig(Provider::Microsoft))
    ));
}

#[test]
fn errors_as_they_are_reported() {
    let e = AuthError::InvalidState.into_error();
    assert_eq!(e.kind(), ErrorKind::Auth);
    assert_eq!(e.message(), "Authentication failed: Invalid OAuth state");
    assert!(matches!(e, DEmailError::Auth(_)));
    assert_eq!(
        AuthError::MissingConfig(Provider::Microsoft).into_error().message(),
        "Configuration error: OAuth config for microsoft not found"
    );
    assert_eq!(
        AuthError::UnsupportedProvider.into_error().message(),
        "OAuth error: Unsupported provider"
    );
    assert_eq!(
        AuthError::NoRefreshTokenGranted.into_error().message(),
        "OAuth error: No refresh token found"
    );
    assert_eq!(
        AuthError::ProfileWithoutEmail.into_error().message(),
        "OAuth error: Email not found in userinfo"
    );
    assert_eq!(
        AuthError::ExchangeFailed("timeout".to_string()).into_error().message(),
        "OAuth error: timeout"
    );
    assert_eq!(
        AuthError::MissingRefreshToken.into_error().kind(),
        ErrorKind::Auth
    );
    assert!(AuthError::ConsentRevoked.is_permanent());
    assert!(AuthError::MissingRefreshToken.is_permanent());
    assert!(!AuthError::ExchangeFailed("x".to_string()).is_permanent());
    assert_eq!(
        DEmailError::NotFound("thing".to_string()).message(),
        "Not found: thing"
    );
    assert_eq!(DEmailError::Io("x".to_string()).message(), "IO error: x");
    assert_eq!(DEmailError::Pdf("x".to_string()).detail(), "x");
}

#[test]
fn a_flow_is_completed_once() {
    let mut flows = OAuth2StateMap::new();
    assert!(matches!(flows.complete("nope"), Err(AuthError::InvalidState)));
    flows.begin(flow("t1", 100));
    flows.begin(flow("t2", 200));
    assert_eq!(flows.len(), 2);
    let f = flows.complete("t1").unwrap();
    assert_eq!(f.csrf_token, "t1");
    assert_eq!(f.pkce_verifier, "verifier-t1");
    assert_eq!(f.started_at, 100);
    assert_eq!(flows.len(), 1);
    assert!(matches!(flows.complete("t1"), Err(AuthError::InvalidState)));
    assert_eq!(flows.len(), 1);
    // a flow that begins again under its token takes the place of the first
    flows.begin(flow("t2", 300));
    assert_eq!(flows.len(), 1);
    assert_eq!(flows.complete("t2").unwrap().started_at, 300);
}

#[test]
fn flows_expire() {
    let mut flows = OAuth2StateMap::new();
    flows.begin(flow("old", 100));
    flows.begin(flow("new", 500));
    flows.expire(700, 600);
    assert_eq!(flows.len(), 1);
    assert!(flows.complete("old").is_err());
    assert!(flows.complete("new").is_ok());
}

#[test]
fn a_profile_needs_an_address() {
    assert_eq!(
        profile_from(Some("a@b".to_string()), Some("A".to_string())).unwrap(),
        ("a@b".to_string(), "A".to_string())
    );
    assert_eq!(
        profile_from(Some("a@b".to_string()), None).unwrap(),
        ("a@b".to_string(), "a@b".to_string())
    );
    assert!(matches!(
        profile_from(None, Some("A".to_string())),
        Err(AuthError::ProfileWithoutEmail)
    ));

    let google: serde_json::Value =
        serde_json::from_str("{\"email\": \"g@gmail.com\", \"name\": \"G\"}").unwrap();
    assert_eq!(
        extract_profile(Provider::Google, &google).unwrap(),
        ("g@gmail.com".to_string(), "G".to_string())
    );
    assert!(extract_profile(Provider::Microsoft, &google).is_err());
    let microsoft: serde_json::Value =
        serde_json::from_str("{\"userPrincipalName\": \"m@outlook.com\", \"displayName\": 5}")
            .unwrap();
    assert_eq!(
        extract_profile(Provider::Microsoft, &microsoft).unwrap(),
        ("m@outlook.com".to_string(), "m@outlook.com".to_string())
    );
    let no_object: serde_json::Value = serde_json::from_str("[1, 2]").unwrap();
    assert!(extract_profile(Provider::Google, &no_object).is_err());
}

#[test]
fn one_synchronization_per_account() {
    let mut guard = SyncGuard::new();
    assert!(!guard.is_active(1));
    assert!(guard.try_begin(1));
    assert!(guard.is_active(1));
    assert!(!guard.try_begin(1));
    assert!(guard.try_begin(2));
    guard.finish(1);
    assert!(!guard.is_active(1));
    assert!(guard.is_active(2));
    assert!(guard.try_begin(1));
    guard.finish(3);
    assert!(guard.is_active(1));
}

#[test]
fn an_account_is_planned_or_fails_alone() {
    let account = |id: i64, email: &str, provider: &str| Account {
        id,
        email_address: email.to_string(),
        display_name: String::new(),
        provider_type: provider.to_string(),
    };
    let mut report = SyncReport::new();
    let accounts = vec![
        account(1, "a@gmail.com", "google"),
        account(2, "b@outlook.com", "microsoft"),
        account(3, "c@gmail.com", "google"),
    ];
    for a in &accounts {
        match plan_account(a, Some("token".to_string()), &configs()) {
            Ok(plan) => {
                assert_eq!(plan.account_id, a.id);
                assert_eq!(plan.user_email, a.email_address);
                assert_eq!(plan.refresh.client.provider.imap_host(), "imap.gmail.com");
                report.record(a.id, AccountOutcome::Synced);
            }
            Err(e) => report.record(a.id, AccountOutcome::Failed(e.into_error())),
        }
    }
    report.record(4, AccountOutcome::Busy);
    assert_eq!(report.attempted(), 4);
    assert_eq!(report.synced(), 2);
    assert_eq!(report.failed(), 1);
    let entries = report.into_entries();
    assert!(matches!(entries[1], (2, AccountOutcome::Failed(DEmailError::Config(_)))));
    assert!(matches!(entries[2], (3, AccountOutcome::Synced)));
}

#[test]
fn what_is_tried_again() {
    assert_eq!(SYNC_INTERVAL_SECS, 300);
    assert_eq!(MAX_ATTEMPTS, 5);
    assert_eq!(MAX_DELAY_SECS, 60);
    assert_eq!(next_retry(0, false), None);
    assert_eq!(next_retry(1, false), Some(1));
    assert_eq!(next_retry(2, false), Some(2));
    assert_eq!(next_retry(3, false), Some(4));
    assert_eq!(next_retry(4, false), Some(8));
    assert_eq!(next_retry(5, false), None);
    assert_eq!(next_retry(1, true), None);
}

#[test]
fn a_pass_goes_on_after_a_failure() {
    let mut pass = SyncPass::new(3);
    assert_eq!(pass.next, 0);
    assert_eq!(
        pass.record(10, AccountOutcome::Failed(DEmailError::Imap("down".to_string()))),
        Some(1)
    );
    assert_eq!(pass.record(11, AccountOutcome::Busy), Some(2));
    assert_eq!(pass.record(12, AccountOutcome::Synced), None);
    assert_eq!(pass.next, 3);
    assert_eq!(pass.report.attempted(), 3);
    assert_eq!(pass.report.failed(), 1);
    assert_eq!(pass.report.synced(), 1);
    let entries = pass.report.into_entries();
    assert_eq!(entries[0].0, 10);
    assert!(matches!(entries[0].1, AccountOutcome::Failed(_)));
    assert!(matches!(entries[2], (12, AccountOutcome::Synced)));

    let mut one = SyncPass::new(1);
    assert_eq!(one.record(1, AccountOutcome::Synced), None);
    assert_eq!(SyncPass::new(0).report.attempted(), 0);
}

#[test]
fn which_failures_are_tried_again() {
    let transient = [
        DEmailError::Imap(String::new()),
        DEmailError::Smtp(String::new()),
        DEmailError::OAuth(String::new()),
        DEmailError::Io(String::new()),
        DEmailError::Database(String::new()),
        DEmailError::Unknown(String::new()),
    ];
    for e in transient {
        let f = SyncFailure::of_error(e);
        assert!(!f.permanent);
        assert_eq!(f.retry(1), Some(1));
        assert_eq!(f.retry(3), Some(4));
        assert_eq!(f.retry(5), None);
    }
    let permanent = [
        DEmailError::Auth(String::new()),
        DEmailError::Config(String::new()),
        DEmailError::Keyring(String::new()),
        DEmailError::Validation(String::new()),
        DEmailError::Init(String::new()),
        DEmailError::NotFound(String::new()),
        DEmailError::Api(String::new()),
        DEmailError::Json(String::new()),
        DEmailError::Pdf(String::new()),
    ];
    for e in permanent {
        let f = SyncFailure::of_error(e);
        assert!(f.permanent);
        assert_eq!(f.retry(1), None);
    }
    let f = SyncFailure::of_plan(AuthError::ConsentRevoked);
    assert!(f.permanent);
    assert_eq!(f.error.message(), "Authentication failed: The consent was revoked");
    let f = SyncFailure::of_plan(AuthError::UnsupportedProvider);
    assert!(f.permanent);
    let f = SyncFailure::of_plan(AuthError::ExchangeFailed("timeout".to_string()));
    assert!(!f.permanent);
    assert_eq!(f.retry(2), Some(2));
    assert_eq!(f.error.message(), "OAuth error: timeout");
}

#[test]
fn flows_live_ten_minutes() {
    assert_eq!(FLOW_TTL_SECS, 600);
    let mut flows = OAuth2StateMap::new();
    flows.begin(flow("a", 1000));
    flows.expire(1000 + FLOW_TTL_SECS - 1, FLOW_TTL_SECS);
    assert_eq!(flows.len(), 1);
    flows.expire(1000 + FLOW_TTL_SECS, FLOW_TTL_SECS);
    assert_eq!(flows.len(), 0);
}

#[test]
fn only_a_column_may_be_there_already() {
    assert!(SchemaItem::MessagesIsStarredColumn.may_exist());
    assert!(SchemaItem::MessagesThreadIdColumn.may_exist());
    assert!(!SchemaItem::MessagesTable.may_exist());
    assert!(!SchemaItem::ContactsEmailIndex.may_exist());
    assert!(!SchemaItem::TextIndexUpdateTrigger.may_exist());
}
