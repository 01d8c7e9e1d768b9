use orgize_sync::conf::GoogleCalendarGlobalConf;
use orgize_sync::error::Error;
use orgize_sync::google::api::{confirm_code, list_events, refresh_token, ConfirmCodeResponse, RefreshTokenResponse};
use orgize_sync::google::auth::{
    access_token, authorization_url, forced_refresh, refresh_refused, read_code_line, AuthStep, CodeStep, ExtraField, OAuthCredential, StoredToken,
    TokenLoad,
};

const NOW: i64 = 1_717_113_600; // 2024-05-31T00:00:00Z

fn conf() -> GoogleCalendarGlobalConf {
    GoogleCalendarGlobalConf::new("cid".to_string(), "secret".to_string(), "/tmp/cache".to_string())
}

fn stored(expires_at: &str) -> StoredToken {
    StoredToken {
        access_token: "old-access".to_string(),
        expires_at: expires_at.to_string(),
        refresh_token: "refresh".to_string(),
        extra: vec![ExtraField { name: "scope".to_string(), json: "\"calendar\"".to_string() }],
    }
}

#[test]
fn expired_token_is_refreshed_once() {
    // The stored credential expired ten seconds ago.
    let load = TokenLoad::Found(stored("2024-05-30T23:59:50+00:00"));
    let refresh_with = match access_token(&load, NOW) {
        AuthStep::Refresh(t) => t,
        _ => panic!("an expired token must be refreshed"),
    };
    assert_eq!(refresh_with, "refresh");
    let cred = match &load {
        TokenLoad::Found(st) => st.load().unwrap(),
        _ => unreachable!(),
    };
    let res = RefreshTokenResponse { access_token: "new-access".to_string(), expires_in: 3600, refresh_token: None };
    let cred = cred.refreshed(res, NOW).unwrap();
    assert_eq!(cred.expires_at, NOW + 3600);
    assert_eq!(cred.refresh_token, "refresh");
    let saved = cred.save().unwrap();
    assert_eq!(saved.expires_at, "2024-05-31T01:00:00+00:00");
    // Within the next minute, the stored token is used as it is.
    match access_token(&TokenLoad::Found(saved), NOW + 30) {
        AuthStep::UseCached(t) => assert_eq!(t, "new-access"),
        _ => panic!("a fresh token must be used as it is"),
    }
}

#[test]
fn token_expiring_within_the_skew_is_refreshed() {
    let load = TokenLoad::Found(stored("2024-05-31T00:00:59+00:00"));
    assert!(matches!(access_token(&load, NOW), AuthStep::Refresh(_)));
    let load = TokenLoad::Found(stored("2024-05-31T00:01:00+00:00"));
    assert!(matches!(access_token(&load, NOW), AuthStep::Refresh(_)));
    let load = TokenLoad::Found(stored("2024-05-31T00:01:01+00:00"));
    assert!(matches!(access_token(&load, NOW), AuthStep::UseCached(_)));
}

#[test]
fn missing_or_corrupt_token_needs_authorisation() {
    assert!(matches!(access_token(&TokenLoad::NotFound, NOW), AuthStep::Authorize));
    assert!(matches!(access_token(&TokenLoad::Corrupt, NOW), AuthStep::Authorize));
    assert!(matches!(access_token(&TokenLoad::Found(stored("soon")), NOW), AuthStep::Authorize));
    assert!(matches!(stored("soon").load(), Err(Error::Corrupt)));
}

#[test]
fn saved_token_loads_back() {
    let cred = OAuthCredential {
        access_token: "a".to_string(),
        expires_at: NOW,
        refresh_token: "r".to_string(),
        extra: vec![ExtraField { name: "scope".to_string(), json: "\"calendar\"".to_string() }],
    };
    let back = cred.save().unwrap().load().unwrap();
    assert_eq!(back.access_token, "a");
    assert_eq!(back.expires_at, NOW);
    assert_eq!(back.refresh_token, "r");
    assert_eq!(back.extra.len(), 1);
    assert_eq!(back.extra[0].name, "scope");
    assert_eq!(back.extra[0].json, "\"calendar\"");
}

#[test]
fn refresh_keeps_or_replaces_the_refresh_token() {
    let cred = stored("2024-05-31T00:00:00Z").load().unwrap();
    let res = RefreshTokenResponse { access_token: "n".to_string(), expires_in: 60, refresh_token: Some("r2".to_string()) };
    let c = cred.refreshed(res, NOW).unwrap();
    assert_eq!(c.refresh_token, "r2");
    assert_eq!(c.extra.len(), 1);
    let res = RefreshTokenResponse { access_token: "n".to_string(), expires_in: i64::MAX, refresh_token: None };
    assert!(matches!(cred.refreshed(res, NOW), Err(Error::UnexpectedResponse)));
}

#[test]
fn code_exchange_gives_a_credential() {
    let res = ConfirmCodeResponse { access_token: "a".to_string(), expires_in: 3599, refresh_token: "r".to_string() };
    let c = OAuthCredential::confirmed(res, NOW).unwrap();
    assert_eq!(c.expires_at, NOW + 3599);
    assert_eq!(c.refresh_token, "r");
}

#[test]
fn prompt_lines_are_trimmed() {
    assert!(matches!(read_code_line("   \n"), CodeStep::Again));
    assert!(matches!(read_code_line(" q\n"), CodeStep::Quit));
    match read_code_line("  4/abc-def \n") {
        CodeStep::Exchange(c) => assert_eq!(c, "4/abc-def"),
        _ => panic!("expected a code"),
    }
}

#[test]
fn request_bodies_and_addresses() {
    let c = conf();
    assert_eq!(
        confirm_code("xyz", &c),
        "code=xyz&client_id=cid&client_secret=secret&redirect_uri=http://localhost&grant_type=authorization_code"
    );
    assert_eq!(
        refresh_token("rt", &c),
        "client_id=cid&client_secret=secret&refresh_token=rt&grant_type=refresh_token"
    );
    assert_eq!(
        authorization_url(&c),
        "https://accounts.google.com/o/oauth2/v2/auth?client_id=cid&redirect_uri=http://localhost\
         &scope=https://www.googleapis.com/auth/calendar&response_type=code&access_type=offline"
    );
    assert_eq!(
        list_events("primary", NOW, NOW + 86_400, None).unwrap(),
        "https://www.googleapis.com/calendar/v3/calendars/primary/events?orderBy=startTime\
         &timeMin=2024-05-31T00:00:00+00:00&timeMax=2024-06-01T00:00:00+00:00"
    );
    assert_eq!(
        list_events("primary", NOW, NOW, Some(NOW)).unwrap(),
        "https://www.googleapis.com/calendar/v3/calendars/primary/events?orderBy=startTime\
         &timeMin=2024-05-31T00:00:00+00:00&timeMax=2024-05-31T00:00:00+00:00&updatedMin=2024-05-31T00:00:00+00:00"
    );
    assert!(list_events("primary", i64::MIN, NOW, None).is_none());
}

#[test]
fn expiry_beyond_year_9999_is_not_stored() {
    let cred = OAuthCredential {
        access_token: "a".to_string(),
        expires_at: 253_402_300_800,
        refresh_token: "r".to_string(),
        extra: vec![],
    };
    assert!(cred.save().is_none());
    let cred = OAuthCredential { expires_at: 253_402_300_799, ..cred };
    assert_eq!(cred.save().unwrap().expires_at, "9999-12-31T23:59:59+00:00");
}

#[test]
fn revoked_refresh_token_needs_reauthorisation() {
    assert_eq!(refresh_refused(400, &"invalid_grant".to_string()), Error::ReauthRequired);
    assert_eq!(refresh_refused(401, &"invalid_client".to_string()), Error::HttpStatus(401));
    assert_eq!(refresh_refused(400, &"invalid_request".to_string()), Error::HttpStatus(400));
    assert_eq!(refresh_refused(500, &String::new()), Error::HttpStatus(500));
}

#[test]
fn rejected_token_is_refreshed_even_when_not_expired() {
    let load = TokenLoad::Found(stored("2030-01-01T00:00:00Z"));
    assert!(matches!(access_token(&load, NOW), AuthStep::UseCached(_)));
    match forced_refresh(&load) {
        AuthStep::Refresh(t) => assert_eq!(t, "refresh"),
        _ => panic!("a rejected token must be refreshed"),
    }
    assert!(matches!(forced_refresh(&TokenLoad::NotFound), AuthStep::Authorize));
    assert!(matches!(forced_refresh(&TokenLoad::Found(stored("later"))), AuthStep::Authorize));
}
