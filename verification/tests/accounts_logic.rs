use miawk::accounts::{
    adopt_account, find_account, usage_note,
    account_kind_for, account_unavailable_reason, activate_linked_account, auth_bearer,
    base64_error_message, decode_jwt_payload, default_label_for_auth, finish_device_auth_scan,
    hydrate_account_metadata, jwt_payload_part, load_account_from_auth, refresh_account_metadata,
    remove_account_from_store, retain_flagged_accounts, scan_device_auth_line,
    select_runtime_account, settle_active_account, summary_masked_secret, AccountKind,
    AccountsStore, AuthFile, AuthTokens, Base64Error, RuntimeCandidate, StoredAccount, UsageState,
};
use std::path::PathBuf;

fn account(id: &str) -> StoredAccount<u8> {
    StoredAccount {
        id: id.to_string(),
        kind: AccountKind::ApiKey,
        label: format!("label {id}"),
        codex_home: format!("/homes/{id}"),
        email: None,
        plan_type: None,
        subscription_active_until: None,
        rate_limits: 0,
    }
}

fn ids(store: &AccountsStore<u8>) -> Vec<String> {
    store.accounts.iter().map(|a| a.id.clone()).collect()
}

fn api_auth(key: Option<&str>) -> AuthFile {
    AuthFile { auth_mode: None, openai_api_key: key.map(str::to_string), tokens: None }
}

fn chatgpt_auth(access: Option<&str>) -> AuthFile {
    AuthFile {
        auth_mode: Some("chatgpt".to_string()),
        openai_api_key: Some("sk-ignored-key".to_string()),
        tokens: Some(AuthTokens {
            id_token: None,
            access_token: access.map(str::to_string),
            account_id: Some("acct".to_string()),
        }),
    }
}

fn candidate(id: &str, score: Result<Option<i64>, &str>) -> RuntimeCandidate {
    RuntimeCandidate {
        id: id.to_string(),
        codex_home: format!("/homes/{id}"),
        score: score.map_err(str::to_string),
    }
}

#[test]
fn bearer_and_kind_follow_auth_mode() {
    assert_eq!(auth_bearer(&api_auth(Some("sk-1"))), Some("sk-1".to_string()));
    assert_eq!(auth_bearer(&api_auth(None)), None);
    assert_eq!(auth_bearer(&chatgpt_auth(Some("tok"))), Some("tok".to_string()));
    assert_eq!(auth_bearer(&chatgpt_auth(None)), None);
    assert_eq!(account_kind_for(&chatgpt_auth(None)), AccountKind::Chatgpt);
    assert_eq!(account_kind_for(&api_auth(None)), AccountKind::ApiKey);
}

#[test]
fn labels_come_from_email_or_masked_key() {
    let meta = Some((Some("me@example.com".to_string()), Some("plus".to_string()), None));
    assert_eq!(default_label_for_auth(&chatgpt_auth(None), &meta), "me@example.com");
    assert_eq!(default_label_for_auth(&chatgpt_auth(None), &None), "ChatGPT Account");
    assert_eq!(default_label_for_auth(&api_auth(Some("sk-test-key")), &None), "sk-****-key");
    assert_eq!(default_label_for_auth(&api_auth(None), &None), "OpenAI API Key");
}

#[test]
fn hydration_refreshes_generic_labels_only() {
    let mut a = account("a");
    a.label = "OpenAI API Key".to_string();
    let changed = hydrate_account_metadata(&mut a, &api_auth(Some("sk-test-key")), &None);
    assert!(changed);
    assert_eq!(a.label, "sk-****-key");
    let changed_again = hydrate_account_metadata(&mut a, &api_auth(Some("sk-test-key")), &None);
    assert!(!changed_again);

    let mut b = account("b");
    b.label = "My work key".to_string();
    let meta = Some((Some("me@example.com".to_string()), Some("pro".to_string()), Some("2030".to_string())));
    assert!(hydrate_account_metadata(&mut b, &chatgpt_auth(Some("t")), &meta));
    assert_eq!(b.label, "My work key");
    assert_eq!(b.kind, AccountKind::Chatgpt);
    assert_eq!(b.email.as_deref(), Some("me@example.com"));
    assert_eq!(b.plan_type.as_deref(), Some("pro"));
    assert_eq!(b.subscription_active_until.as_deref(), Some("2030"));
}

#[test]
fn loaded_accounts_take_auth_details() {
    let a = load_account_from_auth("acct-1".to_string(), "/h".to_string(), &api_auth(Some("sk-test-key")), &None, 7u8);
    assert_eq!(a.id, "acct-1");
    assert_eq!(a.codex_home, "/h");
    assert_eq!(a.kind, AccountKind::ApiKey);
    assert_eq!(a.label, "sk-****-key");
    assert_eq!(a.rate_limits, 7);
}

#[test]
fn refreshed_metadata_keeps_known_email() {
    let mut a = account("a");
    a.email = Some("old@example.com".to_string());
    refresh_account_metadata(&mut a, Some((Some("new@example.com".to_string()), Some("plus".to_string()), None)));
    assert_eq!(a.email.as_deref(), Some("old@example.com"));
    assert_eq!(a.plan_type.as_deref(), Some("plus"));
    let mut b = account("b");
    refresh_account_metadata(&mut b, Some((Some("new@example.com".to_string()), None, None)));
    assert_eq!(b.email.as_deref(), Some("new@example.com"));
}

#[test]
fn unavailable_reasons() {
    let fine = UsageState { primary_exhausted: false, secondary_exhausted: false, requests_remaining: None, tokens_remaining: None };
    assert_eq!(account_unavailable_reason(false, AccountKind::ApiKey, &fine).as_deref(), Some("missing usable auth"));
    assert_eq!(account_unavailable_reason(true, AccountKind::ApiKey, &fine), None);
    let both = UsageState { primary_exhausted: true, secondary_exhausted: true, ..fine.clone() };
    assert_eq!(account_unavailable_reason(true, AccountKind::Chatgpt, &both).as_deref(), Some("weekly usage limit reached"));
    let primary = UsageState { primary_exhausted: true, ..fine.clone() };
    assert_eq!(account_unavailable_reason(true, AccountKind::Chatgpt, &primary).as_deref(), Some("window usage limit reached"));
    let requests = UsageState { requests_remaining: Some("0".to_string()), tokens_remaining: Some("0".to_string()), ..fine.clone() };
    assert_eq!(account_unavailable_reason(true, AccountKind::ApiKey, &requests).as_deref(), Some("request rate limit reached"));
    let tokens = UsageState { requests_remaining: Some("10".to_string()), tokens_remaining: Some("0".to_string()), ..fine.clone() };
    assert_eq!(account_unavailable_reason(true, AccountKind::ApiKey, &tokens).as_deref(), Some("token rate limit reached"));
    assert_eq!(account_unavailable_reason(true, AccountKind::Chatgpt, &tokens), None);
}

#[test]
fn masked_secret_in_summaries() {
    assert_eq!(summary_masked_secret(AccountKind::ApiKey, Some("sk-test-key".to_string())).as_deref(), Some("sk-****-key"));
    assert_eq!(summary_masked_secret(AccountKind::Chatgpt, Some("sk-test-key".to_string())), None);
    assert_eq!(summary_masked_secret(AccountKind::ApiKey, None), None);
}

#[test]
fn jwt_payload_is_decoded() {
    assert_eq!(jwt_payload_part("aaa.bbb.ccc").as_deref(), Some("bbb"));
    assert_eq!(jwt_payload_part("aaa.bbb").as_deref(), Some("bbb"));
    assert_eq!(jwt_payload_part("aaa..c").as_deref(), Some(""));
    assert_eq!(jwt_payload_part("aaa"), None);
    let token = "eyJhbGciOiJub25lIn0.eyJlbWFpbCI6Im1lQGV4YW1wbGUuY29tIn0.sig";
    assert_eq!(decode_jwt_payload(token).unwrap(), br#"{"email":"me@example.com"}"#.to_vec());
    assert_eq!(decode_jwt_payload("nodots").unwrap_err(), "malformed JWT payload");
    let err = decode_jwt_payload("a.$$$.c").unwrap_err();
    assert_eq!(err, "failed to decode JWT payload: Invalid symbol 36, offset 0.");
}

#[test]
fn base64_errors_read_like_the_crate() {
    assert_eq!(base64_error_message(Base64Error::InvalidByte(3, 64)), "Invalid symbol 64, offset 3.");
    assert_eq!(base64_error_message(Base64Error::InvalidLength(5)), "Invalid input length: 5");
    assert_eq!(base64_error_message(Base64Error::InvalidLastSymbol(2, 66)), "Invalid last symbol 66, offset 2.");
    assert_eq!(base64_error_message(Base64Error::InvalidPadding), "Invalid padding");
}

#[test]
fn device_auth_output_is_read() {
    let (uri, code) = scan_device_auth_line(None, None, "Open \u{1b}[94mhttps://auth.openai.com/codex/device\u{1b}[0m in your browser");
    assert_eq!(uri.as_deref(), Some("https://auth.openai.com/codex/device"));
    assert_eq!(code, None);
    let (uri, code) = scan_device_auth_line(uri, code, "   Enter this one-time code \u{1b}[94mABCD-12345\u{1b}[0m");
    assert_eq!(uri.as_deref(), Some("https://auth.openai.com/codex/device"));
    assert_eq!(code.as_deref(), Some("ABCD-12345"));
    let (uri2, _) = scan_device_auth_line(Some("https://first".to_string()), None, "https://second");
    assert_eq!(uri2.as_deref(), Some("https://first"));
    assert_eq!(finish_device_auth_scan(None, Some("X".to_string())).unwrap_err(), "failed to read ChatGPT device-auth URL from Codex");
    assert_eq!(finish_device_auth_scan(Some("u".to_string()), None).unwrap_err(), "failed to read ChatGPT device-auth code from Codex");
    assert_eq!(finish_device_auth_scan(Some("u".to_string()), Some("c".to_string())).unwrap(), ("u".to_string(), "c".to_string()));
}

#[test]
fn removing_accounts_moves_the_active_one() {
    let mut store = AccountsStore { active_account_id: Some("b".to_string()), accounts: vec![account("a"), account("b"), account("c"), account("b")] };
    let home = remove_account_from_store(&mut store, "b");
    assert_eq!(home.as_deref(), Some("/homes/b"));
    assert_eq!(ids(&store), vec!["a", "c"]);
    assert_eq!(store.active_account_id.as_deref(), Some("a"));
    let home = remove_account_from_store(&mut store, "zzz");
    assert_eq!(home, None);
    assert_eq!(ids(&store), vec!["a", "c"]);
    assert_eq!(store.active_account_id.as_deref(), Some("a"));
    remove_account_from_store(&mut store, "a");
    remove_account_from_store(&mut store, "c");
    assert_eq!(store.active_account_id, None);
}

#[test]
fn linked_accounts_come_first_and_active() {
    let mut store = AccountsStore { active_account_id: Some("a".to_string()), accounts: vec![account("a"), account("b")] };
    let mut fresh = account("b");
    fresh.label = "fresh".to_string();
    activate_linked_account(&mut store, fresh);
    assert_eq!(ids(&store), vec!["b", "a"]);
    assert_eq!(store.accounts[0].label, "fresh");
    assert_eq!(store.active_account_id.as_deref(), Some("b"));
}

#[test]
fn settling_the_active_account() {
    let mut store = AccountsStore { active_account_id: Some("gone".to_string()), accounts: vec![account("a"), account("b")] };
    assert!(settle_active_account(&mut store));
    assert_eq!(store.active_account_id.as_deref(), Some("a"));
    assert!(!settle_active_account(&mut store));
    let mut empty: AccountsStore<u8> = AccountsStore { active_account_id: Some("x".to_string()), accounts: vec![] };
    assert!(settle_active_account(&mut empty));
    assert_eq!(empty.active_account_id, None);
}

#[test]
fn flagged_accounts_are_kept() {
    let mut store = AccountsStore { active_account_id: None, accounts: vec![account("a"), account("b"), account("c")] };
    assert!(retain_flagged_accounts(&mut store, &vec![true, false, true]));
    assert_eq!(ids(&store), vec!["a", "c"]);
    assert!(!retain_flagged_accounts(&mut store, &vec![true, true]));
}

#[test]
fn runtime_account_prefers_active_when_usable() {
    let cs = vec![candidate("a", Ok(Some(9_000))), candidate("b", Ok(Some(5_000)))];
    let sel = select_runtime_account(&Some("b".to_string()), &cs).unwrap().unwrap();
    assert_eq!(sel.account.id, "b");
    assert_eq!(sel.account.codex_home, PathBuf::from("/homes/b"));
    assert!(!sel.update_active);
}

#[test]
fn runtime_account_falls_back_to_best_score() {
    let cs = vec![candidate("a", Ok(Some(3_000))), candidate("b", Ok(None)), candidate("c", Ok(Some(8_000))), candidate("d", Ok(Some(8_000)))];
    let sel = select_runtime_account(&Some("b".to_string()), &cs).unwrap().unwrap();
    assert_eq!(sel.account.id, "c");
    assert!(sel.update_active);
}

#[test]
fn runtime_account_degrades_to_active_or_first() {
    let cs = vec![candidate("a", Ok(None)), candidate("b", Ok(None))];
    let sel = select_runtime_account(&Some("b".to_string()), &cs).unwrap().unwrap();
    assert_eq!(sel.account.id, "b");
    assert!(!sel.update_active);
    let sel = select_runtime_account(&None, &cs).unwrap().unwrap();
    assert_eq!(sel.account.id, "a");
    assert!(sel.update_active);
    let min = vec![candidate("a", Ok(Some(i64::MIN))), candidate("b", Ok(Some(i64::MIN)))];
    let sel = select_runtime_account(&None, &min).unwrap().unwrap();
    assert_eq!(sel.account.id, "a");
}

#[test]
fn runtime_account_errors_and_empty_store() {
    let cs = vec![candidate("a", Ok(None)), candidate("b", Err("failed to read auth")), candidate("c", Ok(Some(1)))];
    assert_eq!(select_runtime_account(&None, &cs).unwrap_err(), "failed to read auth");
    let early = vec![candidate("a", Ok(Some(1))), candidate("b", Err("late error"))];
    assert_eq!(select_runtime_account(&Some("a".to_string()), &early).unwrap().unwrap().account.id, "a");
    assert!(select_runtime_account(&None, &Vec::new()).unwrap().is_none());
}

#[test]
fn homes_found_on_disk_are_found_or_adopted_first() {
    let mut store = AccountsStore { active_account_id: Some("b".to_string()), accounts: vec![account("a"), account("b"), account("b")] };
    assert_eq!(find_account(&store, "b"), Some(1));
    assert_eq!(find_account(&store, "z"), None);
    adopt_account(&mut store, account("z"));
    assert_eq!(ids(&store), vec!["z", "a", "b", "b"]);
    assert_eq!(store.active_account_id.as_deref(), Some("b"));
}

#[test]
fn live_usage_notes_name_the_plan() {
    assert_eq!(usage_note(Some("plus".to_string())), "Live usage fetched from ChatGPT (plus)");
    assert_eq!(usage_note(None), "Live usage fetched from ChatGPT");
}
