use citadel::admin::{admin_response, storage_call, AdminCommand, AdminResponse, StorageCall, StorageOutcome};

fn key() -> String {
    "ed25519:abc".to_string()
}

#[test]
fn add_admin_sets_flag_and_floods() {
    let call = storage_call(&AdminCommand::AddAdmin { public_key: key() });
    assert!(matches!(call, StorageCall::SetAdmin { ref public_key, admin: true } if *public_key == key()));
    let (resp, flood) = admin_response(AdminCommand::AddAdmin { public_key: key() }, Ok(StorageOutcome::Unit));
    assert!(matches!(resp, AdminResponse::Success { ref message } if message == "Added admin: ed25519:abc"));
    assert!(flood);
}

#[test]
fn remove_admin_clears_flag_and_floods() {
    let call = storage_call(&AdminCommand::RemoveAdmin { public_key: key() });
    assert!(matches!(call, StorageCall::SetAdmin { admin: false, .. }));
    let (resp, flood) = admin_response(AdminCommand::RemoveAdmin { public_key: key() }, Ok(StorageOutcome::Unit));
    assert!(matches!(resp, AdminResponse::Success { ref message } if message == "Removed admin: ed25519:abc"));
    assert!(flood);
}

#[test]
fn upload_permissions() {
    let call = storage_call(&AdminCommand::GrantUpload { public_key: key() });
    assert!(matches!(call, StorageCall::GrantPermission { ref permission, .. } if permission == "upload"));
    let (resp, flood) = admin_response(AdminCommand::GrantUpload { public_key: key() }, Ok(StorageOutcome::Unit));
    assert!(matches!(resp, AdminResponse::Success { ref message } if message == "Granted upload permission to: ed25519:abc"));
    assert!(!flood);
    let call = storage_call(&AdminCommand::RevokeUpload { public_key: key() });
    assert!(matches!(call, StorageCall::RevokePermission { ref permission, .. } if permission == "upload"));
    let (resp, _) = admin_response(AdminCommand::RevokeUpload { public_key: key() }, Ok(StorageOutcome::Unit));
    assert!(matches!(resp, AdminResponse::Success { ref message } if message == "Revoked upload permission from: ed25519:abc"));
}

#[test]
fn storage_errors_are_reported_without_flood() {
    let (resp, flood) = admin_response(AdminCommand::AddAdmin { public_key: key() }, Err("disk full".to_string()));
    assert!(matches!(resp, AdminResponse::Error { ref error } if error == "disk full"));
    assert!(!flood);
}

#[test]
fn queries_and_ping() {
    let (resp, _) = admin_response(AdminCommand::ListAdmins, Ok(StorageOutcome::List(vec!["a".to_string()])));
    assert!(matches!(resp, AdminResponse::List { ref items } if items == &vec!["a".to_string()]));
    let (resp, _) = admin_response(AdminCommand::IsAdmin { public_key: key() }, Ok(StorageOutcome::Flag(true)));
    assert!(matches!(resp, AdminResponse::Bool { value: true }));
    assert!(matches!(storage_call(&AdminCommand::Ping), StorageCall::NoCall));
    let (resp, flood) = admin_response(AdminCommand::Ping, Ok(StorageOutcome::Unit));
    assert!(matches!(resp, AdminResponse::Pong));
    assert!(!flood);
}
