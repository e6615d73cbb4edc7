//! Admin commands of a Lens node: which storage call each command makes, and
//! the response it answers with.

use vstd::prelude::*;

verus! {

/// Admin command sent over the admin socket.
#[derive(Debug)]
pub enum AdminCommand {
    /// Add an admin
    AddAdmin { public_key: String },
    /// Remove an admin
    RemoveAdmin { public_key: String },
    /// Grant upload permission
    GrantUpload { public_key: String },
    /// Revoke upload permission
    RevokeUpload { public_key: String },
    /// List all admins
    ListAdmins,
    /// Check if a key is admin
    IsAdmin { public_key: String },
    /// Ping (health check)
    Ping,
}

/// Response from an admin command.
#[derive(Debug)]
pub enum AdminResponse {
    /// The command succeeded (serialised with status `ok`)
    Success { message: String },
    Error { error: String },
    List { items: Vec<String> },
    Bool { value: bool },
    Pong,
}

/// The storage call that carries out an admin command.
#[derive(Debug)]
pub enum StorageCall {
    /// Set or clear the admin flag of a key
    SetAdmin { public_key: String, admin: bool },
    /// Grant a permission to a key
    GrantPermission { public_key: String, permission: String },
    /// Revoke a permission from a key
    RevokePermission { public_key: String, permission: String },
    /// List the admin keys
    ListAdmins,
    /// Ask whether a key is an admin
    IsAdmin { public_key: String },
    /// The command needs no storage
    NoCall,
}

/// What a successful storage call returned.
#[derive(Debug)]
pub enum StorageOutcome {
    /// The call changed the store and returned nothing
    Unit,
    /// The admin keys
    List(Vec<String>),
    /// A yes/no answer
    Flag(bool),
}

/// The storage call that carries out `cmd` (the permission granted or revoked is `upload`).
pub fn storage_call(cmd: &AdminCommand) -> (call: StorageCall)
    ensures
        match (*cmd, call) {
            (AdminCommand::AddAdmin { public_key: k }, StorageCall::SetAdmin { public_key, admin }) => public_key
                == k && admin,
            (AdminCommand::RemoveAdmin { public_key: k }, StorageCall::SetAdmin { public_key, admin }) => public_key
                == k && !admin,
            (
                AdminCommand::GrantUpload { public_key: k },
                StorageCall::GrantPermission { public_key, permission },
            ) => public_key == k && permission@ == "upload"@,
            (
                AdminCommand::RevokeUpload { public_key: k },
                StorageCall::RevokePermission { public_key, permission },
            ) => public_key == k && permission@ == "upload"@,
            (AdminCommand::ListAdmins, StorageCall::ListAdmins) => true,
            (AdminCommand::IsAdmin { public_key: k }, StorageCall::IsAdmin { public_key }) => public_key == k,
            (AdminCommand::Ping, StorageCall::NoCall) => true,
            _ => false,
        },
{
    match cmd {
        AdminCommand::AddAdmin { public_key } => StorageCall::SetAdmin { public_key: public_key.clone(), admin: true },
        AdminCommand::RemoveAdmin { public_key } => StorageCall::SetAdmin {
            public_key: public_key.clone(),
            admin: false,
        },
        AdminCommand::GrantUpload { public_key } => StorageCall::GrantPermission {
            public_key: public_key.clone(),
            permission: String::from_str("upload"),
        },
        AdminCommand::RevokeUpload { public_key } => StorageCall::RevokePermission {
            public_key: public_key.clone(),
            permission: String::from_str("upload"),
        },
        AdminCommand::ListAdmins => StorageCall::ListAdmins,
        AdminCommand::IsAdmin { public_key } => StorageCall::IsAdmin { public_key: public_key.clone() },
        AdminCommand::Ping => StorageCall::NoCall,
    }
}

/// Whether `outcome` is what the storage call of `cmd` returns on success.
pub open spec fn outcome_fits(cmd: AdminCommand, outcome: Result<StorageOutcome, String>) -> bool {
    match outcome {
        Err(_) => true,
        Ok(o) => match cmd {
            AdminCommand::ListAdmins => o is List,
            AdminCommand::IsAdmin { .. } => o is Flag,
            AdminCommand::Ping => true,
            _ => o is Unit,
        },
    }
}

/// Whether `outcome` has the shape that the storage call of `cmd` gives back
/// (checked before the outcome is turned into a response).
pub fn outcome_fits_command(cmd: &AdminCommand, outcome: &Result<StorageOutcome, String>) -> (fits: bool)
    ensures
        fits == outcome_fits(*cmd, *outcome),
{
    match outcome {
        Err(_) => true,
        Ok(o) => match cmd {
            AdminCommand::ListAdmins => matches!(o, StorageOutcome::List(_)),
            AdminCommand::IsAdmin { .. } => matches!(o, StorageOutcome::Flag(_)),
            AdminCommand::Ping => true,
            _ => matches!(o, StorageOutcome::Unit),
        },
    }
}

/// The success message of a command that changed the store.
pub open spec fn change_message(cmd: AdminCommand) -> Seq<char> {
    match cmd {
        AdminCommand::AddAdmin { public_key } => "Added admin: "@ + public_key@,
        AdminCommand::RemoveAdmin { public_key } => "Removed admin: "@ + public_key@,
        AdminCommand::GrantUpload { public_key } => "Granted upload permission to: "@ + public_key@,
        AdminCommand::RevokeUpload { public_key } => "Revoked upload permission from: "@ + public_key@,
        _ => Seq::empty(),
    }
}

/// Whether `cmd` changes the admin list (and so is followed by a flood of it).
pub open spec fn changes_admins(cmd: AdminCommand) -> bool {
    cmd is AddAdmin || cmd is RemoveAdmin
}

/// The response to `cmd` given what its storage call returned, and whether the admin
/// list must then be flooded to the mesh (after a successful add or remove).
pub fn admin_response(cmd: AdminCommand, outcome: Result<StorageOutcome, String>) -> (answer: (
    AdminResponse,
    bool,
))
    requires
        outcome_fits(cmd, outcome),
    ensures
        answer.1 == (changes_admins(cmd) && outcome is Ok),
        cmd is Ping ==> answer.0 is Pong,
        !(cmd is Ping) ==> match outcome {
            Err(e) => answer.0 matches AdminResponse::Error { error } && error == e,
            Ok(StorageOutcome::List(items)) => answer.0 matches AdminResponse::List { items: v } && v == items,
            Ok(StorageOutcome::Flag(b)) => answer.0 matches AdminResponse::Bool { value } && value == b,
            Ok(StorageOutcome::Unit) => answer.0 matches AdminResponse::Success { message } && message@
                == change_message(cmd),
        },
{
    match cmd {
        AdminCommand::Ping => (AdminResponse::Pong, false),
        AdminCommand::AddAdmin { public_key } => match outcome {
            Ok(_) => {
                let message = String::from_str("Added admin: ").concat(public_key.as_str());
                (AdminResponse::Success { message }, true)
            },
            Err(error) => (AdminResponse::Error { error }, false),
        },
        AdminCommand::RemoveAdmin { public_key } => match outcome {
            Ok(_) => {
                let message = String::from_str("Removed admin: ").concat(public_key.as_str());
                (AdminResponse::Success { message }, true)
            },
            Err(error) => (AdminResponse::Error { error }, false),
        },
        AdminCommand::GrantUpload { public_key } => match outcome {
            Ok(_) => {
                let message = String::from_str("Granted upload permission to: ").concat(public_key.as_str());
                (AdminResponse::Success { message }, false)
            },
            Err(error) => (AdminResponse::Error { error }, false),
        },
        AdminCommand::RevokeUpload { public_key } => match outcome {
            Ok(_) => {
                let message = String::from_str("Revoked upload permission from: ").concat(
                    public_key.as_str(),
                );
                (AdminResponse::Success { message }, false)
            },
            Err(error) => (AdminResponse::Error { error }, false),
        },
        AdminCommand::ListAdmins => match outcome {
            Ok(StorageOutcome::List(items)) => (AdminResponse::List { items }, false),
            Ok(_) => (AdminResponse::Pong, false),
            Err(error) => (AdminResponse::Error { error }, false),
        },
        AdminCommand::IsAdmin { .. } => match outcome {
            Ok(StorageOutcome::Flag(value)) => (AdminResponse::Bool { value }, false),
            Ok(_) => (AdminResponse::Pong, false),
            Err(error) => (AdminResponse::Error { error }, false),
        },
    }
}

} // verus!
