//! The dispatcher: envelope validation, closed-set command routing, store
//! command handling, and the response shaping for filesystem outcomes.

use crate::envelope::{
    envelope_shape_ok, fs_error, get_payload_str, invalid_request, is_error_response,
    is_ok_response, missing_field_message, ok_response, payload_lookup, unsupported, ErrorCode,
    IpcData, IpcRequest, IpcResponse,
};
use crate::store::{store_set_spec, HostStore};
use crate::text::{blank, entries_sorted, is_blank, sort_entries, str_eq};
use vstd::prelude::*;

verus! {

/// The closed set of commands the bridge serves.
#[derive(Clone, Copy, PartialEq, Eq, Structural, Debug)]
pub enum HostCommand {
    FsExists,
    FsReadTextFile,
    FsListDir,
    StoreGet,
    StoreSet,
}

/// Which command a command name denotes, if any.
pub open spec fn parse_cmd_spec(s: Seq<char>) -> Option<HostCommand> {
    if s == "host.fs.exists"@ {
        Some(HostCommand::FsExists)
    } else if s == "host.fs.readTextFile"@ {
        Some(HostCommand::FsReadTextFile)
    } else if s == "host.fs.listDir"@ {
        Some(HostCommand::FsListDir)
    } else if s == "host.store.get"@ {
        Some(HostCommand::StoreGet)
    } else if s == "host.store.set"@ {
        Some(HostCommand::StoreSet)
    } else {
        None
    }
}

/// Match a command name against the closed set.
pub fn parse_cmd(cmd: &str) -> (r: Option<HostCommand>)
    ensures
        r == parse_cmd_spec(cmd@),
{
    if str_eq(cmd, "host.fs.exists") {
        Some(HostCommand::FsExists)
    } else if str_eq(cmd, "host.fs.readTextFile") {
        Some(HostCommand::FsReadTextFile)
    } else if str_eq(cmd, "host.fs.listDir") {
        Some(HostCommand::FsListDir)
    } else if str_eq(cmd, "host.store.get") {
        Some(HostCommand::StoreGet)
    } else if str_eq(cmd, "host.store.set") {
        Some(HostCommand::StoreSet)
    } else {
        None
    }
}

/// The filesystem operations; the host runtime performs them and hands the
/// outcome back to the matching response function.
#[derive(Clone, Copy, PartialEq, Eq, Structural, Debug)]
pub enum FsOp {
    Exists,
    ReadText,
    ListDir,
}

/// A validated filesystem request: which operation to run on which path, for
/// which request id.
pub struct FsRequest {
    pub id: String,
    pub op: FsOp,
    pub path: String,
}

/// What one dispatch step decides: either a finished response, or a
/// filesystem operation that the host runtime must perform.
pub enum IpcStep {
    Ready(IpcResponse),
    Fs(FsRequest),
}

/// The envelope is valid when id, command and source are all non-blank.
pub open spec fn envelope_valid(req: IpcRequest) -> bool {
    &&& !blank(req.id@)
    &&& !blank(req.cmd@)
    &&& !blank(req.meta.source@)
}

/// The step a filesystem command produces: a validation error if the path
/// field is missing or not a string, else the filesystem request itself.
pub open spec fn fs_step_ok(r: IpcStep, req: IpcRequest, op: FsOp) -> bool {
    match payload_lookup(req.payload@, "path"@) {
        None => r matches IpcStep::Ready(resp) && is_error_response(
            resp,
            req.id@,
            ErrorCode::InvalidRequest,
            missing_field_message("path"@),
        ),
        Some(p) => r matches IpcStep::Fs(fsreq) && fsreq.id@ == req.id@ && fsreq.op == op
            && fsreq.path@ == p,
    }
}

fn fs_step(request: &IpcRequest, op: FsOp) -> (r: IpcStep)
    ensures
        fs_step_ok(r, *request, op),
{
    match get_payload_str(&request.payload, "path") {
        Err(m) => IpcStep::Ready(invalid_request(request.id.as_str(), m.as_str())),
        Ok(p) => IpcStep::Fs(FsRequest { id: request.id.clone(), op, path: p }),
    }
}

/// The single entry point: validate the envelope, route the command, run
/// store commands against the store, and hand filesystem commands back as
/// requests. The store changes only on a well-formed `host.store.set`.
pub fn hsb_ipc(request: &IpcRequest, store: &mut HostStore) -> (r: IpcStep)
    ensures
        !envelope_valid(*request) ==> *final(store) == *old(store) && (r matches IpcStep::Ready(
            resp,
        ) && is_error_response(
            resp,
            request.id@,
            ErrorCode::InvalidRequest,
            "missing required fields"@,
        )),
        envelope_valid(*request) && parse_cmd_spec(request.cmd@) is None ==> *final(store) == *old(
            store,
        ) && (r matches IpcStep::Ready(resp) && is_error_response(
            resp,
            request.id@,
            ErrorCode::Unsupported,
            "unsupported command"@,
        )),
        envelope_valid(*request) && parse_cmd_spec(request.cmd@) == Some(HostCommand::FsExists)
            ==> *final(store) == *old(store) && fs_step_ok(r, *request, FsOp::Exists),
        envelope_valid(*request) && parse_cmd_spec(request.cmd@) == Some(
            HostCommand::FsReadTextFile,
        ) ==> *final(store) == *old(store) && fs_step_ok(r, *request, FsOp::ReadText),
        envelope_valid(*request) && parse_cmd_spec(request.cmd@) == Some(HostCommand::FsListDir)
            ==> *final(store) == *old(store) && fs_step_ok(r, *request, FsOp::ListDir),
        envelope_valid(*request) && parse_cmd_spec(request.cmd@) == Some(HostCommand::StoreGet)
            ==> *final(store) == *old(store) && (match payload_lookup(request.payload@, "key"@) {
            None => r matches IpcStep::Ready(resp) && is_error_response(
                resp,
                request.id@,
                ErrorCode::InvalidRequest,
                missing_field_message("key"@),
            ),
            Some(k) => r matches IpcStep::Ready(resp) && envelope_shape_ok(resp) && resp.id@
                == request.id@ && resp.ok && (resp.data matches Some(IpcData::Value { value })
                && (value is Some <==> old(store)@.contains_key(k)) && (value matches Some(v)
                ==> v@ == old(store)@[k])),
        }),
        envelope_valid(*request) && parse_cmd_spec(request.cmd@) == Some(HostCommand::StoreSet)
            ==> (match (
            payload_lookup(request.payload@, "key"@),
            payload_lookup(request.payload@, "value"@),
        ) {
            (None, _) => *final(store) == *old(store) && (r matches IpcStep::Ready(resp)
                && is_error_response(
                resp,
                request.id@,
                ErrorCode::InvalidRequest,
                missing_field_message("key"@),
            )),
            (Some(_), None) => *final(store) == *old(store) && (r matches IpcStep::Ready(resp)
                && is_error_response(
                resp,
                request.id@,
                ErrorCode::InvalidRequest,
                missing_field_message("value"@),
            )),
            (Some(k), Some(v)) => final(store).capacity() == old(store).capacity() && ({
                let s2 = store_set_spec(
                    old(store)@,
                    old(store).order_view(),
                    old(store).capacity(),
                    k,
                    v,
                );
                final(store)@ == s2.0 && final(store).order_view() == s2.1
            }) && (r matches IpcStep::Ready(resp) && is_ok_response(
                resp,
                request.id@,
                IpcData::SetOk,
            )),
        }),
{
    if is_blank(request.id.as_str()) || is_blank(request.cmd.as_str()) || is_blank(
        request.meta.source.as_str(),
    ) {
        return IpcStep::Ready(invalid_request(request.id.as_str(), "missing required fields"));
    }
    match parse_cmd(request.cmd.as_str()) {
        None => IpcStep::Ready(unsupported(request.id.as_str(), "unsupported command")),
        Some(HostCommand::FsExists) => fs_step(request, FsOp::Exists),
        Some(HostCommand::FsReadTextFile) => fs_step(request, FsOp::ReadText),
        Some(HostCommand::FsListDir) => fs_step(request, FsOp::ListDir),
        Some(HostCommand::StoreGet) => {
            match get_payload_str(&request.payload, "key") {
                Err(m) => IpcStep::Ready(invalid_request(request.id.as_str(), m.as_str())),
                Ok(k) => {
                    let value = store.get(k.as_str());
                    IpcStep::Ready(ok_response(request.id.as_str(), IpcData::Value { value }))
                },
            }
        },
        Some(HostCommand::StoreSet) => {
            match get_payload_str(&request.payload, "key") {
                Err(m) => IpcStep::Ready(invalid_request(request.id.as_str(), m.as_str())),
                Ok(k) => {
                    match get_payload_str(&request.payload, "value") {
                        Err(m) => IpcStep::Ready(invalid_request(request.id.as_str(), m.as_str())),
                        Ok(v) => {
                            store.set(k, v);
                            IpcStep::Ready(ok_response(request.id.as_str(), IpcData::SetOk))
                        },
                    }
                },
            }
        },
    }
}

/// Shape the response for a `host.fs.exists` outcome: a missing path is a
/// normal `false`, and only a real filesystem failure is an error.
pub fn fs_exists_response(id: &str, outcome: Result<bool, ()>) -> (r: IpcResponse)
    ensures
        outcome matches Ok(b) ==> is_ok_response(r, id@, IpcData::Exists { exists: b }),
        outcome is Err ==> is_error_response(r, id@, ErrorCode::FsError, "fs error"@),
{
    match outcome {
        Ok(exists) => ok_response(id, IpcData::Exists { exists }),
        Err(()) => fs_error(id, "fs error"),
    }
}

/// Shape the response for a `host.fs.readTextFile` outcome.
pub fn fs_read_text_response(id: &str, outcome: Result<String, ()>) -> (r: IpcResponse)
    ensures
        outcome matches Ok(t) ==> is_ok_response(r, id@, IpcData::Text { text: t }),
        outcome is Err ==> is_error_response(r, id@, ErrorCode::FsError, "fs error"@),
{
    match outcome {
        Ok(text) => ok_response(id, IpcData::Text { text }),
        Err(()) => fs_error(id, "fs error"),
    }
}

/// Shape the response for a `host.fs.listDir` outcome: on success the
/// entries come back sorted in ascending lexicographic order.
pub fn fs_list_dir_response(id: &str, outcome: Result<Vec<String>, ()>) -> (r: IpcResponse)
    ensures
        outcome matches Ok(entries) ==> envelope_shape_ok(r) && r.id@ == id@ && r.ok && (
        r.data matches Some(IpcData::Entries { entries: es }) && entries_sorted(
            es@.map_values(|e: String| e@),
        ) && es@.to_multiset() == entries@.to_multiset()),
        outcome is Err ==> is_error_response(r, id@, ErrorCode::FsError, "fs error"@),
{
    match outcome {
        Ok(entries) => {
            let es = sort_entries(entries);
            ok_response(id, IpcData::Entries { entries: es })
        },
        Err(()) => fs_error(id, "fs error"),
    }
}

} // verus!
