//! The shapes of JSON-RPC messages.
use vstd::prelude::*;

verus! {

/// The four kinds of JSON-RPC message.
#[derive(Debug, Copy, Clone, PartialEq, Eq, Structural)]
pub enum MessageKind {
    /// `method` and `id`, maybe `params`.
    Request,
    /// `id` and `result`.
    Response,
    /// `id` and `error`.
    Error,
    /// `method`, maybe `params`, no `id`.
    Notification,
}

/// The kind of message whose object has the given fields; `None` when the
/// `jsonrpc` field is present but not `"2.0"`, or when the fields fit no kind.
pub open spec fn kind_of(
    version_ok: bool,
    method: bool,
    id: bool,
    params: bool,
    result: bool,
    error: bool,
) -> Option<MessageKind> {
    if !version_ok {
        None
    } else if !method && id && !params && result && !error {
        Some(MessageKind::Response)
    } else if !method && id && !params && !result && error {
        Some(MessageKind::Error)
    } else if method && id && !result && !error {
        Some(MessageKind::Request)
    } else if method && !id && !result && !error {
        Some(MessageKind::Notification)
    } else {
        None
    }
}

/// The kind of message whose object has the given fields (see `kind_of`).
pub fn message_kind(
    version_ok: bool,
    method: bool,
    id: bool,
    params: bool,
    result: bool,
    error: bool,
) -> (k: Option<MessageKind>)
    ensures
        k == kind_of(version_ok, method, id, params, result, error),
{
    if !version_ok {
        return None;
    }
    match (method, id, params, result, error) {
        (false, true, false, true, false) => Some(MessageKind::Response),
        (false, true, false, false, true) => Some(MessageKind::Error),
        (true, true, _, false, false) => Some(MessageKind::Request),
        (true, false, _, false, false) => Some(MessageKind::Notification),
        _ => None,
    }
}

/// Whether the `jsonrpc` field, when present, names version 2.0.
pub fn version_ok(jsonrpc: Option<&str>) -> (b: bool)
    ensures
        b == match jsonrpc {
            Some(v) => v@ == seq!['2', '.', '0'],
            None => true,
        },
{
    match jsonrpc {
        None => true,
        Some(v) => {
            let cs = crate::text::chars_of(v);
            let r = cs.len() == 3 && cs[0] == '2' && cs[1] == '.' && cs[2] == '0';
            assert(r == (cs@ =~= seq!['2', '.', '0']));
            r
        },
    }
}

} // verus!
