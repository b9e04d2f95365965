//! The line-framed stream transport's decision core: what one received
//! line turns into — a reply to enqueue, or silence — and how a reply
//! is framed for the wire. The surrounding read and write loops only
//! move bytes; every choice they act on is made here.

use vstd::prelude::*;
use crate::dispatch::{
    dispatch_post, recover_id_model, req_of_jval, request_of_json, resp_wf, ser_response,
    RequestEnvelope, RespModel, ResponseEnvelope,
};
use crate::json::JsonValue;
use crate::parse::{parse_text, spec_parse_text};
use crate::registry::McpServer;
use crate::types::ToolResult;

verus! {

/// The reply a line that never became a request draws: a parse error
/// under the recovered — or fallback — id.
pub open spec fn parse_error_model(id: crate::dispatch::IdModel) -> RespModel {
    RespModel::Failure { id, code: -32700, message: "Parse error"@ }
}

/// What one received line turns into, given how the dispatcher then
/// answered: an undecodable line draws a parse error under the best
/// recoverable id, a protocol error is surfaced under the request's id
/// or the fallback id, a notification draws silence, and a reply is
/// passed through.
pub open spec fn line_post<F: Fn(String, JsonValue) -> Result<ToolResult, String>>(
    s: McpServer,
    invoke: F,
    line: Seq<char>,
    r: Option<ResponseEnvelope>,
) -> bool {
    match spec_parse_text(line) {
        None => match r {
            Some(e) => e@ == parse_error_model(crate::dispatch::IdModel::Num(0)),
            None => false,
        },
        Some(v) => match req_of_jval(v) {
            None => match r {
                Some(e) => e@ == parse_error_model(recover_id_model(v)),
                None => false,
            },
            Some(req) => exists|res: Result<Option<ResponseEnvelope>, crate::types::McpError>|
                {
                    &&& #[trigger] dispatch_post(s, invoke, req, res)
                    &&& match res {
                        Ok(Some(e)) => match r {
                            Some(x) => x@ == e@,
                            None => false,
                        },
                        Ok(None) => r is None,
                        Err(err) => match r {
                            Some(x) => x@ == (RespModel::Failure {
                                id: match req.id {
                                    Some(i) => i,
                                    None => crate::dispatch::IdModel::Num(0),
                                },
                                code: err.spec_code(),
                                message: err.spec_message(),
                            }),
                            None => false,
                        },
                    }
                },
        },
    }
}

/// Decide what one received line turns into. Only a clean end of the
/// stream ends a session; this function is total over lines, so a
/// malformed line never does.
pub fn handle_line<F: Fn(String, JsonValue) -> Result<ToolResult, String>>(
    server: &McpServer,
    invoke: F,
    line: &str,
) -> (r: Option<ResponseEnvelope>)
    requires
        forall|args: (String, JsonValue)| #[trigger] call_requires(invoke, args),
    ensures
        line_post(*server, invoke, line@, r),
        match r {
            Some(e) => resp_wf(e@),
            None => true,
        },
{
    match parse_text(line) {
        None => Some(ResponseEnvelope::Failure {
            id: crate::dispatch::RequestId::Num(0),
            code: -32700,
            message: String::from_str("Parse error"),
        }),
        Some(v) => match request_of_json(&v) {
            None => Some(ResponseEnvelope::Failure {
                id: crate::dispatch::recover_id(&v),
                code: -32700,
                message: String::from_str("Parse error"),
            }),
            Some(req) => {
                let res = server.handle_request(invoke, &req);
                match res {
                    Ok(Some(e)) => Some(e),
                    Ok(None) => None,
                    Err(err) => {
                        let id = match req.id {
                            Some(i) => i,
                            None => crate::dispatch::RequestId::Num(0),
                        };
                        Some(ResponseEnvelope::of_error(id, &err))
                    }
                }
            }
        },
    }
}

/// Frame one reply for the wire: its canonical text and a single
/// newline, the flush unit of the write loop.
pub fn encode_line(e: &ResponseEnvelope) -> (r: String)
    ensures
        r@ == ser_response(e@) + seq!['\n'],
{
    proof {
        reveal_strlit("\n");
    }
    let mut s = e.encode();
    s.append("\n");
    proof {
        assert("\n"@ =~= seq!['\n']);
    }
    s
}

/// Decode one line into a canonical request envelope, if it holds one.
pub fn decode_request(line: &str) -> (r: Option<RequestEnvelope>)
    ensures
        match r {
            Some(req) => spec_parse_text(line@) matches Some(v) && req_of_jval(v) == Some(req@),
            None => match spec_parse_text(line@) {
                Some(v) => req_of_jval(v) is None,
                None => true,
            },
        },
{
    match parse_text(line) {
        Some(v) => request_of_json(&v),
        None => None,
    }
}

} // verus!
