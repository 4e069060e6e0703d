//! The request envelope: version, optional method, params and id, and its
//! exact serialized text.
//!
//! With no method, only `jsonrpc` and `id` are emitted and params are never
//! built — a degenerate "ping" form kept deliberately, though it is not a
//! conforming JSON-RPC 2.0 call. With a method, the only accepted version is
//! `"2.0"`; the command-line layer rejects any other before building.
use vstd::prelude::*;

use crate::error::{ErrorRep, RpcError};
use crate::expr::{expr_outcome, parse_expr};
use crate::params::{build_params, file_rep, params_outcome, wants_file};
use crate::value::{
    id_text, params_text, push_id_text, push_params_text, push_quoted, Id, IdRep, ParamsRep,
    ParamsValue,
};

verus! {

pub struct Request {
    pub version: String,
    pub method: Option<String>,
    pub params: Option<ParamsValue>,
    pub id: Id,
}

pub struct RequestRep {
    pub version: Seq<char>,
    pub method: Option<Seq<char>>,
    pub params: Option<ParamsRep>,
    pub id: IdRep,
}

impl View for Request {
    type V = RequestRep;

    open spec fn view(&self) -> RequestRep {
        RequestRep {
            version: self.version@,
            method: match &self.method {
                Some(m) => Some(m@),
                None => None,
            },
            params: match &self.params {
                Some(p) => Some(p@),
                None => None,
            },
            id: self.id@,
        }
    }
}

pub open spec fn params_or_null(p: Option<ParamsRep>) -> ParamsRep {
    match p {
        Some(x) => x,
        None => ParamsRep::Null,
    }
}

/// The serialized envelope: fields in the order `jsonrpc`, `method`,
/// `params`, `id`; without a method, only `jsonrpc` and `id`.
pub open spec fn request_text_of(r: RequestRep) -> Seq<char> {
    match r.method {
        None => "{\"jsonrpc\":"@ + crate::value::quoted(r.version) + ",\"id\":"@ + id_text(r.id)
            + "}"@,
        Some(m) => "{\"jsonrpc\":"@ + crate::value::quoted(r.version) + ",\"method\":"@
            + crate::value::quoted(m) + ",\"params\":"@ + params_text(params_or_null(r.params))
            + ",\"id\":"@ + id_text(r.id) + "}"@,
    }
}

/// Serialize the envelope.
pub fn request_text(req: &Request) -> (r: String)
    ensures
        r@ == request_text_of(req@),
{
    let mut out = String::new();
    out.append("{\"jsonrpc\":");
    push_quoted(req.version.as_str(), &mut out);
    match &req.method {
        None => {},
        Some(m) => {
            out.append(",\"method\":");
            push_quoted(m.as_str(), &mut out);
            out.append(",\"params\":");
            match &req.params {
                Some(p) => push_params_text(p, &mut out),
                None => out.append("null"),
            }
        },
    }
    out.append(",\"id\":");
    push_id_text(&req.id, &mut out);
    out.append("}");
    proof {
        assert(out@ =~= request_text_of(req@));
    }
    out
}

pub open spec fn method_rep(method: Option<&str>) -> Option<Seq<char>> {
    match method {
        Some(m) => Some(m@),
        None => None,
    }
}

/// What building a request yields: the id expression is parsed first and
/// its error reported; with a method, the params are then built and their
/// error reported; otherwise the envelope carries the fields as given.
pub open spec fn build_outcome(
    method: Option<Seq<char>>,
    version: Seq<char>,
    id: Seq<char>,
    toks: Seq<Seq<char>>,
    file: Option<Result<Seq<char>, Seq<char>>>,
) -> Result<RequestRep, ErrorRep> {
    match expr_outcome(id) {
        Err(e) => Err(e),
        Ok(idr) => match method {
            None => Ok(RequestRep { version, method: None, params: None, id: idr }),
            Some(m) => match params_outcome(toks, file) {
                Err(e) => Err(e),
                Ok(p) => Ok(
                    RequestRep { version, method: Some(m), params: Some(p), id: idr },
                ),
            },
        },
    }
}

pub open spec fn request_result_matches(
    r: Result<Request, RpcError>,
    o: Result<RequestRep, ErrorRep>,
) -> bool {
    match r {
        Ok(req) => o matches Ok(rep) && req@ == rep,
        Err(e) => o matches Err(x) && e@ == x,
    }
}

/// Build the request envelope from the command-line pieces. With a method,
/// the version must already have been validated to be `"2.0"`; without one,
/// the version passes through unvalidated, params are never built, and no
/// file outcome may be passed.
pub fn build_request(
    method: Option<&str>,
    version: &str,
    id: &str,
    tokens: &Vec<String>,
    file: Option<&Result<String, String>>,
) -> (r: Result<Request, RpcError>)
    requires
        method is Some ==> version@ == "2.0"@,
        file is Some <==> (method is Some && wants_file(crate::value::strs_rep(tokens@))),
    ensures
        request_result_matches(
            r,
            build_outcome(
                method_rep(method),
                version@,
                id@,
                crate::value::strs_rep(tokens@),
                file_rep(file),
            ),
        ),
{
    let idv = match parse_expr(id) {
        Ok(i) => i,
        Err(e) => {
            return Err(e);
        },
    };
    match method {
        None => Ok(
            Request { version: version.to_owned(), method: None, params: None, id: idv },
        ),
        Some(m) => match build_params(tokens, file) {
            Err(e) => Err(e),
            Ok(p) => Ok(
                Request {
                    version: version.to_owned(),
                    method: Some(m.to_owned()),
                    params: Some(p),
                    id: idv,
                },
            ),
        },
    }
}

} // verus!
