//! The per-shot half of the dispatch engine. The async plumbing — the
//! concurrency gate's permits, the outcome channel, the clock and the
//! HTTP client — lives outside; what the engine decides is here, as
//! plain functions: how long a shot waits (`crate::rate`), what request
//! it sends (`prepare_request`), and what its outcome is
//! (`crate::shot`).

use vstd::prelude::*;
use crate::config::Args;
use crate::headers::{
    build_request_headers, entries_view, get_method, has_content_type_entry, normalize_method,
    parsed_headers, valid_method_token, views_of, HeaderPlan,
};
use crate::text::upper_bytes;
use crate::payload::{draws_match, expansion, process_payload};

verus! {

/// Everything one shot sends: the normalized method, the parsed headers
/// with the JSON default applied when a body is attached without an
/// explicit content-type, and the freshly expanded body template.
pub struct RequestPlan {
    /// Upper-case HTTP method token; `GET` where the configured method
    /// was no token at all.
    pub method: Vec<u8>,
    /// Parsed `(key, value)` header pairs, in order, with the JSON
    /// content-type appended when owed.
    pub headers: Vec<(Vec<u8>, Vec<u8>)>,
    /// The expanded request body, when one is configured.
    pub body: Option<Vec<u8>>,
}

/// Prepares one shot's request from the configuration: normalizes the
/// method, parses the header lines (skipping malformed ones, tracking an
/// explicit content-type and defaulting it to JSON when a body is
/// attached without one), and expands the body template with fresh
/// draws. Called once per shot, so repeated tokens across shots draw
/// independently.
pub fn prepare_request(args: &Args) -> (r: RequestPlan)
    ensures
        valid_method_token(upper_bytes(args.method@)) ==> r.method@ == upper_bytes(args.method@),
        !valid_method_token(upper_bytes(args.method@)) ==> r.method@ == get_method(),
        entries_view(r.headers@) == if args.body is Some && !has_content_type_entry(
            parsed_headers(views_of(args.headers@)),
        ) {
            parsed_headers(views_of(args.headers@)) + seq![
                (crate::headers::content_type_name(), crate::headers::json_content_type()),
            ]
        } else {
            parsed_headers(views_of(args.headers@))
        },
        r.body is Some <==> args.body is Some,
        args.body is Some ==> exists|draws: Seq<Seq<u8>>|
            #[trigger] draws_match(args.body->Some_0@, draws) && r.body->Some_0@ == expansion(
                args.body->Some_0@,
                draws,
            ),
{
    let method = normalize_method(&args.method);
    let plan: HeaderPlan = build_request_headers(&args.headers, args.body.is_some());
    let body = match &args.body {
        Some(template) => Some(process_payload(template)),
        None => None,
    };
    RequestPlan { method, headers: plan.entries, body }
}

} // verus!
