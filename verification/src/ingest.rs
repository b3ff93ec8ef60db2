//! Decisions of the knowledge-base ingest command: input validation, the
//! endpoint, and the cursor-advance rule of its paging loop.
use vstd::prelude::*;
use vstd::string::*;
use crate::strutil::{
    is_blank, spec_decimal, spec_is_blank, str_concat, trim_trailing, trim_trailing_char,
    u32_to_string,
};
use crate::types::RagIngestRequest;

verus! {

/// Why an ingest request is refused, if it is.
pub open spec fn ingest_rejection(
    api_base_url: Seq<char>,
    project_folder_id: Seq<char>,
    access_token: Seq<char>,
) -> Option<Seq<char>> {
    if spec_is_blank(api_base_url) {
        Some("api_base_url is required"@)
    } else if spec_is_blank(project_folder_id) {
        Some("project_folder_id is required"@)
    } else if spec_is_blank(access_token) {
        Some("access_token is required"@)
    } else {
        None
    }
}

/// Validates an ingest request; on success returns the base URL with
/// trailing slashes removed.
pub fn validate_ingest_request(req: &RagIngestRequest) -> (r: Result<String, String>)
    ensures
        match r {
            Ok(base) => ingest_rejection(
                req.api_base_url@,
                req.project_folder_id@,
                req.access_token@,
            ) is None && base@ == trim_trailing(req.api_base_url@, '/'),
            Err(e) => ingest_rejection(
                req.api_base_url@,
                req.project_folder_id@,
                req.access_token@,
            ) == Some(e@),
        },
{
    if is_blank(req.api_base_url.as_str()) {
        let mut e = String::new();
        e.append("api_base_url is required");
        proof {
            assert(e@ =~= "api_base_url is required"@);
        }
        return Err(e);
    }
    if is_blank(req.project_folder_id.as_str()) {
        let mut e = String::new();
        e.append("project_folder_id is required");
        proof {
            assert(e@ =~= "project_folder_id is required"@);
        }
        return Err(e);
    }
    if is_blank(req.access_token.as_str()) {
        let mut e = String::new();
        e.append("access_token is required");
        proof {
            assert(e@ =~= "access_token is required"@);
        }
        return Err(e);
    }
    Ok(trim_trailing_char(req.api_base_url.as_str(), '/'))
}

/// The ingest endpoint under the validated base.
pub fn ingest_url(base: &str) -> (r: String)
    ensures
        r@ == base@ + "/api/rag/ingest-jwt"@,
{
    str_concat(base, "/api/rag/ingest-jwt")
}

/// What the paging loop does after one successful response.
pub enum IngestStep {
    /// The server reported completion: return the last response.
    Finish,
    /// The server did not advance the cursor: stop with an error rather
    /// than loop forever.
    Stalled,
    /// Continue from the advanced cursor.
    Continue(u32),
}

/// The cursor-advance rule: done ends the loop; a cursor that failed to
/// advance stalls it; otherwise the loop continues from the new cursor.
pub fn ingest_step(cursor: u32, done: bool, next_cursor: u32) -> (r: IngestStep)
    ensures
        done ==> r is Finish,
        !done && next_cursor <= cursor ==> r is Stalled,
        !done && next_cursor > cursor ==> r == IngestStep::Continue(next_cursor),
{
    if done {
        IngestStep::Finish
    } else if next_cursor <= cursor {
        IngestStep::Stalled
    } else {
        IngestStep::Continue(next_cursor)
    }
}

/// The message reported when the server stops advancing.
pub fn ingest_stalled_error(cursor: u32) -> (r: String)
    ensures
        r@ == "RAG ingest stalled at cursor "@ + spec_decimal(cursor as int),
{
    let mut s = String::new();
    s.append("RAG ingest stalled at cursor ");
    let num = u32_to_string(cursor);
    s.append(num.as_str());
    proof {
        assert(s@ =~= "RAG ingest stalled at cursor "@ + spec_decimal(cursor as int));
    }
    s
}

} // verus!
