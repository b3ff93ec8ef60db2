//! Decisions of the remote client: endpoint bases, the single-retry rule on
//! an unauthorized response, token rotation, and pagination stepping. The
//! HTTP transport itself runs outside and follows these decisions.
use vstd::prelude::*;
use vstd::string::*;
use crate::strutil::{trim_trailing, trim_trailing_char};
use crate::types::SupabaseAuth;

verus! {

/// The REST base: the store URL without trailing slashes, then `/rest/v1`.
pub fn rest_base(auth: &SupabaseAuth) -> (r: String)
    ensures
        r@ == trim_trailing(auth.supabase_url@, '/') + "/rest/v1"@,
{
    let mut s = trim_trailing_char(auth.supabase_url.as_str(), '/');
    s.append("/rest/v1");
    s
}

/// The token-refresh endpoint.
pub fn refresh_url(supabase_url: &str) -> (r: String)
    ensures
        r@ == trim_trailing(supabase_url@, '/') + "/auth/v1/token?grant_type=refresh_token"@,
{
    let mut s = trim_trailing_char(supabase_url, '/');
    s.append("/auth/v1/token?grant_type=refresh_token");
    s
}

/// What to do after the first response of a request.
pub enum AfterResponse {
    /// Hand the response to the parser; no further attempt is made.
    UseResponse,
    /// Refresh the access token once and resend the request once; the
    /// second response is handed to the parser unconditionally.
    RefreshAndRetry,
}

/// How many refresh attempts (each paired with one resend) a decision asks
/// for.
pub open spec fn spec_refresh_count(r: AfterResponse) -> int {
    match r {
        AfterResponse::UseResponse => 0,
        AfterResponse::RefreshAndRetry => 1,
    }
}

/// The retry rule: exactly a `401 Unauthorized` first response triggers the
/// refresh-and-retry path; anything else is final.
pub fn after_first_response(status: u16) -> (r: AfterResponse)
    ensures
        r is RefreshAndRetry <==> status == 401,
        spec_refresh_count(r) == if status == 401 {
            1int
        } else {
            0int
        },
{
    if status == 401 {
        AfterResponse::RefreshAndRetry
    } else {
        AfterResponse::UseResponse
    }
}

/// Law: a request makes at most one refresh attempt and one resend, and
/// makes that one exactly when the first response was a 401. The decision
/// type has no second retry state, so no sequence of responses can ask for
/// more.
pub proof fn lemma_refresh_once(r: AfterResponse, status: u16)
    requires
        r is RefreshAndRetry <==> status == 401,
    ensures
        0 <= spec_refresh_count(r) <= 1,
        spec_refresh_count(r) == 1 <==> status == 401,
{
}

/// A refresh needs the stored refresh token; without one the request fails
/// with this message and nothing is retried.
pub fn refresh_precheck(auth: &SupabaseAuth) -> (r: Result<String, String>)
    ensures
        match r {
            Ok(t) => auth.refresh_token is Some && t@ == auth.refresh_token.unwrap()@,
            Err(e) => auth.refresh_token is None && e@ == "missing refresh_token (cannot refresh)"@,
        },
{
    match &auth.refresh_token {
        Some(t) => Ok(t.clone()),
        None => {
            let mut e = String::new();
            e.append("missing refresh_token (cannot refresh)");
            proof {
                assert(e@ =~= "missing refresh_token (cannot refresh)"@);
            }
            Err(e)
        },
    }
}

/// Installs the tokens of a successful refresh: the access token is
/// replaced, the refresh token only when the server rotated it.
pub fn apply_refresh(auth: &mut SupabaseAuth, access_token: String, refresh_token: Option<String>)
    ensures
        final(auth).access_token@ == access_token@,
        match refresh_token {
            Some(t) => final(auth).refresh_token is Some
                && final(auth).refresh_token.unwrap()@ == t@,
            None => final(auth).refresh_token == old(auth).refresh_token,
        },
        final(auth).supabase_url == old(auth).supabase_url,
        final(auth).supabase_anon_key == old(auth).supabase_anon_key,
        final(auth).owner_id == old(auth).owner_id,
{
    auth.access_token = access_token;
    if let Some(t) = refresh_token {
        auth.refresh_token = Some(t);
    }
}

/// Pagination step: after a page of `got` rows read at `offset`, the next
/// page starts one page further — only when the page came back full and the
/// next offset still fits.
pub fn next_page_offset(got: usize, page_limit: usize, offset: usize) -> (r: Option<usize>)
    ensures
        match r {
            Some(o) => got >= page_limit && o == offset + page_limit,
            None => got < page_limit || offset + page_limit > usize::MAX,
        },
{
    if got < page_limit {
        None
    } else if offset <= usize::MAX - page_limit {
        Some(offset + page_limit)
    } else {
        None
    }
}

/// The bulk-fetch cutoff: enumeration stops once the offset passes this
/// bound, capping the rows any single enumeration reads.
pub fn paging_exhausted(offset: usize) -> (r: bool)
    ensures
        r == (offset > 200000),
{
    offset > 200000
}

/// The filter value `eq.<v>` of a column equality query.
pub fn eq_filter(v: &str) -> (r: String)
    ensures
        r@ == "eq."@ + v@,
{
    let mut s = String::new();
    s.append("eq.");
    s.append(v);
    proof {
        assert(s@ =~= "eq."@ + v@);
    }
    s
}

/// The filter value `gt.<v>` of a column range query.
pub fn gt_filter(v: &str) -> (r: String)
    ensures
        r@ == "gt."@ + v@,
{
    let mut s = String::new();
    s.append("gt.");
    s.append(v);
    proof {
        assert(s@ =~= "gt."@ + v@);
    }
    s
}

/// The filter value `in.(<a>,<b>,…)` of a column membership query.
pub fn in_filter(ids: &Vec<String>) -> (r: String)
    ensures
        r@ == "in.("@ + crate::strutil::join_with(ids@.map_values(|x: String| x@), ","@) + ")"@,
{
    let mut s = String::new();
    s.append("in.(");
    let joined = crate::strutil::join_parts(ids, ",");
    s.append(joined.as_str());
    s.append(")");
    proof {
        assert(s@ =~= "in.("@ + crate::strutil::join_with(ids@.map_values(|x: String| x@), ","@)
            + ")"@);
    }
    s
}

/// Validation shared by the engine entry points: a missing vault or project
/// mismatch stops the call before any remote work.
pub fn check_project_match(mapping_project: &str, project_folder_id: &str) -> (r: Result<
    (),
    String,
>)
    ensures
        match r {
            Ok(_) => mapping_project@ == project_folder_id@,
            Err(e) => mapping_project@ != project_folder_id@ && e@
                == "mapping project_folder_id mismatch"@,
        },
{
    if crate::strutil::str_eq(mapping_project, project_folder_id) {
        Ok(())
    } else {
        let mut e = String::new();
        e.append("mapping project_folder_id mismatch");
        proof {
            assert(e@ =~= "mapping project_folder_id mismatch"@);
        }
        Err(e)
    }
}

/// The rejection of a call on a vault that does not exist on disk.
pub fn vault_missing_error() -> (r: String)
    ensures
        r@ == "vault_path does not exist"@,
{
    let mut e = String::new();
    e.append("vault_path does not exist");
    proof {
        assert(e@ =~= "vault_path does not exist"@);
    }
    e
}

} // verus!
