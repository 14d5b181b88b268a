//! The request side of a fetch, and what `catch` computes around it:
//! the endpoint, the authorization header, the JSON request body, and
//! the texts produced from a fetched response. The network call itself
//! happens outside the library, which only hands it these plain values.

use vstd::prelude::*;
use crate::codec::{enc_str, dec_spec, enc_notes, append_json_str, append_u32, encode_notes};
use crate::model::Note;
use crate::model::views_of;
use crate::render::{blocks_of, render_notes_styled};

verus! {

/// One fetch of antenna notes: the antenna, a result limit, and the two
/// date bounds, both fixed at zero, meaning "no bound".
pub struct FetchRequest {
    pub antenna_id: String,
    pub limit: u32,
    pub since_date: u32,
    pub until_date: u32,
}

/// The fixed endpoint the request is posted to.
pub fn api_url() -> (r: String)
    ensures
        r@ == "https://misskey.io/api/antennas/notes"@,
{
    String::from_str("https://misskey.io/api/antennas/notes")
}

/// The authorization header value for a bearer token.
pub open spec fn bearer_spec(token: Seq<char>) -> Seq<char> {
    "Bearer "@ + token
}

/// Builds the `Authorization` header value: `Bearer ` and the token.
pub fn bearer_header(token: &str) -> (r: String)
    ensures
        r@ == bearer_spec(token@),
{
    let mut out = String::from_str("Bearer ");
    out.append(token);
    out
}

/// The antenna to fetch: the explicit override where one was given, the
/// configured identifier otherwise.
pub fn choose_antenna_id(override_id: Option<String>, config_id: String) -> (r: String)
    ensures
        override_id matches Some(id) ==> r@ == id@,
        override_id is None ==> r@ == config_id@,
{
    match override_id {
        Some(id) => id,
        None => config_id,
    }
}

/// The JSON body of a fetch request.
pub open spec fn request_body_spec(id: Seq<char>, limit: int, since: int, until: int) -> Seq<char> {
    "{\"antennaId\":"@ + enc_str(id)
        + ",\"limit\":"@ + dec_spec(limit)
        + ",\"sinceDate\":"@ + dec_spec(since)
        + ",\"untilDate\":"@ + dec_spec(until)
        + "}"@
}

impl FetchRequest {
    /// Builds the request for one antenna: the given limit, no date
    /// bounds.
    pub fn new(antenna_id: String, limit: u32) -> (r: FetchRequest)
        ensures
            r.antenna_id@ == antenna_id@,
            r.limit == limit,
            r.since_date == 0,
            r.until_date == 0,
    {
        FetchRequest { antenna_id, limit, since_date: 0, until_date: 0 }
    }

    /// Builds the JSON body the endpoint is posted: the antenna
    /// identifier, the limit, and the two date bounds, in that order.
    pub fn body(&self) -> (r: String)
        ensures
            r@ == request_body_spec(self.antenna_id@, self.limit as int,
                self.since_date as int, self.until_date as int),
    {
        let mut out = String::from_str("{\"antennaId\":");
        append_json_str(&mut out, self.antenna_id.as_str());
        out.append(",\"limit\":");
        append_u32(&mut out, self.limit);
        out.append(",\"sinceDate\":");
        append_u32(&mut out, self.since_date);
        out.append(",\"untilDate\":");
        append_u32(&mut out, self.until_date);
        out.append("}");
        proof {
            assert(out@ =~= request_body_spec(self.antenna_id@, self.limit as int,
                self.since_date as int, self.until_date as int));
        }
        out
    }
}

/// What `catch` produces from a fetched response: the text that replaces
/// the cache file, and, where showing was asked for, the printed blocks.
pub struct CatchOutput {
    pub cache_text: String,
    pub shown: Option<Vec<String>>,
}

/// Computes everything `catch` writes or prints from the notes a fetch
/// returned: the cache text is the encoding of exactly these notes, and
/// the blocks to print are produced exactly when `show` asks for them.
pub fn process_response(notes: &Vec<Note>, show: bool) -> (r: CatchOutput)
    ensures
        r.cache_text@ == enc_notes(views_of(notes@)),
        show <==> r.shown is Some,
        r.shown matches Some(blocks) ==> blocks_of(blocks@, views_of(notes@)),
{
    let cache_text = encode_notes(notes);
    let shown = if show {
        Some(render_notes_styled(notes))
    } else {
        None
    };
    CatchOutput { cache_text, shown }
}

} // verus!
