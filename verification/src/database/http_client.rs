//! Settings of the HTTP client that downloads the game database, and what
//! an answer of the server turns into. The requests themselves are made by
//! the program around the library.
use vstd::prelude::*;

verus! {

/// Where the database is downloaded from, and the client's limits.
pub struct HttpConfig {
    pub base_url: String,
    pub endpoint: String,
    pub user_agent: String,
    pub timeout: std::time::Duration,
    pub connect_timeout: std::time::Duration,
    pub max_retries: u32,
}

/// The answer to a download: the body, the entity tag the server sent, and
/// the status code.
pub struct DatabaseResponse {
    pub data: Vec<u8>,
    pub etag: Option<String>,
    pub status: u16,
}

/// What the download makes of an answer with `status`: a 200 keeps its body
/// and entity tag; a 304 ("not modified") has neither; any other status is
/// an error that carries it.
pub fn response_for(status: u16, data: Vec<u8>, etag: Option<String>) -> (r: Result<DatabaseResponse, u16>)
    ensures
        status == 200 ==> (r matches Ok(d) && d.status == 200 && d.data@ == data@ && d.etag == etag),
        status == 304 ==> (r matches Ok(d) && d.status == 304 && d.data@.len() == 0 && d.etag is None),
        status != 200 && status != 304 ==> r == Err::<DatabaseResponse, u16>(status),
{
    if status == 200 {
        Ok(DatabaseResponse { data, etag, status })
    } else if status == 304 {
        Ok(DatabaseResponse { data: Vec::new(), etag: None, status })
    } else {
        Err(status)
    }
}

} // verus!
