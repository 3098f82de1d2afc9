use vstd::prelude::*;
use vstd::string::StringExecFns;
use crate::torrent::Torrent;

verus! {

/// The header in which the daemon hands out its session id, and in which
/// every later request must echo it.
pub const SESSION_ID_HEADER: &'static str = "X-Transmission-Session-Id";

/// The status with which the daemon answers a request that lacks the
/// session id.
pub const STATUS_CONFLICT: u16 = 409;

/// The body of the `session-get` call.
pub const SESSION_GET_BODY: &'static str = "{\"method\":\"session-get\"}";

/// The answer to `session-get`.
pub struct Session {
    pub arguments: Arguments,
}

/// The part of the `session-get` answer that is read.
pub struct Arguments {
    pub download_dir: String,
}

impl Session {
    /// The daemon's default download directory, the root of the traversal.
    pub fn download_dir(&self) -> (r: &str)
        ensures
            r@ == self.arguments.download_dir@,
    {
        self.arguments.download_dir.as_str()
    }
}

/// A call of the daemon's RPC interface.
pub struct Request {
    pub method: &'static str,
    pub arguments: Torrent,
}

impl Request {
    /// The `torrent-add` call for `torrent`.
    pub fn torrent_add(torrent: Torrent) -> (r: Request)
        ensures
            r.method@ == "torrent-add"@,
            r.arguments == torrent,
    {
        proof {
            reveal_strlit("torrent-add");
        }
        Request { method: "torrent-add", arguments: torrent }
    }
}

/// The credentials for basic authentication, if any.
#[derive(Clone, Debug)]
pub struct Authentication {
    pub username: Option<String>,
    pub password: Option<String>,
}

/// A user name and password for basic authentication.
pub struct Credentials {
    pub username: String,
    pub password: String,
}

impl Authentication {
    /// The user name and password to send, present only when both are set.
    pub fn credentials(&self) -> (r: Option<Credentials>)
        ensures
            r is Some <==> (self.username is Some && self.password is Some),
            r is Some ==> r->0.username@ == self.username->0@ && r->0.password@
                == self.password->0@,
    {
        match (&self.username, &self.password) {
            (Some(u), Some(p)) => Some(Credentials { username: u.clone(), password: p.clone() }),
            _ => None,
        }
    }
}

/// The text that an optional string holds, if any.
pub open spec fn opt_view(o: Option<String>) -> Option<Seq<char>> {
    match o {
        Some(s) => Some(s@),
        None => None,
    }
}

/// The session id that the probe's answer hands out: the header's value
/// where the status is a conflict, and none otherwise.
pub open spec fn token_of(status: u16, header: Option<Seq<char>>) -> Option<Seq<char>> {
    if status == STATUS_CONFLICT {
        header
    } else {
        None
    }
}

/// The session id to keep from the probe's answer, given its status and the
/// value of its session id header, if it had one.
pub fn session_token(status: u16, header: Option<String>) -> (r: Option<String>)
    ensures
        opt_view(r) == token_of(status, opt_view(header)),
{
    if status == STATUS_CONFLICT {
        header
    } else {
        None
    }
}

/// The headers that every request after the probe carries.
pub open spec fn headers_of(token: Option<Seq<char>>) -> Seq<(Seq<char>, Seq<char>)> {
    match token {
        Some(t) => seq![(SESSION_ID_HEADER@, t)],
        None => Seq::empty(),
    }
}

/// The pairs of names and values that `h` holds.
pub open spec fn header_pairs(h: Seq<(String, String)>) -> Seq<(Seq<char>, Seq<char>)> {
    h.map_values(|p: (String, String)| (p.0@, p.1@))
}

/// The default headers of the client used after the probe.
pub fn default_headers(token: &Option<String>) -> (r: Vec<(String, String)>)
    ensures
        header_pairs(r@) == headers_of(opt_view(*token)),
{
    let mut r: Vec<(String, String)> = Vec::new();
    match token {
        Some(t) => {
            r.push((String::from_str(SESSION_ID_HEADER), t.clone()));
            assert(header_pairs(r@) =~= headers_of(opt_view(*token)));
        },
        None => {
            assert(header_pairs(r@) =~= headers_of(opt_view(*token)));
        },
    }
    r
}

/// Where the probe is answered with a conflict that carries a session id,
/// the headers of every later request hold that id under the same header
/// name.
pub proof fn lemma_session_id_echoed(status: u16, header: Option<String>, token: Option<String>, headers: Seq<(String, String)>)
    requires
        status == STATUS_CONFLICT,
        header is Some,
        opt_view(token) == token_of(status, opt_view(header)),
        header_pairs(headers) == headers_of(opt_view(token)),
    ensures
        header_pairs(headers).contains((SESSION_ID_HEADER@, header->0@)),
{
    assert(header_pairs(headers)[0] == (SESSION_ID_HEADER@, header->0@));
}

/// Why the daemon did not add a torrent.
#[derive(Debug)]
pub struct Rejected {
    pub result: String,
}

/// The answer to `torrent-add`.
pub struct TorrentAddResponse {
    pub result: String,
}

impl TorrentAddResponse {
    /// `Ok` exactly where the daemon reports success.
    pub fn check(self) -> (r: Result<(), Rejected>)
        ensures
            r is Ok <==> self.result@ == "success"@,
            r is Err ==> r->Err_0.result == self.result,
    {
        let success = String::from_str("success");
        proof {
            reveal_strlit("success");
        }
        if self.result == success {
            Ok(())
        } else {
            Err(Rejected { result: self.result })
        }
    }
}

} // verus!
