//! The HTTP announce: its request parameters and its decoded response.

use crate::error::EngineError;
use crate::text::{decimal, percent_encode, percent_encoded, push_char, push_decimal, u64_to_decimal};
use crate::tracker::AnnounceStats;
use url::Url;
use vstd::prelude::*;
use vstd::string::{StringExecFns, StringSliceAdditionalSpecFns};

verus! {

/// The status of an HTTP answer that carries a tracker's response.
pub const HTTP_OK: u16 = 200;

/// Seconds between announces where the tracker names no interval.
pub const DEFAULT_INTERVAL: u64 = 1800;

/// One peer of a tracker's response, as the tracker describes it.
#[derive(Clone, Debug)]
pub struct Peer {
    pub peer_id: Option<String>,
    pub ip: Option<String>,
    pub port: Option<u64>,
}

/// A tracker's decoded answer to an announce.
#[derive(Clone, Debug)]
pub struct HttpTrackerResponse {
    pub complete: Option<u64>,
    pub downloaded: Option<u64>,
    pub incomplete: Option<u64>,
    pub interval: Option<u64>,
    pub min_interval: Option<u64>,
    pub peers: Option<Vec<Peer>>,
}

/// The query parameters of an HTTP announce, each as the text that stands in
/// the query: `info_hash` and `peer_id` percent-encoded, the numbers in
/// decimal.
#[derive(Clone, Debug)]
pub struct HttpTrackerRquest {
    pub info_hash: String,
    pub peer_id: String,
    pub port: String,
    pub uploaded: String,
    pub downloaded: String,
    pub left: String,
    pub compact: String,
    pub event: String,
}

/// The query string of an announce: the eight parameters in their fixed
/// order, joined by `&`.
pub open spec fn query_of(r: HttpTrackerRquest) -> Seq<char> {
    "info_hash="@ + r.info_hash@ + "&peer_id="@ + r.peer_id@ + "&port="@ + r.port@ + "&uploaded="@
        + r.uploaded@ + "&downloaded="@ + r.downloaded@ + "&left="@ + r.left@ + "&compact="@
        + r.compact@ + "&event="@ + r.event@
}

/// The text of the `compact` parameter.
pub open spec fn compact_text(compact: bool) -> Seq<char> {
    if compact {
        "1"@
    } else {
        "0"@
    }
}

impl HttpTrackerRquest {
    /// A request of the given parameter texts.
    pub fn new(
        info_hash: String,
        peer_id: String,
        port: String,
        uploaded: String,
        downloaded: String,
        left: String,
        compact: String,
        event: String,
    ) -> (req: Self)
        ensures
            req == (HttpTrackerRquest {
                info_hash,
                peer_id,
                port,
                uploaded,
                downloaded,
                left,
                compact,
                event,
            }),
    {
        HttpTrackerRquest { info_hash, peer_id, port, uploaded, downloaded, left, compact, event }
    }

    /// The request that announces `stats` for the torrent named by
    /// `info_hash`, as peer `peer_id` listening on `port`.
    pub fn announce(
        info_hash: &[u8],
        peer_id: &[u8],
        port: u16,
        stats: &AnnounceStats,
        compact: bool,
    ) -> (req: Self)
        ensures
            req.info_hash@ == percent_encoded(info_hash@),
            req.peer_id@ == percent_encoded(peer_id@),
            req.port@ == decimal(port as nat),
            req.uploaded@ == decimal(stats.uploaded as nat),
            req.downloaded@ == decimal(stats.downloaded as nat),
            req.left@ == decimal(stats.left as nat),
            req.compact@ == compact_text(compact),
            req.event@ == stats.event.text(),
    {
        HttpTrackerRquest {
            info_hash: percent_encode(info_hash),
            peer_id: percent_encode(peer_id),
            port: u64_to_decimal(port as u64),
            uploaded: u64_to_decimal(stats.uploaded),
            downloaded: u64_to_decimal(stats.downloaded),
            left: u64_to_decimal(stats.left),
            compact: String::from_str(if compact { "1" } else { "0" }),
            event: String::from_str(stats.event.as_str()),
        }
    }

    /// The parameters as pairs of name and value, in their fixed order.
    pub fn to_request_params(&self) -> (params: Vec<(&'static str, String)>)
        ensures
            params@.len() == 8,
            params@[0].0@ == "info_hash"@ && params@[0].1@ == self.info_hash@,
            params@[1].0@ == "peer_id"@ && params@[1].1@ == self.peer_id@,
            params@[2].0@ == "port"@ && params@[2].1@ == self.port@,
            params@[3].0@ == "uploaded"@ && params@[3].1@ == self.uploaded@,
            params@[4].0@ == "downloaded"@ && params@[4].1@ == self.downloaded@,
            params@[5].0@ == "left"@ && params@[5].1@ == self.left@,
            params@[6].0@ == "compact"@ && params@[6].1@ == self.compact@,
            params@[7].0@ == "event"@ && params@[7].1@ == self.event@,
    {
        let mut params: Vec<(&'static str, String)> = Vec::new();
        params.push(("info_hash", self.info_hash.clone()));
        params.push(("peer_id", self.peer_id.clone()));
        params.push(("port", self.port.clone()));
        params.push(("uploaded", self.uploaded.clone()));
        params.push(("downloaded", self.downloaded.clone()));
        params.push(("left", self.left.clone()));
        params.push(("compact", self.compact.clone()));
        params.push(("event", self.event.clone()));
        params
    }

    /// The query string of the announce.
    pub fn to_query(&self) -> (query: String)
        ensures
            query@ == query_of(*self),
    {
        let mut q = String::new();
        q.append("info_hash=");
        q.append(self.info_hash.as_str());
        q.append("&peer_id=");
        q.append(self.peer_id.as_str());
        q.append("&port=");
        q.append(self.port.as_str());
        q.append("&uploaded=");
        q.append(self.uploaded.as_str());
        q.append("&downloaded=");
        q.append(self.downloaded.as_str());
        q.append("&left=");
        q.append(self.left.as_str());
        q.append("&compact=");
        q.append(self.compact.as_str());
        q.append("&event=");
        q.append(self.event.as_str());
        assert(q@ =~= query_of(*self));
        q
    }
}

/// Whether an HTTP answer is a tracker's well-formed response: status 200
/// and a body that decoded to a response with a peer list.
pub open spec fn well_formed(status: u16, body: Option<HttpTrackerResponse>) -> bool {
    status == HTTP_OK && body is Some && body.unwrap().peers is Some
}

/// Judges the answer to an HTTP announce. `body` is the decoded response,
/// or `None` where the body did not decode. Anything but a well-formed
/// response fails this URL, and only this URL.
pub fn interpret_response(status: u16, body: Option<HttpTrackerResponse>) -> (out: Result<
    HttpTrackerResponse,
    EngineError,
>)
    ensures
        out is Ok <==> well_formed(status, body),
        out matches Ok(r) ==> Some(r) == body,
        out matches Err(e) ==> e == EngineError::TrackerUnreachable,
{
    if status != HTTP_OK {
        return Err(EngineError::TrackerUnreachable);
    }
    match body {
        Some(r) => {
            if r.peers.is_some() {
                Ok(r)
            } else {
                Err(EngineError::TrackerUnreachable)
            }
        },
        None => Err(EngineError::TrackerUnreachable),
    }
}

/// Seconds to wait before the next periodic announce: the tracker's
/// `min interval` where it names one, else its `interval`, else
/// `DEFAULT_INTERVAL`. Never less than `min interval`.
pub open spec fn reannounce_delay(r: HttpTrackerResponse) -> u64 {
    if r.min_interval is Some {
        r.min_interval.unwrap()
    } else if r.interval is Some {
        r.interval.unwrap()
    } else {
        DEFAULT_INTERVAL
    }
}

impl HttpTrackerResponse {
    /// Seconds to wait before the next periodic announce.
    pub fn next_announce_in(&self) -> (secs: u64)
        ensures
            secs == reannounce_delay(*self),
            self.min_interval matches Some(m) ==> secs >= m,
    {
        match self.min_interval {
            Some(m) => m,
            None => match self.interval {
                Some(i) => i,
                None => DEFAULT_INTERVAL,
            },
        }
    }
}

/// The dotted text of an IPv4 address.
pub open spec fn dotted(a: u8, b: u8, c: u8, d: u8) -> Seq<char> {
    decimal(a as nat) + seq!['.'] + decimal(b as nat) + seq!['.'] + decimal(c as nat) + seq!['.']
        + decimal(d as nat)
}

/// Whether `peer` is what the `i`-th entry of a compact peer list says: an
/// IPv4 address in four bytes, then the port in two, big end first.
pub open spec fn is_compact_entry(bytes: Seq<u8>, i: int, peer: Peer) -> bool {
    &&& peer.peer_id is None
    &&& peer.ip is Some
    &&& peer.ip.unwrap()@ == dotted(bytes[6 * i], bytes[6 * i + 1], bytes[6 * i + 2], bytes[6 * i + 3])
    &&& peer.port is Some
    &&& peer.port.unwrap() == bytes[6 * i + 4] * 256 + bytes[6 * i + 5]
}

/// Reads a compact peer list: six bytes per peer. `None` where the bytes are
/// not a whole number of entries.
pub fn parse_compact_peers(bytes: &[u8]) -> (out: Option<Vec<Peer>>)
    ensures
        out is Some <==> bytes@.len() % 6 == 0,
        out matches Some(peers) ==> {
            &&& peers@.len() == bytes@.len() / 6
            &&& forall|i: int| 0 <= i < peers@.len() ==> is_compact_entry(bytes@, i, #[trigger] peers@[i])
        },
{
    if bytes.len() % 6 != 0 {
        return None;
    }
    let count = bytes.len() / 6;
    let mut peers: Vec<Peer> = Vec::new();
    let mut i: usize = 0;
    while i < count
        invariant
            6 * count == bytes@.len(),
            bytes@.len() <= usize::MAX,
            i <= count,
            peers@.len() == i,
            forall|k: int| 0 <= k < i ==> is_compact_entry(bytes@, k, #[trigger] peers@[k]),
        decreases count - i,
    {
        let mut ip = String::new();
        push_decimal(&mut ip, bytes[6 * i] as u64);
        push_char(&mut ip, '.');
        push_decimal(&mut ip, bytes[6 * i + 1] as u64);
        push_char(&mut ip, '.');
        push_decimal(&mut ip, bytes[6 * i + 2] as u64);
        push_char(&mut ip, '.');
        push_decimal(&mut ip, bytes[6 * i + 3] as u64);
        assert(ip@ =~= dotted(
            bytes@[6 * i],
            bytes@[6 * i + 1],
            bytes@[6 * i + 2],
            bytes@[6 * i + 3],
        ));
        let port: u64 = (bytes[6 * i + 4] as u64) * 256 + bytes[6 * i + 5] as u64;
        peers.push(Peer { peer_id: None, ip: Some(ip), port: Some(port) });
        i += 1;
    }
    Some(peers)
}

/// Bytes of base URL and query, the query counted three times, above which
/// no announce URL is built.
pub const URL_LIMIT: usize = 0x1000_0000;

/// The query string of a URL: `None` where the text is no absolute URL,
/// `Some(None)` where the URL has no query.
///
/// The URL is parsed by the `url` crate; this library does not model its
/// grammar.
pub uninterp spec fn url_query(base: Seq<char>) -> Option<Option<Seq<char>>>;

/// The text of a URL after its query string was replaced by `query`; `None`
/// where the text is no absolute URL.
///
/// The URL is parsed and written by the `url` crate; this library does not
/// model its grammar.
pub uninterp spec fn url_with_query(base: Seq<char>, query: Seq<char>) -> Option<Seq<char>>;

/// Trusted: calls `Url::parse` and `Url::query` of the `url` crate. The
/// contract names what they return for the text of `base` and claims no
/// more.
#[verifier::external_body]
pub(crate) fn existing_query(base: &str) -> (out: Option<Option<String>>)
    ensures
        out is Some <==> url_query(base@) is Some,
        out matches Some(q) ==> (q is Some <==> url_query(base@).unwrap() is Some),
        out matches Some(Some(q)) ==> q@ == url_query(base@).unwrap().unwrap(),
{
    match Url::parse(base) {
        Ok(url) => Some(url.query().map(String::from)),
        Err(_) => None,
    }
}

/// Trusted: calls `Url::parse` and `Url::set_query` of the `url` crate and
/// turns the URL into its text. The contract names what comes out for the
/// texts of `base` and `query` and claims no more. The lengths are bounded
/// because the crate does not hold URLs of 4 GB.
#[verifier::external_body]
pub(crate) fn attach_query(base: &str, query: &str) -> (out: Option<String>)
    requires
        base.spec_bytes().len() + 3 * query.spec_bytes().len() < URL_LIMIT,
    ensures
        out is Some <==> url_with_query(base@, query@) is Some,
        out matches Some(text) ==> text@ == url_with_query(base@, query@).unwrap(),
{
    match Url::parse(base) {
        Ok(mut url) => {
            url.set_query(Some(query));
            Some(String::from(url))
        },
        Err(_) => None,
    }
}

/// The query of an announce URL: the announce's own parameters, after the
/// parameters that the tracker's URL brings along, if any.
pub open spec fn merged_query(existing: Option<Seq<char>>, query: Seq<char>) -> Seq<char> {
    if existing is Some && existing.unwrap().len() > 0 {
        existing.unwrap() + seq!['&'] + query
    } else {
        query
    }
}

/// Joins the query that a tracker's URL brings along with the parameters
/// of an announce.
pub fn merge_query(existing: Option<&str>, query: &str) -> (out: String)
    ensures
        out@ == merged_query(
            match existing {
                Some(q) => Some(q@),
                None => None,
            },
            query@,
        ),
{
    let mut out = String::new();
    match existing {
        Some(q) => {
            if !q.is_empty() {
                out.append(q);
                push_char(&mut out, '&');
                out.append(query);
                assert(out@ =~= q@ + seq!['&'] + query@);
                return out;
            }
        },
        None => {},
    }
    out.append(query);
    assert(out@ =~= query@);
    out
}

/// The URL that an announce to the tracker at `base` is sent to: `base`
/// with the announce's parameters added to its query. `None` where `base` is
/// no absolute URL, or where `base` or the query is a quarter of `URL_LIMIT`
/// or longer.
pub open spec fn announce_url_of(base: Seq<char>, req: HttpTrackerRquest) -> Option<Seq<char>> {
    match url_query(base) {
        None => None,
        Some(existing) => {
            let merged = merged_query(existing, query_of(req));
            if vstd::utf8::encode_utf8(base).len() >= URL_LIMIT / 4 || vstd::utf8::encode_utf8(
                merged,
            ).len() >= URL_LIMIT / 4 {
                None
            } else {
                url_with_query(base, merged)
            }
        },
    }
}

/// Builds the URL that an announce to the tracker at `base` is sent to.
pub fn announce_url(base: &str, req: &HttpTrackerRquest) -> (out: Option<String>)
    ensures
        out is Some <==> announce_url_of(base@, *req) is Some,
        out matches Some(text) ==> text@ == announce_url_of(base@, *req).unwrap(),
{
    let query = req.to_query();
    let existing = match existing_query(base) {
        Some(existing) => existing,
        None => {
            return None;
        },
    };
    let merged = match &existing {
        Some(q) => merge_query(Some(q.as_str()), query.as_str()),
        None => merge_query(None, query.as_str()),
    };
    if base.as_bytes().len() >= URL_LIMIT / 4 || merged.as_str().as_bytes().len() >= URL_LIMIT
        / 4 {
        return None;
    }
    attach_query(base, merged.as_str())
}

} // verus!
