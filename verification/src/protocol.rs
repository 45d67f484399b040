//! The gossip wire protocol: list requests and list responses on the shared
//! topic, as JSON with an explicit discriminant (`{"type":"all"}` or
//! `{"type":"one","peer":"..."}`), so the wire shape is stable across
//! implementations. Payloads that do not belong to the request grammar are
//! not errors: the router ignores them.
use vstd::prelude::*;

use crate::codec::{
    enc_records, encode_records, esc, match_lit, match_lit_exec, parse_string_body,
    parse_string_body_exec, push_escaped,
};
use crate::record::{Record, RecordV, views};

verus! {

/// Whether a list request addresses everyone or one peer.
pub enum ListMode {
    All,
    One(String),
}

/// The mathematical image of a `ListMode`.
pub enum ListModeV {
    All,
    One(Seq<char>),
}

impl View for ListMode {
    type V = ListModeV;

    open spec fn view(&self) -> ListModeV {
        match self {
            ListMode::All => ListModeV::All,
            ListMode::One(p) => ListModeV::One(p@),
        }
    }
}

/// A list request sent over the gossip topic.
pub struct ListRequest {
    pub mode: ListMode,
}

pub struct ListRequestV {
    pub mode: ListModeV,
}

impl View for ListRequest {
    type V = ListRequestV;

    open spec fn view(&self) -> ListRequestV {
        ListRequestV { mode: self.mode@ }
    }
}

/// The reply to a list request: the records, addressed to the requester.
pub struct ListResponse {
    pub mode: ListMode,
    pub data: Vec<Record>,
    pub receiver: String,
}

pub struct ListResponseV {
    pub mode: ListModeV,
    pub data: Seq<RecordV>,
    pub receiver: Seq<char>,
}

impl View for ListResponse {
    type V = ListResponseV;

    open spec fn view(&self) -> ListResponseV {
        ListResponseV { mode: self.mode@, data: views(self.data@), receiver: self.receiver@ }
    }
}

pub open spec fn lit_type_all() -> Seq<char> {
    seq!['{', '"', 't', 'y', 'p', 'e', '"', ':', '"', 'a', 'l', 'l', '"', '}']
}

pub open spec fn lit_type_one() -> Seq<char> {
    seq![
        '{',
        '"',
        't',
        'y',
        'p',
        'e',
        '"',
        ':',
        '"',
        'o',
        'n',
        'e',
        '"',
        ',',
        '"',
        'p',
        'e',
        'e',
        'r',
        '"',
        ':',
        '"',
    ]
}

/// A mode on the wire.
pub open spec fn enc_mode(m: ListModeV) -> Seq<char> {
    match m {
        ListModeV::All => lit_type_all(),
        ListModeV::One(p) => lit_type_one() + esc(p) + seq!['"', '}'],
    }
}

/// A request on the wire is exactly its mode object.
pub open spec fn enc_request(r: ListRequestV) -> Seq<char> {
    enc_mode(r.mode)
}

/// Read a request: the whole payload must belong to the request grammar.
pub open spec fn parse_request(s: Seq<char>) -> Option<ListModeV> {
    if s == lit_type_all() {
        Some(ListModeV::All)
    } else {
        match match_lit(s, 0, lit_type_one()) {
            Some(j) => match parse_string_body(s, j) {
                Some(p) => if p.1 == s.len() - 1 && s[p.1] == '}' {
                    Some(ListModeV::One(p.0))
                } else {
                    None
                },
                None => None,
            },
            None => None,
        }
    }
}

/// The round trip for requests: the parser accepts every canonical mode
/// object and yields exactly the mode that was encoded, so a well-formed
/// request on the wire is never mistaken for noise.
pub proof fn lemma_parse_encode_request(m: ListModeV)
    ensures
        parse_request(enc_mode(m)) == Some(m),
{
    match m {
        ListModeV::All => {
        },
        ListModeV::One(p) => {
            let s = enc_mode(m);
            let w = lit_type_one().len() as int;
            let e = esc(p).len() as int;
            assert(s.len() == w + e + 2);
            assert(s != lit_type_all()) by {
                assert(s.len() >= 24);
            }
            assert(s.subrange(0, w) =~= lit_type_one());
            assert(match_lit(s, 0, lit_type_one()) == Some(w));
            assert forall|k: int| 0 <= k < e implies s[w + k] == esc(p)[k] by {
                assert(s[w + k] == (esc(p) + seq!['"', '}'])[k]);
            }
            assert(s[w + e] == '"') by {
                assert(s[w + e] == (esc(p) + seq!['"', '}'])[e]);
            }
            crate::codec::lemma_parse_string_encode(s, p, w);
            assert(parse_string_body(s, w) == Some((p, w + e + 1)));
            assert(s[w + e + 1] == '}') by {
                assert(s[w + e + 1] == (esc(p) + seq!['"', '}'])[e + 1]);
            }
        },
    }
}

/// Encode a list request for the gossip topic.
pub fn encode_request(req: &ListRequest) -> (out: String)
    ensures
        out@ == enc_request(req@),
{
    let mut out = String::new();
    match &req.mode {
        ListMode::All => {
            out.append("{\"type\":\"all\"}");
            proof {
                reveal_strlit("{\"type\":\"all\"}");
                assert(out@ =~= enc_request(req@));
            }
        },
        ListMode::One(p) => {
            out.append("{\"type\":\"one\",\"peer\":\"");
            proof {
                reveal_strlit("{\"type\":\"one\",\"peer\":\"");
                assert(out@ =~= lit_type_one());
            }
            push_escaped(&mut out, p.as_str());
            out.push('"');
            out.push('}');
            proof {
                assert(out@ =~= enc_request(req@));
            }
        },
    }
    out
}

/// Decode a gossip payload as a list request; anything else is `None`.
pub fn decode_request(s: &str) -> (r: Option<ListRequest>)
    ensures
        r matches Some(req) ==> parse_request(s@) == Some(req@.mode),
        r is None ==> parse_request(s@) is None,
{
    proof {
        reveal_strlit("{\"type\":\"all\"}");
        assert("{\"type\":\"all\"}"@ =~= lit_type_all());
        reveal_strlit("{\"type\":\"one\",\"peer\":\"");
        assert("{\"type\":\"one\",\"peer\":\""@ =~= lit_type_one());
    }
    let n = s.unicode_len();
    if n == 14 && match_lit_exec(s, n, 0, "{\"type\":\"all\"}").is_some() {
        proof {
            assert(s@.subrange(0, 14) =~= s@);
        }
        return Some(ListRequest { mode: ListMode::All });
    }
    proof {
        if s@ == lit_type_all() {
            assert(s@.subrange(0, 14) =~= lit_type_all());
        }
    }
    match match_lit_exec(s, n, 0, "{\"type\":\"one\",\"peer\":\"") {
        Some(j) => match parse_string_body_exec(s, n, j) {
            Some((p, k)) => {
                if k == n - 1 && s.get_char(k) == '}' {
                    Some(ListRequest { mode: ListMode::One(p) })
                } else {
                    None
                }
            },
            None => None,
        },
        None => None,
    }
}

pub open spec fn lit_resp_head() -> Seq<char> {
    seq![
        '{',
        '"',
        't',
        'y',
        'p',
        'e',
        '"',
        ':',
        '"',
        'r',
        'e',
        's',
        'p',
        'o',
        'n',
        's',
        'e',
        '"',
        ',',
        '"',
        'm',
        'o',
        'd',
        'e',
        '"',
        ':',
    ]
}

pub open spec fn lit_resp_receiver() -> Seq<char> {
    seq![',', '"', 'r', 'e', 'c', 'e', 'i', 'v', 'e', 'r', '"', ':', '"']
}

pub open spec fn lit_resp_data() -> Seq<char> {
    seq!['"', ',', '"', 'd', 'a', 't', 'a', '"', ':']
}

/// A response on the wire: discriminant, the request's mode, the receiver,
/// and the records.
pub open spec fn enc_response(r: ListResponseV) -> Seq<char> {
    lit_resp_head() + enc_mode(r.mode) + lit_resp_receiver() + esc(r.receiver) + lit_resp_data()
        + enc_records(r.data) + seq!['}']
}

/// Build the reply to a broadcast list request.
pub fn make_list_response(data: Vec<Record>, receiver: String) -> (r: ListResponse)
    ensures
        r@.mode is All,
        r@.data == views(data@),
        r@.receiver == receiver@,
{
    ListResponse { mode: ListMode::All, data, receiver }
}

/// Encode a list response for the gossip topic.
pub fn encode_response(resp: &ListResponse) -> (out: String)
    ensures
        out@ == enc_response(resp@),
{
    let mut out = String::new();
    out.append("{\"type\":\"response\",\"mode\":");
    proof {
        reveal_strlit("{\"type\":\"response\",\"mode\":");
        assert(out@ =~= lit_resp_head());
    }
    let mode_str = match &resp.mode {
        ListMode::All => encode_request(&ListRequest { mode: ListMode::All }),
        ListMode::One(p) => encode_request(&ListRequest { mode: ListMode::One(p.clone()) }),
    };
    out.append(mode_str.as_str());
    proof {
        assert(out@ =~= lit_resp_head() + enc_mode(resp@.mode));
    }
    out.append(",\"receiver\":\"");
    proof {
        reveal_strlit(",\"receiver\":\"");
        assert(out@ =~= lit_resp_head() + enc_mode(resp@.mode) + lit_resp_receiver());
    }
    push_escaped(&mut out, resp.receiver.as_str());
    out.append("\",\"data\":");
    proof {
        reveal_strlit("\",\"data\":");
        assert(out@ =~= lit_resp_head() + enc_mode(resp@.mode) + lit_resp_receiver() + esc(
            resp@.receiver,
        ) + lit_resp_data());
    }
    let body = encode_records(&resp.data);
    out.append(body.as_str());
    out.push('}');
    proof {
        assert(out@ =~= enc_response(resp@));
    }
    out
}

} // verus!
