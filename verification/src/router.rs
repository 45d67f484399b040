//! The event router's decisions: one multiplexed event in, one action out.
//! The surrounding runtime waits for whichever source is ready, hands the
//! event here, performs the returned action, and loops; no decision lives
//! outside this function.
use vstd::prelude::*;

use crate::protocol::{decode_request, parse_request, ListMode, ListModeV};

verus! {

/// What this node knows about itself: its peer identifier and the gossip
/// topic it serves. Built once at startup and passed along explicitly.
pub struct NodeContext {
    pub peer_id: String,
    pub topic: String,
}

pub struct NodeContextV {
    pub peer_id: Seq<char>,
    pub topic: Seq<char>,
}

impl View for NodeContext {
    type V = NodeContextV;

    open spec fn view(&self) -> NodeContextV {
        NodeContextV { peer_id: self.peer_id@, topic: self.topic@ }
    }
}

/// One multiplexed event, as the runtime observes it.
pub enum NetEvent {
    /// A new command connection is ready to be accepted.
    ConnectionReady,
    /// Discovery reports a peer reachable on the local network.
    Discovered(String),
    /// Discovery reports a peer gone.
    Expired(String),
    /// A message arrived on the gossip topic.
    Gossip { source: String, payload: String },
    /// The shutdown signal.
    Shutdown,
}

pub enum NetEventV {
    ConnectionReady,
    Discovered(Seq<char>),
    Expired(Seq<char>),
    Gossip { source: Seq<char>, payload: Seq<char> },
    Shutdown,
}

impl View for NetEvent {
    type V = NetEventV;

    open spec fn view(&self) -> NetEventV {
        match self {
            NetEvent::ConnectionReady => NetEventV::ConnectionReady,
            NetEvent::Discovered(p) => NetEventV::Discovered(p@),
            NetEvent::Expired(p) => NetEventV::Expired(p@),
            NetEvent::Gossip { source, payload } => NetEventV::Gossip {
                source: source@,
                payload: payload@,
            },
            NetEvent::Shutdown => NetEventV::Shutdown,
        }
    }
}

/// What the runtime must do next.
pub enum RouterAction {
    /// Spawn an independent handler for the new connection.
    SpawnHandler,
    /// Add the peer to the gossip mesh view.
    AddPeer(String),
    /// Remove the peer from the gossip mesh view.
    RemovePeer(String),
    /// Load the store and send the full record list to the requester.
    RespondAllRecords { requester: String },
    /// A list request addressed to this node alone: note it, nothing more.
    NoteDirectedRequest { requester: String },
    /// Not a message of interest; do nothing and keep looping.
    Ignore,
    /// Leave the event loop.
    Stop,
}

pub enum RouterActionV {
    SpawnHandler,
    AddPeer(Seq<char>),
    RemovePeer(Seq<char>),
    RespondAllRecords { requester: Seq<char> },
    NoteDirectedRequest { requester: Seq<char> },
    Ignore,
    Stop,
}

impl View for RouterAction {
    type V = RouterActionV;

    open spec fn view(&self) -> RouterActionV {
        match self {
            RouterAction::SpawnHandler => RouterActionV::SpawnHandler,
            RouterAction::AddPeer(p) => RouterActionV::AddPeer(p@),
            RouterAction::RemovePeer(p) => RouterActionV::RemovePeer(p@),
            RouterAction::RespondAllRecords { requester } => RouterActionV::RespondAllRecords {
                requester: requester@,
            },
            RouterAction::NoteDirectedRequest { requester } => RouterActionV::NoteDirectedRequest {
                requester: requester@,
            },
            RouterAction::Ignore => RouterActionV::Ignore,
            RouterAction::Stop => RouterActionV::Stop,
        }
    }
}

/// The routing table in one place: what each event demands. A gossip
/// payload outside the request grammar is ignored, never an error.
pub open spec fn route_spec(ctx: NodeContextV, ev: NetEventV) -> RouterActionV {
    match ev {
        NetEventV::ConnectionReady => RouterActionV::SpawnHandler,
        NetEventV::Discovered(p) => RouterActionV::AddPeer(p),
        NetEventV::Expired(p) => RouterActionV::RemovePeer(p),
        NetEventV::Gossip { source, payload } => match parse_request(payload) {
            Some(ListModeV::All) => RouterActionV::RespondAllRecords { requester: source },
            Some(ListModeV::One(target)) => if target == ctx.peer_id {
                RouterActionV::NoteDirectedRequest { requester: source }
            } else {
                RouterActionV::Ignore
            },
            None => RouterActionV::Ignore,
        },
        NetEventV::Shutdown => RouterActionV::Stop,
    }
}

/// Decide what one event demands. Handles exactly one event; never blocks,
/// never fails, whatever the payload holds.
pub fn route_event(ctx: &NodeContext, ev: NetEvent) -> (a: RouterAction)
    ensures
        a@ == route_spec(ctx@, ev@),
{
    match ev {
        NetEvent::ConnectionReady => RouterAction::SpawnHandler,
        NetEvent::Discovered(p) => RouterAction::AddPeer(p),
        NetEvent::Expired(p) => RouterAction::RemovePeer(p),
        NetEvent::Gossip { source, payload } => match decode_request(payload.as_str()) {
            Some(req) => match req.mode {
                ListMode::All => RouterAction::RespondAllRecords { requester: source },
                ListMode::One(target) => {
                    if string_eq(&target, &ctx.peer_id) {
                        RouterAction::NoteDirectedRequest { requester: source }
                    } else {
                        RouterAction::Ignore
                    }
                },
            },
            None => RouterAction::Ignore,
        },
        NetEvent::Shutdown => RouterAction::Stop,
    }
}

/// Two strings hold the same characters.
pub fn string_eq(a: &String, b: &String) -> (r: bool)
    ensures
        r <==> a@ == b@,
{
    a.eq(b)
}

/// A well-formed request is never dropped: a broadcast request makes the
/// router answer with the full record list, and a directed request reaches
/// exactly the node it names.
pub proof fn lemma_router_answers_requests(
    ctx: NodeContextV,
    source: Seq<char>,
    m: crate::protocol::ListModeV,
)
    ensures
        m is All ==> route_spec(
            ctx,
            NetEventV::Gossip { source, payload: crate::protocol::enc_mode(m) },
        ) == (RouterActionV::RespondAllRecords { requester: source }),
        forall|target: Seq<char>|
            m == ListModeV::One(target) ==> route_spec(
                ctx,
                NetEventV::Gossip { source, payload: crate::protocol::enc_mode(m) },
            ) == if target == ctx.peer_id {
                RouterActionV::NoteDirectedRequest { requester: source }
            } else {
                RouterActionV::Ignore
            },
{
    crate::protocol::lemma_parse_encode_request(m);
}

} // verus!
