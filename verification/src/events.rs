//! Events exchanged between the engine's systems and over the network.
use vstd::prelude::*;
use crate::chunk::{Block, ChunkData};
use crate::geometry::{BlockLocation, ChunkLocation};
use crate::render_distance::RenderDistance;

verus! {

/// Asks for the chunk at a location to be generated or loaded.
#[derive(Debug, PartialEq, Eq, Structural)]
pub struct ChunkGenRequestEvent(pub ChunkLocation);

/// A chunk that was generated or loaded.
#[derive(Debug)]
pub struct ChunkGenEvent(pub ChunkData);

/// A block of the world was replaced.
#[derive(Debug, PartialEq, Eq, Structural)]
pub struct BlockUpdateEvent(pub BlockLocation, pub Block);

/// The server asks a client for its information.
#[derive(Debug, PartialEq, Eq, Structural)]
pub struct ClientInformationRequestEvent;

/// The server asks a client for its settings.
#[derive(Debug, PartialEq, Eq, Structural)]
pub struct ClientSettingsRequestEvent;

/// A client reports its settings.
#[derive(Debug, PartialEq, Eq, Structural)]
pub struct ClientSettingsUpdateEvent(pub RenderDistance);

/// A client asks to join.
#[derive(Debug, PartialEq, Eq, Structural)]
pub struct ConnectionRequest;

/// The server accepted a client.
#[derive(Debug, PartialEq, Eq, Structural)]
pub struct ConnectionSuccess;

/// A client asks the server for a chunk.
#[derive(Debug, PartialEq, Eq, Structural)]
pub struct ClientChunkRequest(pub ChunkLocation);

/// Keeps a connection open.
#[derive(Debug, PartialEq, Eq, Structural)]
pub struct KeepAlive;

/// The server removed the client, with a reason.
#[derive(Debug)]
pub struct KickedByServer(pub String);

/// The server asks a client for its render distance.
#[derive(Debug, PartialEq, Eq, Structural)]
pub struct RenderDistanceRequestEvent;

/// A client reports its render distance.
#[derive(Debug, PartialEq, Eq, Structural)]
pub struct RenderDistanceUpdateEvent(pub RenderDistance);

/// Events of one kind collected for one entity.
#[derive(Debug)]
pub struct EventBus<T>(pub Vec<T>);

impl<T> Default for EventBus<T> {
    /// An empty bus.
    fn default() -> (b: EventBus<T>)
        ensures
            b.0@.len() == 0,
    {
        EventBus(Vec::new())
    }
}

impl ClientChunkRequest {
    /// The network request for the chunk a generation request asks for.
    pub fn from_gen_request(evt: ChunkGenRequestEvent) -> (r: ClientChunkRequest)
        ensures
            r.0 == evt.0,
    {
        ClientChunkRequest(evt.0)
    }
}

impl ChunkGenRequestEvent {
    /// The generation request for the chunk a network request asks for.
    pub fn from_client_request(evt: ClientChunkRequest) -> (r: ChunkGenRequestEvent)
        ensures
            r.0 == evt.0,
    {
        ChunkGenRequestEvent(evt.0)
    }
}

} // verus!
