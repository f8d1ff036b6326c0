//! ORB: a relay/node bridging protocol, with its byte-level codecs and
//! the decisions of the relay and the node, verified with Verus.
pub mod text;
pub mod h264;
pub mod keyed;
pub mod message;
pub mod rtp;
pub mod ids;
pub mod io;
pub mod framing;
pub mod node;
pub mod config;
pub mod node_shadow;
pub mod webrtc;
pub mod bridge_manager;
pub mod bridge_stream;
pub mod http;
pub mod rtsp;
pub mod rtsp_flow;
