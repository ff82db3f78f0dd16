//! Screen streaming core: H.264 RTP (de)packetization, wire formats,
//! length-prefixed framing, RTSP request handling and pixel conversion.

pub mod fragment;
pub mod packetizer;
pub mod depacketizer;
pub mod rtp_packet;
pub mod rtp_sender;
pub mod rtp_receiver;
pub mod address;
pub mod tcp;
pub mod stun;
pub mod rtsp;
pub mod color;
pub mod codec;
pub mod null;
pub mod backend;
pub mod capture;
pub mod signaling;
pub mod style;
