use shar::address::{
    address_of, receiver_transport, sender_transport, DecoderId, Host, IpAddress, Resolution, SocketAddress,
    StreamError, Transport,
};
use shar::signaling::NewViewer;
use shar::style::Theme;
use shar::capture::{set_opaque, CaptureDisplay, DisplayId};

#[test]
fn scheme_dispatch() {
    assert_eq!(sender_transport("tcp"), Ok(Transport::Tcp));
    assert_eq!(sender_transport("rtp"), Ok(Transport::Rtp));
    assert_eq!(sender_transport("rtsp"), Ok(Transport::Rtsp));
    assert_eq!(sender_transport("udp"), Err(StreamError::UnsupportedProtocol("udp".to_string())));
    assert_eq!(receiver_transport("tcp"), Ok(Transport::Tcp));
    assert_eq!(receiver_transport("rtsp"), Err(StreamError::UnsupportedProtocol("rtsp".to_string())));
}

#[test]
fn resolution_defaults() {
    assert_eq!(
        address_of(Host::Missing, None),
        Resolution::Address(SocketAddress { ip: IpAddress::V4(0x7f000001), port: 1337 })
    );
    assert_eq!(
        address_of(Host::Ip(IpAddress::V4(0x0a000001)), Some(9000)),
        Resolution::Address(SocketAddress { ip: IpAddress::V4(0x0a000001), port: 9000 })
    );
    assert_eq!(
        address_of(Host::Domain("example.com".to_string()), None),
        Resolution::Lookup("example.com".to_string(), 1337)
    );
}

#[test]
fn captured_pixels_become_opaque() {
    let mut pixels = vec![1, 2, 3, 4, 5, 6, 7, 8, 9];
    set_opaque(&mut pixels);
    assert_eq!(pixels, vec![1, 2, 3, 255, 5, 6, 7, 255, 9]);
    let display = CaptureDisplay { id: DisplayId::Index(1), fps: 50 };
    assert_eq!(display.period_nanos(), 20_000_000);
}

#[test]
fn small_types() {
    assert_eq!(Theme::default(), Theme::Dark);
    assert_eq!(Theme::all(), [Theme::Light, Theme::Dark]);
    assert_eq!(DecoderId::Ffmpeg, DecoderId::Ffmpeg);
    assert_ne!(DisplayId::Primary, DisplayId::Index(0));
    let viewer = NewViewer { stream_id: "s1".to_string(), destination: "rtp://1.2.3.4:5".to_string() };
    assert_eq!(viewer.clone(), viewer);
}
