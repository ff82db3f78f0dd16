use shar::codec::{Decoder, Encoder, Frame, Unit as _};
use shar::null::{Null, Unit};
use shar::tcp::{frame, Clients, Receiver};
use tokio::io::{AsyncReadExt, AsyncWriteExt};

fn solid(index: u8) -> Frame {
    let mut pixels = Vec::new();
    for _ in 0..16 {
        pixels.extend_from_slice(&[index, index, index, 255]);
    }
    Frame { width: 4, height: 4, pixels }
}

#[test]
fn ten_frames_over_a_byte_stream_keep_order() {
    let runtime = tokio::runtime::Runtime::new().unwrap();
    runtime.block_on(async {
        // an in-memory duplex pipe stands in for the TCP connection
        let (mut server_end, mut stream) = tokio::io::duplex(1024);
        let sender = tokio::spawn(async move {
            let mut clients = Clients::new();
            let id = clients.accept().unwrap();
            let mut encoder = Null;
            for index in 0..10u8 {
                let mut units = Vec::new();
                encoder.encode(solid(index), &mut units).unwrap();
                for unit in units {
                    if clients.recipients(unit.is_idr()).contains(&id) {
                        server_end.write_all(&frame(unit.data())).await.unwrap();
                    }
                }
            }
        });

        let mut bytes = Vec::new();
        stream.read_to_end(&mut bytes).await.unwrap();
        sender.await.unwrap();

        let mut receiver = Receiver::new();
        receiver.feed(&bytes);
        let mut decoder = Null;
        let mut frames = Vec::new();
        let mut keyframes = 0;
        while let Ok(Some(payload)) = receiver.next_frame() {
            let unit = Unit::from_packet(&payload);
            if unit.is_idr() {
                keyframes += 1;
            }
            decoder.decode(unit, &mut frames).unwrap();
        }
        assert_eq!(frames.len(), 10);
        assert_eq!(keyframes, 10);
        for (index, frame) in frames.iter().enumerate() {
            assert_eq!((frame.width, frame.height), (4, 4));
            assert_eq!(frame.pixels[0], index as u8);
        }
    });
}
