use packets::codec::{PacketRead, PacketWrite};
use packets::error::CodecError;
use packets::packet::Packet;
use packets::stream::ByteStream;
use packets::varint::{read_varint, varint_size, write_varint};

fn test_on_stream(comp: bool) {
    let mut stream = ByteStream::new();

    let mut pack_in = Packet::new(42);
    for i in 10..20 {
        pack_in.write_var_int(i).expect("Write data");
    }
    stream.write_packet(&pack_in, comp).expect("Write packet");

    let mut pack_out = stream.read_packet(comp).expect("Read packet");

    assert_eq!(pack_in.id, pack_out.id);
    for i in 10..20 {
        assert_eq!(pack_out.read_var_int().expect("Read data"), i);
    }
}

#[test]
fn test_uncompressed() {
    test_on_stream(false);
}

#[test]
fn test_compressed() {
    test_on_stream(true);
}

#[test]
fn readme_write() {
    let mut my_stream = ByteStream::new();

    let mut packet = Packet::new(1);
    let _ = packet.write_var_int(42);

    let _ = my_stream.write_packet(&packet, false);
}

#[test]
fn readme_read() {
    let mut my_stream = ByteStream::new();

    let _packet = my_stream.read_packet(false);
}

fn round_trip(id: i32, payload: &[u8], comp: bool) -> Packet {
    let mut stream = ByteStream::new();
    let mut pack_in = Packet::new(id);
    pack_in.write(payload);
    stream.write_packet(&pack_in, comp).expect("Write packet");
    let pack_out = stream.read_packet(comp).expect("Read packet");
    assert_eq!(stream.len(), 0);
    pack_out
}

#[test]
fn zero_length_payload_plain() {
    let mut pack = round_trip(0, &[], false);
    assert_eq!(pack.id, 0);
    assert_eq!(pack.payload_len(), 0);
    assert_eq!(pack.read(16), Vec::<u8>::new());
}

#[test]
fn zero_length_payload_compressed() {
    let mut pack = round_trip(0, &[], true);
    assert_eq!(pack.id, 0);
    assert_eq!(pack.payload_len(), 0);
    assert_eq!(pack.read(16), Vec::<u8>::new());
}

#[test]
fn multi_byte_id_plain() {
    let mut pack = round_trip(300, &[7, 8, 9], false);
    assert_eq!(pack.id, 300);
    assert_eq!(pack.read(16), vec![7u8, 8, 9]);
}

#[test]
fn multi_byte_id_compressed() {
    let mut pack = round_trip(300, &[7, 8, 9], true);
    assert_eq!(pack.id, 300);
    assert_eq!(pack.read(16), vec![7u8, 8, 9]);
}

#[test]
fn negative_id_round_trip() {
    let pack = round_trip(-1, &[1, 2, 3], false);
    assert_eq!(pack.id, -1);
    let pack = round_trip(i32::MIN, &[5], true);
    assert_eq!(pack.id, i32::MIN);
    let pack = round_trip(i32::MAX, &[], false);
    assert_eq!(pack.id, i32::MAX);
}

#[test]
fn plain_frame_exact_bytes() {
    // id 0, empty payload: dataLength = 1, so the frame is [1, 0].
    let mut stream = ByteStream::new();
    let pack = Packet::new(0);
    let n = stream.write_packet(&pack, false).expect("Write packet");
    assert_eq!(n, 2);
    assert_eq!(stream.to_vec(), vec![1u8, 0]);

    // id 300 takes two bytes (0xAC 0x02); dataLength = 2 + 3 = 5.
    let mut stream = ByteStream::new();
    let mut pack = Packet::new(300);
    pack.write(&[7, 8, 9]);
    let n = stream.write_packet(&pack, false).expect("Write packet");
    assert_eq!(n, 6);
    assert_eq!(stream.to_vec(), vec![5u8, 0xAC, 0x02, 7, 8, 9]);
}

#[test]
fn varint_size_values() {
    assert_eq!(varint_size(0), 1);
    assert_eq!(varint_size(127), 1);
    assert_eq!(varint_size(128), 2);
    assert_eq!(varint_size(300), 2);
    assert_eq!(varint_size(16383), 2);
    assert_eq!(varint_size(16384), 3);
    assert_eq!(varint_size(i32::MAX), 5);
    assert_eq!(varint_size(-1), 5);
    assert_eq!(varint_size(i32::MIN), 5);
}

#[test]
fn varint_round_trip_on_stream() {
    let mut stream = ByteStream::new();
    for v in [0, 1, 127, 128, 300, -1, i32::MIN, i32::MAX] {
        write_varint(&mut stream, v);
    }
    for v in [0, 1, 127, 128, 300, -1, i32::MIN, i32::MAX] {
        assert_eq!(read_varint(&mut stream).expect("Read varint"), v);
    }
    assert_eq!(stream.len(), 0);
}

#[test]
fn length_prefix_counts_following_bytes() {
    for comp in [false, true] {
        let mut stream = ByteStream::new();
        let mut pack = Packet::new(42);
        pack.write(&[9, 9, 9, 9]);
        stream.write_packet(&pack, comp).expect("Write packet");
        let prefix = read_varint(&mut stream).expect("Read prefix");
        assert_eq!(prefix as usize, stream.len());
    }
}

#[test]
fn mismatched_flag_plain_read_as_compressed() {
    let mut stream = ByteStream::new();
    let mut pack = Packet::new(42);
    pack.write(&[1, 2, 3]);
    stream.write_packet(&pack, false).expect("Write packet");
    let r = stream.read_packet(true);
    assert_eq!(r.err(), Some(CodecError::Compression));
}

#[test]
fn underflow_guard_plain() {
    // packetLength 0, then id 300, whose encoding alone takes two bytes.
    let mut stream = ByteStream::new();
    stream.write_bytes(&[0x00, 0xAC, 0x02]);
    let r = stream.read_packet(false);
    assert_eq!(r.err(), Some(CodecError::Protocol));
}

#[test]
fn underflow_guard_compressed() {
    // packetLength 0, then dataLength 300, encoded in two bytes.
    let mut stream = ByteStream::new();
    stream.write_bytes(&[0x00, 0xAC, 0x02]);
    let r = stream.read_packet(true);
    assert_eq!(r.err(), Some(CodecError::Protocol));
}

#[test]
fn negative_length_prefix_is_protocol_failure() {
    let mut stream = ByteStream::new();
    write_varint(&mut stream, -1);
    stream.write_bytes(&[42]);
    let r = stream.read_packet(false);
    assert_eq!(r.err(), Some(CodecError::Protocol));
}

#[test]
fn truncated_frame_is_unexpected_end() {
    // Declares 4 payload bytes after a one-byte id but carries none.
    let mut stream = ByteStream::new();
    stream.write_bytes(&[5, 42]);
    let r = stream.read_packet(false);
    assert_eq!(r.err(), Some(CodecError::UnexpectedEnd));
}

#[test]
fn empty_stream_is_unexpected_end() {
    let mut stream = ByteStream::new();
    let r = stream.read_packet(false);
    assert_eq!(r.err(), Some(CodecError::UnexpectedEnd));
}

#[test]
fn overlong_varint_is_varint_failure() {
    let mut stream = ByteStream::new();
    stream.write_bytes(&[0x80, 0x80, 0x80, 0x80, 0x80, 0x01]);
    let r = stream.read_packet(false);
    assert_eq!(r.err(), Some(CodecError::Varint));
}

#[test]
fn corrupt_compressed_block_is_compression_failure() {
    // A compressed frame whose block is not a zlib stream: packetLength 4,
    // dataLength 1, then three junk bytes.
    let mut stream = ByteStream::new();
    stream.write_bytes(&[4, 1, 0xde, 0xad, 0xbe]);
    let r = stream.read_packet(true);
    assert_eq!(r.err(), Some(CodecError::Compression));
}

#[test]
fn declared_length_mismatch_is_protocol_failure() {
    // A well-formed zlib block whose declared uncompressed length is wrong
    // by one: the reader must reject it rather than trust either length.
    let mut content = ByteStream::new();
    write_varint(&mut content, 42);
    content.write_bytes(&[1, 2, 3]);
    let mut enc = libflate::zlib::Encoder::new(Vec::new()).expect("Encoder");
    std::io::Write::write_all(&mut enc, &content.to_vec()).expect("Compress");
    let block = enc.finish().into_result().expect("Finish");

    let mut stream = ByteStream::new();
    let wrong_data_length: i32 = 5;
    let packet_length: i32 = varint_size(wrong_data_length) as i32 + block.len() as i32;
    write_varint(&mut stream, packet_length);
    write_varint(&mut stream, wrong_data_length);
    stream.write_bytes(&block);
    let r = stream.read_packet(true);
    assert_eq!(r.err(), Some(CodecError::Protocol));
}

#[test]
fn packet_payload_reads_in_write_order() {
    let mut pack = Packet::new(7);
    assert_eq!(pack.write(&[1, 2, 3]), 3);
    assert_eq!(pack.write(&[4, 5]), 2);
    pack.flush();
    assert_eq!(pack.read(2), vec![1u8, 2]);
    assert_eq!(pack.read(10), vec![3u8, 4, 5]);
    assert_eq!(pack.read(10), Vec::<u8>::new());
}

#[test]
fn write_packet_returns_exact_count() {
    for comp in [false, true] {
        let mut stream = ByteStream::new();
        let mut pack = Packet::new(-42);
        pack.write(&[0, 1, 2, 3, 4, 5, 6, 7]);
        let n = stream.write_packet(&pack, comp).expect("Write packet");
        assert_eq!(n, stream.len());
    }
}
