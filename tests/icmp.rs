use pingoc::icmp::buffer::{PacketBuffer, PacketBufferError};
use pingoc::icmp::packet::IcmpPacket;
use pingoc::icmp::types::{IcmpContentType, IcmpType};

#[test]
fn icmp_buffer_grows_on_write() {
    let mut b = PacketBuffer::new();
    b.write(1).unwrap();
    b.write_u16(0x0203).unwrap();
    b.write_u32(0x04050607).unwrap();
    b.write_u64(0x08090A0B0C0D0E0F).unwrap();
    b.write_bytes(&[0x10, 0x11]).unwrap();
    assert_eq!(b.buffer, (1u8..=0x11).collect::<Vec<u8>>());
    assert_eq!(b.pos, 17);
    b.seek(1).unwrap();
    b.write(0xFF).unwrap();
    assert_eq!(b.buffer[1], 0xFF);
    assert_eq!(b.buffer.len(), 17);
}

#[test]
fn icmp_buffer_reads() {
    let mut b = PacketBuffer { buffer: (0u8..16).collect(), pos: 0 };
    assert_eq!(b.read(), Ok(0));
    assert_eq!(b.read_u16(), Ok(0x0102));
    assert_eq!(b.read_u32(), Ok(0x03040506));
    assert_eq!(b.read_u64(), Ok(0x0708090A0B0C0D0E));
    assert_eq!(b.read_u16(), Err(PacketBufferError::EndOfBuffer));
    assert_eq!(b.pos, 15);
    assert_eq!(b.read_bytes(1), Ok(vec![15]));
    assert_eq!(b.get(3), Ok(3));
    assert_eq!(b.get(16), Err(PacketBufferError::EndOfBuffer));
    assert_eq!(b.get_bytes(14, 2).unwrap(), &[14, 15]);
    assert_eq!(b.get_bytes(15, 2), Err(PacketBufferError::EndOfBuffer));
    assert_eq!(b.seek(16), Err(PacketBufferError::PositionOutOfBounds(16)));
}

#[test]
fn icmp_type_codes() {
    assert_eq!(IcmpType::from_u8(8), IcmpType::EchoRequest);
    assert_eq!(IcmpType::from_u8(0), IcmpType::EchoReply);
    assert_eq!(IcmpType::from_u8(99), IcmpType::Unknown);
    assert_eq!(IcmpType::TimeExceeded.to_u8(), 11);
    assert_eq!(IcmpType::Unknown.to_u8(), 17);
}

#[test]
fn icmp_content_words() {
    let c = IcmpContentType::new(IcmpType::EchoRequest, 0x0001_0002);
    assert_eq!(c, IcmpContentType::Echo { id: 1, sequence_no: 2 });
    assert_eq!(c.to_u32(), 0x0001_0002);
    let p = IcmpContentType::new(IcmpType::ParameterProblem, 0x0A12_3456);
    assert_eq!(p, IcmpContentType::ParameterProblem { pointer: 0x0A, unused: 0x12_3456 });
    assert_eq!(p.to_u32(), 0x0A12_3456);
    let r = IcmpContentType::new(IcmpType::Redirect, 0xC0A8_0001);
    assert_eq!(r.to_u32(), 0xC0A8_0001);
}

#[test]
fn echo_request_bytes_and_checksum() {
    let mut p = IcmpPacket::echo_request(0x1234, 1, 4);
    let mut b = PacketBuffer::new();
    p.write(&mut b).unwrap();
    // type 8, code 0, checksum, id 0x1234, seq 1, four zero bytes
    // sum = 0x0800 + 0x1234 + 0x0001 = 0x1A35; checksum = !0x1A35 = 0xE5CA
    assert_eq!(b.buffer, vec![8, 0, 0xE5, 0xCA, 0x12, 0x34, 0, 1, 0, 0, 0, 0]);
    assert_eq!(p.checksum, 0xE5CA);
    assert_eq!(p.calculate_checksum(&b), 0);
}

#[test]
fn checksum_folds_carries_and_pads_odd_bytes() {
    let p = IcmpPacket::default();
    let b = PacketBuffer { buffer: vec![0xFF, 0xFF, 0x00, 0x02, 0x01], pos: 0 };
    // 0xFFFF + 0x0002 = 0x10001 -> 0x0002; + 0x0100 = 0x0102; !0x0102 = 0xFEFD
    assert_eq!(p.calculate_checksum(&b), 0xFEFD);
}

#[test]
fn icmp_read_back() {
    let mut p = IcmpPacket::echo_request(7, 9, 3);
    let mut b = PacketBuffer::new();
    p.write(&mut b).unwrap();
    b.buffer[0] = 0;
    b.seek(0).unwrap();
    let back = IcmpPacket::read(&mut b).unwrap();
    assert_eq!(back.msg_type, IcmpType::EchoReply);
    assert_eq!(back.content, IcmpContentType::Echo { id: 7, sequence_no: 9 });
    assert_eq!(back.payload, vec![0, 0, 0]);
    assert_eq!(back.checksum, p.checksum);
}

#[test]
fn icmp_read_rejects_unknown_type_and_short_input() {
    let mut b = PacketBuffer { buffer: vec![42, 0, 0, 0, 0, 0, 0, 0], pos: 0 };
    assert_eq!(IcmpPacket::read(&mut b).map(|_| ()), Err(PacketBufferError::UnknownMessageType(42)));
    let mut short = PacketBuffer { buffer: vec![8, 0, 0], pos: 0 };
    assert_eq!(IcmpPacket::read(&mut short).map(|_| ()), Err(PacketBufferError::EndOfBuffer));
}

#[test]
fn default_packet() {
    let p = IcmpPacket::default();
    assert_eq!(p.msg_type, IcmpType::EchoRequest);
    assert_eq!(p.content, IcmpContentType::Echo { id: 1, sequence_no: 1 });
    assert_eq!(p.payload.len(), 32);
}
