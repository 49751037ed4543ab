use dns_decoder::byte_packet::BytePacketBuffer;
use dns_decoder::error::DecodeError;

#[test]
fn byte_packer_returns_empty_buffer() {
    let byte_packet = BytePacketBuffer::new();
    let byte_packet_emptry = BytePacketBuffer { buf: [0; 512], position: 0 };
    assert_eq!(byte_packet.buf, byte_packet_emptry.buf);
    assert_eq!(byte_packet.position, byte_packet_emptry.position);
}

#[test]
fn byte_packer_func_pos_return_position_propertie() {
    let byte_packet = BytePacketBuffer::new();
    assert_eq!(byte_packet.pos(), byte_packet.position);
}

#[test]
fn byte_packer_func_step_increment_one_in_buff_position() {
    let mut byte_packet = BytePacketBuffer::new();
    let return_of_step = byte_packet.step(2);

    assert_eq!(byte_packet.pos(), 2);
    assert_eq!(return_of_step, Ok(()));
}

#[test]
fn byte_packer_func_step_return_err_if_steps_bigger_then_array() {
    let mut byte_packet = BytePacketBuffer::new();
    let return_of_step = byte_packet.step(byte_packet.buf.len() + 1);

    assert_eq!(return_of_step, Err(DecodeError::OutOfBounds));
    assert_eq!(byte_packet.pos(), 0);
}

#[test]
fn byte_packet_returns_empty_buffer() {
    let byte_packet = BytePacketBuffer::new();
    let byte_packet_emptry = BytePacketBuffer { buf: [0; 512], position: 0 };
    assert_eq!(byte_packet.buf, byte_packet_emptry.buf);
    assert_eq!(byte_packet.position, byte_packet_emptry.position);
}

#[test]
fn byte_packet_func_pos_return_position_propertie() {
    let byte_packet = BytePacketBuffer::new();
    assert_eq!(byte_packet.pos(), byte_packet.position);
}

#[test]
fn byte_packet_func_step_increment_one_in_buff_position() {
    let mut byte_packet = BytePacketBuffer::new();
    let return_of_step = byte_packet.step(2);

    assert_eq!(byte_packet.pos(), 2);
    assert_eq!(return_of_step, Ok(()));
}

#[test]
fn byte_packet_func_step_return_err_if_steps_bigger_then_array() {
    let mut byte_packet = BytePacketBuffer::new();
    let return_of_step = byte_packet.step(byte_packet.buf.len() + 1);

    assert_eq!(return_of_step, Err(DecodeError::OutOfBounds));
    assert_eq!(byte_packet.pos(), 0);
}

#[test]
fn func_seek_should_change_buf_pos() {
    let mut byte_packet = BytePacketBuffer::new();
    let result = byte_packet.seek(8);

    assert_eq!(result, Ok(()));
    assert_eq!(byte_packet.pos(), 8);
}

#[test]
fn func_seek_should_not_change_pos_if_bugger_than_buff_length() {
    let mut byte_packet = BytePacketBuffer::new();
    let buf_length = byte_packet.buf.len();

    let result = byte_packet.seek(buf_length + 1);

    assert_eq!(result, Err(DecodeError::OutOfBounds));
    assert_eq!(byte_packet.pos(), 0);
}

#[test]
fn func_read_should_return_the_buf_data_in_position_index_and_jump_one_step_forward() {
    let mut byte_packet = BytePacketBuffer::new();
    let old_position = byte_packet.pos();
    let result = byte_packet.read();

    assert_eq!(result, Ok(0));
    assert_eq!(byte_packet.pos(), old_position + 1);
}

#[test]
fn func_read_should_err_if_cant_got_one_step_forward() {
    let mut byte_packet = BytePacketBuffer::new();
    byte_packet.seek(512).ok().unwrap_or(());
    let result = byte_packet.read();
    let old_position = byte_packet.pos();

    assert_eq!(result, Err(DecodeError::OutOfBounds));
    assert_eq!(byte_packet.pos(), old_position);
}

#[test]
fn func_get_return_current_data_in_buf_pos() {
    let mut byte_packet = BytePacketBuffer::new();
    let result = byte_packet.get(0);

    assert_eq!(result, Ok(byte_packet.buf[0]));
}

#[test]
fn func_get_range_should_return_range_of_bytes() {
    let mut byte_packet = BytePacketBuffer::new();
    let result = byte_packet.get_range(0, 100);
    let fake_array: [u8; 100] = [0; 100];

    assert_eq!(result.expect("returns a array of selected range").len(), 100);
    assert_eq!(result.expect("returns a range of selected range"), fake_array);
}

#[test]
fn func_get_range_should_return_err_if_range_is_bigger_than_buf_size() {
    let mut byte_packet = BytePacketBuffer::new();
    let result = byte_packet.get_range(0, byte_packet.buf.len() + 1);

    assert_eq!(result, Err(DecodeError::OutOfBounds));
}

#[test]
fn advance_split_reaches_capacity_exactly() {
    let mut byte_packet = BytePacketBuffer::new();
    assert_eq!(byte_packet.step(100), Ok(()));
    assert_eq!(byte_packet.step(512 - 100), Ok(()));
    assert_eq!(byte_packet.pos(), 512);

    let mut fresh = BytePacketBuffer::new();
    assert_eq!(fresh.step(513), Err(DecodeError::OutOfBounds));
    assert_eq!(fresh.pos(), 0);
}

#[test]
fn seek_to_capacity_is_allowed() {
    let mut byte_packet = BytePacketBuffer::new();
    assert_eq!(byte_packet.seek(512), Ok(()));
    assert_eq!(byte_packet.pos(), 512);
}

#[test]
fn read_u16_is_big_endian() {
    let mut byte_packet = BytePacketBuffer::new();
    byte_packet.buf[0] = 0x12;
    byte_packet.buf[1] = 0x34;
    assert_eq!(byte_packet.read_u16(), Ok(0x1234));
    assert_eq!(byte_packet.pos(), 2);
}

#[test]
fn read_u16_fails_past_end_and_rests_at_capacity() {
    let mut byte_packet = BytePacketBuffer::new();
    byte_packet.seek(511).expect("within capacity");
    assert_eq!(byte_packet.read_u16(), Err(DecodeError::OutOfBounds));
    assert_eq!(byte_packet.pos(), 512);
}

#[test]
fn read_u32_is_big_endian() {
    let mut byte_packet = BytePacketBuffer::new();
    byte_packet.buf[0] = 0x12;
    byte_packet.buf[1] = 0x34;
    byte_packet.buf[2] = 0x56;
    byte_packet.buf[3] = 0x78;
    assert_eq!(byte_packet.read_u32(), Ok(0x12345678));
    assert_eq!(byte_packet.pos(), 4);
}
