//! The framing of i3 IPC messages.

use vstd::prelude::*;
use crate::error::{DockError, IpcError, IpcErrorKind};
use crate::number;
use crate::text;

verus! {

/// Message type: run a command.
pub const MSG_RUN_COMMAND: u32 = 0;

/// Message type: subscribe to events.
pub const MSG_SUBSCRIBE: u32 = 2;

/// Message type: list the outputs.
pub const MSG_GET_OUTPUTS: u32 = 3;

/// Message type: the tree of outputs, workspaces and containers.
pub const MSG_GET_TREE: u32 = 4;

/// What each message begins with: `i3-ipc`.
pub const I3_IPC_MAGIC: [u8; 6] = [0x69, 0x33, 0x2d, 0x69, 0x70, 0x63];

/// The magic, the length and the type.
pub const HEADER_SIZE: usize = 14;

/// Maximum IPC response payload size (100MB safety cap).
pub const MAX_PAYLOAD_SIZE: usize = 100_000_000;

/// `n` as four bytes, the least significant first.
pub open spec fn le_bytes(n: u32) -> Seq<u8> {
    seq![
        (n % 256) as u8,
        (n / 256 % 256) as u8,
        (n / 65536 % 256) as u8,
        (n / 16777216) as u8,
    ]
}

/// The number of which `s` are the four bytes, the least significant first.
pub open spec fn le_value(s: Seq<u8>) -> int {
    s[0] + 256 * s[1] + 65536 * s[2] + 16777216 * s[3]
}

/// A message as it goes over the socket.
pub open spec fn message(msg_type: u32, payload: Seq<u8>) -> Seq<u8> {
    I3_IPC_MAGIC@ + le_bytes(payload.len() as u32) + le_bytes(msg_type) + payload
}

/// The header begins with the magic and announces no more than the cap.
pub open spec fn header_ok(header: Seq<u8>) -> bool {
    header.take(6) == I3_IPC_MAGIC@ && le_value(header.subrange(6, 10)) <= MAX_PAYLOAD_SIZE
}

proof fn lemma_le_bytes(n: u32)
    ensures
        le_value(le_bytes(n)) == n,
{
}

/// The header of an encoded message gives back its length and type.
pub proof fn message_round_trip(msg_type: u32, payload: Seq<u8>)
    requires
        payload.len() <= MAX_PAYLOAD_SIZE,
    ensures
        ({
            let whole = message(msg_type, payload);
            let header = whole.take(HEADER_SIZE as int);
            &&& header_ok(header)
            &&& le_value(header.subrange(6, 10)) == payload.len()
            &&& le_value(header.subrange(10, 14)) == msg_type
            &&& whole.skip(HEADER_SIZE as int) == payload
        }),
{
    let whole = message(msg_type, payload);
    let header = whole.take(14);
    lemma_le_bytes(payload.len() as u32);
    lemma_le_bytes(msg_type);
    assert(header.take(6) == I3_IPC_MAGIC@);
    assert(header.subrange(6, 10) == le_bytes(payload.len() as u32));
    assert(header.subrange(10, 14) == le_bytes(msg_type));
    assert(whole.skip(14) == payload);
}

fn push_le_bytes(out: &mut Vec<u8>, n: u32)
    ensures
        final(out)@ == old(out)@ + le_bytes(n),
{
    out.push((n % 256) as u8);
    out.push((n / 256 % 256) as u8);
    out.push((n / 65536 % 256) as u8);
    out.push((n / 16777216) as u8);
}

/// Encodes a message: the header, and the payload behind it.
pub fn encode_message(msg_type: u32, payload: &[u8]) -> (r: Vec<u8>)
    ensures
        r@ == message(msg_type, payload@),
{
    let mut out: Vec<u8> = Vec::new();
    text::push_all(&mut out, I3_IPC_MAGIC.as_slice());
    push_le_bytes(&mut out, payload.len() as u32);
    push_le_bytes(&mut out, msg_type);
    text::push_all(&mut out, payload);
    out
}

fn read_le_bytes(bytes: &[u8; 14], from: usize) -> (r: u32)
    requires
        from <= 10,
    ensures
        r == le_value(bytes@.subrange(from as int, from + 4)),
{
    let low: u32 = bytes[from] as u32 + 256 * (bytes[from + 1] as u32);
    low + 65536 * (bytes[from + 2] as u32) + 16777216 * (bytes[from + 3] as u32)
}

/// Decodes a header: how many bytes of payload follow, and the type of the
/// message. For event subscriptions the type has bit 31 set.
pub fn decode_header(header: &[u8; 14]) -> (r: Result<(usize, u32), DockError>)
    ensures
        match r {
            Ok((len, msg_type)) => header_ok(header@) && len == le_value(header@.subrange(6, 10))
                && msg_type == le_value(header@.subrange(10, 14)),
            Err(DockError::Ipc(e)) => if header@.take(6) != I3_IPC_MAGIC@ {
                e.is(IpcErrorKind::InvalidData, "invalid i3-ipc magic in response"@)
            } else {
                !header_ok(header@) && e.is(
                    IpcErrorKind::InvalidData,
                    "IPC payload too large: "@ + number::int_text(
                        le_value(header@.subrange(6, 10)),
                    ) + " bytes"@,
                )
            },
            Err(_) => false,
        },
{
    let mut i: usize = 0;
    while i < 6
        invariant
            i <= 6,
            header@.take(i as int) == I3_IPC_MAGIC@.take(i as int),
        decreases 6 - i,
    {
        if header[i] != I3_IPC_MAGIC[i] {
            assert(header@.take(6)[i as int] != I3_IPC_MAGIC@[i as int]);
            return Err(
                DockError::Ipc(
                    IpcError::new(
                        IpcErrorKind::InvalidData,
                        "invalid i3-ipc magic in response".to_owned(),
                    ),
                ),
            );
        }
        assert(header@.take(i as int + 1) == header@.take(i as int).push(header@[i as int]));
        assert(I3_IPC_MAGIC@.take(i as int + 1) == I3_IPC_MAGIC@.take(i as int).push(
            I3_IPC_MAGIC@[i as int],
        ));
        i += 1;
    }
    assert(I3_IPC_MAGIC@.take(6) == I3_IPC_MAGIC@);
    let payload_len: usize = read_le_bytes(header, 6) as usize;
    let msg_type: u32 = read_le_bytes(header, 10);
    if payload_len > MAX_PAYLOAD_SIZE {
        let mut text = "IPC payload too large: ".to_owned();
        text.append(number::u64_text(payload_len as u64).as_str());
        text.append(" bytes");
        return Err(DockError::Ipc(IpcError::new(IpcErrorKind::InvalidData, text)));
    }
    Ok((payload_len, msg_type))
}

/// A message is the six letters of the protocol, the length of the payload and the
/// type, each in four bytes with the least significant first, and the payload.
pub proof fn messages_are_laid_out_in_order(msg_type: u32, payload: &[u8], r: Vec<u8>)
    requires
        call_ensures(encode_message, (msg_type, payload), r),
        payload@.len() <= u32::MAX,
    ensures
        r@.len() == 14 + payload@.len(),
        r@[0] == 'i' as u8 && r@[1] == '3' as u8 && r@[2] == '-' as u8 && r@[3] == 'i' as u8
            && r@[4] == 'p' as u8 && r@[5] == 'c' as u8,
        r@[6] + 256 * r@[7] + 65536 * r@[8] + 16777216 * r@[9] == payload@.len(),
        r@[10] + 256 * r@[11] + 65536 * r@[12] + 16777216 * r@[13] == msg_type,
        r@.skip(14) == payload@,
{
    let len = payload@.len() as u32;
    lemma_le_bytes(len);
    lemma_le_bytes(msg_type);
    let whole = message(msg_type, payload@);
    assert(I3_IPC_MAGIC@.len() == 6);
    assert(forall|i: int| 0 <= i < 6 ==> whole[i] == I3_IPC_MAGIC@[i]);
    assert(forall|i: int| 0 <= i < 4 ==> whole[6 + i] == le_bytes(len)[i]);
    assert(forall|i: int| 0 <= i < 4 ==> whole[10 + i] == le_bytes(msg_type)[i]);
    assert(whole[6] == le_bytes(len)[0] && whole[7] == le_bytes(len)[1] && whole[8] == le_bytes(
        len,
    )[2] && whole[9] == le_bytes(len)[3]);
    assert(whole[10] == le_bytes(msg_type)[0] && whole[11] == le_bytes(msg_type)[1] && whole[12]
        == le_bytes(msg_type)[2] && whole[13] == le_bytes(msg_type)[3]);
    assert(whole.skip(14) == payload@);
    assert(whole[0] == I3_IPC_MAGIC@[0] && whole[1] == I3_IPC_MAGIC@[1] && whole[2]
        == I3_IPC_MAGIC@[2] && whole[3] == I3_IPC_MAGIC@[3] && whole[4] == I3_IPC_MAGIC@[4]
        && whole[5] == I3_IPC_MAGIC@[5]);
}

/// A header is read as the length and the type in its bytes. It is refused exactly
/// where it does not begin with the letters of the protocol, or announces more than
/// a hundred million bytes.
pub proof fn headers_are_read_in_order(header: [u8; 14], r: Result<(usize, u32), DockError>)
    requires
        call_ensures(decode_header, (&header,), r),
    ensures
        ({
            let len = header@[6] + 256 * header@[7] + 65536 * header@[8] + 16777216 * header@[9];
            let magic = header@[0] == 'i' as u8 && header@[1] == '3' as u8 && header@[2]
                == '-' as u8 && header@[3] == 'i' as u8 && header@[4] == 'p' as u8 && header@[5]
                == 'c' as u8;
            &&& r is Ok <==> magic && len <= 100_000_000
            &&& r matches Ok((n, msg_type)) ==> n == len && msg_type == header@[10] + 256
                * header@[11] + 65536 * header@[12] + 16777216 * header@[13]
        }),
{
    let start = header@.take(6);
    assert(I3_IPC_MAGIC@.len() == 6);
    assert(start[0] == header@[0] && start[1] == header@[1] && start[2] == header@[2] && start[3]
        == header@[3] && start[4] == header@[4] && start[5] == header@[5]);
    if header@[0] == 'i' as u8 && header@[1] == '3' as u8 && header@[2] == '-' as u8 && header@[3]
        == 'i' as u8 && header@[4] == 'p' as u8 && header@[5] == 'c' as u8 {
        assert(start == I3_IPC_MAGIC@);
    }
    let size = header@.subrange(6, 10);
    let kind = header@.subrange(10, 14);
    assert(size[0] == header@[6] && size[1] == header@[7] && size[2] == header@[8] && size[3]
        == header@[9]);
    assert(kind[0] == header@[10] && kind[1] == header@[11] && kind[2] == header@[12] && kind[3]
        == header@[13]);
}

} // verus!
