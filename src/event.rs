use vstd::prelude::*;

verus! {

/// Tag of a transfer notification payload; any other leading byte is an
/// event of another kind.
pub const TRANSFER_NOTIFICATION_TAG: u8 = 0;
/// Length in bytes of the recipient key fingerprint.
pub const KEY_LEN: usize = 48;
/// Length of a notification header: the tag and the key fingerprint.
pub const HEADER_LEN: usize = 1 + KEY_LEN;
/// Length of a transfer frame header: the kind byte and a big-endian length.
pub const FRAME_HEADER_LEN: usize = 5;
/// Frame kind of an encrypted transfer.
pub const ENCRYPTED_KIND: u8 = 0;
/// Frame kind of a network royalty transfer.
pub const ROYALTY_KIND: u8 = 1;

/// A transfer as broadcast on the network.
#[derive(Debug)]
pub enum RawTransfer {
    Encrypted(Vec<u8>),
    NetworkRoyalty(Vec<u8>),
}

pub enum TransferView {
    Encrypted(Seq<u8>),
    NetworkRoyalty(Seq<u8>),
}

impl View for RawTransfer {
    type V = TransferView;

    open spec fn view(&self) -> TransferView {
        match self {
            RawTransfer::Encrypted(b) => TransferView::Encrypted(b@),
            RawTransfer::NetworkRoyalty(b) => TransferView::NetworkRoyalty(b@),
        }
    }
}

/// The views of a sequence of transfers.
pub open spec fn transfers_view(ts: Seq<RawTransfer>) -> Seq<TransferView> {
    ts.map_values(|t: RawTransfer| t@)
}

/// A decoded stream event.
#[derive(Debug)]
pub enum NotificationEvent {
    TransferNotification { key: Vec<u8>, transfers: Vec<RawTransfer> },
    Other { kind: u8, body: Vec<u8> },
}

pub enum EventView {
    TransferNotification { key: Seq<u8>, transfers: Seq<TransferView> },
    Other { kind: u8, body: Seq<u8> },
}

impl View for NotificationEvent {
    type V = EventView;

    open spec fn view(&self) -> EventView {
        match self {
            NotificationEvent::TransferNotification { key, transfers } => EventView::TransferNotification {
                key: key@,
                transfers: transfers_view(transfers@),
            },
            NotificationEvent::Other { kind, body } => EventView::Other { kind: *kind, body: body@ },
        }
    }
}

/// Why a payload could not be decoded.
#[derive(Clone, Copy, Debug, PartialEq, Eq, Structural)]
pub enum DecodeError {
    /// The payload holds no byte.
    Empty,
    /// A transfer notification shorter than its header.
    ShortHeader,
    /// The transfer frames after the header are malformed.
    BadFrame,
}

/// The big-endian 32-bit integer at `at`.
pub open spec fn be32(s: Seq<u8>, at: int) -> nat {
    (s[at] as nat) * 16777216 + (s[at + 1] as nat) * 65536 + (s[at + 2] as nat) * 256 + (s[at + 3] as nat)
}

/// The transfers encoded by a sequence of frames, each a kind byte, a
/// big-endian 32-bit length and that many bytes; `None` where the bytes are
/// no such sequence.
pub open spec fn parse_frames(s: Seq<u8>) -> Option<Seq<TransferView>>
    decreases s.len(),
{
    if s.len() == 0 {
        Some(Seq::empty())
    } else if s.len() < 5 || s[0] > 1 || be32(s, 1) > s.len() - 5 {
        None
    } else {
        let end = 5 + be32(s, 1) as int;
        let blob = s.subrange(5, end);
        let t = if s[0] == 0 {
            TransferView::Encrypted(blob)
        } else {
            TransferView::NetworkRoyalty(blob)
        };
        match parse_frames(s.subrange(end, s.len() as int)) {
            Some(rest) => Some(seq![t] + rest),
            None => None,
        }
    }
}

/// The event a payload encodes: a notification is the tag, the 48-byte key
/// fingerprint and the transfer frames; any other leading byte is an event of
/// another kind carrying the remaining bytes.
pub open spec fn parse_event(p: Seq<u8>) -> Option<EventView> {
    if p.len() == 0 {
        None
    } else if p[0] != 0 {
        Some(EventView::Other { kind: p[0], body: p.subrange(1, p.len() as int) })
    } else if p.len() < 49 {
        None
    } else {
        match parse_frames(p.subrange(49, p.len() as int)) {
            Some(ts) => Some(EventView::TransferNotification { key: p.subrange(1, 49), transfers: ts }),
            None => None,
        }
    }
}

/// A transfer notification cut short is refused: cut inside its header, or,
/// where it carries a single transfer frame, cut anywhere inside that frame.
pub proof fn lemma_truncated_rejected(p: Seq<u8>, cut: int)
    requires
        p.len() >= 49,
        p[0] == 0,
        0 < cut < p.len(),
        cut < 49 || (p.len() >= 54 && 54 + be32(p, 50) == p.len() && 49 < cut),
    ensures
        parse_event(p.subrange(0, cut)) is None,
{
    let q = p.subrange(0, cut);
    assert(q[0] == p[0]);
    if cut >= 49 {
        let s = q.subrange(49, cut);
        if s.len() >= 5 {
            assert(be32(s, 1) == be32(p, 50));
        }
        assert(parse_frames(s) is None);
    }
}

/// Prepends the transfers already read to those that the rest parses to.
pub open spec fn prepend(acc: Seq<TransferView>, o: Option<Seq<TransferView>>) -> Option<Seq<TransferView>> {
    match o {
        Some(r) => Some(acc + r),
        None => None,
    }
}

/// The bytes of `p` from `from` up to `to`.
pub fn slice_bytes(p: &[u8], from: usize, to: usize) -> (r: Vec<u8>)
    requires
        from <= to <= p@.len(),
    ensures
        r@ == p@.subrange(from as int, to as int),
{
    let mut r: Vec<u8> = Vec::new();
    let mut i: usize = from;
    while i < to
        invariant
            from <= i <= to <= p@.len(),
            r@ == p@.subrange(from as int, i as int),
        decreases to - i,
    {
        r.push(p[i]);
        assert(p@.subrange(from as int, i + 1) == p@.subrange(from as int, i as int).push(p@[i as int]));
        i = i + 1;
    }
    r
}

/// Decodes a stream payload into an event, or says why it cannot.
pub fn decode(p: &[u8]) -> (r: Result<NotificationEvent, DecodeError>)
    ensures
        match r {
            Ok(e) => parse_event(p@) == Some(e@),
            Err(_) => parse_event(p@) is None,
        },
        r == Err::<NotificationEvent, DecodeError>(DecodeError::Empty) <==> p@.len() == 0,
        r == Err::<NotificationEvent, DecodeError>(DecodeError::ShortHeader) <==> (0 < p@.len() < 49
            && p@[0] == 0),
        r == Err::<NotificationEvent, DecodeError>(DecodeError::BadFrame) <==> (p@.len() >= 49 && p@[0]
            == 0 && parse_frames(p@.subrange(49, p@.len() as int)) is None),
{
    if p.len() == 0 {
        return Err(DecodeError::Empty);
    }
    if p[0] != TRANSFER_NOTIFICATION_TAG {
        return Ok(NotificationEvent::Other { kind: p[0], body: slice_bytes(p, 1, p.len()) });
    }
    if p.len() < HEADER_LEN {
        return Err(DecodeError::ShortHeader);
    }
    let key = slice_bytes(p, 1, 1 + KEY_LEN);
    let len = p.len();
    let ghost s = p@.subrange(49, len as int);
    let mut transfers: Vec<RawTransfer> = Vec::new();
    let mut pos: usize = HEADER_LEN;
    while pos < len
        invariant
            len == p@.len(),
            p@[0] == 0,
            HEADER_LEN <= pos <= len,
            s == p@.subrange(49, len as int),
            parse_frames(s) == prepend(
                transfers_view(transfers@),
                parse_frames(p@.subrange(pos as int, len as int)),
            ),
        decreases len - pos,
    {
        let ghost rest = p@.subrange(pos as int, len as int);
        assert(rest.len() > 0);
        if len - pos < FRAME_HEADER_LEN {
            assert(parse_frames(rest) is None);
            return Err(DecodeError::BadFrame);
        }
        let kind = p[pos];
        assert(kind == rest[0]);
        if kind > ROYALTY_KIND {
            assert(parse_frames(rest) is None);
            return Err(DecodeError::BadFrame);
        }
        let n: u64 = (p[pos + 1] as u64) * 16777216 + (p[pos + 2] as u64) * 65536 + (p[pos + 3] as u64)
            * 256 + (p[pos + 4] as u64);
        assert(n == be32(rest, 1));
        if n > (len - pos - FRAME_HEADER_LEN) as u64 {
            assert(parse_frames(rest) is None);
            return Err(DecodeError::BadFrame);
        }
        let end: usize = pos + FRAME_HEADER_LEN + n as usize;
        let blob = slice_bytes(p, pos + FRAME_HEADER_LEN, end);
        assert(blob@ == rest.subrange(5, 5 + n));
        assert(rest.subrange(5 + n, rest.len() as int) == p@.subrange(end as int, len as int));
        let t = if kind == ENCRYPTED_KIND {
            RawTransfer::Encrypted(blob)
        } else {
            RawTransfer::NetworkRoyalty(blob)
        };
        let ghost before = transfers_view(transfers@);
        transfers.push(t);
        proof {
            assert(transfers_view(transfers@) == before.push(t@));
            match parse_frames(p@.subrange(end as int, len as int)) {
                Some(r2) => {
                    assert(before + (seq![t@] + r2) == before.push(t@) + r2);
                },
                None => {},
            }
        }
        pos = end;
    }
    proof {
        assert(transfers_view(transfers@) + Seq::<TransferView>::empty() == transfers_view(transfers@));
    }
    Ok(NotificationEvent::TransferNotification { key, transfers })
}

} // verus!
