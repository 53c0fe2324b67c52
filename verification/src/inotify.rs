//! Typed filesystem-change events and the decoder for raw native event
//! records: a fixed sixteen-byte header — watch id, event mask, cookie,
//! name length, all little endian — followed by that many bytes of
//! NUL-padded name.  A mask that matches no known flag decodes to
//! `Unknown` rather than failing; a name that is not valid text stops
//! the decode with an error.

use vstd::prelude::*;
use vstd::bytes::{spec_u32_from_le_bytes, u32_from_le_bytes};
use vstd::slice::slice_subrange;
use vstd::utf8::{decode_utf8, valid_utf8};
use crate::text::bytes_to_string;

verus! {

/// Failure of the watch machinery.
#[derive(Debug)]
pub enum INotifyError {
    OSError(String),
    IOError(String),
    Utf8Error,
}

/// The typed kinds of a native filesystem-change notification.
#[derive(Clone, Copy, Debug, PartialEq, Eq, Structural)]
pub enum Event {
    Access,
    Modify,
    Attrib,
    CloseWrite,
    CloseNoWrite,
    Open,
    MovedFrom,
    MovedTo,
    Create,
    Delete,
    DeleteSelf,
    MoveSelf,
    Unmount,
    Overflow,
    Ignored,
    Unknown,
}

/// The event kind a native bitmask denotes: known flags by exact value,
/// every other pattern `Unknown`.
pub open spec fn event_of_mask(mask: u32) -> Event {
    if mask == 0x1 {
        Event::Access
    } else if mask == 0x2 {
        Event::Modify
    } else if mask == 0x4 {
        Event::Attrib
    } else if mask == 0x8 {
        Event::CloseWrite
    } else if mask == 0x10 {
        Event::CloseNoWrite
    } else if mask == 0x20 {
        Event::Open
    } else if mask == 0x40 {
        Event::MovedFrom
    } else if mask == 0x80 {
        Event::MovedTo
    } else if mask == 0x100 {
        Event::Create
    } else if mask == 0x200 {
        Event::Delete
    } else if mask == 0x400 {
        Event::DeleteSelf
    } else if mask == 0x800 {
        Event::MoveSelf
    } else if mask == 0x2000 {
        Event::Unmount
    } else if mask == 0x4000 {
        Event::Overflow
    } else if mask == 0x8000 {
        Event::Ignored
    } else {
        Event::Unknown
    }
}

/// The native bitmask of a known event kind; `Unknown` has none.
pub open spec fn mask_of_event(e: Event) -> u32 {
    match e {
        Event::Access => 0x1,
        Event::Modify => 0x2,
        Event::Attrib => 0x4,
        Event::CloseWrite => 0x8,
        Event::CloseNoWrite => 0x10,
        Event::Open => 0x20,
        Event::MovedFrom => 0x40,
        Event::MovedTo => 0x80,
        Event::Create => 0x100,
        Event::Delete => 0x200,
        Event::DeleteSelf => 0x400,
        Event::MoveSelf => 0x800,
        Event::Unmount => 0x2000,
        Event::Overflow => 0x4000,
        Event::Ignored => 0x8000,
        Event::Unknown => 0x0,
    }
}

impl From<u32> for Event {
    /// Maps a native bitmask to its event kind; an unrecognized pattern
    /// gives `Unknown` and never fails.
    fn from(mask: u32) -> (r: Self) {
        if mask == 0x1 {
            Event::Access
        } else if mask == 0x2 {
            Event::Modify
        } else if mask == 0x4 {
            Event::Attrib
        } else if mask == 0x8 {
            Event::CloseWrite
        } else if mask == 0x10 {
            Event::CloseNoWrite
        } else if mask == 0x20 {
            Event::Open
        } else if mask == 0x40 {
            Event::MovedFrom
        } else if mask == 0x80 {
            Event::MovedTo
        } else if mask == 0x100 {
            Event::Create
        } else if mask == 0x200 {
            Event::Delete
        } else if mask == 0x400 {
            Event::DeleteSelf
        } else if mask == 0x800 {
            Event::MoveSelf
        } else if mask == 0x2000 {
            Event::Unmount
        } else if mask == 0x4000 {
            Event::Overflow
        } else if mask == 0x8000 {
            Event::Ignored
        } else {
            Event::Unknown
        }
    }
}

impl vstd::std_specs::convert::FromSpecImpl<u32> for Event {
    open spec fn obeys_from_spec() -> bool {
        true
    }

    open spec fn from_spec(mask: u32) -> Self {
        event_of_mask(mask)
    }
}

pub open spec fn event_label_spec(e: Event) -> Seq<char> {
    match e {
        Event::Access => "Access"@,
        Event::Modify => "Modify"@,
        Event::Attrib => "Attrib"@,
        Event::CloseWrite => "CloseWrite"@,
        Event::CloseNoWrite => "CloseNoWrite"@,
        Event::Open => "Open"@,
        Event::MovedFrom => "MovedFrom"@,
        Event::MovedTo => "MovedTo"@,
        Event::Create => "Create"@,
        Event::Delete => "Delete"@,
        Event::DeleteSelf => "DeleteSelf"@,
        Event::MoveSelf => "MoveSelf"@,
        Event::Unmount => "Unmount"@,
        Event::Overflow => "Overflow"@,
        Event::Ignored => "Ignored"@,
        Event::Unknown => "Unknown"@,
    }
}

impl Event {
    /// The wording of this event kind in the change log.
    pub fn label(&self) -> (r: &'static str)
        ensures
            r@ == event_label_spec(*self),
    {
        match self {
            Event::Access => "Access",
            Event::Modify => "Modify",
            Event::Attrib => "Attrib",
            Event::CloseWrite => "CloseWrite",
            Event::CloseNoWrite => "CloseNoWrite",
            Event::Open => "Open",
            Event::MovedFrom => "MovedFrom",
            Event::MovedTo => "MovedTo",
            Event::Create => "Create",
            Event::Delete => "Delete",
            Event::DeleteSelf => "DeleteSelf",
            Event::MoveSelf => "MoveSelf",
            Event::Unmount => "Unmount",
            Event::Overflow => "Overflow",
            Event::Ignored => "Ignored",
            Event::Unknown => "Unknown",
        }
    }

    /// The native bitmask of this event kind.
    pub fn mask(&self) -> (r: u32)
        ensures
            r == mask_of_event(*self),
    {
        match self {
            Event::Access => 0x1,
            Event::Modify => 0x2,
            Event::Attrib => 0x4,
            Event::CloseWrite => 0x8,
            Event::CloseNoWrite => 0x10,
            Event::Open => 0x20,
            Event::MovedFrom => 0x40,
            Event::MovedTo => 0x80,
            Event::Create => 0x100,
            Event::Delete => 0x200,
            Event::DeleteSelf => 0x400,
            Event::MoveSelf => 0x800,
            Event::Unmount => 0x2000,
            Event::Overflow => 0x4000,
            Event::Ignored => 0x8000,
            Event::Unknown => 0x0,
        }
    }
}

/// The mask a watch registration asks for: entry modified or created.
pub fn watch_mask() -> (r: u32)
    ensures
        r == mask_of_event(Event::Modify) | mask_of_event(Event::Create),
{
    proof {
        assert(0x2u32 | 0x100u32 == 0x102u32) by (bit_vector);
    }
    0x102
}

/// One decoded native record: its event kind and the entry name it names.
#[derive(Debug, PartialEq)]
pub struct WatchEvent {
    pub event: Event,
    pub name: String,
}

/// The images of a list of decoded records.
pub open spec fn events_view(s: Seq<WatchEvent>) -> Seq<(Event, Seq<char>)> {
    s.map_values(|w: WatchEvent| (w.event, w.name@))
}

/// `b` with every trailing NUL byte dropped.
pub open spec fn trim_nuls(b: Seq<u8>) -> Seq<u8>
    decreases b.len(),
{
    if b.len() > 0 && b.last() == 0 {
        trim_nuls(b.drop_last())
    } else {
        b
    }
}

/// What a buffer of native records holds: `None` when a header is cut
/// short, a name runs past the end, or a name is not valid text; else
/// the (kind, name) pairs in order.  An unrecognized mask is no failure.
pub open spec fn decode_records(b: Seq<u8>) -> Option<Seq<(Event, Seq<char>)>>
    decreases b.len(),
{
    if b.len() == 0 {
        Some(seq![])
    } else if b.len() < 16 {
        None
    } else {
        let mask = spec_u32_from_le_bytes(b.subrange(4, 8));
        let nlen = spec_u32_from_le_bytes(b.subrange(12, 16)) as int;
        if b.len() < 16 + nlen {
            None
        } else {
            let name_bytes = trim_nuls(b.subrange(16, 16 + nlen));
            if !valid_utf8(name_bytes) {
                None
            } else {
                match decode_records(b.subrange(16 + nlen, b.len() as int)) {
                    None => None,
                    Some(rest) => Some(
                        seq![(event_of_mask(mask), decode_utf8(name_bytes))] + rest,
                    ),
                }
            }
        }
    }
}

proof fn lemma_trim_nuls_range(b: Seq<u8>, end: int)
    requires
        0 <= end <= b.len(),
        forall|i: int| end <= i < b.len() ==> b[i] == 0,
        end > 0 ==> b[end - 1] != 0,
    ensures
        trim_nuls(b) == b.subrange(0, end),
    decreases b.len(),
{
    if b.len() > 0 && b.last() == 0 {
        lemma_trim_nuls_range(b.drop_last(), end);
        assert(b.drop_last().subrange(0, end) =~= b.subrange(0, end));
    } else {
        assert(end == b.len());
        assert(trim_nuls(b) =~= b.subrange(0, end));
    }
}

/// Copies `buf[from..to]` with trailing NUL bytes dropped.
fn take_name_bytes(buf: &Vec<u8>, from: usize, to: usize) -> (r: Vec<u8>)
    requires
        from <= to <= buf@.len(),
    ensures
        r@ == trim_nuls(buf@.subrange(from as int, to as int)),
{
    let mut end: usize = to;
    while end > from && buf[end - 1] == 0
        invariant
            from <= end <= to <= buf@.len(),
            forall|i: int| end <= i < to ==> buf@[i] == 0,
        decreases end,
    {
        end = end - 1;
    }
    let mut out: Vec<u8> = Vec::new();
    let mut i: usize = from;
    while i < end
        invariant
            from <= i <= end <= buf@.len(),
            out@ =~= buf@.subrange(from as int, i as int),
        decreases end - i,
    {
        out.push(buf[i]);
        proof {
            assert(out@ =~= buf@.subrange(from as int, (i + 1) as int));
        }
        i = i + 1;
    }
    proof {
        let region = buf@.subrange(from as int, to as int);
        lemma_trim_nuls_range(region, end - from);
        assert(region.subrange(0, end - from) =~= buf@.subrange(from as int, end as int));
        assert(out@ =~= buf@.subrange(from as int, end as int));
    }
    out
}

/// Decodes a whole read buffer of native records, as `decode_records`
/// describes it: every record's mask is mapped to its kind — unrecognized
/// patterns to `Unknown`, never an error — and a name that is not valid
/// text is the one failure.
#[verifier::loop_isolation(false)]
pub fn decode_buffer(buf: &Vec<u8>) -> (r: Result<Vec<WatchEvent>, INotifyError>)
    ensures
        r is Ok <==> decode_records(buf@) is Some,
        r matches Ok(v) ==> Some(events_view(v@)) == decode_records(buf@),
{
    let n = buf.len();
    let mut out: Vec<WatchEvent> = Vec::new();
    let mut pos: usize = 0;
    proof {
        assert(buf@.subrange(0, n as int) =~= buf@);
        assert(events_view(out@) =~= Seq::<(Event, Seq<char>)>::empty());
        match decode_records(buf@) {
            Some(rest) => {
                assert(events_view(out@) + rest =~= rest);
            },
            None => {},
        }
    }
    while pos < n
        invariant
            0 <= pos <= n,
            n == buf@.len(),
            match decode_records(buf@.subrange(pos as int, n as int)) {
                None => decode_records(buf@) is None,
                Some(rest) => decode_records(buf@) == Some(events_view(out@) + rest),
            },
        decreases n - pos,
    {
        let ghost suffix = buf@.subrange(pos as int, n as int);
        if n - pos < 16 {
            proof {
                assert(decode_records(suffix) is None);
            }
            return Err(INotifyError::Utf8Error);
        }
        let mask = u32_from_le_bytes(slice_subrange(buf.as_slice(), pos + 4, pos + 8));
        let nlen32 = u32_from_le_bytes(slice_subrange(buf.as_slice(), pos + 12, pos + 16));
        proof {
            assert(buf@.subrange((pos + 4) as int, (pos + 8) as int) =~= suffix.subrange(4, 8));
            assert(buf@.subrange((pos + 12) as int, (pos + 16) as int) =~= suffix.subrange(
                12,
                16,
            ));
        }
        let nlen = nlen32 as usize;
        if n - pos - 16 < nlen {
            proof {
                assert(decode_records(suffix) is None);
            }
            return Err(INotifyError::Utf8Error);
        }
        let name_bytes = take_name_bytes(buf, pos + 16, pos + 16 + nlen);
        proof {
            assert(buf@.subrange((pos + 16) as int, (pos + 16 + nlen) as int) =~= suffix.subrange(
                16,
                16 + nlen as int,
            ));
        }
        let next = pos + 16 + nlen;
        proof {
            assert(buf@.subrange(next as int, n as int) =~= suffix.subrange(
                16 + nlen as int,
                suffix.len() as int,
            ));
        }
        match bytes_to_string(name_bytes) {
            None => {
                proof {
                    assert(decode_records(suffix) is None);
                }
                return Err(INotifyError::Utf8Error);
            },
            Some(name) => {
                let ev = Event::from(mask);
                let we = WatchEvent { event: ev, name };
                proof {
                    assert(events_view(out@.push(we)) =~= events_view(out@).push(
                        (we.event, we.name@),
                    ));
                    let rest_old = decode_records(suffix);
                    let rest_new = decode_records(buf@.subrange(next as int, n as int));
                    if rest_new is Some {
                        assert(rest_old == Some(
                            seq![(ev, we.name@)] + rest_new->0,
                        ));
                        assert(events_view(out@.push(we)) + rest_new->0 =~= events_view(out@) + (
                        seq![(ev, we.name@)] + rest_new->0));
                    }
                }
                out.push(we);
                pos = next;
            },
        }
    }
    proof {
        assert(buf@.subrange(pos as int, n as int) =~= Seq::<u8>::empty());
        assert(decode_records(Seq::<u8>::empty()) == Some(Seq::<(Event, Seq<char>)>::empty()));
        assert(events_view(out@) + Seq::<(Event, Seq<char>)>::empty() =~= events_view(out@));
    }
    Ok(out)
}

/// The change-log line of one decoded record: the kind's wording, a bar,
/// the entry name.
pub fn format_event_line(e: &WatchEvent) -> (r: String)
    ensures
        r@ == event_label_spec(e.event) + seq!['|'] + e.name@,
{
    proof {
        reveal_strlit("|");
        assert("|"@ =~= seq!['|']);
    }
    let mut s = String::from_str(e.event.label());
    s.append("|");
    s.append(e.name.as_str());
    s
}

} // verus!
