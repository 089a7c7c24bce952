//! The fixed message header and the OPEN message body.

use vstd::prelude::*;

use crate::error::BgpError;
use crate::text::{ipv4_at, ipv4_string};
use crate::wire::{be16_at, be32, be32_at, read_u16, read_u32};

verus! {

/// The length of the fixed BGP header: marker, length and type.
pub const HEADER_LEN: usize = 19;

/// The outcome of reading a header: the message type and the length of the
/// body that follows, or why the header is refused.
pub open spec fn header_outcome(d: Seq<u8>) -> Result<(u8, u32), BgpError> {
    if d.len() < 19 {
        Err(BgpError::HeaderTooShort)
    } else if exists|i: int| 0 <= i < 16 && d[i] != 0xff {
        Err(BgpError::InvalidMarker)
    } else if be16_at(d, 16) < 19 {
        Err(BgpError::LengthBelowMinimum)
    } else {
        Ok((d[18], (be16_at(d, 16) - 19) as u32))
    }
}

/// Reads a BGP header: checks that there are 19 bytes, that the marker is
/// sixteen `0xff` bytes and that the declared length covers the header, and
/// gives the message type and the body length.
pub fn parse_header(data: &[u8]) -> (r: Result<(u8, u32), BgpError>)
    ensures
        r == header_outcome(data@),
{
    if data.len() < HEADER_LEN {
        return Err(BgpError::HeaderTooShort);
    }
    let mut i: usize = 0;
    while i < 16
        invariant
            i <= 16,
            data@.len() >= 19,
            forall|k: int| 0 <= k < i ==> data@[k] == 0xff,
        decreases 16 - i,
    {
        if data[i] != 0xff {
            return Err(BgpError::InvalidMarker);
        }
        i += 1;
    }
    let length = read_u16(data, 16) as u32;
    if length < HEADER_LEN as u32 {
        return Err(BgpError::LengthBelowMinimum);
    }
    Ok((data[18], length - HEADER_LEN as u32))
}

/// The AS number of the last 4-octet AS capability (code 65, length 4, its
/// value within the body) among the capabilities from `c` up to `cap_end`,
/// or `acc` when there is none.
pub open spec fn caps_scan(b: Seq<u8>, c: int, cap_end: int, acc: Option<u32>) -> Option<u32>
    decreases cap_end - c,
{
    if c + 2 <= cap_end {
        let code = b[c];
        let clen = b[c + 1];
        let d = c + 2;
        let found = if code == 65 && clen == 4 && d + 4 <= b.len() {
            Some(be32_at(b, d) as u32)
        } else {
            acc
        };
        let next = d + clen;
        if next + 2 <= cap_end {
            caps_scan(b, next, cap_end, found)
        } else {
            found
        }
    } else {
        acc
    }
}

/// The AS number of the last 4-octet AS capability inside the capability
/// parameters (type 2) among the optional parameters from `off` up to `end`,
/// or `acc` when there is none.
pub open spec fn params_scan(b: Seq<u8>, off: int, end: int, acc: Option<u32>) -> Option<u32>
    decreases end - off,
{
    if off + 2 <= end {
        let ptype = b[off];
        let plen = b[off + 1];
        let start = off + 2;
        let cap_end = if start + plen <= end { start + plen } else { end };
        let found = if ptype == 2 {
            caps_scan(b, start, cap_end, acc)
        } else {
            acc
        };
        let next = start + plen;
        if next + 2 <= end {
            params_scan(b, next, end, found)
        } else {
            found
        }
    } else {
        acc
    }
}

/// The 4-octet AS number that an OPEN body announces, if any: the optional
/// parameters start at byte 10 and their total length is byte 9 (cut at the
/// end of the body).
pub open spec fn open_as4(b: Seq<u8>) -> Option<u32> {
    if b.len() > 10 {
        let end = if 10 + b[9] <= b.len() { 10 + b[9] as int } else { b.len() as int };
        params_scan(b, 10, end, None)
    } else {
        None
    }
}

/// The fields of an OPEN message.
#[derive(Clone, Debug)]
pub struct OpenMessage {
    pub version: u8,
    pub peer_as: u32,
    pub hold_time: u16,
    pub router_id: String,
    pub supports_4byte_asn: bool,
}

/// Reads an OPEN body: version, peer AS (the 4-octet AS capability's value
/// when one is announced, else the 2-octet field), hold time, router id and
/// whether the 4-octet AS capability was seen.
pub fn parse_open(body: &[u8]) -> (r: Result<OpenMessage, BgpError>)
    ensures
        match r {
            Err(e) => body@.len() < 9 && e == BgpError::OpenTooShort,
            Ok(m) => {
                &&& body@.len() >= 9
                &&& m.version == body@[0]
                &&& m.peer_as == match open_as4(body@) {
                    Some(a) => a as nat,
                    None => be16_at(body@, 1),
                }
                &&& m.hold_time == be16_at(body@, 3)
                &&& m.router_id@ == ipv4_at(body@, 5)
                &&& m.supports_4byte_asn == open_as4(body@) is Some
            },
        },
{
    if body.len() < 9 {
        return Err(BgpError::OpenTooShort);
    }
    let mut as4: Option<u32> = None;
    if body.len() > 10 {
        let mut offset: usize = 10;
        let declared = 10 + body[9] as usize;
        let end = if declared <= body.len() { declared } else { body.len() };
        while offset + 2 <= end
            invariant
                body@.len() > 10,
                end <= 265,
                end <= body@.len(),
                offset <= 600,
                end == (if 10 + body@[9] <= body@.len() { 10 + body@[9] as int } else { body@.len() as int }),
                open_as4(body@) == params_scan(body@, offset as int, end as int, as4),
            decreases 600 - offset,
        {
            let param_type = body[offset];
            let param_len = body[offset + 1] as usize;
            offset += 2;
            if param_type == 2 {
                let mut cap_offset = offset;
                let cap_end = if offset + param_len <= end { offset + param_len } else { end };
                let ghost start_acc = as4;
                while cap_offset + 2 <= cap_end
                    invariant
                        cap_end <= end <= body@.len(),
                        end <= 265,
                        cap_offset <= 600,
                        caps_scan(body@, offset as int, cap_end as int, start_acc) == caps_scan(
                            body@,
                            cap_offset as int,
                            cap_end as int,
                            as4,
                        ),
                    decreases 600 - cap_offset,
                {
                    let cap_code = body[cap_offset];
                    let cap_len = body[cap_offset + 1] as usize;
                    cap_offset += 2;
                    if cap_code == 65 && cap_len == 4 && cap_offset + 4 <= body.len() {
                        as4 = Some(read_u32(body, cap_offset));
                    }
                    cap_offset += cap_len;
                }
            }
            offset += param_len;
        }
    }
    let peer_as = match as4 {
        Some(a) => a,
        None => read_u16(body, 1) as u32,
    };
    Ok(OpenMessage {
        version: body[0],
        peer_as,
        hold_time: read_u16(body, 3),
        router_id: ipv4_string(body, 5),
        supports_4byte_asn: as4.is_some(),
    })
}

/// One capability of an OPEN message: its code and its value bytes.
pub type Capability = (u8, Seq<u8>);

/// The bytes of one capability: code, value length, value.
pub open spec fn encode_cap(c: Capability) -> Seq<u8> {
    seq![c.0, c.1.len() as u8] + c.1
}

/// The bytes of a sequence of capabilities, one after another.
pub open spec fn encode_caps(cs: Seq<Capability>) -> Seq<u8>
    decreases cs.len(),
{
    if cs.len() == 0 {
        Seq::empty()
    } else {
        encode_cap(cs[0]) + encode_caps(cs.drop_first())
    }
}

/// The bytes of a sequence of capabilities parameters (type 2), one after
/// another, each holding its capabilities.
pub open spec fn encode_cap_params(ps: Seq<Seq<Capability>>) -> Seq<u8>
    decreases ps.len(),
{
    if ps.len() == 0 {
        Seq::empty()
    } else {
        seq![2u8, encode_caps(ps[0]).len() as u8] + encode_caps(ps[0]) + encode_cap_params(ps.drop_first())
    }
}

/// Whether a capability is the 4-octet AS capability (code 65, 4 bytes).
pub open spec fn is_as4_cap(c: Capability) -> bool {
    c.0 == 65 && c.1.len() == 4
}

/// The AS number that a 4-octet AS capability carries.
pub open spec fn as4_cap_value(c: Capability) -> u32 {
    be32(c.1[0], c.1[1], c.1[2], c.1[3]) as u32
}

/// The value of the last 4-octet AS capability of `cs`, or `acc` if none.
spec fn last_as4(cs: Seq<Capability>, acc: Option<u32>) -> Option<u32>
    decreases cs.len(),
{
    if cs.len() == 0 {
        acc
    } else {
        last_as4(cs.drop_first(), if is_as4_cap(cs[0]) { Some(as4_cap_value(cs[0])) } else { acc })
    }
}

proof fn lemma_last_as4_none(cs: Seq<Capability>, acc: Option<u32>)
    requires
        forall|i: int| 0 <= i < cs.len() ==> !#[trigger] is_as4_cap(cs[i]),
    ensures
        last_as4(cs, acc) == acc,
    decreases cs.len(),
{
    if cs.len() > 0 {
        assert(!is_as4_cap(cs[0]));
        assert forall|i: int| 0 <= i < cs.drop_first().len() implies !#[trigger] is_as4_cap(cs.drop_first()[i]) by {
            assert(cs.drop_first()[i] == cs[i + 1]);
        }
        lemma_last_as4_none(cs.drop_first(), acc);
    }
}

proof fn lemma_last_as4_at(cs: Seq<Capability>, acc: Option<u32>, i: int)
    requires
        0 <= i < cs.len(),
        is_as4_cap(cs[i]),
        forall|j: int| i < j < cs.len() ==> !#[trigger] is_as4_cap(cs[j]),
    ensures
        last_as4(cs, acc) == Some(as4_cap_value(cs[i])),
    decreases cs.len(),
{
    let rest = cs.drop_first();
    let acc2 = if is_as4_cap(cs[0]) { Some(as4_cap_value(cs[0])) } else { acc };
    if i == 0 {
        assert forall|j: int| 0 <= j < rest.len() implies !#[trigger] is_as4_cap(rest[j]) by {
            assert(rest[j] == cs[j + 1]);
        }
        lemma_last_as4_none(rest, acc2);
    } else {
        assert(rest[i - 1] == cs[i]);
        assert forall|j: int| i - 1 < j < rest.len() implies !#[trigger] is_as4_cap(rest[j]) by {
            assert(rest[j] == cs[j + 1]);
        }
        lemma_last_as4_at(rest, acc2, i - 1);
    }
}

proof fn lemma_last_as4_append(a: Seq<Capability>, c: Seq<Capability>, acc: Option<u32>)
    ensures
        last_as4(a + c, acc) == last_as4(c, last_as4(a, acc)),
    decreases a.len(),
{
    if a.len() > 0 {
        assert((a + c).drop_first() =~= a.drop_first() + c);
        assert((a + c)[0] == a[0]);
        let acc2 = if is_as4_cap(a[0]) { Some(as4_cap_value(a[0])) } else { acc };
        lemma_last_as4_append(a.drop_first(), c, acc2);
    } else {
        assert(a + c =~= c);
    }
}

proof fn lemma_split(b: Seq<u8>, o: int, x: Seq<u8>, y: Seq<u8>)
    requires
        0 <= o,
        o + x.len() + y.len() <= b.len(),
        b.subrange(o, o + x.len() + y.len()) == x + y,
    ensures
        b.subrange(o, o + x.len()) == x,
        b.subrange(o + x.len(), o + x.len() + y.len()) == y,
        forall|j: int| 0 <= j < x.len() ==> b[o + j] == #[trigger] x[j],
{
    let n = o + x.len() + y.len();
    assert forall|j: int| 0 <= j < x.len() implies b[o + j] == #[trigger] x[j] by {
        assert(b.subrange(o, n)[j] == (x + y)[j]);
        assert(b.subrange(o, n)[j] == b[o + j]);
        assert((x + y)[j] == x[j]);
    }
    assert(b.subrange(o, o + x.len()) =~= x);
    assert forall|j: int| 0 <= j < y.len() implies b.subrange(o + x.len(), o + x.len() + y.len())[j]
        == y[j] by {
        assert(b.subrange(o, n)[x.len() + j] == (x + y)[x.len() + j]);
        assert(b.subrange(o, n)[x.len() + j] == b[o + x.len() + j]);
        assert((x + y)[x.len() + j] == y[j]);
    }
    assert(b.subrange(o + x.len(), o + x.len() + y.len()) =~= y);
}

proof fn lemma_caps_scan(b: Seq<u8>, c: int, cs: Seq<Capability>, acc: Option<u32>)
    requires
        0 <= c,
        c + encode_caps(cs).len() <= b.len(),
        b.subrange(c, c + encode_caps(cs).len()) == encode_caps(cs),
        forall|i: int| 0 <= i < cs.len() ==> (#[trigger] cs[i]).1.len() < 256,
    ensures
        caps_scan(b, c, c + encode_caps(cs).len(), acc) == last_as4(cs, acc),
    decreases cs.len(),
{
    if cs.len() > 0 {
        let cap = cs[0];
        let rest = cs.drop_first();
        let e = encode_cap(cap);
        let er = encode_caps(rest);
        let end = c + e.len() + er.len();
        assert(cap.1.len() < 256);
        lemma_split(b, c, e, er);
        assert(b[c] == cap.0 && b[c + 1] == cap.1.len() as u8) by {
            assert(e[0] == cap.0 && e[1] == cap.1.len() as u8);
        }
        let d = c + 2;
        if is_as4_cap(cap) {
            assert(b[d] == cap.1[0] && b[d + 1] == cap.1[1] && b[d + 2] == cap.1[2] && b[d + 3] == cap.1[3]) by {
                assert(e[2] == cap.1[0] && e[3] == cap.1[1] && e[4] == cap.1[2] && e[5] == cap.1[3]);
            }
        }
        let acc2 = if is_as4_cap(cap) { Some(as4_cap_value(cap)) } else { acc };
        assert forall|i: int| 0 <= i < rest.len() implies (#[trigger] rest[i]).1.len() < 256 by {
            assert(rest[i] == cs[i + 1]);
        }
        lemma_caps_scan(b, c + e.len(), rest, acc2);
        if rest.len() > 0 {
            assert(er.len() >= 2);
        } else {
            assert(last_as4(rest, acc2) == acc2);
        }
    }
}

proof fn lemma_params_scan(b: Seq<u8>, off: int, ps: Seq<Seq<Capability>>, acc: Option<u32>)
    requires
        0 <= off,
        off + encode_cap_params(ps).len() <= b.len(),
        b.subrange(off, off + encode_cap_params(ps).len()) == encode_cap_params(ps),
        forall|p: int| 0 <= p < ps.len() ==> encode_caps(#[trigger] ps[p]).len() < 256,
        forall|p: int, i: int| 0 <= p < ps.len() && 0 <= i < ps[p].len() ==> (#[trigger] ps[p][i]).1.len() < 256,
    ensures
        params_scan(b, off, off + encode_cap_params(ps).len(), acc) == last_as4(ps.flatten(), acc),
    decreases ps.len(),
{
    if ps.len() == 0 {
        assert(ps.flatten() =~= Seq::<Capability>::empty());
    } else {
        let cs = ps[0];
        let rest = ps.drop_first();
        let ec = encode_caps(cs);
        let er = encode_cap_params(rest);
        let hdr = seq![2u8, ec.len() as u8];
        assert(encode_cap_params(ps) == hdr + ec + er);
        assert(hdr + ec + er == hdr + (ec + er));
        lemma_split(b, off, hdr, ec + er);
        lemma_split(b, off + 2, ec, er);
        assert(ec.len() < 256);
        assert(b[off] == 2u8 && b[off + 1] == ec.len() as u8) by {
            assert(hdr[0] == 2u8 && hdr[1] == ec.len() as u8);
        }
        let start = off + 2;
        let end = start + ec.len() + er.len();
        assert forall|i: int| 0 <= i < cs.len() implies (#[trigger] cs[i]).1.len() < 256 by {
            assert(ps[0][i] == cs[i]);
        }
        lemma_caps_scan(b, start, cs, acc);
        let acc2 = last_as4(cs, acc);
        assert forall|p: int| 0 <= p < rest.len() implies encode_caps(#[trigger] rest[p]).len() < 256 by {
            assert(rest[p] == ps[p + 1]);
        }
        assert forall|p: int, i: int| 0 <= p < rest.len() && 0 <= i < rest[p].len() implies (#[trigger] rest[p][i]).1.len()
            < 256 by {
            assert(rest[p] == ps[p + 1]);
            assert(ps[p + 1][i].1.len() < 256);
        }
        lemma_params_scan(b, start + ec.len(), rest, acc2);
        if rest.len() > 0 {
            assert(er.len() >= 2);
        } else {
            assert(rest.flatten() =~= Seq::<Capability>::empty());
        }
        assert(ps.flatten() == cs + rest.flatten());
        lemma_last_as4_append(cs, rest.flatten(), acc);
    }
}

/// The peer's 4-octet AS: for an OPEN body whose optional parameters are
/// capabilities parameters, the body announces a 4-octet AS exactly when one
/// of its capabilities (in any parameter, among any others) is the 4-octet
/// AS capability, and then it is the value of the last such capability.
pub proof fn lemma_open_as4_is_last_as4_capability(b: Seq<u8>, ps: Seq<Seq<Capability>>)
    requires
        forall|p: int| 0 <= p < ps.len() ==> encode_caps(#[trigger] ps[p]).len() < 256,
        forall|p: int, i: int| 0 <= p < ps.len() && 0 <= i < ps[p].len() ==> (#[trigger] ps[p][i]).1.len() < 256,
        encode_cap_params(ps).len() < 256,
        b.len() >= 10 + encode_cap_params(ps).len(),
        b[9] == encode_cap_params(ps).len(),
        b.subrange(10, 10 + encode_cap_params(ps).len() as int) == encode_cap_params(ps),
    ensures
        (forall|i: int| 0 <= i < ps.flatten().len() ==> !#[trigger] is_as4_cap(ps.flatten()[i]))
            ==> open_as4(b) is None,
        forall|i: int|
            0 <= i < ps.flatten().len() && #[trigger] is_as4_cap(ps.flatten()[i]) && (forall|j: int|
                i < j < ps.flatten().len() ==> !is_as4_cap(ps.flatten()[j])) ==> open_as4(b) == Some(
                as4_cap_value(ps.flatten()[i]),
            ),
{
    let cs = ps.flatten();
    let e = encode_cap_params(ps);
    if b.len() > 10 {
        lemma_params_scan(b, 10, ps, None);
        assert(open_as4(b) == last_as4(cs, None));
    } else {
        assert(e.len() == 0);
        if ps.len() > 0 {
            assert(e.len() >= 2);
        }
        assert(cs =~= Seq::<Capability>::empty());
    }
    if forall|i: int| 0 <= i < cs.len() ==> !#[trigger] is_as4_cap(cs[i]) {
        lemma_last_as4_none(cs, None);
    }
    assert forall|i: int|
        0 <= i < cs.len() && #[trigger] is_as4_cap(cs[i]) && (forall|j: int| i < j < cs.len() ==> !is_as4_cap(cs[j]))
        implies open_as4(b) == Some(as4_cap_value(cs[i])) by {
        assert forall|j: int| i < j < cs.len() implies !#[trigger] is_as4_cap(cs[j]) by {}
        lemma_last_as4_at(cs, None, i);
    }
}

} // verus!
