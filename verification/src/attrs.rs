//! Path attribute values: names of the attribute codes and the decoders of
//! the attribute kinds whose value the decoder understands.

use vstd::prelude::*;

use crate::prefix::{next_hop_string, next_hop_text};
use crate::text::{
    decimal, hex_encode, hex_pairs, ipv4_at, ipv4_string, push_char, push_decimal, push_ipv4, push_str,
};
use crate::wire::{be16_at, be32_at, read_u16, read_u32};

verus! {

pub const ATTR_ORIGIN: u8 = 1;
pub const ATTR_AS_PATH: u8 = 2;
pub const ATTR_NEXT_HOP: u8 = 3;
pub const ATTR_MED: u8 = 4;
pub const ATTR_LOCAL_PREF: u8 = 5;
pub const ATTR_ATOMIC_AGGREGATE: u8 = 6;
pub const ATTR_AGGREGATOR: u8 = 7;
pub const ATTR_COMMUNITIES: u8 = 8;
pub const ATTR_ORIGINATOR_ID: u8 = 9;
pub const ATTR_CLUSTER_LIST: u8 = 10;
pub const ATTR_MP_REACH_NLRI: u8 = 14;
pub const ATTR_MP_UNREACH_NLRI: u8 = 15;
pub const ATTR_EXT_COMMUNITIES: u8 = 16;
pub const ATTR_AS4_PATH: u8 = 17;
pub const ATTR_AS4_AGGREGATOR: u8 = 18;
pub const ATTR_IPV6_EXT_COMMUNITIES: u8 = 25;
pub const ATTR_LARGE_COMMUNITIES: u8 = 32;

/// The registered name of an attribute code, for the codes the decoder knows.
pub open spec fn attr_name_text(code: u8) -> Option<Seq<char>> {
    if code == 1 {
        Some("ORIGIN"@)
    } else if code == 2 {
        Some("AS_PATH"@)
    } else if code == 3 {
        Some("NEXT_HOP"@)
    } else if code == 4 {
        Some("MULTI_EXIT_DISC"@)
    } else if code == 5 {
        Some("LOCAL_PREF"@)
    } else if code == 6 {
        Some("ATOMIC_AGGREGATE"@)
    } else if code == 7 {
        Some("AGGREGATOR"@)
    } else if code == 8 {
        Some("COMMUNITIES"@)
    } else if code == 9 {
        Some("ORIGINATOR_ID"@)
    } else if code == 10 {
        Some("CLUSTER_LIST"@)
    } else if code == 14 {
        Some("MP_REACH_NLRI"@)
    } else if code == 15 {
        Some("MP_UNREACH_NLRI"@)
    } else if code == 16 {
        Some("EXTENDED_COMMUNITIES"@)
    } else if code == 17 {
        Some("AS4_PATH"@)
    } else if code == 18 {
        Some("AS4_AGGREGATOR"@)
    } else if code == 25 {
        Some("IPV6_ADDRESS_SPECIFIC_EXTENDED_COMMUNITIES"@)
    } else if code == 32 {
        Some("LARGE_COMMUNITIES"@)
    } else {
        None
    }
}

/// The registered name of an attribute code, if the decoder knows it.
pub fn attr_name(code: u8) -> (r: Option<&'static str>)
    ensures
        match r {
            Some(s) => attr_name_text(code) == Some(s@),
            None => attr_name_text(code) is None,
        },
{
    if code == ATTR_ORIGIN {
        Some("ORIGIN")
    } else if code == ATTR_AS_PATH {
        Some("AS_PATH")
    } else if code == ATTR_NEXT_HOP {
        Some("NEXT_HOP")
    } else if code == ATTR_MED {
        Some("MULTI_EXIT_DISC")
    } else if code == ATTR_LOCAL_PREF {
        Some("LOCAL_PREF")
    } else if code == ATTR_ATOMIC_AGGREGATE {
        Some("ATOMIC_AGGREGATE")
    } else if code == ATTR_AGGREGATOR {
        Some("AGGREGATOR")
    } else if code == ATTR_COMMUNITIES {
        Some("COMMUNITIES")
    } else if code == ATTR_ORIGINATOR_ID {
        Some("ORIGINATOR_ID")
    } else if code == ATTR_CLUSTER_LIST {
        Some("CLUSTER_LIST")
    } else if code == ATTR_MP_REACH_NLRI {
        Some("MP_REACH_NLRI")
    } else if code == ATTR_MP_UNREACH_NLRI {
        Some("MP_UNREACH_NLRI")
    } else if code == ATTR_EXT_COMMUNITIES {
        Some("EXTENDED_COMMUNITIES")
    } else if code == ATTR_AS4_PATH {
        Some("AS4_PATH")
    } else if code == ATTR_AS4_AGGREGATOR {
        Some("AS4_AGGREGATOR")
    } else if code == ATTR_IPV6_EXT_COMMUNITIES {
        Some("IPV6_ADDRESS_SPECIFIC_EXTENDED_COMMUNITIES")
    } else if code == ATTR_LARGE_COMMUNITIES {
        Some("LARGE_COMMUNITIES")
    } else {
        None
    }
}

/// The name of an ORIGIN value.
pub open spec fn origin_text(b: u8) -> Seq<char> {
    if b == 0 {
        "igp"@
    } else if b == 1 {
        "egp"@
    } else if b == 2 {
        "incomplete"@
    } else {
        "unknown"@
    }
}

fn origin_name(b: u8) -> (r: &'static str)
    ensures
        r@ == origin_text(b),
{
    if b == 0 {
        "igp"
    } else if b == 1 {
        "egp"
    } else if b == 2 {
        "incomplete"
    } else {
        "unknown"
    }
}

/// The name of an AS_PATH segment type.
pub open spec fn segment_text(t: u8) -> Seq<char> {
    if t == 1 {
        "AS_SET"@
    } else if t == 2 {
        "AS_SEQUENCE"@
    } else if t == 3 {
        "AS_CONFED_SEQUENCE"@
    } else if t == 4 {
        "AS_CONFED_SET"@
    } else {
        "SEGMENT_UNKNOWN"@
    }
}

fn segment_name(t: u8) -> (r: &'static str)
    ensures
        r@ == segment_text(t),
{
    if t == 1 {
        "AS_SET"
    } else if t == 2 {
        "AS_SEQUENCE"
    } else if t == 3 {
        "AS_CONFED_SEQUENCE"
    } else if t == 4 {
        "AS_CONFED_SET"
    } else {
        "SEGMENT_UNKNOWN"
    }
}

/// One AS_PATH segment: its type's name and its AS numbers.
#[derive(Clone, Debug)]
pub struct AsPathSegment {
    pub segment_type: &'static str,
    pub asns: Vec<u32>,
}

/// A segment as the contracts see it.
pub type SegmentView = (Seq<char>, Seq<u32>);

impl View for AsPathSegment {
    type V = SegmentView;

    open spec fn view(&self) -> SegmentView {
        (self.segment_type@, self.asns@)
    }
}

/// The views of a sequence of segments.
pub open spec fn segments_view(s: Seq<AsPathSegment>) -> Seq<SegmentView> {
    s.map_values(|x: AsPathSegment| x@)
}

/// The number of bytes of `n` AS numbers of `w` bytes each (`w` is 2 or 4).
pub open spec fn asn_bytes(n: nat, w: nat) -> nat {
    if w == 2 {
        2 * n
    } else {
        4 * n
    }
}

/// The `k`-th AS number of width `w` from `start` in `d`.
pub open spec fn asn_at(d: Seq<u8>, start: int, k: int, w: nat) -> u32 {
    if w == 2 {
        be16_at(d, start + 2 * k) as u32
    } else {
        be32_at(d, start + 4 * k) as u32
    }
}

/// Decodes AS_PATH segments from `off` on, appending to `acc`: each segment
/// is a type byte, a count byte and that many AS numbers of `w` bytes; the
/// segments must cover the data exactly.
pub open spec fn as_path_walk(d: Seq<u8>, off: int, w: nat, acc: Seq<SegmentView>) -> Option<Seq<SegmentView>>
    decreases d.len() - off,
{
    if 0 <= off && off + 2 <= d.len() {
        let t = d[off];
        let n = d[off + 1];
        let start = off + 2;
        let bl = asn_bytes(n as nat, w);
        if start + bl > d.len() {
            None
        } else {
            let seg = (segment_text(t), Seq::new(n as nat, |k: int| asn_at(d, start, k, w)));
            as_path_walk(d, start + bl, w, acc.push(seg))
        }
    } else if off == d.len() {
        Some(acc)
    } else {
        None
    }
}

/// The AS_PATH segments that `d` holds with AS numbers of `w` bytes.
pub open spec fn as_path_value(d: Seq<u8>, w: nat) -> Option<Seq<SegmentView>> {
    as_path_walk(d, 0, w, Seq::empty())
}

/// Decodes an AS_PATH (or AS4_PATH) with AS numbers of `asn_len` bytes.
pub fn as_path(data: &[u8], asn_len: usize) -> (r: Result<Vec<AsPathSegment>, ()>)
    requires
        asn_len == 2 || asn_len == 4,
    ensures
        match r {
            Ok(v) => as_path_value(data@, asn_len as nat) == Some(segments_view(v@)),
            Err(_) => as_path_value(data@, asn_len as nat) is None,
        },
{
    let mut path: Vec<AsPathSegment> = Vec::new();
    let mut offset: usize = 0;
    assert(segments_view(path@) =~= Seq::<SegmentView>::empty());
    while data.len() - offset >= 2
        invariant
            asn_len == 2 || asn_len == 4,
            offset <= data@.len(),
            as_path_value(data@, asn_len as nat) == as_path_walk(
                data@,
                offset as int,
                asn_len as nat,
                segments_view(path@),
            ),
        decreases data@.len() - offset,
    {
        let seg_type = data[offset];
        let seg_len = data[offset + 1] as usize;
        offset += 2;
        let byte_len = if asn_len == 2 { 2 * seg_len } else { 4 * seg_len };
        if byte_len > data.len() - offset {
            return Err(());
        }
        let start = offset;
        let mut asns: Vec<u32> = Vec::new();
        let mut k: usize = 0;
        let mut pos: usize = start;
        while k < seg_len
            invariant
                asn_len == 2 || asn_len == 4,
                k <= seg_len,
                seg_len <= 255,
                data@.len() <= usize::MAX,
                start + asn_bytes(seg_len as nat, asn_len as nat) <= data@.len(),
                pos == start + asn_bytes(k as nat, asn_len as nat),
                asns@.len() == k,
                forall|j: int| 0 <= j < k ==> asns@[j] == asn_at(data@, start as int, j, asn_len as nat),
            decreases seg_len - k,
        {
            let asn = if asn_len == 2 {
                read_u16(data, pos) as u32
            } else {
                read_u32(data, pos)
            };
            asns.push(asn);
            pos += asn_len;
            k += 1;
        }
        offset = start + byte_len;
        let ghost before = path@;
        let ghost seg = (
            segment_text(seg_type),
            Seq::new(seg_len as nat, |j: int| asn_at(data@, start as int, j, asn_len as nat)),
        );
        assert(asns@ =~= seg.1);
        path.push(AsPathSegment { segment_type: segment_name(seg_type), asns });
        assert(segments_view(path@) =~= segments_view(before).push(seg));
    }
    if offset == data.len() {
        Ok(path)
    } else {
        Err(())
    }
}

/// The text of the COMMUNITIES entry at byte `i` of `d`: the well-known
/// name for the four well-known values, else `high:low` in decimal.
pub open spec fn community_text(d: Seq<u8>, i: int) -> Seq<char> {
    let v = be32_at(d, i);
    if v == 0xFFFFFF01 {
        "NO_EXPORT"@
    } else if v == 0xFFFFFF02 {
        "NO_ADVERTISE"@
    } else if v == 0xFFFFFF03 {
        "NO_EXPORT_SUBCONFED"@
    } else if v == 0xFFFFFF04 {
        "NOPEER"@
    } else {
        decimal(be16_at(d, i)) + seq![':'] + decimal(be16_at(d, i + 2))
    }
}

/// The COMMUNITIES entries of `d`, when its length is a multiple of four.
pub open spec fn communities_value(d: Seq<u8>) -> Option<Seq<Seq<char>>> {
    if d.len() % 4 != 0 {
        None
    } else {
        Some(Seq::new(d.len() / 4, |k: int| community_text(d, 4 * k)))
    }
}

/// The texts of a sequence of strings.
pub open spec fn texts(v: Seq<String>) -> Seq<Seq<char>> {
    v.map_values(|s: String| s@)
}

/// Decodes a COMMUNITIES attribute.
pub fn communities(data: &[u8]) -> (r: Result<Vec<String>, ()>)
    ensures
        match r {
            Ok(v) => communities_value(data@) == Some(texts(v@)),
            Err(_) => communities_value(data@) is None,
        },
{
    if data.len() % 4 != 0 {
        return Err(());
    }
    let mut out: Vec<String> = Vec::new();
    let mut i: usize = 0;
    while i < data.len()
        invariant
            data@.len() % 4 == 0,
            i % 4 == 0,
            i <= data@.len(),
            out@.len() == i / 4,
            forall|j: int| 0 <= j < out@.len() ==> out@[j]@ == community_text(data@, 4 * j),
        decreases data@.len() - i,
    {
        let val = read_u32(data, i);
        let s = if val == 0xFFFFFF01 {
            "NO_EXPORT".to_owned()
        } else if val == 0xFFFFFF02 {
            "NO_ADVERTISE".to_owned()
        } else if val == 0xFFFFFF03 {
            "NO_EXPORT_SUBCONFED".to_owned()
        } else if val == 0xFFFFFF04 {
            "NOPEER".to_owned()
        } else {
            let mut t = String::new();
            push_decimal(&mut t, read_u16(data, i) as u64);
            push_char(&mut t, ':');
            push_decimal(&mut t, read_u16(data, i + 2) as u64);
            assert(t@ =~= decimal(be16_at(data@, i as int)) + seq![':'] + decimal(
                be16_at(data@, i + 2),
            ));
            t
        };
        assert(s@ == community_text(data@, i as int));
        out.push(s);
        i += 4;
    }
    assert(texts(out@) =~= communities_value(data@).unwrap());
    Ok(out)
}

/// The CLUSTER_LIST entries of `d`, when its length is a multiple of four.
pub open spec fn cluster_list_value(d: Seq<u8>) -> Option<Seq<Seq<char>>> {
    if d.len() % 4 != 0 {
        None
    } else {
        Some(Seq::new(d.len() / 4, |k: int| ipv4_at(d, 4 * k)))
    }
}

/// Decodes a CLUSTER_LIST attribute.
pub fn cluster_list(data: &[u8]) -> (r: Result<Vec<String>, ()>)
    ensures
        match r {
            Ok(v) => cluster_list_value(data@) == Some(texts(v@)),
            Err(_) => cluster_list_value(data@) is None,
        },
{
    if data.len() % 4 != 0 {
        return Err(());
    }
    let mut out: Vec<String> = Vec::new();
    let mut i: usize = 0;
    while i < data.len()
        invariant
            data@.len() % 4 == 0,
            i % 4 == 0,
            i <= data@.len(),
            out@.len() == i / 4,
            forall|j: int| 0 <= j < out@.len() ==> out@[j]@ == ipv4_at(data@, 4 * j),
        decreases data@.len() - i,
    {
        out.push(ipv4_string(data, i));
        i += 4;
    }
    assert(texts(out@) =~= cluster_list_value(data@).unwrap());
    Ok(out)
}

/// The text of the LARGE_COMMUNITIES entry at byte `i` of `d`: its three
/// 32-bit fields in decimal, joined by colons.
pub open spec fn large_community_text(d: Seq<u8>, i: int) -> Seq<char> {
    decimal(be32_at(d, i)) + seq![':'] + decimal(be32_at(d, i + 4)) + seq![':'] + decimal(
        be32_at(d, i + 8),
    )
}

/// The LARGE_COMMUNITIES entries of `d`, when its length is a multiple of 12.
pub open spec fn large_communities_value(d: Seq<u8>) -> Option<Seq<Seq<char>>> {
    if d.len() % 12 != 0 {
        None
    } else {
        Some(Seq::new(d.len() / 12, |k: int| large_community_text(d, 12 * k)))
    }
}

/// Decodes a LARGE_COMMUNITIES attribute.
pub fn large_communities(data: &[u8]) -> (r: Result<Vec<String>, ()>)
    ensures
        match r {
            Ok(v) => large_communities_value(data@) == Some(texts(v@)),
            Err(_) => large_communities_value(data@) is None,
        },
{
    if data.len() % 12 != 0 {
        return Err(());
    }
    let mut out: Vec<String> = Vec::new();
    let mut i: usize = 0;
    while i < data.len()
        invariant
            data@.len() % 12 == 0,
            i % 12 == 0,
            i <= data@.len(),
            out@.len() == i / 12,
            forall|j: int| 0 <= j < out@.len() ==> out@[j]@ == large_community_text(data@, 12 * j),
        decreases data@.len() - i,
    {
        let mut t = String::new();
        push_decimal(&mut t, read_u32(data, i) as u64);
        push_char(&mut t, ':');
        push_decimal(&mut t, read_u32(data, i + 4) as u64);
        push_char(&mut t, ':');
        push_decimal(&mut t, read_u32(data, i + 8) as u64);
        assert(t@ =~= large_community_text(data@, i as int));
        out.push(t);
        i += 12;
    }
    assert(texts(out@) =~= large_communities_value(data@).unwrap());
    Ok(out)
}

/// The value part of the extended community at byte `i` of `d`, by the
/// community's type with its two high (IANA-authority and transitive) bits
/// set aside: two-octet AS specific (0) as `AS:local` in decimal, IPv4
/// address specific (1) as `address:local`, four-octet AS specific (2) as
/// `AS:local` in decimal, and any other type as its six value bytes in hex.
pub open spec fn ext_community_value_text(d: Seq<u8>, i: int) -> Seq<char> {
    let t = d[i] % 64;
    if t == 0 {
        decimal(be16_at(d, i + 2)) + seq![':'] + decimal(be32_at(d, i + 4))
    } else if t == 1 {
        ipv4_at(d, i + 2) + seq![':'] + decimal(be16_at(d, i + 6))
    } else if t == 2 {
        decimal(be32_at(d, i + 2)) + seq![':'] + decimal(be16_at(d, i + 6))
    } else {
        hex_pairs(d.subrange(i + 2, i + 8))
    }
}

/// The text of the EXTENDED_COMMUNITIES entry at byte `i` of `d`: type and
/// subtype as two hex digits each, then the value, colon-separated (a route
/// target of AS 65000, number 100 is `00:02:65000:100`).
pub open spec fn ext_community_text(d: Seq<u8>, i: int) -> Seq<char> {
    hex_pairs(d.subrange(i, i + 1)) + seq![':'] + hex_pairs(d.subrange(i + 1, i + 2)) + seq![':']
        + ext_community_value_text(d, i)
}

/// The EXTENDED_COMMUNITIES entries of `d`, when its length is a multiple of 8.
pub open spec fn ext_communities_value(d: Seq<u8>) -> Option<Seq<Seq<char>>> {
    if d.len() % 8 != 0 {
        None
    } else {
        Some(Seq::new(d.len() / 8, |k: int| ext_community_text(d, 8 * k)))
    }
}

/// Decodes an EXTENDED_COMMUNITIES attribute.
pub fn ext_communities(data: &[u8]) -> (r: Result<Vec<String>, ()>)
    ensures
        match r {
            Ok(v) => ext_communities_value(data@) == Some(texts(v@)),
            Err(_) => ext_communities_value(data@) is None,
        },
{
    if data.len() % 8 != 0 {
        return Err(());
    }
    let mut out: Vec<String> = Vec::new();
    let mut i: usize = 0;
    while i < data.len()
        invariant
            data@.len() % 8 == 0,
            i % 8 == 0,
            i <= data@.len(),
            out@.len() == i / 8,
            forall|j: int| 0 <= j < out@.len() ==> out@[j]@ == ext_community_text(data@, 8 * j),
        decreases data@.len() - i,
    {
        let mut t = hex_encode(&data[i..i + 1]);
        push_char(&mut t, ':');
        let st = hex_encode(&data[i + 1..i + 2]);
        push_str(&mut t, &st);
        push_char(&mut t, ':');
        let kind = data[i] % 64;
        if kind == 0 {
            push_decimal(&mut t, read_u16(data, i + 2) as u64);
            push_char(&mut t, ':');
            push_decimal(&mut t, read_u32(data, i + 4) as u64);
        } else if kind == 1 {
            push_ipv4(&mut t, data, i + 2);
            push_char(&mut t, ':');
            push_decimal(&mut t, read_u16(data, i + 6) as u64);
        } else if kind == 2 {
            push_decimal(&mut t, read_u32(data, i + 2) as u64);
            push_char(&mut t, ':');
            push_decimal(&mut t, read_u16(data, i + 6) as u64);
        } else {
            let v = hex_encode(&data[i + 2..i + 8]);
            push_str(&mut t, &v);
        }
        assert(t@ =~= ext_community_text(data@, i as int));
        out.push(t);
        i += 8;
    }
    assert(texts(out@) =~= ext_communities_value(data@).unwrap());
    Ok(out)
}

/// What the contracts see of an MP_REACH / MP_UNREACH summary: AFI, SAFI,
/// next-hop text and the length of the NLRI part, where the value has them.
pub type MpView = (u16, u8, Option<Seq<char>>, Option<usize>);

/// The summary of an MP_REACH_NLRI (code 14) or MP_UNREACH_NLRI attribute:
/// AFI and SAFI; for MP_REACH, when the next hop fits, its text and the
/// bytes left after it and the reserved byte; for MP_UNREACH, the bytes
/// after AFI and SAFI.
pub open spec fn mp_value(code: u8, d: Seq<u8>) -> Option<MpView> {
    if d.len() < 3 {
        None
    } else {
        let afi = be16_at(d, 0) as u16;
        let safi = d[2];
        if code == 14 {
            if d.len() < 4 {
                None
            } else {
                let nh = d[3] as int;
                if 4 + nh <= d.len() {
                    let rest = if d.len() >= 5 + nh { (d.len() - 5 - nh) as usize } else { 0usize };
                    Some((afi, safi, Some(next_hop_text(d.subrange(4, 4 + nh))), Some(rest)))
                } else {
                    Some((afi, safi, None, None))
                }
            }
        } else {
            Some((afi, safi, None, Some((d.len() - 3) as usize)))
        }
    }
}

/// The summary of a multiprotocol reach or unreach attribute.
#[derive(Clone, Debug)]
pub struct MpInfo {
    pub afi: u16,
    pub safi: u8,
    pub next_hop: Option<String>,
    pub nlri_length: Option<usize>,
}

impl View for MpInfo {
    type V = MpView;

    open spec fn view(&self) -> MpView {
        (self.afi, self.safi, crate::routes::opt_text(self.next_hop), self.nlri_length)
    }
}

/// Summarizes an MP_REACH_NLRI or MP_UNREACH_NLRI attribute.
pub fn mp_attr(code: u8, data: &[u8]) -> (r: Result<MpInfo, ()>)
    ensures
        match r {
            Ok(v) => mp_value(code, data@) == Some(v@),
            Err(_) => mp_value(code, data@) is None,
        },
{
    if data.len() < 3 {
        return Err(());
    }
    let afi = read_u16(data, 0);
    let safi = data[2];
    if code == ATTR_MP_REACH_NLRI {
        if data.len() < 4 {
            return Err(());
        }
        let nh_len = data[3] as usize;
        if 4 + nh_len <= data.len() {
            let next_hop = next_hop_string(&data[4..4 + nh_len]);
            let rest = data.len().saturating_sub(4 + nh_len + 1);
            Ok(MpInfo { afi, safi, next_hop: Some(next_hop), nlri_length: Some(rest) })
        } else {
            Ok(MpInfo { afi, safi, next_hop: None, nlri_length: None })
        }
    } else {
        Ok(MpInfo { afi, safi, next_hop: None, nlri_length: Some(data.len() - 3) })
    }
}

/// What the contracts see of a decoded attribute value.
pub enum AttrValueView {
    Origin(Seq<char>),
    AsPath(Seq<SegmentView>),
    NextHop(Seq<char>),
    Number(u32),
    AtomicAggregate,
    Aggregator(u32, Seq<char>),
    Communities(Seq<Seq<char>>),
    OriginatorId(Seq<char>),
    ClusterList(Seq<Seq<char>>),
    Multiprotocol(MpView),
    LargeCommunities(Seq<Seq<char>>),
    ExtendedCommunities(Seq<Seq<char>>),
}

/// A decoded path attribute value.
#[derive(Clone, Debug)]
pub enum AttrValue {
    /// ORIGIN: `igp`, `egp`, `incomplete` or `unknown`.
    Origin(&'static str),
    /// AS_PATH or AS4_PATH segments.
    AsPath(Vec<AsPathSegment>),
    /// NEXT_HOP as a dotted quad.
    NextHop(String),
    /// MULTI_EXIT_DISC or LOCAL_PREF.
    Number(u32),
    /// ATOMIC_AGGREGATE (present, with no data).
    AtomicAggregate,
    /// AGGREGATOR or AS4_AGGREGATOR: AS number and router id.
    Aggregator { asn: u32, router_id: String },
    /// COMMUNITIES texts.
    Communities(Vec<String>),
    /// ORIGINATOR_ID as a dotted quad.
    OriginatorId(String),
    /// CLUSTER_LIST entries as dotted quads.
    ClusterList(Vec<String>),
    /// MP_REACH_NLRI / MP_UNREACH_NLRI summary.
    Multiprotocol(MpInfo),
    /// LARGE_COMMUNITIES texts.
    LargeCommunities(Vec<String>),
    /// EXTENDED_COMMUNITIES texts.
    ExtendedCommunities(Vec<String>),
}

impl View for AttrValue {
    type V = AttrValueView;

    open spec fn view(&self) -> AttrValueView {
        match self {
            AttrValue::Origin(s) => AttrValueView::Origin(s@),
            AttrValue::AsPath(v) => AttrValueView::AsPath(segments_view(v@)),
            AttrValue::NextHop(s) => AttrValueView::NextHop(s@),
            AttrValue::Number(n) => AttrValueView::Number(*n),
            AttrValue::AtomicAggregate => AttrValueView::AtomicAggregate,
            AttrValue::Aggregator { asn, router_id } => AttrValueView::Aggregator(*asn, router_id@),
            AttrValue::Communities(v) => AttrValueView::Communities(texts(v@)),
            AttrValue::OriginatorId(s) => AttrValueView::OriginatorId(s@),
            AttrValue::ClusterList(v) => AttrValueView::ClusterList(texts(v@)),
            AttrValue::Multiprotocol(m) => AttrValueView::Multiprotocol(m@),
            AttrValue::LargeCommunities(v) => AttrValueView::LargeCommunities(texts(v@)),
            AttrValue::ExtendedCommunities(v) => AttrValueView::ExtendedCommunities(texts(v@)),
        }
    }
}

/// The value that attribute `code` with data `d` decodes to, AS numbers of
/// AS_PATH being `w` bytes wide; `None` for a kind the decoder does not
/// understand or data of the wrong shape.
pub open spec fn attr_value_of(code: u8, d: Seq<u8>, w: nat) -> Option<AttrValueView> {
    if code == 1 {
        if d.len() == 0 { None } else { Some(AttrValueView::Origin(origin_text(d[0]))) }
    } else if code == 2 {
        match as_path_value(d, w) {
            Some(p) => Some(AttrValueView::AsPath(p)),
            None => None,
        }
    } else if code == 3 {
        if d.len() != 4 { None } else { Some(AttrValueView::NextHop(ipv4_at(d, 0))) }
    } else if code == 4 || code == 5 {
        if d.len() != 4 { None } else { Some(AttrValueView::Number(be32_at(d, 0) as u32)) }
    } else if code == 6 {
        if d.len() == 0 { Some(AttrValueView::AtomicAggregate) } else { None }
    } else if code == 7 {
        if d.len() != 6 {
            None
        } else {
            Some(AttrValueView::Aggregator(be16_at(d, 0) as u32, ipv4_at(d, 2)))
        }
    } else if code == 8 {
        match communities_value(d) {
            Some(c) => Some(AttrValueView::Communities(c)),
            None => None,
        }
    } else if code == 9 {
        if d.len() != 4 { None } else { Some(AttrValueView::OriginatorId(ipv4_at(d, 0))) }
    } else if code == 10 {
        match cluster_list_value(d) {
            Some(c) => Some(AttrValueView::ClusterList(c)),
            None => None,
        }
    } else if code == 14 || code == 15 {
        match mp_value(code, d) {
            Some(m) => Some(AttrValueView::Multiprotocol(m)),
            None => None,
        }
    } else if code == 17 {
        match as_path_value(d, 4) {
            Some(p) => Some(AttrValueView::AsPath(p)),
            None => None,
        }
    } else if code == 18 {
        if d.len() != 8 {
            None
        } else {
            Some(AttrValueView::Aggregator(be32_at(d, 0) as u32, ipv4_at(d, 4)))
        }
    } else if code == 16 {
        match ext_communities_value(d) {
            Some(c) => Some(AttrValueView::ExtendedCommunities(c)),
            None => None,
        }
    } else if code == 32 {
        match large_communities_value(d) {
            Some(c) => Some(AttrValueView::LargeCommunities(c)),
            None => None,
        }
    } else {
        None
    }
}

/// Decodes the value of attribute `code`; a NEXT_HOP of four bytes also
/// becomes the next hop of the routes in the UPDATE's trailing NLRI.
pub fn attr_value(code: u8, data: &[u8], asn_len: usize, trailing_next_hop: &mut Option<String>) -> (r: Result<AttrValue, ()>)
    requires
        asn_len == 2 || asn_len == 4,
    ensures
        match r {
            Ok(v) => attr_value_of(code, data@, asn_len as nat) == Some(v@),
            Err(_) => attr_value_of(code, data@, asn_len as nat) is None,
        },
        code == 3 && data@.len() == 4 ==> crate::routes::opt_text(*final(trailing_next_hop)) == Some(ipv4_at(data@, 0)),
        !(code == 3 && data@.len() == 4) ==> *final(trailing_next_hop) == *old(trailing_next_hop),
{
    if code == ATTR_ORIGIN {
        if data.len() == 0 {
            return Err(());
        }
        Ok(AttrValue::Origin(origin_name(data[0])))
    } else if code == ATTR_AS_PATH {
        match as_path(data, asn_len) {
            Ok(p) => Ok(AttrValue::AsPath(p)),
            Err(_) => Err(()),
        }
    } else if code == ATTR_NEXT_HOP {
        if data.len() != 4 {
            return Err(());
        }
        let s = ipv4_string(data, 0);
        *trailing_next_hop = Some(s.clone());
        Ok(AttrValue::NextHop(s))
    } else if code == ATTR_MED || code == ATTR_LOCAL_PREF {
        if data.len() != 4 {
            return Err(());
        }
        Ok(AttrValue::Number(read_u32(data, 0)))
    } else if code == ATTR_ATOMIC_AGGREGATE {
        if data.len() == 0 {
            Ok(AttrValue::AtomicAggregate)
        } else {
            Err(())
        }
    } else if code == ATTR_AGGREGATOR {
        if data.len() != 6 {
            return Err(());
        }
        Ok(AttrValue::Aggregator { asn: read_u16(data, 0) as u32, router_id: ipv4_string(data, 2) })
    } else if code == ATTR_COMMUNITIES {
        match communities(data) {
            Ok(c) => Ok(AttrValue::Communities(c)),
            Err(_) => Err(()),
        }
    } else if code == ATTR_ORIGINATOR_ID {
        if data.len() != 4 {
            return Err(());
        }
        Ok(AttrValue::OriginatorId(ipv4_string(data, 0)))
    } else if code == ATTR_CLUSTER_LIST {
        match cluster_list(data) {
            Ok(c) => Ok(AttrValue::ClusterList(c)),
            Err(_) => Err(()),
        }
    } else if code == ATTR_MP_REACH_NLRI || code == ATTR_MP_UNREACH_NLRI {
        match mp_attr(code, data) {
            Ok(m) => Ok(AttrValue::Multiprotocol(m)),
            Err(_) => Err(()),
        }
    } else if code == ATTR_AS4_PATH {
        match as_path(data, 4) {
            Ok(p) => Ok(AttrValue::AsPath(p)),
            Err(_) => Err(()),
        }
    } else if code == ATTR_AS4_AGGREGATOR {
        if data.len() != 8 {
            return Err(());
        }
        Ok(AttrValue::Aggregator { asn: read_u32(data, 0), router_id: ipv4_string(data, 4) })
    } else if code == ATTR_EXT_COMMUNITIES {
        match ext_communities(data) {
            Ok(c) => Ok(AttrValue::ExtendedCommunities(c)),
            Err(_) => Err(()),
        }
    } else if code == ATTR_LARGE_COMMUNITIES {
        match large_communities(data) {
            Ok(c) => Ok(AttrValue::LargeCommunities(c)),
            Err(_) => Err(()),
        }
    } else {
        Err(())
    }
}

/// An AS4_PATH is read with 4-octet AS numbers whatever width the session
/// uses for AS_PATH: its value is that of an AS_PATH with the same data read
/// with 4-octet AS numbers, for a 2-octet and a 4-octet session alike.
pub proof fn lemma_as4_path_uses_four_octets(d: Seq<u8>, w: nat)
    ensures
        attr_value_of(17, d, w) == attr_value_of(2, d, 4),
        attr_value_of(17, d, 2) == attr_value_of(17, d, 4),
{
}

/// The four well-known communities are reported by their registered names
/// (RFC 1997 and RFC 3765), and every other community as its two 16-bit
/// halves in decimal joined by a colon; one text per four bytes, in order.
pub proof fn lemma_community_names(d: Seq<u8>, k: int)
    requires
        d.len() % 4 == 0,
        0 <= k < d.len() / 4,
    ensures
        communities_value(d) is Some,
        communities_value(d).unwrap().len() == d.len() / 4,
        d[4 * k] == 0xff && d[4 * k + 1] == 0xff && d[4 * k + 2] == 0xff && d[4 * k + 3] == 0x01
            ==> communities_value(d).unwrap()[k] == "NO_EXPORT"@,
        d[4 * k] == 0xff && d[4 * k + 1] == 0xff && d[4 * k + 2] == 0xff && d[4 * k + 3] == 0x02
            ==> communities_value(d).unwrap()[k] == "NO_ADVERTISE"@,
        d[4 * k] == 0xff && d[4 * k + 1] == 0xff && d[4 * k + 2] == 0xff && d[4 * k + 3] == 0x03
            ==> communities_value(d).unwrap()[k] == "NO_EXPORT_SUBCONFED"@,
        d[4 * k] == 0xff && d[4 * k + 1] == 0xff && d[4 * k + 2] == 0xff && d[4 * k + 3] == 0x04
            ==> communities_value(d).unwrap()[k] == "NOPEER"@,
        !(d[4 * k] == 0xff && d[4 * k + 1] == 0xff && d[4 * k + 2] == 0xff && 1 <= d[4 * k + 3] <= 4)
            ==> communities_value(d).unwrap()[k] == decimal(d[4 * k] as nat * 256 + d[4 * k + 1] as nat)
            + seq![':'] + decimal(d[4 * k + 2] as nat * 256 + d[4 * k + 3] as nat),
{
}

} // verus!
