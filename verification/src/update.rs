//! UPDATE bodies: the walk over path attributes, the multiprotocol reach
//! and unreach attributes, and the withdrawn and trailing IPv4 NLRI.

use vstd::prelude::*;

use crate::attrs::{attr_name, attr_name_text, attr_value, attr_value_of, AttrValue, AttrValueView};
use crate::error::BgpError;
use crate::prefix::{next_hop_string, next_hop_text};
use crate::routes::{
    distinct_families, family_for_afi, family_of, lemma_routes_carry_next_hop, lemma_set_then_get,
    opt_text, table_get, table_set, unicast_nlri, unicast_routes, AddressFamily, FamilyRoutes,
    TableView,
};
use crate::text::{decimal, hex_encode, hex_pairs, ipv4_at, push_decimal};
use crate::wire::{be16_at, read_u16};

verus! {

/// The four flag bits of a path attribute.
#[derive(Clone, Copy, Debug, PartialEq, Eq, Structural)]
pub struct AttrFlags {
    pub optional: bool,
    pub transitive: bool,
    pub partial: bool,
    pub extended_length: bool,
}

/// The flag bits of the flags byte `f`.
pub open spec fn flags_of(f: u8) -> AttrFlags {
    AttrFlags {
        optional: f & 0x80 != 0,
        transitive: f & 0x40 != 0,
        partial: f & 0x20 != 0,
        extended_length: f & 0x10 != 0,
    }
}

/// What an attribute carries: its decoded value, or its data in hex when
/// the decoder does not understand it.
#[derive(Clone, Debug)]
pub enum AttrContent {
    Value(AttrValue),
    Raw(String),
}

/// What the contracts see of an attribute's content.
pub enum ContentView {
    Value(AttrValueView),
    Raw(Seq<char>),
}

/// One path attribute as reported: code, name, flags, data length and content.
#[derive(Clone, Debug)]
pub struct PathAttribute {
    pub code: u8,
    pub name: String,
    pub flags: AttrFlags,
    pub length: usize,
    pub content: AttrContent,
}

/// What the contracts see of a path attribute.
pub struct PathAttributeView {
    pub code: u8,
    pub name: Seq<char>,
    pub flags: AttrFlags,
    pub length: usize,
    pub content: ContentView,
}

impl View for PathAttribute {
    type V = PathAttributeView;

    open spec fn view(&self) -> PathAttributeView {
        PathAttributeView {
            code: self.code,
            name: self.name@,
            flags: self.flags,
            length: self.length,
            content: match self.content {
                AttrContent::Value(v) => ContentView::Value(v@),
                AttrContent::Raw(s) => ContentView::Raw(s@),
            },
        }
    }
}

/// The views of a sequence of attributes.
pub open spec fn attributes_view(v: Seq<PathAttribute>) -> Seq<PathAttributeView> {
    v.map_values(|a: PathAttribute| a@)
}

/// The reported name of attribute `code`: its registered name, or `ATTR_`
/// and the code in decimal.
pub open spec fn attr_label(code: u8) -> Seq<char> {
    match attr_name_text(code) {
        Some(n) => n,
        None => "ATTR_"@ + decimal(code as nat),
    }
}

/// How attribute `code` with flags byte `f` and data `d` is reported, AS
/// numbers of AS_PATH being `w` bytes wide.
pub open spec fn attribute_of(f: u8, code: u8, d: Seq<u8>, w: nat) -> PathAttributeView {
    PathAttributeView {
        code,
        name: attr_label(code),
        flags: flags_of(f),
        length: d.len() as usize,
        content: match attr_value_of(code, d, w) {
            Some(v) => ContentView::Value(v),
            None => ContentView::Raw(hex_pairs(d)),
        },
    }
}

/// What the announce and withdraw tables become through attribute `code`
/// with data `d`: an MP_REACH_NLRI (14) of IPv4 or IPv6 unicast sets the
/// announced routes of its family, with its next hop; an MP_UNREACH_NLRI
/// (15) of IPv4 or IPv6 unicast sets the withdrawn routes of its family;
/// other attributes leave both tables as they are.
pub open spec fn mp_effect(code: u8, d: Seq<u8>, ann: TableView, wd: TableView) -> Result<(TableView, TableView), BgpError> {
    if code == 14 && d.len() > 3 {
        let afi = be16_at(d, 0);
        let safi = d[2];
        let nh = d[3] as int;
        let start = 4 + nh + 1;
        if start > d.len() {
            Err(BgpError::MpReachNextHopTooLong)
        } else if (afi == 1 || afi == 2) && safi == 1 {
            let hop = next_hop_text(d.subrange(4, 4 + nh));
            match unicast_nlri(d.subrange(start, d.len() as int), afi as u16, Some(hop)) {
                Some(rs) => Ok((table_set(ann, family_of(afi as u16), rs), wd)),
                None => Err(BgpError::MpReachNlri),
            }
        } else {
            Ok((ann, wd))
        }
    } else if code == 15 && d.len() > 2 {
        let afi = be16_at(d, 0);
        let safi = d[2];
        if (afi == 1 || afi == 2) && safi == 1 {
            match unicast_nlri(d.subrange(3, d.len() as int), afi as u16, None) {
                Some(rs) => Ok((ann, table_set(wd, family_of(afi as u16), rs))),
                None => Err(BgpError::MpUnreachNlri),
            }
        } else {
            Ok((ann, wd))
        }
    } else {
        Ok((ann, wd))
    }
}

/// The next hop for the trailing NLRI after attribute `code` with data `d`:
/// a four-byte NEXT_HOP sets it, anything else keeps `nh`.
pub open spec fn next_hop_effect(code: u8, d: Seq<u8>, nh: Option<Seq<char>>) -> Option<Seq<char>> {
    if code == 3 && d.len() == 4 {
        Some(ipv4_at(d, 0))
    } else {
        nh
    }
}

/// Handles one path attribute: applies its effect on the announce and
/// withdraw tables and on the trailing next hop, and reports it.
pub fn path_attr(
    flags: u8,
    code: u8,
    data: &[u8],
    asn_len: usize,
    announce: &mut FamilyRoutes,
    withdraw: &mut FamilyRoutes,
    trailing_next_hop: &mut Option<String>,
) -> (r: Result<PathAttribute, BgpError>)
    requires
        asn_len == 2 || asn_len == 4,
    ensures
        match mp_effect(code, data@, old(announce)@, old(withdraw)@) {
            Err(e) => {
                &&& r == Err::<PathAttribute, BgpError>(e)
                &&& final(announce)@ == old(announce)@
                &&& final(withdraw)@ == old(withdraw)@
                &&& *final(trailing_next_hop) == *old(trailing_next_hop)
            },
            Ok((a, w)) => {
                &&& r is Ok
                &&& final(announce)@ == a
                &&& final(withdraw)@ == w
                &&& opt_text(*final(trailing_next_hop)) == next_hop_effect(code, data@, opt_text(*old(trailing_next_hop)))
                &&& r->Ok_0@ == attribute_of(flags, code, data@, asn_len as nat)
            },
        },
{
    if code == 14 && data.len() > 3 {
        let afi = read_u16(data, 0);
        let safi = data[2];
        let nh_len = data[3] as usize;
        let nlri_start = 4 + nh_len + 1;
        if nlri_start > data.len() {
            return Err(BgpError::MpReachNextHopTooLong);
        }
        if (afi == 1 || afi == 2) && safi == 1 {
            let nh = next_hop_string(&data[4..4 + nh_len]);
            let hop = Some(nh);
            match unicast_routes(&data[nlri_start..data.len()], afi, &hop) {
                Ok(routes) => announce.set(family_for_afi(afi), routes),
                Err(_) => return Err(BgpError::MpReachNlri),
            }
        }
    } else if code == 15 && data.len() > 2 {
        let afi = read_u16(data, 0);
        let safi = data[2];
        if (afi == 1 || afi == 2) && safi == 1 {
            match unicast_routes(&data[3..data.len()], afi, &None) {
                Ok(routes) => withdraw.set(family_for_afi(afi), routes),
                Err(_) => return Err(BgpError::MpUnreachNlri),
            }
        }
    }
    let name = match attr_name(code) {
        Some(n) => n.to_owned(),
        None => {
            let mut s = "ATTR_".to_owned();
            push_decimal(&mut s, code as u64);
            s
        },
    };
    let flag_bits = AttrFlags {
        optional: flags & 0x80 != 0,
        transitive: flags & 0x40 != 0,
        partial: flags & 0x20 != 0,
        extended_length: flags & 0x10 != 0,
    };
    let content = match attr_value(code, data, asn_len, trailing_next_hop) {
        Ok(v) => AttrContent::Value(v),
        Err(_) => AttrContent::Raw(hex_encode(data)),
    };
    let attr = PathAttribute { code, name, flags: flag_bits, length: data.len(), content };
    assert(attr@.name =~= attr_label(code));
    Ok(attr)
}

/// The state of an UPDATE walk: the announced and withdrawn routes so far,
/// the next hop for the trailing NLRI, and the attributes reported so far.
pub struct WalkState {
    pub announce: TableView,
    pub withdraw: TableView,
    pub next_hop: Option<Seq<char>>,
    pub attributes: Seq<PathAttributeView>,
}

/// The walk state that the decoder's tables, next hop and attributes stand for.
pub open spec fn state_of(
    announce: FamilyRoutes,
    withdraw: FamilyRoutes,
    next_hop: Option<String>,
    attributes: Seq<PathAttribute>,
) -> WalkState {
    WalkState {
        announce: announce@,
        withdraw: withdraw@,
        next_hop: opt_text(next_hop),
        attributes: attributes_view(attributes),
    }
}

/// The walk state after attribute `code` with flags `f` and data `d`.
#[verifier::opaque]
pub open spec fn attr_step(f: u8, code: u8, d: Seq<u8>, w: nat, st: WalkState) -> Result<WalkState, BgpError> {
    match mp_effect(code, d, st.announce, st.withdraw) {
        Err(e) => Err(e),
        Ok((a, wd)) => Ok(
            WalkState {
                announce: a,
                withdraw: wd,
                next_hop: next_hop_effect(code, d, st.next_hop),
                attributes: st.attributes.push(attribute_of(f, code, d, w)),
            },
        ),
    }
}

/// Walks the path attributes of `b` from `off` up to `end`: each has a flags
/// byte, a code byte, a length of two bytes when the extended-length flag
/// (0x10) is set and of one byte otherwise, and that many bytes of data, all
/// within `end`.
pub open spec fn attrs_walk(b: Seq<u8>, off: int, end: int, w: nat, st: WalkState) -> Result<WalkState, BgpError>
    decreases end - off,
{
    if 0 <= off < end && end <= b.len() {
        if off + 2 > end {
            Err(BgpError::TruncatedAttributeHeader)
        } else {
            let f = b[off];
            let code = b[off + 1];
            let p = off + 2;
            let header: Result<(int, int), BgpError> = if f & 0x10 != 0 {
                if p + 2 > end {
                    Err(BgpError::TruncatedExtendedLength)
                } else {
                    Ok((be16_at(b, p) as int, p + 2))
                }
            } else if p >= end {
                Err(BgpError::TruncatedLength)
            } else {
                Ok((b[p] as int, p + 1))
            };
            match header {
                Err(e) => Err(e),
                Ok((alen, q)) => {
                    if q + alen > end {
                        Err(BgpError::AttributeExceedsLength)
                    } else {
                        match attr_step(f, code, b.subrange(q, q + alen), w, st) {
                            Err(e) => Err(e),
                            Ok(st2) => attrs_walk(b, q + alen, end, w, st2),
                        }
                    }
                },
            }
        }
    } else {
        Ok(st)
    }
}

/// What the contracts see of a decoded UPDATE.
pub struct UpdateView {
    pub announce: TableView,
    pub withdraw: TableView,
    pub attributes: Seq<PathAttributeView>,
}

/// The outcome of decoding UPDATE body `b` with AS numbers of `w` bytes:
/// the withdrawn-routes length and routes, the path-attributes length and
/// attributes, then IPv4 NLRI to the end of the body. The withdrawn routes
/// become the IPv4 withdrawals and the trailing NLRI the IPv4
/// announcements, with the NEXT_HOP attribute's address as next hop; both
/// replace what a multiprotocol attribute gave for IPv4.
pub open spec fn update_outcome(b: Seq<u8>, w: usize) -> Result<UpdateView, BgpError> {
    if w != 2 && w != 4 {
        Err(BgpError::InvalidAsnLength)
    } else if b.len() < 2 {
        Err(BgpError::WithdrawnLengthMissing)
    } else {
        let wl = be16_at(b, 0) as int;
        if 2 + wl > b.len() {
            Err(BgpError::WithdrawnLengthExceedsBody)
        } else if 2 + wl + 2 > b.len() {
            Err(BgpError::AttributesLengthMissing)
        } else {
            let start = 2 + wl + 2;
            let end = start + be16_at(b, 2 + wl);
            if end > b.len() {
                Err(BgpError::AttributesLengthExceedsBody)
            } else {
                let init = WalkState {
                    announce: Seq::empty(),
                    withdraw: Seq::empty(),
                    next_hop: None,
                    attributes: Seq::empty(),
                };
                match attrs_walk(b, start, end, w as nat, init) {
                    Err(e) => Err(e),
                    Ok(st) => {
                        let withdrawn = if wl > 0 {
                            match unicast_nlri(b.subrange(2, 2 + wl), 1, None) {
                                Some(rs) => Ok(table_set(st.withdraw, AddressFamily::Ipv4Unicast, rs)),
                                None => Err(BgpError::WithdrawnNlri),
                            }
                        } else {
                            Ok(st.withdraw)
                        };
                        match withdrawn {
                            Err(e) => Err(e),
                            Ok(wd) => {
                                let announced = if end < b.len() {
                                    match unicast_nlri(b.subrange(end, b.len() as int), 1, st.next_hop) {
                                        Some(rs) => Ok(table_set(st.announce, AddressFamily::Ipv4Unicast, rs)),
                                        None => Err(BgpError::TrailingNlri),
                                    }
                                } else {
                                    Ok(st.announce)
                                };
                                match announced {
                                    Err(e) => Err(e),
                                    Ok(an) => Ok(UpdateView { announce: an, withdraw: wd, attributes: st.attributes }),
                                }
                            },
                        }
                    },
                }
            }
        }
    }
}

/// A decoded UPDATE: routes announced and withdrawn per family, and the
/// path attributes in the order they came.
#[derive(Debug)]
pub struct UpdateDetails {
    pub announce: FamilyRoutes,
    pub withdraw: FamilyRoutes,
    pub path_attributes: Vec<PathAttribute>,
}

impl View for UpdateDetails {
    type V = UpdateView;

    open spec fn view(&self) -> UpdateView {
        UpdateView {
            announce: self.announce@,
            withdraw: self.withdraw@,
            attributes: attributes_view(self.path_attributes@),
        }
    }
}

/// Decodes the path attribute at `offset` (within `attr_end`), applies it
/// and gives the offset after it.
fn next_attribute(
    body: &[u8],
    offset: usize,
    attr_end: usize,
    asn_len: usize,
    announce: &mut FamilyRoutes,
    withdraw: &mut FamilyRoutes,
    trailing_next_hop: &mut Option<String>,
    path_attributes: &mut Vec<PathAttribute>,
) -> (r: Result<usize, BgpError>)
    requires
        asn_len == 2 || asn_len == 4,
        offset < attr_end <= body@.len(),
    ensures
        match r {
            Ok(next) => {
                &&& offset < next <= attr_end
                &&& attrs_walk(
                    body@,
                    offset as int,
                    attr_end as int,
                    asn_len as nat,
                    state_of(*old(announce), *old(withdraw), *old(trailing_next_hop), old(path_attributes)@),
                ) == attrs_walk(
                    body@,
                    next as int,
                    attr_end as int,
                    asn_len as nat,
                    state_of(*final(announce), *final(withdraw), *final(trailing_next_hop), final(path_attributes)@),
                )
            },
            Err(e) => attrs_walk(
                body@,
                offset as int,
                attr_end as int,
                asn_len as nat,
                state_of(*old(announce), *old(withdraw), *old(trailing_next_hop), old(path_attributes)@),
            ) == Err::<WalkState, BgpError>(e),
        },
{
    let ghost st = state_of(*announce, *withdraw, *trailing_next_hop, path_attributes@);
    if attr_end - offset < 2 {
        return Err(BgpError::TruncatedAttributeHeader);
    }
    let flags = body[offset];
    let code = body[offset + 1];
    let mut pos = offset + 2;
    let alen: usize = if flags & 0x10 != 0 {
        if attr_end - pos < 2 {
            return Err(BgpError::TruncatedExtendedLength);
        }
        let n = read_u16(body, pos) as usize;
        pos += 2;
        n
    } else {
        if pos >= attr_end {
            return Err(BgpError::TruncatedLength);
        }
        let n = body[pos] as usize;
        pos += 1;
        n
    };
    if alen > attr_end - pos {
        return Err(BgpError::AttributeExceedsLength);
    }
    let data = &body[pos..pos + alen];
    let ghost d = body@.subrange(pos as int, pos + alen);
    assert(data@ == d);
    let ghost before = attributes_view(path_attributes@);
    let attr = match path_attr(flags, code, data, asn_len, announce, withdraw, trailing_next_hop) {
        Ok(a) => a,
        Err(e) => {
            proof {
                reveal(attr_step);
            }
            return Err(e);
        },
    };
    path_attributes.push(attr);
    assert(attributes_view(path_attributes@) =~= before.push(attr@));
    proof {
        reveal(attr_step);
        assert(attr_step(flags, code, d, asn_len as nat, st) == Ok::<WalkState, BgpError>(
            state_of(*announce, *withdraw, *trailing_next_hop, path_attributes@),
        ));
    }
    Ok(pos + alen)
}

/// Decodes an UPDATE body (see `update_outcome`); `asn_len` is the width of
/// AS numbers in AS_PATH, 2 or 4 as the session negotiated.
pub fn parse_update_details(body: &[u8], asn_len: usize) -> (r: Result<UpdateDetails, BgpError>)
    ensures
        match r {
            Ok(u) => update_outcome(body@, asn_len) == Ok::<UpdateView, BgpError>(u@),
            Err(e) => update_outcome(body@, asn_len) == Err::<UpdateView, BgpError>(e),
        },
{
    if asn_len != 2 && asn_len != 4 {
        return Err(BgpError::InvalidAsnLength);
    }
    if body.len() < 2 {
        return Err(BgpError::WithdrawnLengthMissing);
    }
    let withdrawn_len = read_u16(body, 0) as usize;
    let mut offset: usize = 2;
    if withdrawn_len > body.len() - offset {
        return Err(BgpError::WithdrawnLengthExceedsBody);
    }
    let withdrawn_payload = &body[offset..offset + withdrawn_len];
    offset += withdrawn_len;
    if body.len() - offset < 2 {
        return Err(BgpError::AttributesLengthMissing);
    }
    let attr_len = read_u16(body, offset) as usize;
    offset += 2;
    if attr_len > body.len() - offset {
        return Err(BgpError::AttributesLengthExceedsBody);
    }
    let attr_end = offset + attr_len;

    let mut announce = FamilyRoutes::new();
    let mut withdraw = FamilyRoutes::new();
    let mut path_attributes: Vec<PathAttribute> = Vec::new();
    let mut trailing_next_hop: Option<String> = None;
    let ghost init = WalkState {
        announce: Seq::empty(),
        withdraw: Seq::empty(),
        next_hop: None,
        attributes: Seq::empty(),
    };
    assert(attributes_view(path_attributes@) =~= Seq::<PathAttributeView>::empty());

    while offset < attr_end
        invariant
            asn_len == 2 || asn_len == 4,
            offset <= attr_end <= body@.len(),
            body@.len() >= 4 + withdrawn_len,
            withdrawn_len == be16_at(body@, 0),
            attr_end == 4 + withdrawn_len + be16_at(body@, 2 + withdrawn_len),
            init == (WalkState {
                announce: Seq::empty(),
                withdraw: Seq::empty(),
                next_hop: None,
                attributes: Seq::empty(),
            }),
            attrs_walk(body@, (4 + withdrawn_len) as int, attr_end as int, asn_len as nat, init)
                == attrs_walk(
                body@,
                offset as int,
                attr_end as int,
                asn_len as nat,
                state_of(announce, withdraw, trailing_next_hop, path_attributes@),
            ),
        decreases attr_end - offset,
    {
        match next_attribute(
            body,
            offset,
            attr_end,
            asn_len,
            &mut announce,
            &mut withdraw,
            &mut trailing_next_hop,
            &mut path_attributes,
        ) {
            Ok(next) => offset = next,
            Err(e) => return Err(e),
        }
    }

    let ghost st = state_of(announce, withdraw, trailing_next_hop, path_attributes@);
    assert(attrs_walk(body@, offset as int, attr_end as int, asn_len as nat, st) == Ok::<WalkState, BgpError>(st));
    if withdrawn_len > 0 {
        match unicast_routes(withdrawn_payload, 1, &None) {
            Ok(routes) => withdraw.set(AddressFamily::Ipv4Unicast, routes),
            Err(_) => return Err(BgpError::WithdrawnNlri),
        }
    }
    if attr_end < body.len() {
        match unicast_routes(&body[attr_end..body.len()], 1, &trailing_next_hop) {
            Ok(routes) => announce.set(AddressFamily::Ipv4Unicast, routes),
            Err(_) => return Err(BgpError::TrailingNlri),
        }
    }
    let details = UpdateDetails { announce, withdraw, path_attributes };
    Ok(details)
}

/// Every route that an MP_REACH_NLRI attribute of IPv4 or IPv6 unicast
/// announces carries, as next hop, the text of the attribute's next-hop field
/// (the bytes after the next-hop length byte), whichever the family; the
/// withdrawn routes are left alone.
pub proof fn lemma_mp_reach_routes_carry_its_next_hop(d: Seq<u8>, ann: TableView, wd: TableView)
    requires
        distinct_families(ann),
        d.len() > 3,
        be16_at(d, 0) == 1 || be16_at(d, 0) == 2,
        d[2] == 1,
    ensures
        mp_effect(14, d, ann, wd) matches Ok((a, w2)) ==> {
            &&& w2 == wd
            &&& table_get(a, family_of(be16_at(d, 0) as u16)) matches Some(rs)
            &&& forall|i: int| 0 <= i < rs.len() ==> #[trigger] rs[i].1 == Some(
                next_hop_text(d.subrange(4, 4 + d[3] as int)),
            )
        },
{
    if let Ok((a, w2)) = mp_effect(14, d, ann, wd) {
        let afi = be16_at(d, 0);
        let nh = d[3] as int;
        let start = 4 + nh + 1;
        let hop = next_hop_text(d.subrange(4, 4 + nh));
        let p = d.subrange(start, d.len() as int);
        lemma_routes_carry_next_hop(p, afi as u16, Some(hop));
        let rs = unicast_nlri(p, afi as u16, Some(hop)).unwrap();
        lemma_set_then_get(ann, family_of(afi as u16), family_of(afi as u16), rs);
    }
}

/// One path attribute record: flags byte, code and data.
pub type AttrRecord = (u8, u8, Seq<u8>);

/// Whether the record's data length fits its length field: one byte, or two
/// when the extended-length flag (0x10) is set.
pub open spec fn record_fits(r: AttrRecord) -> bool {
    if r.0 & 0x10 != 0 {
        r.2.len() < 65536
    } else {
        r.2.len() < 256
    }
}

/// The bytes of one path attribute record: flags, code, the data length
/// (big-endian in two bytes when the extended-length flag is set, else one
/// byte) and the data.
pub open spec fn encode_attr(r: AttrRecord) -> Seq<u8> {
    if r.0 & 0x10 != 0 {
        seq![r.0, r.1, (r.2.len() / 256) as u8, (r.2.len() % 256) as u8] + r.2
    } else {
        seq![r.0, r.1, r.2.len() as u8] + r.2
    }
}

/// The bytes of a sequence of path attribute records, one after another.
pub open spec fn encode_attrs(rs: Seq<AttrRecord>) -> Seq<u8>
    decreases rs.len(),
{
    if rs.len() == 0 {
        Seq::empty()
    } else {
        encode_attr(rs[0]) + encode_attrs(rs.drop_first())
    }
}

/// The reports of a sequence of records, one per record, in order.
pub open spec fn reports(rs: Seq<AttrRecord>, w: nat) -> Seq<PathAttributeView> {
    Seq::new(rs.len(), |i: int| attribute_of(rs[i].0, rs[i].1, rs[i].2, w))
}

proof fn lemma_walk_records(b: Seq<u8>, off: int, end: int, w: nat, st: WalkState, rs: Seq<AttrRecord>)
    requires
        0 <= off,
        end <= b.len(),
        off + encode_attrs(rs).len() == end,
        b.subrange(off, end) == encode_attrs(rs),
        forall|i: int| 0 <= i < rs.len() ==> #[trigger] record_fits(rs[i]),
    ensures
        attrs_walk(b, off, end, w, st) matches Ok(st2) ==> st2.attributes == st.attributes + reports(rs, w),
    decreases rs.len(),
{
    if rs.len() == 0 {
        assert(reports(rs, w) =~= Seq::<PathAttributeView>::empty());
        assert(st.attributes + reports(rs, w) =~= st.attributes);
    } else {
        let r = rs[0];
        let e = encode_attr(r);
        let rest = rs.drop_first();
        let er = encode_attrs(rest);
        assert(encode_attrs(rs) == e + er);
        assert(record_fits(r));
        let n = r.2.len() as int;
        let hl: int = if r.0 & 0x10 != 0 { 4 } else { 3 };
        assert(e.len() == hl + n);
        assert forall|j: int| 0 <= j < e.len() implies b[off + j] == #[trigger] e[j] by {
            assert(b.subrange(off, end)[j] == b[off + j]);
        }
        assert(e[0] == r.0 && e[1] == r.1);
        assert(b[off] == e[0] && b[off + 1] == e[1]);
        assert(e[2] == b[off + 2]);
        if r.0 & 0x10 != 0 {
            assert(e[3] == b[off + 3]);
        }
        let q = off + hl;
        if r.0 & 0x10 != 0 {
            assert(e[2] == (n / 256) as u8);
            assert(e[3] == (n % 256) as u8);
            assert(be16_at(b, off + 2) == n);
        } else {
            assert(e[2] == n as u8);
        }
        assert(b.subrange(q, q + n) =~= r.2) by {
            assert forall|j: int| 0 <= j < n implies b.subrange(q, q + n)[j] == r.2[j] by {
                assert(e[hl + j] == r.2[j]);
            }
        }
        let off2 = off + e.len();
        assert(b.subrange(off2, end) =~= er) by {
            assert forall|j: int| 0 <= j < er.len() implies b.subrange(off2, end)[j] == er[j] by {
                assert(b.subrange(off, end)[e.len() + j] == b[off2 + j]);
                assert((e + er)[e.len() + j] == er[j]);
            }
        }
        assert forall|i: int| 0 <= i < rest.len() implies #[trigger] record_fits(rest[i]) by {
            assert(rest[i] == rs[i + 1]);
        }
        if off < end {
            reveal(attr_step);
            match attr_step(r.0, r.1, r.2, w, st) {
                Err(_) => {},
                Ok(st1) => {
                    lemma_walk_records(b, off2, end, w, st1, rest);
                    assert(st1.attributes == st.attributes.push(attribute_of(r.0, r.1, r.2, w)));
                    assert(st.attributes.push(attribute_of(r.0, r.1, r.2, w)) + reports(rest, w)
                        =~= st.attributes + reports(rs, w));
                },
            }
        }
    }
}

/// The two bytes of a big-endian 16-bit length.
pub open spec fn length_bytes(n: nat) -> Seq<u8> {
    seq![(n / 256) as u8, (n % 256) as u8]
}

/// An UPDATE body made of a withdrawn-routes section `wr`, an attributes
/// section holding the records `rs`, and trailing NLRI `nlri` reports, when
/// it decodes, exactly one attribute per record, in the records' order, each
/// with the record's code, flags and data length; zero-length records
/// included.
pub proof fn lemma_update_reports_every_attribute(wr: Seq<u8>, rs: Seq<AttrRecord>, nlri: Seq<u8>, w: usize)
    requires
        wr.len() < 65536,
        encode_attrs(rs).len() < 65536,
        forall|i: int| 0 <= i < rs.len() ==> #[trigger] record_fits(rs[i]),
    ensures
        ({
            let b = length_bytes(wr.len()) + wr + length_bytes(encode_attrs(rs).len()) + encode_attrs(rs)
                + nlri;
            update_outcome(b, w) matches Ok(u) ==> {
                &&& u.attributes == reports(rs, w as nat)
                &&& u.attributes.len() == rs.len()
                &&& forall|i: int|
                    0 <= i < rs.len() ==> {
                        &&& (#[trigger] u.attributes[i]).code == rs[i].1
                        &&& u.attributes[i].flags == flags_of(rs[i].0)
                        &&& u.attributes[i].length == rs[i].2.len()
                    }
            }
        }),
{
    let enc = encode_attrs(rs);
    let b = length_bytes(wr.len()) + wr + length_bytes(enc.len()) + enc + nlri;
    let wl = wr.len() as int;
    let start = 4 + wl;
    let end = start + enc.len();
    assert(b[0] == (wr.len() / 256) as u8 && b[1] == (wr.len() % 256) as u8);
    assert(be16_at(b, 0) == wl);
    assert(b[2 + wl] == (enc.len() / 256) as u8 && b[3 + wl] == (enc.len() % 256) as u8);
    assert(be16_at(b, 2 + wl) == enc.len());
    assert(b.subrange(start, end) =~= enc) by {
        assert forall|j: int| 0 <= j < enc.len() implies b.subrange(start, end)[j] == enc[j] by {
            assert(b[start + j] == enc[j]);
        }
    }
    let init = WalkState {
        announce: Seq::empty(),
        withdraw: Seq::empty(),
        next_hop: None,
        attributes: Seq::empty(),
    };
    lemma_walk_records(b, start, end, w as nat, init, rs);
    assert(init.attributes + reports(rs, w as nat) =~= reports(rs, w as nat));
    assert(b.len() == end + nlri.len());
    if let Ok(u) = update_outcome(b, w) {
        match attrs_walk(b, start, end, w as nat, init) {
            Ok(st) => {
                assert(u.attributes == st.attributes);
                assert(u.attributes == reports(rs, w as nat));
                assert forall|i: int| 0 <= i < rs.len() implies {
                    &&& (#[trigger] u.attributes[i]).code == rs[i].1
                    &&& u.attributes[i].flags == flags_of(rs[i].0)
                    &&& u.attributes[i].length == rs[i].2.len()
                } by {
                    assert(record_fits(rs[i]));
                }
            },
            Err(_) => {},
        }
    }
}

} // verus!
