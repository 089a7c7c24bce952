use bgpx::attrs::{AttrValue, as_path, attr_name, communities, ext_communities, large_communities, mp_attr};
use bgpx::error::BgpError;
use bgpx::header::{parse_header, parse_open};
use bgpx::prefix::{mask_prefix, next_hop_string, prefix_string};
use bgpx::routes::{unicast_routes, AddressFamily, FamilyRoutes, Route};
use bgpx::text::{hex_encode, ipv4_string, ipv6_string};
use bgpx::update::{parse_update_details, path_attr, AttrContent};

fn header(len: u16, kind: u8) -> Vec<u8> {
    let mut h = vec![0xffu8; 16];
    h.push((len >> 8) as u8);
    h.push((len & 0xff) as u8);
    h.push(kind);
    h
}

#[test]
fn header_ok() {
    assert_eq!(parse_header(&header(23, 4)), Ok((4, 4)));
    assert_eq!(parse_header(&header(19, 2)), Ok((2, 0)));
}

#[test]
fn header_errors() {
    assert_eq!(parse_header(&[0xff; 18]), Err(BgpError::HeaderTooShort));
    let mut bad = header(23, 4);
    bad[7] = 0;
    assert_eq!(parse_header(&bad), Err(BgpError::InvalidMarker));
    assert_eq!(parse_header(&header(18, 4)), Err(BgpError::LengthBelowMinimum));
}

#[test]
fn error_messages() {
    assert_eq!(BgpError::HeaderTooShort.message(), "Header too short");
    assert_eq!(BgpError::LengthBelowMinimum.message(), "BGP message length below minimum 19");
    assert_eq!(BgpError::InvalidAsnLength.message(), "asn_len must be 2 or 4");
    assert_eq!(BgpError::TrailingNlri.message(), "Failed to parse trailing NLRI");
}

#[test]
fn open_two_byte_as() {
    let body = [4u8, 0xfd, 0xe8, 0, 90, 192, 0, 2, 1, 0];
    let m = parse_open(&body).unwrap();
    assert_eq!(m.version, 4);
    assert_eq!(m.peer_as, 65000);
    assert_eq!(m.hold_time, 90);
    assert_eq!(m.router_id, "192.0.2.1");
    assert!(!m.supports_4byte_asn);
}

#[test]
fn open_four_byte_as_capability() {
    // AS_TRANS in the fixed field, AS 65536 in the capability.
    let body = [4u8, 0x5b, 0xa0, 0, 180, 10, 0, 0, 1, 8, 2, 6, 65, 4, 0, 1, 0, 0];
    let m = parse_open(&body).unwrap();
    assert_eq!(m.peer_as, 65536);
    assert!(m.supports_4byte_asn);
    assert_eq!(m.hold_time, 180);
    assert_eq!(m.router_id, "10.0.0.1");
}

#[test]
fn open_capability_in_other_parameter_is_ignored() {
    let body = [4u8, 0xfd, 0xe8, 0, 90, 1, 2, 3, 4, 8, 1, 6, 65, 4, 0, 1, 0, 0];
    let m = parse_open(&body).unwrap();
    assert_eq!(m.peer_as, 65000);
    assert!(!m.supports_4byte_asn);
}

#[test]
fn open_too_short() {
    assert!(matches!(parse_open(&[4, 0, 1, 0, 90, 1, 2, 3]), Err(BgpError::OpenTooShort)));
}

#[test]
fn ipv4_text() {
    assert_eq!(ipv4_string(&[192, 168, 0, 255], 0), "192.168.0.255");
    assert_eq!(ipv4_string(&[9, 0, 0, 10, 7], 1), "0.0.10.7");
}

#[test]
fn ipv6_text_forms() {
    assert_eq!(ipv6_string(&[0; 16]), "::");
    let mut one = [0u8; 16];
    one[15] = 1;
    assert_eq!(ipv6_string(&one), "::1");
    let mapped = [0, 0, 0, 0, 0, 0, 0, 0, 0, 0, 0xff, 0xff, 1, 2, 3, 4];
    assert_eq!(ipv6_string(&mapped), "::ffff:1.2.3.4");
    let doc = [0x20, 0x01, 0x0d, 0xb8, 0, 0, 0, 0, 0, 0, 0, 0, 0, 0, 0, 1];
    assert_eq!(ipv6_string(&doc), "2001:db8::1");
    let single = [0x20, 0x01, 0x0d, 0xb8, 0, 0, 0, 1, 0, 1, 0, 1, 0, 1, 0, 1];
    assert_eq!(ipv6_string(&single), "2001:db8:0:1:1:1:1:1");
    let tie = [0, 1, 0, 0, 0, 0, 0, 1, 0, 0, 0, 0, 0, 1, 0, 1];
    assert_eq!(ipv6_string(&tie), "1::1:0:0:1:1");
    let longer_later = [0, 1, 0, 0, 0, 0, 0, 2, 0, 0, 0, 0, 0, 0, 0, 0];
    assert_eq!(ipv6_string(&longer_later), "1:0:0:2::");
}

#[test]
fn hex_dump() {
    assert_eq!(hex_encode(&[0x00, 0xab, 0x1f]), "00ab1f");
    assert_eq!(hex_encode(&[]), "");
    assert_eq!(hex_encode(&[7; 13]).len(), 26);
}

#[test]
fn decimal_and_hex_digits() {
    let mut s = String::new();
    bgpx::text::push_decimal(&mut s, 4294967295);
    assert_eq!(s, "4294967295");
    let mut z = String::new();
    bgpx::text::push_decimal(&mut z, 0);
    assert_eq!(z, "0");
    let mut h = String::new();
    bgpx::text::push_hex(&mut h, 0xbeef);
    assert_eq!(h, "beef");
    let l = large_communities(&[0xff; 12]).unwrap();
    assert_eq!(l, vec!["4294967295:4294967295:4294967295"]);
}

#[test]
fn mask_clears_host_bits() {
    let mut a = vec![0xffu8, 0xff, 0xff, 0xff];
    mask_prefix(&mut a, 20);
    assert_eq!(a, vec![0xff, 0xff, 0xf0, 0]);
    let mut b = vec![0xffu8; 4];
    mask_prefix(&mut b, 0);
    assert_eq!(b, vec![0, 0, 0, 0]);
    let mut c = vec![0xabu8; 4];
    mask_prefix(&mut c, 32);
    assert_eq!(c, vec![0xab; 4]);
}

#[test]
fn mask_twice_is_mask_once() {
    let mut a = vec![0x5au8, 0xc3, 0x99, 0x17];
    mask_prefix(&mut a, 13);
    let once = a.clone();
    mask_prefix(&mut a, 13);
    assert_eq!(a, once);
    assert_eq!(once, vec![0x5a, 0xc0, 0, 0]);
}

#[test]
fn prefixes() {
    assert_eq!(prefix_string(&[10, 1, 2], 23, 1, true), Ok("10.1.2.0/23".to_string()));
    assert_eq!(prefix_string(&[10, 1, 3], 23, 1, true), Ok("10.1.2.0/23".to_string()));
    assert_eq!(prefix_string(&[10, 1, 3], 23, 1, false), Ok("10.1.3.0/23".to_string()));
    assert_eq!(prefix_string(&[], 0, 1, true), Ok("0.0.0.0/0".to_string()));
    assert_eq!(prefix_string(&[0x20, 0x01, 0x0d, 0xb8], 32, 2, true), Ok("2001:db8::/32".to_string()));
    assert_eq!(prefix_string(&[1], 8, 3, true), Err(()));
}

#[test]
fn next_hops() {
    assert_eq!(next_hop_string(&[]), "");
    assert_eq!(next_hop_string(&[192, 0, 2, 1]), "192.0.2.1");
    let mut two = vec![0x20u8, 0x01, 0x0d, 0xb8];
    two.extend_from_slice(&[0; 11]);
    two.push(1);
    two.extend_from_slice(&[0xfe, 0x80]);
    two.extend_from_slice(&[0; 13]);
    two.push(2);
    assert_eq!(next_hop_string(&two), "2001:db8::1,fe80::2");
    assert_eq!(next_hop_string(&[1, 2, 3]), "010203");
}

#[test]
fn nlri_routes() {
    let nh = Some("192.0.2.1".to_string());
    let routes = unicast_routes(&[24, 192, 168, 1, 0, 8, 10], 1, &nh).unwrap();
    assert_eq!(routes.len(), 3);
    assert_eq!(routes[0].prefix, "192.168.1.0/24");
    assert_eq!(routes[1].prefix, "0.0.0.0/0");
    assert_eq!(routes[2].prefix, "10.0.0.0/8");
    assert!(routes.iter().all(|r| r.next_hop == nh));
    assert!(unicast_routes(&[], 1, &None).unwrap().is_empty());
}

#[test]
fn nlri_errors() {
    assert_eq!(unicast_routes(&[33, 1, 2, 3, 4, 5], 1, &None).map(|v| v.len()), Err(()));
    assert_eq!(unicast_routes(&[24, 192, 168], 1, &None).map(|v| v.len()), Err(()));
    assert_eq!(unicast_routes(&[8, 10], 7, &None).map(|v| v.len()), Err(()));
    assert!(unicast_routes(&[128, 0x20, 1, 0xd, 0xb8, 0, 0, 0, 0, 0, 0, 0, 0, 0, 0, 0, 1], 2, &None).is_ok());
}

#[test]
fn family_table_set_and_get() {
    let mut t = FamilyRoutes::new();
    let r = |p: &str| Route { prefix: p.to_string(), next_hop: None };
    t.set(AddressFamily::Ipv6Unicast, vec![r("::/0")]);
    t.set(AddressFamily::Ipv4Unicast, vec![r("10.0.0.0/8")]);
    t.set(AddressFamily::Ipv6Unicast, vec![r("2001:db8::/32")]);
    assert_eq!(t.len(), 2);
    assert_eq!(t.entries()[0].family, AddressFamily::Ipv6Unicast);
    assert_eq!(t.get(AddressFamily::Ipv6Unicast).unwrap()[0].prefix, "2001:db8::/32");
    assert_eq!(t.get(AddressFamily::Ipv4Unicast).unwrap()[0].prefix, "10.0.0.0/8");
    assert_eq!(AddressFamily::Ipv4Unicast.key(), "ipv4-unicast");
    assert_eq!(AddressFamily::Ipv6Unicast.key(), "ipv6-unicast");
}

#[test]
fn attribute_names() {
    assert_eq!(attr_name(1), Some("ORIGIN"));
    assert_eq!(attr_name(4), Some("MULTI_EXIT_DISC"));
    assert_eq!(attr_name(25), Some("IPV6_ADDRESS_SPECIFIC_EXTENDED_COMMUNITIES"));
    assert_eq!(attr_name(99), None);
}

#[test]
fn as_paths() {
    let p = as_path(&[2, 2, 0xfd, 0xe8, 0, 100, 1, 1, 0, 7], 2).unwrap();
    assert_eq!(p.len(), 2);
    assert_eq!(p[0].segment_type, "AS_SEQUENCE");
    assert_eq!(p[0].asns, vec![65000, 100]);
    assert_eq!(p[1].segment_type, "AS_SET");
    assert_eq!(p[1].asns, vec![7]);
    let p4 = as_path(&[2, 1, 0, 1, 0, 0, 9, 0], 4).unwrap();
    assert_eq!(p4[0].asns, vec![65536]);
    assert_eq!(p4[1].segment_type, "SEGMENT_UNKNOWN");
    assert!(p4[1].asns.is_empty());
    assert!(as_path(&[2, 2, 0, 1], 2).is_err());
    assert!(as_path(&[2, 0, 5], 2).is_err());
}

#[test]
fn community_lists() {
    let c = communities(&[0xff, 0xff, 0xff, 0x01, 0, 100, 0, 200, 0xff, 0xff, 0xff, 0x04]).unwrap();
    assert_eq!(c, vec!["NO_EXPORT", "100:200", "NOPEER"]);
    assert!(communities(&[1, 2, 3]).is_err());
    let l = large_communities(&[0, 0, 0xfd, 0xe8, 0, 0, 0, 1, 0, 0, 0, 2]).unwrap();
    assert_eq!(l, vec!["65000:1:2"]);
    assert!(large_communities(&[0; 11]).is_err());
}

#[test]
fn extended_community_lists() {
    let data = [
        0x00, 0x02, 0xfd, 0xe8, 0, 0, 0, 100, // two-octet AS route target
        0x01, 0x03, 192, 0, 2, 1, 0, 7, // IPv4 address specific site of origin
        0x42, 0x02, 0, 1, 0, 0, 0, 9, // four-octet AS, non-transitive
        0x43, 0x0b, 1, 2, 3, 4, 0xab, 0xcd, // opaque
    ];
    let c = ext_communities(&data).unwrap();
    assert_eq!(c, vec!["00:02:65000:100", "01:03:192.0.2.1:7", "42:02:65536:9", "43:0b:01020304abcd"]);
    assert!(ext_communities(&[0; 7]).is_err());
    assert!(ext_communities(&[]).unwrap().is_empty());
    let body = update_body(&[], &[0xc0, 16, 3, 1, 2, 3], &[]);
    let u = parse_update_details(&body, 2).unwrap();
    assert!(matches!(&u.path_attributes[0].content, AttrContent::Raw(h) if h == "010203"));
}

#[test]
fn multiprotocol_summary() {
    let m = mp_attr(14, &[0, 1, 1, 4, 10, 0, 0, 1, 0, 8, 10]).unwrap();
    assert_eq!((m.afi, m.safi), (1, 1));
    assert_eq!(m.next_hop.as_deref(), Some("10.0.0.1"));
    assert_eq!(m.nlri_length, Some(2));
    let u = mp_attr(15, &[0, 2, 1, 32, 0x20]).unwrap();
    assert_eq!(u.next_hop, None);
    assert_eq!(u.nlri_length, Some(2));
    assert!(mp_attr(15, &[0, 2]).is_err());
    let cut = mp_attr(14, &[0, 1, 1, 9, 1]).unwrap();
    assert_eq!((cut.next_hop, cut.nlri_length), (None, None));
}

fn update_body(withdrawn: &[u8], attrs: &[u8], nlri: &[u8]) -> Vec<u8> {
    let mut b = vec![(withdrawn.len() >> 8) as u8, withdrawn.len() as u8];
    b.extend_from_slice(withdrawn);
    b.push((attrs.len() >> 8) as u8);
    b.push(attrs.len() as u8);
    b.extend_from_slice(attrs);
    b.extend_from_slice(nlri);
    b
}

#[test]
fn update_ipv4() {
    let attrs = [
        0x40, 1, 1, 0, // ORIGIN igp
        0x40, 2, 6, 2, 2, 0xfd, 0xe8, 0, 100, // AS_PATH
        0x40, 3, 4, 192, 0, 2, 1, // NEXT_HOP
        0x80, 4, 4, 0, 0, 0, 100, // MED
        0xc0, 8, 8, 0xff, 0xff, 0xff, 0x01, 0, 100, 0, 200, // COMMUNITIES
        0xc0, 16, 8, 0, 2, 0xfd, 0xe8, 0, 0, 0, 1, // extended communities: route target
    ];
    let body = update_body(&[8, 10], &attrs, &[24, 192, 168, 1]);
    let u = parse_update_details(&body, 2).unwrap();
    assert_eq!(u.path_attributes.len(), 6);
    let a = &u.path_attributes;
    assert_eq!(a[0].name, "ORIGIN");
    assert!(matches!(a[0].content, AttrContent::Value(AttrValue::Origin("igp"))));
    assert!(a[0].flags.transitive && !a[0].flags.optional);
    assert_eq!(a[1].length, 6);
    match &a[1].content {
        AttrContent::Value(AttrValue::AsPath(p)) => assert_eq!(p[0].asns, vec![65000, 100]),
        _ => panic!("AS_PATH not decoded"),
    }
    assert!(matches!(a[3].content, AttrContent::Value(AttrValue::Number(100))));
    assert_eq!(a[5].name, "EXTENDED_COMMUNITIES");
    match &a[5].content {
        AttrContent::Value(AttrValue::ExtendedCommunities(c)) => assert_eq!(c, &vec!["00:02:65000:1"]),
        _ => panic!("extended communities not decoded"),
    }
    let ann = u.announce.get(AddressFamily::Ipv4Unicast).unwrap();
    assert_eq!(ann.len(), 1);
    assert_eq!(ann[0].prefix, "192.168.1.0/24");
    assert_eq!(ann[0].next_hop.as_deref(), Some("192.0.2.1"));
    let wd = u.withdraw.get(AddressFamily::Ipv4Unicast).unwrap();
    assert_eq!(wd[0].prefix, "10.0.0.0/8");
    assert_eq!(wd[0].next_hop, None);
    assert_eq!(u.announce.len(), 1);
    assert_eq!(u.withdraw.len(), 1);
}

#[test]
fn update_ipv6_reach_and_unreach() {
    let mut reach = vec![0x80u8, 14, 0, 0, 2, 1, 16, 0x20, 0x01, 0x0d, 0xb8];
    reach.extend_from_slice(&[0; 11]);
    reach.push(1);
    reach.extend_from_slice(&[0, 32, 0x20, 0x01, 0x0d, 0xb8]);
    reach[2] = (reach.len() - 3) as u8;
    let unreach = [0x80u8, 15, 6, 0, 2, 1, 16, 0xfe, 0x80];
    let mut attrs = reach.clone();
    attrs.extend_from_slice(&unreach);
    let body = update_body(&[], &attrs, &[]);
    let u = parse_update_details(&body, 4).unwrap();
    let ann = u.announce.get(AddressFamily::Ipv6Unicast).unwrap();
    assert_eq!(ann[0].prefix, "2001:db8::/32");
    assert_eq!(ann[0].next_hop.as_deref(), Some("2001:db8::1"));
    let wd = u.withdraw.get(AddressFamily::Ipv6Unicast).unwrap();
    assert_eq!(wd[0].prefix, "fe80::/16");
    assert!(u.announce.get(AddressFamily::Ipv4Unicast).is_none());
    match &u.path_attributes[0].content {
        AttrContent::Value(AttrValue::Multiprotocol(m)) => {
            assert_eq!(m.afi, 2);
            assert_eq!(m.next_hop.as_deref(), Some("2001:db8::1"));
            assert_eq!(m.nlri_length, Some(5));
        }
        _ => panic!("MP_REACH not summarized"),
    }
}

#[test]
fn update_unknown_attribute_named_by_code() {
    let body = update_body(&[], &[0xc0, 99, 2, 0xab, 0xcd], &[]);
    let u = parse_update_details(&body, 2).unwrap();
    assert_eq!(u.path_attributes[0].name, "ATTR_99");
    assert!(matches!(&u.path_attributes[0].content, AttrContent::Raw(h) if h == "abcd"));
    assert_eq!(u.announce.len(), 0);
}

#[test]
fn update_extended_length_attribute() {
    let body = update_body(&[], &[0x50, 1, 0, 1, 2], &[]);
    let u = parse_update_details(&body, 2).unwrap();
    assert!(u.path_attributes[0].flags.extended_length);
    assert!(matches!(u.path_attributes[0].content, AttrContent::Value(AttrValue::Origin("incomplete"))));
}

#[test]
fn update_errors() {
    let e = |b: &[u8], w: usize| parse_update_details(b, w).err();
    assert_eq!(e(&[0, 0, 0, 0], 3), Some(BgpError::InvalidAsnLength));
    assert_eq!(e(&[0], 2), Some(BgpError::WithdrawnLengthMissing));
    assert_eq!(e(&[0, 5, 1], 2), Some(BgpError::WithdrawnLengthExceedsBody));
    assert_eq!(e(&[0, 0, 0], 2), Some(BgpError::AttributesLengthMissing));
    assert_eq!(e(&[0, 0, 0, 9], 2), Some(BgpError::AttributesLengthExceedsBody));
    assert_eq!(e(&update_body(&[], &[0x40], &[]), 2), Some(BgpError::TruncatedAttributeHeader));
    assert_eq!(e(&update_body(&[], &[0x50, 1, 0], &[]), 2), Some(BgpError::TruncatedExtendedLength));
    assert_eq!(e(&update_body(&[], &[0x40, 1], &[]), 2), Some(BgpError::TruncatedLength));
    assert_eq!(e(&update_body(&[], &[0x40, 1, 2, 0], &[]), 2), Some(BgpError::AttributeExceedsLength));
    assert_eq!(e(&update_body(&[], &[0x80, 14, 4, 0, 1, 1, 9], &[]), 2), Some(BgpError::MpReachNextHopTooLong));
    assert_eq!(e(&update_body(&[], &[0x80, 14, 6, 0, 1, 1, 0, 0, 40], &[]), 2), Some(BgpError::MpReachNlri));
    assert_eq!(e(&update_body(&[], &[0x80, 15, 4, 0, 1, 1, 40], &[]), 2), Some(BgpError::MpUnreachNlri));
    assert_eq!(e(&update_body(&[33, 1], &[], &[]), 2), Some(BgpError::WithdrawnNlri));
    assert_eq!(e(&update_body(&[], &[], &[24, 1]), 2), Some(BgpError::TrailingNlri));
}

#[test]
fn update_trailing_nlri_replaces_mp_ipv4() {
    // MP_REACH for IPv4 unicast, then trailing NLRI for IPv4 without NEXT_HOP.
    let reach = [0x80u8, 14, 11, 0, 1, 1, 4, 10, 0, 0, 1, 0, 8, 10];
    let body = update_body(&[], &reach, &[16, 172, 16]);
    let u = parse_update_details(&body, 2).unwrap();
    let ann = u.announce.get(AddressFamily::Ipv4Unicast).unwrap();
    assert_eq!(ann.len(), 1);
    assert_eq!(ann[0].prefix, "172.16.0.0/16");
    assert_eq!(ann[0].next_hop, None);
    assert_eq!(u.announce.len(), 1);
}

#[test]
fn path_attr_error_leaves_state_alone() {
    let mut ann = FamilyRoutes::new();
    ann.set(AddressFamily::Ipv4Unicast, vec![Route { prefix: "10.0.0.0/8".to_string(), next_hop: None }]);
    let mut wd = FamilyRoutes::new();
    let mut nh = Some("192.0.2.1".to_string());
    let r = path_attr(0x80, 14, &[0, 1, 1, 4, 10, 0, 0, 1, 0, 40], 2, &mut ann, &mut wd, &mut nh);
    assert_eq!(r.err(), Some(BgpError::MpReachNlri));
    assert_eq!(ann.len(), 1);
    assert_eq!(ann.get(AddressFamily::Ipv4Unicast).unwrap()[0].prefix, "10.0.0.0/8");
    assert_eq!(wd.len(), 0);
    assert_eq!(nh.as_deref(), Some("192.0.2.1"));
    let r2 = path_attr(0x80, 14, &[0, 7, 1, 9, 1], 2, &mut ann, &mut wd, &mut nh);
    assert_eq!(r2.err(), Some(BgpError::MpReachNextHopTooLong));
    assert_eq!(ann.len(), 1);
}
