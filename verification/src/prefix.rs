//! Prefixes and next hops: masking host bits, and the textual forms the
//! decoder hands out.

use vstd::prelude::*;

use crate::text::{
    decimal, hex_pairs, ipv4_at, ipv4_string, ipv6_string, ipv6_text, push_char, push_decimal, push_str,
};

verus! {

/// Byte `b` with only its `n` most significant bits kept (all of them when
/// `n >= 8`, none when `n <= 0`).
pub open spec fn mask_byte(b: u8, n: int) -> u8 {
    if n >= 8 {
        b
    } else if n <= 0 {
        0
    } else {
        b & (0xffu8 << ((8 - n) as u32))
    }
}

/// Address bytes `a` with every bit past the first `p` bits cleared.
pub open spec fn masked(a: Seq<u8>, p: nat) -> Seq<u8> {
    Seq::new(a.len(), |i: int| mask_byte(a[i], p - 8 * i))
}

/// Bit `j` of the address `a`, counted from the most significant bit of `a[0]`.
pub open spec fn addr_bit(a: Seq<u8>, j: int) -> bool {
    (a[j / 8] >> ((7 - j % 8) as u32)) & 1u8 == 1u8
}

/// Clears every bit of `address` past the first `prefix_len` bits.
pub fn mask_prefix(address: &mut Vec<u8>, prefix_len: usize)
    requires
        prefix_len <= 8 * old(address)@.len(),
    ensures
        final(address)@ == masked(old(address)@, prefix_len as nat),
{
    let full_bytes = prefix_len / 8;
    let remaining_bits = prefix_len % 8;
    assert(prefix_len == 8 * full_bytes + remaining_bits);
    if remaining_bits != 0 && full_bytes < address.len() {
        let b = address[full_bytes];
        address.set(full_bytes, b & (0xffu8 << ((8 - remaining_bits) as u32)));
    }
    let zero_from = if remaining_bits != 0 { full_bytes + 1 } else { full_bytes };
    let ghost mid = address@;
    assert(forall|k: int| 0 <= k < mid.len() && k != full_bytes ==> mid[k] == old(address)@[k]);
    assert(remaining_bits != 0 && full_bytes < mid.len() ==> mid[full_bytes as int] == old(
        address,
    )@[full_bytes as int] & (0xffu8 << ((8 - remaining_bits) as u32)));
    assert(remaining_bits == 0 && full_bytes < mid.len() ==> mid[full_bytes as int] == old(
        address,
    )@[full_bytes as int]);
    let mut i = zero_from;
    while i < address.len()
        invariant
            zero_from <= i <= address@.len(),
            address@.len() == mid.len(),
            forall|k: int| 0 <= k < zero_from ==> address@[k] == mid[k],
            forall|k: int| zero_from <= k < i ==> address@[k] == 0,
        decreases address@.len() - i,
    {
        address.set(i, 0);
        i += 1;
    }
    assert forall|k: int| 0 <= k < address@.len() implies address@[k] == mask_byte(
        old(address)@[k],
        prefix_len - 8 * k,
    ) by {
        if k < full_bytes {
            assert(prefix_len - 8 * k >= 8);
            assert(address@[k] == mid[k]);
            assert(address@[k] == old(address)@[k]);
        } else if k == full_bytes && remaining_bits != 0 {
            assert(prefix_len - 8 * k == remaining_bits);
            assert(address@[k] == mid[k]);
        } else {
            assert(k >= zero_from);
            assert(prefix_len - 8 * k <= 0);
            assert(address@[k] == 0);
        }
    }
    assert(address@ =~= masked(old(address)@, prefix_len as nat));
}

/// Masking twice with the same prefix length is masking once.
pub proof fn lemma_mask_idempotent(a: Seq<u8>, p: nat)
    ensures
        masked(masked(a, p), p) == masked(a, p),
{
    assert forall|i: int| 0 <= i < a.len() implies mask_byte(mask_byte(a[i], p - 8 * i), p - 8 * i)
        == mask_byte(a[i], p - 8 * i) by {
        let n = p - 8 * i;
        if 0 < n < 8 {
            let b = a[i];
            let s = (8 - n) as u32;
            assert((b & (0xffu8 << s)) & (0xffu8 << s) == b & (0xffu8 << s)) by (bit_vector);
        }
    }
    assert(masked(masked(a, p), p) =~= masked(a, p));
}

/// After masking, bit `j` of the address is set exactly when `j` lies within
/// the first `p` bits and was set before.
pub proof fn lemma_mask_keeps_prefix_bits(a: Seq<u8>, p: nat, j: int)
    requires
        0 <= j < 8 * a.len(),
    ensures
        addr_bit(masked(a, p), j) == (j < p && addr_bit(a, j)),
{
    let i = j / 8;
    let k = j % 8;
    assert(j == 8 * i + k);
    let b = a[i];
    let n = p - 8 * i;
    let kk = (7 - k) as u32;
    if n >= 8 {
    } else if n <= 0 {
        assert((0u8 >> kk) & 1u8 == 0u8) by (bit_vector);
    } else {
        let s = (8 - n) as u32;
        let k8 = k as u32;
        assert(kk == 7 - k8);
        assert(1 <= s <= 7 && k8 < 8 && kk == 7 - k8 ==> (((b & (0xffu8 << s)) >> kk) & 1u8 == 1u8) == (k8
            < 8 - s && (b >> kk) & 1u8 == 1u8)) by (bit_vector);
    }
}

/// Bit `q` (counted from the least significant) of byte `b`.
pub open spec fn byte_bit(b: u8, q: u32) -> bool {
    (b >> q) & 1u8 == 1u8
}

/// Bit `k` (counted from the most significant) is the same in `b1` and `b2`.
pub open spec fn bits_agree(b1: u8, b2: u8, k: int) -> bool {
    byte_bit(b1, (7 - k) as u32) == byte_bit(b2, (7 - k) as u32)
}

proof fn lemma_mask_byte_depends_on_kept_bits(b1: u8, b2: u8, n: int)
    requires
        forall|k: int| 0 <= k < 8 && k < n ==> #[trigger] bits_agree(b1, b2, k),
    ensures
        mask_byte(b1, n) == mask_byte(b2, n),
{
    if n > 0 { assert(bits_agree(b1, b2, 0)); }
    if n > 1 { assert(bits_agree(b1, b2, 1)); }
    if n > 2 { assert(bits_agree(b1, b2, 2)); }
    if n > 3 { assert(bits_agree(b1, b2, 3)); }
    if n > 4 { assert(bits_agree(b1, b2, 4)); }
    if n > 5 { assert(bits_agree(b1, b2, 5)); }
    if n > 6 { assert(bits_agree(b1, b2, 6)); }
    if n > 7 { assert(bits_agree(b1, b2, 7)); }
    if n >= 8 {
        assert(b1 == b2) by (bit_vector)
            requires
                (b1 >> 0u32) & 1u8 == 1u8 <==> (b2 >> 0u32) & 1u8 == 1u8,
                (b1 >> 1u32) & 1u8 == 1u8 <==> (b2 >> 1u32) & 1u8 == 1u8,
                (b1 >> 2u32) & 1u8 == 1u8 <==> (b2 >> 2u32) & 1u8 == 1u8,
                (b1 >> 3u32) & 1u8 == 1u8 <==> (b2 >> 3u32) & 1u8 == 1u8,
                (b1 >> 4u32) & 1u8 == 1u8 <==> (b2 >> 4u32) & 1u8 == 1u8,
                (b1 >> 5u32) & 1u8 == 1u8 <==> (b2 >> 5u32) & 1u8 == 1u8,
                (b1 >> 6u32) & 1u8 == 1u8 <==> (b2 >> 6u32) & 1u8 == 1u8,
                (b1 >> 7u32) & 1u8 == 1u8 <==> (b2 >> 7u32) & 1u8 == 1u8,
        ;
    } else if n >= 1 {
        let s = (8 - n) as u32;
        assert(b1 & (0xffu8 << s) == b2 & (0xffu8 << s)) by (bit_vector)
            requires
                1 <= s <= 7,
                0u32 >= s ==> ((b1 >> 0u32) & 1u8 == 1u8 <==> (b2 >> 0u32) & 1u8 == 1u8),
                1u32 >= s ==> ((b1 >> 1u32) & 1u8 == 1u8 <==> (b2 >> 1u32) & 1u8 == 1u8),
                2u32 >= s ==> ((b1 >> 2u32) & 1u8 == 1u8 <==> (b2 >> 2u32) & 1u8 == 1u8),
                3u32 >= s ==> ((b1 >> 3u32) & 1u8 == 1u8 <==> (b2 >> 3u32) & 1u8 == 1u8),
                4u32 >= s ==> ((b1 >> 4u32) & 1u8 == 1u8 <==> (b2 >> 4u32) & 1u8 == 1u8),
                5u32 >= s ==> ((b1 >> 5u32) & 1u8 == 1u8 <==> (b2 >> 5u32) & 1u8 == 1u8),
                6u32 >= s ==> ((b1 >> 6u32) & 1u8 == 1u8 <==> (b2 >> 6u32) & 1u8 == 1u8),
                7u32 >= s ==> ((b1 >> 7u32) & 1u8 == 1u8 <==> (b2 >> 7u32) & 1u8 == 1u8),
        ;
    }
}

/// The text of a prefix depends only on its first `p` bits: two encodings
/// of the same length that agree on those bits render alike.
pub proof fn lemma_prefix_ignores_host_bits(r1: Seq<u8>, r2: Seq<u8>, p: nat, afi: u16)
    requires
        r1.len() == r2.len(),
        p <= 8 * r1.len(),
        forall|j: int| 0 <= j < p ==> addr_bit(r1, j) == addr_bit(r2, j),
    ensures
        prefix_text(r1, p, afi, true) == prefix_text(r2, p, afi, true),
{
    if afi == 2 || afi == 1 {
        let width: nat = if afi == 2 { 16 } else { 4 };
        let pad = Seq::new((width - r1.len()) as nat, |i: int| 0u8);
        let m1 = masked(r1 + pad, p);
        let m2 = masked(r2 + pad, p);
        assert forall|i: int| 0 <= i < m1.len() implies m1[i] == m2[i] by {
            if i < r1.len() {
                assert forall|k: int| 0 <= k < 8 && k < p - 8 * i implies #[trigger] bits_agree(
                    r1[i],
                    r2[i],
                    k,
                ) by {
                    let j = 8 * i + k;
                    assert(j / 8 == i && j % 8 == k);
                    assert(addr_bit(r1, j) == addr_bit(r2, j));
                }
                lemma_mask_byte_depends_on_kept_bits(r1[i], r2[i], p - 8 * i);
            }
        }
        assert(m1 =~= m2);
    }
}

/// The textual form of a prefix: the address bytes `raw` padded with zeros
/// to the family's width (masked past `prefix_len` bits when `mask`), then
/// `/` and the length; `None` for an address family other than IPv4 (1) and
/// IPv6 (2).
pub open spec fn prefix_text(raw: Seq<u8>, prefix_len: nat, afi: u16, mask: bool) -> Option<Seq<char>> {
    if afi == 2 || afi == 1 {
        let width: nat = if afi == 2 { 16 } else { 4 };
        let padded = raw + Seq::new((width - raw.len()) as nat, |i: int| 0u8);
        let buf = if mask { masked(padded, prefix_len) } else { padded };
        let addr = if afi == 2 { ipv6_text(buf) } else { ipv4_at(buf, 0) };
        Some(addr + seq!['/'] + decimal(prefix_len))
    } else {
        None
    }
}

/// Renders a prefix (see `prefix_text`); fails only on an unknown family.
pub fn prefix_string(raw: &[u8], prefix_len: usize, afi: u16, mask: bool) -> (r: Result<String, ()>)
    requires
        afi == 2 ==> raw@.len() <= 16 && (mask ==> prefix_len <= 128),
        afi == 1 ==> raw@.len() <= 4 && (mask ==> prefix_len <= 32),
    ensures
        match r {
            Ok(s) => prefix_text(raw@, prefix_len as nat, afi, mask) == Some(s@),
            Err(_) => prefix_text(raw@, prefix_len as nat, afi, mask) is None,
        },
{
    if afi != 2 && afi != 1 {
        return Err(());
    }
    let width: usize = if afi == 2 { 16 } else { 4 };
    let mut buf: Vec<u8> = Vec::new();
    let mut i: usize = 0;
    while i < raw.len()
        invariant
            i <= raw@.len() <= width,
            buf@ == raw@.take(i as int),
        decreases raw@.len() - i,
    {
        buf.push(raw[i]);
        i += 1;
    }
    while buf.len() < width
        invariant
            raw@.len() <= buf@.len() <= width,
            buf@.take(raw@.len() as int) == raw@,
            forall|k: int| raw@.len() <= k < buf@.len() ==> buf@[k] == 0u8,
        decreases width - buf@.len(),
    {
        buf.push(0);
    }
    let ghost padded = raw@ + Seq::new((width - raw@.len()) as nat, |i: int| 0u8);
    assert(buf@ =~= padded);
    if mask {
        mask_prefix(&mut buf, prefix_len);
    }
    let mut s = if afi == 2 {
        ipv6_string(buf.as_slice())
    } else {
        ipv4_string(buf.as_slice(), 0)
    };
    push_char(&mut s, '/');
    push_decimal(&mut s, prefix_len as u64);
    Ok(s)
}

/// The textual form of a next hop given by its raw bytes: nothing for no
/// bytes, an IPv4 address for 4, an IPv6 address for 16, two IPv6 addresses
/// joined by a comma for 32, and a hex dump for any other length.
pub open spec fn next_hop_text(d: Seq<u8>) -> Seq<char> {
    if d.len() == 0 {
        Seq::empty()
    } else if d.len() == 4 {
        ipv4_at(d, 0)
    } else if d.len() == 16 {
        ipv6_text(d)
    } else if d.len() == 32 {
        ipv6_text(d.take(16)) + seq![','] + ipv6_text(d.skip(16))
    } else {
        hex_pairs(d)
    }
}

/// Renders a next hop (see `next_hop_text`).
pub fn next_hop_string(data: &[u8]) -> (r: String)
    ensures
        r@ == next_hop_text(data@),
{
    let n = data.len();
    if n == 0 {
        String::new()
    } else if n == 4 {
        ipv4_string(data, 0)
    } else if n == 16 {
        ipv6_string(data)
    } else if n == 32 {
        let mut s = ipv6_string(&data[0..16]);
        push_char(&mut s, ',');
        let second = ipv6_string(&data[16..32]);
        push_str(&mut s, &second);
        assert(data@.subrange(0, 16) =~= data@.take(16));
        assert(data@.subrange(16, 32) =~= data@.skip(16));
        s
    } else {
        crate::text::hex_encode(data)
    }
}

} // verus!
