//! Textual renderings: decimal and hexadecimal numbers, dotted IPv4
//! addresses, IPv6 addresses in their compressed form, and hex dumps.

use vstd::prelude::*;

use crate::wire::{be16, read_u16};

verus! {

/// Appends one character; `String::push` of std, which the documentation
/// describes as appending the given char to the end of the string.
#[verifier::external_body]
pub(crate) fn push_char(s: &mut String, c: char)
    ensures
        final(s)@ == old(s)@.push(c),
{
    s.push(c);
}

/// Appends every character of `t`.
pub fn push_str(s: &mut String, t: &String)
    ensures
        final(s)@ == old(s)@ + t@,
{
    s.append(t.as_str());
}

/// The digit character for `d` in base 16 (lowercase), also used for base 10.
pub open spec fn digit_char(d: nat) -> char {
    if d < 10 {
        (48 + d) as char
    } else {
        (87 + d) as char
    }
}

/// Decimal rendering of `n`, without leading zeros.
pub open spec fn decimal(n: nat) -> Seq<char>
    decreases n,
{
    if n < 10 {
        seq![digit_char(n)]
    } else {
        decimal(n / 10).push(digit_char(n % 10))
    }
}

/// Lowercase hexadecimal rendering of `n`, without leading zeros.
pub open spec fn hex(n: nat) -> Seq<char>
    decreases n,
{
    if n < 16 {
        seq![digit_char(n)]
    } else {
        hex(n / 16).push(digit_char(n % 16))
    }
}

fn digit(d: u8) -> (c: char)
    requires
        d < 16,
    ensures
        c == digit_char(d as nat),
{
    if d < 10 {
        (48u8 + d) as char
    } else {
        (87u8 + d) as char
    }
}

/// Appends the decimal rendering of `n`.
pub fn push_decimal(s: &mut String, n: u64)
    ensures
        final(s)@ == old(s)@ + decimal(n as nat),
    decreases n,
{
    if n >= 10 {
        push_decimal(s, n / 10);
    }
    let d = digit((n % 10) as u8);
    push_char(s, d);
    assert(s@ =~= old(s)@ + decimal(n as nat));
}

/// Appends the lowercase hexadecimal rendering of `n`.
pub fn push_hex(s: &mut String, n: u64)
    ensures
        final(s)@ == old(s)@ + hex(n as nat),
    decreases n,
{
    if n >= 16 {
        push_hex(s, n / 16);
    }
    let d = digit((n % 16) as u8);
    push_char(s, d);
    assert(s@ =~= old(s)@ + hex(n as nat));
}

/// Two lowercase hexadecimal digits for each byte of `b`, in order.
pub open spec fn hex_pairs(b: Seq<u8>) -> Seq<char>
    decreases b.len(),
{
    if b.len() == 0 {
        Seq::empty()
    } else {
        hex_pairs(b.drop_last()) + seq![digit_char(b.last() as nat / 16), digit_char(b.last() as nat % 16)]
    }
}

/// A hex dump has two characters per byte.
pub proof fn lemma_hex_pairs_len(b: Seq<u8>)
    ensures
        hex_pairs(b).len() == 2 * b.len(),
    decreases b.len(),
{
    if b.len() > 0 {
        lemma_hex_pairs_len(b.drop_last());
    }
}

/// Renders `data` as a string of two lowercase hex digits per byte.
pub fn hex_encode(data: &[u8]) -> (r: String)
    ensures
        r@ == hex_pairs(data@),
{
    let mut s = String::new();
    let mut i: usize = 0;
    while i < data.len()
        invariant
            i <= data@.len(),
            s@ == hex_pairs(data@.take(i as int)),
        decreases data@.len() - i,
    {
        let b = data[i];
        push_char(&mut s, digit(b / 16));
        push_char(&mut s, digit(b % 16));
        assert(data@.take(i + 1).drop_last() =~= data@.take(i as int));
        i += 1;
    }
    assert(data@.take(i as int) =~= data@);
    s
}

/// Dotted-quad rendering of an IPv4 address.
pub open spec fn ipv4_text(a: u8, b: u8, c: u8, d: u8) -> Seq<char> {
    decimal(a as nat) + seq!['.'] + decimal(b as nat) + seq!['.'] + decimal(c as nat) + seq!['.']
        + decimal(d as nat)
}

/// The IPv4 address held in the four bytes from `i` of `s`.
pub open spec fn ipv4_at(s: Seq<u8>, i: int) -> Seq<char> {
    ipv4_text(s[i], s[i + 1], s[i + 2], s[i + 3])
}

/// Appends the dotted-quad rendering of the four bytes from `i`.
pub fn push_ipv4(s: &mut String, data: &[u8], i: usize)
    requires
        i + 4 <= data@.len(),
    ensures
        final(s)@ == old(s)@ + ipv4_at(data@, i as int),
{
    push_decimal(s, data[i] as u64);
    push_char(s, '.');
    push_decimal(s, data[i + 1] as u64);
    push_char(s, '.');
    push_decimal(s, data[i + 2] as u64);
    push_char(s, '.');
    push_decimal(s, data[i + 3] as u64);
    assert(s@ =~= old(s)@ + ipv4_at(data@, i as int));
}

/// The dotted-quad rendering of the four bytes from `i`.
pub fn ipv4_string(data: &[u8], i: usize) -> (r: String)
    requires
        i + 4 <= data@.len(),
    ensures
        r@ == ipv4_at(data@, i as int),
{
    let mut s = String::new();
    push_ipv4(&mut s, data, i);
    assert(s@ =~= ipv4_at(data@, i as int));
    s
}

/// The eight 16-bit groups of an IPv6 address given by its 16 octets.
pub open spec fn segments(o: Seq<u8>) -> Seq<nat> {
    Seq::new(8, |k: int| be16(o[2 * k], o[2 * k + 1]))
}

/// Whether the address is an IPv4-mapped one (`::ffff:a.b.c.d`).
pub open spec fn is_ipv4_mapped(g: Seq<nat>) -> bool {
    &&& g[0] == 0 && g[1] == 0 && g[2] == 0 && g[3] == 0 && g[4] == 0
    &&& g[5] == 0xffff
}

/// The number of consecutive zero groups starting at group `i`.
pub open spec fn zero_run(g: Seq<nat>, i: int) -> nat
    decreases g.len() - i,
{
    if 0 <= i < g.len() && g[i] == 0 {
        1 + zero_run(g, i + 1)
    } else {
        0
    }
}

/// The first group among `0..n` that starts a longest run of zero groups.
pub open spec fn longest_zero_start(g: Seq<nat>, n: int) -> int
    decreases n,
{
    if n <= 1 {
        0
    } else {
        let b = longest_zero_start(g, n - 1);
        if zero_run(g, n - 1) > zero_run(g, b) {
            n - 1
        } else {
            b
        }
    }
}

/// The groups of `g` in hexadecimal, separated by colons.
pub open spec fn join_hex(g: Seq<nat>) -> Seq<char>
    decreases g.len(),
{
    if g.len() == 0 {
        Seq::empty()
    } else if g.len() == 1 {
        hex(g[0])
    } else {
        join_hex(g.drop_last()) + seq![':'] + hex(g.last())
    }
}

/// Text of an IPv6 address given by its 16 octets: an IPv4-mapped address
/// as `::ffff:` and its dotted quad; otherwise the groups in hexadecimal,
/// with the first longest run of two or more zero groups written as `::`.
pub open spec fn ipv6_text(o: Seq<u8>) -> Seq<char> {
    let g = segments(o);
    if is_ipv4_mapped(g) {
        seq![':', ':', 'f', 'f', 'f', 'f', ':'] + ipv4_at(o, 12)
    } else {
        let b = longest_zero_start(g, 8);
        let l = zero_run(g, b);
        if l > 1 {
            join_hex(g.take(b)) + seq![':', ':'] + join_hex(g.skip(b + l))
        } else {
            join_hex(g)
        }
    }
}

fn push_join_hex(s: &mut String, g: &Vec<u16>, from: usize, to: usize)
    requires
        from <= to <= g@.len(),
    ensures
        final(s)@ == old(s)@ + join_hex(g@.map_values(|x: u16| x as nat).subrange(from as int, to as int)),
{
    let ghost gv = g@.map_values(|x: u16| x as nat);
    let mut k = from;
    while k < to
        invariant
            from <= k <= to <= g@.len(),
            gv == g@.map_values(|x: u16| x as nat),
            s@ == old(s)@ + join_hex(gv.subrange(from as int, k as int)),
        decreases to - k,
    {
        let ghost before = s@;
        if k > from {
            push_char(s, ':');
        }
        push_hex(s, g[k] as u64);
        proof {
            let sub = gv.subrange(from as int, k + 1);
            assert(sub.drop_last() =~= gv.subrange(from as int, k as int));
            if k == from {
                assert(join_hex(gv.subrange(from as int, k as int)) =~= Seq::<char>::empty());
            }
        }
        assert(s@ =~= old(s)@ + join_hex(gv.subrange(from as int, k + 1)));
        k += 1;
    }
}

/// Renders the IPv6 address held in the 16 bytes of `o`.
pub fn ipv6_string(o: &[u8]) -> (r: String)
    requires
        o@.len() == 16,
    ensures
        r@ == ipv6_text(o@),
{
    let ghost gs = segments(o@);
    let mut g: Vec<u16> = Vec::new();
    let mut k: usize = 0;
    while k < 8
        invariant
            k <= 8,
            o@.len() == 16,
            gs == segments(o@),
            g@.len() == k,
            forall|j: int| 0 <= j < k ==> g@[j] as nat == gs[j],
        decreases 8 - k,
    {
        let v = read_u16(o, 2 * k);
        g.push(v);
        k += 1;
    }
    let ghost gv = g@.map_values(|x: u16| x as nat);
    assert(gv =~= gs);
    let mut s = String::new();
    if g[0] == 0 && g[1] == 0 && g[2] == 0 && g[3] == 0 && g[4] == 0 && g[5] == 0xffff {
        push_char(&mut s, ':');
        push_char(&mut s, ':');
        push_char(&mut s, 'f');
        push_char(&mut s, 'f');
        push_char(&mut s, 'f');
        push_char(&mut s, 'f');
        push_char(&mut s, ':');
        push_ipv4(&mut s, o, 12);
        assert(s@ =~= ipv6_text(o@));
        return s;
    }
    // Find the first longest run of zero groups.
    let mut best: usize = 0;
    let mut best_len: usize = zero_run_from(&g, 0);
    let mut i: usize = 1;
    while i < 8
        invariant
            1 <= i <= 8,
            g@.len() == 8,
            gv == g@.map_values(|x: u16| x as nat),
            best == longest_zero_start(gv, i as int),
            best_len == zero_run(gv, best as int),
            best < 8,
        decreases 8 - i,
    {
        let run = zero_run_from(&g, i);
        if run > best_len {
            best = i;
            best_len = run;
        }
        i += 1;
    }
    proof {
        lemma_zero_run_bound(gv, best as int);
    }
    if best_len > 1 {
        push_join_hex(&mut s, &g, 0, best);
        push_char(&mut s, ':');
        push_char(&mut s, ':');
        push_join_hex(&mut s, &g, best + best_len, 8);
        assert(gv.subrange(0, best as int) =~= gv.take(best as int));
        assert(gv.subrange(best + best_len, 8) =~= gv.skip(best + best_len));
    } else {
        push_join_hex(&mut s, &g, 0, 8);
        assert(gv.subrange(0, 8) =~= gv);
    }
    assert(s@ =~= ipv6_text(o@));
    s
}

proof fn lemma_zero_run_bound(g: Seq<nat>, i: int)
    requires
        0 <= i <= g.len(),
    ensures
        i + zero_run(g, i) <= g.len(),
    decreases g.len() - i,
{
    if i < g.len() {
        lemma_zero_run_bound(g, i + 1);
    }
}

fn zero_run_from(g: &Vec<u16>, i: usize) -> (r: usize)
    requires
        i < g@.len() <= 8,
    ensures
        r == zero_run(g@.map_values(|x: u16| x as nat), i as int),
{
    let ghost gv = g@.map_values(|x: u16| x as nat);
    let mut j = i;
    while j < g.len() && g[j] == 0
        invariant
            i <= j <= g@.len() <= 8,
            gv == g@.map_values(|x: u16| x as nat),
            zero_run(gv, i as int) == (j - i) + zero_run(gv, j as int),
        decreases g@.len() - j,
    {
        j += 1;
    }
    j - i
}

} // verus!
