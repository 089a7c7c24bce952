//! Unicast NLRI: decoding a run of prefixes into routes, and the per-family
//! tables of routes that an UPDATE announces or withdraws.

use vstd::prelude::*;

use crate::prefix::{prefix_string, prefix_text};

verus! {

/// What a route is to the contracts: its prefix text and, where it has one,
/// its next-hop text.
pub type RouteView = (Seq<char>, Option<Seq<char>>);

/// A decoded route: a prefix in text form (`addr/len`) and the next hop that
/// the UPDATE gave for it, if any.
#[derive(Clone, Debug)]
pub struct Route {
    pub prefix: String,
    pub next_hop: Option<String>,
}

/// The text of an optional string.
pub open spec fn opt_text(o: Option<String>) -> Option<Seq<char>> {
    match o {
        Some(s) => Some(s@),
        None => None,
    }
}

impl View for Route {
    type V = RouteView;

    open spec fn view(&self) -> RouteView {
        (self.prefix@, opt_text(self.next_hop))
    }
}

/// The views of a sequence of routes.
pub open spec fn routes_view(rs: Seq<Route>) -> Seq<RouteView> {
    rs.map_values(|r: Route| r@)
}

/// The largest prefix length of the family: 128 for IPv6 (2), else 32.
pub open spec fn max_prefix_bits(afi: u16) -> nat {
    if afi == 2 {
        128
    } else {
        32
    }
}

/// Decodes the NLRI items of `p` from offset `off` on, appending to `acc`:
/// each item is a length byte (at most `max_bits`) followed by the
/// `ceil(len / 8)` bytes of the prefix; `None` when an item is over-long or
/// truncated.
pub open spec fn nlri_walk(
    p: Seq<u8>,
    afi: u16,
    nh: Option<Seq<char>>,
    off: int,
    acc: Seq<RouteView>,
) -> Option<Seq<RouteView>>
    decreases p.len() - off,
{
    if off < 0 || off >= p.len() {
        Some(acc)
    } else {
        let plen = p[off];
        let n = (plen as int + 7) / 8;
        if plen > max_prefix_bits(afi) || off + 1 + n > p.len() {
            None
        } else {
            let text = prefix_text(p.subrange(off + 1, off + 1 + n), plen as nat, afi, true).unwrap();
            nlri_walk(p, afi, nh, off + 1 + n, acc.push((text, nh)))
        }
    }
}

/// The routes that a unicast NLRI payload of family `afi` gives, each with
/// next hop `nh`; `None` for a family other than IPv4 (1) and IPv6 (2) or a
/// payload that does not split into whole items.
pub open spec fn unicast_nlri(p: Seq<u8>, afi: u16, nh: Option<Seq<char>>) -> Option<Seq<RouteView>> {
    if afi != 1 && afi != 2 {
        None
    } else {
        nlri_walk(p, afi, nh, 0, Seq::empty())
    }
}

proof fn lemma_walk_carries_next_hop(
    p: Seq<u8>,
    afi: u16,
    nh: Option<Seq<char>>,
    off: int,
    acc: Seq<RouteView>,
)
    requires
        forall|i: int| 0 <= i < acc.len() ==> #[trigger] acc[i].1 == nh,
    ensures
        nlri_walk(p, afi, nh, off, acc) matches Some(rs) ==> forall|i: int|
            0 <= i < rs.len() ==> #[trigger] rs[i].1 == nh,
    decreases p.len() - off,
{
    if !(off < 0 || off >= p.len()) {
        let plen = p[off];
        let n = (plen as int + 7) / 8;
        if !(plen > max_prefix_bits(afi) || off + 1 + n > p.len()) {
            let text = prefix_text(p.subrange(off + 1, off + 1 + n), plen as nat, afi, true).unwrap();
            let acc2 = acc.push((text, nh));
            assert forall|i: int| 0 <= i < acc2.len() implies #[trigger] acc2[i].1 == nh by {
                if i < acc.len() {
                    assert(acc2[i] == acc[i]);
                }
            }
            lemma_walk_carries_next_hop(p, afi, nh, off + 1 + n, acc2);
        }
    }
}

/// Every route that a unicast NLRI payload gives carries the next hop it
/// was decoded with.
pub proof fn lemma_routes_carry_next_hop(p: Seq<u8>, afi: u16, nh: Option<Seq<char>>)
    ensures
        unicast_nlri(p, afi, nh) matches Some(rs) ==> forall|i: int|
            0 <= i < rs.len() ==> #[trigger] rs[i].1 == nh,
{
    if afi == 1 || afi == 2 {
        lemma_walk_carries_next_hop(p, afi, nh, 0, Seq::empty());
    }
}

/// Decodes unicast NLRI into routes carrying `next_hop`.
pub fn unicast_routes(payload: &[u8], afi: u16, next_hop: &Option<String>) -> (r: Result<Vec<Route>, ()>)
    ensures
        match r {
            Ok(v) => unicast_nlri(payload@, afi, opt_text(*next_hop)) == Some(routes_view(v@)),
            Err(_) => unicast_nlri(payload@, afi, opt_text(*next_hop)) is None,
        },
{
    let max_bits: usize = if afi == 2 {
        128
    } else if afi == 1 {
        32
    } else {
        return Err(());
    };
    let ghost nh = opt_text(*next_hop);
    let mut routes: Vec<Route> = Vec::new();
    let mut offset: usize = 0;
    assert(routes_view(routes@) =~= Seq::<RouteView>::empty());
    while offset < payload.len()
        invariant
            afi == 1 || afi == 2,
            max_bits == max_prefix_bits(afi),
            nh == opt_text(*next_hop),
            offset <= payload@.len(),
            unicast_nlri(payload@, afi, nh) == nlri_walk(payload@, afi, nh, offset as int, routes_view(routes@)),
        decreases payload@.len() - offset,
    {
        let prefix_len = payload[offset] as usize;
        let ghost start = offset as int;
        offset += 1;
        if prefix_len > max_bits {
            return Err(());
        }
        let byte_len = (prefix_len + 7) / 8;
        if byte_len > payload.len() - offset {
            return Err(());
        }
        let raw = &payload[offset..offset + byte_len];
        let prefix = match prefix_string(raw, prefix_len, afi, true) {
            Ok(s) => s,
            Err(_) => return Err(()),
        };
        offset += byte_len;
        let nh_copy = match next_hop {
            Some(h) => Some(h.clone()),
            None => None,
        };
        let ghost before = routes@;
        routes.push(Route { prefix, next_hop: nh_copy });
        assert(routes_view(routes@) =~= routes_view(before).push((prefix@, nh)));
    }
    Ok(routes)
}

/// The address families whose unicast routes the decoder reports.
#[derive(Clone, Copy, Debug, PartialEq, Eq, Structural)]
pub enum AddressFamily {
    Ipv4Unicast,
    Ipv6Unicast,
}

/// The family of unicast routes of AFI `afi`: IPv6 for 2, IPv4 otherwise.
pub open spec fn family_of(afi: u16) -> AddressFamily {
    if afi == 2 {
        AddressFamily::Ipv6Unicast
    } else {
        AddressFamily::Ipv4Unicast
    }
}

/// The key under which a family's routes are reported.
pub open spec fn family_key(f: AddressFamily) -> Seq<char> {
    match f {
        AddressFamily::Ipv4Unicast => "ipv4-unicast"@,
        AddressFamily::Ipv6Unicast => "ipv6-unicast"@,
    }
}

impl AddressFamily {
    /// The key under which this family's routes are reported.
    pub fn key(&self) -> (k: &'static str)
        ensures
            k@ == family_key(*self),
    {
        match self {
            AddressFamily::Ipv4Unicast => "ipv4-unicast",
            AddressFamily::Ipv6Unicast => "ipv6-unicast",
        }
    }
}

/// The family of unicast routes of AFI `afi`: IPv6 for 2, IPv4 otherwise.
pub fn family_for_afi(afi: u16) -> (f: AddressFamily)
    ensures
        f == family_of(afi),
{
    if afi == 2 {
        AddressFamily::Ipv6Unicast
    } else {
        AddressFamily::Ipv4Unicast
    }
}

/// A family and its routes, as the tables hold them.
pub type TableView = Seq<(AddressFamily, Seq<RouteView>)>;

/// The position of family `f` in table `t`, if it is there.
pub open spec fn position(t: TableView, f: AddressFamily) -> Option<int> {
    if exists|i: int| 0 <= i < t.len() && t[i].0 == f {
        Some(choose|i: int| 0 <= i < t.len() && t[i].0 == f)
    } else {
        None
    }
}

/// No family occurs twice in `t`.
pub open spec fn distinct_families(t: TableView) -> bool {
    forall|i: int, j: int| 0 <= i < j < t.len() ==> t[i].0 != t[j].0
}

/// Table `t` after the routes of `f` are set to `rs`: an entry that is
/// there is replaced in place, a new one goes at the end.
pub open spec fn table_set(t: TableView, f: AddressFamily, rs: Seq<RouteView>) -> TableView {
    match position(t, f) {
        Some(i) => t.update(i, (f, rs)),
        None => t.push((f, rs)),
    }
}

/// The routes that table `t` holds for `f`.
pub open spec fn table_get(t: TableView, f: AddressFamily) -> Option<Seq<RouteView>> {
    match position(t, f) {
        Some(i) => Some(t[i].1),
        None => None,
    }
}

/// One family's entry in a table.
#[derive(Clone, Debug)]
pub struct FamilyEntry {
    pub family: AddressFamily,
    pub routes: Vec<Route>,
}

/// The view of one entry.
pub open spec fn entry_view(e: FamilyEntry) -> (AddressFamily, Seq<RouteView>) {
    (e.family, routes_view(e.routes@))
}

/// The views of a sequence of entries.
pub open spec fn entries_view(es: Seq<FamilyEntry>) -> TableView {
    es.map_values(|e: FamilyEntry| entry_view(e))
}

/// Routes per address family, in the order the families were first set;
/// each family occurs at most once.
#[derive(Debug)]
pub struct FamilyRoutes {
    entries: Vec<FamilyEntry>,
}

impl View for FamilyRoutes {
    type V = TableView;

    closed spec fn view(&self) -> TableView {
        entries_view(self.entries@)
    }
}

impl FamilyRoutes {
    #[verifier::type_invariant]
    closed spec fn inv(self) -> bool {
        distinct_families(self@)
    }

    /// An empty table.
    pub fn new() -> (t: Self)
        ensures
            t@ == Seq::<(AddressFamily, Seq<RouteView>)>::empty(),
    {
        let entries: Vec<FamilyEntry> = Vec::new();
        assert(entries_view(entries@) =~= Seq::<
            (AddressFamily, Seq<RouteView>),
        >::empty());
        let t = FamilyRoutes { entries };
        assert(t@ =~= Seq::<(AddressFamily, Seq<RouteView>)>::empty());
        t
    }

    /// The number of families in the table.
    pub fn len(&self) -> (n: usize)
        ensures
            n == self@.len(),
    {
        self.entries.len()
    }

    /// The entries, in order.
    pub fn entries(&self) -> (es: &Vec<FamilyEntry>)
        ensures
            entries_view(es@) == self@,
            distinct_families(self@),
    {
        proof {
            use_type_invariant(self);
        }
        &self.entries
    }

    fn find(&self, f: AddressFamily) -> (r: Option<usize>)
        ensures
            match r {
                Some(i) => position(self@, f) == Some(i as int) && i < self@.len(),
                None => position(self@, f) is None,
            },
    {
        proof {
            use_type_invariant(self);
        }
        let mut i: usize = 0;
        while i < self.entries.len()
            invariant
                i <= self@.len(),
                self.entries@.len() == self@.len(),
                forall|k: int| 0 <= k < i ==> self@[k].0 != f,
                distinct_families(self@),
            decreases self@.len() - i,
        {
            if self.entries[i].family == f {
                assert(self@[i as int].0 == f);
                proof {
                    let j = choose|j: int| 0 <= j < self@.len() && self@[j].0 == f;
                    assert(j == i);
                }
                return Some(i);
            }
            i += 1;
        }
        None
    }

    /// The routes held for `f`.
    pub fn get(&self, f: AddressFamily) -> (r: Option<&Vec<Route>>)
        ensures
            match r {
                Some(v) => table_get(self@, f) == Some(routes_view(v@)),
                None => table_get(self@, f) is None,
            },
    {
        match self.find(f) {
            Some(i) => Some(&self.entries[i].routes),
            None => None,
        }
    }

    /// Sets the routes of `f`, replacing those it had in place or adding
    /// the family at the end.
    pub fn set(&mut self, f: AddressFamily, routes: Vec<Route>)
        ensures
            final(self)@ == table_set(old(self)@, f, routes_view(routes@)),
            distinct_families(final(self)@),
    {
        proof {
            use_type_invariant(&*self);
        }
        let ghost t = self@;
        let found = self.find(f);
        let entry = FamilyEntry { family: f, routes };
        let mut entries: Vec<FamilyEntry> = Vec::new();
        std::mem::swap(&mut entries, &mut self.entries);
        match found {
            Some(i) => {
                entries.set(i, entry);
            },
            None => {
                entries.push(entry);
            },
        }
        let ghost nt = entries_view(entries@);
        assert(nt =~= table_set(t, f, routes_view(routes@)));
        proof {
            lemma_set_keeps_distinct(t, f, routes_view(routes@));
        }
        self.entries = entries;
    }
}

/// Setting a family's routes keeps families distinct.
pub proof fn lemma_set_keeps_distinct(t: TableView, f: AddressFamily, rs: Seq<RouteView>)
    requires
        distinct_families(t),
    ensures
        distinct_families(table_set(t, f, rs)),
{
    let n = table_set(t, f, rs);
    match position(t, f) {
        Some(i) => {
            assert forall|a: int, b: int| 0 <= a < b < n.len() implies n[a].0 != n[b].0 by {
                assert(t[i].0 == f);
            }
        },
        None => {
            assert forall|a: int, b: int| 0 <= a < b < n.len() implies n[a].0 != n[b].0 by {
                if b == t.len() {
                    assert(t[a].0 != f);
                }
            }
        },
    }
}

/// After the routes of `f` are set to `rs`, the table gives `rs` for `f`,
/// what it gave before for every other family, keeps families distinct,
/// and grows by at most one entry.
pub proof fn lemma_set_then_get(t: TableView, f: AddressFamily, g: AddressFamily, rs: Seq<RouteView>)
    requires
        distinct_families(t),
    ensures
        table_get(table_set(t, f, rs), f) == Some(rs),
        g != f ==> table_get(table_set(t, f, rs), g) == table_get(t, g),
        distinct_families(table_set(t, f, rs)),
        t.len() <= table_set(t, f, rs).len() <= t.len() + 1,
{
    lemma_set_keeps_distinct(t, f, rs);
    let n = table_set(t, f, rs);
    match position(t, f) {
        Some(i) => {
            assert(n[i].0 == f);
            assert(position(n, f) == Some(i));
            if g != f {
                match position(t, g) {
                    Some(j) => {
                        assert(n[j].0 == g);
                        assert(position(n, g) == Some(j));
                    },
                    None => {
                        assert(!(exists|k: int| 0 <= k < n.len() && n[k].0 == g));
                    },
                }
            }
        },
        None => {
            let last = t.len() as int;
            assert(n[last].0 == f);
            assert(position(n, f) == Some(last));
            if g != f {
                match position(t, g) {
                    Some(j) => {
                        assert(n[j].0 == g);
                        assert(position(n, g) == Some(j));
                    },
                    None => {
                        assert(!(exists|k: int| 0 <= k < n.len() && n[k].0 == g));
                    },
                }
            }
        },
    }
}

} // verus!
