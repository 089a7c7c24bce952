# bgpx

Decoding of BGP-4 messages for a BGP receiver: the fixed header, OPEN bodies
(with the 4-octet AS capability), and UPDATE bodies with their path
attributes, multiprotocol (IPv4/IPv6 unicast) reach and unreach attributes,
withdrawn routes and trailing NLRI. Prefixes, next hops, communities and
addresses come out in their usual textual forms; extended communities
(RFC 4360) as `type:subtype:value`, with type and subtype in hex and the
value by type (`AS:local`, `address:local`, or the value bytes in hex).

Layout:

- `src/` — the library, written in Verus. Every function states what it
  returns in its contract, over spec functions that describe the wire format
  (`wire`, `header`, `routes`, `attrs`, `update`) and the textual forms
  (`text`, `prefix`); the proof functions state the laws (masking keeps
  exactly the prefix bits, a prefix's text ignores host bits, every route of
  an NLRI run carries its next hop, a family table returns what was set).
- `app/` — the Python extension module (PyO3) that turns the library's
  results into dicts and lists and its errors into `ValueError`.
- `tests/` — tests on concrete messages.
