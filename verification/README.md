# mdnssdpd

An mDNS reflector, filter and inspection tool whose packet pipeline is verified
with Verus. Packets come in on network interfaces; routes filter them on their
JSON form, transform the DNS messages in them, and reflect or log the result.

## Layout

- `src/` is the library. Its functions have contracts that Verus proves, except
  the small ones that call other crates: see below.
  - `route`, `dispatch`: what becomes of a packet, in one route and in all.
  - `filter`: paths, operators, rules, chains of filter files, jq programs.
  - `transform`: removing records and services, setting TTLs.
  - `message`, `wire`, `codes`: DNS messages, as values and as packets.
  - `dns_util`, `entry`, `output`: what is logged, as a value and as a line.
  - `config`, `receiver`: routes as configured, interfaces and addresses.
  - `value`, `number`, `text`, `pattern`, `error`: what the others are made of.
- `app/` is the daemon around it: command line, files, sockets and threads.
- `tests/` runs the library, with the crates that it calls.

## What is taken on trust

DNS packets are read and written by `hickory-proto`, regular expressions are run
by `regex`, jq programs are compiled by `jaq`, and strings are quoted by
`serde_json`. Each call stands behind a small function that is marked
`external_body`: Verus believes its contract, and its comment says what is
claimed of the crate. What a regular expression matches and what a packet holds
are names in the contracts. What the library does with them is proved.

jq programs are run by `app/`, as they can read the clock and need not end. A
route says which program to ask next and about what; the outputs are handed back
one at a time, and the library proves what follows from them.
