# crossnet

Cross-platform network information — MAC addresses, the neighbor (ARP/NDP)
cache, network interfaces and the routing table — with the logic proved
correct by Verus.

- `src/` is the verified library:
  - `iface`: MAC addresses, their text form and its parser (with the law that
    reading back what was written gives the same address);
  - `ip`: IP addresses and networks, membership decided by `subnetwork`;
  - `neigh`: interfaces, the neighbor cache, and the neighbor tables of Linux
    (rtnetlink messages), macOS (routing-socket buffers) and Windows (IP Helper
    rows);
  - `route`: routes, route lookup, and the routing tables of Linux, FreeBSD,
    macOS, and the text of `netstat -rn` / `route -n get`;
  - `rtmsg`: the layout of BSD routing-socket messages;
  - `text`: character-level helpers.
- `app/` does the system calls (rtnetlink, `sysctl`, IP Helper, commands),
  hands what it read to the library, and prints the library's values.
- `tests/` runs the library on concrete values.
