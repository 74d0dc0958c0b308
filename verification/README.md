# DomainEgress

A macOS local proxy client (HTTP/HTTPS CONNECT and SOCKS5) with whitelist and blacklist
egress rules, SSH egress and port forwards, a managed block of `/etc/hosts`, Alibaba Cloud
security-group rules that follow the public address, and network probes.

The decisions of the program form a library verified with Verus; the program around it
does the I/O.

## Layout

- `src/` — the verified library.
  - `policy.rs` — which targets the whitelist or blacklist lets through.
  - `config.rs` — the configuration, its normal form and its checks.
  - `proxy.rs` — reading HTTP and SOCKS5 requests, what to answer and where to connect,
    the access log and the allow counts kept for the trend.
  - `hosts.rs` — the DomainEgress block of `/etc/hosts`: mappings and groups, read and
    written back.
  - `ip.rs` — IP addresses in text, read and written in canonical form.
  - `ssh.rs` — SSH egress profiles and port forwards.
  - `cloud.rs` — cloud accounts, signed requests and managed security-group rules.
  - `egress.rs` — public address probes and their location.
  - `network.rs` — network probe requests and results.
  - `local_net.rs` — this machine's hardware ports, addresses and host name.
  - `maintenance.rs` — release checks, rule sharing and listening ports.
  - `text.rs` — text operations and their specifications.
  - `calls.rs` — the calls into std and outside crates that the library trusts.
  - `hosts_laws.rs`, `hosts_edit_laws.rs`, `hosts_group_laws.rs`, `ip_laws.rs` — proofs
    that what is written reads back.
- `tests/` — tests of the library on concrete values.
- `app/` — the program: files, the keychain, processes, sockets and HTTP.
