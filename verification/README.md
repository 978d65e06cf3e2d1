# sexos

The logic of the SexOS userland, written in Verus and proved against its
contracts: the servers' request handling, their wire and storage formats, and the
host tools' analyses. The system calls, device registers, files, network and
terminals stay outside the library; the servers' and tools' front ends hand the
library plain values and act on what it returns.

## Layout

- `src/` — the verified library, one module per area:
  - storage: `kvstore` (the key-value table and its access policy), `durable` (the
    on-disk page format), `sexstore` (the store server), `crc`, `le_bytes`, and the
    laws of both in `kvlaws` and `durable_laws`;
  - network: `netproto` and `sexnet` (request dispatch, HTTP and DNS helpers), `dns`
    (the DNS response and its A-record cache), `frames` (ARP, IPv4, ICMP, UDP and TCP
    frames of the NIC driver) with `frames_laws`;
  - packages: `sexshop` (the object store and package service), `sexbuild`
    (recipes, checksums, SPD files), `deps` (the dependency walk over `petgraph`);
  - desktop: `silkshell`, `desktop`, `ucgm` with `ucgm_laws`, `linen`, `gui`, `silkbar`;
  - system: `signals`, `runtime`, `libsys`, `ion`, `nvme`, `xhci`, `services`, `text`;
  - tools: `debug` (sex-debug's trace analysis), `forge` (sex-forge's templates).
- `tests/` — the test suites, run against the compiled library.
- `app/` — the host tools' command-line front ends (`sex-debug`, `sex-forge`,
  `sexbuild`): argument parsing, files, processes, the QEMU monitor socket, the
  terminal timeline and downloads.
