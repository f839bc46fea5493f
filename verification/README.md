# dumbarp

dumbarp answers ARP for addresses that are leased over DHCP and routes the
traffic of these addresses through a network. The library holds the logic, with
contracts proved by Verus; the programs around it do the input and output.

## Layout

- `src/` is the library.
  - `xdp`, `steer`, `packet`, `common`: what the packet programs do to a packet.
  - `engine`: which steps attach and detach the programs of an interface.
  - `routing`: how rules and routes in the kernel come to what is wanted.
  - `api`, `client`, `auth`, `cache`: what peers ask each other, and what of
    their answers is kept for how long.
  - `daemon`, `gateway`, `k8s`, `routerd`: the rules of the four services.
  - `dhcp_lease`: the lease files of a DHCP client.
  - `net`, `mac`, `iface`, `time`, `text`, `names`, `order`: values that the
    rest is written with.
- `tests/` runs the library.
- `app/` holds the programs: configuration files, HTTP, netlink, eBPF, DHCP and
  the cluster's API.

What a service decides is a function of the library; where deciding and doing
alternate, the library holds a state that names the next step and takes its
outcome, and the program carries the step out. The proof functions whose names
begin with `law_` state what holds across functions.
