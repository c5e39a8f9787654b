# memory_ratchet

Experiments on what macOS charges a virtual machine for, as a verified library
and a thin program around it.

On macOS a VM on Virtualization.framework costs the host the high-water mark of
the pages its guest ever touched. One layer down, on Hypervisor.framework, guest
RAM is ordinary memory of the host process, and unmapping it from stage 2 around
an advice gives it back. The demos measure both, and probe whether data that the
guest took back is safe under memory pressure.

## Layout

`src/` is the library: the guest programs, the orders of steps, the rules and
the parsers, each with a contract. It makes no system call; what the host, the
guest and the clock answer comes in as arguments. What is floating point (rates,
times, MiB as printed, the threshold of a release) stays in `app/`.

| module | what it holds |
|---|---|
| `options`, `flag_order`, `vz` | command lines, that the order of flags does not matter, and the steps of the Linux guest run |
| `run`, `timing`, `fleet` | the steps of the plain, timing and fleet runs |
| `guest` | the guest programs and the drives that run them |
| `machine`, `programs`, `session` | a model of the instructions, what the programs do, proved from their machine code, and what a served drive returns |
| `reclaim` | the operations that give a range back, what they do to the mapping, and that nothing follows one that failed |
| `soak`, `worker` | the integrity soak: memory layout, pressure bursts, and each vCPU's loop |
| `survey` | canary, discard and guest RAM surveys |
| `probe`, `hammer`, `pressure` | the safety probes and the pressure generator |
| `alloc_shape` | the allocation matrix and its judgement |
| `guest_init`, `harness`, `protocol`, `helper` | the guest's command server, the line protocol, and the helper process |
| `ledger`, `hvf` | readings and return values of the system |
| `text`, `stride` | strings, numbers and walks over ranges |

Public proof functions whose names start with `law_` state what holds of the
library as a whole.

`app/` is the program: `memory-ratchet <demo> [arguments]`, with the demos
`calibrate-madvise`, `pressure-discard`, `hv-reclaim`, `alloc-shape`,
`vz-ratchet`, `vz-fleet` and, inside the Linux guest, `guest-init`. It maps
memory, runs the vCPU, spawns children, reads clocks and prints.

`tests/` runs the library on concrete values.
