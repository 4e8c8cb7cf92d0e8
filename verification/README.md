# aos_realm

Verified core of the AOS Realm, written in Verus. A realm runs a Linux guest for
one principal of an agent operating system. This crate holds what decides and
computes there, with contracts that Verus proves:

- a bounded RV64 machine that only advances in explicit slices: RV64IMAFDC with
  the `Zicsr` instructions, Sv39 translation, up to 64 harts, the supervisor
  firmware calls, a serial device, and durable checkpoints;
- the realm kernel: processes, descriptors and bounded pipes under quotas;
- the 9P2000.L server through which a guest mounts one export;
- the rules of the capsules around them: file tools, search, HTTP fetch, hooks,
  identity, project instructions, the chat uplink, and the capsule forge.

## Layout

`src/` is the library; every item in it is verified.

| Modules | What they hold |
| --- | --- |
| `platform`, `isa`, `cpu`, `hart` | constants of the machine, instruction fields, registers, harts |
| `ram`, `atomic_ram`, `devices`, `mmu` | guest memory, devices, address translation |
| `alu`, `atomic`, `compressed`, `floating`, `softfloat`, `zicsr`, `access`, `step` | instructions |
| `machine`, `sbi`, `boot`, `fdt`, `run`, `launch` | the machine, firmware calls, booting, slices |
| `machine_laws`, `orderly`, `conduct`, `hosting`, `slices` | what holds of every instruction, run and slice |
| `checkpoint`, `codec` | durable checkpoints |
| `process`, `kernel`, `kernel_model`, `kernel_laws`, `kernel_queue` | the realm kernel |
| `ninep`, `ninep_wire`, `ninep_paths`, `ninep_model`, `ninep_session`, `ninep_laws`, `ninep_containment`, `ninep_listing` | the 9P server |
| `files`, `grep`, `fetch`, `hooks`, `identity`, `instructions`, `uplink`, `forge`, `intents`, `scaffold` | the capsules |
| `bytes`, `text`, `json`, `manifest`, `messages`, `programs` | shared pieces |

The contracts speak of mathematical views (`MachineView`, `KernelView`,
`SessionView`, ...) and of specification functions over them: one for each
instruction, each kernel operation and each request. What follows from them for
whole runs and whole sessions stands in public proof functions, mostly in the
`*_laws` modules.

Calls into other crates are few. Floating-point arithmetic comes from
`rustc_apfloat` and `ieee-apsqrt`, digests from `blake3`, and two text formats
from `serde_json` and `toml`. Each such call stands behind one function that says
in its doc comment what is taken on trust.

`app/` is ordinary Rust around the library: the capsules' entry points, file and
message traffic, and the host programs that boot a guest. `tests/` runs the
library.
