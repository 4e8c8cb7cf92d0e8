//! Verified core of the AOS Realm: a bounded RV64 machine, the realm kernel,
//! the 9P file server and the text rules of the capsules around them.

pub mod access;
pub mod alu;
pub mod alu_laws;
pub mod atomic;
pub mod atomic_ram;
pub mod bits;
pub mod boot;
pub mod bytes;
pub mod checkpoint;
pub mod codec;
pub mod compressed;
pub mod compressed_laws;
pub mod conduct;
pub mod cpu;
pub mod csr_laws;
pub mod devices;
pub mod execution_laws;
pub mod fdt;
pub mod fdt_laws;
pub mod fetch;
pub mod files;
pub mod float_laws;
pub mod floating;
pub mod forge;
pub mod grep;
pub mod hart;
pub mod hooks;
pub mod hosting;
pub mod identity;
pub mod instruction_laws;
pub mod instructions;
pub mod intents;
pub mod isa;
pub mod json;
pub mod kernel;
pub mod kernel_laws;
pub mod kernel_model;
pub mod kernel_queue;
pub mod launch;
pub mod machine;
pub mod machine_laws;
pub mod manifest;
pub mod messages;
pub mod mmu;
pub mod mmu_laws;
pub mod ninep;
pub mod ninep_containment;
pub mod ninep_laws;
pub mod ninep_listing;
pub mod ninep_model;
pub mod ninep_paths;
pub mod ninep_requests;
pub mod ninep_session;
pub mod ninep_wire;
pub mod orderly;
pub mod platform;
pub mod process;
pub mod process_laws;
pub mod programs;
pub mod ram;
pub mod run;
pub mod sbi;
pub mod sbi_laws;
pub mod scaffold;
pub mod slices;
pub mod softfloat;
pub mod step;
pub mod text;
pub mod text_laws;
pub mod trap_laws;
pub mod uplink;
pub mod zicsr;
