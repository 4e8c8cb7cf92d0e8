//! Writing and reading durable checkpoints.

use crate::bytes;
use crate::bytes::{push_bytes, push_le, read_le, same_bytes};
use crate::codec;
use crate::codec::{
    CheckpointBinding, CheckpointDecodeError, CheckpointDigest, CSR_WORDS, DIGEST_BYTES,
    FORMAT_VERSION, MAGIC, PAGE_BYTES,
};
use crate::cpu::CsrFile;
use crate::hart::{HartControl, HartLifecycle, HartState};
use crate::isa::{
    legal_trap_vector, Privilege, INTERRUPT_SUPPORTED, MEDELEG_SUPPORTED, MIDELEG_SUPPORTED,
    MSTATUS_WRITABLE, SATP_MODE_BARE, SATP_MODE_SHIFT, SATP_MODE_SV39,
};
use crate::machine::{
    Machine, MachineCheckpoint, MachineView, PendingPlan9Request, Plan9Request, SbiFirmware,
};
use crate::platform::{
    HostRequestId, MachineConfig, MachineError, MACHINE_MODEL, MAX_9P_MESSAGE_BYTES, MAX_HARTS,
    MIN_9P_MESSAGE_BYTES,
};
use crate::ram;
use vstd::prelude::*;
use vstd::slice::slice_subrange;
use vstd::string::*;

verus! {

/// The BLAKE3 digest of a byte string.
pub uninterp spec fn blake3_of(input: Seq<u8>) -> [u8; 32];

/// Calls `blake3::hash`. Its 32-byte result depends on the input bytes alone,
/// and is given the name `blake3_of`; nothing else is claimed of it.
#[verifier::external_body]
fn blake3_digest(input: &[u8]) -> (r: [u8; 32])
    ensures
        r == blake3_of(input@),
{
    *blake3::hash(input).as_bytes()
}

impl CheckpointDigest {
    /// Construct a digest already verified by the artifact build pipeline.
    pub fn new(bytes: [u8; 32]) -> (r: Self)
        ensures
            r.bytes == bytes,
    {
        CheckpointDigest { bytes }
    }

    /// Hash immutable artifact bytes with the checkpoint format's digest.
    pub fn hash(bytes: &[u8]) -> (r: Self)
        ensures
            r.bytes == blake3_of(bytes@),
    {
        CheckpointDigest { bytes: blake3_digest(bytes) }
    }

    /// Borrow the canonical digest bytes.
    pub fn as_bytes(&self) -> (r: &[u8; 32])
        ensures
            *r == self.bytes,
    {
        &self.bytes
    }
}

impl CheckpointBinding {
    /// Bind a checkpoint to one Linux image and one distribution generation.
    pub fn new(linux_image: CheckpointDigest, distribution: CheckpointDigest) -> (r: Self)
        ensures
            r == (CheckpointBinding { linux_image, distribution }),
    {
        CheckpointBinding { linux_image, distribution }
    }

    /// Exact Linux image digest.
    pub fn linux_image(self) -> (r: CheckpointDigest)
        ensures
            r == self.linux_image,
    {
        self.linux_image
    }

    /// Exact immutable distribution-generation digest.
    pub fn distribution(self) -> (r: CheckpointDigest)
        ensures
            r == self.distribution,
    {
        self.distribution
    }
}

fn push_u32(out: &mut Vec<u8>, value: u32)
    ensures
        final(out)@ == old(out)@ + codec::u32_bytes(value),
{
    push_le(out, value as u64, 4);
}

fn push_u64(out: &mut Vec<u8>, value: u64)
    ensures
        final(out)@ == old(out)@ + codec::u64_bytes(value),
{
    push_le(out, value, 8);
}

fn push_byte(out: &mut Vec<u8>, value: u8)
    ensures
        final(out)@ == old(out)@ + seq![value],
{
    let ghost start = out@;
    out.push(value);
    assert(out@ =~= start + seq![value]);
}

fn push_bool(out: &mut Vec<u8>, value: bool)
    ensures
        final(out)@ == old(out)@ + codec::bool_byte(value),
{
    push_byte(
        out,
        if value {
            1
        } else {
            0
        },
    );
}

fn push_len_bytes(out: &mut Vec<u8>, value: &[u8])
    ensures
        final(out)@ == old(out)@ + codec::sized_bytes(value@),
{
    let ghost start = out@;
    push_u32(out, value.len() as u32);
    push_bytes(out, value);
    assert(out@ =~= start + codec::sized_bytes(value@));
}

fn push_words(out: &mut Vec<u8>, words: &[u64])
    ensures
        final(out)@ == old(out)@ + codec::words_bytes(words@),
{
    let ghost start = out@;
    let mut i: usize = 0;
    assert(out@ =~= start + codec::words_bytes(words@.subrange(0, 0)));
    while i < words.len()
        invariant
            i <= words@.len(),
            out@ == start + codec::words_bytes(words@.subrange(0, i as int)),
        decreases words@.len() - i,
    {
        let ghost before = words@.subrange(0, i as int);
        let ghost after = words@.subrange(0, i + 1);
        push_u64(out, words[i]);
        assert(after.drop_last() =~= before);
        assert(out@ =~= start + (codec::words_bytes(before) + codec::u64_bytes(words@[i as int])));
        i = i + 1;
    }
    assert(words@.subrange(0, words@.len() as int) =~= words@);
}

fn encode_csrs(out: &mut Vec<u8>, csrs: &CsrFile)
    ensures
        final(out)@ == old(out)@ + codec::words_bytes(codec::csr_words(*csrs)),
{
    let words: [u64; 18] = [
        csrs.mstatus,
        csrs.medeleg,
        csrs.mideleg,
        csrs.mie,
        csrs.mip,
        csrs.mcounteren,
        csrs.scounteren,
        csrs.satp,
        csrs.mtvec,
        csrs.mscratch,
        csrs.mepc,
        csrs.mcause,
        csrs.mtval,
        csrs.stvec,
        csrs.sscratch,
        csrs.sepc,
        csrs.scause,
        csrs.stval,
    ];
    assert(words@ =~= codec::csr_words(*csrs));
    push_words(out, words.as_slice());
}

fn encode_hart(out: &mut Vec<u8>, hart: &HartState)
    ensures
        final(out)@ == old(out)@ + codec::hart_bytes(*hart),
{
    let ghost start = out@;
    push_bool(
        out,
        match hart.lifecycle {
            HartLifecycle::Started => true,
            HartLifecycle::Stopped => false,
        },
    );
    push_words(out, hart.cpu.registers.as_slice());
    push_u64(out, hart.cpu.pc);
    push_byte(out, hart.cpu.privilege.level() as u8);
    assert(out@ =~= start + codec::core_bytes(*hart));
    push_words(out, hart.cpu.floating_registers.as_slice());
    encode_csrs(out, &hart.csrs);
    push_byte(out, hart.csrs.fcsr);
    assert(out@ =~= start + (codec::core_bytes(*hart) + codec::status_bytes(*hart)));
    push_u64(out, hart.timer_deadline);
    push_bool(out, hart.msip);
    push_u64(out, hart.cycle);
    push_u64(out, hart.instret);
    assert(out@ =~= start + (codec::core_bytes(*hart) + codec::status_bytes(*hart)
        + codec::timing_bytes(*hart)));
    match hart.reservation {
        Some((address, width)) => {
            push_byte(out, 1);
            push_u64(out, address);
            push_byte(out, width);
        },
        None => {
            push_byte(out, 0);
        },
    }
    assert(out@ =~= start + codec::hart_bytes(*hart));
}

impl MachineCheckpoint {
    fn push_identity(out: &mut Vec<u8>, binding: CheckpointBinding)
        ensures
            final(out)@ == old(out)@ + codec::identity_bytes(binding),
    {
        let ghost start = out@;
        let magic = MAGIC;
        push_bytes(out, magic.as_slice());
        push_u32(out, FORMAT_VERSION);
        push_len_bytes(out, MACHINE_MODEL.as_bytes());
        push_bytes(out, binding.linux_image.bytes.as_slice());
        push_bytes(out, binding.distribution.bytes.as_slice());
        assert(out@ =~= start + codec::identity_bytes(binding));
    }

    fn push_shape(&self, out: &mut Vec<u8>)
        requires
            self.wf(),
        ensures
            final(out)@ == old(out)@ + codec::shape_bytes(self@),
    {
        let ghost start = out@;
        push_u64(out, self.machine.config.ram_bytes as u64);
        push_u64(out, self.machine.config.max_console_bytes as u64);
        push_u32(out, self.machine.hart_count as u32);
        push_u32(out, self.machine.active_hart_id as u32);
        push_u64(out, self.machine.scheduler_quantum_remaining);
        assert(out@ =~= start + codec::shape_bytes(self@));
    }

    fn push_harts(&self, out: &mut Vec<u8>)
        requires
            self.wf(),
        ensures
            final(out)@ == old(out)@ + codec::harts_bytes(self@.harts, self@.harts.len()),
    {
        let ghost start = out@;
        let mut i: usize = 0;
        assert(out@ =~= start + codec::harts_bytes(self@.harts, 0));
        while i < self.machine.harts.len()
            invariant
                i <= self@.harts.len(),
                self@.harts == self.machine.harts@,
                out@ == start + codec::harts_bytes(self@.harts, i as nat),
            decreases self@.harts.len() - i,
        {
            encode_hart(out, &self.machine.harts[i]);
            assert(out@ =~= start + (codec::harts_bytes(self@.harts, i as nat) + codec::hart_bytes(
                self@.harts[i as int],
            )));
            i = i + 1;
        }
    }

    fn push_counters(&self, out: &mut Vec<u8>)
        requires
            self.wf(),
        ensures
            final(out)@ == old(out)@ + codec::counters_bytes(self@),
    {
        let ghost start = out@;
        push_u64(out, self.machine.devices.mtime);
        push_u64(out, self.machine.steps_executed);
        push_u64(out, self.machine.instructions_retired);
        push_bool(out, self.machine.firmware.enabled);
        push_u64(out, self.machine.next_host_request_id);
        assert(out@ =~= start + codec::counters_bytes(self@));
    }

    fn push_request(&self, out: &mut Vec<u8>)
        requires
            self.wf(),
        ensures
            final(out)@ == old(out)@ + codec::request_bytes(self@.pending->Some_0),
    {
        let ghost start = out@;
        if let Some(pending) = &self.machine.pending_9p_request {
            push_u64(out, pending.request.id.get());
            push_u32(out, pending.request.channel);
            push_u32(out, pending.hart_id as u32);
            push_len_bytes(out, pending.request.message.as_slice());
            push_u64(out, pending.request.max_response_bytes as u64);
            push_u64(out, pending.response_address);
            assert(out@ =~= start + codec::request_bytes(pending@));
        }
    }

    fn push_memory(&self, out: &mut Vec<u8>)
        requires
            self.wf(),
        ensures
            final(out)@ == old(out)@ + codec::memory_bytes(self@.devices.ram),
    {
        let ghost start = out@;
        let ghost memory = self@.devices.ram;
        let ghost total = codec::page_count(memory);
        let pages = self.machine.devices.ram.nonzero_pages(PAGE_BYTES);
        push_u32(out, pages.len() as u32);
        let ghost list = ram::populated(memory, PAGE_BYTES as int, total);
        let ghost head = out@;
        let mut k: usize = 0;
        proof {
            assert(list_bytes(memory, list, 0) =~= Seq::<u8>::empty());
            assert(out@ =~= head + list_bytes(memory, list, 0));
        }
        while k < pages.len()
            invariant
                k <= pages@.len(),
                pages@.len() == list.len(),
                forall|j: int|
                    0 <= j < list.len() ==> (#[trigger] pages@[j]).0 == list[j] && pages@[j].1@
                        == ram::page_of(memory, PAGE_BYTES as int, list[j]),
                out@ == head + list_bytes(memory, list, k as nat),
            decreases pages@.len() - k,
        {
            push_u32(out, pages[k].0 as u32);
            push_bytes(out, pages[k].1.as_slice());
            assert(out@ =~= head + list_bytes(memory, list, (k + 1) as nat));
            k = k + 1;
        }
        proof {
            lemma_list(memory, total);
            assert(out@ =~= start + codec::memory_bytes(memory));
        }
    }

    /// Encode everything that the digest covers.
    pub fn encode_payload(&self, binding: CheckpointBinding) -> (r: Vec<u8>)
        requires
            self.wf(),
        ensures
            r@ == codec::payload_of(self@, binding),
    {
        let mut out: Vec<u8> = Vec::new();
        MachineCheckpoint::push_identity(&mut out, binding);
        self.push_shape(&mut out);
        self.push_harts(&mut out);
        self.push_counters(&mut out);
        self.push_request(&mut out);
        self.push_memory(&mut out);
        assert(out@ =~= codec::payload_of(self@, binding));
        out
    }

    /// Encode a sparse, integrity-checked durable checkpoint.
    ///
    /// The outer signed capsule artifact supplies authenticity; the embedded
    /// checksum detects corruption and the binding prevents cross-image reuse.
    pub fn encode(&self, binding: CheckpointBinding) -> (r: Vec<u8>)
        requires
            self.wf(),
        ensures
            r@ == artifact_of(self@, binding),
    {
        let mut out = self.encode_payload(binding);
        let digest = blake3_digest(out.as_slice());
        push_bytes(&mut out, digest.as_slice());
        out
    }

    /// Decode and validate a durable checkpoint before it can enter a Realm.
    /// Only the allocator can refuse what the format admits.
    pub fn decode(bytes: &[u8], expected_binding: CheckpointBinding) -> (r: Result<
        Self,
        CheckpointDecodeError,
    >)
        ensures
            decoded(
                artifact_read(bytes@, expected_binding),
                artifact_envelope(bytes@, expected_binding),
                r,
            ),
            forall|m: MachineView, binding: CheckpointBinding|
                bytes@ == #[trigger] artifact_of(m, binding) && !codec::same_binding(
                    binding,
                    expected_binding,
                ) ==> r == Err::<Self, _>(CheckpointDecodeError::BindingMismatch),
            forall|m: MachineView, binding: CheckpointBinding|
                bytes@ == #[trigger] artifact_of(m, binding) && 0 <= m.active < m.harts.len()
                    <= MAX_HARTS && r is Ok ==> codec::same_topology(r->Ok_0@, m),
    {
        proof {
            assert forall|m: MachineView, binding: CheckpointBinding|
                bytes@ == #[trigger] artifact_of(m, binding) && !codec::same_binding(
                    binding,
                    expected_binding,
                ) implies artifact_read(bytes@, expected_binding) == Err::<MachineView, _>(
                CheckpointDecodeError::BindingMismatch,
            ) && artifact_envelope(bytes@, expected_binding) is None by {
                foreign_artifacts_are_refused(m, binding, expected_binding);
            }
            assert forall|m: MachineView, binding: CheckpointBinding|
                bytes@ == #[trigger] artifact_of(m, binding) && 0 <= m.active < m.harts.len()
                    <= MAX_HARTS && artifact_read(
                    bytes@,
                    expected_binding,
                ) is Ok implies codec::same_topology(
                artifact_read(bytes@, expected_binding)->Ok_0,
                m,
            ) by {
                artifacts_keep_the_topology(m, binding, expected_binding);
            }
        }
        if bytes.len() < DIGEST_BYTES {
            return Err(CheckpointDecodeError::Truncated);
        }
        let payload = slice_subrange(bytes, 0, bytes.len() - DIGEST_BYTES);
        let digest = CheckpointDigest::hash(payload);
        MachineCheckpoint::decode_with_digest(bytes, digest, expected_binding)
    }

    /// Decode an artifact whose payload has the given digest.
    pub fn decode_with_digest(
        bytes: &[u8],
        digest: CheckpointDigest,
        expected_binding: CheckpointBinding,
    ) -> (r: Result<Self, CheckpointDecodeError>)
        ensures
            decoded(
                codec::artifact_spec(bytes@, digest.bytes@, expected_binding),
                codec::artifact_envelope(bytes@, digest.bytes@, expected_binding),
                r,
            ),
    {
        if bytes.len() < DIGEST_BYTES {
            return Err(CheckpointDecodeError::Truncated);
        }
        let split: usize = bytes.len() - DIGEST_BYTES;
        let payload = slice_subrange(bytes, 0, split);
        let encoded = slice_subrange(bytes, split, bytes.len());
        if !same_bytes(encoded, digest.bytes.as_slice()) {
            return Err(CheckpointDecodeError::IntegrityMismatch);
        }
        MachineCheckpoint::decode_payload(payload, expected_binding)
    }

    /// Decode a payload whose integrity is established.
    pub fn decode_payload(payload: &[u8], expected_binding: CheckpointBinding) -> (r: Result<
        Self,
        CheckpointDecodeError,
    >)
        ensures
            decoded(
                codec::payload_spec(payload@, expected_binding),
                codec::payload_envelope(payload@, expected_binding),
                r,
            ),
    {
        let (config, hart_count) = MachineCheckpoint::read_shape(payload, expected_binding)?;
        match Machine::new_with_harts(config, hart_count) {
            Ok(machine) => MachineCheckpoint::decode_into(payload, expected_binding, machine),
            Err(error) => Err(CheckpointDecodeError::Machine(error)),
        }
    }

    /// Resources and hart count of the machine that a payload asks for.
    pub fn read_shape(payload: &[u8], expected_binding: CheckpointBinding) -> (r: Result<
        (MachineConfig, usize),
        CheckpointDecodeError,
    >)
        ensures
            match (r, codec::payload_shape(payload@, expected_binding)) {
                (Ok((config, hart_count)), Ok(shape)) => config == shape.config && hart_count
                    == shape.harts && crate::machine::shape_error(config, hart_count) is None,
                (Err(error), Err(model)) => error == model,
                _ => false,
            },
    {
        let mut decoder = Decoder::new(payload);
        decoder.identity(expected_binding)?;
        let (config, hart_count, _, _) = decoder.shape()?;
        Ok((config, hart_count as usize))
    }

    /// Decode a payload whose integrity is established into a reset machine of
    /// the shape that it asks for.
    pub fn decode_into(
        payload: &[u8],
        expected_binding: CheckpointBinding,
        machine: Machine,
    ) -> (r: Result<Self, CheckpointDecodeError>)
        requires
            machine.wf(),
            codec::payload_shape(payload@, expected_binding) matches Ok(shape) ==> machine@
                == MachineView::fresh(shape.config, shape.harts as nat),
        ensures
            match (r, codec::payload_spec(payload@, expected_binding)) {
                (Ok(checkpoint), Ok(model)) => checkpoint.wf() && checkpoint@ == model,
                (Err(error), Err(model)) => error == model,
                _ => false,
            },
    {
        let mut decoder = Decoder::new(payload);
        decoder.identity(expected_binding)?;
        let (config, hart_count, active, quantum) = decoder.shape()?;
        let ghost shape = codec::Shape { config, harts: hart_count, active, quantum };
        let mut machine = machine;
        machine.active_hart_id = active as usize;
        machine.scheduler_quantum_remaining = quantum;
        decoder.harts(&mut machine)?;
        let (mtime, steps, retired, next_id) = decoder.counters()?;
        machine.devices.mtime = mtime;
        machine.steps_executed = steps;
        machine.instructions_retired = retired;
        machine.firmware = SbiFirmware { enabled: true };
        let pending = decoder.request(&machine, next_id)?;
        machine.next_host_request_id = next_id;
        machine.pending_9p_request = Some(pending);
        decoder.memory(&mut machine)?;
        if decoder.at < decoder.bytes.len() {
            return Err(CheckpointDecodeError::TrailingBytes);
        }
        Ok(MachineCheckpoint { machine })
    }
}

/// Outcome of decoding: what the format says, or the allocator's refusal of a
/// machine whose shape the format admits.
pub open spec fn decoded(
    expected: Result<MachineView, CheckpointDecodeError>,
    envelope: Option<usize>,
    r: Result<MachineCheckpoint, CheckpointDecodeError>,
) -> bool {
    match r {
        Ok(checkpoint) => checkpoint.wf() && expected == Ok::<_, CheckpointDecodeError>(
            checkpoint@,
        ),
        Err(error) => {
            ||| expected == Err::<MachineView, _>(error)
            ||| envelope matches Some(ram_bytes) && error == CheckpointDecodeError::Machine(
                MachineError::RamAllocationDenied(ram_bytes),
            )
        },
    }
}

/// Bytes of a durable checkpoint: the payload and its digest.
pub open spec fn artifact_of(m: MachineView, binding: CheckpointBinding) -> Seq<u8> {
    codec::payload_of(m, binding) + blake3_of(codec::payload_of(m, binding))@
}

/// Machine that an artifact stands for, or the first reason it stands for none.
pub open spec fn artifact_read(s: Seq<u8>, expected: CheckpointBinding) -> Result<
    MachineView,
    CheckpointDecodeError,
> {
    codec::artifact_spec(s, blake3_of(s.subrange(0, s.len() - DIGEST_BYTES))@, expected)
}

/// RAM size of the machine that an artifact asks for, once its digest holds and
/// its shape is admitted.
pub open spec fn artifact_envelope(s: Seq<u8>, expected: CheckpointBinding) -> Option<usize> {
    codec::artifact_envelope(s, blake3_of(s.subrange(0, s.len() - DIGEST_BYTES))@, expected)
}

/// The digest of an encoded checkpoint holds, so that its payload decides.
proof fn lemma_artifact(m: MachineView, binding: CheckpointBinding, expected: CheckpointBinding)
    ensures
        artifact_read(artifact_of(m, binding), expected) == codec::payload_spec(
            codec::payload_of(m, binding),
            expected,
        ),
        artifact_envelope(artifact_of(m, binding), expected) == codec::payload_envelope(
            codec::payload_of(m, binding),
            expected,
        ),
{
    let payload = codec::payload_of(m, binding);
    let artifact = artifact_of(m, binding);
    assert(artifact.subrange(0, artifact.len() - DIGEST_BYTES) =~= payload);
    assert(artifact.subrange(artifact.len() - DIGEST_BYTES, artifact.len() as int) =~= blake3_of(
        payload,
    )@);
}

/// An encoded checkpoint decodes, under its own binding, to the machine it was
/// taken from.
pub proof fn artifact_round_trip(m: MachineView, binding: CheckpointBinding)
    requires
        codec::admissible(m),
    ensures
        artifact_read(artifact_of(m, binding), binding) == Ok::<_, CheckpointDecodeError>(
            codec::kept(m),
        ),
{
    lemma_artifact(m, binding, binding);
    codec::decoding_inverts_encoding(m, binding);
}

/// An artifact is decoded under its own binding only, whatever machine it
/// holds, and asks for no memory under another.
pub proof fn foreign_artifacts_are_refused(
    m: MachineView,
    binding: CheckpointBinding,
    expected: CheckpointBinding,
)
    requires
        !codec::same_binding(binding, expected),
    ensures
        artifact_read(artifact_of(m, binding), expected) == Err::<MachineView, _>(
            CheckpointDecodeError::BindingMismatch,
        ),
        artifact_envelope(artifact_of(m, binding), expected) is None,
        forall|r: Result<MachineCheckpoint, CheckpointDecodeError>| #[trigger]
            decoded(
                artifact_read(artifact_of(m, binding), expected),
                artifact_envelope(artifact_of(m, binding), expected),
                r,
            ) ==> r == Err::<MachineCheckpoint, _>(CheckpointDecodeError::BindingMismatch),
{
    lemma_artifact(m, binding, expected);
    codec::foreign_binding_is_refused(m, binding, expected);
}

/// Whatever an encoded checkpoint is decoded to has the resources and the harts
/// of the machine it was taken from.
pub proof fn artifacts_keep_the_topology(
    m: MachineView,
    binding: CheckpointBinding,
    expected: CheckpointBinding,
)
    requires
        0 <= m.active < m.harts.len() <= MAX_HARTS,
    ensures
        artifact_read(artifact_of(m, binding), expected) matches Ok(read)
            ==> codec::same_topology(read, m),
{
    lemma_artifact(m, binding, expected);
    codec::topology_is_read_back(m, binding, expected);
}

/// An artifact whose trailing digest is not the digest of its payload is
/// refused, whatever the payload holds.
pub proof fn corrupted_digest_is_refused(
    payload: Seq<u8>,
    trailer: Seq<u8>,
    digest: Seq<u8>,
    binding: CheckpointBinding,
)
    requires
        trailer.len() == DIGEST_BYTES,
        trailer != digest,
    ensures
        codec::artifact_spec(payload + trailer, digest, binding) == Err::<
            MachineView,
            _,
        >(CheckpointDecodeError::IntegrityMismatch),
{
    let artifact = payload + trailer;
    assert(artifact.subrange(artifact.len() - DIGEST_BYTES, artifact.len() as int) =~= trailer);
}

/// The first `count` listed pages, each behind its index.
spec fn list_bytes(memory: Seq<u8>, list: Seq<int>, count: nat) -> Seq<u8>
    decreases count,
{
    if count == 0 {
        Seq::empty()
    } else {
        list_bytes(memory, list, (count - 1) as nat) + (codec::u32_bytes(list[count - 1] as u32)
            + ram::page_of(memory, PAGE_BYTES as int, list[count - 1]))
    }
}

proof fn lemma_list_prefix(memory: Seq<u8>, a: Seq<int>, b: Seq<int>, count: nat)
    requires
        count <= a.len(),
        count <= b.len(),
        forall|i: int| 0 <= i < count ==> a[i] == b[i],
    ensures
        list_bytes(memory, a, count) == list_bytes(memory, b, count),
    decreases count,
{
    if count > 0 {
        lemma_list_prefix(memory, a, b, (count - 1) as nat);
    }
}

proof fn lemma_list(memory: Seq<u8>, upto: nat)
    ensures
        ({
            let list = ram::populated(memory, PAGE_BYTES as int, upto);
            list_bytes(memory, list, list.len()) == codec::pages_bytes(memory, upto)
        }),
    decreases upto,
{
    if upto > 0 {
        let before = ram::populated(memory, PAGE_BYTES as int, (upto - 1) as nat);
        let list = ram::populated(memory, PAGE_BYTES as int, upto);
        lemma_list(memory, (upto - 1) as nat);
        if ram::all_zero(ram::page_of(memory, PAGE_BYTES as int, upto - 1)) {
            assert(codec::pages_bytes(memory, upto) =~= codec::pages_bytes(
                memory,
                (upto - 1) as nat,
            ));
        } else {
            lemma_list_prefix(memory, before, list, before.len());
        }
    }
}

fn csrs_admissible(csrs: &CsrFile) -> (r: bool)
    ensures
        r == codec::csrs_valid(*csrs),
{
    let mode: u64 = csrs.satp >> SATP_MODE_SHIFT;
    csrs.mstatus & !MSTATUS_WRITABLE == 0 && csrs.medeleg & !MEDELEG_SUPPORTED == 0 && csrs.mideleg
        & !MIDELEG_SUPPORTED == 0 && csrs.mie & !INTERRUPT_SUPPORTED == 0 && csrs.mip
        & !INTERRUPT_SUPPORTED == 0 && csrs.mcounteren & !7u64 == 0 && csrs.scounteren & !7u64 == 0
        && (mode == SATP_MODE_BARE || mode == SATP_MODE_SV39) && legal_trap_vector(csrs.mtvec)
        == csrs.mtvec && legal_trap_vector(csrs.stvec) == csrs.stvec && csrs.mepc & 1 == 0
        && csrs.sepc & 1 == 0
}

/// A position in a payload.
struct Decoder<'a> {
    bytes: &'a [u8],
    at: usize,
}

/// Relation between a reading function and its model.
spec fn reads<T>(
    before: Decoder<'_>,
    after: Decoder<'_>,
    expected: codec::Parsed<T>,
    result: Result<T, CheckpointDecodeError>,
) -> bool {
    &&& after.bytes@ == before.bytes@
    &&& after.wf()
    &&& match (result, expected) {
        (Ok(value), Ok((model, next))) => value == model && after.at == next,
        (Err(error), Err(model)) => error == model,
        _ => false,
    }
}

impl<'a> Decoder<'a> {
    spec fn wf(&self) -> bool {
        self.at <= self.bytes@.len()
    }

    fn new(bytes: &'a [u8]) -> (r: Self)
        ensures
            r.wf(),
            r.bytes@ == bytes@,
            r.at == 0,
    {
        Decoder { bytes, at: 0 }
    }

    fn take(&mut self, count: usize) -> (r: Result<&'a [u8], CheckpointDecodeError>)
        requires
            old(self).wf(),
        ensures
            final(self).wf(),
            final(self).bytes@ == old(self).bytes@,
            match (r, codec::take_spec(old(self).bytes@, old(self).at as int, count as int)) {
                (Ok(value), Ok((model, next))) => value@ == model && final(self).at == next,
                (Err(error), Err(model)) => error == model,
                _ => false,
            },
    {
        if self.bytes.len() - self.at < count {
            return Err(CheckpointDecodeError::Truncated);
        }
        let start: usize = self.at;
        self.at = start + count;
        Ok(slice_subrange(self.bytes, start, start + count))
    }

    fn byte(&mut self) -> (r: Result<u8, CheckpointDecodeError>)
        requires
            old(self).wf(),
        ensures
            reads(
                *old(self),
                *final(self),
                codec::byte_spec(old(self).bytes@, old(self).at as int),
                r,
            ),
    {
        if self.at >= self.bytes.len() {
            return Err(CheckpointDecodeError::Truncated);
        }
        let value: u8 = self.bytes[self.at];
        self.at = self.at + 1;
        Ok(value)
    }

    fn boolean(&mut self, field: &'static str) -> (r: Result<bool, CheckpointDecodeError>)
        requires
            old(self).wf(),
        ensures
            reads(
                *old(self),
                *final(self),
                codec::bool_spec(old(self).bytes@, old(self).at as int, field),
                r,
            ),
    {
        match self.byte()? {
            0 => Ok(false),
            1 => Ok(true),
            _ => Err(CheckpointDecodeError::InvalidField(field)),
        }
    }

    fn u32(&mut self) -> (r: Result<u32, CheckpointDecodeError>)
        requires
            old(self).wf(),
        ensures
            reads(
                *old(self),
                *final(self),
                codec::u32_spec(old(self).bytes@, old(self).at as int),
                r,
            ),
    {
        if self.bytes.len() - self.at < 4 {
            return Err(CheckpointDecodeError::Truncated);
        }
        let value: u64 = read_le(self.bytes, self.at, 4);
        self.at = self.at + 4;
        Ok(value as u32)
    }

    fn u64(&mut self) -> (r: Result<u64, CheckpointDecodeError>)
        requires
            old(self).wf(),
        ensures
            reads(
                *old(self),
                *final(self),
                codec::u64_spec(old(self).bytes@, old(self).at as int),
                r,
            ),
    {
        if self.bytes.len() - self.at < 8 {
            return Err(CheckpointDecodeError::Truncated);
        }
        let value: u64 = read_le(self.bytes, self.at, 8);
        self.at = self.at + 8;
        Ok(value)
    }

    fn usize(&mut self, field: &'static str) -> (r: Result<usize, CheckpointDecodeError>)
        requires
            old(self).wf(),
        ensures
            reads(
                *old(self),
                *final(self),
                codec::usize_spec(old(self).bytes@, old(self).at as int, field),
                r,
            ),
    {
        let value: u64 = self.u64()?;
        if value > usize::MAX as u64 {
            return Err(CheckpointDecodeError::InvalidField(field));
        }
        Ok(value as usize)
    }

    fn len_bytes(&mut self) -> (r: Result<&'a [u8], CheckpointDecodeError>)
        requires
            old(self).wf(),
        ensures
            final(self).wf(),
            final(self).bytes@ == old(self).bytes@,
            match (r, codec::sized_spec(old(self).bytes@, old(self).at as int)) {
                (Ok(value), Ok((model, next))) => value@ == model && final(self).at == next,
                (Err(error), Err(model)) => error == model,
                _ => false,
            },
    {
        let count: u32 = self.u32()?;
        self.take(count as usize)
    }

    fn words(&mut self, count: usize) -> (r: Result<Vec<u64>, CheckpointDecodeError>)
        requires
            old(self).wf(),
            count <= 64,
        ensures
            final(self).wf(),
            final(self).bytes@ == old(self).bytes@,
            match (r, codec::words_spec(old(self).bytes@, old(self).at as int, count as nat)) {
                (Ok(value), Ok((model, next))) => value@ == model && final(self).at == next,
                (Err(error), Err(model)) => error == model,
                _ => false,
            },
    {
        let mut out: Vec<u64> = Vec::new();
        let mut i: usize = 0;
        while i < count
            invariant
                i <= count <= 64,
                self.wf(),
                old(self).wf(),
                self.bytes@ == old(self).bytes@,
                self.at == old(self).at + 8 * i,
                out@.len() == i,
                forall|j: int|
                    0 <= j < i ==> #[trigger] out@[j] == bytes::le_value(
                        self.bytes@.subrange(old(self).at + 8 * j, old(self).at + 8 * j + 8),
                    ) as u64,
            decreases count - i,
        {
            let word: u64 = self.u64()?;
            out.push(word);
            i = i + 1;
        }
        proof {
            let model = codec::words_spec(
                old(self).bytes@,
                old(self).at as int,
                count as nat,
            )->Ok_0.0;
            assert(out@ =~= model);
        }
        Ok(out)
    }

    fn register_file(&mut self) -> (r: Result<[u64; 32], CheckpointDecodeError>)
        requires
            old(self).wf(),
        ensures
            final(self).wf(),
            final(self).bytes@ == old(self).bytes@,
            match (r, codec::words_spec(old(self).bytes@, old(self).at as int, 32)) {
                (Ok(value), Ok((model, next))) => value@ == model && value == codec::array_of(model)
                    && final(self).at == next,
                (Err(error), Err(model)) => error == model,
                _ => false,
            },
    {
        let words = self.words(32)?;
        let mut file: [u64; 32] = [0;32];
        let mut i: usize = 0;
        while i < 32
            invariant
                i <= 32,
                words@.len() == 32,
                forall|j: int| 0 <= j < i ==> file@[j] == words@[j],
            decreases 32 - i,
        {
            file[i] = words[i];
            i = i + 1;
        }
        assert(file@ =~= words@);
        proof {
            codec::lemma_array(file);
        }
        Ok(file)
    }

    fn identity(&mut self, expected: CheckpointBinding) -> (r: Result<(), CheckpointDecodeError>)
        requires
            old(self).wf(),
        ensures
            reads(
                *old(self),
                *final(self),
                codec::identity_spec(old(self).bytes@, old(self).at as int, expected),
                r,
            ),
    {
        proof {
            reveal(codec::identity_spec);
        }
        let magic = MAGIC;
        if !same_bytes(self.take(8)?, magic.as_slice()) {
            return Err(CheckpointDecodeError::InvalidMagic);
        }
        let version: u32 = self.u32()?;
        if version != FORMAT_VERSION {
            return Err(CheckpointDecodeError::UnsupportedVersion(version));
        }
        if !same_bytes(self.len_bytes()?, MACHINE_MODEL.as_bytes()) {
            return Err(CheckpointDecodeError::MachineModelMismatch);
        }
        let image = self.take(32)?;
        let distribution = self.take(32)?;
        if !same_bytes(image, expected.linux_image.bytes.as_slice()) || !same_bytes(
            distribution,
            expected.distribution.bytes.as_slice(),
        ) {
            return Err(CheckpointDecodeError::BindingMismatch);
        }
        Ok(())
    }

    fn shape(&mut self) -> (r: Result<(MachineConfig, u32, u32, u64), CheckpointDecodeError>)
        requires
            old(self).wf(),
        ensures
            final(self).wf(),
            final(self).bytes@ == old(self).bytes@,
            match (r, codec::shape_spec(old(self).bytes@, old(self).at as int)) {
                (Ok(value), Ok((model, next))) => {
                    &&& model == (codec::Shape {
                        config: value.0,
                        harts: value.1,
                        active: value.2,
                        quantum: value.3,
                    })
                    &&& codec::shape_refusal(value.0, value.1) is None
                    &&& value.2 < value.1
                    &&& final(self).at == next
                },
                (Err(error), Err(model)) => error == model,
                _ => false,
            },
    {
        proof {
            reveal(codec::shape_spec);
        }
        let ram_bytes: usize = self.usize("RAM byte length")?;
        let max_console_bytes: usize = self.usize("console byte limit")?;
        let harts: u32 = self.u32()?;
        let config = MachineConfig { ram_bytes, max_console_bytes };
        if ram_bytes < crate::platform::MIN_RAM_BYTES || ram_bytes > crate::platform::MAX_RAM_BYTES
            || ram_bytes % crate::platform::MIN_RAM_BYTES != 0 {
            return Err(
                CheckpointDecodeError::Machine(MachineError::InvalidRamBytes(ram_bytes)),
            );
        }
        if max_console_bytes > crate::platform::MAX_CONSOLE_BYTES {
            return Err(
                CheckpointDecodeError::Machine(
                    MachineError::InvalidConsoleBytes(max_console_bytes),
                ),
            );
        }
        if harts < 1 || harts as usize > MAX_HARTS {
            return Err(
                CheckpointDecodeError::Machine(MachineError::InvalidHartCount(harts as usize)),
            );
        }
        let active: u32 = self.u32()?;
        if active >= harts {
            return Err(CheckpointDecodeError::InvalidField("active hart"));
        }
        let quantum: u64 = self.u64()?;
        Ok((config, harts, active, quantum))
    }

    fn csrs(&mut self) -> (r: Result<CsrFile, CheckpointDecodeError>)
        requires
            old(self).wf(),
        ensures
            final(self).wf(),
            final(self).bytes@ == old(self).bytes@,
            match codec::words_spec(old(self).bytes@, old(self).at as int, CSR_WORDS as nat) {
                Err(error) => r == Err::<CsrFile, _>(error),
                Ok((words, next)) => match codec::byte_spec(old(self).bytes@, next) {
                    Err(error) => r == Err::<CsrFile, _>(error),
                    Ok((fcsr, next)) => {
                        let csrs = codec::csrs_of(words, fcsr);
                        if codec::csrs_valid(csrs) {
                            r == Ok::<_, CheckpointDecodeError>(csrs) && final(self).at == next
                        } else {
                            r == Err::<CsrFile, _>(
                                CheckpointDecodeError::InvalidField("CSR state"),
                            )
                        }
                    },
                },
            },
    {
        let words = self.words(CSR_WORDS)?;
        let fcsr: u8 = self.byte()?;
        let csrs = CsrFile {
            fcsr,
            mstatus: words[0],
            medeleg: words[1],
            mideleg: words[2],
            mie: words[3],
            mip: words[4],
            mcounteren: words[5],
            scounteren: words[6],
            satp: words[7],
            mtvec: words[8],
            mscratch: words[9],
            mepc: words[10],
            mcause: words[11],
            mtval: words[12],
            stvec: words[13],
            sscratch: words[14],
            sepc: words[15],
            scause: words[16],
            stval: words[17],
        };
        if !csrs_admissible(&csrs) {
            return Err(CheckpointDecodeError::InvalidField("CSR state"));
        }
        Ok(csrs)
    }

    fn reservation(&mut self, machine: &Machine) -> (r: Result<
        Option<(u64, u8)>,
        CheckpointDecodeError,
    >)
        requires
            old(self).wf(),
            machine.wf(),
        ensures
            reads(
                *old(self),
                *final(self),
                codec::reservation_spec(
                    old(self).bytes@,
                    old(self).at as int,
                    machine@.config.ram_bytes as int,
                ),
                r,
            ),
    {
        proof {
            reveal(codec::reservation_spec);
        }
        let marker: u8 = self.byte()?;
        if marker == 0 {
            return Ok(None);
        }
        if marker != 1 {
            return Err(CheckpointDecodeError::InvalidField("reservation marker"));
        }
        let address: u64 = self.u64()?;
        let width: u8 = self.byte()?;
        if (width != 4 && width != 8) || machine.devices.ram_range(address, width).is_none() {
            return Err(CheckpointDecodeError::InvalidField("reservation"));
        }
        Ok(Some((address, width)))
    }

    fn hart(&mut self, id: usize, machine: &Machine) -> (r: Result<
        HartState,
        CheckpointDecodeError,
    >)
        requires
            old(self).wf(),
            machine.wf(),
        ensures
            reads(
                *old(self),
                *final(self),
                codec::hart_spec(
                    old(self).bytes@,
                    old(self).at as int,
                    id,
                    machine@.config.ram_bytes as int,
                ),
                r,
            ),
            r matches Ok(hart) ==> hart.wf(),
    {
        proof {
            reveal(codec::core_spec);
            reveal(codec::status_parse_spec);
            reveal(codec::timing_spec);
        }
        let started: bool = self.boolean("hart lifecycle")?;
        let mut hart = HartState::new(
            id,
            if started {
                HartLifecycle::Started
            } else {
                HartLifecycle::Stopped
            },
        );
        let registers = self.register_file()?;
        if registers[0] != 0 {
            return Err(CheckpointDecodeError::InvalidField("zero register"));
        }
        hart.cpu.registers = registers;
        let pc: u64 = self.u64()?;
        if pc & 1 != 0 {
            return Err(CheckpointDecodeError::InvalidField("program counter"));
        }
        hart.cpu.pc = pc;
        let code: u8 = self.byte()?;
        hart.cpu.privilege =
        match Privilege::from_code(code as u64) {
            Some(privilege) => privilege,
            None => {
                return Err(CheckpointDecodeError::InvalidField("privilege"));
            },
        };
        hart.cpu.floating_registers = self.register_file()?;
        hart.csrs = self.csrs()?;
        hart.timer_deadline = self.u64()?;
        hart.msip = self.boolean("software interrupt state")?;
        hart.cycle = self.u64()?;
        hart.instret = self.u64()?;
        hart.reservation = self.reservation(machine)?;
        Ok(hart)
    }

    /// Reads the harts of a machine in place of its reset ones.
    fn harts(&mut self, machine: &mut Machine) -> (r: Result<(), CheckpointDecodeError>)
        requires
            old(self).wf(),
            old(machine).wf(),
        ensures
            final(self).wf(),
            final(self).bytes@ == old(self).bytes@,
            final(machine).wf(),
            final(machine)@.harts.len() == old(machine)@.harts.len(),
            match (
                r,
                codec::harts_spec(
                    old(self).bytes@,
                    old(self).at as int,
                    old(machine)@.harts.len(),
                    old(machine)@.config.ram_bytes as int,
                ),
            ) {
                (Ok(_), Ok((harts, next))) => {
                    &&& final(self).at == next
                    &&& final(machine)@ == (MachineView {
                        harts,
                        controls: codec::settled_controls(harts),
                        ..old(machine)@
                    })
                },
                (Err(error), Err(model)) => error == model,
                _ => false,
            },
    {
        let count: usize = machine.harts.len();
        let mut harts: Vec<HartState> = Vec::new();
        let mut controls: Vec<HartControl> = Vec::new();
        let ghost ram_bytes = machine@.config.ram_bytes as int;
        let ghost whole = codec::harts_spec(self.bytes@, self.at as int, count as nat, ram_bytes);
        let mut id: usize = 0;
        while id < count
            invariant
                id <= count,
                count == machine@.harts.len(),
                machine.wf(),
                *machine == *old(machine),
                self.wf(),
                self.bytes@ == old(self).bytes@,
                ram_bytes == machine@.config.ram_bytes,
                codec::harts_spec(
                    old(self).bytes@,
                    old(self).at as int,
                    id as nat,
                    ram_bytes,
                ) == Ok::<_, CheckpointDecodeError>((harts@, self.at as int)),
                controls@ == codec::settled_controls(harts@),
                harts@.len() == id,
                forall|k: int| 0 <= k < id ==> (#[trigger] harts@[k]).wf(),
            decreases count - id,
        {
            let ghost before = harts@;
            let hart = match self.hart(id, machine) {
                Ok(hart) => hart,
                Err(error) => {
                    proof {
                        lemma_harts_error(
                            old(self).bytes@,
                            old(self).at as int,
                            (id + 1) as nat,
                            count as nat,
                            ram_bytes,
                            error,
                        );
                    }
                    return Err(error);
                },
            };
            harts.push(hart);
            controls.push(HartControl::new(hart.lifecycle));
            id = id + 1;
            assert(controls@ =~= codec::settled_controls(harts@));
        }
        machine.harts = harts;
        machine.hart_controls = controls;
        Ok(())
    }

    fn counters(&mut self) -> (r: Result<(u64, u64, u64, u64), CheckpointDecodeError>)
        requires
            old(self).wf(),
        ensures
            final(self).wf(),
            final(self).bytes@ == old(self).bytes@,
            match (r, codec::counters_spec(old(self).bytes@, old(self).at as int)) {
                (Ok(value), Ok((model, next))) => {
                    &&& model == (codec::Counters {
                        mtime: value.0,
                        steps: value.1,
                        retired: value.2,
                        next_id: value.3,
                    })
                    &&& final(self).at == next
                },
                (Err(error), Err(model)) => error == model,
                _ => false,
            },
    {
        proof {
            reveal(codec::counters_spec);
        }
        let mtime: u64 = self.u64()?;
        let steps: u64 = self.u64()?;
        let retired: u64 = self.u64()?;
        if !self.boolean("firmware state")? {
            return Err(CheckpointDecodeError::InvalidField("firmware state"));
        }
        let next_id: u64 = self.u64()?;
        Ok((mtime, steps, retired, next_id))
    }

    fn request(&mut self, machine: &Machine, next_id: u64) -> (r: Result<
        PendingPlan9Request,
        CheckpointDecodeError,
    >)
        requires
            old(self).wf(),
            machine.wf(),
        ensures
            final(self).wf(),
            final(self).bytes@ == old(self).bytes@,
            match (
                r,
                codec::request_spec(
                    old(self).bytes@,
                    old(self).at as int,
                    machine@.harts.len() as int,
                    machine@.config.ram_bytes as int,
                    next_id,
                ),
            ) {
                (Ok(value), Ok((model, next))) => value@ == model && final(self).at == next,
                (Err(error), Err(model)) => error == model,
                _ => false,
            },
            r matches Ok(value) ==> next_id != 0 && (MachineView {
                pending: Some(value@),
                next_id,
                ..machine@
            }).request_sound(),
    {
        proof {
            reveal(codec::request_spec);
        }
        let id: u64 = self.u64()?;
        let channel: u32 = self.u32()?;
        let hart: u32 = self.u32()?;
        let encoded = self.len_bytes()?;
        if channel == 0 || hart as usize >= machine.hart_count || encoded.len()
            < MIN_9P_MESSAGE_BYTES || encoded.len() > MAX_9P_MESSAGE_BYTES {
            return Err(CheckpointDecodeError::InvalidField("host request"));
        }
        let message: Vec<u8> = bytes::copy_range(encoded, 0, encoded.len());
        assert(message@ =~= encoded@);
        let max_response_bytes: usize = self.usize("host response byte limit")?;
        if max_response_bytes < MIN_9P_MESSAGE_BYTES || max_response_bytes > MAX_9P_MESSAGE_BYTES {
            return Err(CheckpointDecodeError::InvalidField("host response byte limit"));
        }
        let response_address: u64 = self.u64()?;
        if machine.devices.ram_range_len(response_address, max_response_bytes).is_none() || id == 0
            || next_id <= id {
            return Err(
                CheckpointDecodeError::InvalidField("host request identity or response buffer"),
            );
        }
        Ok(
            PendingPlan9Request {
                request: Plan9Request {
                    id: HostRequestId(id),
                    channel,
                    message,
                    max_response_bytes,
                },
                response_address,
                hart_id: hart as usize,
            },
        )
    }

    /// Reads the populated pages of a machine whose RAM is zero.
    fn memory(&mut self, machine: &mut Machine) -> (r: Result<(), CheckpointDecodeError>)
        requires
            old(self).wf(),
            old(machine).wf(),
            old(machine)@.devices.ram == ram::zeros(old(machine)@.config.ram_bytes as nat),
        ensures
            final(self).wf(),
            final(self).bytes@ == old(self).bytes@,
            final(machine).wf(),
            match (
                r,
                codec::memory_spec(
                    old(self).bytes@,
                    old(self).at as int,
                    old(machine)@.config.ram_bytes as nat,
                ),
            ) {
                (Ok(_), Ok((memory, next))) => {
                    &&& final(self).at == next
                    &&& final(machine)@ == old(machine)@.with_devices(
                        (crate::devices::DevicesView { ram: memory, ..old(machine)@.devices }),
                    )
                },
                (Err(error), Err(model)) => error == model,
                _ => false,
            },
    {
        proof {
            reveal(codec::memory_spec);
        }
        let count: u32 = self.u32()?;
        let total: usize = machine.config.ram_bytes / PAGE_BYTES;
        if count as usize > total {
            return Err(CheckpointDecodeError::InvalidField("populated page count"));
        }
        let ghost start = self.at as int;
        let ghost whole = codec::pages_spec(
            self.bytes@,
            start,
            count as nat,
            machine@.devices.ram,
            0,
        );
        let mut left: u32 = count;
        let mut floor: usize = 0;
        while left > 0
            invariant
                left <= count,
                self.wf(),
                self.bytes@ == old(self).bytes@,
                machine.wf(),
                total == machine@.config.ram_bytes / PAGE_BYTES,
                machine@.devices.ram.len() == machine@.config.ram_bytes,
                machine@ == old(machine)@.with_devices(
                    (crate::devices::DevicesView {
                        ram: machine@.devices.ram,
                        ..old(machine)@.devices
                    }),
                ),
                floor <= total,
                codec::memory_spec(
                    old(self).bytes@,
                    old(self).at as int,
                    old(machine)@.config.ram_bytes as nat,
                ) == whole,
                whole == codec::pages_spec(
                    self.bytes@,
                    self.at as int,
                    left as nat,
                    machine@.devices.ram,
                    floor as int,
                ),
            decreases left,
        {
            let page: usize = self.u32()? as usize;
            if page >= total || page < floor {
                return Err(CheckpointDecodeError::InvalidField("RAM page order"));
            }
            let content = self.take(PAGE_BYTES)?;
            proof {
                assert((page + 1) * PAGE_BYTES <= total * PAGE_BYTES) by (nonlinear_arith)
                    requires
                        page + 1 <= total,
                ;
            }
            let _ = machine.devices.ram.write_page(page, PAGE_BYTES, content);
            floor = page + 1;
            left = left - 1;
        }
        Ok(())
    }
}

/// Once a hart is refused, so is every list that goes on beyond it.
proof fn lemma_harts_error(
    s: Seq<u8>,
    at: int,
    first: nat,
    upto: nat,
    ram_bytes: int,
    error: CheckpointDecodeError,
)
    requires
        first <= upto,
        codec::harts_spec(s, at, first, ram_bytes) == Err::<(Seq<HartState>, int), _>(error),
    ensures
        codec::harts_spec(s, at, upto, ram_bytes) == Err::<(Seq<HartState>, int), _>(error),
    decreases upto,
{
    if first < upto {
        lemma_harts_error(s, at, first, (upto - 1) as nat, ram_bytes, error);
    }
}

} // verus!
