//! What a supervisor gets from each firmware call, told from the numbers in its
//! argument registers.

use crate::alu_laws;
use crate::bits;
use crate::hart::{ControlPhase, HartLifecycle, HartState, TranslationCache};
use crate::isa::{MachineTrap, Privilege};
use crate::machine::{MachineView, PendingView};
use crate::platform::{HaltStatus, HostRequestFailure, HostRequestId};
use crate::sbi;
use vstd::prelude::*;

verus! {

/// Between two instructions of a machine every hart has taken what was asked of
/// it.
pub open spec fn settled(m: MachineView) -> bool {
    &&& 0 <= m.active < m.harts.len()
    &&& m.controls.len() == m.harts.len()
    &&& forall|id: int| 0 <= id < m.controls.len() ==> (#[trigger] m.controls[id]).quiescent()
}

/// The extension, its function, and three arguments.
pub open spec fn calls(
    m: MachineView,
    extension: int,
    function: int,
    a0: int,
    a1: int,
    a2: int,
) -> bool {
    &&& m.reg(17) == extension
    &&& m.reg(16) == function
    &&& m.reg(10) == a0
    &&& m.reg(11) == a1
    &&& m.reg(12) == a2
}

/// A machine that differs from another, on the active hart, in the two
/// registers of a reply.
pub open spec fn replies(base: MachineView, after: MachineView, error: int, value: int) -> bool {
    &&& after.reg(10) == error
    &&& after.reg(11) == value
    &&& forall|r: int|
        0 <= r < 32 && r != 10 && r != 11 ==> #[trigger] after.reg(r) == base.reg(r)
    &&& after.hart() == HartState { cpu: after.hart().cpu, ..base.hart() }
    &&& after.hart().cpu.pc == base.hart().cpu.pc
    &&& after.hart().cpu.privilege == base.hart().cpu.privilege
    &&& after == base.with_hart(after.hart())
}

/// The codes of refusals, as negative numbers in two's complement.
pub open spec fn refusal(code: int) -> int {
    0x1_0000_0000_0000_0000 - code
}

proof fn lemma_replies(base: MachineView, error: u64, value: u64)
    requires
        0 <= base.active < base.harts.len(),
    ensures
        replies(base, base.replied((error, value)), error as int, value as int),
{
    let after = base.replied((error, value));
    assert(after.harts =~= base.harts.update(base.active, after.hart()));
}

/// Setting the timer sets the deadline of the calling hart and takes back its
/// pending tick, whose bit is five; nothing else of its registers changes.
pub proof fn timers_are_set(m: MachineView, a0: u64, i: u64)
    requires
        settled(m),
        calls(m, 0x5449_4d45, 0, a0 as int, m.reg(11) as int, m.reg(12) as int),
        i < 64,
    ensures
        ({
            let (after, result) = m.sbi_spec();
            &&& result == Ok::<Option<HaltStatus>, MachineTrap>(None)
            &&& after.reg(10) == 0
            &&& after.hart().timer_deadline == a0
            &&& alu_laws::bit(after.hart().csrs.mip, i) == (i != 5 && alu_laws::bit(
                m.hart().csrs.mip,
                i,
            ))
            &&& after.devices == m.devices
            &&& after.active == m.active
            &&& forall|id: int|
                0 <= id < m.harts.len() && id != m.active ==> #[trigger] after.harts[id]
                    == m.harts[id]
        }),
{
    reveal(MachineView::sbi_spec);
    lemma_replies(m.timer_set(a0), 0, 0);
    bits::lemma_bit_updates(m.hart().csrs.mip, 5, i, 0);
}

// Harts that a mask names.

/// A hart is named by the bit of its distance from the base, or with all others
/// that run by the all-ones base.
pub open spec fn names(m: MachineView, mask: u64, base: u64, id: int) -> bool {
    if base == u64::MAX {
        m.started(id)
    } else {
        0 <= id - base < 64 && alu_laws::bit(mask, (id - base) as u64)
    }
}

/// Every hart that a mask names runs.
pub open spec fn all_run(m: MachineView, mask: u64, base: u64) -> bool {
    base == u64::MAX || base <= usize::MAX && forall|k: u64|
        k < 64 && #[trigger] alu_laws::bit(mask, k) ==> m.started(base + k)
}

proof fn lemma_mask_bit(mask: u64, k: int)
    requires
        0 <= k < 64,
    ensures
        sbi::mask_bit(mask, k) == alu_laws::bit(mask, k as u64),
{
    bits::lemma_bit_updates(mask, k as u64, 0, 0);
}

proof fn lemma_masked(mask: u64, base: int, upto: nat, id: int)
    requires
        upto <= 64,
    ensures
        MachineView::masked_below(mask, base, upto).contains(id) == (0 <= id - base < upto
            && alu_laws::bit(mask, (id - base) as u64)),
    decreases upto,
{
    if upto > 0 {
        lemma_masked(mask, base, (upto - 1) as nat, id);
        lemma_mask_bit(mask, upto - 1);
        let front = MachineView::masked_below(mask, base, (upto - 1) as nat);
        lemma_pushed(front, base + upto - 1, id);
    }
}

proof fn lemma_pushed(front: Seq<int>, last: int, id: int)
    ensures
        front.push(last).contains(id) == (front.contains(id) || id == last),
{
    let s = front.push(last);
    if front.contains(id) {
        let k = choose|k: int| 0 <= k < front.len() && front[k] == id;
        assert(s[k] == id);
    }
    if id == last {
        assert(s[front.len() as int] == id);
    }
    if s.contains(id) {
        let k = choose|k: int| 0 <= k < s.len() && s[k] == id;
        if k < front.len() {
            assert(front[k] == id);
        }
    }
}

proof fn lemma_started(m: MachineView, upto: nat, id: int)
    ensures
        m.started_below(upto).contains(id) == (0 <= id < upto && m.started(id)),
    decreases upto,
{
    if upto > 0 {
        lemma_started(m, (upto - 1) as nat, id);
        lemma_pushed(m.started_below((upto - 1) as nat), upto - 1, id);
    }
}

proof fn lemma_selected(m: MachineView, mask: u64, base: u64)
    requires
        settled(m),
    ensures
        match m.selected_spec(mask, base) {
            Ok(ids) => all_run(m, mask, base) && forall|id: int|
                0 <= id < m.harts.len() ==> #[trigger] ids.contains(id) == names(
                    m,
                    mask,
                    base,
                    id,
                ),
            Err(error) => !all_run(m, mask, base) && error == refusal(3),
        },
        m.selected_spec(mask, base) matches Ok(ids) ==> forall|k: int|
            0 <= k < ids.len() ==> 0 <= #[trigger] ids[k] < m.harts.len(),
{
    assert forall|k: u64| k < 64 implies #[trigger] alu_laws::bit(mask, k) == sbi::mask_bit(
        mask,
        k as int,
    ) by {
        lemma_mask_bit(mask, k as int);
    }
    if base != u64::MAX && base <= usize::MAX {
        if exists|bit: int|
            0 <= bit < 64 && #[trigger] sbi::mask_bit(mask, bit) && !m.started(base + bit) {
            let bit = choose|bit: int|
                0 <= bit < 64 && #[trigger] sbi::mask_bit(mask, bit) && !m.started(base + bit);
            assert(alu_laws::bit(mask, bit as u64));
        } else {
            assert forall|k: u64| k < 64 && #[trigger] alu_laws::bit(mask, k) implies m.started(
                base + k,
            ) by {
                assert(sbi::mask_bit(mask, k as int));
            }
        }
    }
    if let Ok(ids) = m.selected_spec(mask, base) {
        assert forall|id: int| 0 <= id < m.harts.len() implies #[trigger] ids.contains(id)
            == names(m, mask, base, id) by {
            if base == u64::MAX {
                lemma_started(m, m.harts.len(), id);
            } else {
                lemma_masked(mask, base as int, 64, id);
            }
        }
        assert forall|k: int| 0 <= k < ids.len() implies 0 <= #[trigger] ids[k]
            < m.harts.len() by {
            assert(ids.contains(ids[k]));
            if base == u64::MAX {
                lemma_started(m, m.harts.len(), ids[k]);
            } else {
                lemma_masked(mask, base as int, 64, ids[k]);
                assert(m.started(ids[k])) by {
                    assert(alu_laws::bit(mask, (ids[k] - base) as u64));
                }
            }
        }
    }
}

/// A hart as it was, but for a pending software interrupt.
pub open spec fn interrupted(before: HartState, after: HartState) -> bool {
    &&& forall|i: u64|
        i < 64 ==> #[trigger] alu_laws::bit(after.csrs.mip, i) == (i == 1 || alu_laws::bit(
            before.csrs.mip,
            i,
        ))
    &&& after == HartState {
        csrs: crate::cpu::CsrFile { mip: after.csrs.mip, ..before.csrs },
        ..before
    }
}

proof fn lemma_poked(m: MachineView, ids: Seq<int>, count: nat)
    requires
        settled(m),
        count <= ids.len(),
        forall|k: int| 0 <= k < ids.len() ==> 0 <= #[trigger] ids[k] < m.harts.len(),
    ensures
        ({
            let after = m.poked_all(ids, count);
            &&& settled(after)
            &&& after.active == m.active
            &&& after.harts.len() == m.harts.len()
            &&& after.controls == m.controls
            &&& after == MachineView { harts: after.harts, ..m }
            &&& forall|id: int|
                0 <= id < m.harts.len() ==> if ids.take(count as int).contains(id) {
                    interrupted(m.harts[id], #[trigger] after.harts[id])
                } else {
                    after.harts[id] == m.harts[id]
                }
        }),
    decreases count,
{
    if count > 0 {
        let before = m.poked_all(ids, (count - 1) as nat);
        lemma_poked(m, ids, (count - 1) as nat);
        let at = ids[count - 1];
        let after = before.poked(at);
        let front = ids.take(count - 1);
        assert(ids.take(count as int) =~= front.push(at));
        let p = before.harts[at].csrs.mip;
        assert(0u64 | 0x2u64 == 0x2) by {
            bits::lemma_status_bits(0x2, 0);
        }
        assert(after.controls =~= before.controls);
        assert(after.harts[at].csrs.mip == p | 0x2);
        assert forall|i: u64| i < 64 implies #[trigger] alu_laws::bit(p | 0x2, i) == (i == 1
            || alu_laws::bit(p, i)) by {
            bits::lemma_bit_updates(p, 1, i, 0);
        }
        assert forall|id: int| 0 <= id < m.harts.len() implies if ids.take(
            count as int,
        ).contains(id) {
            interrupted(m.harts[id], #[trigger] after.harts[id])
        } else {
            after.harts[id] == m.harts[id]
        } by {
            lemma_pushed(front, at, id);
            assert(before.harts[id] == before.harts[id]);
        }
    } else {
        assert(ids.take(0) =~= Seq::<int>::empty());
    }
}

/// An interprocessor interrupt marks a software interrupt, whose bit is one, on
/// the named harts and on no other; where one of them does not run, on none.
pub proof fn interrupts_reach_the_named_harts(m: MachineView, mask: u64, base: u64)
    requires
        settled(m),
        calls(m, 0x73_5049, 0, mask as int, base as int, m.reg(12) as int),
    ensures
        ({
            let (after, result) = m.sbi_spec();
            &&& result == Ok::<Option<HaltStatus>, MachineTrap>(None)
            &&& if all_run(m, mask, base) {
                exists|sent: MachineView|
                    {
                        &&& #[trigger] replies(sent, after, 0, 0)
                        &&& sent == MachineView { harts: sent.harts, ..m }
                        &&& sent.harts.len() == m.harts.len()
                        &&& forall|id: int|
                            0 <= id < m.harts.len() ==> if names(m, mask, base, id) {
                                interrupted(m.harts[id], #[trigger] sent.harts[id])
                            } else {
                                sent.harts[id] == m.harts[id]
                            }
                    }
            } else {
                replies(m, after, refusal(3), 0)
            }
        }),
{
    reveal(MachineView::sbi_spec);
    lemma_selected(m, mask, base);
    match m.selected_spec(mask, base) {
        Ok(ids) => {
            lemma_poked(m, ids, ids.len());
            assert(ids.take(ids.len() as int) =~= ids);
            let sent = m.poked_all(ids, ids.len());
            lemma_replies(sent, 0, 0);
            assert forall|id: int| 0 <= id < m.harts.len() implies if names(m, mask, base, id) {
                interrupted(m.harts[id], #[trigger] sent.harts[id])
            } else {
                sent.harts[id] == m.harts[id]
            } by {
                assert(ids.contains(id) == names(m, mask, base, id));
            }
        },
        Err(error) => {
            lemma_replies(m, error, 0);
        },
    }
}

proof fn lemma_fenced(m: MachineView, ids: Seq<int>, count: nat)
    requires
        settled(m),
        count <= ids.len(),
        forall|k: int| 0 <= k < ids.len() ==> 0 <= #[trigger] ids[k] < m.harts.len(),
    ensures
        ({
            let after = m.fenced_all(ids, count);
            &&& settled(after)
            &&& after.active == m.active
            &&& after.harts.len() == m.harts.len()
            &&& after.devices == m.devices
            &&& forall|id: int|
                0 <= id < m.harts.len() ==> (#[trigger] after.harts[id]) == (if ids.take(
                    count as int,
                ).contains(id) {
                    HartState { translation_cache: TranslationCache::empty(), ..m.harts[id] }
                } else {
                    m.harts[id]
                })
        }),
    decreases count,
{
    if count > 0 {
        let before = m.fenced_all(ids, (count - 1) as nat);
        lemma_fenced(m, ids, (count - 1) as nat);
        let at = ids[count - 1];
        let after = before.fenced(at);
        let front = ids.take(count - 1);
        assert(ids.take(count as int) =~= front.push(at));
        bits::lemma_status_bits(before.harts[at].csrs.mip, 0);
        let control = before.controls[at];
        assert(control.fence_generation.wrapping_add(1) != control.fence_generation);
        assert(control.quiescent());
        assert forall|id: int| 0 <= id < m.controls.len() implies (#[trigger] after.controls[id])
            .quiescent() by {
            assert(before.controls[id].quiescent());
        }
        assert forall|id: int| 0 <= id < m.harts.len() implies (#[trigger] after.harts[id]) == (
        if ids.take(count as int).contains(id) {
            HartState { translation_cache: TranslationCache::empty(), ..m.harts[id] }
        } else {
            m.harts[id]
        }) by {
            lemma_pushed(front, at, id);
            assert(before.harts[id] == before.harts[id]);
        }
    } else {
        assert(ids.take(0) =~= Seq::<int>::empty());
    }
}

/// A remote fence of translations makes the named harts, and no other, forget
/// theirs; a fence of instructions needs nothing done.
pub proof fn fences_reach_the_named_harts(m: MachineView, function: u64, mask: u64, base: u64)
    requires
        settled(m),
        calls(m, 0x5246_4e43, function as int, mask as int, base as int, m.reg(12) as int),
    ensures
        ({
            let (after, result) = m.sbi_spec();
            &&& result == Ok::<Option<HaltStatus>, MachineTrap>(None)
            &&& if function > 2 {
                replies(m, after, refusal(2), 0)
            } else if !all_run(m, mask, base) {
                replies(m, after, refusal(3), 0)
            } else if function == 0 {
                replies(m, after, 0, 0)
            } else {
                exists|sent: MachineView|
                    {
                        &&& #[trigger] replies(sent, after, 0, 0)
                        &&& sent.active == m.active
                        &&& sent.devices == m.devices
                        &&& sent.harts.len() == m.harts.len()
                        &&& forall|id: int|
                            0 <= id < m.harts.len() ==> (#[trigger] sent.harts[id]) == (if names(
                                m,
                                mask,
                                base,
                                id,
                            ) {
                                HartState {
                                    translation_cache: TranslationCache::empty(),
                                    ..m.harts[id]
                                }
                            } else {
                                m.harts[id]
                            })
                    }
            }
        }),
{
    reveal(MachineView::sbi_spec);
    lemma_selected(m, mask, base);
    lemma_replies(m, refusal(2) as u64, 0);
    lemma_replies(m, refusal(3) as u64, 0);
    lemma_replies(m, 0, 0);
    if function <= 2 {
        if let Ok(ids) = m.selected_spec(mask, base) {
            lemma_fenced(m, ids, ids.len());
            assert(ids.take(ids.len() as int) =~= ids);
            let sent = m.fenced_all(ids, ids.len());
            lemma_replies(sent, 0, 0);
            assert forall|id: int| 0 <= id < m.harts.len() implies (#[trigger] sent.harts[id])
                == (if names(m, mask, base, id) {
                HartState { translation_cache: TranslationCache::empty(), ..m.harts[id] }
            } else {
                m.harts[id]
            }) by {
                assert(ids.contains(id) == names(m, mask, base, id));
            }
        }
    }
}

// Starting and stopping.

/// An even address with two bytes of memory behind it.
pub open spec fn can_begin(m: MachineView, address: u64) -> bool {
    &&& address % 2 == 0
    &&& 0x8000_0000 <= address
    &&& address + 2 <= 0x8000_0000 + m.devices.ram.len()
}

/// A stopped hart that is started begins at the address, at supervisor level,
/// with interrupts off and no translation, its number in the tenth register
/// and what its caller handed over in the eleventh. One that runs is not started
/// again, and one that does not exist not at all.
pub proof fn harts_start_where_they_are_told(m: MachineView, id: u64, address: u64, opaque: u64)
    requires
        settled(m),
        m.harts.len() <= usize::MAX,
        m.lifecycle_of(m.active) == Some(HartLifecycle::Started),
        calls(m, 0x48_534d, 0, id as int, address as int, opaque as int),
    ensures
        ({
            let (after, result) = m.sbi_spec();
            &&& result == Ok::<Option<HaltStatus>, MachineTrap>(None)
            &&& if id >= m.harts.len() {
                replies(m, after, refusal(3), 0)
            } else if m.started(id as int) {
                replies(m, after, refusal(6), 0)
            } else if !can_begin(m, address) {
                replies(m, after, refusal(5), 0)
            } else {
                let begun = after.harts[id as int];
                &&& after.reg(10) == 0
                &&& after.started(id as int)
                &&& begun.lifecycle == HartLifecycle::Started
                &&& begun.cpu.pc == address
                &&& begun.cpu.privilege == Privilege::Supervisor
                &&& begun.cpu.get(10) == id
                &&& begun.cpu.get(11) == opaque
                &&& begun.csrs.mstatus == 0
                &&& begun.csrs.satp == 0
                &&& begun.csrs.mie == 0
                &&& begun.timer_deadline == u64::MAX
                &&& begun.translation_cache == TranslationCache::empty()
                &&& forall|other: int|
                    0 <= other < m.harts.len() && other != id && other != m.active
                        ==> #[trigger] after.harts[other] == m.harts[other]
            }
        }),
{
    reveal(MachineView::sbi_spec);
    bits::lemma_masks(address);
    lemma_replies(m, refusal(3) as u64, 0);
    lemma_replies(m, refusal(6) as u64, 0);
    lemma_replies(m, refusal(5) as u64, 0);
    if id < m.harts.len() && !m.started(id as int) && can_begin(m, address) {
        let control = m.controls[id as int];
        assert(control.quiescent());
        assert(control.phase == ControlPhase::Stopped);
        let asked = m.with_control(id as int, control.start_requested(address, opaque));
        let begun = asked.control_applied(id as int);
        assert(asked.controls[id as int] == control.start_requested(address, opaque));
        assert(id != m.active);
        assert(m.hart_start_spec(id, address, opaque) == (begun, (0u64, 0u64)));
        lemma_replies(begun, 0, 0);
    }
}

/// A hart stops itself, and a hart that asks learns of each whether it runs.
pub proof fn harts_stop_and_say_so(m: MachineView, id: u64)
    requires
        settled(m),
    ensures
        calls(m, 0x48_534d, 1, m.reg(10) as int, m.reg(11) as int, m.reg(12) as int) ==> ({
            let (after, result) = m.sbi_spec();
            &&& result == Ok::<Option<HaltStatus>, MachineTrap>(None)
            &&& after.hart().lifecycle == HartLifecycle::Stopped
            &&& after.lifecycle_of(m.active) == Some(HartLifecycle::Stopped)
            &&& after.hart() == HartState { lifecycle: HartLifecycle::Stopped, ..m.hart() }
            &&& forall|other: int|
                0 <= other < m.harts.len() && other != m.active ==> after.lifecycle_of(other)
                    == #[trigger] m.lifecycle_of(other)
        }),
        calls(m, 0x48_534d, 2, id as int, m.reg(11) as int, m.reg(12) as int) ==> ({
            let (after, result) = m.sbi_spec();
            &&& result == Ok::<Option<HaltStatus>, MachineTrap>(None)
            &&& if id >= m.harts.len() {
                replies(m, after, refusal(3), 0)
            } else if m.started(id as int) {
                replies(m, after, 0, 0)
            } else {
                replies(m, after, 0, 1)
            }
        }),
{
    reveal(MachineView::sbi_spec);
    lemma_replies(m, refusal(3) as u64, 0);
    lemma_replies(m, 0, 0);
    lemma_replies(m, 0, 1);
}

// The console.

/// Whether a range of memory exists.
pub open spec fn backed(m: MachineView, address: u64, bytes: int) -> bool {
    0x8000_0000 <= address && address + bytes <= 0x8000_0000 + m.devices.ram.len()
}

/// Console output is the bytes of the range, behind what was printed before, as
/// far as there is room; the reply counts them.
pub proof fn console_writes_print_the_range(m: MachineView, bytes: u64, address: u64, high: u64)
    requires
        settled(m),
        m.devices.output.len() <= m.devices.limit,
        calls(m, 0x4442_434e, 0, bytes as int, address as int, high as int),
    ensures
        ({
            let (after, result) = m.sbi_spec();
            let room = m.devices.limit - m.devices.output.len();
            let old_len = m.devices.output.len() as int;
            let printed = if bytes < room {
                bytes as int
            } else {
                room
            };
            &&& result == Ok::<Option<HaltStatus>, MachineTrap>(None)
            &&& if high != 0 || !backed(m, address, bytes as int) {
                replies(m, after, refusal(5), 0)
            } else {
                &&& after.reg(10) == 0
                &&& after.reg(11) == printed
                &&& after.devices.output.len() == old_len + printed
                &&& after.devices.output.take(old_len) == m.devices.output
                &&& forall|k: int|
                    0 <= k < printed ==> #[trigger] after.devices.output[old_len + k]
                        == m.devices.ram[address - 0x8000_0000 + k]
                &&& after.devices.ram == m.devices.ram
                &&& after.devices.input == m.devices.input
            }
        }),
{
    reveal(MachineView::sbi_spec);
    lemma_replies(m, refusal(5) as u64, 0);
    let (base, reply) = m.console_write_spec(bytes, address, high);
    lemma_replies(base, reply.0, reply.1);
    let (after, _) = m.sbi_spec();
    if high == 0 && backed(m, address, bytes as int) {
        assert(after.devices.output.take(m.devices.output.len() as int) =~= m.devices.output);
    }
}

/// Console input goes to the range in the order it came, as far as both reach;
/// the rest of the memory and of the input stays.
pub proof fn console_reads_fill_the_range(m: MachineView, bytes: u64, address: u64, high: u64)
    requires
        settled(m),
        m.devices.input.len() <= u64::MAX,
        calls(m, 0x4442_434e, 1, bytes as int, address as int, high as int),
    ensures
        ({
            let (after, result) = m.sbi_spec();
            let came = m.devices.input;
            let taken = if bytes < came.len() {
                bytes as int
            } else {
                came.len() as int
            };
            let start = address - 0x8000_0000;
            &&& result == Ok::<Option<HaltStatus>, MachineTrap>(None)
            &&& if high != 0 || !backed(m, address, bytes as int) {
                replies(m, after, refusal(5), 0)
            } else {
                &&& after.reg(10) == 0
                &&& after.reg(11) == taken
                &&& after.devices.ram.len() == m.devices.ram.len()
                &&& forall|i: int|
                    0 <= i < m.devices.ram.len() ==> #[trigger] after.devices.ram[i] == (if start
                        <= i < start + taken {
                        came[i - start]
                    } else {
                        m.devices.ram[i]
                    })
                &&& after.devices.input == came.skip(taken)
                &&& after.devices.output == m.devices.output
            }
        }),
{
    reveal(MachineView::sbi_spec);
    lemma_replies(m, refusal(5) as u64, 0);
    let (base, reply) = m.console_read_spec(bytes, address, high);
    lemma_replies(base, reply.0, reply.1);
    let (after, _) = m.sbi_spec();
    if high == 0 && backed(m, address, bytes as int) {
        let taken = if bytes < m.devices.input.len() {
            bytes as int
        } else {
            m.devices.input.len() as int
        };
        assert(after.devices.input =~= m.devices.input.skip(taken));
    }
}

/// One byte is printed behind what was printed before, as long as there is room.
pub proof fn console_bytes_are_printed(m: MachineView, byte: u8)
    requires
        settled(m),
        m.devices.output.len() < m.devices.limit,
        calls(m, 0x4442_434e, 2, byte as int, m.reg(11) as int, m.reg(12) as int),
    ensures
        ({
            let (after, result) = m.sbi_spec();
            &&& result == Ok::<Option<HaltStatus>, MachineTrap>(None)
            &&& after.reg(10) == 0
            &&& after.devices.output == m.devices.output.push(byte)
            &&& after.devices.ram == m.devices.ram
        }),
{
    reveal(MachineView::sbi_spec);
    let (devices, _) = m.devices.push_spec(byte);
    lemma_replies(m.with_devices(devices), 0, 0);
}

// Reset.

/// A reset of a known kind ends the run with both numbers in its status, and
/// passes only when both are zero.
pub proof fn resets_end_the_run(m: MachineView, kind: u64, reason: u64)
    requires
        settled(m),
        calls(m, 0x5352_5354, 0, kind as int, reason as int, m.reg(12) as int),
    ensures
        ({
            let (after, result) = m.sbi_spec();
            if kind <= 2 && reason <= 1 {
                &&& replies(m, after, 0, 0)
                &&& result matches Ok(Some(status)) && status.passed == (kind == 0 && reason == 0)
                    && status.code == kind * 0x1_0000 + reason
            } else {
                &&& replies(m, after, refusal(3), 0)
                &&& result == Ok::<Option<HaltStatus>, MachineTrap>(None)
            }
        }),
{
    reveal(MachineView::sbi_spec);
    lemma_replies(m, 0, 0);
    lemma_replies(m, refusal(3) as u64, 0);
    if kind <= 2 && reason <= 1 {
        bits::lemma_status_code(kind as u32, reason as u32);
    }
}

// What the firmware says of itself.

/// The eight extensions that a guest can probe for.
pub open spec fn offered(extension: u64) -> bool {
    extension == 0x10 || extension == 0x5449_4d45 || extension == 0x73_5049 || extension
        == 0x5246_4e43 || extension == 0x48_534d || extension == 0x4442_434e || extension
        == 0x5352_5354 || extension == 0x841_4f53
}

/// The base extension gives the version three, says of an extension whether it
/// is offered, and has no numbers for a vendor.
pub proof fn the_base_extension_answers(m: MachineView, function: u64, a0: u64)
    requires
        settled(m),
        calls(m, 0x10, function as int, a0 as int, m.reg(11) as int, m.reg(12) as int),
    ensures
        ({
            let (after, result) = m.sbi_spec();
            &&& result == Ok::<Option<HaltStatus>, MachineTrap>(None)
            &&& function == 0 ==> replies(m, after, 0, 0x300_0000)
            &&& function == 3 ==> replies(
                m,
                after,
                0,
                if offered(a0) {
                    1
                } else {
                    0
                },
            )
            &&& 4 <= function <= 6 ==> replies(m, after, 0, 0)
            &&& function > 6 ==> replies(m, after, refusal(2), 0)
        }),
{
    reveal(MachineView::sbi_spec);
    let reply = sbi::base_spec(function, a0);
    lemma_replies(m, reply.0, reply.1);
}

/// What is not offered is refused, and changes nothing.
pub proof fn unknown_calls_are_refused(m: MachineView)
    requires
        settled(m),
        !offered(m.reg(17)) || (m.reg(17) != 0x10 && m.reg(17) != 0x5246_4e43 && m.reg(16) > 2),
    ensures
        replies(m, m.sbi_spec().0, refusal(2), 0),
        m.sbi_spec().1 == Ok::<Option<HaltStatus>, MachineTrap>(None),
{
    reveal(MachineView::sbi_spec);
    lemma_replies(m, refusal(2) as u64, 0);
}

// The exchange with the host.

/// An exchange that is taken hands the host the bytes of the request, under a
/// new number, for the channel and the room that the guest named; until it is
/// answered, nothing changes for the guest.
pub proof fn exchanges_hand_the_request_over(m: MachineView)
    requires
        settled(m),
        m.active <= usize::MAX,
        m.reg(17) == 0x841_4f53,
        m.reg(16) == 0,
        m.pending is None,
        m.next_id < u64::MAX,
        0 < m.reg(14) <= u32::MAX,
        m.reg(15) == 0,
        7 <= m.reg(11) <= crate::platform::MAX_9P_MESSAGE_BYTES,
        7 <= m.reg(13) <= crate::platform::MAX_9P_MESSAGE_BYTES,
        backed(m, m.reg(10), m.reg(11) as int),
        backed(m, m.reg(12), m.reg(13) as int),
    ensures
        ({
            let (after, result) = m.sbi_spec();
            &&& result == Ok::<Option<HaltStatus>, MachineTrap>(None)
            &&& after == MachineView { next_id: after.next_id, pending: after.pending, ..m }
            &&& after.next_id == m.next_id + 1
            &&& after.pending matches Some(pending) && pending.request.id == HostRequestId(
                m.next_id,
            ) && pending.request.channel == m.reg(14) && pending.request.max_response_bytes
                == m.reg(13) && pending.response_address == m.reg(12) && pending.hart_id
                == m.active && pending.request.message.len() == m.reg(11) && forall|k: int|
                0 <= k < m.reg(11) ==> #[trigger] pending.request.message[k]
                    == m.devices.ram[m.reg(10) - 0x8000_0000 + k]
        }),
{
    reveal(MachineView::sbi_spec);
}

/// An answer that fits is put where the guest wanted it, and the hart that
/// asked gets success and the length of it.
pub proof fn answers_come_back_to_their_guest(
    m: MachineView,
    pending: PendingView,
    response: Seq<u8>,
)
    requires
        m.pending == Some(pending),
        7 <= response.len() <= pending.request.max_response_bytes,
        pending.hart_id < m.harts.len(),
        backed(m, pending.response_address, response.len() as int),
    ensures
        ({
            let (after, result) = m.completed_spec(pending.request.id, response);
            let start = pending.response_address - 0x8000_0000;
            let asked = pending.hart_id as int;
            &&& result is Ok
            &&& after.pending is None
            &&& after.active == asked
            &&& after.reg(10) == 0
            &&& after.reg(11) == response.len()
            &&& after.devices.ram.len() == m.devices.ram.len()
            &&& forall|i: int|
                0 <= i < m.devices.ram.len() ==> #[trigger] after.devices.ram[i] == (if start <= i
                    < start + response.len() {
                    response[i - start]
                } else {
                    m.devices.ram[i]
                })
            &&& forall|r: int|
                0 <= r < 32 && r != 10 && r != 11 ==> #[trigger] after.reg(r)
                    == m.harts[asked].cpu.get(r)
            &&& forall|id: int|
                0 <= id < m.harts.len() && id != asked ==> #[trigger] after.harts[id]
                    == m.harts[id]
        }),
{
}

/// A request that the host gives up is answered with a code: one for a failure,
/// another for a denial; memory stays as it was.
pub proof fn failures_come_back_as_codes(
    m: MachineView,
    pending: PendingView,
    failure: HostRequestFailure,
)
    requires
        m.pending == Some(pending),
        pending.hart_id < m.harts.len(),
    ensures
        ({
            let (after, result) = m.failed_spec(pending.request.id, failure);
            &&& result is Ok
            &&& after.pending is None
            &&& after.active == pending.hart_id
            &&& after.reg(10) == (match failure {
                HostRequestFailure::Failed => refusal(1),
                HostRequestFailure::Denied => refusal(4),
            })
            &&& after.reg(11) == 0
            &&& after.devices == m.devices
        }),
{
}

} // verus!
