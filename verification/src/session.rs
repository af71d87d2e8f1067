//! The decisions of a flashing session, apart from the USB transfers.
use vstd::prelude::*;

use crate::geometry::PAGE_SIZE;
use crate::plan::WritePlan;

verus! {

/// How many bytes of the first write the spot check reads back: one page at most.
pub open spec fn check_len(plan: WritePlan) -> int {
    let n = plan.write@[0].1@.len();
    if n < PAGE_SIZE {
        n as int
    } else {
        PAGE_SIZE as int
    }
}

/// The range the spot check reads back after writing: the address of the
/// first write and up to one page of its length. `None` when there are no
/// writes.
pub fn verify_range(plan: &WritePlan) -> (r: Option<(u32, u32)>)
    ensures
        plan.write@.len() == 0 ==> r is None,
        plan.write@.len() > 0 ==> r == Some((plan.write@[0].0, check_len(*plan) as u32)),
{
    if plan.write.len() == 0 {
        return None;
    }
    let n = plan.write[0].1.len();
    let len: u32 = if n < PAGE_SIZE as usize {
        n as u32
    } else {
        PAGE_SIZE
    };
    Some((plan.write[0].0, len))
}

/// Whether the bytes read back equal the start of the first write.
///
/// A spot check, not a full verify: it catches a device that acknowledged the
/// writes without committing them.
pub fn read_back_matches(plan: &WritePlan, read_back: &Vec<u8>) -> (ok: bool)
    requires
        plan.write@.len() > 0,
    ensures
        ok == (read_back@ == plan.write@[0].1@.take(check_len(*plan))),
{
    let data = &plan.write[0].1;
    let len: usize = if data.len() < PAGE_SIZE as usize {
        data.len()
    } else {
        PAGE_SIZE as usize
    };
    if read_back.len() != len {
        proof {
            assert(read_back@.len() != data@.take(len as int).len());
        }
        return false;
    }
    let mut i: usize = 0;
    while i < len
        invariant
            plan.write@.len() > 0,
            data@ == plan.write@[0].1@,
            len == check_len(*plan),
            len == read_back@.len(),
            len <= data@.len(),
            0 <= i <= len,
            forall|j: int| 0 <= j < i ==> read_back@[j] == data@[j],
        decreases len - i,
    {
        if read_back[i] != data[i] {
            proof {
                assert(read_back@[i as int] != data@.take(len as int)[i as int]);
            }
            return false;
        }
        i = i + 1;
    }
    proof {
        assert(read_back@ =~= data@.take(len as int));
    }
    true
}

/// One poll of the wait for the boot ROM to enumerate.
#[derive(Debug, Clone, Copy, PartialEq, Eq, Structural)]
pub enum WaitStep {
    /// A PICOBOOT device is attached.
    Found,
    /// The deadline passed with no device.
    TimedOut,
    /// Sleep one interval and poll again.
    Sleep,
}

/// Decides one poll of the wait for a PICOBOOT device: found as soon as one
/// is present, timed out once the deadline has passed, else poll again.
pub fn wait_step(present: bool, deadline_passed: bool) -> (s: WaitStep)
    ensures
        present ==> s == WaitStep::Found,
        !present && deadline_passed ==> s == WaitStep::TimedOut,
        !present && !deadline_passed ==> s == WaitStep::Sleep,
{
    if present {
        WaitStep::Found
    } else if deadline_passed {
        WaitStep::TimedOut
    } else {
        WaitStep::Sleep
    }
}

/// How `drool run` reaches BOOTSEL before flashing.
#[derive(Debug, Clone, Copy, PartialEq, Eq, Structural)]
pub enum RunStart {
    /// Reboot the running device through its reset interface, then wait for the ROM.
    RebootIntoBootsel,
    /// The device already sits in BOOTSEL.
    AlreadyInBootsel,
    /// Neither a running device with the reset interface nor a device in BOOTSEL.
    NoDevice,
}

/// Decides how `drool run` starts: a running device with the reset interface
/// is rebooted; otherwise a device already in BOOTSEL is flashed directly;
/// otherwise there is nothing to flash.
pub fn run_start(reset_interface_found: bool, bootsel_present: bool) -> (s: RunStart)
    ensures
        reset_interface_found ==> s == RunStart::RebootIntoBootsel,
        !reset_interface_found && bootsel_present ==> s == RunStart::AlreadyInBootsel,
        !reset_interface_found && !bootsel_present ==> s == RunStart::NoDevice,
{
    if reset_interface_found {
        RunStart::RebootIntoBootsel
    } else if bootsel_present {
        RunStart::AlreadyInBootsel
    } else {
        RunStart::NoDevice
    }
}

/// One PICOBOOT command of a flashing session.
#[derive(Debug, Clone, Copy, PartialEq, Eq, Structural)]
pub enum FlashStep {
    /// Claim exclusive access, ejecting the mass-storage drive.
    ClaimExclusive,
    /// Leave XIP mode, required on RP2040 before flash access.
    ExitXip,
    /// Erase `len` bytes at `addr`.
    Erase { addr: u32, len: u32 },
    /// Write the plan's write chunk number `chunk`.
    Write { chunk: usize },
    /// Read back the start of the first write and compare it.
    VerifyFirstPage,
    /// Reboot into the freshly written application.
    RebootIntoApplication,
    /// Leave the device in BOOTSEL mode.
    StayInBootsel,
}

/// The commands of a flashing session, in order: exclusive access, leave
/// XIP, every erase, every write, the read-back check, then the reboot into
/// the application (or staying in BOOTSEL).
pub open spec fn session_steps(plan: WritePlan, run_after: bool) -> Seq<FlashStep> {
    seq![FlashStep::ClaimExclusive, FlashStep::ExitXip]
        + Seq::new(plan.erase@.len(), |i: int| FlashStep::Erase { addr: plan.erase@[i].0, len: plan.erase@[i].1 })
        + Seq::new(plan.write@.len(), |i: int| FlashStep::Write { chunk: i as usize })
        + seq![
        FlashStep::VerifyFirstPage,
        if run_after {
            FlashStep::RebootIntoApplication
        } else {
            FlashStep::StayInBootsel
        },
    ]
}

/// Lists the commands of a flashing session for `plan` (see `session_steps`).
pub fn flash_steps(plan: &WritePlan, run_after: bool) -> (steps: Vec<FlashStep>)
    ensures
        steps@ == session_steps(*plan, run_after),
        steps@.len() == plan.erase@.len() + plan.write@.len() + 4,
        forall|k: int| #![trigger steps@[2 + k]] 0 <= k < plan.erase@.len() ==> steps@[2 + k] == (FlashStep::Erase { addr: plan.erase@[k].0, len: plan.erase@[k].1 }),
        forall|k: int| #![trigger steps@[2 + plan.erase@.len() + k]] 0 <= k < plan.write@.len() ==> steps@[2 + plan.erase@.len() + k] == (FlashStep::Write { chunk: k as usize }),
{
    let mut steps: Vec<FlashStep> = Vec::new();
    steps.push(FlashStep::ClaimExclusive);
    steps.push(FlashStep::ExitXip);
    let ghost head = steps@;
    let mut i: usize = 0;
    while i < plan.erase.len()
        invariant
            0 <= i <= plan.erase@.len(),
            steps@ == head + Seq::new(i as nat, |k: int| FlashStep::Erase { addr: plan.erase@[k].0, len: plan.erase@[k].1 }),
        decreases plan.erase@.len() - i,
    {
        let (addr, len) = plan.erase[i];
        steps.push(FlashStep::Erase { addr, len });
        proof {
            assert(steps@ =~= head + Seq::new((i + 1) as nat, |k: int| FlashStep::Erase { addr: plan.erase@[k].0, len: plan.erase@[k].1 }));
        }
        i = i + 1;
    }
    let ghost erased = steps@;
    let mut j: usize = 0;
    while j < plan.write.len()
        invariant
            0 <= j <= plan.write@.len(),
            steps@ == erased + Seq::new(j as nat, |k: int| FlashStep::Write { chunk: k as usize }),
        decreases plan.write@.len() - j,
    {
        steps.push(FlashStep::Write { chunk: j });
        proof {
            assert(steps@ =~= erased + Seq::new((j + 1) as nat, |k: int| FlashStep::Write { chunk: k as usize }));
        }
        j = j + 1;
    }
    steps.push(FlashStep::VerifyFirstPage);
    if run_after {
        steps.push(FlashStep::RebootIntoApplication);
    } else {
        steps.push(FlashStep::StayInBootsel);
    }
    proof {
        assert(steps@ =~= session_steps(*plan, run_after));
        lemma_session_covers_plan(*plan, run_after);
    }
    steps
}

/// A session claims the device and leaves XIP first, then erases every
/// range of the plan in order, then writes every chunk of the plan once, in
/// order (one write per chunk, however many erase ranges there are), then
/// checks the first page, and ends by rebooting into the application or
/// staying in BOOTSEL as asked.
pub proof fn lemma_session_covers_plan(plan: WritePlan, run_after: bool)
    requires
        plan.write@.len() <= usize::MAX,
    ensures
        ({
            let s = session_steps(plan, run_after);
            let ne = plan.erase@.len() as int;
            let nw = plan.write@.len() as int;
            &&& s.len() == ne + nw + 4
            &&& s[0] == FlashStep::ClaimExclusive
            &&& s[1] == FlashStep::ExitXip
            &&& forall|k: int| #![trigger s[2 + k]] 0 <= k < ne ==> s[2 + k] == (FlashStep::Erase { addr: plan.erase@[k].0, len: plan.erase@[k].1 })
            &&& forall|k: int| #![trigger s[2 + ne + k]] 0 <= k < nw ==> s[2 + ne + k] == (FlashStep::Write { chunk: k as usize })
            &&& forall|j: int, c: usize| 0 <= j < s.len() && s[j] == (FlashStep::Write { chunk: c }) ==> c < nw && j == 2 + ne + c
            &&& s[2 + ne + nw] == FlashStep::VerifyFirstPage
            &&& s[3 + ne + nw] == (if run_after { FlashStep::RebootIntoApplication } else { FlashStep::StayInBootsel })
        }),
{
    let s = session_steps(plan, run_after);
    let ne = plan.erase@.len() as int;
    let nw = plan.write@.len() as int;
    assert forall|j: int, c: usize| 0 <= j < s.len() && s[j] == (FlashStep::Write { chunk: c }) implies c < nw && j == 2 + ne + c by {
        if j >= 2 + ne && j < 2 + ne + nw {
            assert(s[j] == (FlashStep::Write { chunk: (j - 2 - ne) as usize }));
        }
    }
}

} // verus!
