//! Actions on processes: what they are, how they are turned into calls of the
//! operating system, and the interface that the policy engine drives.

use vstd::prelude::*;

use crate::config::PriorityClass;
use crate::network::{backup_view, BackupEntry, EntryView};
pub use crate::qos::OsBackend;
use crate::text::{copy_text, decimal, decimal_text, hex, hex8, join2};

verus! {

/// An action that can be applied to a process.
#[derive(Debug, Clone, Copy, PartialEq, Eq, Structural)]
pub enum TargetAction {
    Priority(PriorityClass),
    Affinity { core_mask: u64 },
    Suspend,
    Resume,
    TrimMemory,
    QosCpuQuota { percent: u32 },
}

/// The tunable state of a process, kept for a later restore.
#[derive(Debug, Clone, Copy)]
pub struct ProcState {
    pub priority: u32,
    pub affinity: u64,
    pub suspended: bool,
    pub qos_percent: Option<u32>,
}

impl Default for ProcState {
    fn default() -> (r: Self)
        ensures
            r == (ProcState { priority: 0, affinity: 0, suspended: false, qos_percent: None }),
    {
        ProcState { priority: 0, affinity: 0, suspended: false, qos_percent: None }
    }
}

/// Why an action failed.
#[derive(Debug)]
pub enum ActionError {
    /// The process could not be opened; the number is the system's error code.
    Open(u32),
    /// A call of the system failed; the text says which and why.
    Api(String),
}

impl ActionError {
    /// The message for a reader.
    pub open spec fn message_spec(self) -> Seq<char> {
        match self {
            ActionError::Open(code) => "open process failed: code "@ + decimal(code as nat),
            ActionError::Api(m) => "api: "@ + m@,
        }
    }

    pub fn message(&self) -> (r: String)
        ensures
            r@ == self.message_spec(),
    {
        match self {
            ActionError::Open(code) => join2(
                "open process failed: code ",
                decimal_text(*code as u64).as_str(),
            ),
            ActionError::Api(m) => join2("api: ", m.as_str()),
        }
    }
}

// ---------------------------------------------------------------------------
// Priorities
// ---------------------------------------------------------------------------
pub const IDLE_PRIORITY_CLASS: u32 = 0x40;

pub const BELOW_NORMAL_PRIORITY_CLASS: u32 = 0x4000;

pub const NORMAL_PRIORITY_CLASS: u32 = 0x20;

pub const ABOVE_NORMAL_PRIORITY_CLASS: u32 = 0x8000;

pub const HIGH_PRIORITY_CLASS: u32 = 0x80;

pub const REALTIME_PRIORITY_CLASS: u32 = 0x100;

/// Windows' number for a priority class.
pub open spec fn priority_flag(p: PriorityClass) -> u32 {
    match p {
        PriorityClass::Idle => IDLE_PRIORITY_CLASS,
        PriorityClass::BelowNormal => BELOW_NORMAL_PRIORITY_CLASS,
        PriorityClass::Normal => NORMAL_PRIORITY_CLASS,
        PriorityClass::AboveNormal => ABOVE_NORMAL_PRIORITY_CLASS,
        PriorityClass::High => HIGH_PRIORITY_CLASS,
        PriorityClass::Realtime => REALTIME_PRIORITY_CLASS,
    }
}

/// The priority class of a number; `Normal` for a number that is none.
pub open spec fn priority_of_flag(flag: u32) -> PriorityClass {
    if flag == IDLE_PRIORITY_CLASS {
        PriorityClass::Idle
    } else if flag == BELOW_NORMAL_PRIORITY_CLASS {
        PriorityClass::BelowNormal
    } else if flag == ABOVE_NORMAL_PRIORITY_CLASS {
        PriorityClass::AboveNormal
    } else if flag == HIGH_PRIORITY_CLASS {
        PriorityClass::High
    } else if flag == REALTIME_PRIORITY_CLASS {
        PriorityClass::Realtime
    } else {
        PriorityClass::Normal
    }
}

pub fn to_windows_priority(p: PriorityClass) -> (r: u32)
    ensures
        r == priority_flag(p),
{
    match p {
        PriorityClass::Idle => IDLE_PRIORITY_CLASS,
        PriorityClass::BelowNormal => BELOW_NORMAL_PRIORITY_CLASS,
        PriorityClass::Normal => NORMAL_PRIORITY_CLASS,
        PriorityClass::AboveNormal => ABOVE_NORMAL_PRIORITY_CLASS,
        PriorityClass::High => HIGH_PRIORITY_CLASS,
        PriorityClass::Realtime => REALTIME_PRIORITY_CLASS,
    }
}

pub fn state_priority_to_class(state: &ProcState) -> (r: PriorityClass)
    ensures
        r == priority_of_flag(state.priority),
{
    if state.priority == IDLE_PRIORITY_CLASS {
        PriorityClass::Idle
    } else if state.priority == BELOW_NORMAL_PRIORITY_CLASS {
        PriorityClass::BelowNormal
    } else if state.priority == ABOVE_NORMAL_PRIORITY_CLASS {
        PriorityClass::AboveNormal
    } else if state.priority == HIGH_PRIORITY_CLASS {
        PriorityClass::High
    } else if state.priority == REALTIME_PRIORITY_CLASS {
        PriorityClass::Realtime
    } else {
        PriorityClass::Normal
    }
}

/// A priority class is found again from its number.
pub proof fn priority_round_trip(p: PriorityClass)
    ensures
        priority_of_flag(priority_flag(p)) == p,
{
}

// ---------------------------------------------------------------------------
// Affinity
// ---------------------------------------------------------------------------
/// Bit `i` of a mask is set.
pub open spec fn has_bit(mask: u64, i: u8) -> bool {
    (mask >> i) & 1 == 1
}

/// The mask with one bit per listed core.
pub open spec fn mask_of(cores: Seq<u8>) -> u64
    decreases cores.len(),
{
    if cores.len() == 0 {
        0
    } else {
        mask_of(cores.drop_last()) | (1u64 << cores.last())
    }
}

/// Every core has a bit in a 64-bit mask.
pub open spec fn all_below_64(cores: Seq<u8>) -> bool {
    forall|i: int| 0 <= i < cores.len() ==> #[trigger] cores[i] < 64
}

/// Builds a core mask from zero-based core indices.
pub fn mask_from_cores(cores: &[u8]) -> (r: u64)
    requires
        all_below_64(cores@),
    ensures
        r == mask_of(cores@),
{
    let mut mask: u64 = 0;
    let mut i: usize = 0;
    assert(cores@.take(0) =~= Seq::<u8>::empty());
    while i < cores.len()
        invariant
            i <= cores@.len(),
            all_below_64(cores@),
            mask == mask_of(cores@.take(i as int)),
        decreases cores@.len() - i,
    {
        let c: u8 = cores[i];
        assert(cores@.take(i + 1).drop_last() =~= cores@.take(i as int));
        mask = mask | (1u64 << c);
        i = i + 1;
    }
    assert(cores@.take(i as int) =~= cores@);
    mask
}

/// A bit of the mask is set exactly when its core is listed.
pub proof fn mask_has_listed_cores(cores: Seq<u8>, c: u8)
    requires
        c < 64,
        forall|i: int| 0 <= i < cores.len() ==> #[trigger] cores[i] < 64,
    ensures
        has_bit(mask_of(cores), c) <==> cores.contains(c),
    decreases cores.len(),
{
    if cores.len() == 0 {
        assert((0u64 >> c) & 1 == 0) by (bit_vector);
    } else {
        let head = cores.drop_last();
        let last = cores.last();
        let m = mask_of(head);
        mask_has_listed_cores(head, c);
        assert(((m | (1u64 << last)) >> c) & 1 == 1 <==> ((m >> c) & 1 == 1 || last == c))
            by (bit_vector)
            requires
                c < 64,
                last < 64,
        ;
        if head.contains(c) {
            let i = choose|i: int| 0 <= i < head.len() && head[i] == c;
            assert(cores[i] == c);
        }
        if cores.contains(c) && c != last {
            let i = choose|i: int| 0 <= i < cores.len() && cores[i] == c;
            assert(head[i] == c);
        }
        if c == last {
            assert(cores[cores.len() - 1] == c);
        }
    }
}

/// The cores `0..n` whose bit is set in the mask, in ascending order.
pub open spec fn cores_below(mask: u64, n: nat) -> Seq<u8>
    decreases n,
{
    if n == 0 {
        Seq::empty()
    } else if has_bit(mask, (n - 1) as u8) {
        cores_below(mask, (n - 1) as nat).push((n - 1) as u8)
    } else {
        cores_below(mask, (n - 1) as nat)
    }
}

/// The cores of a mask.
pub open spec fn cores_in(mask: u64) -> Seq<u8> {
    cores_below(mask, 64)
}

/// The zero-based indices of the cores in a mask, in ascending order.
pub fn cores_from_mask(mask: u64) -> (r: Vec<u8>)
    ensures
        r@ == cores_in(mask),
{
    let mut r: Vec<u8> = Vec::new();
    let mut i: u8 = 0;
    while i < 64
        invariant
            i <= 64,
            r@ == cores_below(mask, i as nat),
        decreases 64 - i,
    {
        if (mask >> i) & 1 == 1 {
            r.push(i);
        }
        i = i + 1;
    }
    r
}

proof fn cores_below_means(mask: u64, n: nat)
    requires
        n <= 64,
    ensures
        cores_below(mask, n).len() <= n,
        forall|i: int|
            0 <= i < cores_below(mask, n).len() ==> (#[trigger] cores_below(mask, n)[i]) < n,
        forall|c: u8|
            #![trigger has_bit(mask, c)]
            c < n ==> (cores_below(mask, n).contains(c) <==> has_bit(mask, c)),
    decreases n,
{
    if n > 0 {
        let m = (n - 1) as nat;
        cores_below_means(mask, m);
        let low = cores_below(mask, m);
        let all = cores_below(mask, n);
        assert forall|c: u8| c < n implies (all.contains(c) <==> #[trigger] has_bit(mask, c)) by {
            if c == m {
                if has_bit(mask, c) {
                    assert(all[low.len() as int] == c);
                } else if all.contains(c) {
                    let i = choose|i: int| 0 <= i < all.len() && all[i] == c;
                    assert(low[i] == c);
                }
            } else {
                if low.contains(c) {
                    let i = choose|i: int| 0 <= i < low.len() && low[i] == c;
                    assert(all[i] == c);
                }
                if all.contains(c) {
                    let i = choose|i: int| 0 <= i < all.len() && all[i] == c;
                    assert(low[i] == c);
                }
            }
        }
    }
}

/// Masks with the same bits are the same mask.
pub proof fn same_bits_same_mask(a: u64, b: u64)
    requires
        forall|c: u8| c < 64 ==> has_bit(a, c) == #[trigger] has_bit(b, c),
    ensures
        a == b,
{
    assert(forall|c: u8| c < 64 ==> ((a ^ b) >> c) & 1 == 0) by {
        assert forall|c: u8| c < 64 implies ((a ^ b) >> c) & 1 == 0 by {
            assert(has_bit(a, c) == has_bit(b, c));
            assert(((a ^ b) >> c) & 1 == 0) by (bit_vector)
                requires
                    c < 64,
                    ((a >> c) & 1 == 1) == ((b >> c) & 1 == 1),
            ;
        }
    }
    zero_above(a ^ b, 0);
    assert((a ^ b) >> 0u8 == a ^ b) by (bit_vector);
    assert(a ^ b == 0 ==> a == b) by (bit_vector);
}

proof fn zero_above(x: u64, k: u8)
    requires
        k < 64,
        forall|c: u8| c < 64 ==> #[trigger] (x >> c) & 1 == 0,
    ensures
        x >> k == 0,
    decreases 64 - k,
{
    if k == 63 {
        assert((x >> 63u8) & 1 == 0);
        assert((x >> 63u8) & 1 == 0 ==> x >> 63u8 == 0) by (bit_vector);
    } else {
        let next = (k + 1) as u8;
        zero_above(x, next);
        assert((x >> k) & 1 == 0);
        assert(x >> k == 0) by (bit_vector)
            requires
                k < 63,
                next == k + 1,
                x >> next == 0,
                (x >> k) & 1 == 0,
        ;
    }
}

/// A mask is found again from its cores.
pub proof fn mask_round_trip(mask: u64)
    ensures
        forall|i: int| 0 <= i < cores_in(mask).len() ==> #[trigger] cores_in(mask)[i] < 64,
        cores_in(mask).len() <= 64,
        mask_of(cores_in(mask)) == mask,
{
    cores_below_means(mask, 64);
    assert forall|c: u8| c < 64 implies has_bit(mask_of(cores_in(mask)), c) == #[trigger] has_bit(
        mask,
        c,
    ) by {
        mask_has_listed_cores(cores_in(mask), c);
    }
    same_bits_same_mask(mask_of(cores_in(mask)), mask);
}

/// One entry of a group-aware affinity: a mask within a processor group.
#[derive(Debug, Clone, Copy, PartialEq, Eq, Structural)]
pub struct GroupAffinity {
    pub mask: u64,
    pub group: u16,
}

/// The entries for a list of cores, one per core, all in group 0; nothing for a
/// list that is empty, has more than 64 entries or names a core past 63.
pub open spec fn cpu_set_entries(cores: Seq<u8>) -> Option<Seq<GroupAffinity>> {
    if cores.len() == 0 || cores.len() > 64 || exists|i: int|
        0 <= i < cores.len() && #[trigger] cores[i] >= 64 {
        None
    } else {
        Some(cores.map_values(|c: u8| GroupAffinity { mask: 1u64 << c, group: 0 }))
    }
}

pub fn build_cpu_set_mask(cores: &[u8]) -> (r: Option<Vec<GroupAffinity>>)
    ensures
        r is Some <==> cpu_set_entries(cores@) is Some,
        r is Some ==> r->0@ == cpu_set_entries(cores@)->0,
{
    if cores.len() == 0 || cores.len() > 64 {
        return None;
    }
    let mut entries: Vec<GroupAffinity> = Vec::new();
    let mut i: usize = 0;
    while i < cores.len()
        invariant
            i <= cores@.len(),
            0 < cores@.len() <= 64,
            forall|k: int| 0 <= k < i ==> #[trigger] cores@[k] < 64,
            entries@ == cores@.take(i as int).map_values(
                |c: u8| GroupAffinity { mask: 1u64 << c, group: 0 },
            ),
        decreases cores@.len() - i,
    {
        let c: u8 = cores[i];
        if c >= 64 {
            assert(cores@[i as int] >= 64);
            return None;
        }
        entries.push(GroupAffinity { mask: 1u64 << c, group: 0 });
        i = i + 1;
        assert(entries@ =~= cores@.take(i as int).map_values(
            |c: u8| GroupAffinity { mask: 1u64 << c, group: 0 },
        ));
    }
    assert(cores@.take(i as int) =~= cores@);
    Some(entries)
}

// ---------------------------------------------------------------------------
// Calls of the operating system
// ---------------------------------------------------------------------------
/// What has to be done to an opened process for an action.
#[derive(Debug)]
pub enum OsStep {
    /// Set the priority class to this number.
    SetPriority(u32),
    /// Set the affinity to this mask.
    SetAffinityMask(u64),
    /// Set the default CPU sets; a failure is reported and skipped.
    SetCpuSets(Vec<GroupAffinity>),
    /// Empty the working set.
    TrimWorkingSet,
    Suspend,
    Resume,
    /// Cap the processor time, see [`OsBackend`].
    Qos(u32),
}

/// A step as a value.
pub enum OsStepView {
    SetPriority(u32),
    SetAffinityMask(u64),
    SetCpuSets(Seq<GroupAffinity>),
    TrimWorkingSet,
    Suspend,
    Resume,
    Qos(u32),
}

impl View for OsStep {
    type V = OsStepView;

    open spec fn view(&self) -> OsStepView {
        match *self {
            OsStep::SetPriority(p) => OsStepView::SetPriority(p),
            OsStep::SetAffinityMask(m) => OsStepView::SetAffinityMask(m),
            OsStep::SetCpuSets(v) => OsStepView::SetCpuSets(v@),
            OsStep::TrimWorkingSet => OsStepView::TrimWorkingSet,
            OsStep::Suspend => OsStepView::Suspend,
            OsStep::Resume => OsStepView::Resume,
            OsStep::Qos(p) => OsStepView::Qos(p),
        }
    }
}

/// The step for an action on a host with `cpus` logical processors. An empty
/// mask has none. A 64-bit mask spans one processor group only, so a host with
/// more than 64 processors takes one entry per core.
pub open spec fn step_for(action: TargetAction, cpus: u32) -> Option<OsStepView> {
    match action {
        TargetAction::Priority(p) => Some(OsStepView::SetPriority(priority_flag(p))),
        TargetAction::Affinity { core_mask } => if core_mask == 0 {
            None
        } else if cpus > 64 {
            Some(OsStepView::SetCpuSets(cpu_set_entries(cores_in(core_mask))->0))
        } else {
            Some(OsStepView::SetAffinityMask(core_mask))
        },
        TargetAction::TrimMemory => Some(OsStepView::TrimWorkingSet),
        TargetAction::Suspend => Some(OsStepView::Suspend),
        TargetAction::Resume => Some(OsStepView::Resume),
        TargetAction::QosCpuQuota { percent } => Some(OsStepView::Qos(percent)),
    }
}

/// A mask that is not empty has entries.
pub proof fn mask_has_entries(mask: u64)
    requires
        mask != 0,
    ensures
        cpu_set_entries(cores_in(mask)) is Some,
{
    mask_round_trip(mask);
    if cores_in(mask).len() == 0 {
        assert(mask_of(cores_in(mask)) == 0);
    }
}

/// An affinity becomes its mask where one processor group is all there is. On a larger
/// host it becomes one entry in group 0 for each core of the mask and for no other, each
/// once. An empty mask has no step on either.
#[verifier::rlimit(40)]
pub proof fn affinity_step_covers_the_mask(mask: u64, cpus: u32)
    ensures
        mask == 0 ==> step_for(TargetAction::Affinity { core_mask: mask }, cpus) is None,
        mask != 0 && cpus <= 64 ==> step_for(TargetAction::Affinity { core_mask: mask }, cpus)
            == Some(OsStepView::SetAffinityMask(mask)),
        mask != 0 && cpus > 64 ==> {
            let step = step_for(TargetAction::Affinity { core_mask: mask }, cpus);
            &&& step is Some && step->0 is SetCpuSets
            &&& forall|c: u8|
                c < 64 ==> ((mask >> c) & 1 == 1 <==> #[trigger] step->0->SetCpuSets_0.contains(
                    GroupAffinity { mask: 1u64 << c, group: 0 },
                ))
            &&& forall|i: int|
                0 <= i < step->0->SetCpuSets_0.len() ==> exists|c: u8|
                    c < 64 && #[trigger] step->0->SetCpuSets_0[i] == (GroupAffinity {
                        mask: 1u64 << c,
                        group: 0,
                    })
            &&& step->0->SetCpuSets_0.no_duplicates()
        },
{
    if mask != 0 && cpus > 64 {
        mask_has_entries(mask);
        mask_round_trip(mask);
        cores_below_means(mask, 64);
        cores_ascend(mask, 64);
        let cores = cores_in(mask);
        let entries = cpu_set_entries(cores)->0;
        assert forall|c: u8| c < 64 implies ((mask >> c) & 1 == 1 <==> #[trigger] entries.contains(
            GroupAffinity { mask: 1u64 << c, group: 0 },
        )) by {
            let e = GroupAffinity { mask: 1u64 << c, group: 0 };
            assert(cores.contains(c) <==> has_bit(mask, c));
            if cores.contains(c) {
                let i = choose|i: int| 0 <= i < cores.len() && cores[i] == c;
                assert(entries[i] == e);
            }
            if entries.contains(e) {
                let i = choose|i: int| 0 <= i < entries.len() && entries[i] == e;
                let d = cores[i];
                assert(d < 64);
                one_bit_each(c, d);
                assert(cores[i] == c);
            }
        }
        assert forall|i: int| 0 <= i < entries.len() implies exists|c: u8|
            c < 64 && #[trigger] entries[i] == (GroupAffinity { mask: 1u64 << c, group: 0 }) by {
            assert(cores[i] < 64);
        }
        assert forall|i: int, j: int|
            0 <= i < entries.len() && 0 <= j < entries.len() && i != j implies entries[i]
            != entries[j] by {
            one_bit_each(cores[i], cores[j]);
            if i < j {
                assert(cores[i] < cores[j]);
            } else {
                assert(cores[j] < cores[i]);
            }
        }
    }
}

proof fn one_bit_each(a: u8, b: u8)
    requires
        a < 64,
        b < 64,
    ensures
        1u64 << a == 1u64 << b <==> a == b,
{
    assert(1u64 << a == 1u64 << b <==> a == b) by (bit_vector)
        requires
            a < 64,
            b < 64,
    ;
}

proof fn cores_ascend(mask: u64, n: nat)
    requires
        n <= 64,
    ensures
        forall|i: int, j: int|
            0 <= i < j < cores_below(mask, n).len() ==> #[trigger] cores_below(mask, n)[i]
                < #[trigger] cores_below(mask, n)[j],
        forall|i: int|
            0 <= i < cores_below(mask, n).len() ==> (#[trigger] cores_below(mask, n)[i]) < n,
    decreases n,
{
    if n > 0 {
        let m = (n - 1) as nat;
        cores_ascend(mask, m);
        let low = cores_below(mask, m);
        let all = cores_below(mask, n);
        assert forall|i: int| 0 <= i < all.len() implies (#[trigger] all[i]) < n && (i < low.len()
            ==> all[i] == low[i] && all[i] < m) by {
            if i < low.len() {
                assert(low[i] < m);
            }
        }
    }
}

/// Each other action becomes the step of its own kind: a priority the number that Windows
/// gives its class, a quota its percentage.
pub proof fn steps_do_what_actions_say(p: PriorityClass, percent: u32, cpus: u32)
    ensures
        step_for(TargetAction::Priority(p), cpus) == Some(
            OsStepView::SetPriority(
                match p {
                    PriorityClass::Idle => 0x40u32,
                    PriorityClass::BelowNormal => 0x4000,
                    PriorityClass::Normal => 0x20,
                    PriorityClass::AboveNormal => 0x8000,
                    PriorityClass::High => 0x80,
                    PriorityClass::Realtime => 0x100,
                },
            ),
        ),
        step_for(TargetAction::QosCpuQuota { percent }, cpus) == Some(OsStepView::Qos(percent)),
        step_for(TargetAction::Suspend, cpus) == Some(OsStepView::Suspend),
        step_for(TargetAction::Resume, cpus) == Some(OsStepView::Resume),
        step_for(TargetAction::TrimMemory, cpus) == Some(OsStepView::TrimWorkingSet),
{
}

/// The step for an action, or the error for an empty mask.
pub fn plan_step(action: &TargetAction, cpus: u32) -> (r: Result<OsStep, ActionError>)
    ensures
        r is Ok <==> step_for(*action, cpus) is Some,
        r is Ok ==> r->Ok_0@ == step_for(*action, cpus)->0,
        r is Err ==> r->Err_0 is Api && r->Err_0->Api_0@ == "affinity mask is zero"@,
{
    match *action {
        TargetAction::Priority(p) => Ok(OsStep::SetPriority(to_windows_priority(p))),
        TargetAction::Affinity { core_mask } => {
            if core_mask == 0 {
                return Err(ActionError::Api(copy_text("affinity mask is zero")));
            }
            if cpus > 64 {
                let cores = cores_from_mask(core_mask);
                proof {
                    mask_has_entries(core_mask);
                }
                match build_cpu_set_mask(cores.as_slice()) {
                    Some(entries) => Ok(OsStep::SetCpuSets(entries)),
                    None => vstd::pervasive::unreached(),
                }
            } else {
                Ok(OsStep::SetAffinityMask(core_mask))
            }
        },
        TargetAction::TrimMemory => Ok(OsStep::TrimWorkingSet),
        TargetAction::Suspend => Ok(OsStep::Suspend),
        TargetAction::Resume => Ok(OsStep::Resume),
        TargetAction::QosCpuQuota { percent } => Ok(OsStep::Qos(percent)),
    }
}

/// The outcome of a native call: a negative status is a failure, and the error
/// names the call and the status in hexadecimal.
pub fn nt_result(call: &str, status: i32) -> (r: Result<(), ActionError>)
    ensures
        r is Ok <==> status >= 0,
        r is Err ==> r->Err_0 is Api && r->Err_0->Api_0@ == call@ + ": 0x"@ + hex(
            status as u32 as nat,
            8,
        ),
{
    if status < 0 {
        let mut m = join2(call, ": 0x");
        m.append(hex8(status as u32).as_str());
        Err(ActionError::Api(m))
    } else {
        Ok(())
    }
}

// ---------------------------------------------------------------------------
// The backend interface
// ---------------------------------------------------------------------------
/// A call that a backend was asked to perform, with what it answered.
pub enum BackendCall {
    Snapshot { pid: u32, reply: Option<ProcState> },
    Apply { pid: u32, action: TargetAction, done: bool },
    Restore { pid: u32, state: ProcState, done: bool },
    ProcessExit { pid: u32 },
    ClearAllQos,
    ApplyNetwork { nagle: bool, netbios: bool, made: Option<Seq<EntryView>> },
    RevertNetwork { backup: Seq<EntryView>, worked: Seq<bool> },
    PurgeStandby { done: bool },
    ReadMarker { path: Seq<char>, file: Option<Seq<u8>> },
    WriteMarker { path: Seq<char>, bytes: Seq<u8>, done: bool },
    RemoveMarker { path: Seq<char> },
}

/// The answer to a snapshot, without the reason of a failure.
pub open spec fn reply_of(r: Result<ProcState, ActionError>) -> Option<ProcState> {
    match r {
        Ok(s) => Some(s),
        Err(_) => None,
    }
}

/// The backup that came of making the network tweaks, without the reason of a
/// failure.
pub open spec fn backup_reply(r: Result<Vec<BackupEntry>, String>) -> Option<Seq<EntryView>> {
    match r {
        Ok(b) => Some(backup_view(b@)),
        Err(_) => None,
    }
}

/// The bytes that were read, if any were.
pub open spec fn bytes_reply(r: Option<Vec<u8>>) -> Option<Seq<u8>> {
    match r {
        Some(b) => Some(b@),
        None => None,
    }
}

/// `after` begins with `before`: nothing that happened is taken back.
pub open spec fn extends(before: Seq<BackendCall>, after: Seq<BackendCall>) -> bool {
    before.len() <= after.len() && after.take(before.len() as int) == before
}

/// The calls that were added from `before` to `after`.
pub open spec fn added(before: Seq<BackendCall>, after: Seq<BackendCall>) -> Seq<BackendCall> {
    after.skip(before.len() as int)
}

/// Adding calls at the end is what [`extends`] and [`added`] tell of.
pub proof fn calls_added(
    before: Seq<BackendCall>,
    new: Seq<BackendCall>,
    after: Seq<BackendCall>,
)
    requires
        after == before + new,
    ensures
        extends(before, after),
        added(before, after) == new,
{
    assert(after.take(before.len() as int) =~= before);
    assert(after.skip(before.len() as int) =~= new);
}

/// What the policy engine needs of a system to act on its processes.
pub trait ProcessBackend {
    /// The calls so far, oldest first. An implementation that is to be verified
    /// says how it keeps them: with the default, of which nothing is known, the
    /// contracts below cannot be shown to hold.
    closed spec fn calls(&self) -> Seq<BackendCall> {
        arbitrary()
    }

    /// Reads the state of a process.
    fn snapshot(&mut self, pid: u32) -> (r: Result<ProcState, ActionError>)
        ensures
            final(self).calls() == old(self).calls().push(
                BackendCall::Snapshot { pid, reply: reply_of(r) },
            ),
    ;

    /// Applies an action to a process.
    fn apply(&mut self, pid: u32, action: &TargetAction) -> (r: Result<(), ActionError>)
        ensures
            final(self).calls() == old(self).calls().push(
                BackendCall::Apply { pid, action: *action, done: r is Ok },
            ),
    ;

    /// Takes a process back to a state.
    fn restore(&mut self, pid: u32, state: &ProcState) -> (r: Result<(), ActionError>)
        ensures
            final(self).calls() == old(self).calls().push(
                BackendCall::Restore { pid, state: *state, done: r is Ok },
            ),
    ;
}

/// What a backend does beyond single actions on processes: it keeps the processor
/// caps, and tweaks the system as a whole while a boost lasts.
pub trait QosLifecycle: ProcessBackend {
    /// A process is gone: what is held for it can be released.
    fn on_process_exit(&mut self, pid: u32)
        ensures
            final(self).calls() == old(self).calls().push(BackendCall::ProcessExit { pid }),
    ;

    /// Lifts every cap and releases everything that is held.
    fn clear_all_qos(&mut self)
        ensures
            final(self).calls() == old(self).calls().push(BackendCall::ClearAllQos),
    ;

    /// Makes the network tweaks; gives the backup of what they replaced.
    fn apply_network(&mut self, nagle: bool, netbios: bool) -> (r: Result<Vec<BackupEntry>, String>)
        ensures
            final(self).calls() == old(self).calls().push(
                BackendCall::ApplyNetwork { nagle, netbios, made: backup_reply(r) },
            ),
    ;

    /// Puts a backup back; tells of each entry whether that worked.
    fn revert_network(&mut self, backup: &Vec<BackupEntry>) -> (r: Vec<bool>)
        ensures
            final(self).calls() == old(self).calls().push(
                BackendCall::RevertNetwork { backup: backup_view(backup@), worked: r@ },
            ),
    ;

    /// Empties the standby memory list.
    fn purge_standby(&mut self) -> (r: Result<(), ActionError>)
        ensures
            final(self).calls() == old(self).calls().push(
                BackendCall::PurgeStandby { done: r is Ok },
            ),
    ;

    /// Reads the marker file; nothing where there is none.
    fn read_marker(&mut self, path: &str) -> (r: Option<Vec<u8>>)
        ensures
            final(self).calls() == old(self).calls().push(
                BackendCall::ReadMarker { path: path@, file: bytes_reply(r) },
            ),
    ;

    /// Writes the marker file.
    fn write_marker(&mut self, path: &str, bytes: &Vec<u8>) -> (r: Result<(), String>)
        ensures
            final(self).calls() == old(self).calls().push(
                BackendCall::WriteMarker { path: path@, bytes: bytes@, done: r is Ok },
            ),
    ;

    /// Deletes the marker file, if there is one.
    fn remove_marker(&mut self, path: &str)
        ensures
            final(self).calls() == old(self).calls().push(
                BackendCall::RemoveMarker { path: path@ },
            ),
    ;
}

/// The actions that take a process back to a state, in order: it is resumed
/// first, then its cap is lifted, then priority and affinity are set.
pub open spec fn restore_actions(state: ProcState) -> Seq<TargetAction> {
    let resume = if state.suspended {
        seq![TargetAction::Resume]
    } else {
        Seq::empty()
    };
    let uncap = if state.qos_percent is Some {
        seq![TargetAction::QosCpuQuota { percent: 0 }]
    } else {
        Seq::empty()
    };
    resume + uncap + seq![
        TargetAction::Priority(priority_of_flag(state.priority)),
        TargetAction::Affinity { core_mask: state.affinity },
    ]
}

/// The actions of [`restore_actions`].
pub fn restore_plan(state: &ProcState) -> (r: Vec<TargetAction>)
    ensures
        r@ == restore_actions(*state),
{
    let mut r: Vec<TargetAction> = Vec::new();
    if state.suspended {
        r.push(TargetAction::Resume);
    }
    if state.qos_percent.is_some() {
        r.push(TargetAction::QosCpuQuota { percent: 0 });
    }
    r.push(TargetAction::Priority(state_priority_to_class(state)));
    r.push(TargetAction::Affinity { core_mask: state.affinity });
    assert(r@ =~= restore_actions(*state));
    r
}

/// The calls of applying `actions` one after the other, all with success.
pub open spec fn applied(pid: u32, actions: Seq<TargetAction>) -> Seq<BackendCall> {
    actions.map_values(|a: TargetAction| BackendCall::Apply { pid, action: a, done: true })
}

/// `calls` applies a beginning of `actions`: all of them with success, or up to
/// and with the first that fails.
pub open spec fn applied_until_failure(
    pid: u32,
    actions: Seq<TargetAction>,
    calls: Seq<BackendCall>,
    ok: bool,
) -> bool {
    if ok {
        calls == applied(pid, actions)
    } else {
        exists|n: int|
            0 <= n < actions.len() && calls == #[trigger] applied(pid, actions.take(n)).push(
                BackendCall::Apply { pid, action: actions[n], done: false },
            )
    }
}

/// Takes a process back to a state by applying actions, up to the first failure.
pub fn restore_by_applying<B: ProcessBackend>(backend: &mut B, pid: u32, state: &ProcState) -> (r:
    Result<(), ActionError>)
    ensures
        extends(old(backend).calls(), final(backend).calls()),
        applied_until_failure(
            pid,
            restore_actions(*state),
            added(old(backend).calls(), final(backend).calls()),
            r is Ok,
        ),
{
    let plan = restore_plan(state);
    let ghost all = restore_actions(*state);
    let ghost start = backend.calls();
    let mut i: usize = 0;
    assert(backend.calls() =~= start + applied(pid, all.take(0)));
    while i < plan.len()
        invariant
            i <= plan@.len(),
            plan@ == all,
            start == old(backend).calls(),
            all == restore_actions(*state),
            backend.calls() == start + applied(pid, all.take(i as int)),
        decreases plan@.len() - i,
    {
        match backend.apply(pid, &plan[i]) {
            Ok(()) => {},
            Err(e) => {
                proof {
                    let calls = applied(pid, all.take(i as int)).push(
                        BackendCall::Apply { pid, action: all[i as int], done: false },
                    );
                    assert(backend.calls() =~= start + calls);
                    calls_added(start, calls, backend.calls());
                    assert(applied_until_failure(pid, all, calls, false));
                }
                return Err(e);
            },
        }
        i = i + 1;
        assert(backend.calls() =~= start + applied(pid, all.take(i as int)));
    }
    proof {
        assert(all.take(i as int) =~= all);
        calls_added(start, applied(pid, all), backend.calls());
    }
    Ok(())
}

// ---------------------------------------------------------------------------
// What actions do to a process
// ---------------------------------------------------------------------------
/// The part of a process that actions change.
pub struct ProcModel {
    pub priority: u32,
    pub affinity: u64,
    pub suspended: bool,
    pub quota: Option<u32>,
}

/// The process after an action was applied with success.
pub open spec fn after_action(m: ProcModel, a: TargetAction) -> ProcModel {
    match a {
        TargetAction::Priority(p) => ProcModel { priority: priority_flag(p), ..m },
        TargetAction::Affinity { core_mask } => ProcModel { affinity: core_mask, ..m },
        TargetAction::Suspend => ProcModel { suspended: true, ..m },
        TargetAction::Resume => ProcModel { suspended: false, ..m },
        TargetAction::TrimMemory => m,
        TargetAction::QosCpuQuota { percent } => ProcModel {
            quota: if percent == 0 {
                None
            } else {
                Some(percent)
            },
            ..m
        },
    }
}

/// The process after actions of which some were applied with success, and the
/// others left it alone.
pub open spec fn after_attempts(
    m: ProcModel,
    actions: Seq<TargetAction>,
    done: Seq<bool>,
) -> ProcModel
    decreases actions.len(),
{
    if actions.len() == 0 {
        m
    } else {
        let before = after_attempts(m, actions.drop_last(), done.drop_last());
        if done.last() {
            after_action(before, actions.last())
        } else {
            before
        }
    }
}

/// What is kept of a process before it is acted on. A suspension or a cap that
/// was there before is not part of it: neither is ever undone.
pub open spec fn snapshot_of(m: ProcModel) -> ProcState {
    ProcState { priority: m.priority, affinity: m.affinity, suspended: false, qos_percent: None }
}

/// The kept state after an action was applied with success: a suspension and a
/// cap are noted, so that they can be undone.
pub open spec fn noted(state: ProcState, a: TargetAction) -> ProcState {
    match a {
        TargetAction::Suspend => ProcState { suspended: true, ..state },
        TargetAction::QosCpuQuota { percent } => ProcState { qos_percent: Some(percent), ..state },
        _ => state,
    }
}

/// The kept state after actions of which some were applied with success.
pub open spec fn noted_all(
    state: ProcState,
    actions: Seq<TargetAction>,
    done: Seq<bool>,
) -> ProcState
    decreases actions.len(),
{
    if actions.len() == 0 {
        state
    } else {
        let before = noted_all(state, actions.drop_last(), done.drop_last());
        if done.last() {
            noted(before, actions.last())
        } else {
            before
        }
    }
}

/// No action in the list resumes a process or lifts a cap.
pub open spec fn only_restrains(actions: Seq<TargetAction>) -> bool {
    forall|i: int|
        0 <= i < actions.len() ==> (#[trigger] actions[i]) != TargetAction::Resume && actions[i]
            != (TargetAction::QosCpuQuota { percent: 0 })
}

proof fn noted_covers(m: ProcModel, actions: Seq<TargetAction>, done: Seq<bool>)
    requires
        only_restrains(actions),
        done.len() == actions.len(),
        !m.suspended,
        m.quota is None,
    ensures
        noted_all(snapshot_of(m), actions, done).priority == m.priority,
        noted_all(snapshot_of(m), actions, done).affinity == m.affinity,
        after_attempts(m, actions, done).suspended ==> noted_all(
            snapshot_of(m),
            actions,
            done,
        ).suspended,
        after_attempts(m, actions, done).quota is Some ==> noted_all(
            snapshot_of(m),
            actions,
            done,
        ).qos_percent is Some,
    decreases actions.len(),
{
    if actions.len() > 0 {
        assert(only_restrains(actions.drop_last())) by {
            assert forall|i: int| 0 <= i < actions.drop_last().len() implies (
            #[trigger] actions.drop_last()[i]) != TargetAction::Resume && actions.drop_last()[i]
                != (TargetAction::QosCpuQuota { percent: 0 }) by {
                assert(actions.drop_last()[i] == actions[i]);
            }
        }
        noted_covers(m, actions.drop_last(), done.drop_last());
        assert(actions.last() == actions[actions.len() - 1]);
    }
}

/// The process after a list of actions, all applied with success.
pub open spec fn after_all(m: ProcModel, actions: Seq<TargetAction>) -> ProcModel
    decreases actions.len(),
{
    if actions.len() == 0 {
        m
    } else {
        after_action(after_all(m, actions.drop_last()), actions.last())
    }
}

/// One more action comes after the others.
pub proof fn after_all_push(m: ProcModel, actions: Seq<TargetAction>, a: TargetAction)
    ensures
        after_all(m, actions.push(a)) == after_action(after_all(m, actions), a),
{
    assert(actions.push(a).drop_last() =~= actions);
}

/// Restoring undoes boosting. A process that runs freely (not suspended, not
/// capped, in one of the six priority classes) is as before once it was acted
/// on, whichever of the actions succeeded, and was then restored from the state
/// that was kept of it.
pub proof fn restore_undoes_boost(m: ProcModel, actions: Seq<TargetAction>, done: Seq<bool>)
    requires
        only_restrains(actions),
        done.len() == actions.len(),
        !m.suspended,
        m.quota is None,
        exists|p: PriorityClass| m.priority == priority_flag(p),
    ensures
        after_all(
            after_attempts(m, actions, done),
            restore_actions(noted_all(snapshot_of(m), actions, done)),
        ) == m,
{
    noted_covers(m, actions, done);
    let s = noted_all(snapshot_of(m), actions, done);
    let x = after_attempts(m, actions, done);
    let e = Seq::<TargetAction>::empty();
    let a1 = if s.suspended {
        e.push(TargetAction::Resume)
    } else {
        e
    };
    let a2 = if s.qos_percent is Some {
        a1.push(TargetAction::QosCpuQuota { percent: 0 })
    } else {
        a1
    };
    let a3 = a2.push(TargetAction::Priority(priority_of_flag(s.priority)));
    let a4 = a3.push(TargetAction::Affinity { core_mask: s.affinity });
    assert(restore_actions(s) =~= a4);
    assert(after_all(x, e) == x);
    after_all_push(x, e, TargetAction::Resume);
    after_all_push(x, a1, TargetAction::QosCpuQuota { percent: 0 });
    after_all_push(x, a2, TargetAction::Priority(priority_of_flag(s.priority)));
    after_all_push(x, a3, TargetAction::Affinity { core_mask: s.affinity });
}

/// A process is taken back in this order: it is resumed exactly where it was suspended, its
/// cap is lifted exactly where it was capped, and then its priority and its affinity are
/// set to those that were kept.
pub proof fn restoring_follows_what_was_kept(state: ProcState, p: PriorityClass)
    ensures
        ({
            let acts = restore_actions(state);
            let n = acts.len() as int;
            let resumed = if state.suspended {
                1int
            } else {
                0
            };
            let uncapped = if state.qos_percent is Some {
                1int
            } else {
                0
            };
            &&& n == resumed + uncapped + 2
            &&& state.suspended ==> acts[0] == TargetAction::Resume
            &&& state.qos_percent is Some ==> acts[resumed] == (TargetAction::QosCpuQuota {
                percent: 0,
            })
            &&& acts[n - 2] is Priority
            &&& state.priority == priority_flag(p) ==> acts[n - 2] == TargetAction::Priority(p)
            &&& acts[n - 1] == (TargetAction::Affinity { core_mask: state.affinity })
        }),
{
    priority_round_trip(p);
}

} // verus!
