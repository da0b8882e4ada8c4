use std::collections::VecDeque;
use std::time::Instant;
use vstd::prelude::*;

verus! {

/// `std::time::Instant`, carried as an opaque timestamp.
#[verifier::external_type_specification]
#[verifier::external_body]
pub struct ExInstant(Instant);

/// `Instant` is `Copy`; its `Clone` gives back the same instant.
pub assume_specification[ <Instant as Clone>::clone ](instant: &Instant) -> (copy: Instant)
    ensures
        copy == *instant,
;

/// An IEEE-754 binary32 value held by its bit pattern (`f32::to_bits`).
///
/// Values are stored exactly; the library orders them as `f32::total_cmp`
/// does and leaves arithmetic and decimal formatting to the renderer.
#[derive(Clone, Copy, Debug, PartialEq, Eq, Structural)]
pub struct Float32 {
    pub bits: u32,
}

/// An IEEE-754 binary64 value held by its bit pattern (`f64::to_bits`).
#[derive(Clone, Copy, Debug, PartialEq, Eq, Structural)]
pub struct Float64 {
    pub bits: u64,
}

/// The position of a binary32 value in the total order of `f32::total_cmp`:
/// negative values (sign bit set) come first, by decreasing magnitude, then
/// positive ones by increasing magnitude.
pub open spec fn total_order_key(value: Float32) -> int {
    if value.bits >= 0x8000_0000 {
        0x7fff_ffff - value.bits
    } else {
        value.bits as int
    }
}

impl Float32 {
    /// The integer that orders binary32 values as `f32::total_cmp` does.
    pub fn total_order_key(self) -> (key: i64)
        ensures
            key == total_order_key(self),
    {
        if self.bits >= 0x8000_0000 {
            0x7fff_ffff - (self.bits as i64)
        } else {
            self.bits as i64
        }
    }
}

/// The command-line information wtop can obtain for a process.
///
/// Windows restricts memory access for some processes, so an unavailable
/// command line must remain distinct from one that is genuinely empty.
#[derive(Debug, Default, PartialEq, Eq)]
pub enum CommandLine {
    #[default]
    NotRequested,
    Present(String),
    Unavailable,
}

/// Indicates whether a value was collected in the current refresh.
#[derive(Debug, Default, PartialEq, Eq)]
pub enum Freshness {
    #[default]
    Fresh,
    Stale { reason: String },
}

/// A collected value together with its refresh status.
#[derive(Debug, PartialEq)]
pub struct Metric<T> {
    pub value: T,
    pub freshness: Freshness,
}

impl Clone for CommandLine {
    fn clone(&self) -> (copy: Self)
        ensures
            copy == *self,
    {
        match self {
            CommandLine::NotRequested => CommandLine::NotRequested,
            CommandLine::Present(text) => CommandLine::Present(text.clone()),
            CommandLine::Unavailable => CommandLine::Unavailable,
        }
    }
}

impl Clone for Freshness {
    fn clone(&self) -> (copy: Self)
        ensures
            copy == *self,
    {
        match self {
            Freshness::Fresh => Freshness::Fresh,
            Freshness::Stale { reason } => Freshness::Stale { reason: reason.clone() },
        }
    }
}

impl<T: Clone> Clone for Metric<T> {
    fn clone(&self) -> (copy: Self)
        ensures
            cloned(self.value, copy.value),
            copy.freshness == self.freshness,
    {
        Metric { value: self.value.clone(), freshness: self.freshness.clone() }
    }
}

impl<T> Metric<T> {
    pub fn fresh(value: T) -> (metric: Self)
        ensures
            metric.value == value,
            metric.freshness == Freshness::Fresh,
    {
        Metric { value, freshness: Freshness::Fresh }
    }

    /// A value kept from an earlier refresh, with the reason the current
    /// refresh could not replace it.
    pub fn stale(value: T, reason: &str) -> (metric: Self)
        ensures
            metric.value == value,
            metric.freshness matches Freshness::Stale { reason: r } && r@ == reason@,
    {
        Metric { value, freshness: Freshness::Stale { reason: reason.to_string() } }
    }
}

/// Whether a metric was carried over from an earlier refresh.
pub open spec fn is_stale<T>(metric: Metric<T>) -> bool {
    metric.freshness is Stale
}

/// The confidence level of a process owner label.
#[derive(Clone, Copy, Debug, Default, PartialEq, Eq, Structural)]
pub enum UserSource {
    /// The process access token supplied the owner SID.
    #[default]
    Token,
    /// The Service Control Manager supplied the configured service account.
    ServiceConfiguration,
    /// Windows did not allow the process token or an SCM fallback to be read.
    Restricted,
}

/// The fields wtop needs to render one process.
#[derive(Debug, PartialEq)]
pub struct ProcessSnapshot {
    pub pid: u32,
    pub parent_pid: Option<u32>,
    pub name: String,
    /// Best-effort account name or SID for the process owner.
    pub user: Option<String>,
    /// Indicates how the displayed owner was obtained.
    pub user_source: UserSource,
    pub command_line: CommandLine,
    /// The executable's path as displayed text, when it could be read.
    pub executable_path: Option<String>,
    /// Percentage of total logical CPU capacity used by this process (0-100).
    pub cpu_percent: Float32,
    /// Number of threads reported by the latest ToolHelp process snapshot.
    pub thread_count: Metric<u64>,
    pub memory_bytes: u64,
}

impl Clone for ProcessSnapshot {
    fn clone(&self) -> (copy: Self)
        ensures
            copy == *self,
    {
        ProcessSnapshot {
            pid: self.pid,
            parent_pid: self.parent_pid,
            name: self.name.clone(),
            user: match &self.user {
                Some(user) => Some(user.clone()),
                None => None,
            },
            user_source: self.user_source,
            command_line: self.command_line.clone(),
            executable_path: match &self.executable_path {
                Some(path) => Some(path.clone()),
                None => None,
            },
            cpu_percent: self.cpu_percent,
            thread_count: self.thread_count.clone(),
            memory_bytes: self.memory_bytes,
        }
    }
}

/// The command-line text shown for a process.
pub open spec fn command_line_text(process: ProcessSnapshot) -> Seq<char> {
    match process.command_line {
        CommandLine::Present(command_line) => if command_line@.len() == 0 {
            "<empty>"@
        } else {
            command_line@
        },
        CommandLine::Unavailable => match process.executable_path {
            None => "<unavailable>"@,
            Some(path) => "<unavailable> "@ + path@,
        },
        CommandLine::NotRequested => "<pending>"@,
    }
}

/// The owner text shown for a process.
pub open spec fn user_text(process: ProcessSnapshot) -> Seq<char> {
    if process.pid == 4 {
        "<kernel>"@
    } else if process.user_source == UserSource::Restricted {
        "<restricted>"@
    } else {
        match process.user {
            Some(user) => user@,
            None => "<unknown>"@,
        }
    }
}

impl ProcessSnapshot {
    /// Returns the concise command-line representation shown in the process
    /// table, including the executable fallback for inaccessible processes.
    pub fn command_line_display(&self) -> (text: String)
        ensures
            text@ == command_line_text(*self),
    {
        match &self.command_line {
            CommandLine::Present(command_line) => {
                if command_line.as_str().is_empty() {
                    "<empty>".to_string()
                } else {
                    command_line.clone()
                }
            },
            CommandLine::Unavailable => match &self.executable_path {
                None => "<unavailable>".to_string(),
                Some(path) => {
                    let mut text = "<unavailable> ".to_string();
                    text.append(path.as_str());
                    text
                },
            },
            CommandLine::NotRequested => "<pending>".to_string(),
        }
    }

    pub fn user_display(&self) -> (text: &str)
        ensures
            text@ == user_text(*self),
    {
        // PID 4 is Windows' kernel-owned System process. It has no user token,
        // so calling it unknown hides useful information from the operator.
        if self.pid == 4 {
            "<kernel>"
        } else if self.user_source == UserSource::Restricted {
            "<restricted>"
        } else {
            match &self.user {
                Some(user) => user.as_str(),
                None => "<unknown>",
            }
        }
    }
}

/// The number of recent refresh samples retained for the header history.
pub const HISTORY_CAPACITY: usize = 60;

/// One collected CPU sample for the header sparkline.
#[derive(Clone, Copy, Debug, PartialEq, Eq, Structural)]
pub struct HistorySample {
    pub cpu_percent: Float32,
}

/// A bounded, newest-last CPU history.
#[derive(Debug, PartialEq)]
pub struct History {
    samples: VecDeque<HistorySample>,
    capacity: usize,
}

impl History {
    #[verifier::type_invariant]
    spec fn bounded(self) -> bool {
        0 < self.capacity && self.samples@.len() <= self.capacity
    }

    /// The retained samples, oldest first.
    pub closed spec fn view(self) -> Seq<HistorySample> {
        self.samples@
    }

    /// The number of samples the history retains.
    pub closed spec fn capacity(self) -> usize {
        self.capacity
    }

    pub fn new() -> (history: Self)
        ensures
            history@ == Seq::<HistorySample>::empty(),
            history.capacity() == HISTORY_CAPACITY,
    {
        Self::with_capacity(HISTORY_CAPACITY)
    }

    pub fn with_capacity(capacity: usize) -> (history: Self)
        requires
            capacity > 0,
        ensures
            history@ == Seq::<HistorySample>::empty(),
            history.capacity() == capacity,
    {
        History { samples: VecDeque::new(), capacity }
    }

    /// Appends a sample, evicting the oldest once the capacity is reached.
    pub fn push(&mut self, sample: HistorySample)
        ensures
            final(self).capacity() == old(self).capacity(),
            0 < final(self)@.len() <= final(self).capacity(),
            old(self)@.len() < old(self).capacity() ==> final(self)@ == old(self)@.push(sample),
            old(self)@.len() >= old(self).capacity() ==> final(self)@ == old(self)@.drop_first().push(
                sample,
            ),
    {
        proof {
            use_type_invariant(&*self);
        }
        let mut samples = VecDeque::new();
        std::mem::swap(&mut samples, &mut self.samples);
        if samples.len() >= self.capacity {
            samples.pop_front();
        }
        samples.push_back(sample);
        self.samples = samples;
        proof {
            if old(self)@.len() >= old(self).capacity() {
                assert(old(self)@.subrange(1, old(self)@.len() as int) =~= old(self)@.drop_first());
            }
        }
    }

    /// The retained samples, oldest first.
    pub fn samples(&self) -> (samples: &VecDeque<HistorySample>)
        ensures
            samples@ == self@,
    {
        &self.samples
    }

    pub fn len(&self) -> (len: usize)
        ensures
            len == self@.len(),
    {
        self.samples.len()
    }

    pub fn is_empty(&self) -> (empty: bool)
        ensures
            empty == (self@.len() == 0),
    {
        self.samples.len() == 0
    }

    /// A copy of this history.
    fn duplicate(&self) -> (copy: Self)
        ensures
            copy@ == self@,
            copy.capacity() == self.capacity(),
    {
        proof {
            use_type_invariant(self);
        }
        let mut samples = VecDeque::new();
        let mut i: usize = 0;
        while i < self.samples.len()
            invariant
                i <= self.samples@.len(),
                samples@ == self.samples@.subrange(0, i as int),
            decreases self.samples@.len() - i,
        {
            samples.push_back(self.samples[i]);
            i = i + 1;
            assert(samples@ =~= self.samples@.subrange(0, i as int));
        }
        assert(self.samples@.subrange(0, i as int) =~= self.samples@);
        History { samples, capacity: self.capacity }
    }
}

impl Clone for History {
    fn clone(&self) -> (copy: Self)
        ensures
            copy@ == self@,
            copy.capacity() == self.capacity(),
    {
        self.duplicate()
    }
}

impl Default for History {
    fn default() -> (history: Self)
        ensures
            history@ == Seq::<HistorySample>::empty(),
            history.capacity() == HISTORY_CAPACITY,
    {
        Self::new()
    }
}

/// System-wide metrics displayed in the compact header.
#[derive(Clone, Debug, PartialEq)]
pub struct SystemSnapshot {
    pub cpu_percent: Metric<Float32>,
    /// Current usage for each logical CPU, in operating-system order.
    pub logical_cpu_percentages: Metric<Vec<Float32>>,
    pub total_memory_bytes: Metric<u64>,
    pub used_memory_bytes: Metric<u64>,
    pub commit_charge_bytes: Metric<u64>,
    pub commit_limit_bytes: Metric<u64>,
    pub network: NetworkSnapshot,
    pub gpu: GpuSnapshot,
}

/// Current telemetry for one hardware GPU adapter.
#[derive(Debug, PartialEq)]
pub struct GpuAdapterSnapshot {
    /// DXGI adapter LUID packed into a stable 64-bit identifier.
    pub id: u64,
    pub name: String,
    /// Busiest active engine, not a sum of overlapping engine percentages.
    pub utilization_percent: Metric<Option<Float32>>,
    pub dedicated_memory_used_bytes: Metric<Option<u64>>,
    pub dedicated_memory_capacity_bytes: Metric<Option<u64>>,
    pub shared_memory_used_bytes: Metric<Option<u64>>,
    pub shared_memory_capacity_bytes: Metric<Option<u64>>,
}

impl Clone for GpuAdapterSnapshot {
    fn clone(&self) -> (copy: Self)
        ensures
            copy == *self,
    {
        GpuAdapterSnapshot {
            id: self.id,
            name: self.name.clone(),
            utilization_percent: self.utilization_percent.clone(),
            dedicated_memory_used_bytes: self.dedicated_memory_used_bytes.clone(),
            dedicated_memory_capacity_bytes: self.dedicated_memory_capacity_bytes.clone(),
            shared_memory_used_bytes: self.shared_memory_used_bytes.clone(),
            shared_memory_capacity_bytes: self.shared_memory_capacity_bytes.clone(),
        }
    }
}

/// Hardware GPU adapters and their capability-aware telemetry.
#[derive(Clone, Debug, PartialEq)]
pub struct GpuSnapshot {
    pub adapters: Metric<Vec<GpuAdapterSnapshot>>,
}

impl Default for GpuSnapshot {
    fn default() -> (snapshot: Self)
        ensures
            snapshot.adapters.value@ == Seq::<GpuAdapterSnapshot>::empty(),
            snapshot.adapters.freshness == Freshness::Fresh,
    {
        GpuSnapshot { adapters: Metric::fresh(Vec::new()) }
    }
}

/// Current traffic for one Windows network interface.
#[derive(Debug, PartialEq)]
pub struct NetworkInterfaceSnapshot {
    /// Stable Windows interface LUID. It is an identity, not UI text.
    pub id: u64,
    pub alias: String,
    pub operational: bool,
    /// `None` means that no pair of counter samples is available yet.
    pub transmit_bytes_per_second: Metric<Option<Float64>>,
    /// `None` means that no pair of counter samples is available yet.
    pub receive_bytes_per_second: Metric<Option<Float64>>,
}

impl Clone for NetworkInterfaceSnapshot {
    fn clone(&self) -> (copy: Self)
        ensures
            copy == *self,
    {
        NetworkInterfaceSnapshot {
            id: self.id,
            alias: self.alias.clone(),
            operational: self.operational,
            transmit_bytes_per_second: self.transmit_bytes_per_second.clone(),
            receive_bytes_per_second: self.receive_bytes_per_second.clone(),
        }
    }
}

/// Network counters collected independently of process data.
#[derive(Clone, Debug, PartialEq)]
pub struct NetworkSnapshot {
    pub interfaces: Metric<Vec<NetworkInterfaceSnapshot>>,
    pub total_transmit_bytes_per_second: Metric<Option<Float64>>,
    pub total_receive_bytes_per_second: Metric<Option<Float64>>,
}

impl Default for NetworkSnapshot {
    fn default() -> (snapshot: Self)
        ensures
            snapshot.interfaces.value@ == Seq::<NetworkInterfaceSnapshot>::empty(),
            snapshot.interfaces.freshness == Freshness::Fresh,
            snapshot.total_transmit_bytes_per_second.value is None,
            snapshot.total_transmit_bytes_per_second.freshness == Freshness::Fresh,
            snapshot.total_receive_bytes_per_second.value is None,
            snapshot.total_receive_bytes_per_second.freshness == Freshness::Fresh,
    {
        NetworkSnapshot {
            interfaces: Metric::fresh(Vec::new()),
            total_transmit_bytes_per_second: Metric::fresh(None),
            total_receive_bytes_per_second: Metric::fresh(None),
        }
    }
}

/// A complete, immutable view of process, system, and header-history state from
/// one refresh.
#[derive(Clone, Debug, PartialEq)]
pub struct Snapshot {
    pub generation: u64,
    pub collected_at: Instant,
    pub system: SystemSnapshot,
    pub processes: Metric<Vec<ProcessSnapshot>>,
    pub history: History,
}

} // verus!
