//! The domain enumerations of the daemon's protocol.  Each decodes from
//! a small integer code, and any code outside the known set decodes to a
//! reserved unknown variant so that newer daemons degrade gracefully
//! instead of failing the whole reply.

use vstd::prelude::*;
use vstd::string::*;

use crate::xml::{find_child_spec, Node};

verus! {

/// The daemon's boolean dialect: an element that is present with any
/// content other than the literal digit `0` (an empty or self-closed
/// element included) means true; an absent element, or content exactly
/// `0`, means false.
#[derive(Clone, Copy, Debug, PartialEq, Eq, Structural)]
pub enum Bool {
    False,
    True,
}

impl core::default::Default for Bool {
    fn default() -> (r: Bool)
        ensures
            r == Bool::False,
    {
        Bool::False
    }
}

impl Bool {
    /// The dialect's decode rule, over an optional element content.
    pub open spec fn decode_spec(c: Option<Seq<char>>) -> Bool {
        match c {
            Option::None => Bool::False,
            Option::Some(t) => if t == seq!['0'] {
                Bool::False
            } else {
                Bool::True
            },
        }
    }

    /// Reads the field named `tag` of `n` under the boolean dialect:
    /// absent or exactly `0` is false, any other presence is true.
    pub fn from_field(n: &Node, tag: &str) -> (r: Bool)
        ensures
            r == Bool::decode_spec(
                match find_child_spec(n@, tag@) {
                    Option::Some(c) => Option::Some(c.content),
                    Option::None => Option::None,
                },
            ),
    {
        proof {
            reveal_strlit("0");
            assert("0"@ =~= seq!['0']);
        }
        match n.find_child(tag) {
            Option::Some(child) => {
                if crate::text::str_eq(child.content.as_str(), "0") {
                    Bool::False
                } else {
                    Bool::True
                }
            },
            Option::None => Bool::False,
        }
    }
}

impl From<Bool> for bool {
    fn from(b: Bool) -> (r: bool)
        ensures
            r == (b == Bool::True),
    {
        match b {
            Bool::True => true,
            Bool::False => false,
        }
    }
}

impl vstd::std_specs::convert::FromSpecImpl<Bool> for bool {
    open spec fn obeys_from_spec() -> bool {
        true
    }

    open spec fn from_spec(b: Bool) -> bool {
        b == Bool::True
    }
}

impl From<bool> for Bool {
    fn from(b: bool) -> (r: Bool)
        ensures
            r == (if b {
                Bool::True
            } else {
                Bool::False
            }),
    {
        if b {
            Bool::True
        } else {
            Bool::False
        }
    }
}

impl vstd::std_specs::convert::FromSpecImpl<bool> for Bool {
    open spec fn obeys_from_spec() -> bool {
        true
    }

    open spec fn from_spec(b: bool) -> Bool {
        if b {
            Bool::True
        } else {
            Bool::False
        }
    }
}

/// The execution state of a running task.
#[derive(Clone, Copy, Debug, PartialEq, Eq, Structural)]
pub enum ActiveTaskState {
    Uninitialized,
    Executing,
    Exited,
    WasSignaled,
    ExitUnknown,
    AbortPending,
    Aborted,
    CouldntStart,
    QuitPending,
    Suspended,
    CopyPending,
    UnknownToJoinc,
}

impl core::default::Default for ActiveTaskState {
    fn default() -> (r: ActiveTaskState)
        ensures
            r == ActiveTaskState::UnknownToJoinc,
    {
        ActiveTaskState::UnknownToJoinc
    }
}

impl ActiveTaskState {
    pub open spec fn from_code_spec(code: i32) -> ActiveTaskState {
        if code == 0 {
            ActiveTaskState::Uninitialized
        } else if code == 1 {
            ActiveTaskState::Executing
        } else if code == 2 {
            ActiveTaskState::Exited
        } else if code == 3 {
            ActiveTaskState::WasSignaled
        } else if code == 4 {
            ActiveTaskState::ExitUnknown
        } else if code == 5 {
            ActiveTaskState::AbortPending
        } else if code == 6 {
            ActiveTaskState::Aborted
        } else if code == 7 {
            ActiveTaskState::CouldntStart
        } else if code == 8 {
            ActiveTaskState::QuitPending
        } else if code == 9 {
            ActiveTaskState::Suspended
        } else if code == 10 {
            ActiveTaskState::CopyPending
        } else {
            ActiveTaskState::UnknownToJoinc
        }
    }

    /// Decodes a daemon code; anything outside the known set becomes the
    /// reserved unknown variant.
    pub fn from_code(code: i32) -> (r: ActiveTaskState)
        ensures
            r == ActiveTaskState::from_code_spec(code),
    {
        match code {
            0 => ActiveTaskState::Uninitialized,
            1 => ActiveTaskState::Executing,
            2 => ActiveTaskState::Exited,
            3 => ActiveTaskState::WasSignaled,
            4 => ActiveTaskState::ExitUnknown,
            5 => ActiveTaskState::AbortPending,
            6 => ActiveTaskState::Aborted,
            7 => ActiveTaskState::CouldntStart,
            8 => ActiveTaskState::QuitPending,
            9 => ActiveTaskState::Suspended,
            10 => ActiveTaskState::CopyPending,
            _ => ActiveTaskState::UnknownToJoinc,
        }
    }
}

/// The priority class of a daemon message.
#[derive(Clone, Copy, Debug, PartialEq, Eq, Structural)]
pub enum MsgInfo {
    Info,
    UserAlert,
    InternalError,
    UnknownToJoinc,
}

impl core::default::Default for MsgInfo {
    fn default() -> (r: MsgInfo)
        ensures
            r == MsgInfo::UnknownToJoinc,
    {
        MsgInfo::UnknownToJoinc
    }
}

impl MsgInfo {
    pub open spec fn from_code_spec(code: i32) -> MsgInfo {
        if code == 1 {
            MsgInfo::Info
        } else if code == 2 {
            MsgInfo::UserAlert
        } else if code == 3 {
            MsgInfo::InternalError
        } else {
            MsgInfo::UnknownToJoinc
        }
    }

    pub fn from_code(code: i32) -> (r: MsgInfo)
        ensures
            r == MsgInfo::from_code_spec(code),
    {
        match code {
            1 => MsgInfo::Info,
            2 => MsgInfo::UserAlert,
            3 => MsgInfo::InternalError,
            _ => MsgInfo::UnknownToJoinc,
        }
    }
}

/// The daemon's view of its network connection.
#[derive(Clone, Copy, Debug, PartialEq, Eq, Structural)]
pub enum NetworkStatus {
    Online,
    WantConnection,
    WantDisconnect,
    LookupPending,
    UnknownToJoinc,
}

impl core::default::Default for NetworkStatus {
    fn default() -> (r: NetworkStatus)
        ensures
            r == NetworkStatus::UnknownToJoinc,
    {
        NetworkStatus::UnknownToJoinc
    }
}

impl NetworkStatus {
    pub open spec fn from_code_spec(code: i32) -> NetworkStatus {
        if code == 0 {
            NetworkStatus::Online
        } else if code == 1 {
            NetworkStatus::WantConnection
        } else if code == 2 {
            NetworkStatus::WantDisconnect
        } else if code == 3 {
            NetworkStatus::LookupPending
        } else {
            NetworkStatus::UnknownToJoinc
        }
    }

    pub fn from_code(code: i32) -> (r: NetworkStatus)
        ensures
            r == NetworkStatus::from_code_spec(code),
    {
        match code {
            0 => NetworkStatus::Online,
            1 => NetworkStatus::WantConnection,
            2 => NetworkStatus::WantDisconnect,
            3 => NetworkStatus::LookupPending,
            _ => NetworkStatus::UnknownToJoinc,
        }
    }
}

/// The client-side state of a task.
#[derive(Clone, Copy, Debug, PartialEq, Eq, Structural)]
pub enum ResultClientState {
    New,
    FilesDownloading,
    FilesDownloaded,
    ComputeError,
    FilesUploading,
    FilesUploaded,
    Aborted,
    UploadFailed,
    UnknownToJoinc,
}

impl core::default::Default for ResultClientState {
    fn default() -> (r: ResultClientState)
        ensures
            r == ResultClientState::UnknownToJoinc,
    {
        ResultClientState::UnknownToJoinc
    }
}

impl ResultClientState {
    pub open spec fn from_code_spec(code: i32) -> ResultClientState {
        if code == 0 {
            ResultClientState::New
        } else if code == 1 {
            ResultClientState::FilesDownloading
        } else if code == 2 {
            ResultClientState::FilesDownloaded
        } else if code == 3 {
            ResultClientState::ComputeError
        } else if code == 4 {
            ResultClientState::FilesUploading
        } else if code == 5 {
            ResultClientState::FilesUploaded
        } else if code == 6 {
            ResultClientState::Aborted
        } else if code == 7 {
            ResultClientState::UploadFailed
        } else {
            ResultClientState::UnknownToJoinc
        }
    }

    pub fn from_code(code: i32) -> (r: ResultClientState)
        ensures
            r == ResultClientState::from_code_spec(code),
    {
        match code {
            0 => ResultClientState::New,
            1 => ResultClientState::FilesDownloading,
            2 => ResultClientState::FilesDownloaded,
            3 => ResultClientState::ComputeError,
            4 => ResultClientState::FilesUploading,
            5 => ResultClientState::FilesUploaded,
            6 => ResultClientState::Aborted,
            7 => ResultClientState::UploadFailed,
            _ => ResultClientState::UnknownToJoinc,
        }
    }
}

/// Why a project is due for a scheduler call.
#[derive(Clone, Copy, Debug, PartialEq, Eq, Structural)]
pub enum RpcReason {
    NoReason,
    UserReq,
    ResultsDue,
    NeedWork,
    TrickleUp,
    AcctMgrReq,
    Init,
    ProjectReq,
    UnknownToJoinc,
}

impl core::default::Default for RpcReason {
    fn default() -> (r: RpcReason)
        ensures
            r == RpcReason::UnknownToJoinc,
    {
        RpcReason::UnknownToJoinc
    }
}

impl RpcReason {
    pub open spec fn from_code_spec(code: i32) -> RpcReason {
        if code == 0 {
            RpcReason::NoReason
        } else if code == 1 {
            RpcReason::UserReq
        } else if code == 2 {
            RpcReason::ResultsDue
        } else if code == 3 {
            RpcReason::NeedWork
        } else if code == 4 {
            RpcReason::TrickleUp
        } else if code == 5 {
            RpcReason::AcctMgrReq
        } else if code == 6 {
            RpcReason::Init
        } else if code == 7 {
            RpcReason::ProjectReq
        } else {
            RpcReason::UnknownToJoinc
        }
    }

    pub fn from_code(code: i32) -> (r: RpcReason)
        ensures
            r == RpcReason::from_code_spec(code),
    {
        match code {
            0 => RpcReason::NoReason,
            1 => RpcReason::UserReq,
            2 => RpcReason::ResultsDue,
            3 => RpcReason::NeedWork,
            4 => RpcReason::TrickleUp,
            5 => RpcReason::AcctMgrReq,
            6 => RpcReason::Init,
            7 => RpcReason::ProjectReq,
            _ => RpcReason::UnknownToJoinc,
        }
    }
}

/// A run mode for tasks, GPU work or network use.
#[derive(Clone, Copy, Debug, PartialEq, Eq, Structural)]
pub enum RunMode {
    Always,
    Auto,
    Never,
    Restore,
    UnknownToJoinc,
}

impl core::default::Default for RunMode {
    fn default() -> (r: RunMode)
        ensures
            r == RunMode::UnknownToJoinc,
    {
        RunMode::UnknownToJoinc
    }
}

impl RunMode {
    pub open spec fn from_code_spec(code: i32) -> RunMode {
        if code == 1 {
            RunMode::Always
        } else if code == 2 {
            RunMode::Auto
        } else if code == 3 {
            RunMode::Never
        } else if code == 4 {
            RunMode::Restore
        } else {
            RunMode::UnknownToJoinc
        }
    }

    pub open spec fn code_spec(self) -> i32 {
        match self {
            RunMode::Always => 1,
            RunMode::Auto => 2,
            RunMode::Never => 3,
            RunMode::Restore => 4,
            RunMode::UnknownToJoinc => -1i32,
        }
    }

    pub fn from_code(code: i32) -> (r: RunMode)
        ensures
            r == RunMode::from_code_spec(code),
    {
        match code {
            1 => RunMode::Always,
            2 => RunMode::Auto,
            3 => RunMode::Never,
            4 => RunMode::Restore,
            _ => RunMode::UnknownToJoinc,
        }
    }

    /// The integer the daemon expects on the wire for this mode.
    pub fn code(self) -> (r: i32)
        ensures
            r == self.code_spec(),
    {
        match self {
            RunMode::Always => 1,
            RunMode::Auto => 2,
            RunMode::Never => 3,
            RunMode::Restore => 4,
            RunMode::UnknownToJoinc => -1i32,
        }
    }
}

/// Every run mode survives the trip through its wire code.
pub proof fn lemma_run_mode_code_roundtrip(m: RunMode)
    ensures
        RunMode::from_code_spec(m.code_spec()) == m || (m == RunMode::UnknownToJoinc
            && RunMode::from_code_spec(m.code_spec()) == RunMode::UnknownToJoinc),
{
}

/// The scheduler's state for a task.
#[derive(Clone, Copy, Debug, PartialEq, Eq, Structural)]
pub enum SchedulerState {
    Uninitialized,
    Preempted,
    Scheduled,
    UnknownToJoinc,
}

impl core::default::Default for SchedulerState {
    fn default() -> (r: SchedulerState)
        ensures
            r == SchedulerState::UnknownToJoinc,
    {
        SchedulerState::UnknownToJoinc
    }
}

impl SchedulerState {
    pub open spec fn from_code_spec(code: i32) -> SchedulerState {
        if code == 0 {
            SchedulerState::Uninitialized
        } else if code == 1 {
            SchedulerState::Preempted
        } else if code == 2 {
            SchedulerState::Scheduled
        } else {
            SchedulerState::UnknownToJoinc
        }
    }

    pub fn from_code(code: i32) -> (r: SchedulerState)
        ensures
            r == SchedulerState::from_code_spec(code),
    {
        match code {
            0 => SchedulerState::Uninitialized,
            1 => SchedulerState::Preempted,
            2 => SchedulerState::Scheduled,
            _ => SchedulerState::UnknownToJoinc,
        }
    }
}

/// Why the daemon suspended work or network use.
#[derive(Clone, Copy, Debug, PartialEq, Eq, Structural)]
pub enum SuspendReason {
    NotSuspended,
    Batteries,
    UserActive,
    UserReq,
    TimeOfDay,
    Benchmarks,
    DiskSize,
    CpuThrottle,
    NoRecentInput,
    InitialDelay,
    ExclusiveAppRunning,
    CpuUsage,
    NetworkQuotaExceeded,
    Os,
    WifiState,
    BatteryCharging,
    BatteryOverheated,
    NoGuiKeepalive,
    UnknownToJoinc,
}

impl core::default::Default for SuspendReason {
    fn default() -> (r: SuspendReason)
        ensures
            r == SuspendReason::UnknownToJoinc,
    {
        SuspendReason::UnknownToJoinc
    }
}

impl SuspendReason {
    pub open spec fn from_code_spec(code: i32) -> SuspendReason {
        if code == 0 {
            SuspendReason::NotSuspended
        } else if code == 1 {
            SuspendReason::Batteries
        } else if code == 2 {
            SuspendReason::UserActive
        } else if code == 4 {
            SuspendReason::UserReq
        } else if code == 8 {
            SuspendReason::TimeOfDay
        } else if code == 16 {
            SuspendReason::Benchmarks
        } else if code == 32 {
            SuspendReason::DiskSize
        } else if code == 64 {
            SuspendReason::CpuThrottle
        } else if code == 128 {
            SuspendReason::NoRecentInput
        } else if code == 256 {
            SuspendReason::InitialDelay
        } else if code == 512 {
            SuspendReason::ExclusiveAppRunning
        } else if code == 1024 {
            SuspendReason::CpuUsage
        } else if code == 2048 {
            SuspendReason::NetworkQuotaExceeded
        } else if code == 4096 {
            SuspendReason::Os
        } else if code == 4097 {
            SuspendReason::WifiState
        } else if code == 4098 {
            SuspendReason::BatteryCharging
        } else if code == 4099 {
            SuspendReason::BatteryOverheated
        } else if code == 4100 {
            SuspendReason::NoGuiKeepalive
        } else {
            SuspendReason::UnknownToJoinc
        }
    }

    pub fn from_code(code: i32) -> (r: SuspendReason)
        ensures
            r == SuspendReason::from_code_spec(code),
    {
        match code {
            0 => SuspendReason::NotSuspended,
            1 => SuspendReason::Batteries,
            2 => SuspendReason::UserActive,
            4 => SuspendReason::UserReq,
            8 => SuspendReason::TimeOfDay,
            16 => SuspendReason::Benchmarks,
            32 => SuspendReason::DiskSize,
            64 => SuspendReason::CpuThrottle,
            128 => SuspendReason::NoRecentInput,
            256 => SuspendReason::InitialDelay,
            512 => SuspendReason::ExclusiveAppRunning,
            1024 => SuspendReason::CpuUsage,
            2048 => SuspendReason::NetworkQuotaExceeded,
            4096 => SuspendReason::Os,
            4097 => SuspendReason::WifiState,
            4098 => SuspendReason::BatteryCharging,
            4099 => SuspendReason::BatteryOverheated,
            4100 => SuspendReason::NoGuiKeepalive,
            _ => SuspendReason::UnknownToJoinc,
        }
    }
}

} // verus!

verus! {

/// An operation on a file transfer.
#[derive(Clone, Copy, Debug, PartialEq, Eq, Structural)]
pub enum FileTransferOp {
    Abort,
    Retry,
}

/// An operation on an attached project.
#[derive(Clone, Copy, Debug, PartialEq, Eq, Structural)]
pub enum ProjectOp {
    Allowmorework,
    Detach,
    DetachWhenDone,
    DontDetachWhenDone,
    Nomorework,
    Reset,
    Resume,
    Suspend,
    Update,
}

/// An operation on a task.
#[derive(Clone, Copy, Debug, PartialEq, Eq, Structural)]
pub enum TaskOp {
    Abort,
    Resume,
    Suspend,
}

} // verus!
