//! The error taxonomy: a closed set of kinds, one per registered native
//! status code plus `Unknown`, and total classification from raw status to
//! kind.

use vstd::prelude::*;
verus! {
/// The closed set of error kinds: one named kind for every status code the
/// native driver registers, plus `Unknown`, which stands for any unregistered
/// code so that classification is total.
#[derive(Clone, Copy, Debug, PartialEq, Eq, Structural)]
pub enum CuError {
    InvalidValue,
    OutOfMemory,
    NotInitialized,
    Deinitialized,
    ProfilerDisabled,
    ProfilerNotInitialized,
    ProfilerAlreadyStarted,
    ProfilerAlreadyStopped,
    StubLibrary,
    DeviceUnavailable,
    NoDevice,
    InvalidDevice,
    DeviceNotLicensed,
    InvalidImage,
    InvalidContext,
    ContextAlreadyCurrent,
    MapFailed,
    UnmapFailed,
    ArrayIsMapped,
    AlreadyMapped,
    NoBinaryForGpu,
    AlreadyAcquired,
    NotMapped,
    NotMappedAsArray,
    NotMappedAsPointer,
    EccUncorrectable,
    UnsupportedLimit,
    ContextAlreadyInUse,
    PeerAccessUnsupported,
    InvalidPtx,
    InvalidGraphicsContext,
    NvlinkUncorrectable,
    JitCompilerNotFound,
    UnsupportedPtxVersion,
    JitCompilationDisabled,
    UnsupportedExecAffinity,
    UnsupportedDevsideSync,
    InvalidSource,
    FileNotFound,
    SharedObjectSymbolNotFound,
    SharedObjectInitFailed,
    OperatingSystem,
    InvalidHandle,
    IllegalState,
    NotFound,
    NotReady,
    IllegalAddress,
    LaunchOutOfResources,
    LaunchTimeout,
    LaunchIncompatibleTexturing,
    PeerAccessAlreadyEnabled,
    PeerAccessNotEnabled,
    PrimaryContextActive,
    ContextIsDestroyed,
    Assert,
    TooManyPeers,
    HostMemoryAlreadyRegistered,
    HostMemoryNotRegistered,
    HardwareStackError,
    IllegalInstruction,
    MisalignedAddress,
    InvalidAddressSpace,
    InvalidPc,
    LaunchFailed,
    CooperativeLaunchTooLarge,
    NotPermitted,
    NotSupported,
    SystemNotReady,
    SystemDriverMismatch,
    CompatNotSupportedOnDevice,
    MpsConnectionFailed,
    MpsRpcFailure,
    MpsServerNotReady,
    MpsMaxClientsReached,
    MpsMaxConnectionsReached,
    MpsClientTerminated,
    CdpNotSupported,
    CdpVersionMismatch,
    StreamCaptureUnsupported,
    StreamCaptureInvalidated,
    StreamCaptureMerge,
    StreamCaptureUnmatched,
    StreamCaptureUnjoined,
    StreamCaptureIsolation,
    StreamCaptureImplicit,
    CapturedEvent,
    StreamCaptureWrongThread,
    Timeout,
    GraphExecUpdateFailure,
    ExternalDevice,
    InvalidClusterSize,
    Unknown,
}

/// The numeric status code registered for each kind.
pub open spec fn code_of(e: CuError) -> int {
    match e {
        CuError::InvalidValue => 1,
        CuError::OutOfMemory => 2,
        CuError::NotInitialized => 3,
        CuError::Deinitialized => 4,
        CuError::ProfilerDisabled => 5,
        CuError::ProfilerNotInitialized => 6,
        CuError::ProfilerAlreadyStarted => 7,
        CuError::ProfilerAlreadyStopped => 8,
        CuError::StubLibrary => 34,
        CuError::DeviceUnavailable => 46,
        CuError::NoDevice => 100,
        CuError::InvalidDevice => 101,
        CuError::DeviceNotLicensed => 102,
        CuError::InvalidImage => 200,
        CuError::InvalidContext => 201,
        CuError::ContextAlreadyCurrent => 202,
        CuError::MapFailed => 205,
        CuError::UnmapFailed => 206,
        CuError::ArrayIsMapped => 207,
        CuError::AlreadyMapped => 208,
        CuError::NoBinaryForGpu => 209,
        CuError::AlreadyAcquired => 210,
        CuError::NotMapped => 211,
        CuError::NotMappedAsArray => 212,
        CuError::NotMappedAsPointer => 213,
        CuError::EccUncorrectable => 214,
        CuError::UnsupportedLimit => 215,
        CuError::ContextAlreadyInUse => 216,
        CuError::PeerAccessUnsupported => 217,
        CuError::InvalidPtx => 218,
        CuError::InvalidGraphicsContext => 219,
        CuError::NvlinkUncorrectable => 220,
        CuError::JitCompilerNotFound => 221,
        CuError::UnsupportedPtxVersion => 222,
        CuError::JitCompilationDisabled => 223,
        CuError::UnsupportedExecAffinity => 224,
        CuError::UnsupportedDevsideSync => 225,
        CuError::InvalidSource => 300,
        CuError::FileNotFound => 301,
        CuError::SharedObjectSymbolNotFound => 302,
        CuError::SharedObjectInitFailed => 303,
        CuError::OperatingSystem => 304,
        CuError::InvalidHandle => 400,
        CuError::IllegalState => 401,
        CuError::NotFound => 500,
        CuError::NotReady => 600,
        CuError::IllegalAddress => 700,
        CuError::LaunchOutOfResources => 701,
        CuError::LaunchTimeout => 702,
        CuError::LaunchIncompatibleTexturing => 703,
        CuError::PeerAccessAlreadyEnabled => 704,
        CuError::PeerAccessNotEnabled => 705,
        CuError::PrimaryContextActive => 708,
        CuError::ContextIsDestroyed => 709,
        CuError::Assert => 710,
        CuError::TooManyPeers => 711,
        CuError::HostMemoryAlreadyRegistered => 712,
        CuError::HostMemoryNotRegistered => 713,
        CuError::HardwareStackError => 714,
        CuError::IllegalInstruction => 715,
        CuError::MisalignedAddress => 716,
        CuError::InvalidAddressSpace => 717,
        CuError::InvalidPc => 718,
        CuError::LaunchFailed => 719,
        CuError::CooperativeLaunchTooLarge => 720,
        CuError::NotPermitted => 800,
        CuError::NotSupported => 801,
        CuError::SystemNotReady => 802,
        CuError::SystemDriverMismatch => 803,
        CuError::CompatNotSupportedOnDevice => 804,
        CuError::MpsConnectionFailed => 805,
        CuError::MpsRpcFailure => 806,
        CuError::MpsServerNotReady => 807,
        CuError::MpsMaxClientsReached => 808,
        CuError::MpsMaxConnectionsReached => 809,
        CuError::MpsClientTerminated => 810,
        CuError::CdpNotSupported => 811,
        CuError::CdpVersionMismatch => 812,
        CuError::StreamCaptureUnsupported => 900,
        CuError::StreamCaptureInvalidated => 901,
        CuError::StreamCaptureMerge => 902,
        CuError::StreamCaptureUnmatched => 903,
        CuError::StreamCaptureUnjoined => 904,
        CuError::StreamCaptureIsolation => 905,
        CuError::StreamCaptureImplicit => 906,
        CuError::CapturedEvent => 907,
        CuError::StreamCaptureWrongThread => 908,
        CuError::Timeout => 909,
        CuError::GraphExecUpdateFailure => 910,
        CuError::ExternalDevice => 911,
        CuError::InvalidClusterSize => 912,
        CuError::Unknown => 999,
    }
}

/// The kind registered for a numeric status code, if any. This is the whole
/// registry: a code is registered exactly when this function is `Some` on it.
pub open spec fn kind_of(code: int) -> Option<CuError> {
    if code == 1 {
        Some(CuError::InvalidValue)
    } else if code == 2 {
        Some(CuError::OutOfMemory)
    } else if code == 3 {
        Some(CuError::NotInitialized)
    } else if code == 4 {
        Some(CuError::Deinitialized)
    } else if code == 5 {
        Some(CuError::ProfilerDisabled)
    } else if code == 6 {
        Some(CuError::ProfilerNotInitialized)
    } else if code == 7 {
        Some(CuError::ProfilerAlreadyStarted)
    } else if code == 8 {
        Some(CuError::ProfilerAlreadyStopped)
    } else if code == 34 {
        Some(CuError::StubLibrary)
    } else if code == 46 {
        Some(CuError::DeviceUnavailable)
    } else if code == 100 {
        Some(CuError::NoDevice)
    } else if code == 101 {
        Some(CuError::InvalidDevice)
    } else if code == 102 {
        Some(CuError::DeviceNotLicensed)
    } else if code == 200 {
        Some(CuError::InvalidImage)
    } else if code == 201 {
        Some(CuError::InvalidContext)
    } else if code == 202 {
        Some(CuError::ContextAlreadyCurrent)
    } else if code == 205 {
        Some(CuError::MapFailed)
    } else if code == 206 {
        Some(CuError::UnmapFailed)
    } else if code == 207 {
        Some(CuError::ArrayIsMapped)
    } else if code == 208 {
        Some(CuError::AlreadyMapped)
    } else if code == 209 {
        Some(CuError::NoBinaryForGpu)
    } else if code == 210 {
        Some(CuError::AlreadyAcquired)
    } else if code == 211 {
        Some(CuError::NotMapped)
    } else if code == 212 {
        Some(CuError::NotMappedAsArray)
    } else if code == 213 {
        Some(CuError::NotMappedAsPointer)
    } else if code == 214 {
        Some(CuError::EccUncorrectable)
    } else if code == 215 {
        Some(CuError::UnsupportedLimit)
    } else if code == 216 {
        Some(CuError::ContextAlreadyInUse)
    } else if code == 217 {
        Some(CuError::PeerAccessUnsupported)
    } else if code == 218 {
        Some(CuError::InvalidPtx)
    } else if code == 219 {
        Some(CuError::InvalidGraphicsContext)
    } else if code == 220 {
        Some(CuError::NvlinkUncorrectable)
    } else if code == 221 {
        Some(CuError::JitCompilerNotFound)
    } else if code == 222 {
        Some(CuError::UnsupportedPtxVersion)
    } else if code == 223 {
        Some(CuError::JitCompilationDisabled)
    } else if code == 224 {
        Some(CuError::UnsupportedExecAffinity)
    } else if code == 225 {
        Some(CuError::UnsupportedDevsideSync)
    } else if code == 300 {
        Some(CuError::InvalidSource)
    } else if code == 301 {
        Some(CuError::FileNotFound)
    } else if code == 302 {
        Some(CuError::SharedObjectSymbolNotFound)
    } else if code == 303 {
        Some(CuError::SharedObjectInitFailed)
    } else if code == 304 {
        Some(CuError::OperatingSystem)
    } else if code == 400 {
        Some(CuError::InvalidHandle)
    } else if code == 401 {
        Some(CuError::IllegalState)
    } else if code == 500 {
        Some(CuError::NotFound)
    } else if code == 600 {
        Some(CuError::NotReady)
    } else if code == 700 {
        Some(CuError::IllegalAddress)
    } else if code == 701 {
        Some(CuError::LaunchOutOfResources)
    } else if code == 702 {
        Some(CuError::LaunchTimeout)
    } else if code == 703 {
        Some(CuError::LaunchIncompatibleTexturing)
    } else if code == 704 {
        Some(CuError::PeerAccessAlreadyEnabled)
    } else if code == 705 {
        Some(CuError::PeerAccessNotEnabled)
    } else if code == 708 {
        Some(CuError::PrimaryContextActive)
    } else if code == 709 {
        Some(CuError::ContextIsDestroyed)
    } else if code == 710 {
        Some(CuError::Assert)
    } else if code == 711 {
        Some(CuError::TooManyPeers)
    } else if code == 712 {
        Some(CuError::HostMemoryAlreadyRegistered)
    } else if code == 713 {
        Some(CuError::HostMemoryNotRegistered)
    } else if code == 714 {
        Some(CuError::HardwareStackError)
    } else if code == 715 {
        Some(CuError::IllegalInstruction)
    } else if code == 716 {
        Some(CuError::MisalignedAddress)
    } else if code == 717 {
        Some(CuError::InvalidAddressSpace)
    } else if code == 718 {
        Some(CuError::InvalidPc)
    } else if code == 719 {
        Some(CuError::LaunchFailed)
    } else if code == 720 {
        Some(CuError::CooperativeLaunchTooLarge)
    } else if code == 800 {
        Some(CuError::NotPermitted)
    } else if code == 801 {
        Some(CuError::NotSupported)
    } else if code == 802 {
        Some(CuError::SystemNotReady)
    } else if code == 803 {
        Some(CuError::SystemDriverMismatch)
    } else if code == 804 {
        Some(CuError::CompatNotSupportedOnDevice)
    } else if code == 805 {
        Some(CuError::MpsConnectionFailed)
    } else if code == 806 {
        Some(CuError::MpsRpcFailure)
    } else if code == 807 {
        Some(CuError::MpsServerNotReady)
    } else if code == 808 {
        Some(CuError::MpsMaxClientsReached)
    } else if code == 809 {
        Some(CuError::MpsMaxConnectionsReached)
    } else if code == 810 {
        Some(CuError::MpsClientTerminated)
    } else if code == 811 {
        Some(CuError::CdpNotSupported)
    } else if code == 812 {
        Some(CuError::CdpVersionMismatch)
    } else if code == 900 {
        Some(CuError::StreamCaptureUnsupported)
    } else if code == 901 {
        Some(CuError::StreamCaptureInvalidated)
    } else if code == 902 {
        Some(CuError::StreamCaptureMerge)
    } else if code == 903 {
        Some(CuError::StreamCaptureUnmatched)
    } else if code == 904 {
        Some(CuError::StreamCaptureUnjoined)
    } else if code == 905 {
        Some(CuError::StreamCaptureIsolation)
    } else if code == 906 {
        Some(CuError::StreamCaptureImplicit)
    } else if code == 907 {
        Some(CuError::CapturedEvent)
    } else if code == 908 {
        Some(CuError::StreamCaptureWrongThread)
    } else if code == 909 {
        Some(CuError::Timeout)
    } else if code == 910 {
        Some(CuError::GraphExecUpdateFailure)
    } else if code == 911 {
        Some(CuError::ExternalDevice)
    } else if code == 912 {
        Some(CuError::InvalidClusterSize)
    } else if code == 999 {
        Some(CuError::Unknown)
    } else {
        None
    }
}

/// Total classification: the registered kind where one exists, else `Unknown`.
pub open spec fn classify_spec(code: int) -> CuError {
    match kind_of(code) {
        Some(e) => e,
        None => CuError::Unknown,
    }
}

impl CuError {
    /// Looks up the kind registered for `code`, or `None` when `code` is
    /// not a registered status.
    pub fn from_i32(code: i32) -> (r: Option<CuError>)
        ensures
            r == kind_of(code as int),
    {
        match code {
            1 => Some(CuError::InvalidValue),
            2 => Some(CuError::OutOfMemory),
            3 => Some(CuError::NotInitialized),
            4 => Some(CuError::Deinitialized),
            5 => Some(CuError::ProfilerDisabled),
            6 => Some(CuError::ProfilerNotInitialized),
            7 => Some(CuError::ProfilerAlreadyStarted),
            8 => Some(CuError::ProfilerAlreadyStopped),
            34 => Some(CuError::StubLibrary),
            46 => Some(CuError::DeviceUnavailable),
            100 => Some(CuError::NoDevice),
            101 => Some(CuError::InvalidDevice),
            102 => Some(CuError::DeviceNotLicensed),
            200 => Some(CuError::InvalidImage),
            201 => Some(CuError::InvalidContext),
            202 => Some(CuError::ContextAlreadyCurrent),
            205 => Some(CuError::MapFailed),
            206 => Some(CuError::UnmapFailed),
            207 => Some(CuError::ArrayIsMapped),
            208 => Some(CuError::AlreadyMapped),
            209 => Some(CuError::NoBinaryForGpu),
            210 => Some(CuError::AlreadyAcquired),
            211 => Some(CuError::NotMapped),
            212 => Some(CuError::NotMappedAsArray),
            213 => Some(CuError::NotMappedAsPointer),
            214 => Some(CuError::EccUncorrectable),
            215 => Some(CuError::UnsupportedLimit),
            216 => Some(CuError::ContextAlreadyInUse),
            217 => Some(CuError::PeerAccessUnsupported),
            218 => Some(CuError::InvalidPtx),
            219 => Some(CuError::InvalidGraphicsContext),
            220 => Some(CuError::NvlinkUncorrectable),
            221 => Some(CuError::JitCompilerNotFound),
            222 => Some(CuError::UnsupportedPtxVersion),
            223 => Some(CuError::JitCompilationDisabled),
            224 => Some(CuError::UnsupportedExecAffinity),
            225 => Some(CuError::UnsupportedDevsideSync),
            300 => Some(CuError::InvalidSource),
            301 => Some(CuError::FileNotFound),
            302 => Some(CuError::SharedObjectSymbolNotFound),
            303 => Some(CuError::SharedObjectInitFailed),
            304 => Some(CuError::OperatingSystem),
            400 => Some(CuError::InvalidHandle),
            401 => Some(CuError::IllegalState),
            500 => Some(CuError::NotFound),
            600 => Some(CuError::NotReady),
            700 => Some(CuError::IllegalAddress),
            701 => Some(CuError::LaunchOutOfResources),
            702 => Some(CuError::LaunchTimeout),
            703 => Some(CuError::LaunchIncompatibleTexturing),
            704 => Some(CuError::PeerAccessAlreadyEnabled),
            705 => Some(CuError::PeerAccessNotEnabled),
            708 => Some(CuError::PrimaryContextActive),
            709 => Some(CuError::ContextIsDestroyed),
            710 => Some(CuError::Assert),
            711 => Some(CuError::TooManyPeers),
            712 => Some(CuError::HostMemoryAlreadyRegistered),
            713 => Some(CuError::HostMemoryNotRegistered),
            714 => Some(CuError::HardwareStackError),
            715 => Some(CuError::IllegalInstruction),
            716 => Some(CuError::MisalignedAddress),
            717 => Some(CuError::InvalidAddressSpace),
            718 => Some(CuError::InvalidPc),
            719 => Some(CuError::LaunchFailed),
            720 => Some(CuError::CooperativeLaunchTooLarge),
            800 => Some(CuError::NotPermitted),
            801 => Some(CuError::NotSupported),
            802 => Some(CuError::SystemNotReady),
            803 => Some(CuError::SystemDriverMismatch),
            804 => Some(CuError::CompatNotSupportedOnDevice),
            805 => Some(CuError::MpsConnectionFailed),
            806 => Some(CuError::MpsRpcFailure),
            807 => Some(CuError::MpsServerNotReady),
            808 => Some(CuError::MpsMaxClientsReached),
            809 => Some(CuError::MpsMaxConnectionsReached),
            810 => Some(CuError::MpsClientTerminated),
            811 => Some(CuError::CdpNotSupported),
            812 => Some(CuError::CdpVersionMismatch),
            900 => Some(CuError::StreamCaptureUnsupported),
            901 => Some(CuError::StreamCaptureInvalidated),
            902 => Some(CuError::StreamCaptureMerge),
            903 => Some(CuError::StreamCaptureUnmatched),
            904 => Some(CuError::StreamCaptureUnjoined),
            905 => Some(CuError::StreamCaptureIsolation),
            906 => Some(CuError::StreamCaptureImplicit),
            907 => Some(CuError::CapturedEvent),
            908 => Some(CuError::StreamCaptureWrongThread),
            909 => Some(CuError::Timeout),
            910 => Some(CuError::GraphExecUpdateFailure),
            911 => Some(CuError::ExternalDevice),
            912 => Some(CuError::InvalidClusterSize),
            999 => Some(CuError::Unknown),
            _ => None,
        }
    }

    /// The status code this kind is registered under.
    pub fn code(&self) -> (r: u32)
        ensures
            r as int == code_of(*self),
    {
        match self {
            CuError::InvalidValue => 1,
            CuError::OutOfMemory => 2,
            CuError::NotInitialized => 3,
            CuError::Deinitialized => 4,
            CuError::ProfilerDisabled => 5,
            CuError::ProfilerNotInitialized => 6,
            CuError::ProfilerAlreadyStarted => 7,
            CuError::ProfilerAlreadyStopped => 8,
            CuError::StubLibrary => 34,
            CuError::DeviceUnavailable => 46,
            CuError::NoDevice => 100,
            CuError::InvalidDevice => 101,
            CuError::DeviceNotLicensed => 102,
            CuError::InvalidImage => 200,
            CuError::InvalidContext => 201,
            CuError::ContextAlreadyCurrent => 202,
            CuError::MapFailed => 205,
            CuError::UnmapFailed => 206,
            CuError::ArrayIsMapped => 207,
            CuError::AlreadyMapped => 208,
            CuError::NoBinaryForGpu => 209,
            CuError::AlreadyAcquired => 210,
            CuError::NotMapped => 211,
            CuError::NotMappedAsArray => 212,
            CuError::NotMappedAsPointer => 213,
            CuError::EccUncorrectable => 214,
            CuError::UnsupportedLimit => 215,
            CuError::ContextAlreadyInUse => 216,
            CuError::PeerAccessUnsupported => 217,
            CuError::InvalidPtx => 218,
            CuError::InvalidGraphicsContext => 219,
            CuError::NvlinkUncorrectable => 220,
            CuError::JitCompilerNotFound => 221,
            CuError::UnsupportedPtxVersion => 222,
            CuError::JitCompilationDisabled => 223,
            CuError::UnsupportedExecAffinity => 224,
            CuError::UnsupportedDevsideSync => 225,
            CuError::InvalidSource => 300,
            CuError::FileNotFound => 301,
            CuError::SharedObjectSymbolNotFound => 302,
            CuError::SharedObjectInitFailed => 303,
            CuError::OperatingSystem => 304,
            CuError::InvalidHandle => 400,
            CuError::IllegalState => 401,
            CuError::NotFound => 500,
            CuError::NotReady => 600,
            CuError::IllegalAddress => 700,
            CuError::LaunchOutOfResources => 701,
            CuError::LaunchTimeout => 702,
            CuError::LaunchIncompatibleTexturing => 703,
            CuError::PeerAccessAlreadyEnabled => 704,
            CuError::PeerAccessNotEnabled => 705,
            CuError::PrimaryContextActive => 708,
            CuError::ContextIsDestroyed => 709,
            CuError::Assert => 710,
            CuError::TooManyPeers => 711,
            CuError::HostMemoryAlreadyRegistered => 712,
            CuError::HostMemoryNotRegistered => 713,
            CuError::HardwareStackError => 714,
            CuError::IllegalInstruction => 715,
            CuError::MisalignedAddress => 716,
            CuError::InvalidAddressSpace => 717,
            CuError::InvalidPc => 718,
            CuError::LaunchFailed => 719,
            CuError::CooperativeLaunchTooLarge => 720,
            CuError::NotPermitted => 800,
            CuError::NotSupported => 801,
            CuError::SystemNotReady => 802,
            CuError::SystemDriverMismatch => 803,
            CuError::CompatNotSupportedOnDevice => 804,
            CuError::MpsConnectionFailed => 805,
            CuError::MpsRpcFailure => 806,
            CuError::MpsServerNotReady => 807,
            CuError::MpsMaxClientsReached => 808,
            CuError::MpsMaxConnectionsReached => 809,
            CuError::MpsClientTerminated => 810,
            CuError::CdpNotSupported => 811,
            CuError::CdpVersionMismatch => 812,
            CuError::StreamCaptureUnsupported => 900,
            CuError::StreamCaptureInvalidated => 901,
            CuError::StreamCaptureMerge => 902,
            CuError::StreamCaptureUnmatched => 903,
            CuError::StreamCaptureUnjoined => 904,
            CuError::StreamCaptureIsolation => 905,
            CuError::StreamCaptureImplicit => 906,
            CuError::CapturedEvent => 907,
            CuError::StreamCaptureWrongThread => 908,
            CuError::Timeout => 909,
            CuError::GraphExecUpdateFailure => 910,
            CuError::ExternalDevice => 911,
            CuError::InvalidClusterSize => 912,
            CuError::Unknown => 999,
        }
    }
}

/// Maps a native status code to its error kind; any unregistered code maps
/// to `Unknown`, so classification never fails to produce a kind.
pub fn classify(code: u32) -> (r: CuError)
    ensures
        r == classify_spec(code as int),
{
    if code <= 999 {
        match CuError::from_i32(code as i32) {
            Some(e) => e,
            None => CuError::Unknown,
        }
    } else {
        CuError::Unknown
    }
}

/// Turns a raw status into a result: the success sentinel `0` is `Ok` and
/// every other status is classified into its error kind.
pub fn status_to_result(code: u32) -> (r: Result<(), CuError>)
    ensures
        code == 0 ==> r == Ok::<(), CuError>(()),
        code != 0 ==> r == Err::<(), CuError>(classify_spec(code as int)),
{
    if code == 0 {
        Ok(())
    } else {
        Err(classify(code))
    }
}

/// The result shape of every fallible operation in this library.
pub type CuResult<T> = Result<T, CuError>;

/// Every registered kind is recovered from its own code: the registry sends
/// `code_of(e)` back to `e`, so each kind stands under exactly one status
/// code and at most one kind is registered per code.
pub proof fn lemma_code_registered(e: CuError)
    ensures
        kind_of(code_of(e)) == Some(e),
{
}

} // verus!
