//! The decisions of setting up one already-materialized device: which
//! kernel attributes to write with which values, which special file to
//! format, and what each outcome of the formatter means.

use crate::config::Device;
use crate::text::{spec_i32_string, spec_u64_string, u64_to_string};
use vstd::prelude::*;

verus! {

/// One pending write of a value to a kernel attribute file.
#[derive(Clone, Debug)]
pub struct FileWrite {
    pub path: String,
    pub contents: String,
}

#[verifier::ext_equal]
pub struct FileWriteModel {
    pub path: Seq<char>,
    pub contents: Seq<char>,
}

impl View for FileWrite {
    type V = FileWriteModel;

    open spec fn view(&self) -> FileWriteModel {
        FileWriteModel { path: self.path@, contents: self.contents@ }
    }
}

/// The setup steps for one device, in order: optionally write the
/// compression algorithm, then write the size, then format the
/// device's special file.
#[derive(Clone, Debug)]
pub struct SetupPlan {
    pub algorithm_write: Option<FileWrite>,
    pub disksize_write: FileWrite,
    pub device_node: String,
}

#[verifier::ext_equal]
pub struct SetupPlanModel {
    pub algorithm_write: Option<FileWriteModel>,
    pub disksize_write: FileWriteModel,
    pub device_node: Seq<char>,
}

impl View for SetupPlan {
    type V = SetupPlanModel;

    open spec fn view(&self) -> SetupPlanModel {
        SetupPlanModel {
            algorithm_write: match self.algorithm_write {
                Some(ref w) => Some(w@),
                None => None,
            },
            disksize_write: self.disksize_write@,
            device_node: self.device_node@,
        }
    }
}

/// A fatal error while setting up one device.
#[derive(Clone, Debug)]
pub enum SetupError {
    /// No configuration declares the named device.
    DeviceNotFound { name: String },
    /// The formatter ran and exited with a non-zero code.
    FormatFailed { code: i32 },
    /// The formatter was killed by a signal.
    FormatSignaled { signal: i32 },
    /// The formatter could not be started at all.
    FormatSpawnFailed { message: String },
}

pub enum SetupErrorModel {
    DeviceNotFound { name: Seq<char> },
    FormatFailed { code: i32 },
    FormatSignaled { signal: i32 },
    FormatSpawnFailed { message: Seq<char> },
}

impl View for SetupError {
    type V = SetupErrorModel;

    open spec fn view(&self) -> SetupErrorModel {
        match self {
            SetupError::DeviceNotFound { name } => SetupErrorModel::DeviceNotFound { name: name@ },
            SetupError::FormatFailed { code } => SetupErrorModel::FormatFailed { code: *code },
            SetupError::FormatSignaled { signal } => SetupErrorModel::FormatSignaled {
                signal: *signal,
            },
            SetupError::FormatSpawnFailed { message } => SetupErrorModel::FormatSpawnFailed {
                message: message@,
            },
        }
    }
}

impl SetupError {
    /// The error's user-visible description.
    pub open spec fn spec_message(e: SetupErrorModel) -> Seq<char> {
        match e {
            SetupErrorModel::DeviceNotFound { name } => "Device "@ + name + " not found"@,
            SetupErrorModel::FormatFailed { code } => "mkswap failed with exit code "@
                + spec_i32_string(code as int),
            SetupErrorModel::FormatSignaled { signal } => "mkswap terminated by signal "@
                + spec_i32_string(signal as int),
            SetupErrorModel::FormatSpawnFailed { message } => "mkswap call failed: "@ + message,
        }
    }

    /// Renders the error for the user.
    pub fn message(&self) -> (r: String)
        ensures
            r@ == SetupError::spec_message(self@),
    {
        match self {
            SetupError::DeviceNotFound { name } => {
                let mut s = String::from_str("Device ");
                s.append(name.as_str());
                s.append(" not found");
                proof {
                    assert(s@ =~= SetupError::spec_message(self@));
                }
                s
            },
            SetupError::FormatFailed { code } => {
                let mut s = String::from_str("mkswap failed with exit code ");
                let digits = crate::text::i32_to_string(*code);
                s.append(digits.as_str());
                s
            },
            SetupError::FormatSignaled { signal } => {
                let mut s = String::from_str("mkswap terminated by signal ");
                let digits = crate::text::i32_to_string(*signal);
                s.append(digits.as_str());
                s
            },
            SetupError::FormatSpawnFailed { message } => {
                let mut s = String::from_str("mkswap call failed: ");
                s.append(message.as_str());
                s
            },
        }
    }
}

/// The kernel attribute directory of a device under the given root.
pub open spec fn spec_sysfs_dir(root: Seq<char>, name: Seq<char>) -> Seq<char> {
    root + "sys/block/"@ + name
}

/// The setup plan a resolved device denotes: write the configured
/// algorithm (when one is configured) to the device's algorithm
/// attribute, write the resolved size in decimal bytes to its size
/// attribute, and format its special file.
pub open spec fn spec_setup_plan(root: Seq<char>, d: crate::config::DeviceModel, name: Seq<char>) -> SetupPlanModel {
    SetupPlanModel {
        algorithm_write: match d.compression_algorithm {
            Some(a) => Some(
                FileWriteModel {
                    path: spec_sysfs_dir(root, name) + "/comp_algorithm"@,
                    contents: a,
                },
            ),
            None => None,
        },
        disksize_write: FileWriteModel {
            path: spec_sysfs_dir(root, name) + "/disksize"@,
            contents: spec_u64_string(d.disksize as int),
        },
        device_node: root + "dev/"@ + name,
    }
}

/// Resolves the steps that set up the named device; fails when no
/// configuration declares it.
pub fn device_setup_plan(root: &str, device: &Option<Device>, device_name: &str) -> (r: Result<
    SetupPlan,
    SetupError,
>)
    ensures
        device is None ==> (r matches Err(e) && e@ == (SetupErrorModel::DeviceNotFound {
            name: device_name@,
        })),
        device matches Some(d) ==> (r matches Ok(p) && p@ == spec_setup_plan(
            root@,
            d@,
            device_name@,
        )),
{
    let d = match device {
        Some(d) => d,
        None => {
            return Err(SetupError::DeviceNotFound { name: String::from_str(device_name) });
        },
    };
    let mut dir = String::from_str(root);
    dir.append("sys/block/");
    dir.append(device_name);
    let algorithm_write: Option<FileWrite> = match &d.compression_algorithm {
        Some(a) => {
            let mut p = dir.clone();
            p.append("/comp_algorithm");
            Some(FileWrite { path: p, contents: a.clone() })
        },
        None => None,
    };
    let mut size_path = dir.clone();
    size_path.append("/disksize");
    let disksize_write = FileWrite { path: size_path, contents: u64_to_string(d.disksize) };
    let mut node = String::from_str(root);
    node.append("dev/");
    node.append(device_name);
    let plan = SetupPlan { algorithm_write, disksize_write, device_node: node };
    proof {
        assert(plan@ =~~= spec_setup_plan(root@, d@, device_name@));
    }
    Ok(plan)
}

/// How the formatter ended: a normal exit with a code, death by a
/// signal, or a failure to start it at all.
#[derive(Clone, Debug)]
pub enum FormatOutcome {
    Exited { code: i32 },
    Signaled { signal: i32 },
    SpawnFailed { message: String },
}

/// Judges the formatter's outcome: only a clean zero exit is success;
/// any other exit code, a signal, or a spawn failure is a fatal error
/// naming it.
pub fn interpret_format_status(outcome: FormatOutcome) -> (r: Result<(), SetupError>)
    ensures
        (outcome matches FormatOutcome::Exited { code } && code == 0) <==> r is Ok,
        outcome matches FormatOutcome::Exited { code } ==> (code != 0 ==> (r matches Err(e) && e@
            == (SetupErrorModel::FormatFailed { code }))),
        outcome matches FormatOutcome::Signaled { signal } ==> (r matches Err(e) && e@
            == (SetupErrorModel::FormatSignaled { signal })),
        outcome matches FormatOutcome::SpawnFailed { message } ==> (r matches Err(e) && e@
            == (SetupErrorModel::FormatSpawnFailed { message: message@ })),
{
    match outcome {
        FormatOutcome::Exited { code } => {
            if code == 0 {
                Ok(())
            } else {
                Err(SetupError::FormatFailed { code })
            }
        },
        FormatOutcome::Signaled { signal } => Err(SetupError::FormatSignaled { signal }),
        FormatOutcome::SpawnFailed { message } => Err(SetupError::FormatSpawnFailed { message }),
    }
}

} // verus!
