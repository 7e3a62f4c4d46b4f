//! Configured bounds of an ingest and the working-memory partition.

use vstd::prelude::*;

use crate::error;
use crate::error::{limit_error, ErrorCode, ErrorView, IngestError};

verus! {

pub const DEFAULT_RECORD_BYTES: u64 = 1024 * 1024;
pub const DEFAULT_INPUT_BYTES: u64 = 8 * 1024 * 1024 * 1024;
pub const DEFAULT_PATH_BYTES: u64 = 64 * 1024;
pub const DEFAULT_CONTRIBUTOR_BYTES: u64 = 4 * 1024;
pub const DEFAULT_PATH_COMPONENTS: u64 = 256;
pub const DEFAULT_WORKING_MEMORY_BYTES: u64 = 128 * 1024 * 1024;
pub const DEFAULT_WORKING_DISK_BYTES: u64 = 16 * 1024 * 1024 * 1024;
pub const DEFAULT_RUN_FAN_IN: u64 = 32;

/// Bounds on what one ingest reads, keeps and publishes.
#[derive(Clone, Copy, Debug, PartialEq, Eq, Structural)]
pub struct IngestLimits {
    /// Maximum physical record size, including its optional LF delimiter.
    pub max_record_bytes: u64,
    /// Maximum finite source size, including BOM and line delimiters.
    pub max_input_bytes: u64,
    /// Maximum UTF-8 path byte length before lexical normalization.
    pub max_path_bytes: u64,
    /// Maximum normalized contributor byte length.
    pub max_contributor_bytes: u64,
    /// Maximum number of lexical path components.
    pub max_path_components: u64,
    /// Maximum number of normalized events in the indexed history.
    pub max_events: u64,
    /// Maximum bytes occupied by managed parser, merge, catalog, and index
    /// working state.
    pub working_memory_bytes: u64,
    /// Maximum number of sorted runs opened by one bounded merge pass.
    pub run_fan_in: u64,
    /// Maximum aggregate bytes occupied by encoded sort runs.
    pub working_disk_bytes: u64,
}

/// The limits used when nothing else is configured.
pub open spec fn default_limits() -> IngestLimits {
    IngestLimits {
        max_record_bytes: DEFAULT_RECORD_BYTES,
        max_input_bytes: DEFAULT_INPUT_BYTES,
        max_path_bytes: DEFAULT_PATH_BYTES,
        max_contributor_bytes: DEFAULT_CONTRIBUTOR_BYTES,
        max_path_components: DEFAULT_PATH_COMPONENTS,
        max_events: DEFAULT_INPUT_BYTES,
        working_memory_bytes: DEFAULT_WORKING_MEMORY_BYTES,
        run_fan_in: DEFAULT_RUN_FAN_IN,
        working_disk_bytes: DEFAULT_WORKING_DISK_BYTES,
    }
}

impl Default for IngestLimits {
    fn default() -> (limits: Self)
        ensures
            limits == default_limits(),
    {
        Self {
            max_record_bytes: DEFAULT_RECORD_BYTES,
            max_input_bytes: DEFAULT_INPUT_BYTES,
            max_path_bytes: DEFAULT_PATH_BYTES,
            max_contributor_bytes: DEFAULT_CONTRIBUTOR_BYTES,
            max_path_components: DEFAULT_PATH_COMPONENTS,
            max_events: DEFAULT_INPUT_BYTES,
            working_memory_bytes: DEFAULT_WORKING_MEMORY_BYTES,
            run_fan_in: DEFAULT_RUN_FAN_IN,
            working_disk_bytes: DEFAULT_WORKING_DISK_BYTES,
        }
    }
}

impl IngestLimits {
    pub fn with_max_record_bytes(self, value: u64) -> (limits: Self)
        ensures
            limits == (IngestLimits { max_record_bytes: value, ..self }),
    {
        Self { max_record_bytes: value, ..self }
    }

    pub fn with_max_input_bytes(self, value: u64) -> (limits: Self)
        ensures
            limits == (IngestLimits { max_input_bytes: value, ..self }),
    {
        Self { max_input_bytes: value, ..self }
    }

    pub fn with_max_path_bytes(self, value: u64) -> (limits: Self)
        ensures
            limits == (IngestLimits { max_path_bytes: value, ..self }),
    {
        Self { max_path_bytes: value, ..self }
    }

    pub fn with_max_contributor_bytes(self, value: u64) -> (limits: Self)
        ensures
            limits == (IngestLimits { max_contributor_bytes: value, ..self }),
    {
        Self { max_contributor_bytes: value, ..self }
    }

    pub fn with_max_path_components(self, value: u64) -> (limits: Self)
        ensures
            limits == (IngestLimits { max_path_components: value, ..self }),
    {
        Self { max_path_components: value, ..self }
    }

    pub fn with_max_events(self, value: u64) -> (limits: Self)
        ensures
            limits == (IngestLimits { max_events: value, ..self }),
    {
        Self { max_events: value, ..self }
    }

    pub fn with_working_memory_bytes(self, value: u64) -> (limits: Self)
        ensures
            limits == (IngestLimits { working_memory_bytes: value, ..self }),
    {
        Self { working_memory_bytes: value, ..self }
    }

    pub fn with_run_fan_in(self, value: u64) -> (limits: Self)
        ensures
            limits == (IngestLimits { run_fan_in: value, ..self }),
    {
        Self { run_fan_in: value, ..self }
    }

    pub fn with_max_run_fan_in(self, value: u64) -> (limits: Self)
        ensures
            limits == (IngestLimits { run_fan_in: value, ..self }),
    {
        self.with_run_fan_in(value)
    }

    pub fn with_working_disk_bytes(self, value: u64) -> (limits: Self)
        ensures
            limits == (IngestLimits { working_disk_bytes: value, ..self }),
    {
        Self { working_disk_bytes: value, ..self }
    }

    /// No configured bound is zero.
    pub open spec fn usable(self) -> bool {
        &&& self.max_record_bytes > 0
        &&& self.max_input_bytes > 0
        &&& self.max_path_bytes > 0
        &&& self.max_contributor_bytes > 0
        &&& self.max_path_components > 0
        &&& self.max_events > 0
        &&& self.working_memory_bytes > 0
        &&& self.run_fan_in > 0
        &&& self.working_disk_bytes > 0
    }

    /// The error for the first bound that is zero.
    pub open spec fn zero_bound(self) -> ErrorView {
        if self.max_record_bytes == 0 {
            error::bound_error(ErrorCode::RecordTooLarge, "max_record_bytes"@, 0)
        } else if self.max_input_bytes == 0 {
            error::bound_error(ErrorCode::InputTooLarge, "max_input_bytes"@, 0)
        } else if self.max_path_bytes == 0 {
            error::bound_error(ErrorCode::PathTooLong, "max_path_bytes"@, 0)
        } else if self.max_contributor_bytes == 0 {
            error::bound_error(ErrorCode::ContributorTooLong, "max_contributor_bytes"@, 0)
        } else if self.max_path_components == 0 {
            error::bound_error(ErrorCode::PathTooDeep, "max_path_components"@, 0)
        } else if self.max_events == 0 {
            error::bound_error(ErrorCode::EventCountLimit, "max_events"@, 0)
        } else if self.working_memory_bytes == 0 {
            error::bound_error(ErrorCode::WorkingMemoryLimit, "working_memory_bytes"@, 0)
        } else if self.run_fan_in == 0 {
            error::bound_error(ErrorCode::RunFanInLimit, "run_fan_in"@, 0)
        } else {
            error::bound_error(ErrorCode::WorkingDiskLimit, "working_disk_bytes"@, 0)
        }
    }

    /// Accepts the limits exactly when no bound is zero.
    pub fn validate(&self) -> (result: Result<(), IngestError>)
        ensures
            result is Ok <==> self.usable(),
            result matches Err(e) ==> e@ == self.zero_bound(),
    {
        if self.max_record_bytes == 0 {
            return Err(
                limit_error(ErrorCode::RecordTooLarge, "max_record_bytes", self.max_record_bytes),
            );
        }
        if self.max_input_bytes == 0 {
            return Err(
                limit_error(ErrorCode::InputTooLarge, "max_input_bytes", self.max_input_bytes),
            );
        }
        if self.max_path_bytes == 0 {
            return Err(limit_error(ErrorCode::PathTooLong, "max_path_bytes", self.max_path_bytes));
        }
        if self.max_contributor_bytes == 0 {
            return Err(
                limit_error(
                    ErrorCode::ContributorTooLong,
                    "max_contributor_bytes",
                    self.max_contributor_bytes,
                ),
            );
        }
        if self.max_path_components == 0 {
            return Err(
                limit_error(ErrorCode::PathTooDeep, "max_path_components", self.max_path_components),
            );
        }
        if self.max_events == 0 {
            return Err(limit_error(ErrorCode::EventCountLimit, "max_events", self.max_events));
        }
        if self.working_memory_bytes == 0 {
            return Err(
                limit_error(
                    ErrorCode::WorkingMemoryLimit,
                    "working_memory_bytes",
                    self.working_memory_bytes,
                ),
            );
        }
        if self.run_fan_in == 0 {
            return Err(limit_error(ErrorCode::RunFanInLimit, "run_fan_in", self.run_fan_in));
        }
        if self.working_disk_bytes == 0 {
            return Err(
                limit_error(
                    ErrorCode::WorkingDiskLimit,
                    "working_disk_bytes",
                    self.working_disk_bytes,
                ),
            );
        }
        Ok(())
    }
}

/// The parser's half of a working-memory budget.
pub open spec fn parser_share(total: u64) -> u64 {
    total / 2
}

/// The index builder's half of a working-memory budget.
pub open spec fn index_share(total: u64) -> u64 {
    (total - total / 2) as u64
}

/// The parser and the index builder use disjoint shares that together are
/// the whole budget, for odd budgets too.
pub proof fn shares_partition_the_budget(total: u64)
    ensures
        parser_share(total) + index_share(total) == total,
        parser_share(total) <= index_share(total) <= parser_share(total) + 1,
{
}

pub fn parser_working_memory_bytes(total: u64) -> (share: u64)
    ensures
        share == parser_share(total),
{
    total / 2
}

pub fn index_working_memory_bytes(total: u64) -> (share: u64)
    ensures
        share == index_share(total),
{
    total - parser_working_memory_bytes(total)
}

/// The read-ahead buffer inside a parser share: a sixteenth of at most
/// 8192 bytes, rounded up.
pub open spec fn buffer_share(parser_limit: u64) -> u64 {
    let bounded: int = if parser_limit < 8192 {
        parser_limit as int
    } else {
        8192
    };
    ((bounded + 15) / 16) as u64
}

/// What the read-ahead buffer leaves of a parser share.
pub open spec fn payload_share(parser_limit: u64) -> u64 {
    (parser_limit - buffer_share(parser_limit)) as u64
}

pub fn parser_buffer_bytes(parser_limit: u64) -> (bytes: u64)
    ensures
        bytes == buffer_share(parser_limit),
{
    if parser_limit == 0 {
        return 0;
    }
    let bounded: u64 = if parser_limit < 8192 {
        parser_limit
    } else {
        8192
    };
    (bounded + 15) / 16
}

pub fn parser_payload_bytes(parser_limit: u64) -> (bytes: u64)
    ensures
        bytes == payload_share(parser_limit),
        bytes + buffer_share(parser_limit) == parser_limit,
{
    parser_limit - parser_buffer_bytes(parser_limit)
}

} // verus!
