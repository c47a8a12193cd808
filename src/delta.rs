//! Options of the table maintenance operations, and how they are handed to the
//! table library's operation builders.
use vstd::prelude::*;
use vstd::string::StringExecFns;

use deltalake::operations::optimize::OptimizeBuilder;

verus! {

/// deltalake's builder of the optimize operation, carried through opaque.
#[verifier::external_type_specification]
#[verifier::external_body]
pub struct ExOptimizeBuilder<'a>(OptimizeBuilder<'a>);

/// chrono's signed span of time, carried through opaque.
#[verifier::external_type_specification]
#[verifier::external_body]
pub struct ExTimeDelta(chrono::TimeDelta);

/// chrono's error for a span it cannot hold.
#[verifier::external_type_specification]
#[verifier::external_body]
pub struct ExOutOfRangeError(chrono::OutOfRangeError);

/// Relies on deltalake's `OptimizeBuilder::with_target_size`, which sets the
/// target file size; nothing of the builder is observed here.
pub assume_specification<'a>[ OptimizeBuilder::<'a>::with_target_size ](
    builder: OptimizeBuilder<'a>,
    target: i64,
) -> OptimizeBuilder<'a>;

/// Relies on deltalake's `OptimizeBuilder::with_max_spill_size`, which sets
/// the spill limit; nothing of the builder is observed here.
pub assume_specification<'a>[ OptimizeBuilder::<'a>::with_max_spill_size ](
    builder: OptimizeBuilder<'a>,
    max_spill_size: usize,
) -> OptimizeBuilder<'a>;

/// Relies on deltalake's `OptimizeBuilder::with_max_concurrent_tasks`, which
/// sets the task limit; nothing of the builder is observed here.
pub assume_specification<'a>[ OptimizeBuilder::<'a>::with_max_concurrent_tasks ](
    builder: OptimizeBuilder<'a>,
    max_concurrent_tasks: usize,
) -> OptimizeBuilder<'a>;

/// Relies on deltalake's `OptimizeBuilder::with_preserve_insertion_order`,
/// which sets that flag; nothing of the builder is observed here.
pub assume_specification<'a>[ OptimizeBuilder::<'a>::with_preserve_insertion_order ](
    builder: OptimizeBuilder<'a>,
    preserve_insertion_order: bool,
) -> OptimizeBuilder<'a>;

/// Relies on deltalake's `OptimizeBuilder::with_min_commit_interval`, which
/// sets the commit interval; nothing of the builder is observed here.
pub assume_specification<'a>[ OptimizeBuilder::<'a>::with_min_commit_interval ](
    builder: OptimizeBuilder<'a>,
    min_commit_interval: std::time::Duration,
) -> OptimizeBuilder<'a>;

/// Supported options for the optimize operations, compaction and Z-ordering.
/// An option left `None` keeps the builder's own default.
pub struct OptimizeOptions {
    pub target_size: Option<i64>,
    pub max_spill_size: Option<usize>,
    pub max_concurrent_tasks: Option<usize>,
    pub preserve_insertion_order: Option<bool>,
    pub min_commit_interval: Option<std::time::Duration>,
}

impl OptimizeOptions {
    /// Sets on `builder` each option that holds a value, and leaves the rest
    /// of the builder as it was.
    pub fn configure<'a>(self, builder: OptimizeBuilder<'a>) -> OptimizeBuilder<'a> {
        let mut builder = builder;
        if let Some(size) = self.target_size {
            builder = builder.with_target_size(size);
        }
        if let Some(max_spill_size) = self.max_spill_size {
            builder = builder.with_max_spill_size(max_spill_size);
        }
        if let Some(max_concurrent_tasks) = self.max_concurrent_tasks {
            builder = builder.with_max_concurrent_tasks(max_concurrent_tasks);
        }
        if let Some(preserve_insertion_order) = self.preserve_insertion_order {
            builder = builder.with_preserve_insertion_order(preserve_insertion_order);
        }
        if let Some(min_commit_interval) = self.min_commit_interval {
            builder = builder.with_min_commit_interval(min_commit_interval);
        }
        builder
    }
}

/// The whole seconds of the longest span a `chrono::TimeDelta` holds,
/// `i64::MAX` milliseconds.
pub const TIME_DELTA_MAX_SECS: u64 = 9_223_372_036_854_775;

/// The nanoseconds beyond [`TIME_DELTA_MAX_SECS`] of that longest span.
pub const TIME_DELTA_MAX_NANOS: u32 = 807_000_000;

/// A span of `secs` seconds and `nanos` nanoseconds is at most `i64::MAX`
/// milliseconds long.
pub open spec fn fits_time_delta(secs: u64, nanos: u32) -> bool {
    secs < TIME_DELTA_MAX_SECS || (secs == TIME_DELTA_MAX_SECS && nanos <= TIME_DELTA_MAX_NANOS)
}

/// Relies on chrono's `TimeDelta::from_std`, which fails exactly when the
/// duration is longer than `TimeDelta::MAX`, `i64::MAX` milliseconds.
#[verifier::external_body]
fn time_delta_from_std(secs: u64, nanos: u32) -> (r: Result<chrono::TimeDelta, chrono::OutOfRangeError>)
    requires
        nanos < 1_000_000_000,
    ensures
        r.is_ok() == fits_time_delta(secs, nanos),
{
    chrono::TimeDelta::from_std(std::time::Duration::new(secs, nanos))
}

/// Options of the vacuum operation.
pub struct VacuumOptions {
    pub enforce_retention: bool,
    pub retention_period: Option<chrono::Duration>,
    pub dry_run: bool,
    pub print_files: bool,
}

/// The error of [`VacuumOptions::from_flags`].
#[derive(Debug, PartialEq, Eq)]
pub enum VacuumOptionsError {
    /// The retention period is longer than the table library can hold.
    InvalidRetentionPeriod,
}

impl VacuumOptionsError {
    /// The message shown to a user.
    pub fn message(&self) -> (r: String)
        ensures
            r@ == "invalid retention period"@,
    {
        String::from_str("invalid retention period")
    }
}

impl VacuumOptions {
    /// The options from the command line's flags. The retention period, when
    /// given, is whole seconds and the nanoseconds beyond them.
    pub fn from_flags(
        retention_period: Option<(u64, u32)>,
        no_enforce_retention: bool,
        dry_run: bool,
        print_files: bool,
    ) -> (r: Result<VacuumOptions, VacuumOptionsError>)
        requires
            retention_period matches Some((_, nanos)) ==> nanos < 1_000_000_000,
        ensures
            match r {
                Ok(options) => {
                    &&& options.enforce_retention == !no_enforce_retention
                    &&& options.dry_run == dry_run
                    &&& options.print_files == print_files
                    &&& options.retention_period.is_some() == retention_period.is_some()
                    &&& retention_period matches Some((secs, nanos)) ==> fits_time_delta(
                        secs,
                        nanos,
                    )
                },
                Err(e) => {
                    &&& e == VacuumOptionsError::InvalidRetentionPeriod
                    &&& retention_period matches Some((secs, nanos)) && !fits_time_delta(
                        secs,
                        nanos,
                    )
                },
            },
    {
        let retention_period = match retention_period {
            Some((secs, nanos)) => match time_delta_from_std(secs, nanos) {
                Ok(delta) => Some(delta),
                Err(_) => {
                    return Err(VacuumOptionsError::InvalidRetentionPeriod);
                },
            },
            None => None,
        };
        Ok(
            VacuumOptions {
                enforce_retention: !no_enforce_retention,
                retention_period,
                dry_run,
                print_files,
            },
        )
    }
}

} // verus!
