//! Clone and fetch measurements and resource limits.
//!
//! Nothing here reads a clock. Callers measure durations and backend work at their adapter
//! boundaries and record those observations.

use crate::clock::{Duration, MAX_DURATION_NANOS};
use crate::object::ObjectKind;
use vstd::prelude::*;

verus! {

/// Clone and fetch processing phase.
#[derive(Clone, Copy, Debug, PartialEq, Eq, Structural)]
pub enum ClonePhase {
    /// Wants, haves and capabilities are negotiated.
    Negotiation,
    /// The wants-minus-haves closure is discovered.
    Reachability,
    /// Object representations and pack order are planned.
    PackPlan,
    /// Time from accepted request to the first response byte.
    FirstByte,
    /// Object compression and delta work.
    Compression,
    /// Complete request lifetime.
    Total,
}

/// Backend serving a clone request.
#[derive(Clone, Copy, Debug, PartialEq, Eq, Structural)]
pub enum CloneBackendKind {
    /// Backend identity was not exposed by the caller.
    Unspecified,
    /// In-memory storage.
    Memory,
    /// PostgreSQL with database-resident payload bytes.
    Postgres,
    /// PostgreSQL metadata with external immutable bytes.
    ExternalizedPostgres,
    /// A storage backend behind the shared cache layer.
    Cached,
}

impl Default for CloneBackendKind {
    fn default() -> (kind: Self)
        ensures
            kind == CloneBackendKind::Unspecified,
    {
        CloneBackendKind::Unspecified
    }
}

/// Terminal clone or fetch outcome.
#[derive(Clone, Copy, Debug, PartialEq, Eq, Structural)]
pub enum CloneOutcome {
    /// Response completed.
    Success,
    /// Safety or admission limits rejected the request.
    Rejected,
    /// Cancellation or client disconnect stopped work.
    Cancelled,
    /// Storage work failed.
    BackendFailure,
    /// Negotiation, pack or wire-protocol work failed.
    ProtocolFailure,
}

/// Cache behaviour observed for a clone request.
#[derive(Clone, Copy, Debug, PartialEq, Eq, Structural)]
pub struct CloneCacheMetrics {
    /// Successful cache lookups.
    pub hits: u64,
    /// Lookups that required origin work.
    pub misses: u64,
    /// Time waiting for a shared producer.
    pub singleflight_wait: Duration,
}

/// Selected objects and payload volumes of one object kind.
#[derive(Clone, Copy, Debug, PartialEq, Eq, Structural)]
pub struct CloneObjectKindMetrics {
    /// Selected object count.
    pub selected: u64,
    /// Decoded payload bytes.
    pub decoded_bytes: u64,
    /// Compressed entry bytes written or copied.
    pub compressed_bytes: u64,
}

/// Per-kind clone payload metrics.
#[derive(Clone, Copy, Debug, PartialEq, Eq, Structural)]
pub struct CloneObjectMetrics {
    /// Blob metrics.
    pub blobs: CloneObjectKindMetrics,
    /// Tree metrics.
    pub trees: CloneObjectKindMetrics,
    /// Commit metrics.
    pub commits: CloneObjectKindMetrics,
    /// Annotated-tag metrics.
    pub tags: CloneObjectKindMetrics,
}

/// The sum of two counters, stopping at the largest 64-bit number.
pub open spec fn saturated(left: int, right: int) -> int {
    if left + right > u64::MAX {
        u64::MAX as int
    } else {
        left + right
    }
}

/// The larger of two numbers.
pub open spec fn larger(left: u64, right: u64) -> u64 {
    if left >= right {
        left
    } else {
        right
    }
}

fn max_u64(left: u64, right: u64) -> (largest: u64)
    ensures
        largest == larger(left, right),
{
    if left >= right {
        left
    } else {
        right
    }
}

impl CloneObjectMetrics {
    /// The counters of one kind.
    pub open spec fn of(self, kind: ObjectKind) -> CloneObjectKindMetrics {
        match kind {
            ObjectKind::Blob => self.blobs,
            ObjectKind::Tree => self.trees,
            ObjectKind::Commit => self.commits,
            ObjectKind::Tag => self.tags,
        }
    }

    /// The metrics with the counters of one kind replaced.
    pub open spec fn with(
        self,
        kind: ObjectKind,
        counters: CloneObjectKindMetrics,
    ) -> CloneObjectMetrics {
        match kind {
            ObjectKind::Blob => CloneObjectMetrics { blobs: counters, ..self },
            ObjectKind::Tree => CloneObjectMetrics { trees: counters, ..self },
            ObjectKind::Commit => CloneObjectMetrics { commits: counters, ..self },
            ObjectKind::Tag => CloneObjectMetrics { tags: counters, ..self },
        }
    }

    fn kind_mut(&mut self, kind: ObjectKind) -> (slot: &mut CloneObjectKindMetrics)
        ensures
            *slot == old(self).of(kind),
            *final(self) == old(self).with(kind, *final(slot)),
    {
        match kind {
            ObjectKind::Blob => &mut self.blobs,
            ObjectKind::Tree => &mut self.trees,
            ObjectKind::Commit => &mut self.commits,
            ObjectKind::Tag => &mut self.tags,
        }
    }

    /// Return the saturating selected-object total across all kinds.
    pub fn selected_total(self) -> (total: u64)
        ensures
            total == saturated(
                self.blobs.selected + self.trees.selected,
                self.commits.selected + self.tags.selected,
            ),
    {
        self.blobs.selected.saturating_add(self.trees.selected).saturating_add(
            self.commits.selected,
        ).saturating_add(self.tags.selected)
    }
}

/// Backend requests and returned byte volumes.
#[derive(Clone, Copy, Debug, PartialEq, Eq, Structural)]
pub struct CloneBackendMetrics {
    /// Database statements.
    pub database_statements: u64,
    /// Database payload bytes returned.
    pub database_bytes: u64,
    /// Whole-object external GETs.
    pub external_gets: u64,
    /// External range GETs.
    pub external_range_gets: u64,
    /// External payload bytes returned.
    pub external_bytes: u64,
}

/// Pack encoding output metrics.
#[derive(Clone, Copy, Debug, PartialEq, Eq, Structural)]
pub struct ClonePackMetrics {
    /// Raw PACK bytes, including header and trailer.
    pub output_bytes: u64,
    /// Delta entry count.
    pub delta_entries: u64,
    /// Largest emitted delta-chain depth.
    pub maximum_delta_depth: u32,
}

/// Peak in-flight memory observations.
#[derive(Clone, Copy, Debug, PartialEq, Eq, Structural)]
pub struct CloneMemoryMetrics {
    /// Peak decoded object bytes.
    pub decoded_bytes: u64,
    /// Peak retained delta-base bytes.
    pub delta_base_bytes: u64,
    /// Peak encoded bytes waiting for output.
    pub encoded_bytes: u64,
    /// Peak separately retained wire-response bytes.
    pub response_bytes: u64,
    /// Peak total request-owned bytes.
    pub total_bytes: u64,
}

/// Cancellation responsiveness and discarded work.
#[derive(Clone, Copy, Debug, PartialEq, Eq, Structural)]
pub struct CloneCancellationMetrics {
    /// Time between cancellation observation and worker quiescence.
    pub latency: Option<Duration>,
    /// Backend bytes completed after cancellation.
    pub wasted_backend_bytes: u64,
    /// CPU work units completed after cancellation.
    pub wasted_cpu_units: u64,
}

/// Phase-duration observations.
#[derive(Clone, Copy, Debug, PartialEq, Eq, Structural)]
pub struct ClonePhaseMetrics {
    /// Negotiation duration.
    pub negotiation: Option<Duration>,
    /// Reachability duration.
    pub reachability: Option<Duration>,
    /// Pack planning duration.
    pub pack_plan: Option<Duration>,
    /// Time to first byte.
    pub first_byte: Option<Duration>,
    /// Compression duration.
    pub compression: Option<Duration>,
    /// Total duration.
    pub total: Option<Duration>,
}

/// A recorded duration is longer than `limit`.
pub open spec fn longer(observation: Option<Duration>, limit: Duration) -> bool {
    observation is Some && observation->0.nanos > limit.nanos
}

fn is_longer(observation: Option<Duration>, limit: Duration) -> (exceeds: bool)
    ensures
        exceeds == longer(observation, limit),
{
    match observation {
        Some(span) => span.nanos > limit.nanos,
        None => false,
    }
}

impl ClonePhaseMetrics {
    /// The recorded duration of one phase.
    pub open spec fn of(self, phase: ClonePhase) -> Option<Duration> {
        match phase {
            ClonePhase::Negotiation => self.negotiation,
            ClonePhase::Reachability => self.reachability,
            ClonePhase::PackPlan => self.pack_plan,
            ClonePhase::FirstByte => self.first_byte,
            ClonePhase::Compression => self.compression,
            ClonePhase::Total => self.total,
        }
    }

    /// The phases with one of them set.
    pub open spec fn with(self, phase: ClonePhase, duration: Duration) -> ClonePhaseMetrics {
        match phase {
            ClonePhase::Negotiation => ClonePhaseMetrics { negotiation: Some(duration), ..self },
            ClonePhase::Reachability => ClonePhaseMetrics { reachability: Some(duration), ..self },
            ClonePhase::PackPlan => ClonePhaseMetrics { pack_plan: Some(duration), ..self },
            ClonePhase::FirstByte => ClonePhaseMetrics { first_byte: Some(duration), ..self },
            ClonePhase::Compression => ClonePhaseMetrics { compression: Some(duration), ..self },
            ClonePhase::Total => ClonePhaseMetrics { total: Some(duration), ..self },
        }
    }

    /// No recorded component is longer than the recorded total.
    pub open spec fn consistent(self) -> bool {
        self.total is Some ==> !self.component_above(self.total->0)
    }

    /// Some recorded component is longer than `limit`.
    pub open spec fn component_above(self, limit: Duration) -> bool {
        ||| longer(self.negotiation, limit)
        ||| longer(self.reachability, limit)
        ||| longer(self.pack_plan, limit)
        ||| longer(self.first_byte, limit)
        ||| longer(self.compression, limit)
    }

    /// The observation is the phase's first and keeps every component within the total.
    pub open spec fn accepts(self, phase: ClonePhase, duration: Duration) -> bool {
        &&& self.of(phase) is None
        &&& phase == ClonePhase::Total ==> !self.component_above(duration)
        &&& phase != ClonePhase::Total && self.total is Some ==> duration.nanos
            <= self.total->0.nanos
    }
}

/// Point-in-time clone and fetch metrics report.
#[derive(Clone, Copy, Debug, PartialEq, Eq, Structural)]
pub struct CloneMetricsReport {
    /// Serving backend.
    pub backend: CloneBackendKind,
    /// Terminal outcome, or nothing while the request is in progress.
    pub outcome: Option<CloneOutcome>,
    /// Phase timings.
    pub phases: ClonePhaseMetrics,
    /// Total objects selected by the planner.
    pub selected_objects: u64,
    /// Per-kind payload work.
    pub objects: CloneObjectMetrics,
    /// Cache observations.
    pub cache: CloneCacheMetrics,
    /// Database and external-service observations.
    pub backend_io: CloneBackendMetrics,
    /// Pack output and delta shape.
    pub pack: ClonePackMetrics,
    /// Peak request-owned memory.
    pub memory: CloneMemoryMetrics,
    /// Cancellation and wasted work.
    pub cancellation: CloneCancellationMetrics,
}

/// Counters of a kind of which nothing was selected.
pub open spec fn no_objects() -> CloneObjectKindMetrics {
    CloneObjectKindMetrics { selected: 0, decoded_bytes: 0, compressed_bytes: 0 }
}

/// The report of a request of which nothing was recorded.
pub open spec fn empty_report(backend: CloneBackendKind) -> CloneMetricsReport {
    CloneMetricsReport {
        backend,
        outcome: None,
        phases: ClonePhaseMetrics {
            negotiation: None,
            reachability: None,
            pack_plan: None,
            first_byte: None,
            compression: None,
            total: None,
        },
        selected_objects: 0,
        objects: CloneObjectMetrics {
            blobs: no_objects(),
            trees: no_objects(),
            commits: no_objects(),
            tags: no_objects(),
        },
        cache: CloneCacheMetrics { hits: 0, misses: 0, singleflight_wait: Duration { nanos: 0 } },
        backend_io: CloneBackendMetrics {
            database_statements: 0,
            database_bytes: 0,
            external_gets: 0,
            external_range_gets: 0,
            external_bytes: 0,
        },
        pack: ClonePackMetrics { output_bytes: 0, delta_entries: 0, maximum_delta_depth: 0 },
        memory: CloneMemoryMetrics {
            decoded_bytes: 0,
            delta_base_bytes: 0,
            encoded_bytes: 0,
            response_bytes: 0,
            total_bytes: 0,
        },
        cancellation: CloneCancellationMetrics {
            latency: None,
            wasted_backend_bytes: 0,
            wasted_cpu_units: 0,
        },
    }
}

/// Saturating recorder for one clone or fetch request.
#[derive(Clone, Copy, Debug)]
pub struct CloneMetricsRecorder {
    report: CloneMetricsReport,
    pack_recorded: bool,
}

impl CloneMetricsRecorder {
    /// What was recorded.
    pub closed spec fn spec_report(self) -> CloneMetricsReport {
        self.report
    }

    /// Whether the final pack shape was recorded.
    pub closed spec fn spec_pack_recorded(self) -> bool {
        self.pack_recorded
    }

    /// Create a recorder for one backend.
    pub fn new(backend: CloneBackendKind) -> (recorder: Self)
        ensures
            recorder.spec_report() == empty_report(backend),
            !recorder.spec_pack_recorded(),
    {
        let none = CloneObjectKindMetrics { selected: 0, decoded_bytes: 0, compressed_bytes: 0 };
        CloneMetricsRecorder {
            report: CloneMetricsReport {
                backend,
                outcome: None,
                phases: ClonePhaseMetrics {
                    negotiation: None,
                    reachability: None,
                    pack_plan: None,
                    first_byte: None,
                    compression: None,
                    total: None,
                },
                selected_objects: 0,
                objects: CloneObjectMetrics { blobs: none, trees: none, commits: none, tags: none },
                cache: CloneCacheMetrics {
                    hits: 0,
                    misses: 0,
                    singleflight_wait: Duration { nanos: 0 },
                },
                backend_io: CloneBackendMetrics {
                    database_statements: 0,
                    database_bytes: 0,
                    external_gets: 0,
                    external_range_gets: 0,
                    external_bytes: 0,
                },
                pack: ClonePackMetrics { output_bytes: 0, delta_entries: 0, maximum_delta_depth: 0 },
                memory: CloneMemoryMetrics {
                    decoded_bytes: 0,
                    delta_base_bytes: 0,
                    encoded_bytes: 0,
                    response_bytes: 0,
                    total_bytes: 0,
                },
                cancellation: CloneCancellationMetrics {
                    latency: None,
                    wasted_backend_bytes: 0,
                    wasted_cpu_units: 0,
                },
            },
            pack_recorded: false,
        }
    }

    /// Record one phase duration once.
    ///
    /// Returns `false` and changes nothing when the phase was already recorded, or when a component
    /// would be longer than the total.
    pub fn record_phase(&mut self, phase: ClonePhase, duration: Duration) -> (recorded: bool)
        ensures
            recorded == old(self).spec_report().phases.accepts(phase, duration),
            !recorded ==> *final(self) == *old(self),
            final(self).spec_pack_recorded() == old(self).spec_pack_recorded(),
            recorded ==> final(self).spec_report() == (CloneMetricsReport {
                phases: old(self).spec_report().phases.with(phase, duration),
                ..old(self).spec_report()
            }),
            old(self).spec_report().phases.consistent()
                ==> final(self).spec_report().phases.consistent(),
    {
        let phases = self.report.phases;
        if phase == ClonePhase::Total {
            if is_longer(phases.negotiation, duration) || is_longer(phases.reachability, duration)
                || is_longer(phases.pack_plan, duration) || is_longer(phases.first_byte, duration)
                || is_longer(phases.compression, duration) {
                return false;
            }
        } else if let Some(total) = phases.total {
            if duration.nanos > total.nanos {
                return false;
            }
        }
        let slot = match phase {
            ClonePhase::Negotiation => &mut self.report.phases.negotiation,
            ClonePhase::Reachability => &mut self.report.phases.reachability,
            ClonePhase::PackPlan => &mut self.report.phases.pack_plan,
            ClonePhase::FirstByte => &mut self.report.phases.first_byte,
            ClonePhase::Compression => &mut self.report.phases.compression,
            ClonePhase::Total => &mut self.report.phases.total,
        };
        if slot.is_some() {
            return false;
        }
        *slot = Some(duration);
        true
    }

    /// Record the planner's total selected object count.
    pub fn record_selected_objects(&mut self, selected: u64)
        ensures
            final(self).spec_pack_recorded() == old(self).spec_pack_recorded(),
            final(self).spec_report() == (CloneMetricsReport {
                selected_objects: selected,
                ..old(self).spec_report()
            }),
    {
        self.report.selected_objects = selected;
    }

    /// Add objects of one kind and their payload bytes.
    pub fn record_objects(
        &mut self,
        kind: ObjectKind,
        selected: u64,
        decoded_bytes: u64,
        compressed_bytes: u64,
    )
        ensures
            final(self).spec_pack_recorded() == old(self).spec_pack_recorded(),
            final(self).spec_report() == ({
                let before = old(self).spec_report().objects.of(kind);
                let after = CloneObjectKindMetrics {
                    selected: saturated(before.selected as int, selected as int) as u64,
                    decoded_bytes: saturated(
                        before.decoded_bytes as int,
                        decoded_bytes as int,
                    ) as u64,
                    compressed_bytes: saturated(
                        before.compressed_bytes as int,
                        compressed_bytes as int,
                    ) as u64,
                };
                CloneMetricsReport {
                    objects: old(self).spec_report().objects.with(kind, after),
                    ..old(self).spec_report()
                }
            }),
    {
        let metrics = self.report.objects.kind_mut(kind);
        metrics.selected = metrics.selected.saturating_add(selected);
        metrics.decoded_bytes = metrics.decoded_bytes.saturating_add(decoded_bytes);
        metrics.compressed_bytes = metrics.compressed_bytes.saturating_add(compressed_bytes);
    }

    /// Add cache observations and singleflight wait time.
    pub fn record_cache(&mut self, hits: u64, misses: u64, singleflight_wait: Duration)
        ensures
            final(self).spec_pack_recorded() == old(self).spec_pack_recorded(),
            ({
                let before = old(self).spec_report().cache;
                let after = final(self).spec_report().cache;
                &&& after.hits == saturated(before.hits as int, hits as int)
                &&& after.misses == saturated(before.misses as int, misses as int)
                &&& after.singleflight_wait.nanos == if before.singleflight_wait.nanos
                    + singleflight_wait.nanos > MAX_DURATION_NANOS {
                    MAX_DURATION_NANOS as int
                } else {
                    before.singleflight_wait.nanos + singleflight_wait.nanos
                }
                &&& final(self).spec_report() == (CloneMetricsReport {
                    cache: after,
                    ..old(self).spec_report()
                })
            }),
    {
        self.report.cache.hits = self.report.cache.hits.saturating_add(hits);
        self.report.cache.misses = self.report.cache.misses.saturating_add(misses);
        self.report.cache.singleflight_wait = self.report.cache.singleflight_wait.saturating_add(
            singleflight_wait,
        );
    }

    /// Add database work.
    pub fn record_database(&mut self, statements: u64, bytes: u64)
        ensures
            final(self).spec_pack_recorded() == old(self).spec_pack_recorded(),
            final(self).spec_report() == (CloneMetricsReport {
                backend_io: CloneBackendMetrics {
                    database_statements: saturated(
                        old(self).spec_report().backend_io.database_statements as int,
                        statements as int,
                    ) as u64,
                    database_bytes: saturated(
                        old(self).spec_report().backend_io.database_bytes as int,
                        bytes as int,
                    ) as u64,
                    ..old(self).spec_report().backend_io
                },
                ..old(self).spec_report()
            }),
    {
        self.report.backend_io.database_statements =
        self.report.backend_io.database_statements.saturating_add(statements);
        self.report.backend_io.database_bytes = self.report.backend_io.database_bytes.saturating_add(
            bytes,
        );
    }

    /// Add external whole and range GET work.
    pub fn record_external(&mut self, gets: u64, range_gets: u64, bytes: u64)
        ensures
            final(self).spec_pack_recorded() == old(self).spec_pack_recorded(),
            final(self).spec_report() == (CloneMetricsReport {
                backend_io: CloneBackendMetrics {
                    external_gets: saturated(
                        old(self).spec_report().backend_io.external_gets as int,
                        gets as int,
                    ) as u64,
                    external_range_gets: saturated(
                        old(self).spec_report().backend_io.external_range_gets as int,
                        range_gets as int,
                    ) as u64,
                    external_bytes: saturated(
                        old(self).spec_report().backend_io.external_bytes as int,
                        bytes as int,
                    ) as u64,
                    ..old(self).spec_report().backend_io
                },
                ..old(self).spec_report()
            }),
    {
        self.report.backend_io.external_gets = self.report.backend_io.external_gets.saturating_add(
            gets,
        );
        self.report.backend_io.external_range_gets =
        self.report.backend_io.external_range_gets.saturating_add(range_gets);
        self.report.backend_io.external_bytes = self.report.backend_io.external_bytes.saturating_add(
            bytes,
        );
    }

    /// Record final pack size and delta shape once; a later call returns `false`.
    pub fn record_pack(
        &mut self,
        output_bytes: u64,
        delta_entries: u64,
        maximum_depth: u32,
    ) -> (recorded: bool)
        ensures
            recorded == !old(self).spec_pack_recorded(),
            !recorded ==> *final(self) == *old(self),
            final(self).spec_pack_recorded(),
            recorded ==> final(self).spec_report() == (CloneMetricsReport {
                pack: ClonePackMetrics {
                    output_bytes,
                    delta_entries,
                    maximum_delta_depth: maximum_depth,
                },
                ..old(self).spec_report()
            }),
    {
        if self.pack_recorded {
            return false;
        }
        self.report.pack.output_bytes = output_bytes;
        self.report.pack.delta_entries = delta_entries;
        self.report.pack.maximum_delta_depth = maximum_depth;
        self.pack_recorded = true;
        true
    }

    /// Raise memory high-water marks without lowering any.
    pub fn observe_memory(&mut self, observation: CloneMemoryMetrics)
        ensures
            final(self).spec_pack_recorded() == old(self).spec_pack_recorded(),
            ({
                let before = old(self).spec_report().memory;
                let decoded = larger(before.decoded_bytes, observation.decoded_bytes);
                let base = larger(before.delta_base_bytes, observation.delta_base_bytes);
                let encoded = larger(before.encoded_bytes, observation.encoded_bytes);
                let response = larger(before.response_bytes, observation.response_bytes);
                final(self).spec_report() == (CloneMetricsReport {
                    memory: CloneMemoryMetrics {
                        decoded_bytes: decoded,
                        delta_base_bytes: base,
                        encoded_bytes: encoded,
                        response_bytes: response,
                        total_bytes: larger(
                            larger(before.total_bytes, observation.total_bytes),
                            saturated(decoded + base, encoded + response) as u64,
                        ),
                    },
                    ..old(self).spec_report()
                })
            }),
    {
        let before = self.report.memory;
        let decoded_bytes: u64 = max_u64(before.decoded_bytes, observation.decoded_bytes);
        let delta_base_bytes: u64 = max_u64(before.delta_base_bytes, observation.delta_base_bytes);
        let encoded_bytes: u64 = max_u64(before.encoded_bytes, observation.encoded_bytes);
        let response_bytes: u64 = max_u64(before.response_bytes, observation.response_bytes);
        let category_total: u64 = decoded_bytes.saturating_add(delta_base_bytes).saturating_add(
            encoded_bytes,
        ).saturating_add(response_bytes);
        self.report.memory = CloneMemoryMetrics {
            decoded_bytes,
            delta_base_bytes,
            encoded_bytes,
            response_bytes,
            total_bytes: max_u64(
                max_u64(before.total_bytes, observation.total_bytes),
                category_total,
            ),
        };
    }

    /// Record cancellation latency and work completed after cancellation.
    pub fn record_cancellation(&mut self, metrics: CloneCancellationMetrics)
        ensures
            final(self).spec_pack_recorded() == old(self).spec_pack_recorded(),
            final(self).spec_report() == (CloneMetricsReport {
                cancellation: metrics,
                ..old(self).spec_report()
            }),
    {
        self.report.cancellation = metrics;
    }

    /// Set the first terminal outcome and return the report; later outcomes change nothing.
    pub fn finish(&mut self, outcome: CloneOutcome) -> (report: CloneMetricsReport)
        ensures
            final(self).spec_pack_recorded() == old(self).spec_pack_recorded(),
            report == final(self).spec_report(),
            report == finished(old(self).spec_report(), outcome),
    {
        if self.report.outcome.is_none() {
            self.report.outcome = Some(outcome);
        }
        self.report
    }

    /// Return the report so far.
    pub fn snapshot(&self) -> (report: CloneMetricsReport)
        ensures
            report == self.spec_report(),
    {
        self.report
    }
}

/// Clone and fetch allocation and execution limits.
#[derive(Clone, Copy, Debug, PartialEq, Eq, Structural)]
pub struct CloneLimits {
    /// Maximum request wants.
    pub max_wants: usize,
    /// Maximum request haves.
    pub max_haves: usize,
    /// Maximum selected objects.
    pub max_selected_objects: usize,
    /// Maximum raw pack output bytes.
    pub max_output_bytes: u64,
    /// Maximum caller-enforced request duration.
    pub max_duration: Duration,
    /// Maximum read and decode workers.
    pub read_workers: usize,
    /// Maximum compression workers.
    pub compression_workers: usize,
    /// Maximum decoded bytes in flight.
    pub decoded_bytes_in_flight: u64,
    /// Maximum encoded bytes queued for output.
    pub encoded_bytes_in_flight: u64,
    /// Maximum retained delta-base cache bytes.
    pub delta_cache_bytes: u64,
    /// Maximum concurrent external range reads.
    pub range_read_concurrency: usize,
    /// Maximum adjacent range coalescing gap.
    pub range_coalescing_bytes: u64,
    /// Negotiation-state size at which membership spills.
    pub negotiation_spill_threshold: u64,
}

impl CloneLimits {
    /// Absolute ceilings accepted by [`Self::validate`].
    pub open spec fn spec_hard_max() -> CloneLimits {
        CloneLimits {
            max_wants: 65_536,
            max_haves: 4_000_000,
            max_selected_objects: 20_000_000,
            max_output_bytes: 17_592_186_044_416,
            max_duration: Duration { nanos: 86_400_000_000_000 },
            read_workers: 256,
            compression_workers: 256,
            decoded_bytes_in_flight: 17_179_869_184,
            encoded_bytes_in_flight: 4_294_967_296,
            delta_cache_bytes: 34_359_738_368,
            range_read_concurrency: 1_024,
            range_coalescing_bytes: 1_073_741_824,
            negotiation_spill_threshold: 17_179_869_184,
        }
    }

    /// Return the absolute ceilings accepted by [`Self::validate`].
    pub fn hard_max() -> (limits: CloneLimits)
        ensures
            limits == Self::spec_hard_max(),
    {
        CloneLimits {
            max_wants: 65_536,
            max_haves: 4_000_000,
            max_selected_objects: 20_000_000,
            max_output_bytes: 17_592_186_044_416,
            max_duration: Duration { nanos: 86_400_000_000_000 },
            read_workers: 256,
            compression_workers: 256,
            decoded_bytes_in_flight: 17_179_869_184,
            encoded_bytes_in_flight: 4_294_967_296,
            delta_cache_bytes: 34_359_738_368,
            range_read_concurrency: 1_024,
            range_coalescing_bytes: 1_073_741_824,
            negotiation_spill_threshold: 17_179_869_184,
        }
    }

    /// Some capacity that is needed before allocation is zero; a zero coalescing gap is allowed.
    pub open spec fn some_zero(self) -> bool {
        ||| self.max_wants == 0
        ||| self.max_haves == 0
        ||| self.max_selected_objects == 0
        ||| self.max_output_bytes == 0
        ||| self.max_duration.nanos == 0
        ||| self.read_workers == 0
        ||| self.compression_workers == 0
        ||| self.decoded_bytes_in_flight == 0
        ||| self.encoded_bytes_in_flight == 0
        ||| self.delta_cache_bytes == 0
        ||| self.range_read_concurrency == 0
        ||| self.negotiation_spill_threshold == 0
    }

    /// Some limit is above its ceiling.
    pub open spec fn some_above(self, hard: CloneLimits) -> bool {
        ||| self.max_wants > hard.max_wants
        ||| self.max_haves > hard.max_haves
        ||| self.max_selected_objects > hard.max_selected_objects
        ||| self.max_output_bytes > hard.max_output_bytes
        ||| self.max_duration.nanos > hard.max_duration.nanos
        ||| self.read_workers > hard.read_workers
        ||| self.compression_workers > hard.compression_workers
        ||| self.decoded_bytes_in_flight > hard.decoded_bytes_in_flight
        ||| self.encoded_bytes_in_flight > hard.encoded_bytes_in_flight
        ||| self.delta_cache_bytes > hard.delta_cache_bytes
        ||| self.range_read_concurrency > hard.range_read_concurrency
        ||| self.range_coalescing_bytes > hard.range_coalescing_bytes
        ||| self.negotiation_spill_threshold > hard.negotiation_spill_threshold
    }

    /// The limits may be used.
    pub open spec fn valid(self) -> bool {
        !self.some_zero() && !self.some_above(Self::spec_hard_max())
    }

    fn has_zero(self) -> (zero: bool)
        ensures
            zero == self.some_zero(),
    {
        self.max_wants == 0 || self.max_haves == 0 || self.max_selected_objects == 0 || self.max_output_bytes == 0 || self.max_duration.nanos == 0 || self.read_workers == 0 || self.compression_workers == 0 || self.decoded_bytes_in_flight == 0 || self.encoded_bytes_in_flight == 0 || self.delta_cache_bytes == 0 || self.range_read_concurrency == 0 || self.negotiation_spill_threshold == 0
    }

    /// Validate nonzero limits against the ceilings before allocating workers or buffers.
    pub fn validate(self) -> (result: Result<Self, CloneLimitError>)
        ensures
            result == if self.some_zero() {
                Err::<Self, CloneLimitError>(CloneLimitError::Zero)
            } else if self.some_above(Self::spec_hard_max()) {
                Err(CloneLimitError::ExceedsHardMaximum)
            } else {
                Ok(self)
            },
    {
        let hard = Self::hard_max();
        if self.has_zero() {
            return Err(CloneLimitError::Zero);
        }
        if self.max_wants > hard.max_wants || self.max_haves > hard.max_haves || self.max_selected_objects > hard.max_selected_objects || self.max_output_bytes > hard.max_output_bytes || self.max_duration.nanos > hard.max_duration.nanos || self.read_workers > hard.read_workers || self.compression_workers > hard.compression_workers || self.decoded_bytes_in_flight > hard.decoded_bytes_in_flight || self.encoded_bytes_in_flight > hard.encoded_bytes_in_flight || self.delta_cache_bytes > hard.delta_cache_bytes || self.range_read_concurrency > hard.range_read_concurrency || self.range_coalescing_bytes > hard.range_coalescing_bytes || self.negotiation_spill_threshold > hard.negotiation_spill_threshold {
            return Err(CloneLimitError::ExceedsHardMaximum);
        }
        Ok(self)
    }

    /// The limits with every value above its ceiling lowered to it.
    pub open spec fn lowered(self) -> CloneLimits {
        let hard = Self::spec_hard_max();
        CloneLimits {
            max_wants: if self.max_wants > hard.max_wants {
                hard.max_wants
            } else {
                self.max_wants
            },
            max_haves: if self.max_haves > hard.max_haves {
                hard.max_haves
            } else {
                self.max_haves
            },
            max_selected_objects: if self.max_selected_objects > hard.max_selected_objects {
                hard.max_selected_objects
            } else {
                self.max_selected_objects
            },
            max_output_bytes: if self.max_output_bytes > hard.max_output_bytes {
                hard.max_output_bytes
            } else {
                self.max_output_bytes
            },
            max_duration: if self.max_duration.nanos > hard.max_duration.nanos {
                hard.max_duration
            } else {
                self.max_duration
            },
            read_workers: if self.read_workers > hard.read_workers {
                hard.read_workers
            } else {
                self.read_workers
            },
            compression_workers: if self.compression_workers > hard.compression_workers {
                hard.compression_workers
            } else {
                self.compression_workers
            },
            decoded_bytes_in_flight: if self.decoded_bytes_in_flight > hard.decoded_bytes_in_flight {
                hard.decoded_bytes_in_flight
            } else {
                self.decoded_bytes_in_flight
            },
            encoded_bytes_in_flight: if self.encoded_bytes_in_flight > hard.encoded_bytes_in_flight {
                hard.encoded_bytes_in_flight
            } else {
                self.encoded_bytes_in_flight
            },
            delta_cache_bytes: if self.delta_cache_bytes > hard.delta_cache_bytes {
                hard.delta_cache_bytes
            } else {
                self.delta_cache_bytes
            },
            range_read_concurrency: if self.range_read_concurrency > hard.range_read_concurrency {
                hard.range_read_concurrency
            } else {
                self.range_read_concurrency
            },
            range_coalescing_bytes: if self.range_coalescing_bytes > hard.range_coalescing_bytes {
                hard.range_coalescing_bytes
            } else {
                self.range_coalescing_bytes
            },
            negotiation_spill_threshold: if self.negotiation_spill_threshold > hard.negotiation_spill_threshold {
                hard.negotiation_spill_threshold
            } else {
                self.negotiation_spill_threshold
            },
        }
    }

    /// Refuse zero capacities and lower oversized limits to their ceilings.
    pub fn clamped(self) -> (result: Result<Self, CloneLimitError>)
        ensures
            result == if self.some_zero() {
                Err::<Self, CloneLimitError>(CloneLimitError::Zero)
            } else {
                Ok(self.lowered())
            },
            result is Ok ==> result->Ok_0.valid(),
    {
        if self.has_zero() {
            return Err(CloneLimitError::Zero);
        }
        let hard = Self::hard_max();
        Ok(
            CloneLimits {
                max_wants: if self.max_wants > hard.max_wants {
                    hard.max_wants
                } else {
                    self.max_wants
                },
                max_haves: if self.max_haves > hard.max_haves {
                    hard.max_haves
                } else {
                    self.max_haves
                },
                max_selected_objects: if self.max_selected_objects > hard.max_selected_objects {
                    hard.max_selected_objects
                } else {
                    self.max_selected_objects
                },
                max_output_bytes: if self.max_output_bytes > hard.max_output_bytes {
                    hard.max_output_bytes
                } else {
                    self.max_output_bytes
                },
                max_duration: if self.max_duration.nanos > hard.max_duration.nanos {
                    hard.max_duration
                } else {
                    self.max_duration
                },
                read_workers: if self.read_workers > hard.read_workers {
                    hard.read_workers
                } else {
                    self.read_workers
                },
                compression_workers: if self.compression_workers > hard.compression_workers {
                    hard.compression_workers
                } else {
                    self.compression_workers
                },
                decoded_bytes_in_flight: if self.decoded_bytes_in_flight > hard.decoded_bytes_in_flight {
                    hard.decoded_bytes_in_flight
                } else {
                    self.decoded_bytes_in_flight
                },
                encoded_bytes_in_flight: if self.encoded_bytes_in_flight > hard.encoded_bytes_in_flight {
                    hard.encoded_bytes_in_flight
                } else {
                    self.encoded_bytes_in_flight
                },
                delta_cache_bytes: if self.delta_cache_bytes > hard.delta_cache_bytes {
                    hard.delta_cache_bytes
                } else {
                    self.delta_cache_bytes
                },
                range_read_concurrency: if self.range_read_concurrency > hard.range_read_concurrency {
                    hard.range_read_concurrency
                } else {
                    self.range_read_concurrency
                },
                range_coalescing_bytes: if self.range_coalescing_bytes > hard.range_coalescing_bytes {
                    hard.range_coalescing_bytes
                } else {
                    self.range_coalescing_bytes
                },
                negotiation_spill_threshold: if self.negotiation_spill_threshold > hard.negotiation_spill_threshold {
                    hard.negotiation_spill_threshold
                } else {
                    self.negotiation_spill_threshold
                },
            },
        )
    }

    /// Reject oversized request vectors before negotiation allocates closure state.
    pub fn validate_request_shape(
        self,
        wants: usize,
        haves: usize,
    ) -> (result: Result<(), CloneLimitError>)
        ensures
            result == if self.some_zero() {
                Err::<(), CloneLimitError>(CloneLimitError::Zero)
            } else if self.some_above(Self::spec_hard_max()) {
                Err(CloneLimitError::ExceedsHardMaximum)
            } else if wants > self.max_wants || haves > self.max_haves {
                Err(CloneLimitError::RequestShape)
            } else {
                Ok(())
            },
    {
        if let Err(error) = self.validate() {
            return Err(error);
        }
        if wants > self.max_wants || haves > self.max_haves {
            return Err(CloneLimitError::RequestShape);
        }
        Ok(())
    }
}

/// The limits that a server runs with unless configured otherwise.
pub open spec fn spec_default_limits() -> CloneLimits {
    CloneLimits {
        max_wants: 8_192,
        max_haves: 500_000,
        max_selected_objects: 5_000_000,
        max_output_bytes: 274_877_906_944,
        max_duration: Duration { nanos: 7_200_000_000_000 },
        read_workers: 16,
        compression_workers: 8,
        decoded_bytes_in_flight: 536_870_912,
        encoded_bytes_in_flight: 67_108_864,
        delta_cache_bytes: 268_435_456,
        range_read_concurrency: 32,
        range_coalescing_bytes: 262_144,
        negotiation_spill_threshold: 67_108_864,
    }
}

impl Default for CloneLimits {
    fn default() -> (limits: Self)
        ensures
            limits == spec_default_limits(),
    {
        CloneLimits {
            max_wants: 8_192,
            max_haves: 500_000,
            max_selected_objects: 5_000_000,
            max_output_bytes: 274_877_906_944,
            max_duration: Duration { nanos: 7_200_000_000_000 },
            read_workers: 16,
            compression_workers: 8,
            decoded_bytes_in_flight: 536_870_912,
            encoded_bytes_in_flight: 67_108_864,
            delta_cache_bytes: 268_435_456,
            range_read_concurrency: 32,
            range_coalescing_bytes: 262_144,
            negotiation_spill_threshold: 67_108_864,
        }
    }
}

/// The report with an outcome, unless it has one.
pub open spec fn finished(report: CloneMetricsReport, outcome: CloneOutcome) -> CloneMetricsReport {
    if report.outcome is None {
        CloneMetricsReport { outcome: Some(outcome), ..report }
    } else {
        report
    }
}

/// The first outcome stays: finishing again changes nothing.
pub proof fn law_first_outcome_stays(
    report: CloneMetricsReport,
    first: CloneOutcome,
    later: CloneOutcome,
)
    ensures
        finished(finished(report, first), later) == finished(report, first),
        report.outcome is None ==> finished(report, first).outcome == Some(first),
{
}

/// A phase is recorded once: an accepted duration is kept, and no later one is accepted. The total
/// stays at least as long as every component.
pub proof fn law_phase_is_recorded_once(
    phases: ClonePhaseMetrics,
    phase: ClonePhase,
    first: Duration,
    later: Duration,
)
    requires
        phases.accepts(phase, first),
    ensures
        phases.with(phase, first).of(phase) == Some(first),
        !phases.with(phase, first).accepts(phase, later),
        phases.consistent() ==> phases.with(phase, first).consistent(),
{
}

/// The ceilings and the defaults are themselves valid limits, and lowering a valid limit changes
/// nothing.
pub proof fn law_known_limits_are_valid(limits: CloneLimits)
    ensures
        CloneLimits::spec_hard_max().valid(),
        spec_default_limits().valid(),
        limits.valid() ==> limits.lowered() == limits,
        !limits.some_zero() ==> limits.lowered().valid(),
{
}

/// Clone limit validation failure.
#[derive(Clone, Copy, Debug, PartialEq, Eq, Structural)]
pub enum CloneLimitError {
    /// A capacity needed before allocation was zero.
    Zero,
    /// A caller limit exceeded the absolute ceiling.
    ExceedsHardMaximum,
    /// Wants or haves exceeded the validated request shape.
    RequestShape,
    /// Selected object count exceeded the validated limit.
    SelectedObjects,
    /// Serialized pack output exceeded the validated limit.
    OutputBytes,
}

} // verus!
