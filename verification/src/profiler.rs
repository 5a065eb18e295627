//! Counters for the work that an analysis does.

use vstd::prelude::*;
use crate::text::{decimal, digit_char, digit_of, push_char, push_decimal};

verus! {

/// What was counted: calls, cache hits and nanoseconds, by kind of work. Every
/// counter wraps around when it is full.
#[derive(Debug, Clone, Copy, PartialEq, Eq, Structural)]
pub struct ProfileStats {
    pub resolution_calls: usize,
    pub resolution_cache_hits: usize,
    pub resolution_time_ns: u64,
    pub reference_lookups: usize,
    pub local_reference_calls: usize,
    pub local_reference_time_ns: u64,
    pub reexport_checks: usize,
    pub reexport_time_ns: u64,
    pub symbol_extractions: usize,
    pub symbol_extraction_time_ns: u64,
}

impl ProfileStats {
    /// All counters at zero.
    pub open spec fn zero() -> ProfileStats {
        ProfileStats {
            resolution_calls: 0,
            resolution_cache_hits: 0,
            resolution_time_ns: 0,
            reference_lookups: 0,
            local_reference_calls: 0,
            local_reference_time_ns: 0,
            reexport_checks: 0,
            reexport_time_ns: 0,
            symbol_extractions: 0,
            symbol_extraction_time_ns: 0,
        }
    }
}

/// Counts work while it is switched on and nothing while it is off.
#[derive(Debug, Clone, Copy)]
pub struct Profiler {
    enabled: bool,
    stats: ProfileStats,
}

impl Profiler {
    /// Whether the profiler counts.
    pub closed spec fn on(&self) -> bool {
        self.enabled
    }

    /// What it has counted.
    pub closed spec fn counted(&self) -> ProfileStats {
        self.stats
    }

    /// A profiler with every counter at zero.
    pub fn new(enabled: bool) -> (p: Profiler)
        ensures
            p.on() == enabled,
            p.counted() == ProfileStats::zero(),
    {
        Profiler {
            enabled,
            stats: ProfileStats {
                resolution_calls: 0,
                resolution_cache_hits: 0,
                resolution_time_ns: 0,
                reference_lookups: 0,
                local_reference_calls: 0,
                local_reference_time_ns: 0,
                reexport_checks: 0,
                reexport_time_ns: 0,
                symbol_extractions: 0,
                symbol_extraction_time_ns: 0,
            },
        }
    }

    /// Whether the profiler counts.
    pub fn is_enabled(&self) -> (r: bool)
        ensures
            r == self.on(),
    {
        self.enabled
    }

    /// What the profiler has counted after one more module resolution: one
    /// call, one cache hit if it was one, and its time; nothing while it is
    /// switched off.
    pub open spec fn with_resolution(&self, cache_hit: bool, duration_ns: u64) -> ProfileStats {
        if self.on() {
            ProfileStats {
                resolution_calls: self.counted().resolution_calls.wrapping_add(1),
                resolution_cache_hits: if cache_hit {
                    self.counted().resolution_cache_hits.wrapping_add(1)
                } else {
                    self.counted().resolution_cache_hits
                },
                resolution_time_ns: self.counted().resolution_time_ns.wrapping_add(duration_ns),
                ..self.counted()
            }
        } else {
            self.counted()
        }
    }

    /// Counts one module resolution, one cache hit if it was one, and its time.
    pub fn record_resolution(&mut self, cache_hit: bool, duration_ns: u64)
        ensures
            final(self).on() == old(self).on(),
            final(self).counted() == old(self).with_resolution(cache_hit, duration_ns),
    {
        if !self.enabled {
            return ;
        }
        self.stats.resolution_calls = self.stats.resolution_calls.wrapping_add(1);
        if cache_hit {
            self.stats.resolution_cache_hits = self.stats.resolution_cache_hits.wrapping_add(1);
        }
        self.stats.resolution_time_ns = self.stats.resolution_time_ns.wrapping_add(duration_ns);
    }

    /// Counts one lookup of the references to a symbol.
    pub fn record_reference_lookup(&mut self)
        ensures
            final(self).on() == old(self).on(),
            final(self).counted() == if old(self).on() {
                ProfileStats {
                    reference_lookups: old(self).counted().reference_lookups.wrapping_add(1),
                    ..old(self).counted()
                }
            } else {
                old(self).counted()
            },
    {
        if !self.enabled {
            return ;
        }
        self.stats.reference_lookups = self.stats.reference_lookups.wrapping_add(1);
    }

    /// Counts one search for the uses of a symbol inside a file, and its time.
    pub fn record_local_reference(&mut self, duration_ns: u64)
        ensures
            final(self).on() == old(self).on(),
            final(self).counted() == if old(self).on() {
                ProfileStats {
                    local_reference_calls: old(self).counted().local_reference_calls.wrapping_add(1),
                    local_reference_time_ns: old(self).counted().local_reference_time_ns.wrapping_add(
                        duration_ns,
                    ),
                    ..old(self).counted()
                }
            } else {
                old(self).counted()
            },
    {
        if !self.enabled {
            return ;
        }
        self.stats.local_reference_calls = self.stats.local_reference_calls.wrapping_add(1);
        self.stats.local_reference_time_ns = self.stats.local_reference_time_ns.wrapping_add(
            duration_ns,
        );
    }

    /// Counts one check for a re-export, and its time.
    pub fn record_reexport_check(&mut self, duration_ns: u64)
        ensures
            final(self).on() == old(self).on(),
            final(self).counted() == if old(self).on() {
                ProfileStats {
                    reexport_checks: old(self).counted().reexport_checks.wrapping_add(1),
                    reexport_time_ns: old(self).counted().reexport_time_ns.wrapping_add(duration_ns),
                    ..old(self).counted()
                }
            } else {
                old(self).counted()
            },
    {
        if !self.enabled {
            return ;
        }
        self.stats.reexport_checks = self.stats.reexport_checks.wrapping_add(1);
        self.stats.reexport_time_ns = self.stats.reexport_time_ns.wrapping_add(duration_ns);
    }

    /// Counts one search for the symbol at a position, and its time.
    pub fn record_symbol_extraction(&mut self, duration_ns: u64)
        ensures
            final(self).on() == old(self).on(),
            final(self).counted() == if old(self).on() {
                ProfileStats {
                    symbol_extractions: old(self).counted().symbol_extractions.wrapping_add(1),
                    symbol_extraction_time_ns: old(self).counted().symbol_extraction_time_ns.wrapping_add(
                        duration_ns,
                    ),
                    ..old(self).counted()
                }
            } else {
                old(self).counted()
            },
    {
        if !self.enabled {
            return ;
        }
        self.stats.symbol_extractions = self.stats.symbol_extractions.wrapping_add(1);
        self.stats.symbol_extraction_time_ns = self.stats.symbol_extraction_time_ns.wrapping_add(
            duration_ns,
        );
    }

    /// What was counted so far.
    pub fn stats(&self) -> (r: &ProfileStats)
        ensures
            *r == self.counted(),
    {
        &self.stats
    }
}

/// The three digits of `n`, zeros kept.
pub open spec fn three_digits(n: nat) -> Seq<char> {
    seq![digit_char(n / 100 % 10), digit_char(n / 10 % 10), digit_char(n % 10)]
}

/// `n` in decimal with a comma before every group of three digits, counted
/// from the right.
pub open spec fn grouped(n: nat) -> Seq<char>
    decreases n,
{
    if n < 1000 {
        decimal(n)
    } else {
        grouped(n / 1000) + seq![','] + three_digits(n % 1000)
    }
}

fn push_grouped(out: &mut String, n: usize)
    ensures
        final(out)@ == old(out)@ + grouped(n as nat),
    decreases n,
{
    if n < 1000 {
        push_decimal(out, n);
    } else {
        push_grouped(out, n / 1000);
        let low = n % 1000;
        push_char(out, ',');
        push_char(out, digit_of(low / 100 % 10));
        push_char(out, digit_of(low / 10 % 10));
        push_char(out, digit_of(low % 10));
        assert(out@ =~= old(out)@ + grouped(n as nat));
    }
}

/// `n` as it is printed in a report: in decimal, with thousands separators.
pub fn format_number(n: usize) -> (out: String)
    ensures
        out@ == grouped(n as nat),
{
    let mut out = String::new();
    push_grouped(&mut out, n);
    assert(out@ =~= grouped(n as nat));
    out
}

} // verus!
