//! The config store: single source of truth for the configuration value.
//!
//! The store itself is a sequential value; the surrounding service guards
//! it with a mutual-exclusion lock and holds that lock for the duration of
//! each `get` or `set`, so no reader ever observes a half-written value
//! and no two writers interleave. Within the lock the operations below are
//! total replaces and whole snapshots: `set` pins every field of the new
//! value, `get` returns a deep copy of every field.
//!
//! Persistence is best effort by design: `set` replaces the in-memory
//! value first, and the caller then writes [`ConfigStore::persist_payload`]
//! to the storage location. If that durable write fails, the in-memory
//! value stays replaced rather than being rolled back; the failure is only
//! logged by the caller, never retried, a deliberate
//! consistency/availability trade-off.

use crate::config::{spec_default_config, Config, ConfigView};
use crate::json::{spec_parse_config, spec_serialize};
use vstd::prelude::*;

verus! {

/// Holds the one configuration value of the process.
pub struct ConfigStore {
    current: Config,
}

impl View for ConfigStore {
    type V = ConfigView;

    closed spec fn view(&self) -> ConfigView {
        self.current@
    }
}

/// What loading from a storage location yields: the parsed value when the
/// location held an accepted document, and the documented default when the
/// location was missing (`None`) or held anything else.
pub open spec fn spec_load_or_default(contents: Option<Seq<char>>) -> ConfigView {
    match contents {
        Option::None => spec_default_config(),
        Option::Some(s) => match spec_parse_config(s) {
            Option::Some(c) => c,
            Option::None => spec_default_config(),
        },
    }
}

impl ConfigStore {
    /// Starts the store with the given value.
    pub fn new(initial: Config) -> (s: Self)
        ensures
            s@ == initial@,
    {
        ConfigStore { current: initial }
    }

    /// Returns a snapshot — a deep copy of the whole current value.
    pub fn get(&self) -> (r: Config)
        ensures
            r@ == self@,
    {
        self.current.clone()
    }

    /// Replaces the whole value — every field of the store afterwards is
    /// the corresponding field of `v`, nothing is kept — and returns the
    /// stored value for the caller to echo.
    pub fn set(&mut self, v: Config) -> (r: Config)
        ensures
            final(self)@ == v@,
            r@ == v@,
    {
        self.current = v;
        self.current.clone()
    }

    /// The document the caller must write to the storage location to make
    /// the disk copy reflect the current value.
    pub fn persist_payload(&self) -> (r: String)
        ensures
            r@ == spec_serialize(self@),
    {
        crate::json::serialize_config(&self.current)
    }

    /// Builds the startup configuration from what the storage location
    /// held: `None` when the location was missing or unreadable. Always
    /// produces a usable configuration — an accepted document yields its
    /// value, everything else yields the documented default.
    pub fn load_or_default(contents: Option<&str>) -> (r: Config)
        ensures
            (match contents {
                Option::Some(s) => r@ == spec_load_or_default(Option::Some(s@)),
                Option::None => r@ == spec_load_or_default(Option::<Seq<char>>::None),
            }),
    {
        match contents {
            Option::None => crate::config::default_config(),
            Option::Some(s) => match crate::json::parse_config(s) {
                Option::Some(c) => c,
                Option::None => crate::config::default_config(),
            },
        }
    }
}

/// Replacing the value and then taking a snapshot returns the value that
/// was stored: for every starting store and every configuration `v`, the
/// snapshot after `set(v)` denotes `v`.
pub fn set_then_get(store: &mut ConfigStore, v: Config) -> (r: Config)
    ensures
        r@ == v@,
        final(store)@ == v@,
{
    let _echo = store.set(v);
    store.get()
}

/// Two writes that the lock serializes in this order leave the store
/// holding the later submitted value whole — every field of it, and
/// nothing of the earlier one. Together with `set`'s contract for the
/// opposite order, a pair of racing writers always leaves exactly one of
/// the two submitted values, never a mixture.
pub fn set_serialized_pair(store: &mut ConfigStore, first: Config, second: Config)
    ensures
        final(store)@ == second@,
{
    let _echo = store.set(first);
    let _echo = store.set(second);
}

/// Loading what `set` persisted recovers the value that was set: the
/// document written for any value parses back to exactly that value.
pub proof fn lemma_persisted_value_round_trips(v: ConfigView)
    ensures
        spec_load_or_default(Option::Some(spec_serialize(v))) == v,
{
    crate::json::lemma_config_round_trip(v);
}

/// The same round trip through the running code: writing the persistence
/// payload to storage and starting over from that document recovers the
/// store's current value, whatever it is.
pub fn persist_and_reload(store: &ConfigStore) -> (r: Config)
    ensures
        r@ == store@,
{
    let payload = store.persist_payload();
    proof {
        lemma_persisted_value_round_trips(store@);
    }
    ConfigStore::load_or_default(Some(payload.as_str()))
}

} // verus!
