//! The configuration of the gateway: the served datasets and the limits that
//! its parts are made with.

use vstd::prelude::*;
use crate::network::state::StateSettings;
use crate::text::{strip_trailing_slashes, trim_end_slashes};
use crate::types::{normalize_url, DatasetId};

verus! {

/// How long a greylisted worker is left out, in milliseconds.
pub const GREYLIST_DURATION_MS: u64 = 60000;

/// How long a worker without compute units is left out, in milliseconds.
pub const ALLOCATION_BACKOFF_MS: u64 = 60000;

pub fn default_max_parallel_streams() -> (n: usize)
    ensures
        n == 1024,
{
    1024
}

/// In seconds.
pub fn default_worker_inactive_threshold() -> (secs: u64)
    ensures
        secs == 120,
{
    120
}

pub fn default_min_worker_priority() -> (p: i8)
    ensures
        p == -5,
{
    -5
}

pub fn default_max_worker_priority() -> (p: i8)
    ensures
        p == 3,
{
    3
}

/// In seconds.
pub fn default_transport_timeout() -> (secs: u64)
    ensures
        secs == 60,
{
    60
}

pub fn default_default_buffer_size() -> (n: usize)
    ensures
        n == 10,
{
    10
}

pub fn default_max_buffer_size() -> (n: usize)
    ensures
        n == 100,
{
    100
}

pub fn default_default_retries() -> (n: usize)
    ensures
        n == 3,
{
    3
}

/// In thousandths: the median.
pub fn default_default_timeout_quantile() -> (q: u16)
    ensures
        q == 500,
{
    500
}

/// In seconds.
pub fn default_dataset_update_interval() -> (secs: u64)
    ensures
        secs == 300,
{
    60 * 5
}

/// In seconds.
pub fn default_chain_update_interval() -> (secs: u64)
    ensures
        secs == 60,
{
    60
}

/// The host name as configured, without the slashes at its end.
pub fn parse_hostname(s: &str) -> (host: String)
    ensures
        host@ == trim_end_slashes(s@),
{
    strip_trailing_slashes(s)
}

pub fn default_served_datasets() -> (datasets: Vec<DatasetConfig>)
    ensures
        datasets@.len() == 0,
{
    Vec::new()
}

pub fn default_serve() -> (serve: String)
    ensures
        serve@ == "all"@,
{
    "all".to_owned()
}

/// Where the list of network datasets comes from, and whether it is served.
#[derive(Clone, Debug, PartialEq, Eq)]
pub struct SqdNetworkConfig {
    pub datasets: Option<String>,
    pub serve: String,
}

/// One source of a dataset's data.
#[derive(Clone, Debug, PartialEq, Eq)]
pub struct DatasetSourceConfig {
    pub kind: String,
    pub name_ref: String,
    pub id: String,
}

/// One served dataset.
#[derive(Clone, Debug, PartialEq, Eq)]
pub struct DatasetConfig {
    pub slug: String,
    pub aliases: Option<Vec<String>>,
    pub data_sources: Vec<DatasetSourceConfig>,
}

/// The identifier that the first source of kind `sqd_network` gives, if there
/// is such a source.
pub open spec fn network_source_id(sources: Seq<DatasetSourceConfig>) -> Option<Seq<char>>
    decreases sources.len(),
{
    if sources.len() == 0 {
        None
    } else if sources[0].kind@ == "sqd_network"@ {
        Some(normalize_url(sources[0].id@))
    } else {
        network_source_id(sources.skip(1))
    }
}

/// Whether `name` is one of `aliases`.
pub open spec fn is_alias(aliases: Seq<String>, name: Seq<char>) -> bool {
    exists|i: int| 0 <= i < aliases.len() && (#[trigger] aliases[i])@ == name
}

/// Whether a dataset goes by `name`: as its slug or as one of its aliases.
pub open spec fn goes_by(dataset: DatasetConfig, name: Seq<char>) -> bool {
    dataset.slug@ == name || (dataset.aliases matches Some(a) && is_alias(a@, name))
}

/// The network identifier of the first of `datasets` that goes by `name`.
pub open spec fn lookup_dataset(datasets: Seq<DatasetConfig>, name: Seq<char>) -> Option<Seq<char>>
    decreases datasets.len(),
{
    if datasets.len() == 0 {
        None
    } else if goes_by(datasets[0], name) {
        network_source_id(datasets[0].data_sources@)
    } else {
        lookup_dataset(datasets.skip(1), name)
    }
}

/// The network identifiers of `datasets`, in order, of those that have one.
pub open spec fn network_ids(datasets: Seq<DatasetConfig>) -> Seq<Seq<char>>
    decreases datasets.len(),
{
    if datasets.len() == 0 {
        Seq::empty()
    } else {
        let rest = network_ids(datasets.drop_last());
        match network_source_id(datasets.last().data_sources@) {
            Some(id) => rest.push(id),
            None => rest,
        }
    }
}

impl DatasetConfig {
    /// The identifier under which the network knows the dataset: that of its
    /// first source of kind `sqd_network`.
    pub fn network_dataset_id(&self) -> (res: Option<DatasetId>)
        ensures
            match network_source_id(self.data_sources@) {
                Some(id) => res matches Some(d) && d@ == id,
                None => res is None,
            },
    {
        let wanted = "sqd_network".to_owned();
        let mut i: usize = 0;
        proof {
            assert(self.data_sources@.skip(0) =~= self.data_sources@);
        }
        while i < self.data_sources.len()
            invariant
                i <= self.data_sources.len(),
                wanted@ == "sqd_network"@,
                network_source_id(self.data_sources@) == network_source_id(self.data_sources@.skip(i as int)),
            decreases self.data_sources.len() - i,
        {
            let source = &self.data_sources[i];
            proof {
                assert(self.data_sources@.skip(i as int)[0] == self.data_sources@[i as int]);
                assert(self.data_sources@.skip(i as int).skip(1) =~= self.data_sources@.skip(i + 1));
            }
            if source.kind == wanted {
                return Some(DatasetId::from_url(source.id.as_str()));
            }
            i = i + 1;
        }
        None
    }

    /// Whether the dataset goes by `name`.
    pub fn is_named(&self, name: &String) -> (b: bool)
        ensures
            b == goes_by(*self, name@),
    {
        if self.slug == *name {
            return true;
        }
        match &self.aliases {
            None => false,
            Some(aliases) => {
                let mut i: usize = 0;
                while i < aliases.len()
                    invariant
                        i <= aliases.len(),
                        self.aliases == Some(*aliases),
                        forall|j: int| 0 <= j < i ==> (#[trigger] aliases[j])@ != name@,
                    decreases aliases.len() - i,
                {
                    if aliases[i] == *name {
                        return true;
                    }
                    i = i + 1;
                }
                false
            },
        }
    }
}

/// The configuration. Durations are in seconds; the quantile is in
/// thousandths.
#[derive(Clone, Debug, PartialEq, Eq)]
pub struct Config {
    pub hostname: String,
    pub max_parallel_streams: usize,
    pub max_chunks_per_stream: Option<usize>,
    pub worker_inactive_threshold: u64,
    pub min_worker_priority: i8,
    pub max_worker_priority: i8,
    pub transport_timeout: u64,
    pub default_buffer_size: usize,
    pub max_buffer_size: usize,
    pub default_retries: usize,
    pub default_timeout_quantile: u16,
    pub dataset_update_interval: u64,
    pub chain_update_interval: u64,
    pub available_datasets: Vec<DatasetConfig>,
    pub sqd_network: Option<SqdNetworkConfig>,
}

/// Why a configuration cannot be used.
#[derive(Clone, Copy, Debug, PartialEq, Eq, Structural)]
pub enum ConfigInvalid {
    /// The lowest worker priority is above the highest.
    PriorityBounds,
    /// The timeout quantile is above one.
    TimeoutQuantile,
}

/// `secs` in milliseconds, or the largest number where that does not fit.
pub open spec fn millis(secs: u64) -> u64 {
    if secs * 1000 > u64::MAX {
        u64::MAX
    } else {
        (secs * 1000) as u64
    }
}

impl Config {
    /// The configuration that results where only the host name is given.
    pub fn with_defaults(hostname: &str) -> (c: Config)
        ensures
            c.hostname@ == trim_end_slashes(hostname@),
            c.max_parallel_streams == 1024,
            c.max_chunks_per_stream is None,
            c.worker_inactive_threshold == 120,
            c.min_worker_priority == -5,
            c.max_worker_priority == 3,
            c.transport_timeout == 60,
            c.default_buffer_size == 10,
            c.max_buffer_size == 100,
            c.default_retries == 3,
            c.default_timeout_quantile == 500,
            c.dataset_update_interval == 300,
            c.chain_update_interval == 60,
            c.available_datasets@.len() == 0,
            c.sqd_network is None,
    {
        Config {
            hostname: parse_hostname(hostname),
            max_parallel_streams: default_max_parallel_streams(),
            max_chunks_per_stream: None,
            worker_inactive_threshold: default_worker_inactive_threshold(),
            min_worker_priority: default_min_worker_priority(),
            max_worker_priority: default_max_worker_priority(),
            transport_timeout: default_transport_timeout(),
            default_buffer_size: default_default_buffer_size(),
            max_buffer_size: default_max_buffer_size(),
            default_retries: default_default_retries(),
            default_timeout_quantile: default_default_timeout_quantile(),
            dataset_update_interval: default_dataset_update_interval(),
            chain_update_interval: default_chain_update_interval(),
            available_datasets: default_served_datasets(),
            sqd_network: None,
        }
    }

    /// Whether the configuration can be used.
    pub fn validate(&self) -> (res: Result<(), ConfigInvalid>)
        ensures
            res == if self.min_worker_priority > self.max_worker_priority {
                Err::<(), ConfigInvalid>(ConfigInvalid::PriorityBounds)
            } else if self.default_timeout_quantile > 1000 {
                Err::<(), ConfigInvalid>(ConfigInvalid::TimeoutQuantile)
            } else {
                Ok::<(), ConfigInvalid>(())
            },
    {
        if self.min_worker_priority > self.max_worker_priority {
            Err(ConfigInvalid::PriorityBounds)
        } else if self.default_timeout_quantile > 1000 {
            Err(ConfigInvalid::TimeoutQuantile)
        } else {
            Ok(())
        }
    }

    /// The settings of the worker registry that the configuration asks for.
    pub fn state_settings(&self) -> (s: StateSettings)
        ensures
            s == (StateSettings {
                worker_inactive_threshold: millis(self.worker_inactive_threshold),
                greylist_duration: GREYLIST_DURATION_MS,
                allocation_backoff: ALLOCATION_BACKOFF_MS,
                min_worker_priority: self.min_worker_priority,
                max_worker_priority: self.max_worker_priority,
            }),
    {
        let threshold: u64 = if self.worker_inactive_threshold > u64::MAX / 1000 {
            u64::MAX
        } else {
            self.worker_inactive_threshold * 1000
        };
        StateSettings {
            worker_inactive_threshold: threshold,
            greylist_duration: GREYLIST_DURATION_MS,
            allocation_backoff: ALLOCATION_BACKOFF_MS,
            min_worker_priority: self.min_worker_priority,
            max_worker_priority: self.max_worker_priority,
        }
    }

    /// The network identifier of the dataset that goes by `slug`: of the first
    /// served dataset with that slug or alias, if it has a network source.
    pub fn dataset_id(&self, slug: &str) -> (res: Option<DatasetId>)
        ensures
            match lookup_dataset(self.available_datasets@, slug@) {
                Some(id) => res matches Some(d) && d@ == id,
                None => res is None,
            },
    {
        let name = slug.to_owned();
        let mut i: usize = 0;
        proof {
            assert(self.available_datasets@.skip(0) =~= self.available_datasets@);
        }
        while i < self.available_datasets.len()
            invariant
                i <= self.available_datasets.len(),
                name@ == slug@,
                lookup_dataset(self.available_datasets@, slug@) == lookup_dataset(
                    self.available_datasets@.skip(i as int),
                    slug@,
                ),
            decreases self.available_datasets.len() - i,
        {
            let dataset = &self.available_datasets[i];
            proof {
                assert(self.available_datasets@.skip(i as int)[0] == self.available_datasets@[i as int]);
                assert(self.available_datasets@.skip(i as int).skip(1) =~= self.available_datasets@.skip(i + 1));
            }
            if dataset.is_named(&name) {
                return dataset.network_dataset_id();
            }
            i = i + 1;
        }
        None
    }

    /// The network identifiers of the served datasets, in order.
    pub fn dataset_ids(&self) -> (ids: Vec<DatasetId>)
        ensures
            ids@.len() == network_ids(self.available_datasets@).len(),
            forall|i: int| 0 <= i < ids@.len() ==> (#[trigger] ids[i])@ == network_ids(self.available_datasets@)[i],
    {
        let mut ids: Vec<DatasetId> = Vec::new();
        let mut i: usize = 0;
        while i < self.available_datasets.len()
            invariant
                i <= self.available_datasets.len(),
                ids@.len() == network_ids(self.available_datasets@.take(i as int)).len(),
                forall|j: int|
                    0 <= j < ids@.len() ==> (#[trigger] ids[j])@ == network_ids(
                        self.available_datasets@.take(i as int),
                    )[j],
            decreases self.available_datasets.len() - i,
        {
            proof {
                assert(self.available_datasets@.take(i + 1).drop_last() =~= self.available_datasets@.take(i as int));
                assert(self.available_datasets@.take(i + 1).last() == self.available_datasets@[i as int]);
            }
            match self.available_datasets[i].network_dataset_id() {
                Some(id) => {
                    ids.push(id);
                },
                None => {},
            }
            i = i + 1;
        }
        proof {
            assert(self.available_datasets@.take(i as int) =~= self.available_datasets@);
        }
        ids
    }
}

} // verus!
