//! The list of network datasets: where it is loaded from, and which datasets
//! are served once it is there.

use vstd::prelude::*;
use crate::cli::{Config, DatasetConfig, DatasetSourceConfig};
use crate::text::{has_prefix, remove_all, starts_with, without};

verus! {

/// One entry of the list of network datasets.
#[derive(Clone, Debug, PartialEq, Eq)]
pub struct NetworkDataset {
    pub id: String,
    pub name: String,
}

/// The list of network datasets, as the file under `sqd-network-datasets`
/// holds it.
#[derive(Clone, Debug, PartialEq, Eq)]
pub struct DatasetList {
    pub sqd_network_datasets: Vec<NetworkDataset>,
}

/// Where the list of network datasets is to be read.
#[derive(Clone, Debug, PartialEq, Eq)]
pub enum DatasetsSource {
    /// The configuration names no list.
    NotConfigured,
    /// A file on this machine, with its path.
    LocalFile(String),
    /// A document to fetch, with its URL.
    Remote(String),
}

/// The URL of the list of network datasets that a configuration names.
pub open spec fn datasets_url(config: Config) -> Option<Seq<char>> {
    match config.sqd_network {
        Some(network) => match network.datasets {
            Some(url) => Some(url@),
            None => None,
        },
        None => None,
    }
}

/// Whether a configuration asks to serve none of the network datasets.
pub open spec fn serves_none(config: Config) -> bool {
    config.sqd_network matches Some(network) && network.serve@ == "none"@
}

/// Whether `dataset` is the served dataset that the list entry `listed` gives:
/// it goes by the entry's name, without aliases, and has one source, of kind
/// `sqd_network`, with the entry's identifier.
pub open spec fn is_network_entry(dataset: DatasetConfig, listed: NetworkDataset) -> bool {
    &&& dataset.slug@ == listed.name@
    &&& dataset.aliases is None
    &&& dataset.data_sources@.len() == 1
    &&& dataset.data_sources@[0].kind@ == "sqd_network"@
    &&& dataset.data_sources@[0].name_ref@ == listed.name@
    &&& dataset.data_sources@[0].id@ == listed.id@
}

/// Where the list of network datasets is to be read: a URL that begins with
/// `file://` names a local file, whose path is the URL without every `file:/`
/// in it; any other URL is fetched.
pub fn load_file(config: &Config) -> (res: DatasetsSource)
    ensures
        match datasets_url(*config) {
            None => res is NotConfigured,
            Some(url) => if has_prefix(url, "file://"@) {
                res matches DatasetsSource::LocalFile(path) && path@ == without(url, "file:/"@)
            } else {
                res matches DatasetsSource::Remote(u) && u@ == url
            },
        },
{
    match &config.sqd_network {
        None => DatasetsSource::NotConfigured,
        Some(network) => match &network.datasets {
            None => DatasetsSource::NotConfigured,
            Some(url) => {
                if starts_with(url.as_str(), "file://") {
                    DatasetsSource::LocalFile(remove_all(url.as_str(), "file:/"))
                } else {
                    DatasetsSource::Remote(url.clone())
                }
            },
        },
    }
}

/// Whether the list has an entry with the name `slug`.
pub open spec fn is_listed(listed: Seq<NetworkDataset>, slug: Seq<char>) -> bool {
    exists|i: int| 0 <= i < listed.len() && (#[trigger] listed[i]).name@ == slug
}

/// The configured datasets that stay beside the list: those whose slug no entry
/// of the list has, in their order.
pub open spec fn kept_datasets(predefined: Seq<DatasetConfig>, listed: Seq<NetworkDataset>) -> Seq<DatasetConfig>
    decreases predefined.len(),
{
    if predefined.len() == 0 {
        Seq::empty()
    } else {
        let rest = kept_datasets(predefined.skip(1), listed);
        if is_listed(listed, predefined[0].slug@) {
            rest
        } else {
            seq![predefined[0]] + rest
        }
    }
}

fn listed_by_name(listed: &Vec<NetworkDataset>, slug: &String) -> (b: bool)
    ensures
        b == is_listed(listed@, slug@),
{
    let mut i: usize = 0;
    while i < listed.len()
        invariant
            i <= listed.len(),
            forall|j: int| 0 <= j < i ==> (#[trigger] listed[j]).name@ != slug@,
        decreases listed.len() - i,
    {
        if listed[i].name == *slug {
            return true;
        }
        i = i + 1;
    }
    false
}

/// The datasets to serve, given the list of network datasets where it could
/// be loaded. Without a list, or where the configuration serves none of the
/// network datasets, these are the datasets of the configuration. Else the list
/// is merged with them: first the configured datasets whose slug the list does
/// not have, then one dataset for each entry of the list, in its order.
pub fn datasets_load(config: Config, file: Option<DatasetList>) -> (res: Vec<DatasetConfig>)
    ensures
        file is None || serves_none(config) ==> res == config.available_datasets,
        file is Some && !serves_none(config) ==> {
            let listed = file.unwrap().sqd_network_datasets@;
            let kept = kept_datasets(config.available_datasets@, listed);
            &&& res@.len() == kept.len() + listed.len()
            &&& res@.subrange(0, kept.len() as int) == kept
            &&& forall|i: int| 0 <= i < listed.len() ==> is_network_entry(#[trigger] res@[kept.len() + i], listed[i])
        },
{
    let list = match file {
        None => {
            return config.available_datasets;
        },
        Some(list) => list,
    };
    let none = "none".to_owned();
    let skip = match &config.sqd_network {
        Some(network) => network.serve == none,
        None => false,
    };
    if skip {
        return config.available_datasets;
    }
    let ghost all = config.available_datasets@;
    let ghost listed = list.sqd_network_datasets@;
    let mut predefined = config.available_datasets;
    let mut merged: Vec<DatasetConfig> = Vec::new();
    proof {
        assert(merged@ + kept_datasets(predefined@, listed) =~= kept_datasets(all, listed));
    }
    while predefined.len() > 0
        invariant
            listed == list.sqd_network_datasets@,
            merged@ + kept_datasets(predefined@, listed) == kept_datasets(all, listed),
        decreases predefined.len(),
    {
        let ghost before = predefined@;
        let ghost taken = merged@;
        let dataset = predefined.remove(0);
        proof {
            assert(predefined@ =~= before.skip(1));
        }
        if !listed_by_name(&list.sqd_network_datasets, &dataset.slug) {
            merged.push(dataset);
            proof {
                assert(merged@ + kept_datasets(predefined@, listed) =~= taken + (seq![dataset] + kept_datasets(
                    before.skip(1),
                    listed,
                )));
            }
        }
    }
    let ghost kept = merged@;
    proof {
        assert(kept + kept_datasets(predefined@, listed) =~= kept);
        assert(merged@.subrange(0, kept.len() as int) =~= kept);
    }
    let mut i: usize = 0;
    while i < list.sqd_network_datasets.len()
        invariant
            i <= list.sqd_network_datasets.len(),
            listed == list.sqd_network_datasets@,
            merged@.len() == kept.len() + i,
            merged@.subrange(0, kept.len() as int) == kept,
            forall|j: int| 0 <= j < i ==> is_network_entry(#[trigger] merged@[kept.len() + j], listed[j]),
        decreases list.sqd_network_datasets.len() - i,
    {
        let d = &list.sqd_network_datasets[i];
        let mut data_sources: Vec<DatasetSourceConfig> = Vec::new();
        data_sources.push(
            DatasetSourceConfig { kind: "sqd_network".to_owned(), name_ref: d.name.clone(), id: d.id.clone() },
        );
        let ghost before = merged@;
        merged.push(DatasetConfig { slug: d.name.clone(), aliases: None, data_sources });
        proof {
            assert(merged@.subrange(0, kept.len() as int) =~= before.subrange(0, kept.len() as int));
            assert forall|j: int| 0 <= j < i + 1 implies is_network_entry(
                #[trigger] merged@[kept.len() + j],
                listed[j],
            ) by {
                if j < i {
                    assert(merged@[kept.len() + j] == before[kept.len() + j]);
                }
            }
        }
        i = i + 1;
    }
    merged
}

} // verus!
