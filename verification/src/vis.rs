//! The registry: it hands out one shared taxonomy per schema version and
//! keeps what it has built in a small cache whose entries expire.

use crate::dto::Definition;
use crate::error::{LoadResourceError, VisError};
use crate::gmod::Gmod;
use crate::graph::{graph_of, GmodView};
use crate::resources::{
    definition_of, first_from, get_gmod_dto, gmod_file_for, names_of, Asset, Failure,
};
use crate::version::VisVersion;
use moka::sync::Cache;
use std::sync::Arc;
use std::time::Duration;
use vstd::prelude::*;

verus! {

/// The cache of `moka`, as an opaque value.
#[verifier::external_type_specification]
#[verifier::external_body]
#[verifier::reject_recursive_types(K)]
#[verifier::reject_recursive_types(V)]
#[verifier::reject_recursive_types(S)]
pub struct ExCache<K, V, S>(Cache<K, V, S>);

/// How many taxonomies the cache holds at most.
pub const CACHE_CAPACITY: u64 = 2;

/// For how many seconds a taxonomy stays in the cache.
pub const CACHE_SECONDS: u64 = 60;

/// Why no taxonomy is due.
pub enum Refusal {
    /// The definition could not be loaded.
    Load(Failure),
    /// The definition is not structurally consistent.
    Inconsistent,
    /// The version tag of the definition names no version.
    UnknownVersion(Seq<char>),
}

/// The definition that the files hold for a version: that of the first
/// file whose name mentions `gmod` and the tag of the version.
pub open spec fn definition_for(assets: Seq<Asset>, version: VisVersion) -> Result<
    Definition,
    Failure,
> {
    match first_from(names_of(assets), gmod_file_for(version.tag()), 0) {
        Some(place) => definition_of(assets[place].data@),
        None => Err(Failure::NotFound),
    }
}

/// The taxonomy that is due for a version: the one that the definition for
/// the version describes, for the version that the definition names.
pub open spec fn taxonomy_for(assets: Seq<Asset>, version: VisVersion) -> Result<GmodView, Refusal> {
    match definition_for(assets, version) {
        Err(failure) => Err(Refusal::Load(failure)),
        Ok(definition) => if !definition.consistent() {
            Err(Refusal::Inconsistent)
        } else {
            match VisVersion::from_tag(definition.vis_release) {
                Some(named) => Ok(graph_of(definition, named)),
                None => Err(Refusal::UnknownVersion(definition.vis_release)),
            }
        },
    }
}

/// The error says why no taxonomy is due.
pub open spec fn tells(error: VisError, refusal: Refusal) -> bool {
    match refusal {
        Refusal::Load(Failure::NotFound) => error matches VisError::FailedToLoad(text) && text@
            == "resource not found"@,
        Refusal::Load(_) => error is FailedToLoad,
        Refusal::Inconsistent => error matches VisError::FailedToLoad(text) && text@
            == "the definition is not consistent"@,
        Refusal::UnknownVersion(tag) => error matches VisError::VersionNotRecognized(text)
            && text@ == tag,
    }
}

/// The taxonomy is the one that is due, or the error says why none is.
pub open spec fn serves(
    got: Result<Arc<Gmod>, VisError>,
    assets: Seq<Asset>,
    version: VisVersion,
) -> bool {
    match taxonomy_for(assets, version) {
        Ok(graph) => got matches Ok(gmod) && gmod.wf() && gmod@ == graph,
        Err(refusal) => got matches Err(error) && tells(error, refusal),
    }
}

/// Builds the taxonomy of a version from the bundled files.
pub fn build_gmod(assets: &Vec<Asset>, version: VisVersion) -> (built: Result<Arc<Gmod>, VisError>)
    ensures
        serves(built, assets@, version),
{
    let tag = version.to_string();
    let dto = match get_gmod_dto(assets, tag.as_str()) {
        Ok(dto) => dto,
        Err(error) => {
            return Err(VisError::FailedToLoad(error.to_string()));
        },
    };
    if !dto.is_consistent() {
        return Err(VisError::FailedToLoad("the definition is not consistent".to_owned()));
    }
    match Gmod::new(&dto) {
        Ok(gmod) => Ok(Arc::new(gmod)),
        Err(error) => Err(error),
    }
}

/// Trusted: `moka::sync::Cache::builder`, with `max_capacity`,
/// `time_to_live` and `build`. The builder refuses a time to live of more
/// than a thousand years. Nothing is claimed of the cache.
#[verifier::external_body]
fn new_cache(capacity: u64, seconds: u64) -> (cache: Cache<VisVersion, Arc<Gmod>>)
    requires
        seconds <= 31_536_000_000,
{
    Cache::builder().max_capacity(capacity).time_to_live(Duration::from_secs(seconds)).build()
}

/// The registry of taxonomies over a set of bundled files.
pub struct Vis {
    gmod_cache: Cache<VisVersion, Arc<Gmod>>,
    assets: Vec<Asset>,
}

/// Trusted: `moka::sync::Cache::try_get_with` on the cache of the registry,
/// with a closure that builds the taxonomy of the version from the files of
/// the registry. The cache hands out either what it holds for the version
/// or what the closure returns, and it keeps only what the closure returned
/// with success. The cache of a registry is filled by this call alone, and
/// what the closure returns depends on the files and the version alone, so
/// the outcome is that of building, whether or not anything was built now.
/// The error comes shared, as `moka` hands it out.
#[verifier::external_body]
fn cached_or_built(vis: &Vis, version: VisVersion) -> (got: Result<Arc<Gmod>, Arc<VisError>>)
    ensures
        match got {
            Ok(gmod) => serves(Ok(gmod), vis.assets(), version),
            Err(error) => serves(Err(*error), vis.assets(), version),
        },
{
    vis.gmod_cache.try_get_with(version, || build_gmod(&vis.assets, version))
}

impl Vis {
    /// The files that the registry builds from.
    pub closed spec fn assets(&self) -> Seq<Asset> {
        self.assets@
    }

    /// A registry over `assets` with nothing built yet.
    pub fn new(assets: Vec<Asset>) -> (vis: Vis)
        ensures
            vis.assets() == assets@,
    {
        Vis { gmod_cache: new_cache(CACHE_CAPACITY, CACHE_SECONDS), assets }
    }

    /// The taxonomy of a version, shared with everyone who asks for it. It
    /// is built where the cache holds none, and an error names the cause
    /// where it cannot be built.
    pub fn get_gmod(&self, version: VisVersion) -> (got: Result<Arc<Gmod>, VisError>)
        ensures
            serves(got, self.assets(), version),
    {
        match cached_or_built(self, version) {
            Ok(gmod) => Ok(gmod),
            Err(error) => Err((*error).clone()),
        }
    }
}

} // verus!
