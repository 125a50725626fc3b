//! Loading definitions from bundled files: gzip-compressed JSON documents,
//! one per schema version, found by their names.

use crate::decode::{definition_in, read_definition};
use crate::dto::{Definition, GmodDto, GmodNodeDto, NodeRecord};
use crate::error::LoadResourceError;
use crate::outside::{
    gunzip, gunzipped, io_error_text, json_document, json_error_text, lift, parse_tree,
};
use crate::text::{contains_text, ends_with_text, occurs_in, same_text, starts_with_text};
use vstd::prelude::*;

verus! {

/// A bundled file: its name and its bytes.
#[derive(Debug)]
pub struct Asset {
    pub name: String,
    pub data: Vec<u8>,
}

/// The kinds of failure of a load.
pub enum Failure {
    NotFound,
    Read,
    Deserialization,
}

impl LoadResourceError {
    /// The kind of this error.
    pub open spec fn failure(self) -> Failure {
        match self {
            LoadResourceError::ResourceNotFound => Failure::NotFound,
            LoadResourceError::ReadError(_) => Failure::Read,
            LoadResourceError::DeserializationError(_) => Failure::Deserialization,
        }
    }
}

/// A code that ends in 99 marks a node that is left out of every definition.
pub open spec fn excluded(code: Seq<char>) -> bool {
    "99"@.is_suffix_of(code)
}

impl Definition {
    /// This definition without the excluded nodes and without the edges
    /// that touch one.
    pub open spec fn without_excluded(self) -> Definition {
        Definition {
            vis_release: self.vis_release,
            items: self.items.filter(|item: NodeRecord| !excluded(item.code)),
            relations: self.relations.filter(
                |edge: (Seq<char>, Seq<char>)| !excluded(edge.0) && !excluded(edge.1),
            ),
        }
    }
}

/// What the bytes of a bundled file hold: the definition in the JSON
/// document in the gzip member, without what is excluded.
pub open spec fn definition_of(data: Seq<u8>) -> Result<Definition, Failure> {
    match gunzipped(data) {
        None => Err(Failure::Read),
        Some(text) => match json_document(text) {
            None => Err(Failure::Deserialization),
            Some(json) => match definition_in(json) {
                None => Err(Failure::Deserialization),
                Some(definition) => Ok(definition.without_excluded()),
            },
        },
    }
}

/// The outcome of a load is the one that is due.
pub open spec fn gives(loaded: Result<GmodDto, LoadResourceError>, due: Result<Definition, Failure>) -> bool {
    match due {
        Ok(definition) => loaded matches Ok(dto) && dto@ == definition,
        Err(failure) => loaded matches Err(error) && error.failure() == failure,
    }
}

/// Leaves out the excluded nodes and the edges that touch one.
pub fn exclude(dto: &GmodDto) -> (kept: GmodDto)
    ensures
        kept@ == dto@.without_excluded(),
{
    let ghost all = dto@;
    let ghost wanted_item = |item: NodeRecord| !excluded(item.code);
    let ghost wanted_edge = |edge: (Seq<char>, Seq<char>)| !excluded(edge.0) && !excluded(edge.1);
    let mut items: Vec<GmodNodeDto> = Vec::with_capacity(dto.items.len());
    let mut i: usize = 0;
    while i < dto.items.len()
        invariant
            all == dto@,
            i <= dto.items@.len(),
            wanted_item == |item: NodeRecord| !excluded(item.code),
            items@.map_values(|item: GmodNodeDto| item@) == all.items.take(i as int).filter(
                wanted_item,
            ),
        decreases dto.items@.len() - i,
    {
        let ghost before = items@.map_values(|item: GmodNodeDto| item@);
        proof {
            reveal(Seq::filter);
            assert(all.items.take(i + 1).drop_last() =~= all.items.take(i as int));
            assert(all.items.take(i + 1).last() == dto.items@[i as int]@);
        }
        if !ends_with_text(dto.items[i].code.as_str(), "99") {
            items.push(dto.items[i].copy());
            assert(items@.map_values(|item: GmodNodeDto| item@) =~= before.push(
                dto.items@[i as int]@,
            ));
        }
        i += 1;
    }
    let mut relations: Vec<[String; 2]> = Vec::with_capacity(dto.relations.len());
    let mut k: usize = 0;
    while k < dto.relations.len()
        invariant
            all == dto@,
            k <= dto.relations@.len(),
            wanted_edge == |edge: (Seq<char>, Seq<char>)| !excluded(edge.0) && !excluded(edge.1),
            relations@.map_values(|pair: [String; 2]| (pair@[0]@, pair@[1]@))
                == all.relations.take(k as int).filter(wanted_edge),
        decreases dto.relations@.len() - k,
    {
        let ghost before = relations@.map_values(|pair: [String; 2]| (pair@[0]@, pair@[1]@));
        let pair = &dto.relations[k];
        proof {
            reveal(Seq::filter);
            assert(all.relations.take(k + 1).drop_last() =~= all.relations.take(k as int));
            assert(all.relations.take(k + 1).last() == (pair@[0]@, pair@[1]@));
        }
        if !ends_with_text(pair[0].as_str(), "99") && !ends_with_text(pair[1].as_str(), "99") {
            relations.push([pair[0].clone(), pair[1].clone()]);
            assert(relations@.map_values(|pair: [String; 2]| (pair@[0]@, pair@[1]@))
                =~= before.push((pair@[0]@, pair@[1]@)));
        }
        k += 1;
    }
    let kept = GmodDto { vis_release: dto.vis_release.clone(), items, relations };
    proof {
        assert(all.items.take(all.items.len() as int) =~= all.items);
        assert(all.relations.take(all.relations.len() as int) =~= all.relations);
    }
    kept
}

/// Reads the definition that the bytes of a bundled file hold.
pub fn load_definition(data: &Vec<u8>) -> (loaded: Result<GmodDto, LoadResourceError>)
    ensures
        gives(loaded, definition_of(data@)),
{
    let text = match gunzip(data) {
        Ok(text) => text,
        Err(error) => {
            return Err(LoadResourceError::ReadError(io_error_text(&error)));
        },
    };
    let tree = match parse_tree(text.as_str()) {
        Ok(tree) => tree,
        Err(error) => {
            return Err(LoadResourceError::DeserializationError(json_error_text(&error)));
        },
    };
    let json = lift(tree);
    match read_definition(&json) {
        Some(dto) => Ok(exclude(&dto)),
        None => Err(
            LoadResourceError::DeserializationError("the document is not a definition".to_owned()),
        ),
    }
}

/// The names of the files, in their order.
pub open spec fn names_of(assets: Seq<Asset>) -> Seq<Seq<char>> {
    assets.map_values(|asset: Asset| asset.name@)
}

/// The place of the first name from `from` on that is wanted.
pub open spec fn first_from(names: Seq<Seq<char>>, wanted: spec_fn(Seq<char>) -> bool, from: int) -> Option<
    int,
>
    decreases names.len() - from,
{
    if from < 0 || from >= names.len() {
        None
    } else if wanted(names[from]) {
        Some(from)
    } else {
        first_from(names, wanted, from + 1)
    }
}

/// The names of the files that hold the taxonomy of a version: they mention
/// `gmod` and they mention the version.
pub open spec fn gmod_file_for(vis_version: Seq<char>) -> spec_fn(Seq<char>) -> bool {
    |name: Seq<char>| occurs_in("gmod"@, name) && occurs_in(vis_version, name)
}

/// The file that is called `name`.
pub open spec fn file_called(name: Seq<char>) -> spec_fn(Seq<char>) -> bool {
    |other: Seq<char>| other == name
}

/// The names of the bundled files, in their order.
pub fn get_files(assets: &Vec<Asset>) -> (names: Vec<String>)
    ensures
        names@.map_values(|name: String| name@) == names_of(assets@),
{
    let mut names: Vec<String> = Vec::with_capacity(assets.len());
    let mut i: usize = 0;
    while i < assets.len()
        invariant
            i <= assets@.len(),
            names@.len() == i,
            forall|j: int| 0 <= j < i ==> (#[trigger] names@[j])@ == assets@[j].name@,
        decreases assets@.len() - i,
    {
        names.push(assets[i].name.clone());
        i += 1;
    }
    assert(names@.map_values(|name: String| name@) =~= names_of(assets@));
    names
}

/// The definition of the taxonomy of a version: that of the first bundled
/// file whose name mentions `gmod` and the version.
pub fn get_gmod_dto(assets: &Vec<Asset>, vis_version: &str) -> (loaded: Result<
    GmodDto,
    LoadResourceError,
>)
    ensures
        match first_from(names_of(assets@), gmod_file_for(vis_version@), 0) {
            Some(place) => gives(loaded, definition_of(assets@[place].data@)),
            None => loaded matches Err(LoadResourceError::ResourceNotFound),
        },
{
    let ghost names = names_of(assets@);
    let ghost wanted = gmod_file_for(vis_version@);
    let mut i: usize = 0;
    while i < assets.len()
        invariant
            i <= assets@.len(),
            names == names_of(assets@),
            wanted == gmod_file_for(vis_version@),
            first_from(names, wanted, 0) == first_from(names, wanted, i as int),
        decreases assets@.len() - i,
    {
        let name = assets[i].name.as_str();
        if contains_text(name, "gmod") && contains_text(name, vis_version) {
            return load_definition(&assets[i].data);
        }
        i += 1;
    }
    Err(LoadResourceError::ResourceNotFound)
}

/// The first bundled file of this name, if there is one.
pub fn get_asset<'a>(assets: &'a Vec<Asset>, name: &str) -> (found: Option<&'a Asset>)
    ensures
        match first_from(names_of(assets@), file_called(name@), 0) {
            Some(place) => found == Some(&assets@[place]),
            None => found is None,
        },
{
    let ghost names = names_of(assets@);
    let ghost wanted = file_called(name@);
    let mut i: usize = 0;
    while i < assets.len()
        invariant
            i <= assets@.len(),
            names == names_of(assets@),
            wanted == file_called(name@),
            first_from(names, wanted, 0) == first_from(names, wanted, i as int),
        decreases assets@.len() - i,
    {
        if same_text(assets[i].name.as_str(), name) {
            return Some(&assets[i]);
        }
        i += 1;
    }
    None
}

/// The definition in the bundled file of this name, which has to mention
/// `gmod`.
pub fn deserialize_gmod_dto(assets: &Vec<Asset>, gmod_file_name: &str) -> (loaded: Result<
    GmodDto,
    LoadResourceError,
>)
    requires
        occurs_in("gmod"@, gmod_file_name@),
    ensures
        match first_from(names_of(assets@), file_called(gmod_file_name@), 0) {
            Some(place) => gives(loaded, definition_of(assets@[place].data@)),
            None => loaded matches Err(LoadResourceError::ResourceNotFound),
        },
{
    match get_asset(assets, gmod_file_name) {
        Some(asset) => load_definition(&asset.data),
        None => Err(LoadResourceError::ResourceNotFound),
    }
}

/// Whether a file of this name holds the taxonomy of a version: its name
/// begins with `gmod`, but not with `gmod-vis-versioning`.
pub open spec fn holds_taxonomy(name: Seq<char>) -> bool {
    "gmod"@.is_prefix_of(name) && !"gmod-vis-versioning"@.is_prefix_of(name)
}

/// The version tags of the taxonomies among the first `upto` files, in the
/// order of the files, or the failure of the first of them that cannot be
/// read.
pub open spec fn versions_in(assets: Seq<Asset>, upto: int) -> Result<Seq<Seq<char>>, Failure>
    decreases upto,
{
    if upto <= 0 {
        Ok(Seq::<Seq<char>>::empty())
    } else {
        match versions_in(assets, upto - 1) {
            Err(failure) => Err(failure),
            Ok(before) => if holds_taxonomy(assets[upto - 1].name@) {
                match definition_of(assets[upto - 1].data@) {
                    Ok(definition) => Ok(before.push(definition.vis_release)),
                    Err(failure) => Err(failure),
                }
            } else {
                Ok(before)
            },
        }
    }
}

/// A failure among the first files is the failure of the whole list.
pub proof fn lemma_versions_fail_early(assets: Seq<Asset>, upto: int, later: int)
    requires
        upto <= later,
        versions_in(assets, upto) is Err,
    ensures
        versions_in(assets, later) == versions_in(assets, upto),
    decreases later - upto,
{
    if upto < later {
        lemma_versions_fail_early(assets, upto, later - 1);
    }
}

/// The version tags of the bundled taxonomies, in the order of the files.
/// The first taxonomy that cannot be read ends the listing with its error.
pub fn get_vis_versions(assets: &Vec<Asset>) -> (listed: Result<Vec<String>, LoadResourceError>)
    ensures
        match versions_in(assets@, assets@.len() as int) {
            Ok(tags) => listed matches Ok(versions) && versions@.map_values(|tag: String| tag@)
                == tags,
            Err(failure) => listed matches Err(error) && error.failure() == failure,
        },
{
    let mut versions: Vec<String> = Vec::new();
    let mut i: usize = 0;
    assert(versions@.map_values(|tag: String| tag@) =~= Seq::<Seq<char>>::empty());
    while i < assets.len()
        invariant
            i <= assets@.len(),
            versions_in(assets@, i as int) == Ok::<Seq<Seq<char>>, Failure>(
                versions@.map_values(|tag: String| tag@),
            ),
        decreases assets@.len() - i,
    {
        let name = assets[i].name.as_str();
        let ghost before = versions@.map_values(|tag: String| tag@);
        if starts_with_text(name, "gmod") && !starts_with_text(name, "gmod-vis-versioning") {
            match load_definition(&assets[i].data) {
                Ok(dto) => {
                    versions.push(dto.vis_release);
                    assert(versions@.map_values(|tag: String| tag@) =~= before.push(
                        dto.vis_release@,
                    ));
                },
                Err(error) => {
                    proof {
                        lemma_versions_fail_early(assets@, i + 1, assets@.len() as int);
                    }
                    return Err(error);
                },
            }
        }
        i += 1;
    }
    Ok(versions)
}

} // verus!
