//! Reading a definition out of a JSON document.
//!
//! A definition is an object with the version tag under `visRelease`, the
//! node records under `items` and the edges under `relations`. A record is
//! an object with `category`, `type` and `code`, which have to be there, and
//! further fields that may be missing or null. An edge is an array of the
//! parent code and the child code. Every field also goes by its name in
//! snake case, but a field that is given under both of its names is
//! refused. Members that are not named here are passed over.

use crate::dto::{pairs_of, text_of, Definition, GmodDto, GmodNodeDto, NodeRecord};
use crate::json::{
    field, find_field, given_twice, is_given_twice, lemma_array_model, lemma_object_model,
    members_of, models_of, said,
    JsonModel, JsonValue,
};
use vstd::prelude::*;

verus! {

/// The text that a member has to hold.
pub open spec fn text_in(value: Option<JsonModel>) -> Option<Seq<char>> {
    match value {
        Some(JsonModel::Text(text)) => Some(text),
        _ => None,
    }
}

/// The text that a member may hold: none where the member is missing or
/// null. Any other kind of value is refused.
pub open spec fn optional_text_in(value: Option<JsonModel>) -> Option<Option<Seq<char>>> {
    match value {
        None => Some(None),
        Some(JsonModel::Null) => Some(None),
        Some(JsonModel::Text(text)) => Some(Some(text)),
        _ => None,
    }
}

/// The flag that a member may hold: none where the member is missing or
/// null. Any other kind of value is refused.
pub open spec fn optional_flag_in(value: Option<JsonModel>) -> Option<Option<bool>> {
    match value {
        None => Some(None),
        Some(JsonModel::Null) => Some(None),
        Some(JsonModel::Bool(flag)) => Some(Some(flag)),
        _ => None,
    }
}

/// The names and texts of an object whose members all hold text.
pub open spec fn names_in(members: Seq<(Seq<char>, JsonModel)>) -> Option<
    Seq<(Seq<char>, Seq<char>)>,
> {
    if forall|i: int| 0 <= i < members.len() ==> (#[trigger] members[i]).1 is Text {
        Some(Seq::new(members.len(), |i: int| (members[i].0, members[i].1->Text_0)))
    } else {
        None
    }
}

/// The names that a member may hold: none where the member is missing or
/// null. Anything but an object of texts is refused.
pub open spec fn optional_names_in(value: Option<JsonModel>) -> Option<
    Option<Seq<(Seq<char>, Seq<char>)>>,
> {
    match value {
        None => Some(None),
        Some(JsonModel::Null) => Some(None),
        Some(JsonModel::Object(members)) => match names_in(members) {
            Some(names) => Some(Some(names)),
            None => None,
        },
        _ => None,
    }
}

/// A field of a record is given under both of its names.
pub open spec fn node_field_repeated(members: Seq<(Seq<char>, JsonModel)>) -> bool {
    ||| given_twice(members, "type"@, "node_type"@)
    ||| given_twice(members, "commonName"@, "common_name"@)
    ||| given_twice(members, "commonDefinition"@, "common_definition"@)
    ||| given_twice(members, "installSubstructure"@, "install_substructure"@)
    ||| given_twice(members, "normalAssignmentNames"@, "normal_assignment_names"@)
}

/// The version tag of a definition is given under both of its names.
pub open spec fn definition_field_repeated(members: Seq<(Seq<char>, JsonModel)>) -> bool {
    given_twice(members, "visRelease"@, "vis_release"@)
}

/// The record that a JSON value describes, if it describes one.
pub open spec fn node_in(value: JsonModel) -> Option<NodeRecord> {
    match value {
        JsonModel::Object(members) => {
            let category = text_in(field(members, "category"@, "category"@));
            let node_type = text_in(field(members, "type"@, "node_type"@));
            let code = text_in(field(members, "code"@, "code"@));
            let name = optional_text_in(field(members, "name"@, "name"@));
            let common_name = optional_text_in(field(members, "commonName"@, "common_name"@));
            let definition = optional_text_in(field(members, "definition"@, "definition"@));
            let common_definition = optional_text_in(
                field(members, "commonDefinition"@, "common_definition"@),
            );
            let install_substructure = optional_flag_in(
                field(members, "installSubstructure"@, "install_substructure"@),
            );
            let names = optional_names_in(
                field(members, "normalAssignmentNames"@, "normal_assignment_names"@),
            );
            if !node_field_repeated(members) && category is Some && node_type is Some
                && code is Some && name is Some
                && common_name is Some && definition is Some && common_definition is Some
                && install_substructure is Some && names is Some {
                Some(
                    NodeRecord {
                        category: category->0,
                        node_type: node_type->0,
                        code: code->0,
                        name: name->0,
                        common_name: common_name->0,
                        definition: definition->0,
                        common_definition: common_definition->0,
                        install_substructure: install_substructure->0,
                        normal_assignment_names: names->0,
                    },
                )
            } else {
                None
            }
        },
        _ => None,
    }
}

/// The records that a list of JSON values describes, if each describes one.
pub open spec fn nodes_in(values: Seq<JsonModel>) -> Option<Seq<NodeRecord>> {
    if forall|i: int| 0 <= i < values.len() ==> node_in(#[trigger] values[i]) is Some {
        Some(Seq::new(values.len(), |i: int| node_in(values[i])->0))
    } else {
        None
    }
}

/// The edge that a JSON value describes: an array of two texts.
pub open spec fn edge_in(value: JsonModel) -> Option<(Seq<char>, Seq<char>)> {
    match value {
        JsonModel::Array(ends) => if ends.len() == 2 && ends[0] is Text && ends[1] is Text {
            Some((ends[0]->Text_0, ends[1]->Text_0))
        } else {
            None
        },
        _ => None,
    }
}

/// The edges that a list of JSON values describes, if each describes one.
pub open spec fn edges_in_list(values: Seq<JsonModel>) -> Option<Seq<(Seq<char>, Seq<char>)>> {
    if forall|i: int| 0 <= i < values.len() ==> edge_in(#[trigger] values[i]) is Some {
        Some(Seq::new(values.len(), |i: int| edge_in(values[i])->0))
    } else {
        None
    }
}

/// The items of an array.
pub open spec fn items_in(value: Option<JsonModel>) -> Option<Seq<JsonModel>> {
    match value {
        Some(JsonModel::Array(items)) => Some(items),
        _ => None,
    }
}

/// The definition that a JSON document describes, if it describes one.
pub open spec fn definition_in(value: JsonModel) -> Option<Definition> {
    match value {
        JsonModel::Object(members) => {
            let vis_release = text_in(field(members, "visRelease"@, "vis_release"@));
            let items = match items_in(field(members, "items"@, "items"@)) {
                Some(values) => nodes_in(values),
                None => None,
            };
            let relations = match items_in(field(members, "relations"@, "relations"@)) {
                Some(values) => edges_in_list(values),
                None => None,
            };
            if !definition_field_repeated(members) && vis_release is Some && items is Some
                && relations is Some {
                Some(
                    Definition {
                        vis_release: vis_release->0,
                        items: items->0,
                        relations: relations->0,
                    },
                )
            } else {
                None
            }
        },
        _ => None,
    }
}

/// Reads the text that a member has to hold.
pub fn read_text(value: Option<&JsonValue>) -> (text: Option<String>)
    ensures
        text_of(text) == text_in(said(value)),
{
    match value {
        Some(JsonValue::Text(text)) => Some(text.clone()),
        _ => None,
    }
}

/// Reads the text that a member may hold.
pub fn read_optional_text(value: Option<&JsonValue>) -> (read: Option<Option<String>>)
    ensures
        match optional_text_in(said(value)) {
            Some(text) => read matches Some(held) && text_of(held) == text,
            None => read is None,
        },
{
    match value {
        None => Some(None),
        Some(JsonValue::Null) => Some(None),
        Some(JsonValue::Text(text)) => Some(Some(text.clone())),
        _ => None,
    }
}

/// Reads the flag that a member may hold.
pub fn read_optional_flag(value: Option<&JsonValue>) -> (read: Option<Option<bool>>)
    ensures
        read == optional_flag_in(said(value)),
{
    match value {
        None => Some(None),
        Some(JsonValue::Null) => Some(None),
        Some(JsonValue::Bool(flag)) => Some(Some(*flag)),
        _ => None,
    }
}

/// Reads the names and texts of an object whose members all hold text.
pub fn read_names(members: &Vec<(String, JsonValue)>) -> (read: Option<Vec<(String, String)>>)
    ensures
        match names_in(members_of(members@)) {
            Some(names) => read matches Some(held) && pairs_of(held@) == names,
            None => read is None,
        },
{
    let ghost said = members_of(members@);
    let mut names: Vec<(String, String)> = Vec::with_capacity(members.len());
    let mut i: usize = 0;
    while i < members.len()
        invariant
            said == members_of(members@),
            i <= members@.len(),
            names@.len() == i,
            forall|j: int| 0 <= j < i ==> (#[trigger] said[j]).1 is Text,
            forall|j: int|
                0 <= j < i ==> (#[trigger] names@[j]).0@ == said[j].0 && names@[j].1@
                    == said[j].1->Text_0,
        decreases members@.len() - i,
    {
        match &members[i].1 {
            JsonValue::Text(text) => {
                names.push((members[i].0.clone(), text.clone()));
            },
            _ => {
                assert(!(said[i as int].1 is Text));
                return None;
            },
        }
        i += 1;
    }
    assert(pairs_of(names@) =~= names_in(said)->0);
    Some(names)
}

/// Reads the names that a member may hold.
pub fn read_optional_names(value: Option<&JsonValue>) -> (read: Option<
    Option<Vec<(String, String)>>,
>)
    ensures
        match optional_names_in(said(value)) {
            Some(Some(names)) => read matches Some(Some(held)) && pairs_of(held@) == names,
            Some(None) => read matches Some(None),
            None => read is None,
        },
{
    match value {
        None => Some(None),
        Some(JsonValue::Null) => Some(None),
        Some(JsonValue::Object(members)) => {
            proof {
                lemma_object_model(*members);
            }
            match read_names(members) {
                Some(names) => Some(Some(names)),
                None => None,
            }
        },
        _ => None,
    }
}

/// Reads the record that a JSON value describes.
pub fn read_node(value: &JsonValue) -> (read: Option<GmodNodeDto>)
    ensures
        match node_in(value.model()) {
            Some(record) => read matches Some(node) && node@ == record,
            None => read is None,
        },
{
    let members = match value {
        JsonValue::Object(members) => members,
        _ => {
            return None;
        },
    };
    proof {
        lemma_object_model(*members);
    }
    if is_given_twice(members, "type", "node_type") || is_given_twice(
        members,
        "commonName",
        "common_name",
    ) || is_given_twice(members, "commonDefinition", "common_definition") || is_given_twice(
        members,
        "installSubstructure",
        "install_substructure",
    ) || is_given_twice(members, "normalAssignmentNames", "normal_assignment_names") {
        return None;
    }
    let category = match read_text(find_field(members, "category", "category")) {
        Some(text) => text,
        None => {
            return None;
        },
    };
    let node_type = match read_text(find_field(members, "type", "node_type")) {
        Some(text) => text,
        None => {
            return None;
        },
    };
    let code = match read_text(find_field(members, "code", "code")) {
        Some(text) => text,
        None => {
            return None;
        },
    };
    let name = match read_optional_text(find_field(members, "name", "name")) {
        Some(text) => text,
        None => {
            return None;
        },
    };
    let common_name = match read_optional_text(find_field(members, "commonName", "common_name")) {
        Some(text) => text,
        None => {
            return None;
        },
    };
    let definition = match read_optional_text(find_field(members, "definition", "definition")) {
        Some(text) => text,
        None => {
            return None;
        },
    };
    let common_definition = match read_optional_text(
        find_field(members, "commonDefinition", "common_definition"),
    ) {
        Some(text) => text,
        None => {
            return None;
        },
    };
    let install_substructure = match read_optional_flag(
        find_field(members, "installSubstructure", "install_substructure"),
    ) {
        Some(flag) => flag,
        None => {
            return None;
        },
    };
    let normal_assignment_names = match read_optional_names(
        find_field(members, "normalAssignmentNames", "normal_assignment_names"),
    ) {
        Some(names) => names,
        None => {
            return None;
        },
    };
    Some(
        GmodNodeDto {
            category,
            node_type,
            code,
            name,
            common_name,
            definition,
            common_definition,
            install_substructure,
            normal_assignment_names,
        },
    )
}

/// Reads the records that a list of JSON values describes.
pub fn read_nodes(values: &Vec<JsonValue>) -> (read: Option<Vec<GmodNodeDto>>)
    ensures
        match nodes_in(models_of(values@)) {
            Some(records) => read matches Some(nodes) && nodes@.map_values(
                |node: GmodNodeDto| node@,
            ) == records,
            None => read is None,
        },
{
    let ghost said = models_of(values@);
    let mut nodes: Vec<GmodNodeDto> = Vec::with_capacity(values.len());
    let mut i: usize = 0;
    while i < values.len()
        invariant
            said == models_of(values@),
            i <= values@.len(),
            nodes@.len() == i,
            forall|j: int| 0 <= j < i ==> node_in(#[trigger] said[j]) is Some,
            forall|j: int| 0 <= j < i ==> (#[trigger] nodes@[j])@ == node_in(said[j])->0,
        decreases values@.len() - i,
    {
        match read_node(&values[i]) {
            Some(node) => {
                nodes.push(node);
            },
            None => {
                assert(node_in(said[i as int]) is None);
                return None;
            },
        }
        i += 1;
    }
    assert(nodes@.map_values(|node: GmodNodeDto| node@) =~= nodes_in(said)->0);
    Some(nodes)
}

/// Reads the edge that a JSON value describes.
pub fn read_edge(value: &JsonValue) -> (read: Option<[String; 2]>)
    ensures
        match edge_in(value.model()) {
            Some(edge) => read matches Some(pair) && (pair@[0]@, pair@[1]@) == edge,
            None => read is None,
        },
{
    let ends = match value {
        JsonValue::Array(ends) => ends,
        _ => {
            return None;
        },
    };
    proof {
        lemma_array_model(*ends);
    }
    if ends.len() != 2 {
        return None;
    }
    let parent = match &ends[0] {
        JsonValue::Text(text) => text.clone(),
        _ => {
            assert(!(models_of(ends@)[0] is Text));
            return None;
        },
    };
    let child = match &ends[1] {
        JsonValue::Text(text) => text.clone(),
        _ => {
            assert(!(models_of(ends@)[1] is Text));
            return None;
        },
    };
    assert(models_of(ends@)[0] == JsonModel::Text(parent@));
    assert(models_of(ends@)[1] == JsonModel::Text(child@));
    Some([parent, child])
}

/// Reads the edges that a list of JSON values describes.
pub fn read_edges(values: &Vec<JsonValue>) -> (read: Option<Vec<[String; 2]>>)
    ensures
        match edges_in_list(models_of(values@)) {
            Some(edges) => read matches Some(pairs) && pairs@.map_values(
                |pair: [String; 2]| (pair@[0]@, pair@[1]@),
            ) == edges,
            None => read is None,
        },
{
    let ghost said = models_of(values@);
    let mut pairs: Vec<[String; 2]> = Vec::with_capacity(values.len());
    let mut i: usize = 0;
    while i < values.len()
        invariant
            said == models_of(values@),
            i <= values@.len(),
            pairs@.len() == i,
            forall|j: int| 0 <= j < i ==> edge_in(#[trigger] said[j]) is Some,
            forall|j: int|
                0 <= j < i ==> ((#[trigger] pairs@[j])@[0]@, pairs@[j]@[1]@) == edge_in(said[j])->0,
        decreases values@.len() - i,
    {
        match read_edge(&values[i]) {
            Some(pair) => {
                pairs.push(pair);
            },
            None => {
                assert(edge_in(said[i as int]) is None);
                return None;
            },
        }
        i += 1;
    }
    assert(pairs@.map_values(|pair: [String; 2]| (pair@[0]@, pair@[1]@)) =~= edges_in_list(
        said,
    )->0);
    Some(pairs)
}

/// The items of an array that a member has to hold.
pub fn read_items<'a>(value: Option<&'a JsonValue>) -> (read: Option<&'a Vec<JsonValue>>)
    ensures
        match items_in(said(value)) {
            Some(items) => read matches Some(held) && models_of(held@) == items,
            None => read is None,
        },
{
    match value {
        Some(JsonValue::Array(items)) => {
            proof {
                lemma_array_model(*items);
            }
            Some(items)
        },
        _ => None,
    }
}

/// Reads the definition that a JSON document describes, if it describes one.
pub fn read_definition(value: &JsonValue) -> (read: Option<GmodDto>)
    ensures
        match definition_in(value.model()) {
            Some(definition) => read matches Some(dto) && dto@ == definition,
            None => read is None,
        },
{
    let members = match value {
        JsonValue::Object(members) => members,
        _ => {
            return None;
        },
    };
    proof {
        lemma_object_model(*members);
    }
    if is_given_twice(members, "visRelease", "vis_release") {
        return None;
    }
    let vis_release = match read_text(find_field(members, "visRelease", "vis_release")) {
        Some(text) => text,
        None => {
            return None;
        },
    };
    let items = match read_items(find_field(members, "items", "items")) {
        Some(values) => match read_nodes(values) {
            Some(nodes) => nodes,
            None => {
                return None;
            },
        },
        None => {
            return None;
        },
    };
    let relations = match read_items(find_field(members, "relations", "relations")) {
        Some(values) => match read_edges(values) {
            Some(pairs) => pairs,
            None => {
                return None;
            },
        },
        None => {
            return None;
        },
    };
    Some(GmodDto { vis_release, items, relations })
}

} // verus!
