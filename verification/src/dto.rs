//! The plain definition of a taxonomy as a record source hands it over: a
//! version tag, node records in order, and parent/child code pairs.

use vstd::hash_map::StringHashMap;
use vstd::prelude::*;

verus! {

/// The characters of an optional string.
pub open spec fn text_of(text: Option<String>) -> Option<Seq<char>> {
    match text {
        Some(t) => Some(t@),
        None => None,
    }
}

/// The characters of each name and value of a list of pairs.
pub open spec fn pairs_of(pairs: Seq<(String, String)>) -> Seq<(Seq<char>, Seq<char>)> {
    pairs.map_values(|pair: (String, String)| (pair.0@, pair.1@))
}

/// A copy of an optional string.
pub fn copy_text(text: &Option<String>) -> (copy: Option<String>)
    ensures
        text_of(copy) == text_of(*text),
{
    match text {
        Some(t) => Some(t.clone()),
        None => None,
    }
}

/// A copy of a list of pairs of strings.
pub fn copy_pairs(pairs: &Vec<(String, String)>) -> (copy: Vec<(String, String)>)
    ensures
        pairs_of(copy@) == pairs_of(pairs@),
{
    let mut copy: Vec<(String, String)> = Vec::with_capacity(pairs.len());
    let mut i: usize = 0;
    while i < pairs.len()
        invariant
            i <= pairs@.len(),
            copy@.len() == i,
            forall|j: int| 0 <= j < i ==> copy@[j].0@ == pairs@[j].0@ && copy@[j].1@ == pairs@[j].1@,
        decreases pairs@.len() - i,
    {
        copy.push((pairs[i].0.clone(), pairs[i].1.clone()));
        i += 1;
    }
    assert(pairs_of(copy@) =~= pairs_of(pairs@));
    copy
}

/// One node of a definition.
#[derive(Debug)]
pub struct GmodNodeDto {
    pub category: String,
    pub node_type: String,
    pub code: String,
    pub name: Option<String>,
    pub common_name: Option<String>,
    pub definition: Option<String>,
    pub common_definition: Option<String>,
    pub install_substructure: Option<bool>,
    /// Normal-assignment names: pairs of a name and its text.
    pub normal_assignment_names: Option<Vec<(String, String)>>,
}

/// What a node record says.
pub struct NodeRecord {
    pub category: Seq<char>,
    pub node_type: Seq<char>,
    pub code: Seq<char>,
    pub name: Option<Seq<char>>,
    pub common_name: Option<Seq<char>>,
    pub definition: Option<Seq<char>>,
    pub common_definition: Option<Seq<char>>,
    pub install_substructure: Option<bool>,
    pub normal_assignment_names: Option<Seq<(Seq<char>, Seq<char>)>>,
}

impl View for GmodNodeDto {
    type V = NodeRecord;

    open spec fn view(&self) -> NodeRecord {
        NodeRecord {
            category: self.category@,
            node_type: self.node_type@,
            code: self.code@,
            name: text_of(self.name),
            common_name: text_of(self.common_name),
            definition: text_of(self.definition),
            common_definition: text_of(self.common_definition),
            install_substructure: self.install_substructure,
            normal_assignment_names: match self.normal_assignment_names {
                Some(pairs) => Some(pairs_of(pairs@)),
                None => None,
            },
        }
    }
}

impl GmodNodeDto {
    /// A copy of this record.
    pub fn copy(&self) -> (copy: GmodNodeDto)
        ensures
            copy@ == self@,
    {
        GmodNodeDto {
            category: self.category.clone(),
            node_type: self.node_type.clone(),
            code: self.code.clone(),
            name: copy_text(&self.name),
            common_name: copy_text(&self.common_name),
            definition: copy_text(&self.definition),
            common_definition: copy_text(&self.common_definition),
            install_substructure: self.install_substructure,
            normal_assignment_names: match &self.normal_assignment_names {
                Some(pairs) => Some(copy_pairs(pairs)),
                None => None,
            },
        }
    }
}

/// A whole definition: the version it is for, its nodes, and its edges as
/// (parent code, child code).
#[derive(Debug)]
pub struct GmodDto {
    pub vis_release: String,
    pub items: Vec<GmodNodeDto>,
    pub relations: Vec<[String; 2]>,
}

/// What a definition says.
pub struct Definition {
    pub vis_release: Seq<char>,
    pub items: Seq<NodeRecord>,
    pub relations: Seq<(Seq<char>, Seq<char>)>,
}

impl View for GmodDto {
    type V = Definition;

    open spec fn view(&self) -> Definition {
        Definition {
            vis_release: self.vis_release@,
            items: self.items@.map_values(|item: GmodNodeDto| item@),
            relations: self.relations@.map_values(|pair: [String; 2]| (pair@[0]@, pair@[1]@)),
        }
    }
}

/// The code of the node that every taxonomy hangs from.
pub open spec fn root_code() -> Seq<char> {
    "VE"@
}

impl Definition {
    /// The codes of the nodes, in the order of the records.
    pub open spec fn codes(self) -> Seq<Seq<char>> {
        self.items.map_values(|item: NodeRecord| item.code)
    }

    /// Whether some record carries `code`.
    pub open spec fn lists(self, code: Seq<char>) -> bool {
        self.codes().contains(code)
    }

    /// The position of the record that carries `code`.
    pub open spec fn position(self, code: Seq<char>) -> int {
        self.codes().index_of(code)
    }

    /// Structural consistency: no code is listed twice, the root is listed,
    /// every edge joins two listed codes, and the positions fit in 32 bits.
    pub open spec fn consistent(self) -> bool {
        &&& self.items.len() <= u32::MAX
        &&& self.codes().no_duplicates()
        &&& self.lists(root_code())
        &&& forall|k: int|
            0 <= k < self.relations.len() ==> self.lists((#[trigger] self.relations[k]).0)
                && self.lists(self.relations[k].1)
    }
}

impl GmodDto {
    /// Whether the definition is structurally consistent.
    pub fn is_consistent(&self) -> (ok: bool)
        ensures
            ok == self@.consistent(),
    {
        let ghost d = self@;
        let ghost codes = d.codes();
        if self.items.len() > u32::MAX as usize {
            return false;
        }
        let mut seen: StringHashMap<bool> = StringHashMap::new();
        let mut i: usize = 0;
        while i < self.items.len()
            invariant
                d == self@,
                codes == d.codes(),
                i <= self.items@.len(),
                forall|code: Seq<char>| #[trigger]
                    seen@.contains_key(code) <==> exists|j: int| 0 <= j < i && codes[j] == code,
                forall|a: int, b: int| 0 <= a < b < i ==> codes[a] != codes[b],
            decreases self.items@.len() - i,
        {
            let code = &self.items[i].code;
            assert(codes[i as int] == code@);
            if seen.contains_key(code.as_str()) {
                proof {
                    let j = choose|j: int| 0 <= j < i && codes[j] == code@;
                    assert(codes[j] == codes[i as int] && j != i);
                }
                return false;
            }
            let ghost before = seen@;
            seen.insert(code.clone(), true);
            proof {
                assert forall|code: Seq<char>| #[trigger]
                    seen@.contains_key(code) <==> exists|j: int|
                        0 <= j < i + 1 && codes[j] == code by {
                    if before.contains_key(code) {
                        let j = choose|j: int| 0 <= j < i && codes[j] == code;
                        assert(0 <= j < i + 1 && codes[j] == code);
                    }
                    if code == codes[i as int] {
                        assert(0 <= i < i + 1 && codes[i as int] == code);
                    }
                }
                assert forall|a: int, b: int| 0 <= a < b < i + 1 implies codes[a] != codes[b] by {
                    if b == i {
                        assert(!before.contains_key(codes[i as int]));
                    }
                }
            }
            i += 1;
        }
        assert(codes.no_duplicates());
        assert forall|code: Seq<char>| #[trigger] seen@.contains_key(code) <==> d.lists(code) by {
            if d.lists(code) {
                let j = choose|j: int| 0 <= j < codes.len() && codes[j] == code;
                assert(0 <= j < i && codes[j] == code);
            }
        }
        if !seen.contains_key("VE") {
            return false;
        }
        let mut k: usize = 0;
        while k < self.relations.len()
            invariant
                d == self@,
                k <= self.relations@.len(),
                forall|code: Seq<char>| #[trigger] seen@.contains_key(code) <==> d.lists(code),
                forall|m: int|
                    0 <= m < k ==> d.lists((#[trigger] d.relations[m]).0) && d.lists(
                        d.relations[m].1,
                    ),
            decreases self.relations@.len() - k,
        {
            let pair = &self.relations[k];
            assert(d.relations[k as int] == (pair@[0]@, pair@[1]@));
            if !seen.contains_key(pair[0].as_str()) || !seen.contains_key(pair[1].as_str()) {
                return false;
            }
            k += 1;
        }
        true
    }
}

} // verus!
