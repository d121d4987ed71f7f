use vstd::prelude::*;
use crate::util::database::structs::Source;
use crate::util::lists::{lemma_select_step, select};
use crate::util::text::{lemma_split_char_nonempty, split_char, split_string, str_equal, string_from_str, strings_view};

verus! {

/// A node of a KDL document, as the `kdl` crate parses it.
#[verifier::external_type_specification]
#[verifier::external_body]
pub struct ExKdlNode(kdl::KdlNode);

/// Error for a configuration entry that the KDL configuration lacks.
#[derive(Debug)]
pub struct ConfigError;

impl ConfigError {
    /// The message shown for this error.
    pub fn message(&self) -> (r: String)
        ensures
            r@ == "Error getting config!"@,
    {
        string_from_str("Error getting config!")
    }
}

/// A node of the KDL configuration: its name, the text of each of its
/// values, the name and the text of the value of each of its properties, and
/// its children. A value's text is how KDL writes it (a string in double
/// quotes, `true`, a number).
#[derive(Debug)]
pub struct ConfigNode {
    pub name: String,
    pub values: Vec<String>,
    pub properties: Vec<(String, String)>,
    pub children: Vec<ConfigNode>,
}

/// The mathematical content of a [`ConfigNode`]: the properties as a map
/// from name to the text of the value.
pub struct NodeView {
    pub name: Seq<char>,
    pub values: Seq<Seq<char>>,
    pub properties: Map<Seq<char>, Seq<char>>,
    pub children: Seq<NodeView>,
}

/// The properties as a map; where a name occurs twice, the first wins.
pub open spec fn properties_map(s: Seq<(String, String)>) -> Map<Seq<char>, Seq<char>>
    decreases s.len(),
{
    if s.len() == 0 {
        Map::empty()
    } else {
        properties_map(s.drop_first()).insert(s[0].0@, s[0].1@)
    }
}

/// The texts of a node's values.
pub open spec fn texts_view(s: Seq<String>) -> Seq<Seq<char>> {
    s.map_values(|t: String| t@)
}

/// The mathematical content of a node.
pub open spec fn node_view(n: ConfigNode) -> NodeView
    decreases n, 1int,
{
    NodeView {
        name: n.name@,
        values: texts_view(n.values@),
        properties: properties_map(n.properties@),
        children: nodes_view(n.children@),
    }
}

/// The mathematical content of a list of nodes.
pub open spec fn nodes_view(s: Seq<ConfigNode>) -> Seq<NodeView>
    decreases s, 0int,
{
    if s.len() == 0 {
        Seq::empty()
    } else {
        seq![node_view(s[0])] + nodes_view(s.drop_first())
    }
}

impl View for ConfigNode {
    type V = NodeView;

    open spec fn view(&self) -> NodeView {
        node_view(*self)
    }
}

/// The nodes that the `kdl` crate parses a document into, or `None` where
/// the text is no KDL document.
pub uninterp spec fn kdl_document(text: Seq<char>) -> Option<Seq<NodeView>>;

/// Parses a KDL document with `kdl::parse_document`. The contract claims that
/// the result is a function of the text alone, named [`kdl_document`], once
/// each property map is taken as a map (the crate keeps properties in a hash
/// map, whose order of iteration is not fixed; its names are unique).
#[verifier::external_body]
fn parse_kdl_document(text: &str) -> (r: Option<Vec<ConfigNode>>)
    ensures
        kdl_document(text@) == match r {
            Some(v) => Some(nodes_view(v@)),
            None => None,
        },
{
    match kdl::parse_document(text) {
        Ok(nodes) => Some(nodes.iter().map(config_node_from_kdl).collect()),
        Err(_) => None,
    }
}

/// Converts a node that `kdl::parse_document` gave, with its children, into a
/// [`ConfigNode`]: each value and property value is written with the crate's
/// `Display`. Only [`parse_kdl_document`] calls it, for the nested nodes; its
/// result is covered by that function's contract.
#[verifier::external_body]
fn config_node_from_kdl(node: &kdl::KdlNode) -> ConfigNode {
    ConfigNode {
        name: node.name.clone(),
        values: node.values.iter().map(|v| v.to_string()).collect(),
        properties: node.properties.iter().map(|(k, v)| (k.clone(), v.to_string())).collect(),
        children: node.children.iter().map(config_node_from_kdl).collect(),
    }
}

/// Parses the text of a KDL configuration file into its nodes, or `None`
/// where it is no KDL document.
pub fn load_config_nodes(text: &str) -> (r: Option<Vec<ConfigNode>>)
    ensures
        kdl_document(text@) == match r {
            Some(v) => Some(nodes_view(v@)),
            None => None,
        },
{
    parse_kdl_document(text)
}

/// Each node's view is the view of the node at the same place.
pub proof fn lemma_nodes_view(s: Seq<ConfigNode>)
    ensures
        nodes_view(s).len() == s.len(),
        forall|i: int| 0 <= i < s.len() ==> #[trigger] nodes_view(s)[i] == node_view(s[i]),
    decreases s.len(),
{
    if s.len() > 0 {
        lemma_nodes_view(s.drop_first());
        assert forall|i: int| 0 <= i < s.len() implies #[trigger] nodes_view(s)[i] == node_view(s[i]) by {
            if i > 0 {
                assert(s.drop_first()[i - 1] == s[i]);
            }
        }
    }
}

/// The first node named `name`.
pub open spec fn first_named(nodes: Seq<NodeView>, name: Seq<char>) -> Option<NodeView>
    decreases nodes.len(),
{
    if nodes.len() == 0 {
        None
    } else if nodes[0].name == name {
        Some(nodes[0])
    } else {
        first_named(nodes.drop_first(), name)
    }
}

/// What looking up an entry finds: a list of nodes, nothing, or no end (the
/// lookup goes on forever).
pub enum Lookup {
    Found(Seq<NodeView>),
    Missing,
    Endless,
}

/// Walking down the configuration along a dotted path, one level for each
/// segment but the last: at each level the first node of the segment's name
/// is entered; a level without it ends the walk as missing, or, where the
/// level holds no node at all, never ends it. What is found is the list of
/// nodes reached.
pub open spec fn descend(nodes: Seq<NodeView>, path: Seq<Seq<char>>) -> Lookup
    decreases path.len(),
{
    if path.len() <= 1 {
        Lookup::Found(nodes)
    } else {
        match first_named(nodes, path[0]) {
            Some(n) => descend(n.children, path.drop_first()),
            None => if nodes.len() == 0 {
                Lookup::Endless
            } else {
                Lookup::Missing
            },
        }
    }
}

/// Looking up a dotted entry in the configuration. An entry of one segment
/// gives the children of the first top-level node of that name (missing
/// where none has it, and the empty top level itself where there is none);
/// a longer entry walks down as [`descend`] says.
pub open spec fn config_lookup(nodes: Seq<NodeView>, entry: Seq<char>) -> Lookup {
    let path = split_char(entry, '.');
    if path.len() == 1 {
        match first_named(nodes, path[0]) {
            Some(n) => Lookup::Found(n.children),
            None => if nodes.len() == 0 {
                Lookup::Found(nodes)
            } else {
                Lookup::Missing
            },
        }
    } else {
        descend(nodes, path)
    }
}

/// The place of the first node named `name`.
fn position_named(nodes: &Vec<ConfigNode>, name: &str) -> (r: Option<usize>)
    ensures
        match r {
            Some(i) => i < nodes@.len() && first_named(nodes_view(nodes@), name@) == Some(node_view(nodes@[i as int])),
            None => first_named(nodes_view(nodes@), name@) is None,
        },
{
    proof {
        lemma_nodes_view(nodes@);
    }
    let ghost v = nodes_view(nodes@);
    let mut i: usize = 0;
    assert(v.skip(0) =~= v);
    while i < nodes.len()
        invariant
            v == nodes_view(nodes@),
            v.len() == nodes@.len(),
            forall|j: int| 0 <= j < nodes@.len() ==> #[trigger] v[j] == node_view(nodes@[j]),
            i <= nodes@.len(),
            first_named(v, name@) == first_named(v.skip(i as int), name@),
        decreases nodes.len() - i,
    {
        let ghost rest = v.skip(i as int);
        assert(rest[0] == v[i as int]);
        if str_equal(nodes[i].name.as_str(), name) {
            return Some(i);
        }
        assert(rest.drop_first() =~= v.skip(i + 1));
        i = i + 1;
    }
    assert(v.skip(i as int).len() == 0);
    None
}

/// Finds the nodes of a dotted configuration entry, such as `repos` or
/// `config.architecture`, in the nodes of the configuration. Where an entry
/// has more than one segment, the last one is not looked at: the nodes found
/// are those of the level that the segments before it lead into.
pub fn get_config_node(nodes: Vec<ConfigNode>, entry: &str) -> (r: Result<Vec<ConfigNode>, ConfigError>)
    requires
        !(config_lookup(nodes_view(nodes@), entry@) is Endless),
    ensures
        match config_lookup(nodes_view(nodes@), entry@) {
            Lookup::Found(v) => r is Ok && nodes_view(r->Ok_0@) == v,
            _ => r is Err,
        },
{
    let path = split_string(entry, '.');
    let ghost pv = strings_view(path@);
    proof {
        lemma_split_char_nonempty(entry@, '.');
    }
    assert(pv.len() == path@.len());
    let mut current = nodes;
    if path.len() == 1 {
        assert(pv[0] == path@[0]@);
        match position_named(&current, path[0].as_str()) {
            Some(i) => {
                let node = current.remove(i);
                return Ok(node.children);
            },
            None => {
                if current.len() == 0 {
                    return Ok(current);
                }
                return Err(ConfigError);
            },
        }
    }
    let mut k: usize = 0;
    assert(pv.skip(0) =~= pv);
    while k + 1 < path.len()
        invariant
            pv == strings_view(path@),
            pv == split_char(entry@, '.'),
            pv.len() == path@.len(),
            pv.len() > 1,
            k + 1 <= pv.len(),
            descend(nodes_view(current@), pv.skip(k as int)) == descend(nodes_view(nodes@), pv),
            !(descend(nodes_view(nodes@), pv) is Endless),
        decreases path.len() - k,
    {
        let ghost rest = pv.skip(k as int);
        assert(rest[0] == path@[k as int]@);
        assert(rest.drop_first() =~= pv.skip(k + 1));
        match position_named(&current, path[k].as_str()) {
            Some(i) => {
                let node = current.remove(i);
                current = node.children;
            },
            None => {
                return Err(ConfigError);
            },
        }
        k = k + 1;
    }
    assert(pv.skip(k as int).len() == 1);
    Ok(current)
}

/// The text of each value of the first node of a configuration entry (see
/// [`get_config_node`]).
pub fn get_config_values(nodes: Vec<ConfigNode>, entry: &str) -> (r: Vec<String>)
    requires
        config_lookup(nodes_view(nodes@), entry@) matches Lookup::Found(v) && v.len() > 0,
    ensures
        config_lookup(nodes_view(nodes@), entry@) matches Lookup::Found(v) && texts_view(r@) == v[0].values,
{
    let found = get_config_node(nodes, entry);
    match found {
        Ok(mut v) => {
            proof {
                lemma_nodes_view(v@);
            }
            let node = v.remove(0);
            node.values
        },
        Err(_) => {
            proof {
                assert(false);
            }
            Vec::new()
        },
    }
}

/// The nodes of a configuration entry (see [`get_config_node`]).
pub fn get_config_children(nodes: Vec<ConfigNode>, entry: &str) -> (r: Vec<ConfigNode>)
    requires
        config_lookup(nodes_view(nodes@), entry@) is Found,
    ensures
        config_lookup(nodes_view(nodes@), entry@) matches Lookup::Found(v) && nodes_view(r@) == v,
{
    let found = get_config_node(nodes, entry);
    match found {
        Ok(v) => v,
        Err(_) => {
            proof {
                assert(false);
            }
            Vec::new()
        },
    }
}

/// From the `i`-th property on, the properties say of `key` what all of them
/// say, where none before the `i`-th is named `key`.
proof fn lemma_properties_skip(s: Seq<(String, String)>, key: Seq<char>, i: int)
    requires
        0 <= i < s.len(),
        s[i].0@ != key,
    ensures
        properties_map(s.skip(i)).dom().contains(key) == properties_map(s.skip(i + 1)).dom().contains(key),
        properties_map(s.skip(i))[key] == properties_map(s.skip(i + 1))[key],
{
    assert(s.skip(i).drop_first() =~= s.skip(i + 1));
    assert(s.skip(i)[0] == s[i]);
}

/// The text of the value of the property named `key`, if there is one.
pub fn property_of(properties: &Vec<(String, String)>, key: &str) -> (r: Option<String>)
    ensures
        match r {
            Some(t) => properties_map(properties@).dom().contains(key@) && properties_map(properties@)[key@] == t@,
            None => !properties_map(properties@).dom().contains(key@),
        },
{
    let ghost s = properties@;
    let mut i: usize = 0;
    assert(s.skip(0) =~= s);
    while i < properties.len()
        invariant
            s == properties@,
            i <= s.len(),
            properties_map(s).dom().contains(key@) == properties_map(s.skip(i as int)).dom().contains(key@),
            properties_map(s)[key@] == properties_map(s.skip(i as int))[key@],
        decreases properties.len() - i,
    {
        if str_equal(properties[i].0.as_str(), key) {
            assert(s.skip(i as int)[0] == s[i as int]);
            return Some(properties[i].1.clone());
        }
        proof {
            lemma_properties_skip(s, key@, i as int);
        }
        i = i + 1;
    }
    assert(s.skip(i as int).len() == 0);
    None
}

/// Whether a repository node is active: its `active` property reads `true`.
pub open spec fn active_repo(n: NodeView) -> bool {
    n.properties["active"@] == "true"@
}

/// Whether `s` is the source that repository node `n` describes: the node's
/// name, and the text of its `url` property where it has one.
pub open spec fn source_from(s: Source, n: NodeView) -> bool {
    &&& s.name@ == n.name
    &&& match s.url {
        Some(u) => n.properties.dom().contains("url"@) && u@ == n.properties["url"@],
        None => !n.properties.dom().contains("url"@),
    }
}

/// The sources of the KDL configuration: one for each active node under
/// `repos`, in order. Each such node has an `active` property.
pub fn get_sources(nodes: Vec<ConfigNode>) -> (r: Vec<Source>)
    requires
        config_lookup(nodes_view(nodes@), "repos"@) matches Lookup::Found(v)
            && forall|i: int| 0 <= i < v.len() ==> #[trigger] v[i].properties.dom().contains("active"@),
    ensures
        config_lookup(nodes_view(nodes@), "repos"@) matches Lookup::Found(v) && ({
            let act = select(v, |n: NodeView| active_repo(n));
            &&& r@.len() == act.len()
            &&& forall|i: int| 0 <= i < act.len() ==> #[trigger] source_from(r@[i], act[i])
        }),
{
    let ghost v = match config_lookup(nodes_view(nodes@), "repos"@) {
        Lookup::Found(v) => v,
        _ => Seq::empty(),
    };
    let repos = get_config_children(nodes, "repos");
    proof {
        lemma_nodes_view(repos@);
    }
    let ghost pred = |n: NodeView| active_repo(n);
    let mut sources: Vec<Source> = Vec::new();
    let mut i: usize = 0;
    assert(v.take(0) =~= Seq::<NodeView>::empty());
    while i < repos.len()
        invariant
            v == nodes_view(repos@),
            v.len() == repos@.len(),
            forall|j: int| 0 <= j < repos@.len() ==> #[trigger] v[j] == node_view(repos@[j]),
            forall|j: int| 0 <= j < v.len() ==> #[trigger] v[j].properties.dom().contains("active"@),
            pred == (|n: NodeView| active_repo(n)),
            i <= repos@.len(),
            sources@.len() == select(v.take(i as int), pred).len(),
            forall|j: int| 0 <= j < sources@.len() ==> #[trigger] source_from(sources@[j], select(v.take(i as int), pred)[j]),
        decreases repos.len() - i,
    {
        proof {
            lemma_select_step(v, pred, i as int);
        }
        let node = &repos[i];
        assert(v[i as int] == node_view(*node));
        assert(v[i as int].properties.dom().contains("active"@));
        let active = property_of(&node.properties, "active");
        match active {
            Some(a) => {
                if str_equal(a.as_str(), "true") {
                    let url = property_of(&node.properties, "url");
                    let src = Source { name: node.name.clone(), url: url };
                    assert(source_from(src, v[i as int]));
                    sources.push(src);
                    assert(select(v.take(i as int), pred).push(v[i as int]) == select(v.take(i as int + 1), pred));
                    assert forall|j: int| 0 <= j < sources@.len() implies #[trigger] source_from(sources@[j], select(v.take(i as int + 1), pred)[j]) by {
                        if j + 1 < sources@.len() {
                            assert(select(v.take(i as int + 1), pred)[j] == select(v.take(i as int), pred)[j]);
                        }
                    }
                }
            },
            None => {
                proof {
                    assert(false);
                }
            },
        }
        i = i + 1;
    }
    assert(v.take(v.len() as int) =~= v);
    sources
}

/// Text without the separator splits into one piece, itself.
proof fn lemma_split_without_separator(s: Seq<char>, sep: char)
    requires
        forall|i: int| 0 <= i < s.len() ==> s[i] != sep,
    ensures
        split_char(s, sep) == seq![s],
    decreases s.len(),
{
    if s.len() > 0 {
        lemma_split_without_separator(s.drop_last(), sep);
        assert(s.drop_last().push(s.last()) =~= s);
    } else {
        assert(s =~= Seq::<char>::empty());
    }
}

/// Looking up an entry without a dot always ends: it finds the children of
/// the first top-level node of that name, the empty top level where there is
/// no node, or nothing.
pub proof fn law_single_segment_lookup_ends(nodes: Seq<NodeView>, entry: Seq<char>)
    requires
        forall|i: int| 0 <= i < entry.len() ==> entry[i] != '.',
    ensures
        !(config_lookup(nodes, entry) is Endless),
        first_named(nodes, entry) matches Some(n) ==> config_lookup(nodes, entry) == Lookup::Found(n.children),
{
    lemma_split_without_separator(entry, '.');
}

} // verus!
