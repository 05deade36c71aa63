//! The dataset graph: resource, layer and tile-set nodes wired by edges,
//! with the constructors that mint node identities.
//!
//! Coordinates and zoom levels in tile-set data are carried as integers in
//! millionths of a unit, so that the bounds rules can be checked here.

use vstd::prelude::*;
use crate::strutil::{
    chars_to_string, hex_str, push_str_chars, seq_starts_with, str_eq_string,
};

verus! {

/// The kind of a node.
#[derive(Clone, Copy, Debug, PartialEq, Eq, Structural)]
pub enum NodeType {
    Resource,
    Layer,
    Xyz,
}

/// An imported data source.
pub struct ResourceData {
    pub resource_type: String,
    pub file_path: Vec<String>,
    pub size: u64,
    pub create_timestamp: i64,
    pub hash: String,
    pub srid: String,
    pub duckdb_table_name: String,
}

/// A styled selection over a resource.
pub struct LayerData {
    pub source_resource_id: String,
    pub fields: Option<Vec<String>>,
    pub minzoom: u32,
    pub maxzoom: u32,
}

/// One layer reference inside a tile set.
pub struct XyzLayerRef {
    pub id: String,
    pub source_layer_id: String,
}

/// A published tile set over one or more layers. Center coordinates and
/// bounds are in millionths (longitude, latitude, zoom).
pub struct XyzData {
    pub center: Vec<i64>,
    pub min_zoom: u32,
    pub max_zoom: u32,
    pub fillzoom: u32,
    pub bounds: Vec<i64>,
    pub layers: Vec<XyzLayerRef>,
}

/// The payload of a node.
pub enum NodeData {
    Resource(ResourceData),
    Layer(LayerData),
    Xyz(XyzData),
}

/// One node of the graph.
pub struct Node {
    pub id: String,
    pub node_type: NodeType,
    pub name: String,
    pub description: Option<String>,
    pub readonly: bool,
    pub data: NodeData,
}

/// One directed edge of the graph.
pub struct Edge {
    pub id: String,
    pub source: String,
    pub target: String,
}

/// The whole graph configuration.
pub struct Config {
    pub version: String,
    pub nodes: Vec<Node>,
    pub edges: Vec<Edge>,
}

/// What xxHash64 computes over a byte string and a seed: a function of
/// its arguments alone.
pub uninterp spec fn xxh64_of(input: Seq<u8>, seed: u64) -> u64;

pub assume_specification[ xxhash_rust::xxh64::xxh64 ](input: &[u8], seed: u64) -> (r: u64)
    ensures
        r == xxh64_of(input@, seed),
;

/// Relies on uuid::Uuid::new_v4 printed in uppercase hex: a fresh random
/// identity, written as 36 characters (hyphenated groups).
#[verifier::external_body]
fn uuid_upper_hex() -> (r: String)
    ensures
        r@.len() == 36,
{
    format!("{:X}", uuid::Uuid::new_v4())
}

/// Relies on chrono::Utc::now: the current Unix timestamp; nothing can be
/// promised of the clock.
#[verifier::external_body]
fn now_timestamp() -> (r: i64)
{
    chrono::Utc::now().timestamp()
}

/// The comma-joined view of a path list.
pub open spec fn spec_join_commas(parts: Seq<String>) -> Seq<char>
    decreases parts.len(),
{
    if parts.len() == 0 {
        Seq::empty()
    } else if parts.len() == 1 {
        parts[0]@
    } else {
        spec_join_commas(parts.drop_last()) + ","@ + parts[parts.len() - 1]@
    }
}

fn join_commas(parts: &Vec<String>) -> (r: String)
    ensures
        r@ == spec_join_commas(parts@),
{
    let n: usize = parts.len();
    let mut out: Vec<char> = Vec::new();
    let mut i: usize = 0;
    while i < n
        invariant
            n == parts@.len(),
            i <= n,
            out@ == spec_join_commas(parts@.subrange(0, i as int)),
        decreases n - i,
    {
        if i > 0 {
            push_str_chars(&mut out, ",");
        }
        push_str_chars(&mut out, parts[i].as_str());
        i = i + 1;
        proof {
            let cur = parts@.subrange(0, i as int);
            assert(cur.drop_last() =~= parts@.subrange(0, i as int - 1));
            assert(cur[cur.len() - 1] == parts@[i as int - 1]);
            assert(out@ =~= spec_join_commas(cur));
        }
    }
    proof {
        assert(parts@.subrange(0, n as int) =~= parts@);
    }
    chars_to_string(&out)
}

impl Node {
    /// Mints a resource node from an imported shapefile: read-only, with
    /// the content hash of its comma-joined paths.
    pub fn new_resource(
        name: String,
        description: Option<String>,
        file_path: Vec<String>,
        size: u64,
        srid: String,
        duckdb_table_name: String,
    ) -> (r: Node)
        ensures
            r.node_type is Resource,
            r.readonly,
            seq_starts_with(r.id@, "RES_"@),
            r.name@ == name@,
            r.data matches NodeData::Resource(d) && d.resource_type@ == "shapefile"@ && d.file_path
                == file_path && d.size == size && d.srid@ == srid@ && d.duckdb_table_name@
                == duckdb_table_name@ && d.hash@ == hex_str(
                xxh64_of(
                    vstd::utf8::encode_utf8(spec_join_commas(file_path@)),
                    0,
                ) as nat,
            ),
    {
        let joined = join_commas(&file_path);
        let digest = xxhash_rust::xxh64::xxh64(joined.as_str().as_bytes(), 0);
        let hash_chars = crate::strutil::u64_to_hex_chars(digest);
        let hash = chars_to_string(&hash_chars);
        let create_timestamp = now_timestamp();
        let uuid_part = uuid_upper_hex();
        let mut idc: Vec<char> = Vec::new();
        push_str_chars(&mut idc, "RES_");
        push_str_chars(&mut idc, uuid_part.as_str());
        let id = chars_to_string(&idc);
        proof {
            reveal_strlit("RES_");
            assert(id@.subrange(0, 4) =~= "RES_"@);
        }
        Node {
            id,
            node_type: NodeType::Resource,
            name,
            description,
            readonly: true,
            data: NodeData::Resource(
                ResourceData {
                    resource_type: "shapefile".to_owned(),
                    file_path,
                    size,
                    create_timestamp,
                    hash,
                    srid,
                    duckdb_table_name,
                },
            ),
        }
    }

    /// Mints a layer node over a resource.
    pub fn new_layer(
        name: String,
        description: Option<String>,
        source_resource_id: String,
        fields: Option<Vec<String>>,
        minzoom: u32,
        maxzoom: u32,
    ) -> (r: Node)
        ensures
            r.node_type is Layer,
            !r.readonly,
            seq_starts_with(r.id@, "LAYER_"@),
            r.name@ == name@,
            r.data matches NodeData::Layer(d) && d.source_resource_id@ == source_resource_id@
                && d.fields == fields && d.minzoom == minzoom && d.maxzoom == maxzoom,
    {
        let uuid_part = uuid_upper_hex();
        let mut idc: Vec<char> = Vec::new();
        push_str_chars(&mut idc, "LAYER_");
        push_str_chars(&mut idc, uuid_part.as_str());
        let id = chars_to_string(&idc);
        proof {
            reveal_strlit("LAYER_");
            assert(id@.subrange(0, 6) =~= "LAYER_"@);
        }
        Node {
            id,
            node_type: NodeType::Layer,
            name,
            description,
            readonly: false,
            data: NodeData::Layer(
                LayerData { source_resource_id, fields, minzoom, maxzoom },
            ),
        }
    }

    /// Mints a tile-set node over its layer references.
    pub fn new_xyz(
        name: String,
        description: Option<String>,
        center: Vec<i64>,
        min_zoom: u32,
        max_zoom: u32,
        fillzoom: u32,
        bounds: Vec<i64>,
        layers: Vec<XyzLayerRef>,
    ) -> (r: Node)
        ensures
            r.node_type is Xyz,
            !r.readonly,
            seq_starts_with(r.id@, "XYZ_"@),
            r.name@ == name@,
            r.data matches NodeData::Xyz(d) && d.center == center && d.min_zoom == min_zoom
                && d.max_zoom == max_zoom && d.fillzoom == fillzoom && d.bounds == bounds
                && d.layers == layers,
    {
        let uuid_part = uuid_upper_hex();
        let mut idc: Vec<char> = Vec::new();
        push_str_chars(&mut idc, "XYZ_");
        push_str_chars(&mut idc, uuid_part.as_str());
        let id = chars_to_string(&idc);
        proof {
            reveal_strlit("XYZ_");
            assert(id@.subrange(0, 4) =~= "XYZ_"@);
        }
        Node {
            id,
            node_type: NodeType::Xyz,
            name,
            description,
            readonly: false,
            data: NodeData::Xyz(
                XyzData { center, min_zoom, max_zoom, fillzoom, bounds, layers },
            ),
        }
    }

    /// The resource payload, when this is a resource node.
    pub fn get_resource_data(&self) -> (r: Option<&ResourceData>)
        ensures
            match r {
                Some(d) => self.data matches NodeData::Resource(x) && x == *d,
                None => !(self.data is Resource),
            },
    {
        match &self.data {
            NodeData::Resource(d) => Some(d),
            _ => None,
        }
    }

    /// The layer payload, when this is a layer node.
    pub fn get_layer_data(&self) -> (r: Option<&LayerData>)
        ensures
            match r {
                Some(d) => self.data matches NodeData::Layer(x) && x == *d,
                None => !(self.data is Layer),
            },
    {
        match &self.data {
            NodeData::Layer(d) => Some(d),
            _ => None,
        }
    }

    /// The tile-set payload, when this is a tile-set node.
    pub fn get_xyz_data(&self) -> (r: Option<&XyzData>)
        ensures
            match r {
                Some(d) => self.data matches NodeData::Xyz(x) && x == *d,
                None => !(self.data is Xyz),
            },
    {
        match &self.data {
            NodeData::Xyz(d) => Some(d),
            _ => None,
        }
    }

    /// Whether the payload variant agrees with the declared node type.
    pub fn data_matches_type(&self) -> (r: bool)
        ensures
            r == ((self.node_type is Resource && self.data is Resource) || (self.node_type
                is Layer && self.data is Layer) || (self.node_type is Xyz && self.data is Xyz)),
    {
        match (&self.node_type, &self.data) {
            (NodeType::Resource, NodeData::Resource(_)) => true,
            (NodeType::Layer, NodeData::Layer(_)) => true,
            (NodeType::Xyz, NodeData::Xyz(_)) => true,
            _ => false,
        }
    }
}

impl Edge {
    /// Mints an edge between two nodes.
    pub fn new(source: String, target: String) -> (r: Edge)
        ensures
            seq_starts_with(r.id@, "EDGE_"@),
            r.source@ == source@,
            r.target@ == target@,
    {
        let uuid_part = uuid_upper_hex();
        let mut idc: Vec<char> = Vec::new();
        push_str_chars(&mut idc, "EDGE_");
        push_str_chars(&mut idc, uuid_part.as_str());
        let id = chars_to_string(&idc);
        proof {
            reveal_strlit("EDGE_");
            assert(id@.subrange(0, 5) =~= "EDGE_"@);
        }
        Edge { id, source, target }
    }
}

/// The nodes that survive removing one id.
pub open spec fn keep_nodes(nodes: Seq<Node>, id: Seq<char>) -> Seq<Node>
    decreases nodes.len(),
{
    if nodes.len() == 0 {
        Seq::empty()
    } else {
        let rest = keep_nodes(nodes.drop_last(), id);
        if nodes[nodes.len() - 1].id@ == id {
            rest
        } else {
            rest.push(nodes[nodes.len() - 1])
        }
    }
}

/// The edges that survive removing one node id: those touching the node
/// on either end go.
pub open spec fn keep_edges_for_node(edges: Seq<Edge>, id: Seq<char>) -> Seq<Edge>
    decreases edges.len(),
{
    if edges.len() == 0 {
        Seq::empty()
    } else {
        let rest = keep_edges_for_node(edges.drop_last(), id);
        let e = edges[edges.len() - 1];
        if e.source@ == id || e.target@ == id {
            rest
        } else {
            rest.push(e)
        }
    }
}

/// The edges that survive removing one edge id.
pub open spec fn keep_edges(edges: Seq<Edge>, id: Seq<char>) -> Seq<Edge>
    decreases edges.len(),
{
    if edges.len() == 0 {
        Seq::empty()
    } else {
        let rest = keep_edges(edges.drop_last(), id);
        if edges[edges.len() - 1].id@ == id {
            rest
        } else {
            rest.push(edges[edges.len() - 1])
        }
    }
}

impl Config {
    /// An empty graph at the supported version.
    pub fn new() -> (r: Config)
        ensures
            r.version@ == "0.1.0"@,
            r.nodes@.len() == 0,
            r.edges@.len() == 0,
    {
        Config { version: "0.1.0".to_owned(), nodes: Vec::new(), edges: Vec::new() }
    }

    /// The node with this id, if any.
    pub fn find_node(&self, id: &str) -> (r: Option<&Node>)
        ensures
            match r {
                Some(n) => exists|i: int|
                    0 <= i < self.nodes@.len() && #[trigger] self.nodes@[i] == *n && n.id@ == id@,
                None => forall|i: int|
                    0 <= i < self.nodes@.len() ==> #[trigger] self.nodes@[i].id@ != id@,
            },
    {
        let n: usize = self.nodes.len();
        let mut i: usize = 0;
        while i < n
            invariant
                n == self.nodes@.len(),
                i <= n,
                forall|j: int| 0 <= j < i ==> #[trigger] self.nodes@[j].id@ != id@,
            decreases n - i,
        {
            if str_eq_string(id, &self.nodes[i].id) {
                return Some(&self.nodes[i]);
            }
            i = i + 1;
        }
        None
    }

    /// Appends a node.
    pub fn add_node(&mut self, node: Node)
        ensures
            final(self).nodes@ == old(self).nodes@.push(node),
            final(self).edges == old(self).edges,
            final(self).version == old(self).version,
    {
        self.nodes.push(node);
    }

    /// Removes the node with this id, with every edge touching it.
    pub fn remove_node(&mut self, id: &str)
        ensures
            final(self).nodes@ == keep_nodes(old(self).nodes@, id@),
            final(self).edges@ == keep_edges_for_node(old(self).edges@, id@),
            final(self).version == old(self).version,
    {
        let ghost orig_nodes = self.nodes@;
        let mut i: usize = 0;
        let ghost mut p: int = 0;
        while i < self.nodes.len()
            invariant
                0 <= p <= orig_nodes.len(),
                i == keep_nodes(orig_nodes.take(p), id@).len(),
                self.nodes@ == keep_nodes(orig_nodes.take(p), id@) + orig_nodes.skip(p),
                self.edges@ == old(self).edges@,
                self.version == old(self).version,
            decreases orig_nodes.len() - p,
        {
            proof {
                assert(self.nodes@.len() == i + orig_nodes.skip(p).len());
                assert(orig_nodes.skip(p).len() > 0);
                assert(self.nodes@[i as int] == orig_nodes.skip(p)[0]);
                assert(orig_nodes.skip(p)[0] == orig_nodes[p]);
                assert(orig_nodes.take(p + 1).drop_last() =~= orig_nodes.take(p));
                assert(orig_nodes.take(p + 1)[p] == orig_nodes[p]);
            }
            let matches_id = str_eq_string(id, &self.nodes[i].id);
            if matches_id {
                self.nodes.remove(i);
                proof {
                    p = p + 1;
                    assert(self.nodes@ =~= keep_nodes(orig_nodes.take(p), id@) + orig_nodes.skip(
                        p,
                    ));
                }
            } else {
                proof {
                    p = p + 1;
                    assert(self.nodes@ =~= keep_nodes(orig_nodes.take(p), id@) + orig_nodes.skip(
                        p,
                    ));
                }
                i = i + 1;
            }
        }
        proof {
            assert(orig_nodes.skip(p).len() == 0);
            assert(p == orig_nodes.len());
            assert(orig_nodes.take(p) =~= orig_nodes);
            assert(self.nodes@ =~= keep_nodes(orig_nodes, id@));
        }
        let ghost orig_edges = self.edges@;
        let mut j: usize = 0;
        let ghost mut q: int = 0;
        while j < self.edges.len()
            invariant
                0 <= q <= orig_edges.len(),
                j == keep_edges_for_node(orig_edges.take(q), id@).len(),
                self.edges@ == keep_edges_for_node(orig_edges.take(q), id@) + orig_edges.skip(q),
                self.nodes@ == keep_nodes(orig_nodes, id@),
                self.version == old(self).version,
            decreases orig_edges.len() - q,
        {
            proof {
                assert(self.edges@.len() == j + orig_edges.skip(q).len());
                assert(orig_edges.skip(q).len() > 0);
                assert(self.edges@[j as int] == orig_edges.skip(q)[0]);
                assert(orig_edges.skip(q)[0] == orig_edges[q]);
                assert(orig_edges.take(q + 1).drop_last() =~= orig_edges.take(q));
                assert(orig_edges.take(q + 1)[q] == orig_edges[q]);
            }
            let touches = str_eq_string(id, &self.edges[j].source) || str_eq_string(
                id,
                &self.edges[j].target,
            );
            if touches {
                self.edges.remove(j);
                proof {
                    q = q + 1;
                    assert(self.edges@ =~= keep_edges_for_node(orig_edges.take(q), id@)
                        + orig_edges.skip(q));
                }
            } else {
                proof {
                    q = q + 1;
                    assert(self.edges@ =~= keep_edges_for_node(orig_edges.take(q), id@)
                        + orig_edges.skip(q));
                }
                j = j + 1;
            }
        }
        proof {
            assert(orig_edges.skip(q).len() == 0);
            assert(q == orig_edges.len());
            assert(orig_edges.take(q) =~= orig_edges);
            assert(self.edges@ =~= keep_edges_for_node(orig_edges, id@));
        }
    }

    /// Appends an edge.
    pub fn add_edge(&mut self, edge: Edge)
        ensures
            final(self).edges@ == old(self).edges@.push(edge),
            final(self).nodes == old(self).nodes,
            final(self).version == old(self).version,
    {
        self.edges.push(edge);
    }

    /// Removes the edge with this id.
    pub fn remove_edge(&mut self, id: &str)
        ensures
            final(self).edges@ == keep_edges(old(self).edges@, id@),
            final(self).nodes == old(self).nodes,
            final(self).version == old(self).version,
    {
        let ghost orig_edges = self.edges@;
        let mut j: usize = 0;
        let ghost mut q: int = 0;
        while j < self.edges.len()
            invariant
                0 <= q <= orig_edges.len(),
                j == keep_edges(orig_edges.take(q), id@).len(),
                self.edges@ == keep_edges(orig_edges.take(q), id@) + orig_edges.skip(q),
                self.nodes == old(self).nodes,
                self.version == old(self).version,
            decreases orig_edges.len() - q,
        {
            proof {
                assert(self.edges@.len() == j + orig_edges.skip(q).len());
                assert(orig_edges.skip(q).len() > 0);
                assert(self.edges@[j as int] == orig_edges.skip(q)[0]);
                assert(orig_edges.skip(q)[0] == orig_edges[q]);
                assert(orig_edges.take(q + 1).drop_last() =~= orig_edges.take(q));
                assert(orig_edges.take(q + 1)[q] == orig_edges[q]);
            }
            let matches_id = str_eq_string(id, &self.edges[j].id);
            if matches_id {
                self.edges.remove(j);
                proof {
                    q = q + 1;
                    assert(self.edges@ =~= keep_edges(orig_edges.take(q), id@) + orig_edges.skip(
                        q,
                    ));
                }
            } else {
                proof {
                    q = q + 1;
                    assert(self.edges@ =~= keep_edges(orig_edges.take(q), id@) + orig_edges.skip(
                        q,
                    ));
                }
                j = j + 1;
            }
        }
        proof {
            assert(orig_edges.skip(q).len() == 0);
            assert(q == orig_edges.len());
            assert(orig_edges.take(q) =~= orig_edges);
            assert(self.edges@ =~= keep_edges(orig_edges, id@));
        }
    }
}

} // verus!
