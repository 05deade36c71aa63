//! Structural verification of a dataset graph: versions, identities, node
//! payloads matching their types, and edge endpoints and directions.

use vstd::prelude::*;
use crate::catalog::{col_list_has, DatasetTable};
use crate::graph::{Config, Edge, LayerData, Node, NodeData, NodeType, ResourceData, XyzData};
use crate::strutil::{str_eq, str_eq_string, trim_ws, vec_trim_ws, chars_vec};

verus! {

/// One finding of the checker, tied to a node when one is at fault.
pub struct VerifyError {
    pub node_id: Option<String>,
    pub message: String,
}

/// The checker's report.
pub struct VerifyResult {
    pub valid: bool,
    pub errors: Vec<VerifyError>,
}

/// The supported configuration version.
pub open spec fn version_clean(cfg: Config) -> bool {
    cfg.version@ == "0.1.0"@
}

/// Node ids are nonempty and pairwise distinct.
pub open spec fn node_ids_clean(nodes: Seq<Node>) -> bool {
    &&& forall|i: int| 0 <= i < nodes.len() ==> (#[trigger] nodes[i].id@).len() > 0
    &&& forall|i: int, j: int|
        0 <= i < j < nodes.len() ==> #[trigger] nodes[i].id@ != #[trigger] nodes[j].id@
}

/// Every node's payload variant agrees with its declared type.
pub open spec fn node_types_clean(nodes: Seq<Node>) -> bool {
    forall|i: int|
        0 <= i < nodes.len() ==> (((#[trigger] nodes[i].node_type) is Resource && nodes[i].data
            is Resource) || (nodes[i].node_type is Layer && nodes[i].data is Layer) || (
        nodes[i].node_type is Xyz && nodes[i].data is Xyz))
}

/// Whether some node carries this id.
pub open spec fn node_exists(nodes: Seq<Node>, id: Seq<char>) -> bool {
    exists|i: int| 0 <= i < nodes.len() && #[trigger] nodes[i].id@ == id
}

/// Every edge points at existing nodes on both ends.
pub open spec fn edge_refs_clean(nodes: Seq<Node>, edges: Seq<Edge>) -> bool {
    forall|e: int|
        0 <= e < edges.len() ==> node_exists(nodes, (#[trigger] edges[e]).source@) && node_exists(
            nodes,
            edges[e].target@,
        )
}

/// The type of the first node carrying this id.
pub open spec fn first_node_type(nodes: Seq<Node>, id: Seq<char>) -> Option<NodeType>
    decreases nodes.len(),
{
    if nodes.len() == 0 {
        None
    } else if nodes[0].id@ == id {
        Some(nodes[0].node_type)
    } else {
        first_node_type(nodes.drop_first(), id)
    }
}

/// The allowed edge directions: a resource feeds a layer, and a layer
/// feeds a tile set.
pub open spec fn edge_direction_allowed(s: NodeType, t: NodeType) -> bool {
    (s is Resource && t is Layer) || (s is Layer && t is Xyz)
}

/// Every edge between two known nodes runs in an allowed direction.
pub open spec fn edge_types_clean(nodes: Seq<Node>, edges: Seq<Edge>) -> bool {
    forall|e: int|
        0 <= e < edges.len() ==> match (
            first_node_type(nodes, (#[trigger] edges[e]).source@),
            first_node_type(nodes, edges[e].target@),
        ) {
            (Some(s), Some(t)) => edge_direction_allowed(s, t),
            _ => true,
        }
}

/// A resource node's payload rules: at least one file path, a nonempty
/// SRID and table name, and the one supported resource type.
pub open spec fn resource_clean(d: ResourceData) -> bool {
    &&& d.file_path@.len() > 0
    &&& trim_ws(d.srid@).len() > 0
    &&& d.resource_type@ == "shapefile"@
    &&& trim_ws(d.duckdb_table_name@).len() > 0
}

/// The table name of the first resource node carrying this id.
pub open spec fn first_resource_table(nodes: Seq<Node>, id: Seq<char>) -> Option<Seq<char>>
    decreases nodes.len(),
{
    if nodes.len() == 0 {
        None
    } else if nodes[0].id@ == id {
        match nodes[0].data {
            NodeData::Resource(d) => Some(d.duckdb_table_name@),
            _ => None,
        }
    } else {
        first_resource_table(nodes.drop_first(), id)
    }
}

/// The column names of the first known table with this name.
pub open spec fn table_columns_of(tables: Seq<DatasetTable>, name: Seq<char>) -> Option<
    Seq<String>,
>
    decreases tables.len(),
{
    if tables.len() == 0 {
        None
    } else if tables[0].name@ == name {
        Some(tables[0].columns@)
    } else {
        table_columns_of(tables.drop_first(), name)
    }
}

/// A layer's selected fields must exist in its resource's table, when that
/// table is known to the checker; an unknown table defers the check.
pub open spec fn layer_fields_clean(
    nodes: Seq<Node>,
    tables: Seq<DatasetTable>,
    d: LayerData,
) -> bool {
    match d.fields {
        None => true,
        Some(fs) => match first_resource_table(nodes, d.source_resource_id@) {
            None => true,
            Some(tname) => match table_columns_of(tables, tname) {
                None => true,
                Some(cols) => forall|i: int|
                    0 <= i < fs@.len() ==> col_list_has(cols, (#[trigger] fs@[i])@),
            },
        },
    }
}

/// A layer node's payload rules: a named source that exists, ordered zoom
/// bounds capped at 22, and known fields.
pub open spec fn layer_clean(nodes: Seq<Node>, tables: Seq<DatasetTable>, d: LayerData) -> bool {
    &&& trim_ws(d.source_resource_id@).len() > 0
    &&& d.minzoom < d.maxzoom
    &&& d.maxzoom <= 22
    &&& node_exists(nodes, d.source_resource_id@)
    &&& layer_fields_clean(nodes, tables, d)
}

/// A tile-set node's payload rules: four bounds and three center values,
/// ordered zooms with the fill zoom between them, ordered bounds, the
/// center zoom within range, and at least one layer reference, each
/// nonempty, resolving, and unrepeated.
pub open spec fn xyz_clean(nodes: Seq<Node>, d: XyzData) -> bool {
    &&& d.bounds@.len() == 4
    &&& d.center@.len() == 3
    &&& d.min_zoom < d.max_zoom
    &&& d.min_zoom <= d.fillzoom <= d.max_zoom
    &&& (d.bounds@.len() == 4 ==> d.bounds@[0] < d.bounds@[2] && d.bounds@[1] < d.bounds@[3])
    &&& (d.center@.len() == 3 ==> d.min_zoom * 1000000 <= d.center@[2] <= d.max_zoom * 1000000)
    &&& d.layers@.len() > 0
    &&& forall|i: int|
        0 <= i < d.layers@.len() ==> trim_ws((#[trigger] d.layers@[i]).id@).len() > 0
            && node_exists(nodes, d.layers@[i].source_layer_id@)
    &&& forall|i: int, j: int|
        0 <= i < j < d.layers@.len() ==> (#[trigger] d.layers@[i]).source_layer_id@
            != (#[trigger] d.layers@[j]).source_layer_id@
}

/// One node's payload rules, by its payload kind.
pub open spec fn node_data_clean(
    nodes: Seq<Node>,
    tables: Seq<DatasetTable>,
    node: Node,
) -> bool {
    match node.data {
        NodeData::Resource(d) => resource_clean(d),
        NodeData::Layer(d) => layer_clean(nodes, tables, d),
        NodeData::Xyz(d) => xyz_clean(nodes, d),
    }
}

/// Every node's payload obeys its rules.
pub open spec fn node_data_all_clean(nodes: Seq<Node>, tables: Seq<DatasetTable>) -> bool {
    forall|i: int| 0 <= i < nodes.len() ==> node_data_clean(nodes, tables, #[trigger] nodes[i])
}

/// The checker over the structural rules: the report is valid exactly when
/// the version is supported, node ids are nonempty and distinct, payloads
/// match their types and obey their rules, and edges join existing nodes
/// in allowed directions. The tables it knows stand in for the engine's
/// catalog when field selections are checked.
pub struct ConfigService {
    pub tables: Vec<DatasetTable>,
}


/// How far along the pipeline a node type stands.
pub open spec fn type_rank(t: NodeType) -> int {
    match t {
        NodeType::Resource => 0,
        NodeType::Layer => 1,
        NodeType::Xyz => 2,
    }
}

/// Whether some edge joins `a` to `b`.
pub open spec fn has_edge(edges: Seq<Edge>, a: Seq<char>, b: Seq<char>) -> bool {
    exists|e: int|
        0 <= e < edges.len() && (#[trigger] edges[e]).source@ == a && edges[e].target@ == b
}

/// Whether `p` walks the edges: at least one step, each consecutive pair
/// joined by some edge, ending where it began.
pub open spec fn is_cycle(edges: Seq<Edge>, p: Seq<Seq<char>>) -> bool {
    &&& p.len() >= 2
    &&& p[0] == p[p.len() - 1]
    &&& forall|i: int| 0 <= i < p.len() - 1 ==> has_edge(edges, #[trigger] p[i], p[i + 1])
}

/// A node that exists has a first type.
proof fn lemma_exists_has_type(nodes: Seq<Node>, id: Seq<char>)
    requires
        node_exists(nodes, id),
    ensures
        first_node_type(nodes, id) is Some,
    decreases nodes.len(),
{
    if nodes.len() > 0 && nodes[0].id@ != id {
        assert(node_exists(nodes.drop_first(), id)) by {
            let j = choose|j: int| 0 <= j < nodes.len() && #[trigger] nodes[j].id@ == id;
            assert(nodes.drop_first()[j - 1].id@ == id);
        }
        lemma_exists_has_type(nodes.drop_first(), id);
    }
}

/// Along any edge of a clean graph, the first types of the endpoints rise
/// by exactly one rank.
proof fn lemma_edge_raises_rank(nodes: Seq<Node>, edges: Seq<Edge>, e: int)
    requires
        edge_refs_clean(nodes, edges),
        edge_types_clean(nodes, edges),
        0 <= e < edges.len(),
    ensures
        first_node_type(nodes, edges[e].source@) matches Some(s) && (first_node_type(
            nodes,
            edges[e].target@,
        ) matches Some(t) && type_rank(t) == type_rank(s) + 1),
{
    lemma_exists_has_type(nodes, edges[e].source@);
    lemma_exists_has_type(nodes, edges[e].target@);
}

/// No cycle survives the structural checks: each step of a walk raises
/// the rank of the node's first type, so a walk can never return to its
/// start. The cycle sweep of the wider deployment can therefore only add
/// findings to a report that is already invalid.
pub proof fn lemma_valid_configs_acyclic(nodes: Seq<Node>, edges: Seq<Edge>, p: Seq<Seq<char>>)
    requires
        edge_refs_clean(nodes, edges),
        edge_types_clean(nodes, edges),
    ensures
        !is_cycle(edges, p),
{
    if is_cycle(edges, p) {
        lemma_rank_climbs(nodes, edges, p, p.len() - 1);
        let t0 = first_node_type(nodes, p[0]);
        let tl = first_node_type(nodes, p[p.len() - 1]);
        assert(t0 == tl);
        assert(type_rank(tl->0) >= type_rank(t0->0) + p.len() - 1);
    }
}

/// Walking `i` steps from the start of a cycle raises the rank by at
/// least `i`.
proof fn lemma_rank_climbs(nodes: Seq<Node>, edges: Seq<Edge>, p: Seq<Seq<char>>, i: int)
    requires
        edge_refs_clean(nodes, edges),
        edge_types_clean(nodes, edges),
        is_cycle(edges, p),
        0 <= i < p.len(),
    ensures
        first_node_type(nodes, p[0]) matches Some(s) && (first_node_type(nodes, p[i]) matches Some(
            t,
        ) && type_rank(t) >= type_rank(s) + i),
    decreases i,
{
    if i == 0 {
        assert(has_edge(edges, p[0], p[1]));
        let e = choose|e: int|
            0 <= e < edges.len() && (#[trigger] edges[e]).source@ == p[0] && edges[e].target@
                == p[1];
        lemma_edge_raises_rank(nodes, edges, e);
    } else {
        lemma_rank_climbs(nodes, edges, p, i - 1);
        assert(has_edge(edges, p[i - 1], p[i]));
        let e = choose|e: int|
            0 <= e < edges.len() && (#[trigger] edges[e]).source@ == p[i - 1] && edges[e].target@
                == p[i];
        lemma_edge_raises_rank(nodes, edges, e);
    }
}

fn find_first_type(nodes: &Vec<Node>, id: &str) -> (r: Option<NodeType>)
    ensures
        r == first_node_type(nodes@, id@),
{
    let n: usize = nodes.len();
    proof {
        assert(nodes@.skip(0) =~= nodes@);
    }
    let mut i: usize = 0;
    while i < n
        invariant
            n == nodes@.len(),
            i <= n,
            first_node_type(nodes@, id@) == first_node_type(nodes@.skip(i as int), id@),
        decreases n - i,
    {
        proof {
            let tail = nodes@.skip(i as int);
            assert(tail[0] == nodes@[i as int]);
            assert(tail.drop_first() =~= nodes@.skip(i as int + 1));
        }
        if str_eq_string(id, &nodes[i].id) {
            return Some(nodes[i].node_type);
        }
        i = i + 1;
    }
    proof {
        assert(nodes@.skip(n as int) =~= Seq::<Node>::empty());
    }
    None
}

fn node_exists_exec(nodes: &Vec<Node>, id: &str) -> (r: bool)
    ensures
        r == node_exists(nodes@, id@),
{
    let n: usize = nodes.len();
    let mut i: usize = 0;
    while i < n
        invariant
            n == nodes@.len(),
            i <= n,
            forall|j: int| 0 <= j < i ==> #[trigger] nodes@[j].id@ != id@,
        decreases n - i,
    {
        if str_eq_string(id, &nodes[i].id) {
            return true;
        }
        i = i + 1;
    }
    false
}


fn find_first_resource_table(nodes: &Vec<Node>, id: &str) -> (r: Option<String>)
    ensures
        match r {
            Some(t) => first_resource_table(nodes@, id@) == Some(t@),
            None => first_resource_table(nodes@, id@) is None,
        },
{
    let n: usize = nodes.len();
    proof {
        assert(nodes@.skip(0) =~= nodes@);
    }
    let mut i: usize = 0;
    while i < n
        invariant
            n == nodes@.len(),
            i <= n,
            first_resource_table(nodes@, id@) == first_resource_table(
                nodes@.skip(i as int),
                id@,
            ),
        decreases n - i,
    {
        proof {
            let tail = nodes@.skip(i as int);
            assert(tail[0] == nodes@[i as int]);
            assert(tail.drop_first() =~= nodes@.skip(i as int + 1));
        }
        if str_eq_string(id, &nodes[i].id) {
            return match &nodes[i].data {
                NodeData::Resource(d) => Some(d.duckdb_table_name.clone()),
                _ => None,
            };
        }
        i = i + 1;
    }
    proof {
        assert(nodes@.skip(n as int) =~= Seq::<Node>::empty());
    }
    None
}

fn find_table_columns(tables: &Vec<DatasetTable>, name: &str) -> (r: Option<usize>)
    ensures
        match r {
            Some(ti) => ti < tables@.len() && table_columns_of(tables@, name@) == Some(
                tables@[ti as int].columns@,
            ),
            None => table_columns_of(tables@, name@) is None,
        },
{
    let n: usize = tables.len();
    proof {
        assert(tables@.skip(0) =~= tables@);
    }
    let mut i: usize = 0;
    while i < n
        invariant
            n == tables@.len(),
            i <= n,
            table_columns_of(tables@, name@) == table_columns_of(tables@.skip(i as int), name@),
        decreases n - i,
    {
        proof {
            let tail = tables@.skip(i as int);
            assert(tail[0] == tables@[i as int]);
            assert(tail.drop_first() =~= tables@.skip(i as int + 1));
        }
        if str_eq_string(name, &tables[i].name) {
            return Some(i);
        }
        i = i + 1;
    }
    proof {
        assert(tables@.skip(n as int) =~= Seq::<DatasetTable>::empty());
    }
    None
}

fn contains_string(cols: &Vec<String>, wanted: &str) -> (r: bool)
    ensures
        r == col_list_has(cols@, wanted@),
{
    let n: usize = cols.len();
    let mut i: usize = 0;
    while i < n
        invariant
            n == cols@.len(),
            i <= n,
            forall|j: int| 0 <= j < i ==> #[trigger] cols@[j]@ != wanted@,
        decreases n - i,
    {
        if str_eq_string(wanted, &cols[i]) {
            return true;
        }
        i = i + 1;
    }
    false
}

fn trimmed_nonempty(text: &str) -> (r: bool)
    ensures
        r == (trim_ws(text@).len() > 0),
{
    let chars = chars_vec(text);
    let t = vec_trim_ws(&chars);
    t.len() > 0
}


fn check_resource(d: &ResourceData) -> (r: bool)
    ensures
        r == resource_clean(*d),
{
    d.file_path.len() > 0 && trimmed_nonempty(d.srid.as_str()) && str_eq(
        d.resource_type.as_str(),
        "shapefile",
    ) && trimmed_nonempty(d.duckdb_table_name.as_str())
}

fn check_fields(nodes: &Vec<Node>, tables: &Vec<DatasetTable>, d: &LayerData) -> (r: bool)
    ensures
        r == layer_fields_clean(nodes@, tables@, *d),
{
    let fs = match &d.fields {
        None => {
            return true;
        },
        Some(fs) => fs,
    };
    let tname = match find_first_resource_table(nodes, d.source_resource_id.as_str()) {
        None => {
            return true;
        },
        Some(t) => t,
    };
    let ti = match find_table_columns(tables, tname.as_str()) {
        None => {
            return true;
        },
        Some(ti) => ti,
    };
    let fn_count: usize = fs.len();
    let mut fi: usize = 0;
    while fi < fn_count
        invariant
            ti < tables@.len(),
            first_resource_table(nodes@, d.source_resource_id@) == Some(tname@),
            table_columns_of(tables@, tname@) == Some(tables@[ti as int].columns@),
            d.fields matches Some(v) && v@ == fs@,
            fn_count == fs@.len(),
            fi <= fn_count,
            forall|x: int|
                0 <= x < fi ==> col_list_has(tables@[ti as int].columns@, (#[trigger] fs@[x])@),
        decreases fn_count - fi,
    {
        if !contains_string(&tables[ti].columns, fs[fi].as_str()) {
            return false;
        }
        fi = fi + 1;
    }
    true
}

fn check_layer(nodes: &Vec<Node>, tables: &Vec<DatasetTable>, d: &LayerData) -> (r: bool)
    ensures
        r == layer_clean(nodes@, tables@, *d),
{
    trimmed_nonempty(d.source_resource_id.as_str()) && d.minzoom < d.maxzoom && d.maxzoom <= 22
        && node_exists_exec(nodes, d.source_resource_id.as_str()) && check_fields(
        nodes,
        tables,
        d,
    )
}

fn check_layer_refs(nodes: &Vec<Node>, d: &XyzData) -> (r: bool)
    ensures
        r == ((forall|i: int|
            0 <= i < d.layers@.len() ==> trim_ws((#[trigger] d.layers@[i]).id@).len() > 0
                && node_exists(nodes@, d.layers@[i].source_layer_id@)) && (forall|i: int, j: int|
            0 <= i < j < d.layers@.len() ==> (#[trigger] d.layers@[i]).source_layer_id@
                != (#[trigger] d.layers@[j]).source_layer_id@)),
{
    let ln: usize = d.layers.len();
    let mut li: usize = 0;
    while li < ln
        invariant
            ln == d.layers@.len(),
            li <= ln,
            forall|x: int|
                0 <= x < li ==> trim_ws((#[trigger] d.layers@[x]).id@).len() > 0 && node_exists(
                    nodes@,
                    d.layers@[x].source_layer_id@,
                ),
            forall|x: int, y: int|
                0 <= x < y < li ==> (#[trigger] d.layers@[x]).source_layer_id@
                    != (#[trigger] d.layers@[y]).source_layer_id@,
        decreases ln - li,
    {
        if !trimmed_nonempty(d.layers[li].id.as_str()) {
            return false;
        }
        if !node_exists_exec(nodes, d.layers[li].source_layer_id.as_str()) {
            return false;
        }
        let mut lj: usize = 0;
        while lj < li
            invariant
                li < ln,
                ln == d.layers@.len(),
                lj <= li,
                forall|y: int|
                    0 <= y < lj ==> (#[trigger] d.layers@[y]).source_layer_id@
                        != d.layers@[li as int].source_layer_id@,
            decreases li - lj,
        {
            if str_eq(
                d.layers[lj].source_layer_id.as_str(),
                d.layers[li].source_layer_id.as_str(),
            ) {
                proof {
                    assert(d.layers@[lj as int].source_layer_id@
                        == d.layers@[li as int].source_layer_id@);
                }
                return false;
            }
            lj = lj + 1;
        }
        li = li + 1;
    }
    true
}

fn check_xyz(nodes: &Vec<Node>, d: &XyzData) -> (r: bool)
    ensures
        r == xyz_clean(nodes@, *d),
{
    if !(d.bounds.len() == 4 && d.center.len() == 3 && d.min_zoom < d.max_zoom && d.min_zoom
        <= d.fillzoom && d.fillzoom <= d.max_zoom && d.layers.len() > 0) {
        return false;
    }
    if !(d.bounds[0] < d.bounds[2] && d.bounds[1] < d.bounds[3]) {
        return false;
    }
    let zmin: i64 = (d.min_zoom as i64) * 1000000;
    let zmax: i64 = (d.max_zoom as i64) * 1000000;
    if !(zmin <= d.center[2] && d.center[2] <= zmax) {
        return false;
    }
    check_layer_refs(nodes, d)
}


/// How many edges point at `target` from resource-typed nodes.
pub open spec fn count_resource_incoming(
    nodes: Seq<Node>,
    edges: Seq<Edge>,
    target: Seq<char>,
) -> int
    decreases edges.len(),
{
    if edges.len() == 0 {
        0
    } else {
        count_resource_incoming(nodes, edges.drop_last(), target) + (
        if edges[edges.len() - 1].target@ == target && first_node_type(
            nodes,
            edges[edges.len() - 1].source@,
        ) == Some(NodeType::Resource) {
            1int
        } else {
            0int
        })
    }
}

/// A layer node's wiring: exactly one resource feeds it, and that
/// resource is the one its payload names.
pub open spec fn layer_edges_clean(
    nodes: Seq<Node>,
    edges: Seq<Edge>,
    node_id: Seq<char>,
    d: LayerData,
) -> bool {
    &&& count_resource_incoming(nodes, edges, node_id) == 1
    &&& forall|k: int|
        0 <= k < edges.len() && (#[trigger] edges[k]).target@ == node_id && first_node_type(
            nodes,
            edges[k].source@,
        ) == Some(NodeType::Resource) ==> edges[k].source@ == d.source_resource_id@
}

/// Whether a layer-typed edge runs from `source` to `target`.
pub open spec fn incoming_layer_edge(
    nodes: Seq<Node>,
    edges: Seq<Edge>,
    target: Seq<char>,
    source: Seq<char>,
) -> bool {
    exists|k: int|
        0 <= k < edges.len() && (#[trigger] edges[k]).target@ == target && edges[k].source@
            == source && first_node_type(nodes, edges[k].source@) == Some(NodeType::Layer)
}

/// Whether a tile set lists this source layer.
pub open spec fn ref_listed(layers: Seq<crate::graph::XyzLayerRef>, source: Seq<char>) -> bool {
    exists|i: int| 0 <= i < layers.len() && (#[trigger] layers[i]).source_layer_id@ == source
}

/// A tile-set node's wiring: every listed layer is connected by an edge,
/// and every incoming layer edge is listed.
pub open spec fn xyz_edges_clean(
    nodes: Seq<Node>,
    edges: Seq<Edge>,
    node_id: Seq<char>,
    d: XyzData,
) -> bool {
    &&& forall|i: int|
        0 <= i < d.layers@.len() ==> incoming_layer_edge(
            nodes,
            edges,
            node_id,
            (#[trigger] d.layers@[i]).source_layer_id@,
        )
    &&& forall|k: int|
        0 <= k < edges.len() && (#[trigger] edges[k]).target@ == node_id && first_node_type(
            nodes,
            edges[k].source@,
        ) == Some(NodeType::Layer) ==> ref_listed(d.layers@, edges[k].source@)
}

/// Every node's wiring agrees with its payload.
pub open spec fn edge_consistency_clean(nodes: Seq<Node>, edges: Seq<Edge>) -> bool {
    forall|i: int|
        0 <= i < nodes.len() ==> match (#[trigger] nodes[i]).data {
            NodeData::Layer(d) => layer_edges_clean(nodes, edges, nodes[i].id@, d),
            NodeData::Xyz(d) => xyz_edges_clean(nodes, edges, nodes[i].id@, d),
            NodeData::Resource(_) => true,
        }
}

fn count_resource_incoming_exec(nodes: &Vec<Node>, edges: &Vec<Edge>, target: &str) -> (r: usize)
    ensures
        r as int == count_resource_incoming(nodes@, edges@, target@),
{
    let n: usize = edges.len();
    let mut count: usize = 0;
    let mut k: usize = 0;
    while k < n
        invariant
            n == edges@.len(),
            k <= n,
            count <= k,
            count as int == count_resource_incoming(nodes@, edges@.take(k as int), target@),
        decreases n - k,
    {
        proof {
            let cur = edges@.take(k as int + 1);
            assert(cur.drop_last() =~= edges@.take(k as int));
            assert(cur[cur.len() - 1] == edges@[k as int]);
        }
        let is_resource = match find_first_type(nodes, edges[k].source.as_str()) {
            Some(NodeType::Resource) => true,
            _ => false,
        };
        if str_eq_string(target, &edges[k].target) && is_resource {
            count = count + 1;
        }
        k = k + 1;
    }
    proof {
        assert(edges@.take(n as int) =~= edges@);
    }
    count
}

fn check_layer_edges(nodes: &Vec<Node>, edges: &Vec<Edge>, node_id: &str, d: &LayerData) -> (r:
    bool)
    ensures
        r == layer_edges_clean(nodes@, edges@, node_id@, *d),
{
    if count_resource_incoming_exec(nodes, edges, node_id) != 1 {
        return false;
    }
    let n: usize = edges.len();
    let mut k: usize = 0;
    while k < n
        invariant
            n == edges@.len(),
            k <= n,
            forall|a: int|
                0 <= a < k && (#[trigger] edges@[a]).target@ == node_id@ && first_node_type(
                    nodes@,
                    edges@[a].source@,
                ) == Some(NodeType::Resource) ==> edges@[a].source@ == d.source_resource_id@,
        decreases n - k,
    {
        let is_resource = match find_first_type(nodes, edges[k].source.as_str()) {
            Some(NodeType::Resource) => true,
            _ => false,
        };
        if str_eq_string(node_id, &edges[k].target) && is_resource {
            if !str_eq(edges[k].source.as_str(), d.source_resource_id.as_str()) {
                return false;
            }
        }
        k = k + 1;
    }
    true
}

fn has_incoming_layer_edge(
    nodes: &Vec<Node>,
    edges: &Vec<Edge>,
    target: &str,
    source: &str,
) -> (r: bool)
    ensures
        r == incoming_layer_edge(nodes@, edges@, target@, source@),
{
    let n: usize = edges.len();
    let mut k: usize = 0;
    while k < n
        invariant
            n == edges@.len(),
            k <= n,
            forall|a: int|
                0 <= a < k ==> !((#[trigger] edges@[a]).target@ == target@ && edges@[a].source@
                    == source@ && first_node_type(nodes@, edges@[a].source@) == Some(
                    NodeType::Layer,
                )),
        decreases n - k,
    {
        let is_layer = match find_first_type(nodes, edges[k].source.as_str()) {
            Some(NodeType::Layer) => true,
            _ => false,
        };
        if str_eq_string(target, &edges[k].target) && str_eq_string(source, &edges[k].source)
            && is_layer {
            return true;
        }
        k = k + 1;
    }
    false
}

fn ref_listed_exec(layers: &Vec<crate::graph::XyzLayerRef>, source: &str) -> (r: bool)
    ensures
        r == ref_listed(layers@, source@),
{
    let n: usize = layers.len();
    let mut i: usize = 0;
    while i < n
        invariant
            n == layers@.len(),
            i <= n,
            forall|a: int| 0 <= a < i ==> (#[trigger] layers@[a]).source_layer_id@ != source@,
        decreases n - i,
    {
        if str_eq_string(source, &layers[i].source_layer_id) {
            return true;
        }
        i = i + 1;
    }
    false
}

fn check_xyz_edges(nodes: &Vec<Node>, edges: &Vec<Edge>, node_id: &str, d: &XyzData) -> (r: bool)
    ensures
        r == xyz_edges_clean(nodes@, edges@, node_id@, *d),
{
    let ln: usize = d.layers.len();
    let mut i: usize = 0;
    while i < ln
        invariant
            ln == d.layers@.len(),
            i <= ln,
            forall|a: int|
                0 <= a < i ==> incoming_layer_edge(
                    nodes@,
                    edges@,
                    node_id@,
                    (#[trigger] d.layers@[a]).source_layer_id@,
                ),
        decreases ln - i,
    {
        if !has_incoming_layer_edge(nodes, edges, node_id, d.layers[i].source_layer_id.as_str()) {
            return false;
        }
        i = i + 1;
    }
    let n: usize = edges.len();
    let mut k: usize = 0;
    while k < n
        invariant
            n == edges@.len(),
            k <= n,
            forall|a: int|
                0 <= a < i ==> incoming_layer_edge(
                    nodes@,
                    edges@,
                    node_id@,
                    (#[trigger] d.layers@[a]).source_layer_id@,
                ),
            i == d.layers@.len(),
            ln == d.layers@.len(),
            forall|a: int|
                0 <= a < k && (#[trigger] edges@[a]).target@ == node_id@ && first_node_type(
                    nodes@,
                    edges@[a].source@,
                ) == Some(NodeType::Layer) ==> ref_listed(d.layers@, edges@[a].source@),
        decreases n - k,
    {
        let is_layer = match find_first_type(nodes, edges[k].source.as_str()) {
            Some(NodeType::Layer) => true,
            _ => false,
        };
        if str_eq_string(node_id, &edges[k].target) && is_layer {
            if !ref_listed_exec(&d.layers, edges[k].source.as_str()) {
                return false;
            }
        }
        k = k + 1;
    }
    true
}

impl ConfigService {
    /// A checker over the given known tables; the process reads them from
    /// the engine.
    pub fn new(tables: Vec<DatasetTable>) -> (r: ConfigService)
        ensures
            r.tables == tables,
    {
        ConfigService { tables }
    }

    fn verify_version(&self, cfg: &Config, errors: &mut Vec<VerifyError>) -> (clean: bool)
        ensures
            clean == version_clean(*cfg),
            clean ==> final(errors)@ == old(errors)@,
            !clean ==> final(errors)@.len() > old(errors)@.len(),
    {
        if str_eq(cfg.version.as_str(), "0.1.0") {
            true
        } else {
            errors.push(
                VerifyError {
                    node_id: None,
                    message: "Unsupported config version".to_owned(),
                },
            );
            false
        }
    }

    fn verify_node_ids(&self, cfg: &Config, errors: &mut Vec<VerifyError>) -> (clean: bool)
        ensures
            clean == node_ids_clean(cfg.nodes@),
            clean ==> final(errors)@ == old(errors)@,
            !clean ==> final(errors)@.len() > old(errors)@.len(),
    {
        let n: usize = cfg.nodes.len();
        let mut i: usize = 0;
        while i < n
            invariant
                n == cfg.nodes@.len(),
                i <= n,
                forall|a: int| 0 <= a < i ==> (#[trigger] cfg.nodes@[a].id@).len() > 0,
                forall|a: int, b: int|
                    0 <= a < b < i ==> #[trigger] cfg.nodes@[a].id@
                        != #[trigger] cfg.nodes@[b].id@,
                errors@ == old(errors)@,
            decreases n - i,
        {
            if cfg.nodes[i].id.as_str().is_empty() {
                proof {
                    assert((cfg.nodes@[i as int].id@).len() == 0);
                    assert(!node_ids_clean(cfg.nodes@));
                }
                errors.push(
                    VerifyError {
                        node_id: Some(cfg.nodes[i].id.clone()),
                        message: "Node ID cannot be empty".to_owned(),
                    },
                );
                return false;
            }
            let mut j: usize = 0;
            while j < i
                invariant
                    i < n,
                    n == cfg.nodes@.len(),
                    j <= i,
                    forall|b: int|
                        0 <= b < j ==> #[trigger] cfg.nodes@[b].id@ != cfg.nodes@[i as int].id@,
                    errors@ == old(errors)@,
                decreases i - j,
            {
                if str_eq(cfg.nodes[j].id.as_str(), cfg.nodes[i].id.as_str()) {
                    proof {
                        assert(cfg.nodes@[j as int].id@ == cfg.nodes@[i as int].id@);
                        assert(!node_ids_clean(cfg.nodes@));
                    }
                    errors.push(
                        VerifyError {
                            node_id: Some(cfg.nodes[i].id.clone()),
                            message: "Duplicate node ID".to_owned(),
                        },
                    );
                    return false;
                }
                j = j + 1;
            }
            i = i + 1;
        }
        true
    }

    fn verify_node_type_matches_data(&self, cfg: &Config, errors: &mut Vec<VerifyError>) -> (clean:
        bool)
        ensures
            clean == node_types_clean(cfg.nodes@),
            clean ==> final(errors)@ == old(errors)@,
            !clean ==> final(errors)@.len() > old(errors)@.len(),
    {
        let n: usize = cfg.nodes.len();
        let mut i: usize = 0;
        while i < n
            invariant
                n == cfg.nodes@.len(),
                i <= n,
                forall|a: int|
                    0 <= a < i ==> (((#[trigger] cfg.nodes@[a].node_type) is Resource
                        && cfg.nodes@[a].data is Resource) || (cfg.nodes@[a].node_type is Layer
                        && cfg.nodes@[a].data is Layer) || (cfg.nodes@[a].node_type is Xyz
                        && cfg.nodes@[a].data is Xyz)),
                errors@ == old(errors)@,
            decreases n - i,
        {
            if !cfg.nodes[i].data_matches_type() {
                proof {
                    let ni = cfg.nodes@[i as int];
                    assert(!((ni.node_type is Resource && ni.data is Resource) || (ni.node_type
                        is Layer && ni.data is Layer) || (ni.node_type is Xyz && ni.data is Xyz)));
                    assert(!node_types_clean(cfg.nodes@));
                }
                errors.push(
                    VerifyError {
                        node_id: Some(cfg.nodes[i].id.clone()),
                        message: "Node type does not match node data".to_owned(),
                    },
                );
                return false;
            }
            i = i + 1;
        }
        true
    }

    fn verify_edge_references(&self, cfg: &Config, errors: &mut Vec<VerifyError>) -> (clean: bool)
        ensures
            clean == edge_refs_clean(cfg.nodes@, cfg.edges@),
            clean ==> final(errors)@ == old(errors)@,
            !clean ==> final(errors)@.len() > old(errors)@.len(),
    {
        let n: usize = cfg.edges.len();
        let mut e: usize = 0;
        while e < n
            invariant
                n == cfg.edges@.len(),
                e <= n,
                forall|a: int|
                    0 <= a < e ==> node_exists(cfg.nodes@, (#[trigger] cfg.edges@[a]).source@)
                        && node_exists(cfg.nodes@, cfg.edges@[a].target@),
                errors@ == old(errors)@,
            decreases n - e,
        {
            if !node_exists_exec(&cfg.nodes, cfg.edges[e].source.as_str()) {
                errors.push(
                    VerifyError {
                        node_id: None,
                        message: "Edge references non-existent source node".to_owned(),
                    },
                );
                return false;
            }
            if !node_exists_exec(&cfg.nodes, cfg.edges[e].target.as_str()) {
                errors.push(
                    VerifyError {
                        node_id: None,
                        message: "Edge references non-existent target node".to_owned(),
                    },
                );
                return false;
            }
            e = e + 1;
        }
        true
    }

    fn verify_edge_types(&self, cfg: &Config, errors: &mut Vec<VerifyError>) -> (clean: bool)
        ensures
            clean == edge_types_clean(cfg.nodes@, cfg.edges@),
            clean ==> final(errors)@ == old(errors)@,
            !clean ==> final(errors)@.len() > old(errors)@.len(),
    {
        let n: usize = cfg.edges.len();
        let mut e: usize = 0;
        while e < n
            invariant
                n == cfg.edges@.len(),
                e <= n,
                forall|a: int|
                    0 <= a < e ==> match (
                        first_node_type(cfg.nodes@, (#[trigger] cfg.edges@[a]).source@),
                        first_node_type(cfg.nodes@, cfg.edges@[a].target@),
                    ) {
                        (Some(s), Some(t)) => edge_direction_allowed(s, t),
                        _ => true,
                    },
                errors@ == old(errors)@,
            decreases n - e,
        {
            let st = find_first_type(&cfg.nodes, cfg.edges[e].source.as_str());
            let tt = find_first_type(&cfg.nodes, cfg.edges[e].target.as_str());
            match (st, tt) {
                (Some(s), Some(t)) => {
                    let ok = match (s, t) {
                        (NodeType::Resource, NodeType::Layer) => true,
                        (NodeType::Layer, NodeType::Xyz) => true,
                        _ => false,
                    };
                    if !ok {
                        errors.push(
                            VerifyError {
                                node_id: Some(cfg.edges[e].target.clone()),
                                message: "Edge direction not allowed between these node types"
                                    .to_owned(),
                            },
                        );
                        return false;
                    }
                },
                _ => {},
            }
            e = e + 1;
        }
        true
    }


    fn verify_node_data(&self, cfg: &Config, errors: &mut Vec<VerifyError>) -> (clean: bool)
        ensures
            clean == node_data_all_clean(cfg.nodes@, self.tables@),
            clean ==> final(errors)@ == old(errors)@,
            !clean ==> final(errors)@.len() > old(errors)@.len(),
    {
        let n: usize = cfg.nodes.len();
        let mut i: usize = 0;
        while i < n
            invariant
                n == cfg.nodes@.len(),
                i <= n,
                forall|a: int|
                    0 <= a < i ==> node_data_clean(
                        cfg.nodes@,
                        self.tables@,
                        #[trigger] cfg.nodes@[a],
                    ),
                errors@ == old(errors)@,
            decreases n - i,
        {
            let clean_here: bool = match &cfg.nodes[i].data {
                NodeData::Resource(d) => check_resource(d),
                NodeData::Layer(d) => check_layer(&cfg.nodes, &self.tables, d),
                NodeData::Xyz(d) => check_xyz(&cfg.nodes, d),
            };
            if !clean_here {
                proof {
                    assert(!node_data_clean(cfg.nodes@, self.tables@, cfg.nodes@[i as int]));
                    assert(!node_data_all_clean(cfg.nodes@, self.tables@));
                }
                errors.push(
                    VerifyError {
                        node_id: Some(cfg.nodes[i].id.clone()),
                        message: "Node data does not satisfy its rules".to_owned(),
                    },
                );
                return false;
            }
            i = i + 1;
        }
        true
    }


    fn verify_edge_data_consistency(&self, cfg: &Config, errors: &mut Vec<VerifyError>) -> (clean:
        bool)
        ensures
            clean == edge_consistency_clean(cfg.nodes@, cfg.edges@),
            clean ==> final(errors)@ == old(errors)@,
            !clean ==> final(errors)@.len() > old(errors)@.len(),
    {
        let n: usize = cfg.nodes.len();
        let mut i: usize = 0;
        while i < n
            invariant
                n == cfg.nodes@.len(),
                i <= n,
                forall|a: int|
                    0 <= a < i ==> match (#[trigger] cfg.nodes@[a]).data {
                        NodeData::Layer(d) => layer_edges_clean(
                            cfg.nodes@,
                            cfg.edges@,
                            cfg.nodes@[a].id@,
                            d,
                        ),
                        NodeData::Xyz(d) => xyz_edges_clean(
                            cfg.nodes@,
                            cfg.edges@,
                            cfg.nodes@[a].id@,
                            d,
                        ),
                        NodeData::Resource(_) => true,
                    },
                errors@ == old(errors)@,
            decreases n - i,
        {
            let clean_here: bool = match &cfg.nodes[i].data {
                NodeData::Layer(d) => check_layer_edges(
                    &cfg.nodes,
                    &cfg.edges,
                    cfg.nodes[i].id.as_str(),
                    d,
                ),
                NodeData::Xyz(d) => check_xyz_edges(
                    &cfg.nodes,
                    &cfg.edges,
                    cfg.nodes[i].id.as_str(),
                    d,
                ),
                NodeData::Resource(_) => true,
            };
            if !clean_here {
                proof {
                    assert(!edge_consistency_clean(cfg.nodes@, cfg.edges@));
                }
                errors.push(
                    VerifyError {
                        node_id: Some(cfg.nodes[i].id.clone()),
                        message: "Node wiring does not match its payload".to_owned(),
                    },
                );
                return false;
            }
            i = i + 1;
        }
        true
    }

    /// Runs every structural check; the report is valid exactly when all
    /// of them are clean. A valid report needs no cycle sweep: by
    /// `lemma_valid_configs_acyclic`, the allowed edge directions admit no
    /// cycle, so only an already-invalid report could gain a cycle
    /// finding.
    pub fn verify(&self, cfg: &Config) -> (r: VerifyResult)
        ensures
            r.valid == (version_clean(*cfg) && node_ids_clean(cfg.nodes@) && node_types_clean(
                cfg.nodes@,
            ) && edge_refs_clean(cfg.nodes@, cfg.edges@) && edge_types_clean(
                cfg.nodes@,
                cfg.edges@,
            ) && node_data_all_clean(cfg.nodes@, self.tables@) && edge_consistency_clean(
                cfg.nodes@,
                cfg.edges@,
            )),
            r.valid ==> r.errors@.len() == 0,
            !r.valid ==> r.errors@.len() > 0,
    {
        let mut errors: Vec<VerifyError> = Vec::new();
        let c1 = self.verify_version(cfg, &mut errors);
        let c2 = self.verify_node_ids(cfg, &mut errors);
        let c3 = self.verify_node_type_matches_data(cfg, &mut errors);
        let c4 = self.verify_edge_references(cfg, &mut errors);
        let c5 = self.verify_edge_types(cfg, &mut errors);
        let c6 = self.verify_node_data(cfg, &mut errors);
        let c7 = self.verify_edge_data_consistency(cfg, &mut errors);
        let valid = c1 && c2 && c3 && c4 && c5 && c6 && c7;
        VerifyResult { valid, errors }
    }
}

} // verus!
