use vstd::prelude::*;

verus! {

/// Identifier of a node in a patch graph.
pub type NodeId = u64;

/// A node of the graph: its identifier and whatever the application keeps for it.
pub struct Node<N> {
    pub id: NodeId,
    pub node_type: N,
}

/// A wire from an output port of one node to an input port of another.
#[derive(Debug)]
pub struct Connection {
    pub from_node: NodeId,
    pub from_port: usize,
    pub to_node: NodeId,
    pub to_port: usize,
    /// Optional user label displayed on the wire.
    pub label: String,
}

impl Clone for Connection {
    fn clone(&self) -> (r: Self)
        ensures
            r == *self,
    {
        Connection {
            from_node: self.from_node,
            from_port: self.from_port,
            to_node: self.to_node,
            to_port: self.to_port,
            label: self.label.clone(),
        }
    }
}

// ── Spec-level model ───────────────────────────────────────────────────────

/// The identifiers of a sequence of nodes, in order.
pub open spec fn ids_of<N>(nodes: Seq<Node<N>>) -> Seq<NodeId> {
    nodes.map_values(|n: Node<N>| n.id)
}

/// Whether some connection runs from node `u` to node `v`.
pub open spec fn wired(conns: Seq<Connection>, u: NodeId, v: NodeId) -> bool {
    exists|k: int| 0 <= k < conns.len() && #[trigger] conns[k].from_node == u && conns[k].to_node == v
}

/// A dependency edge `u -> v`: both are nodes of the graph, they differ, and a wire
/// runs from `u` to `v`. Several wires between the same two nodes form one edge;
/// a wire from a node to itself forms none.
pub open spec fn is_edge(ids: Seq<NodeId>, conns: Seq<Connection>, u: NodeId, v: NodeId) -> bool {
    &&& u != v
    &&& ids.contains(u)
    &&& ids.contains(v)
    &&& wired(conns, u, v)
}

/// Whether `x` occurs among the first `bound` elements of `s`.
pub open spec fn in_prefix(s: Seq<NodeId>, bound: int, x: NodeId) -> bool {
    exists|j: int| 0 <= j < bound && j < s.len() && #[trigger] s[j] == x
}

/// Every dependency of `order[i]` occurs strictly before position `i`.
pub open spec fn deps_before(ids: Seq<NodeId>, conns: Seq<Connection>, order: Seq<NodeId>, i: int) -> bool {
    forall|p: NodeId| #[trigger] is_edge(ids, conns, p, order[i]) ==> in_prefix(order, i, p)
}

/// A strictly increasing sequence of identifiers.
pub open spec fn strictly_sorted(s: Seq<NodeId>) -> bool {
    forall|i: int, j: int| 0 <= i < j < s.len() ==> s[i] < s[j]
}

/// `order` is a valid evaluation order for the graph with nodes `ids` and wires
/// `conns`, whose last `cyclic.len()` entries are exactly `cyclic`:
/// - it lists every node exactly once;
/// - every node of the leading (acyclic) part comes after all its dependencies;
/// - every node of the trailing (cyclic) part has a dependency in the cyclic part;
/// - the cyclic part is in increasing identifier order.
pub open spec fn topo_valid(
    ids: Seq<NodeId>,
    conns: Seq<Connection>,
    order: Seq<NodeId>,
    cyclic: Seq<NodeId>,
) -> bool {
    let k = order.len() - cyclic.len();
    &&& order.no_duplicates()
    &&& order.len() == ids.len()
    &&& forall|x: NodeId| ids.contains(x) <==> order.contains(x)
    &&& cyclic.len() <= order.len()
    &&& order.subrange(k, order.len() as int) == cyclic
    &&& strictly_sorted(cyclic)
    &&& forall|i: int| 0 <= i < k ==> deps_before(ids, conns, order, i)
    &&& forall|v: NodeId| #[trigger] cyclic.contains(v) ==> exists|p: NodeId|
        #[trigger] is_edge(ids, conns, p, v) && cyclic.contains(p)
}

/// Nodes that depend on no node of the graph.
pub open spec fn is_seed(ids: Seq<NodeId>, conns: Seq<Connection>) -> spec_fn(NodeId) -> bool {
    |v: NodeId| forall|p: NodeId| !#[trigger] is_edge(ids, conns, p, v)
}

/// Nodes that processing `u` releases: those depending on `u` whose every
/// dependency occurs among the first `bound` entries of `done`.
pub open spec fn released_by(ids: Seq<NodeId>, conns: Seq<Connection>, done: Seq<NodeId>, bound: int, u: NodeId) -> spec_fn(
    NodeId,
) -> bool {
    |v: NodeId|
        is_edge(ids, conns, u, v) && forall|p: NodeId| #[trigger] is_edge(ids, conns, p, v) ==> in_prefix(done, bound, p)
}

/// Kahn's algorithm from queue `order` with `order[..head]` processed: each
/// processed node appends, in the order of `ids`, the nodes it releases.
pub open spec fn kahn_from(ids: Seq<NodeId>, conns: Seq<Connection>, order: Seq<NodeId>, head: nat) -> Seq<NodeId>
    decreases ids.len() - head,
{
    if head >= order.len() || head >= ids.len() {
        order
    } else {
        kahn_from(ids, conns, order + ids.filter(released_by(ids, conns, order, (head + 1) as int, order[head as int])), head + 1)
    }
}

/// The acyclic part of the evaluation order: Kahn's algorithm seeded with the
/// nodes without dependencies, in the order of `ids`.
pub open spec fn kahn_order(ids: Seq<NodeId>, conns: Seq<Connection>) -> Seq<NodeId> {
    kahn_from(ids, conns, ids.filter(is_seed(ids, conns)), 0)
}

/// Nodes missing from `order`.
pub open spec fn not_in(order: Seq<NodeId>) -> spec_fn(NodeId) -> bool {
    |v: NodeId| !order.contains(v)
}

/// The nodes of `ids` missing from `order`, in the order of `ids`.
pub open spec fn left_over(ids: Seq<NodeId>, order: Seq<NodeId>) -> Seq<NodeId> {
    ids.filter(not_in(order))
}

/// The evaluation order of the nodes `ids` wired by `conns`, and its cyclic part:
/// Kahn's order followed by the nodes it never reaches, both in the order of `ids`.
pub open spec fn evaluation_order_of(ids: Seq<NodeId>, conns: Seq<Connection>) -> (Seq<NodeId>, Seq<NodeId>) {
    (kahn_order(ids, conns) + left_over(ids, kahn_order(ids, conns)), left_over(ids, kahn_order(ids, conns)))
}

/// Filtering a longer prefix adds the next element when it passes.
proof fn lemma_filter_take(s: Seq<NodeId>, pred: spec_fn(NodeId) -> bool, i: int)
    requires
        0 <= i < s.len(),
    ensures
        s.take(i + 1).filter(pred) == (if pred(s[i]) {
            s.take(i).filter(pred).push(s[i])
        } else {
            s.take(i).filter(pred)
        }),
{
    reveal_with_fuel(Seq::<_>::filter, 1);
    assert(s.take(i + 1).drop_last() == s.take(i));
    assert(s.take(i + 1).last() == s[i]);
}

/// Prefixes of a sequence extended at its end are unchanged.
proof fn lemma_in_prefix_extended(a: Seq<NodeId>, b: Seq<NodeId>, bound: int)
    requires
        a.len() <= b.len(),
        b.subrange(0, a.len() as int) == a,
        0 <= bound <= a.len(),
    ensures
        forall|p: NodeId| #[trigger] in_prefix(b, bound, p) == in_prefix(a, bound, p),
{
    assert forall|p: NodeId| #[trigger] in_prefix(b, bound, p) == in_prefix(a, bound, p) by {
        if in_prefix(b, bound, p) {
            let j = choose|j: int| 0 <= j < bound && j < b.len() && #[trigger] b[j] == p;
            assert(b.subrange(0, a.len() as int)[j] == b[j]);
        }
        if in_prefix(a, bound, p) {
            let j = choose|j: int| 0 <= j < bound && j < a.len() && #[trigger] a[j] == p;
            assert(b.subrange(0, a.len() as int)[j] == b[j]);
        }
    }
}

/// No two wires end at the same input port.
pub open spec fn inputs_unique(conns: Seq<Connection>) -> bool {
    forall|i: int, j: int|
        0 <= i < j < conns.len() ==> !(#[trigger] conns[i].to_node == #[trigger] conns[j].to_node
            && conns[i].to_port == conns[j].to_port)
}

/// Whether the wire `c` ends at input `port` of `node`.
pub open spec fn ends_at(c: Connection, node: NodeId, port: usize) -> bool {
    c.to_node == node && c.to_port == port
}

/// Whether the wire `c` touches `node` at either end.
pub open spec fn touches(c: Connection, node: NodeId) -> bool {
    c.from_node == node || c.to_node == node
}

/// Whether the wire `c` joins exactly the given two ports.
pub open spec fn joins(c: Connection, from_node: NodeId, from_port: usize, to_node: NodeId, to_port: usize) -> bool {
    c.from_node == from_node && c.from_port == from_port && c.to_node == to_node && c.to_port == to_port
}

// ── Graph ──────────────────────────────────────────────────────────────────

/// A patch graph: nodes in increasing identifier order, the wires between their
/// ports, and a cached evaluation order that is rebuilt after a topology change.
pub struct Graph<N> {
    nodes: Vec<Node<N>>,
    connections: Vec<Connection>,
    next_id: u64,
    topo_order: Vec<NodeId>,
    cyclic_nodes: Vec<NodeId>,
    topo_dirty: bool,
}

impl<N> Graph<N> {
    /// The identifiers of the nodes, in increasing order.
    pub closed spec fn node_ids(&self) -> Seq<NodeId> {
        ids_of(self.nodes@)
    }

    /// The nodes, in increasing identifier order.
    pub closed spec fn node_seq(&self) -> Seq<Node<N>> {
        self.nodes@
    }

    /// The wires, in the order they were made.
    pub closed spec fn conn_seq(&self) -> Seq<Connection> {
        self.connections@
    }

    /// The identifier the next added node receives.
    pub closed spec fn spec_next_id(&self) -> u64 {
        self.next_id
    }

    /// Whether the cached evaluation order is current; otherwise the next request
    /// rebuilds it.
    pub closed spec fn order_fresh(&self) -> bool {
        !self.topo_dirty && self.topo_order@.len() > 0
    }

    /// The cached evaluation order and its cyclic part.
    pub closed spec fn cached_order(&self) -> (Seq<NodeId>, Seq<NodeId>) {
        (self.topo_order@, self.cyclic_nodes@)
    }

    pub open spec fn has_node(&self, id: NodeId) -> bool {
        self.node_ids().contains(id)
    }

    /// The structural invariant: identifiers strictly increase and stay below the
    /// next identifier, at most one wire ends at each input port, and a cached
    /// evaluation order that is not marked stale is valid for the graph.
    pub closed spec fn wf(&self) -> bool {
        &&& strictly_sorted(self.node_ids())
        &&& forall|i: int| 0 <= i < self.nodes@.len() ==> #[trigger] self.nodes@[i].id < self.next_id
        &&& inputs_unique(self.connections@)
        &&& !self.topo_dirty ==> topo_valid(
            self.node_ids(),
            self.connections@,
            self.topo_order@,
            self.cyclic_nodes@,
        )
        &&& !self.topo_dirty ==> (self.topo_order@, self.cyclic_nodes@) == evaluation_order_of(
            self.node_ids(),
            self.connections@,
        )
    }

    /// An empty graph whose first node receives identifier 1.
    pub fn new() -> (g: Self)
        ensures
            g.wf(),
            g.node_seq() == Seq::<Node<N>>::empty(),
            g.conn_seq() == Seq::<Connection>::empty(),
            g.spec_next_id() == 1,
    {
        Graph {
            nodes: Vec::new(),
            connections: Vec::new(),
            next_id: 1,
            topo_order: Vec::new(),
            cyclic_nodes: Vec::new(),
            topo_dirty: true,
        }
    }

    /// The nodes, in increasing identifier order.
    pub fn nodes(&self) -> (r: &Vec<Node<N>>)
        ensures
            r@ == self.node_seq(),
    {
        &self.nodes
    }

    /// The wires.
    pub fn connections(&self) -> (r: &Vec<Connection>)
        ensures
            r@ == self.conn_seq(),
    {
        &self.connections
    }

    /// The position of node `id` in the node list, if it is there.
    fn find_node(&self, id: NodeId) -> (r: Option<usize>)
        ensures
            match r {
                Some(i) => i < self.nodes@.len() && self.nodes@[i as int].id == id
                    && self.node_ids()[i as int] == id && self.node_ids().contains(id),
                None => !self.node_ids().contains(id),
            },
    {
        let mut i: usize = 0;
        while i < self.nodes.len()
            invariant
                i <= self.nodes@.len(),
                forall|j: int| 0 <= j < i ==> self.nodes@[j].id != id,
            decreases self.nodes@.len() - i,
        {
            if self.nodes[i].id == id {
                proof {
                    assert(self.node_ids()[i as int] == id);
                }
                return Some(i);
            }
            i += 1;
        }
        proof {
            if self.node_ids().contains(id) {
                let j = choose|j: int| 0 <= j < self.node_ids().len() && self.node_ids()[j] == id;
                assert(self.nodes@[j].id == id);
            }
        }
        None
    }

    /// Whether the graph has a node with identifier `id`.
    pub fn contains_node(&self, id: NodeId) -> (r: bool)
        ensures
            r == self.has_node(id),
    {
        self.find_node(id).is_some()
    }

    /// The application data of node `id`, if it exists.
    pub fn node(&self, id: NodeId) -> (r: Option<&N>)
        ensures
            match r {
                Some(n) => exists|i: int|
                    0 <= i < self.node_seq().len() && self.node_seq()[i].id == id
                        && self.node_seq()[i].node_type == *n,
                None => !self.has_node(id),
            },
    {
        match self.find_node(id) {
            Some(i) => {
                proof {
                    assert(self.node_seq()[i as int].id == id);
                }
                Some(&self.nodes[i].node_type)
            },
            None => None,
        }
    }

    /// Adds a node with the next identifier and returns that identifier.
    pub fn add_node(&mut self, node_type: N) -> (id: NodeId)
        requires
            old(self).wf(),
            old(self).spec_next_id() < u64::MAX,
        ensures
            final(self).wf(),
            !final(self).order_fresh(),
            id == old(self).spec_next_id(),
            final(self).spec_next_id() == id + 1,
            final(self).node_seq() == old(self).node_seq().push(Node { id, node_type }),
            final(self).conn_seq() == old(self).conn_seq(),
            !old(self).has_node(id),
            final(self).has_node(id),
            forall|i: int| 0 <= i < old(self).node_seq().len() ==> #[trigger] old(self).node_seq()[i].id < id,
    {
        proof {
            law_graph_invariants(*old(self));
        }
        let id = self.next_id;
        self.next_id = self.next_id + 1;
        self.nodes.push(Node { id, node_type });
        self.topo_dirty = true;
        proof {
            assert(ids_of(self.nodes@) == ids_of(old(self).nodes@).push(id));
            assert(self.node_ids()[self.node_ids().len() - 1] == id);
        }
        id
    }
}


/// Which wires a filtering pass drops.
#[derive(Clone, Copy)]
pub enum WireFilter {
    /// Wires that touch the node at either end.
    Touching(NodeId),
    /// Wires that end at the given input port.
    EndingAt(NodeId, usize),
    /// Wires that join exactly the given two ports.
    Joining(NodeId, usize, NodeId, usize),
}

/// Whether `f` drops the wire `c`.
pub open spec fn drops(f: WireFilter, c: Connection) -> bool {
    match f {
        WireFilter::Touching(n) => touches(c, n),
        WireFilter::EndingAt(n, p) => ends_at(c, n, p),
        WireFilter::Joining(a, ap, b, bp) => joins(c, a, ap, b, bp),
    }
}

/// The wires of `conns` that `f` keeps, in the order they had.
pub open spec fn kept(conns: Seq<Connection>, f: WireFilter) -> Seq<Connection> {
    conns.filter(keeps(f))
}

/// The predicate of the wires that `f` keeps.
pub open spec fn keeps(f: WireFilter) -> spec_fn(Connection) -> bool {
    |c: Connection| !drops(f, c)
}

/// Whether some dependency of `order[i]` does not occur within the first `bound`
/// positions strictly before `i`.
pub open spec fn deps_within(
    ids: Seq<NodeId>,
    conns: Seq<Connection>,
    order: Seq<NodeId>,
    i: int,
    bound: int,
) -> bool {
    forall|p: NodeId| #[trigger] is_edge(ids, conns, p, order[i]) ==> exists|j: int|
        0 <= j < i && j < bound && #[trigger] order[j] == p
}

/// Every node outside `order` has a dependency outside the first `bound` entries.
pub open spec fn blocked_outside(
    ids: Seq<NodeId>,
    conns: Seq<Connection>,
    order: Seq<NodeId>,
    bound: int,
    upto: int,
) -> bool {
    forall|j: int| 0 <= j < upto && !order.contains(#[trigger] ids[j]) ==> exists|p: NodeId|
        #[trigger] is_edge(ids, conns, p, ids[j]) && !in_prefix(order, bound, p)
}

/// A duplicate-free sequence whose elements all occur in another duplicate-free
/// sequence is no longer than it.
proof fn lemma_unique_subset_len(a: Seq<NodeId>, b: Seq<NodeId>)
    requires
        a.no_duplicates(),
        forall|x: NodeId| a.contains(x) ==> b.contains(x),
    ensures
        a.len() <= b.len(),
{
    a.unique_seq_to_set();
    b.lemma_cardinality_of_set();
    assert(a.to_set().subset_of(b.to_set()));
    vstd::set_lib::lemma_len_subset(a.to_set(), b.to_set());
}

/// A strictly increasing sequence has no duplicates.
proof fn lemma_sorted_unique(s: Seq<NodeId>)
    requires
        strictly_sorted(s),
    ensures
        s.no_duplicates(),
{
    assert forall|i: int, j: int| 0 <= i < s.len() && 0 <= j < s.len() && i != j implies s[i]
        != s[j] by {
        if i < j {
            assert(s[i] < s[j]);
        } else {
            assert(s[j] < s[i]);
        }
    }
}

/// Whether `x` occurs among the first `bound` entries of `order`.
fn prefix_contains(order: &Vec<NodeId>, bound: usize, x: NodeId) -> (r: bool)
    requires
        bound <= order@.len(),
    ensures
        r == in_prefix(order@, bound as int, x),
{
    let mut j: usize = 0;
    while j < bound
        invariant
            j <= bound <= order@.len(),
            forall|k: int| 0 <= k < j ==> order@[k] != x,
        decreases bound - j,
    {
        if order[j] == x {
            return true;
        }
        j += 1;
    }
    false
}

impl<N> Graph<N> {
    /// Copies the wires that `f` keeps.
    fn kept_connections(&self, f: WireFilter) -> (r: Vec<Connection>)
        requires
            inputs_unique(self.connections@),
        ensures
            r@ == kept(self.connections@, f),
            inputs_unique(r@),
            forall|i: int| 0 <= i < r@.len() ==> self.connections@.contains(#[trigger] r@[i]),
    {
        let ghost pred = keeps(f);
        let ghost conns = self.connections@;
        let mut r: Vec<Connection> = Vec::new();
        let mut i: usize = 0;
        while i < self.connections.len()
            invariant
                pred == keeps(f),
                conns == self.connections@,
                i <= conns.len(),
                inputs_unique(conns),
                r@ == conns.subrange(0, i as int).filter(pred),
                forall|m: int| 0 <= m < r@.len() ==> conns.subrange(0, i as int).contains(#[trigger] r@[m]),
                inputs_unique(r@),
            decreases conns.len() - i,
        {
            let c = &self.connections[i];
            let keep = match f {
                WireFilter::Touching(n) => !(c.from_node == n || c.to_node == n),
                WireFilter::EndingAt(n, p) => !(c.to_node == n && c.to_port == p),
                WireFilter::Joining(a, ap, b, bp) => !(c.from_node == a && c.from_port == ap
                    && c.to_node == b && c.to_port == bp),
            };
            let ghost cc = conns[i as int];
            proof {
                assert(*c == cc);
                assert(keep == pred(cc));
                assert(conns.subrange(0, i + 1) == conns.subrange(0, i as int).push(cc));
                conns.subrange(0, i as int).lemma_filter_push(cc, pred);
            }
            if keep {
                let ghost old_r = r@;
                r.push(c.clone());
                proof {
                    assert forall|a: int, b: int| 0 <= a < b < r@.len() implies !(
                    #[trigger] r@[a].to_node == #[trigger] r@[b].to_node && r@[a].to_port
                        == r@[b].to_port) by {
                        if b == r@.len() - 1 {
                            assert(r@[a] == old_r[a]);
                            assert(conns.subrange(0, i as int).contains(old_r[a]));
                            let ja = choose|j: int| 0 <= j < i && conns.subrange(0, i as int)[j] == old_r[a];
                            assert(conns[ja] == r@[a]);
                            assert(r@[b] == conns[i as int]);
                        } else {
                            assert(r@[a] == old_r[a]);
                            assert(r@[b] == old_r[b]);
                        }
                    }
                    assert forall|m: int| 0 <= m < r@.len() implies conns.subrange(0, i + 1).contains(
                        #[trigger] r@[m],
                    ) by {
                        if m == r@.len() - 1 {
                            assert(conns.subrange(0, i + 1)[i as int] == r@[m]);
                        } else {
                            assert(r@[m] == old_r[m]);
                            assert(conns.subrange(0, i as int).contains(old_r[m]));
                            let j = choose|j: int| 0 <= j < i && conns.subrange(0, i as int)[j] == old_r[m];
                            assert(conns.subrange(0, i + 1)[j] == r@[m]);
                        }
                    }
                }
            } else {
                proof {
                    assert forall|m: int| 0 <= m < r@.len() implies conns.subrange(0, i + 1).contains(
                        #[trigger] r@[m],
                    ) by {
                        assert(conns.subrange(0, i as int).contains(r@[m]));
                        let j = choose|j: int| 0 <= j < i && conns.subrange(0, i as int)[j] == r@[m];
                        assert(conns.subrange(0, i + 1)[j] == r@[m]);
                    }
                }
            }
            i += 1;
        }
        proof {
            assert(conns.subrange(0, conns.len() as int) == conns);
        }
        r
    }

    /// Removes node `id` together with every wire that touches it.
    pub fn remove_node(&mut self, id: NodeId)
        requires
            old(self).wf(),
        ensures
            final(self).wf(),
            !final(self).order_fresh(),
            final(self).spec_next_id() == old(self).spec_next_id(),
            old(self).has_node(id) ==> exists|i: int|
                0 <= i < old(self).node_seq().len() && old(self).node_seq()[i].id == id
                    && final(self).node_seq() == old(self).node_seq().remove(i),
            !old(self).has_node(id) ==> final(self).node_seq() == old(self).node_seq(),
            final(self).conn_seq() == kept(old(self).conn_seq(), WireFilter::Touching(id)),
            !final(self).has_node(id),
            forall|k: int| 0 <= k < final(self).conn_seq().len() ==> !touches(#[trigger] final(self).conn_seq()[k], id),
    {
        let kept = self.kept_connections(WireFilter::Touching(id));
        proof {
            assert forall|k: int| 0 <= k < kept@.len() implies !touches(#[trigger] kept@[k], id) by {
                self.connections@.lemma_filter_pred(keeps(WireFilter::Touching(id)), k);
            }
        }
        self.connections = kept;
        match self.find_node(id) {
            Some(i) => {
                let ghost before = self.nodes@;
                let _removed = self.nodes.remove(i);
                proof {
                    assert(self.nodes@ == before.remove(i as int));
                    assert forall|a: int, b: int|
                        0 <= a < b < self.node_ids().len() implies self.node_ids()[a]
                        < self.node_ids()[b] by {
                        let a0 = if a < i { a } else { a + 1 };
                        let b0 = if b < i { b } else { b + 1 };
                        assert(self.node_ids()[a] == ids_of(before)[a0]);
                        assert(self.node_ids()[b] == ids_of(before)[b0]);
                    }
                    assert forall|k: int| 0 <= k < self.nodes@.len() implies #[trigger] self.nodes@[k].id
                        < self.next_id by {
                        let k0 = if k < i { k } else { k + 1 };
                        assert(self.nodes@[k] == before[k0]);
                    }
                    assert(old(self).node_seq()[i as int].id == id);
                    assert(self.node_seq() == old(self).node_seq().remove(i as int));
                    assert(strictly_sorted(self.node_ids()));
                    assert forall|k: int| 0 <= k < self.node_ids().len() implies self.node_ids()[k] != id by {
                        let k0 = if k < i { k } else { k + 1 };
                        assert(self.node_ids()[k] == ids_of(before)[k0]);
                        assert(ids_of(before)[i as int] == id);
                        if k0 < i {
                            assert(ids_of(before)[k0] < ids_of(before)[i as int]);
                        } else {
                            assert(ids_of(before)[i as int] < ids_of(before)[k0]);
                        }
                    }
                }
            },
            None => {
                assert(strictly_sorted(self.node_ids()));
            },
        }
        self.topo_dirty = true;
        proof {
            assert(strictly_sorted(self.node_ids()));
            assert(inputs_unique(self.connections@));
        }
    }

    /// Removes every wire that ends at input `port` of node `node_id`.
    pub fn remove_connections_to_port(&mut self, node_id: NodeId, port: usize)
        requires
            old(self).wf(),
        ensures
            final(self).wf(),
            !final(self).order_fresh(),
            final(self).spec_next_id() == old(self).spec_next_id(),
            final(self).node_seq() == old(self).node_seq(),
            final(self).conn_seq() == kept(old(self).conn_seq(), WireFilter::EndingAt(node_id, port)),
            source_of(final(self).conn_seq(), node_id, port) == None::<(NodeId, usize)>,
            forall|n: NodeId, p: usize| !(n == node_id && p == port) ==> #[trigger] source_of(
                final(self).conn_seq(),
                n,
                p,
            ) == source_of(old(self).conn_seq(), n, p),
    {
        let kept = self.kept_connections(WireFilter::EndingAt(node_id, port));
        proof {
            lemma_source_after_unwire(self.connections@, kept@, node_id, port, node_id, port);
            assert forall|n: NodeId, p: usize| !(n == node_id && p == port) implies #[trigger] source_of(
                kept@,
                n,
                p,
            ) == source_of(self.connections@, n, p) by {
                lemma_source_after_unwire(self.connections@, kept@, node_id, port, n, p);
            }
        }
        self.connections = kept;
        self.topo_dirty = true;
    }

    /// Wires output `from_port` of `from_node` to input `to_port` of `to_node`,
    /// replacing any wire that ended at that input before.
    pub fn add_connection(&mut self, from_node: NodeId, from_port: usize, to_node: NodeId, to_port: usize)
        requires
            old(self).wf(),
        ensures
            final(self).wf(),
            !final(self).order_fresh(),
            final(self).spec_next_id() == old(self).spec_next_id(),
            final(self).node_seq() == old(self).node_seq(),
            ({
                let k = kept(old(self).conn_seq(), WireFilter::EndingAt(to_node, to_port));
                let c = final(self).conn_seq();
                &&& c.len() == k.len() + 1
                &&& c.subrange(0, k.len() as int) == k
                &&& joins(c[k.len() as int], from_node, from_port, to_node, to_port)
                &&& c[k.len() as int].label@ == Seq::<char>::empty()
            }),
            source_of(final(self).conn_seq(), to_node, to_port) == Some((from_node, from_port)),
            forall|n: NodeId, p: usize| !(n == to_node && p == to_port) ==> #[trigger] source_of(
                final(self).conn_seq(),
                n,
                p,
            ) == source_of(old(self).conn_seq(), n, p),
    {
        let mut kept = self.kept_connections(WireFilter::EndingAt(to_node, to_port));
        let ghost k = kept@;
        proof {
            assert forall|m: int| 0 <= m < k.len() implies !ends_at(#[trigger] k[m], to_node, to_port) by {
                self.connections@.lemma_filter_pred(keeps(WireFilter::EndingAt(to_node, to_port)), m);
            }
        }
        kept.push(Connection { from_node, from_port, to_node, to_port, label: String::new() });
        proof {
            assert(kept@.subrange(0, k.len() as int) == k);
            assert forall|a: int, b: int| 0 <= a < b < kept@.len() implies !(
            #[trigger] kept@[a].to_node == #[trigger] kept@[b].to_node && kept@[a].to_port
                == kept@[b].to_port) by {
                if b == kept@.len() - 1 {
                    assert(kept@[a] == k[a]);
                    assert(!ends_at(k[a], to_node, to_port));
                } else {
                    assert(kept@[a] == k[a]);
                    assert(kept@[b] == k[b]);
                }
            }
        }
        proof {
            let last = kept@[k.len() as int];
            assert(kept@ == k.push(last));
            lemma_source_of_unique(kept@, to_node, to_port, k.len() as int);
            assert forall|n: NodeId, p: usize| !(n == to_node && p == to_port) implies #[trigger] source_of(
                kept@,
                n,
                p,
            ) == source_of(self.connections@, n, p) by {
                lemma_source_after_push(k, last, n, p);
                lemma_source_after_unwire(self.connections@, k, to_node, to_port, n, p);
            }
        }
        self.connections = kept;
        self.topo_dirty = true;
    }

    /// Removes every wire that joins exactly the given two ports and returns how many
    /// were removed.
    pub fn disconnect(&mut self, from_node: NodeId, from_port: usize, to_node: NodeId, to_port: usize) -> (removed: usize)
        requires
            old(self).wf(),
        ensures
            final(self).wf(),
            !final(self).order_fresh(),
            final(self).spec_next_id() == old(self).spec_next_id(),
            final(self).node_seq() == old(self).node_seq(),
            final(self).conn_seq() == kept(
                old(self).conn_seq(),
                WireFilter::Joining(from_node, from_port, to_node, to_port),
            ),
            removed == old(self).conn_seq().len() - final(self).conn_seq().len(),
    {
        let before = self.connections.len();
        let kept = self.kept_connections(WireFilter::Joining(from_node, from_port, to_node, to_port));
        proof {
            self.connections@.lemma_filter_len(
                keeps(WireFilter::Joining(from_node, from_port, to_node, to_port)),
            );
        }
        let after = kept.len();
        self.connections = kept;
        self.topo_dirty = true;
        before - after
    }
}


impl<N> Graph<N> {
    /// Whether `u -> v` is a dependency edge.
    fn has_edge(&self, u: NodeId, v: NodeId) -> (r: bool)
        requires
            self.has_node(u),
            self.has_node(v),
        ensures
            r == is_edge(self.node_ids(), self.connections@, u, v),
    {
        if u == v {
            return false;
        }
        let mut k: usize = 0;
        while k < self.connections.len()
            invariant
                self.has_node(u),
                self.has_node(v),
                u != v,
                k <= self.connections@.len(),
                forall|j: int| 0 <= j < k ==> !(#[trigger] self.connections@[j].from_node == u
                    && self.connections@[j].to_node == v),
            decreases self.connections@.len() - k,
        {
            if self.connections[k].from_node == u && self.connections[k].to_node == v {
                proof {
                    assert(self.connections@[k as int].from_node == u);
                    assert(wired(self.connections@, u, v));
                }
                return true;
            }
            k += 1;
        }
        false
    }

    /// Whether every dependency of `v` occurs among the first `bound` entries of `order`.
    fn all_deps_in(&self, v: NodeId, order: &Vec<NodeId>, bound: usize) -> (r: bool)
        requires
            self.has_node(v),
            bound <= order@.len(),
        ensures
            r == (forall|p: NodeId|
                #[trigger] is_edge(self.node_ids(), self.connections@, p, v) ==> in_prefix(
                    order@,
                    bound as int,
                    p,
                )),
    {
        let ghost ids = self.node_ids();
        let ghost conns = self.connections@;
        let mut k: usize = 0;
        while k < self.connections.len()
            invariant
                ids == self.node_ids(),
                conns == self.connections@,
                self.has_node(v),
                k <= conns.len(),
                bound <= order@.len(),
                forall|j: int|
                    0 <= j < k && #[trigger] conns[j].to_node == v && conns[j].from_node != v
                        && ids.contains(conns[j].from_node) ==> in_prefix(
                        order@,
                        bound as int,
                        conns[j].from_node,
                    ),
            decreases conns.len() - k,
        {
            let c = &self.connections[k];
            if c.to_node == v && c.from_node != v && self.contains_node(c.from_node)
                && !prefix_contains(order, bound, c.from_node) {
                proof {
                    let p = c.from_node;
                    assert(conns[k as int].from_node == p && conns[k as int].to_node == v);
                    assert(wired(conns, p, v));
                    assert(self.has_node(p));
                    assert(ids.contains(p));
                    assert(ids.contains(v));
                    assert(p != v);
                    assert(is_edge(ids, conns, p, v));
                }
                return false;
            }
            k += 1;
        }
        proof {
            assert forall|p: NodeId| #[trigger] is_edge(ids, conns, p, v) implies in_prefix(
                order@,
                bound as int,
                p,
            ) by {
                let j = choose|j: int|
                    0 <= j < conns.len() && #[trigger] conns[j].from_node == p && conns[j].to_node
                        == v;
                assert(conns[j].to_node == v);
            }
        }
        true
    }

    /// Kahn's algorithm. Nodes without dependencies seed the queue in increasing
    /// identifier order; each processed node releases, in increasing identifier
    /// order, the nodes whose last unprocessed dependency it was. Nodes never
    /// released lie on or downstream of a cycle and follow in increasing order.
    #[verifier::rlimit(50)]
    fn compute_topo_order(&self) -> (r: (Vec<NodeId>, Vec<NodeId>))
        requires
            strictly_sorted(self.node_ids()),
        ensures
            topo_valid(self.node_ids(), self.connections@, r.0@, r.1@),
            r.0@ == kahn_order(self.node_ids(), self.connections@) + left_over(
                self.node_ids(),
                kahn_order(self.node_ids(), self.connections@),
            ),
            r.1@ == left_over(self.node_ids(), kahn_order(self.node_ids(), self.connections@)),
    {
        let ghost ids = self.node_ids();
        let ghost conns = self.connections@;
        let n = self.nodes.len();
        proof {
            lemma_sorted_unique(ids);
        }
        let mut order: Vec<NodeId> = Vec::new();
        // Seed with every node that has no dependency.
        let mut i: usize = 0;
        while i < n
            invariant
                ids == self.node_ids(),
                conns == self.connections@,
                n == ids.len(),
                strictly_sorted(ids),
                i <= n,
                strictly_sorted(order@),
                forall|m: int| #![trigger order@[m]] 0 <= m < order@.len() ==> exists|j: int|
                    0 <= j < i && #[trigger] ids[j] == order@[m],
                forall|m: int| 0 <= m < order@.len() ==> #[trigger] deps_within(ids, conns, order@, m, 0),
                blocked_outside(ids, conns, order@, 0, i as int),
                order@ == ids.take(i as int).filter(is_seed(ids, conns)),
            decreases n - i,
        {
            let v = self.nodes[i].id;
            proof {
                assert(ids[i as int] == v);
                assert(self.has_node(v));
            }
            let seed = self.all_deps_in(v, &order, 0);
            proof {
                assert forall|p: NodeId| !#[trigger] in_prefix(order@, 0, p) by {}
                assert(seed == is_seed(ids, conns)(v));
                lemma_filter_take(ids, is_seed(ids, conns), i as int);
            }
            if seed {
                let ghost old_order = order@;
                order.push(v);
                proof {
                    assert forall|m: int| #![trigger order@[m]] 0 <= m < order@.len() implies exists|j: int|
                        0 <= j < i + 1 && #[trigger] ids[j] == order@[m] by {
                        if m < old_order.len() {
                            assert(order@[m] == old_order[m]);
                        } else {
                            assert(ids[i as int] == order@[m]);
                        }
                    }
                    assert forall|a: int, b: int| 0 <= a < b < order@.len() implies order@[a]
                        < order@[b] by {
                        if b == old_order.len() {
                            let ja = choose|j: int| 0 <= j < i && #[trigger] ids[j] == old_order[a];
                            assert(ids[ja] < ids[i as int]);
                        } else {
                            assert(order@[a] == old_order[a]);
                        }
                    }
                    assert forall|m: int| 0 <= m < order@.len() implies #[trigger] deps_within(
                        ids,
                        conns,
                        order@,
                        m,
                        0,
                    ) by {
                        if m < old_order.len() {
                            assert(order@[m] == old_order[m]);
                            assert(deps_within(ids, conns, old_order, m, 0));
                        } else {
                            assert forall|p: NodeId| #[trigger] is_edge(ids, conns, p, order@[m]) implies exists|j: int|
                                0 <= j < m && j < 0 && #[trigger] order@[j] == p by {
                                assert(in_prefix(old_order, 0, p));
                            }
                        }
                    }
                    assert forall|j: int| 0 <= j < i + 1 && !order@.contains(#[trigger] ids[j]) implies exists|p: NodeId|
                        #[trigger] is_edge(ids, conns, p, ids[j]) && !in_prefix(order@, 0, p) by {
                        if j < i {
                            if old_order.contains(ids[j]) {
                                let m = choose|m: int| 0 <= m < old_order.len() && old_order[m] == ids[j];
                                assert(order@[m] == ids[j]);
                            }
                            let p = choose|p: NodeId| #[trigger] is_edge(ids, conns, p, ids[j]) && !in_prefix(old_order, 0, p);
                            assert(!in_prefix(order@, 0, p));
                        } else {
                            assert(order@[old_order.len() as int] == ids[j]);
                        }
                    }
                }
            } else {
                proof {
                    assert forall|j: int| 0 <= j < i + 1 && !order@.contains(#[trigger] ids[j]) implies exists|p: NodeId|
                        #[trigger] is_edge(ids, conns, p, ids[j]) && !in_prefix(order@, 0, p) by {
                        if j == i {
                            let p = choose|p: NodeId| #[trigger] is_edge(ids, conns, p, v) && !in_prefix(order@, 0, p);
                            assert(is_edge(ids, conns, p, ids[j]));
                        }
                    }
                }
            }
            i += 1;
        }
        proof {
            lemma_sorted_unique(order@);
            assert forall|x: NodeId| order@.contains(x) implies ids.contains(x) by {
                let m = choose|m: int| 0 <= m < order@.len() && order@[m] == x;
                let j = choose|j: int| 0 <= j < n && #[trigger] ids[j] == order@[m];
            }
            lemma_unique_subset_len(order@, ids);
            assert forall|m: int| 0 <= m < order@.len() implies #[trigger] deps_within(ids, conns, order@, m, 0) by {}
        }
        let ghost seeds = order@;
        proof {
            assert(ids.take(n as int) == ids);
        }
        // Process the queue; `order[..head]` holds the processed nodes.
        let mut head: usize = 0;
        while head < order.len()
            invariant
                ids == self.node_ids(),
                conns == self.connections@,
                n == ids.len(),
                ids.no_duplicates(),
                strictly_sorted(ids),
                head <= order@.len() <= n,
                order@.no_duplicates(),
                forall|m: int| 0 <= m < order@.len() ==> ids.contains(#[trigger] order@[m]),
                forall|m: int| 0 <= m < order@.len() ==> #[trigger] deps_within(ids, conns, order@, m, head as int),
                blocked_outside(ids, conns, order@, head as int, n as int),
                seeds == ids.filter(is_seed(ids, conns)),
                kahn_from(ids, conns, seeds, 0) == kahn_from(ids, conns, order@, head as nat),
            decreases n - head,
        {
            let u = order[head];
            let ghost start = order@;
            let start_len = order.len();
            proof {
                assert(ids.contains(u));
            }
            let mut i: usize = 0;
            while i < n
                invariant
                    ids == self.node_ids(),
                    conns == self.connections@,
                    n == ids.len(),
                    ids.no_duplicates(),
                    strictly_sorted(ids),
                    head < start_len == start.len() <= order@.len(),
                    i <= n,
                    u == start[head as int],
                    ids.contains(u),
                    order@.subrange(0, start_len as int) == start,
                    order@.no_duplicates(),
                    forall|m: int| 0 <= m < order@.len() ==> ids.contains(#[trigger] order@[m]),
                    forall|m: int| 0 <= m < start_len ==> #[trigger] deps_within(ids, conns, start, m, head as int),
                    forall|m: int| start_len <= m < order@.len() ==> #[trigger] deps_within(ids, conns, order@, m, head + 1),
                    forall|m: int| #![trigger order@[m]] start_len <= m < order@.len() ==> exists|j: int|
                        0 <= j < i && #[trigger] ids[j] == order@[m],
                    blocked_outside(ids, conns, start, head as int, n as int),
                    blocked_outside(ids, conns, order@, head + 1, i as int),
                    order@ == start + ids.take(i as int).filter(released_by(ids, conns, start, head + 1, u)),
                decreases n - i,
            {
                let v = self.nodes[i].id;
                proof {
                    assert(ids[i as int] == v);
                    assert(self.has_node(v));
                }
                let released = self.has_edge(u, v) && self.all_deps_in(v, &order, head + 1);
                proof {
                    lemma_in_prefix_extended(start, order@, head + 1);
                    assert(released == released_by(ids, conns, start, head + 1, u)(v));
                    lemma_filter_take(ids, released_by(ids, conns, start, head + 1, u), i as int);
                }
                if released {
                    let ghost before = order@;
                    proof {
                        if before.contains(v) {
                            let m = choose|m: int| 0 <= m < before.len() && before[m] == v;
                            if m < start_len {
                                assert(start[m] == v);
                                assert(deps_within(ids, conns, start, m, head as int));
                                assert(is_edge(ids, conns, u, start[m]));
                                let j = choose|j: int| 0 <= j < m && j < head && #[trigger] start[j] == u;
                                assert(start[head as int] == u);
                            } else {
                                let j = choose|j: int| 0 <= j < i && #[trigger] ids[j] == before[m];
                                assert(ids[j] < ids[i as int]);
                            }
                        }
                    }
                    order.push(v);
                    proof {
                        assert(order@.subrange(0, start_len as int) == before.subrange(0, start_len as int));
                        assert forall|a: int, b: int| 0 <= a < order@.len() && 0 <= b < order@.len() && a != b implies order@[a] != order@[b] by {
                            if a == before.len() {
                                assert(!before.contains(v));
                                assert(order@[b] == before[b]);
                            } else if b == before.len() {
                                assert(order@[a] == before[a]);
                            } else {
                                assert(order@[a] == before[a]);
                                assert(order@[b] == before[b]);
                            }
                        }
                        assert forall|m: int| 0 <= m < order@.len() implies ids.contains(#[trigger] order@[m]) by {
                            if m < before.len() {
                                assert(order@[m] == before[m]);
                            }
                        }
                        assert forall|m: int| start_len <= m < order@.len() implies #[trigger] deps_within(ids, conns, order@, m, head + 1) by {
                            if m < before.len() {
                                assert(order@[m] == before[m]);
                                assert(deps_within(ids, conns, before, m, head + 1));
                                assert forall|p: NodeId| #[trigger] is_edge(ids, conns, p, order@[m]) implies exists|j: int|
                                    0 <= j < m && j < head + 1 && #[trigger] order@[j] == p by {
                                    let j = choose|j: int| 0 <= j < m && j < head + 1 && #[trigger] before[j] == p;
                                    assert(order@[j] == before[j]);
                                }
                            } else {
                                assert forall|p: NodeId| #[trigger] is_edge(ids, conns, p, order@[m]) implies exists|j: int|
                                    0 <= j < m && j < head + 1 && #[trigger] order@[j] == p by {
                                    assert(in_prefix(before, head + 1, p));
                                    let j = choose|j: int| 0 <= j < head + 1 && j < before.len() && #[trigger] before[j] == p;
                                    assert(order@[j] == before[j]);
                                }
                            }
                        }
                        assert forall|m: int| #![trigger order@[m]] start_len <= m < order@.len() implies exists|j: int|
                            0 <= j < i + 1 && #[trigger] ids[j] == order@[m] by {
                            if m < before.len() {
                                assert(order@[m] == before[m]);
                                let j = choose|j: int| 0 <= j < i && #[trigger] ids[j] == before[m];
                            } else {
                                assert(ids[i as int] == order@[m]);
                            }
                        }
                        assert forall|j: int| 0 <= j < i + 1 && !order@.contains(#[trigger] ids[j]) implies exists|p: NodeId|
                            #[trigger] is_edge(ids, conns, p, ids[j]) && !in_prefix(order@, head + 1, p) by {
                            if j < i {
                                if before.contains(ids[j]) {
                                    let m = choose|m: int| 0 <= m < before.len() && before[m] == ids[j];
                                    assert(order@[m] == ids[j]);
                                }
                                let p = choose|p: NodeId| #[trigger] is_edge(ids, conns, p, ids[j]) && !in_prefix(before, head + 1, p);
                                if in_prefix(order@, head + 1, p) {
                                    let jj = choose|jj: int| 0 <= jj < head + 1 && jj < order@.len() && #[trigger] order@[jj] == p;
                                    assert(before[jj] == p);
                                }
                            } else {
                                assert(order@[before.len() as int] == ids[j]);
                            }
                        }
                    }
                } else {
                    proof {
                        assert forall|j: int| 0 <= j < i + 1 && !order@.contains(#[trigger] ids[j]) implies exists|p: NodeId|
                            #[trigger] is_edge(ids, conns, p, ids[j]) && !in_prefix(order@, head + 1, p) by {
                            if j == i {
                                if !is_edge(ids, conns, u, v) {
                                    if start.contains(v) {
                                        let m = choose|m: int| 0 <= m < start.len() && start[m] == v;
                                        assert(order@[m] == v);
                                    }
                                    let p = choose|p: NodeId| #[trigger] is_edge(ids, conns, p, ids[j]) && !in_prefix(start, head as int, p);
                                    if in_prefix(order@, head + 1, p) {
                                        let jj = choose|jj: int| 0 <= jj < head + 1 && jj < order@.len() && #[trigger] order@[jj] == p;
                                        assert(order@[jj] == start[jj]);
                                        if jj < head {
                                            assert(in_prefix(start, head as int, p));
                                        } else {
                                            assert(p == u);
                                        }
                                    }
                                } else {
                                    let p = choose|p: NodeId| #[trigger] is_edge(ids, conns, p, v) && !in_prefix(order@, head + 1, p);
                                    assert(is_edge(ids, conns, p, ids[j]));
                                }
                            }
                        }
                    }
                }
                i += 1;
            }
            proof {
                lemma_unique_subset_len(order@, ids);
                assert forall|m: int| 0 <= m < order@.len() implies #[trigger] deps_within(ids, conns, order@, m, head + 1) by {
                    if m < start_len {
                        assert(order@[m] == start[m]);
                        assert(deps_within(ids, conns, start, m, head as int));
                        assert forall|p: NodeId| #[trigger] is_edge(ids, conns, p, order@[m]) implies exists|j: int|
                            0 <= j < m && j < head + 1 && #[trigger] order@[j] == p by {
                            let j = choose|j: int| 0 <= j < m && j < head && #[trigger] start[j] == p;
                            assert(order@[j] == start[j]);
                        }
                    }
                }
            }
            proof {
                assert(ids.take(n as int) == ids);
                assert(order@ == start + ids.filter(released_by(ids, conns, start, head + 1, u)));
                assert(kahn_from(ids, conns, start, head as nat) == kahn_from(ids, conns, order@, (head + 1) as nat));
            }
            head += 1;
        }
        // Every node never released depends on another such node.
        let ghost acyclic = order@;
        let mut cyclic: Vec<NodeId> = Vec::new();
        let mut i: usize = 0;
        while i < n
            invariant
                ids == self.node_ids(),
                conns == self.connections@,
                n == ids.len(),
                strictly_sorted(ids),
                i <= n,
                acyclic == order@,
                strictly_sorted(cyclic@),
                forall|m: int| #![trigger cyclic@[m]] 0 <= m < cyclic@.len() ==> exists|j: int|
                    0 <= j < i && #[trigger] ids[j] == cyclic@[m],
                forall|m: int| 0 <= m < cyclic@.len() ==> !acyclic.contains(#[trigger] cyclic@[m]),
                forall|j: int| 0 <= j < i && !acyclic.contains(#[trigger] ids[j]) ==> cyclic@.contains(ids[j]),
                cyclic@ == ids.take(i as int).filter(not_in(acyclic)),
            decreases n - i,
        {
            let v = self.nodes[i].id;
            proof {
                assert(ids[i as int] == v);
            }
            let missing = !prefix_contains(&order, order.len(), v);
            proof {
                if acyclic.contains(v) {
                    let m = choose|m: int| 0 <= m < acyclic.len() && acyclic[m] == v;
                    assert(in_prefix(acyclic, acyclic.len() as int, v));
                }
                assert(missing == not_in(acyclic)(v));
                lemma_filter_take(ids, not_in(acyclic), i as int);
            }
            if missing {
                let ghost before = cyclic@;
                cyclic.push(v);
                proof {
                    assert(!in_prefix(acyclic, acyclic.len() as int, v));
                    assert(!acyclic.contains(v)) by {
                        if acyclic.contains(v) {
                            let m = choose|m: int| 0 <= m < acyclic.len() && acyclic[m] == v;
                            assert(in_prefix(acyclic, acyclic.len() as int, v));
                        }
                    }
                    assert forall|m: int| #![trigger cyclic@[m]] 0 <= m < cyclic@.len() implies exists|j: int|
                        0 <= j < i + 1 && #[trigger] ids[j] == cyclic@[m] by {
                        if m < before.len() {
                            assert(cyclic@[m] == before[m]);
                        } else {
                            assert(ids[i as int] == cyclic@[m]);
                        }
                    }
                    assert forall|a: int, b: int| 0 <= a < b < cyclic@.len() implies cyclic@[a]
                        < cyclic@[b] by {
                        if b == before.len() {
                            let ja = choose|j: int| 0 <= j < i && #[trigger] ids[j] == before[a];
                            assert(ids[ja] < ids[i as int]);
                        } else {
                            assert(cyclic@[a] == before[a]);
                        }
                    }
                    assert forall|m: int| 0 <= m < cyclic@.len() implies !acyclic.contains(#[trigger] cyclic@[m]) by {
                        if m < before.len() {
                            assert(cyclic@[m] == before[m]);
                        }
                    }
                    assert forall|j: int| 0 <= j < i + 1 && !acyclic.contains(#[trigger] ids[j]) implies cyclic@.contains(ids[j]) by {
                        if j < i {
                            let m = choose|m: int| 0 <= m < before.len() && before[m] == ids[j];
                            assert(cyclic@[m] == ids[j]);
                        } else {
                            assert(cyclic@[before.len() as int] == ids[j]);
                        }
                    }
                }
            } else {
                proof {
                    let m = choose|m: int| 0 <= m < acyclic.len() && #[trigger] acyclic[m] == v;
                    assert(acyclic.contains(v));
                }
            }
            i += 1;
        }
        proof {
            assert(ids.take(n as int) == ids);
            assert(acyclic == kahn_order(ids, conns));
        }
        let ghost k = order@.len();
        let mut full = order;
        let mut c: usize = 0;
        while c < cyclic.len()
            invariant
                full@.len() == k + c,
                c <= cyclic@.len(),
                full@.subrange(0, k as int) == acyclic,
                full@.subrange(k as int, k + c) == cyclic@.subrange(0, c as int),
            decreases cyclic@.len() - c,
        {
            let ghost before = full@;
            full.push(cyclic[c]);
            proof {
                assert(full@.subrange(0, k as int) == before.subrange(0, k as int));
                assert(full@.subrange(k as int, k + c + 1) == before.subrange(k as int, k + c).push(cyclic@[c as int]));
                assert(cyclic@.subrange(0, c + 1) == cyclic@.subrange(0, c as int).push(cyclic@[c as int]));
            }
            c += 1;
        }
        proof {
            assert(cyclic@.subrange(0, cyclic@.len() as int) == cyclic@);
            let f = full@;
            assert(f == acyclic + cyclic@);
            lemma_topo_result(ids, conns, acyclic, cyclic@);
        }
        (full, cyclic)
    }
}

/// Assembles the evaluation-order facts from what Kahn's algorithm establishes.
proof fn lemma_topo_result(ids: Seq<NodeId>, conns: Seq<Connection>, acyclic: Seq<NodeId>, cyclic: Seq<NodeId>)
    requires
        ids.no_duplicates(),
        acyclic.no_duplicates(),
        strictly_sorted(cyclic),
        forall|m: int| 0 <= m < acyclic.len() ==> ids.contains(#[trigger] acyclic[m]),
        forall|m: int| 0 <= m < acyclic.len() ==> #[trigger] deps_within(ids, conns, acyclic, m, acyclic.len() as int),
        blocked_outside(ids, conns, acyclic, acyclic.len() as int, ids.len() as int),
        forall|m: int| 0 <= m < cyclic.len() ==> ids.contains(#[trigger] cyclic[m]),
        forall|m: int| 0 <= m < cyclic.len() ==> !acyclic.contains(#[trigger] cyclic[m]),
        forall|j: int| 0 <= j < ids.len() && !acyclic.contains(#[trigger] ids[j]) ==> cyclic.contains(ids[j]),
    ensures
        topo_valid(ids, conns, acyclic + cyclic, cyclic),
{
    let order = acyclic + cyclic;
    let k = acyclic.len() as int;
    lemma_sorted_unique(cyclic);
    assert forall|a: int, b: int| 0 <= a < order.len() && 0 <= b < order.len() && a != b implies order[a] != order[b] by {
        if a < k && b >= k {
            assert(order[b] == cyclic[b - k]);
            assert(acyclic.contains(order[a]));
        } else if a >= k && b < k {
            assert(order[a] == cyclic[a - k]);
            assert(acyclic.contains(order[b]));
        }
    }
    assert forall|x: NodeId| ids.contains(x) <==> order.contains(x) by {
        if ids.contains(x) {
            let j = choose|j: int| 0 <= j < ids.len() && ids[j] == x;
            if acyclic.contains(x) {
                let m = choose|m: int| 0 <= m < acyclic.len() && acyclic[m] == x;
                assert(order[m] == x);
            } else {
                assert(cyclic.contains(ids[j]));
                let m = choose|m: int| 0 <= m < cyclic.len() && cyclic[m] == x;
                assert(order[k + m] == x);
            }
        }
        if order.contains(x) {
            let m = choose|m: int| 0 <= m < order.len() && order[m] == x;
            if m < k {
                assert(ids.contains(acyclic[m]));
            } else {
                assert(ids.contains(cyclic[m - k]));
            }
        }
    }
    lemma_unique_subset_len(order, ids);
    lemma_unique_subset_len(ids, order);
    assert(order.subrange(k, order.len() as int) == cyclic);
    assert forall|i: int| 0 <= i < k implies #[trigger] deps_before(ids, conns, order, i) by {
        assert(order[i] == acyclic[i]);
        assert(deps_within(ids, conns, acyclic, i, k));
        assert forall|p: NodeId| #[trigger] is_edge(ids, conns, p, order[i]) implies in_prefix(order, i, p) by {
            let j = choose|j: int| 0 <= j < i && j < k && #[trigger] acyclic[j] == p;
            assert(order[j] == p);
        }
    }
    assert forall|v: NodeId| #[trigger] cyclic.contains(v) implies exists|p: NodeId|
        #[trigger] is_edge(ids, conns, p, v) && cyclic.contains(p) by {
        let m = choose|m: int| 0 <= m < cyclic.len() && cyclic[m] == v;
        assert(ids.contains(v));
        let j = choose|j: int| 0 <= j < ids.len() && ids[j] == v;
        assert(!acyclic.contains(ids[j]));
        let p = choose|p: NodeId| #[trigger] is_edge(ids, conns, p, ids[j]) && !in_prefix(acyclic, k, p);
        assert(ids.contains(p));
        let jp = choose|jp: int| 0 <= jp < ids.len() && ids[jp] == p;
        if acyclic.contains(p) {
            let mp = choose|mp: int| 0 <= mp < acyclic.len() && acyclic[mp] == p;
            assert(in_prefix(acyclic, k, p));
        }
        assert(cyclic.contains(ids[jp]));
    }
}


/// The output port wired to input `port` of `node`, if some wire ends there.
pub open spec fn source_of(conns: Seq<Connection>, node: NodeId, port: usize) -> Option<(NodeId, usize)> {
    if exists|k: int| 0 <= k < conns.len() && ends_at(#[trigger] conns[k], node, port) {
        let k = choose|k: int| 0 <= k < conns.len() && ends_at(#[trigger] conns[k], node, port);
        Some((conns[k].from_node, conns[k].from_port))
    } else {
        None
    }
}

/// In a wire list where no two wires end at the same input, the wire ending at
/// a given input determines its source.
proof fn lemma_source_of_unique(conns: Seq<Connection>, node: NodeId, port: usize, k: int)
    requires
        inputs_unique(conns),
        0 <= k < conns.len(),
        ends_at(conns[k], node, port),
    ensures
        source_of(conns, node, port) == Some((conns[k].from_node, conns[k].from_port)),
{
    let k2 = choose|k2: int| 0 <= k2 < conns.len() && ends_at(#[trigger] conns[k2], node, port);
    if k2 != k {
        if k2 < k {
            assert(!(conns[k2].to_node == conns[k].to_node && conns[k2].to_port == conns[k].to_port));
        } else {
            assert(!(conns[k].to_node == conns[k2].to_node && conns[k].to_port == conns[k2].to_port));
        }
    }
}

impl<N> Graph<N> {
    /// The first wire of `connections` that ends at input `port_idx` of `node_id`,
    /// given as the output port it comes from.
    pub fn static_input_value(connections: &Vec<Connection>, node_id: NodeId, port_idx: usize) -> (r: Option<(NodeId, usize)>)
        ensures
            match r {
                Some(src) => exists|k: int|
                    0 <= k < connections@.len() && ends_at(#[trigger] connections@[k], node_id, port_idx)
                        && src == (connections@[k].from_node, connections@[k].from_port)
                        && forall|j: int| 0 <= j < k ==> !ends_at(#[trigger] connections@[j], node_id, port_idx),
                None => forall|k: int|
                    0 <= k < connections@.len() ==> !ends_at(#[trigger] connections@[k], node_id, port_idx),
            },
    {
        let mut k: usize = 0;
        while k < connections.len()
            invariant
                k <= connections@.len(),
                forall|j: int| 0 <= j < k ==> !ends_at(#[trigger] connections@[j], node_id, port_idx),
            decreases connections@.len() - k,
        {
            let c = &connections[k];
            if c.to_node == node_id && c.to_port == port_idx {
                proof {
                    assert(ends_at(connections@[k as int], node_id, port_idx));
                }
                return Some((c.from_node, c.from_port));
            }
            k += 1;
        }
        None
    }

    /// Recomputes the cached evaluation order.
    fn rebuild_topo_order(&mut self)
        requires
            old(self).wf(),
        ensures
            final(self).wf(),
            !final(self).topo_dirty,
            final(self).nodes@ == old(self).nodes@,
            final(self).connections@ == old(self).connections@,
            final(self).next_id == old(self).next_id,
    {
        let (order, cyclic) = self.compute_topo_order();
        self.topo_order = order;
        self.cyclic_nodes = cyclic;
        self.topo_dirty = false;
    }

    /// The evaluation order of the graph and its trailing cyclic part
    /// (`evaluation_order_of`): every node once, each node of the leading part after
    /// all its dependencies, each node of the cyclic part with a dependency in the
    /// cyclic part, the cyclic part in increasing identifier order. The order is
    /// recomputed only after a topology change.
    pub fn evaluation_order(&mut self) -> (r: (Vec<NodeId>, Vec<NodeId>))
        requires
            old(self).wf(),
        ensures
            final(self).wf(),
            final(self).node_seq() == old(self).node_seq(),
            final(self).conn_seq() == old(self).conn_seq(),
            final(self).spec_next_id() == old(self).spec_next_id(),
            topo_valid(final(self).node_ids(), final(self).conn_seq(), r.0@, r.1@),
            (r.0@, r.1@) == evaluation_order_of(final(self).node_ids(), final(self).conn_seq()),
            (r.0@, r.1@) == final(self).cached_order(),
            final(self).node_seq().len() > 0 ==> final(self).order_fresh(),
            old(self).order_fresh() ==> final(self).cached_order() == old(self).cached_order(),
    {
        if self.topo_dirty || self.topo_order.len() == 0 {
            self.rebuild_topo_order();
        }
        let order = self.topo_order.clone();
        let cyclic = self.cyclic_nodes.clone();
        proof {
            assert(order@ =~= self.topo_order@);
            assert(cyclic@ =~= self.cyclic_nodes@);
        }
        (order, cyclic)
    }

    /// The nodes in the order one evaluation of the graph visits them: the
    /// evaluation order, then its cyclic part twice more, so that values can travel
    /// around short feedback loops.
    pub fn evaluation_steps(&mut self) -> (r: Vec<NodeId>)
        requires
            old(self).wf(),
        ensures
            final(self).wf(),
            final(self).node_seq() == old(self).node_seq(),
            final(self).conn_seq() == old(self).conn_seq(),
            final(self).spec_next_id() == old(self).spec_next_id(),
            topo_valid(final(self).node_ids(), final(self).conn_seq(), final(self).cached_order().0, final(self).cached_order().1),
            r@ == final(self).cached_order().0 + final(self).cached_order().1 + final(self).cached_order().1,
    {
        let (order, cyclic) = self.evaluation_order();
        let mut steps = order;
        let mut pass: usize = 0;
        while pass < 2
            invariant
                pass <= 2,
                steps@ == (if pass == 0 {
                    self.cached_order().0
                } else if pass == 1 {
                    self.cached_order().0 + self.cached_order().1
                } else {
                    self.cached_order().0 + self.cached_order().1 + self.cached_order().1
                }),
                cyclic@ == self.cached_order().1,
            decreases 2 - pass,
        {
            let ghost before = steps@;
            let mut k: usize = 0;
            while k < cyclic.len()
                invariant
                    k <= cyclic@.len(),
                    steps@ == before + cyclic@.take(k as int),
                decreases cyclic@.len() - k,
            {
                steps.push(cyclic[k]);
                proof {
                    assert(cyclic@.take(k + 1) == cyclic@.take(k as int).push(cyclic@[k as int]));
                }
                k += 1;
            }
            proof {
                assert(cyclic@.take(cyclic@.len() as int) == cyclic@);
            }
            pass += 1;
        }
        steps
    }

    /// For each of the first `num_inputs` input ports of `node_id`, the output port
    /// wired to it, if any.
    pub fn input_sources(&self, node_id: NodeId, num_inputs: usize) -> (r: Vec<Option<(NodeId, usize)>>)
        requires
            self.wf(),
        ensures
            r@.len() == num_inputs,
            forall|p: int| 0 <= p < num_inputs ==> #[trigger] r@[p] == source_of(
                self.conn_seq(),
                node_id,
                p as usize,
            ),
    {
        let ghost conns = self.connections@;
        let mut r: Vec<Option<(NodeId, usize)>> = Vec::new();
        let mut p: usize = 0;
        while p < num_inputs
            invariant
                p <= num_inputs,
                r@.len() == p,
                forall|q: int| 0 <= q < p ==> #[trigger] r@[q] == None::<(NodeId, usize)>,
            decreases num_inputs - p,
        {
            r.push(None);
            p += 1;
        }
        let mut k: usize = 0;
        while k < self.connections.len()
            invariant
                conns == self.connections@,
                inputs_unique(conns),
                k <= conns.len(),
                r@.len() == num_inputs,
                forall|q: int| 0 <= q < num_inputs ==> #[trigger] r@[q] == (if exists|j: int|
                    0 <= j < k && ends_at(#[trigger] conns[j], node_id, q as usize) {
                    source_of(conns, node_id, q as usize)
                } else {
                    None
                }),
            decreases conns.len() - k,
        {
            let c = &self.connections[k];
            if c.to_node == node_id && c.to_port < num_inputs {
                let ghost before = r@;
                r.set(c.to_port, Some((c.from_node, c.from_port)));
                proof {
                    assert(ends_at(conns[k as int], node_id, c.to_port));
                    lemma_source_of_unique(conns, node_id, c.to_port, k as int);
                    assert forall|q: int| 0 <= q < num_inputs implies #[trigger] r@[q] == (if exists|j: int|
                        0 <= j < k + 1 && ends_at(#[trigger] conns[j], node_id, q as usize) {
                        source_of(conns, node_id, q as usize)
                    } else {
                        None
                    }) by {
                        if q != c.to_port as int {
                            assert(r@[q] == before[q]);
                            if exists|j: int| 0 <= j < k + 1 && ends_at(#[trigger] conns[j], node_id, q as usize) {
                                let j = choose|j: int| 0 <= j < k + 1 && ends_at(#[trigger] conns[j], node_id, q as usize);
                                assert(j != k);
                            }
                        } else {
                            assert(ends_at(conns[k as int], node_id, q as usize));
                        }
                    }
                }
            } else {
                proof {
                    assert forall|q: int| 0 <= q < num_inputs implies #[trigger] r@[q] == (if exists|j: int|
                        0 <= j < k + 1 && ends_at(#[trigger] conns[j], node_id, q as usize) {
                        source_of(conns, node_id, q as usize)
                    } else {
                        None
                    }) by {
                        if exists|j: int| 0 <= j < k + 1 && ends_at(#[trigger] conns[j], node_id, q as usize) {
                            let j = choose|j: int| 0 <= j < k + 1 && ends_at(#[trigger] conns[j], node_id, q as usize);
                            assert(j != k);
                        }
                    }
                }
            }
            k += 1;
        }
        proof {
            assert forall|q: int| 0 <= q < num_inputs implies #[trigger] r@[q] == source_of(conns, node_id, q as usize) by {
                if !(exists|j: int| 0 <= j < conns.len() && ends_at(#[trigger] conns[j], node_id, q as usize)) {
                }
            }
        }
        r
    }
}


impl<N> Graph<N> {
    /// Mutable access to the application data of node `id`, if it exists.
    pub fn node_mut(&mut self, id: NodeId) -> (r: Option<&mut N>)
        requires
            old(self).wf(),
        ensures
            final(self).wf(),
            final(self).conn_seq() == old(self).conn_seq(),
            final(self).spec_next_id() == old(self).spec_next_id(),
            match r {
                Some(n) => exists|i: int|
                    0 <= i < old(self).node_seq().len() && old(self).node_seq()[i].id == id
                        && *n == old(self).node_seq()[i].node_type
                        && final(self).node_seq() == old(self).node_seq().update(
                        i,
                        Node { id, node_type: *final(n) },
                    ),
                None => !old(self).has_node(id) && final(self).node_seq() == old(self).node_seq(),
            },
    {
        match self.find_node(id) {
            Some(i) => {
                let ghost before = self.nodes@;
                let r = &mut self.nodes[i].node_type;
                proof {
                    lemma_update_keeps_ids(before, i as int, Node { id, node_type: *final(r) });
                    assert(old(self).node_seq()[i as int] == before[i as int]);
                    assert(before[i as int].id == id);
                    assert(*r == before[i as int].node_type);
                }
                Some(r)
            },
            None => None,
        }
    }
}

/// Replacing the data of a node keeps the identifier sequence.
proof fn lemma_update_keeps_ids<N>(nodes: Seq<Node<N>>, i: int, x: Node<N>)
    requires
        0 <= i < nodes.len(),
        x.id == nodes[i].id,
    ensures
        ids_of(nodes.update(i, x)) == ids_of(nodes),
{
    assert(ids_of(nodes.update(i, x)) =~= ids_of(nodes));
}


/// Dropping the wires that end at input `tp` of `to` empties that input and leaves
/// every other input fed as before.
proof fn lemma_source_after_unwire(conns: Seq<Connection>, k: Seq<Connection>, to: NodeId, tp: usize, n: NodeId, p: usize)
    requires
        inputs_unique(conns),
        inputs_unique(k),
        k == kept(conns, WireFilter::EndingAt(to, tp)),
    ensures
        (n == to && p == tp) ==> source_of(k, n, p) == None::<(NodeId, usize)>,
        !(n == to && p == tp) ==> source_of(k, n, p) == source_of(conns, n, p),
{
    let f = WireFilter::EndingAt(to, tp);
    if n == to && p == tp {
        if exists|m: int| 0 <= m < k.len() && ends_at(#[trigger] k[m], n, p) {
            let m = choose|m: int| 0 <= m < k.len() && ends_at(#[trigger] k[m], n, p);
            conns.lemma_filter_pred(keeps(f), m);
        }
    } else {
        if exists|j: int| 0 <= j < conns.len() && ends_at(#[trigger] conns[j], n, p) {
            let j = choose|j: int| 0 <= j < conns.len() && ends_at(#[trigger] conns[j], n, p);
            conns.lemma_filter_contains(keeps(f), j);
            let m = choose|m: int| 0 <= m < k.len() && k[m] == conns[j];
            lemma_source_of_unique(conns, n, p, j);
            lemma_source_of_unique(k, n, p, m);
        } else {
            if exists|m: int| 0 <= m < k.len() && ends_at(#[trigger] k[m], n, p) {
                let m = choose|m: int| 0 <= m < k.len() && ends_at(#[trigger] k[m], n, p);
                assert(k.contains(k[m]));
                conns.lemma_filter_contains_rev(keeps(f), k[m]);
                let j = choose|j: int| 0 <= j < conns.len() && conns[j] == k[m];
                assert(ends_at(conns[j], n, p));
            }
        }
    }
}

/// Appending a wire that does not end at input `p` of `n` leaves that input's source.
proof fn lemma_source_after_push(k: Seq<Connection>, c: Connection, n: NodeId, p: usize)
    requires
        inputs_unique(k.push(c)),
        !ends_at(c, n, p),
    ensures
        source_of(k.push(c), n, p) == source_of(k, n, p),
{
    let s = k.push(c);
    assert(inputs_unique(k)) by {
        assert forall|a: int, b: int| 0 <= a < b < k.len() implies !(#[trigger] k[a].to_node
            == #[trigger] k[b].to_node && k[a].to_port == k[b].to_port) by {
            assert(s[a] == k[a] && s[b] == k[b]);
        }
    }
    if exists|m: int| 0 <= m < k.len() && ends_at(#[trigger] k[m], n, p) {
        let m = choose|m: int| 0 <= m < k.len() && ends_at(#[trigger] k[m], n, p);
        assert(s[m] == k[m]);
        lemma_source_of_unique(k, n, p, m);
        lemma_source_of_unique(s, n, p, m);
    } else {
        if exists|m: int| 0 <= m < s.len() && ends_at(#[trigger] s[m], n, p) {
            let m = choose|m: int| 0 <= m < s.len() && ends_at(#[trigger] s[m], n, p);
            assert(m < k.len());
            assert(s[m] == k[m]);
        }
    }
}

/// A cycle of dependency edges: `c[i] -> c[i + 1]` for each `i`, and the last
/// node depends back on the first.
pub open spec fn is_cycle(ids: Seq<NodeId>, conns: Seq<Connection>, c: Seq<NodeId>) -> bool {
    &&& c.len() > 0
    &&& forall|i: int| 0 <= i < c.len() ==> #[trigger] is_edge(ids, conns, c[i], c[(i + 1) % (c.len() as int)])
}

/// No node of the leading (acyclic) part of a valid evaluation order lies on a
/// cycle: every node of every cycle is in the cyclic part.
pub proof fn law_cycles_in_cyclic_part(
    ids: Seq<NodeId>,
    conns: Seq<Connection>,
    order: Seq<NodeId>,
    cyclic: Seq<NodeId>,
    c: Seq<NodeId>,
)
    requires
        topo_valid(ids, conns, order, cyclic),
        is_cycle(ids, conns, c),
    ensures
        forall|j: int| 0 <= j < c.len() ==> cyclic.contains(#[trigger] c[j]),
{
    let k = order.len() - cyclic.len();
    lemma_cycle_not_before(ids, conns, order, cyclic, c, k);
    assert forall|j: int| 0 <= j < c.len() implies cyclic.contains(#[trigger] c[j]) by {
        let x = c[j];
        assert(is_edge(ids, conns, c[j], c[(j + 1) % (c.len() as int)]));
        assert(ids.contains(x));
        assert(order.contains(x));
        let pos = choose|pos: int| 0 <= pos < order.len() && order[pos] == x;
        assert(pos >= k);
        assert(order.subrange(k, order.len() as int)[pos - k] == x);
    }
}

/// No node of the cycle `c` occurs in the first `t` positions of the order,
/// for `t` up to the end of its acyclic part.
proof fn lemma_cycle_not_before(
    ids: Seq<NodeId>,
    conns: Seq<Connection>,
    order: Seq<NodeId>,
    cyclic: Seq<NodeId>,
    c: Seq<NodeId>,
    t: int,
)
    requires
        topo_valid(ids, conns, order, cyclic),
        is_cycle(ids, conns, c),
        0 <= t <= order.len() - cyclic.len(),
    ensures
        forall|j: int, pos: int| 0 <= j < c.len() && 0 <= pos < t ==> #[trigger] order[pos] != #[trigger] c[j],
    decreases t,
{
    if t > 0 {
        lemma_cycle_not_before(ids, conns, order, cyclic, c, t - 1);
        assert forall|j: int, pos: int| 0 <= j < c.len() && 0 <= pos < t implies #[trigger] order[pos] != #[trigger] c[j] by {
            if pos == t - 1 && order[pos] == c[j] {
                let len = c.len() as int;
                let i = if j == 0 { len - 1 } else { j - 1 };
                assert((i + 1) % len == j) by {
                    if j == 0 {
                        assert((len - 1 + 1) % len == 0) by (nonlinear_arith)
                            requires len > 0;
                    } else {
                        assert((j - 1 + 1) % len == j) by (nonlinear_arith)
                            requires 0 < j < len;
                    }
                }
                assert(is_edge(ids, conns, c[i], c[(i + 1) % len]));
                assert(deps_before(ids, conns, order, pos));
                assert(is_edge(ids, conns, c[i], order[pos]));
                let q = choose|q: int| 0 <= q < pos && q < order.len() && #[trigger] order[q] == c[i];
            }
        }
    }
}

/// Filtering a wire list in which no two wires end at the same input keeps that
/// property.
proof fn lemma_kept_unique(conns: Seq<Connection>, f: WireFilter)
    requires
        inputs_unique(conns),
    ensures
        inputs_unique(kept(conns, f)),
    decreases conns.len(),
{
    reveal_with_fuel(Seq::<_>::filter, 1);
    if conns.len() > 0 {
        let pre = conns.drop_last();
        assert(inputs_unique(pre));
        lemma_kept_unique(pre, f);
        let k = kept(conns, f);
        let kp = kept(pre, f);
        if keeps(f)(conns.last()) {
            assert(k == kp.push(conns.last()));
            assert forall|a: int, b: int| 0 <= a < b < k.len() implies !(#[trigger] k[a].to_node == #[trigger] k[b].to_node
                && k[a].to_port == k[b].to_port) by {
                if b == k.len() - 1 {
                    assert(kp.contains(kp[a]));
                    pre.lemma_filter_contains_rev(keeps(f), kp[a]);
                    let j = choose|j: int| 0 <= j < pre.len() && pre[j] == kp[a];
                    assert(conns[j] == kp[a]);
                    assert(j < conns.len() - 1);
                } else {
                    assert(k[a] == kp[a] && k[b] == kp[b]);
                }
            }
        } else {
            assert(k == kp);
        }
    }
}

/// Disconnecting the wire that feeds an input leaves that input unfed, and
/// every other input keeps its source.
pub proof fn law_disconnect_unfeeds(conns: Seq<Connection>, from: NodeId, fp: usize, to: NodeId, tp: usize)
    requires
        inputs_unique(conns),
        source_of(conns, to, tp) == Some((from, fp)),
    ensures
        source_of(kept(conns, WireFilter::Joining(from, fp, to, tp)), to, tp) == None::<(NodeId, usize)>,
        forall|n: NodeId, p: usize|
            !(n == to && p == tp) ==> #[trigger] source_of(kept(conns, WireFilter::Joining(from, fp, to, tp)), n, p)
                == source_of(conns, n, p),
{
    let f = WireFilter::Joining(from, fp, to, tp);
    let k = kept(conns, f);
    lemma_kept_unique(conns, f);
    let j0 = choose|j: int| 0 <= j < conns.len() && ends_at(#[trigger] conns[j], to, tp);
    lemma_source_of_unique(conns, to, tp, j0);
    if exists|m: int| 0 <= m < k.len() && ends_at(#[trigger] k[m], to, tp) {
        let m = choose|m: int| 0 <= m < k.len() && ends_at(#[trigger] k[m], to, tp);
        conns.lemma_filter_pred(keeps(f), m);
        assert(k.contains(k[m]));
        conns.lemma_filter_contains_rev(keeps(f), k[m]);
        let j = choose|j: int| 0 <= j < conns.len() && conns[j] == k[m];
        if j != j0 {
            if j < j0 {
                assert(!(conns[j].to_node == conns[j0].to_node && conns[j].to_port == conns[j0].to_port));
            } else {
                assert(!(conns[j0].to_node == conns[j].to_node && conns[j0].to_port == conns[j].to_port));
            }
        }
    }
    assert forall|n: NodeId, p: usize| !(n == to && p == tp) implies #[trigger] source_of(k, n, p) == source_of(
        conns,
        n,
        p,
    ) by {
        if exists|j: int| 0 <= j < conns.len() && ends_at(#[trigger] conns[j], n, p) {
            let j = choose|j: int| 0 <= j < conns.len() && ends_at(#[trigger] conns[j], n, p);
            conns.lemma_filter_contains(keeps(f), j);
            let m = choose|m: int| 0 <= m < k.len() && k[m] == conns[j];
            lemma_source_of_unique(conns, n, p, j);
            lemma_source_of_unique(k, n, p, m);
        } else {
            if exists|m: int| 0 <= m < k.len() && ends_at(#[trigger] k[m], n, p) {
                let m = choose|m: int| 0 <= m < k.len() && ends_at(#[trigger] k[m], n, p);
                assert(k.contains(k[m]));
                conns.lemma_filter_contains_rev(keeps(f), k[m]);
                let j = choose|j: int| 0 <= j < conns.len() && conns[j] == k[m];
                assert(ends_at(conns[j], n, p));
            }
        }
    }
}

/// In every graph the operations build, an input port has at most one wire, and
/// node identifiers increase along the node list and stay below the identifier
/// the next node will receive, so an added node never reuses an identifier.
pub proof fn law_graph_invariants<N>(g: Graph<N>)
    requires
        g.wf(),
    ensures
        inputs_unique(g.conn_seq()),
        strictly_sorted(g.node_ids()),
        forall|i: int| 0 <= i < g.node_seq().len() ==> (#[trigger] g.node_seq()[i]).id < g.spec_next_id(),
        !g.has_node(g.spec_next_id()),
        forall|i: int, j: int|
            0 <= i < j < g.node_seq().len() ==> #[trigger] g.node_seq()[i].id < #[trigger] g.node_seq()[j].id,
        forall|i: int| 0 <= i < g.node_seq().len() ==> g.has_node(#[trigger] g.node_seq()[i].id),
{
    assert forall|i: int| 0 <= i < g.node_seq().len() implies g.has_node(#[trigger] g.node_seq()[i].id) by {
        assert(g.node_ids()[i] == g.node_seq()[i].id);
    }
    assert forall|i: int, j: int| 0 <= i < j < g.node_seq().len() implies #[trigger] g.node_seq()[i].id
        < #[trigger] g.node_seq()[j].id by {
        assert(g.node_ids()[i] == g.node_seq()[i].id && g.node_ids()[j] == g.node_seq()[j].id);
    }
    if g.has_node(g.spec_next_id()) {
        let j = choose|j: int| 0 <= j < g.node_ids().len() && g.node_ids()[j] == g.spec_next_id();
        assert(g.nodes@[j].id < g.next_id);
    }
}

/// Whether node `x` lies on a cycle or downstream of one: a walk along wires ends
/// at `x` and starts by going around a cycle (its first node comes back at
/// position `m`).
pub open spec fn fed_by_cycle(ids: Seq<NodeId>, conns: Seq<Connection>, x: NodeId) -> bool {
    exists|p: Seq<NodeId>, m: int|
        #![trigger p[m]]
        0 < m < p.len() && p[0] == p[m] && p.last() == x && forall|k: int|
            0 <= k < p.len() - 1 ==> #[trigger] is_edge(ids, conns, p[k], p[k + 1])
}

/// `x`, then a dependency of it in the cyclic part, then one of that, `n` steps
/// back.
spec fn back_chain(ids: Seq<NodeId>, conns: Seq<Connection>, cyclic: Seq<NodeId>, x: NodeId, n: nat) -> Seq<NodeId>
    decreases n,
{
    if n == 0 {
        seq![x]
    } else {
        let w = back_chain(ids, conns, cyclic, x, (n - 1) as nat);
        w.push(choose|p: NodeId| is_edge(ids, conns, p, w.last()) && cyclic.contains(p))
    }
}

/// Every node of `cyclic` has a dependency in `cyclic`.
spec fn cyclic_fed(ids: Seq<NodeId>, conns: Seq<Connection>, cyclic: Seq<NodeId>) -> bool {
    forall|v: NodeId| #[trigger] cyclic.contains(v) ==> exists|p: NodeId|
        #[trigger] is_edge(ids, conns, p, v) && cyclic.contains(p)
}

proof fn lemma_back_chain(ids: Seq<NodeId>, conns: Seq<Connection>, cyclic: Seq<NodeId>, x: NodeId, n: nat)
    requires
        cyclic_fed(ids, conns, cyclic),
        cyclic.contains(x),
    ensures
        ({
            let w = back_chain(ids, conns, cyclic, x, n);
            &&& w.len() == n + 1
            &&& w[0] == x
            &&& forall|i: int| 0 <= i < w.len() ==> cyclic.contains(#[trigger] w[i])
            &&& forall|i: int| 0 <= i < n ==> #[trigger] is_edge(ids, conns, w[i + 1], w[i])
        }),
    decreases n,
{
    if n > 0 {
        lemma_back_chain(ids, conns, cyclic, x, (n - 1) as nat);
        let w = back_chain(ids, conns, cyclic, x, (n - 1) as nat);
        let v = w.last();
        assert(cyclic.contains(w[w.len() - 1]));
        assert(exists|p: NodeId| #[trigger] is_edge(ids, conns, p, v) && cyclic.contains(p));
    }
}

/// Every node of the cyclic part of a valid evaluation order lies on a cycle or
/// downstream of one (with `law_cycles_in_cyclic_part`: the cyclic part holds
/// every node of every cycle).
pub proof fn law_cyclic_part_fed_by_cycles(
    ids: Seq<NodeId>,
    conns: Seq<Connection>,
    order: Seq<NodeId>,
    cyclic: Seq<NodeId>,
    x: NodeId,
)
    requires
        topo_valid(ids, conns, order, cyclic),
        cyclic.contains(x),
    ensures
        fed_by_cycle(ids, conns, x),
{
    assert(cyclic_fed(ids, conns, cyclic));
    lemma_fed_by_cycle(ids, conns, cyclic, x);
}

/// A sequence longer than `pool` whose entries all occur in `pool` repeats one.
proof fn lemma_pigeonhole(w: Seq<NodeId>, pool: Seq<NodeId>)
    requires
        w.len() > pool.len(),
        forall|i: int| 0 <= i < w.len() ==> pool.contains(#[trigger] w[i]),
    ensures
        exists|i: int, j: int| 0 <= i < j < w.len() && #[trigger] w[i] == #[trigger] w[j],
{
    if w.no_duplicates() {
        w.unique_seq_to_set();
        pool.lemma_cardinality_of_set();
        assert(w.to_set().subset_of(pool.to_set())) by {
            assert forall|v: NodeId| w.to_set().contains(v) implies pool.to_set().contains(v) by {
                let i = choose|i: int| 0 <= i < w.len() && w[i] == v;
                assert(pool.contains(w[i]));
            }
        }
        vstd::set_lib::lemma_len_subset(w.to_set(), pool.to_set());
        assert(false);
    }
}

/// A node of a set in which every node has a dependency is fed by a cycle.
proof fn lemma_fed_by_cycle(ids: Seq<NodeId>, conns: Seq<Connection>, cyclic: Seq<NodeId>, x: NodeId)
    requires
        cyclic_fed(ids, conns, cyclic),
        cyclic.contains(x),
    ensures
        fed_by_cycle(ids, conns, x),
{
    let n = cyclic.len();
    lemma_back_chain(ids, conns, cyclic, x, n);
    let w = back_chain(ids, conns, cyclic, x, n);
    lemma_pigeonhole(w, cyclic);
    let (a, b) = choose|i: int, j: int| 0 <= i < j < w.len() && #[trigger] w[i] == #[trigger] w[j];
    lemma_walk_from_repeat(ids, conns, w, a, b);
}

/// Reading a dependency chain with a repeat backwards gives a walk that starts
/// around a cycle and ends at the chain's first node.
proof fn lemma_walk_from_repeat(ids: Seq<NodeId>, conns: Seq<Connection>, w: Seq<NodeId>, a: int, b: int)
    requires
        0 <= a < b < w.len(),
        w[a] == w[b],
        forall|i: int| 0 <= i < w.len() - 1 ==> #[trigger] is_edge(ids, conns, w[i + 1], w[i]),
    ensures
        fed_by_cycle(ids, conns, w[0]),
{
    let p = Seq::new((b + 1) as nat, |k: int| w[b - k]);
    assert(p[0] == p[b - a]);
    assert(p.last() == w[0]);
    assert forall|k: int| 0 <= k < p.len() - 1 implies #[trigger] is_edge(ids, conns, p[k], p[k + 1]) by {
        let m = b - k - 1;
        assert(0 <= m < w.len() - 1);
        assert(is_edge(ids, conns, w[m + 1], w[m]));
        assert(p[k] == w[m + 1] && p[k + 1] == w[m]);
    }
}

} // verus!
