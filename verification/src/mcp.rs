use crate::eval::chars_of;
use crate::jsonpath::{json_document, member_named, member_position, parse_json, take_member, JsonNode};
use crate::graph::{source_of, Graph, Node, NodeId};
use crate::node_type::NodeType;
use crate::text::{concat_text, decimal, labelled, str_eq};
use vstd::prelude::*;

verus! {

/// A wire of a workflow, given by positions in the workflow's node list.
#[derive(Clone, Copy, Debug)]
pub struct WorkflowConn {
    pub from_index: usize,
    pub from_port: usize,
    pub to_index: usize,
    pub to_port: usize,
}

/// Why an editing command was refused.
#[derive(Clone, Copy, Debug, PartialEq, Eq, Structural)]
pub enum CommandError {
    /// The node to act on does not exist.
    NodeNotFound(NodeId),
    /// The node a wire would start at does not exist.
    SourceNotFound(NodeId),
    /// The node a wire would end at does not exist.
    TargetNotFound(NodeId),
}

/// The text reported for a refused command.
pub open spec fn error_text(e: CommandError) -> Seq<char> {
    match e {
        CommandError::NodeNotFound(id) => "Node "@ + decimal(id as nat) + " not found"@,
        CommandError::SourceNotFound(id) => "Source node "@ + decimal(id as nat) + " not found"@,
        CommandError::TargetNotFound(id) => "Target node "@ + decimal(id as nat) + " not found"@,
    }
}

impl CommandError {
    /// The text reported to the client.
    pub fn message(&self) -> (r: String)
        ensures
            r@ == error_text(*self),
    {
        let head = match *self {
            CommandError::NodeNotFound(id) => labelled("Node ", id),
            CommandError::SourceNotFound(id) => labelled("Source node ", id),
            CommandError::TargetNotFound(id) => labelled("Target node ", id),
        };
        concat_text(head.as_str(), " not found")
    }
}

/// Whether a workflow wire names two nodes that exist among `created`.
pub open spec fn conn_in_range(c: WorkflowConn, created: Seq<NodeId>) -> bool {
    c.from_index < created.len() && c.to_index < created.len()
}

/// The output port wired to input `port` of `node` after laying the workflow
/// wires `wf` in order over the wires `conns`: the last in-range workflow wire
/// that ends there decides; wires out of range are skipped.
pub open spec fn workflow_source(
    conns: Seq<crate::graph::Connection>,
    created: Seq<NodeId>,
    wf: Seq<WorkflowConn>,
    node: NodeId,
    port: usize,
) -> Option<(NodeId, usize)>
    decreases wf.len(),
{
    if wf.len() == 0 {
        source_of(conns, node, port)
    } else {
        let c = wf.last();
        if conn_in_range(c, created) && created[c.to_index as int] == node && c.to_port == port {
            Some((created[c.from_index as int], c.from_port))
        } else {
            workflow_source(conns, created, wf.drop_last(), node, port)
        }
    }
}

impl<N> Graph<N> {
    /// Removes node `id` and its wires, or reports that it does not exist.
    pub fn delete_node(&mut self, id: NodeId) -> (r: Result<(), CommandError>)
        requires
            old(self).wf(),
        ensures
            final(self).wf(),
            r == (if old(self).has_node(id) {
                Ok::<(), CommandError>(())
            } else {
                Err(CommandError::NodeNotFound(id))
            }),
            r is Err ==> *final(self) == *old(self),
            r is Ok ==> !final(self).has_node(id) && final(self).spec_next_id() == old(self).spec_next_id()
                && exists|i: int|
                0 <= i < old(self).node_seq().len() && old(self).node_seq()[i].id == id
                    && final(self).node_seq() == old(self).node_seq().remove(i),
            r is Ok ==> forall|k: int|
                0 <= k < final(self).conn_seq().len() ==> !crate::graph::touches(
                    #[trigger] final(self).conn_seq()[k],
                    id,
                ),
            r is Ok ==> final(self).conn_seq() == crate::graph::kept(
                old(self).conn_seq(),
                crate::graph::WireFilter::Touching(id),
            ),
    {
        if self.contains_node(id) {
            self.remove_node(id);
            Ok(())
        } else {
            Err(CommandError::NodeNotFound(id))
        }
    }

    /// Wires output `from_port` of `from_node` to input `to_port` of `to_node`
    /// (replacing the wire that ended at that input), once both nodes are known
    /// to exist; the source is checked first.
    pub fn connect_nodes(&mut self, from_node: NodeId, from_port: usize, to_node: NodeId, to_port: usize) -> (r:
        Result<(), CommandError>)
        requires
            old(self).wf(),
        ensures
            final(self).wf(),
            r == (if !old(self).has_node(from_node) {
                Err(CommandError::SourceNotFound(from_node))
            } else if !old(self).has_node(to_node) {
                Err(CommandError::TargetNotFound(to_node))
            } else {
                Ok::<(), CommandError>(())
            }),
            r is Err ==> *final(self) == *old(self),
            r is Ok ==> final(self).node_seq() == old(self).node_seq() && final(self).spec_next_id()
                == old(self).spec_next_id(),
            r is Ok ==> source_of(final(self).conn_seq(), to_node, to_port) == Some((from_node, from_port)),
            r is Ok ==> forall|n: NodeId, p: usize|
                !(n == to_node && p == to_port) ==> #[trigger] source_of(final(self).conn_seq(), n, p)
                    == source_of(old(self).conn_seq(), n, p),
    {
        if !self.contains_node(from_node) {
            return Err(CommandError::SourceNotFound(from_node));
        }
        if !self.contains_node(to_node) {
            return Err(CommandError::TargetNotFound(to_node));
        }
        self.add_connection(from_node, from_port, to_node, to_port);
        Ok(())
    }

    /// Creates a workflow as one operation: when every node is known (`Some`),
    /// adds them and lays the wires as `add_workflow` does and returns the new
    /// identifiers; otherwise changes nothing and returns the position of the
    /// first unknown node.
    pub fn create_workflow(&mut self, nodes: Vec<Option<N>>, conns: &Vec<WorkflowConn>) -> (r: Result<Vec<NodeId>, usize>)
        requires
            old(self).wf(),
            old(self).spec_next_id() + nodes@.len() < u64::MAX,
        ensures
            final(self).wf(),
            match r {
                Err(k) => {
                    &&& k < nodes@.len()
                    &&& nodes@[k as int] is None
                    &&& forall|j: int| 0 <= j < k ==> #[trigger] nodes@[j] is Some
                    &&& *final(self) == *old(self)
                },
                Ok(created) => {
                    let all = nodes@.map_values(|o: Option<N>| o->Some_0);
                    &&& forall|j: int| 0 <= j < nodes@.len() ==> #[trigger] nodes@[j] is Some
                    &&& created@.len() == nodes@.len()
                    &&& forall|i: int| 0 <= i < created@.len() ==> #[trigger] created@[i] == old(self).spec_next_id() + i
                    &&& final(self).spec_next_id() == old(self).spec_next_id() + nodes@.len()
                    &&& final(self).node_seq() == old(self).node_seq() + Seq::new(
                        nodes@.len(),
                        |i: int| Node { id: (old(self).spec_next_id() + i) as NodeId, node_type: all[i] },
                    )
                    &&& forall|n: NodeId, p: usize| #[trigger] source_of(final(self).conn_seq(), n, p) == workflow_source(
                        old(self).conn_seq(),
                        created@,
                        conns@,
                        n,
                        p,
                    )
                },
            },
    {
        let mut k: usize = 0;
        while k < nodes.len()
            invariant
                *self == *old(self),
                self.wf(),
                k <= nodes@.len(),
                forall|j: int| 0 <= j < k ==> #[trigger] nodes@[j] is Some,
            decreases nodes@.len() - k,
        {
            if nodes[k].is_none() {
                return Err(k);
            }
            k += 1;
        }
        let ghost orig = nodes@;
        let ghost all = orig.map_values(|o: Option<N>| o->Some_0);
        let mut rest = nodes;
        let mut known: Vec<N> = Vec::new();
        while rest.len() > 0
            invariant
                *self == *old(self),
                all == orig.map_values(|o: Option<N>| o->Some_0),
                forall|j: int| 0 <= j < orig.len() ==> #[trigger] orig[j] is Some,
                known@.len() + rest@.len() == orig.len(),
                rest@ == orig.subrange(known@.len() as int, orig.len() as int),
                known@ == all.take(known@.len() as int),
            decreases rest@.len(),
        {
            let ghost before = known@;
            proof {
                assert(rest@[0] == orig[before.len() as int]);
            }
            let x = rest.remove(0);
            proof {
                assert(x == orig[before.len() as int]);
                assert(all[before.len() as int] == orig[before.len() as int]->Some_0);
            }
            match x {
                Some(v) => {
                    proof {
                        assert(v == all[before.len() as int]);
                        assert(all.take(before.len() + 1 as int) == all.take(before.len() as int).push(v));
                    }
                    known.push(v);
                },
                None => {
                    proof {
                        assert(orig[before.len() as int] is Some);
                    }
                },
            }
            proof {
                assert(known@ =~= all.take(known@.len() as int));
                assert(rest@ =~= orig.subrange(known@.len() as int, orig.len() as int));
            }
        }
        proof {
            assert(known@ =~= all);
        }
        Ok(self.add_workflow(known, conns))
    }

    /// Adds the nodes `nodes` in order, each with the next identifier, then lays
    /// the wires `conns` between them in order, skipping every wire whose
    /// positions fall outside the node list. Returns the new identifiers.
    pub fn add_workflow(&mut self, nodes: Vec<N>, conns: &Vec<WorkflowConn>) -> (created: Vec<NodeId>)
        requires
            old(self).wf(),
            old(self).spec_next_id() + nodes@.len() < u64::MAX,
        ensures
            final(self).wf(),
            created@.len() == nodes@.len(),
            forall|i: int| 0 <= i < created@.len() ==> #[trigger] created@[i] == old(self).spec_next_id() + i,
            final(self).spec_next_id() == old(self).spec_next_id() + nodes@.len(),
            final(self).node_seq() == old(self).node_seq() + Seq::new(
                nodes@.len(),
                |i: int| Node { id: (old(self).spec_next_id() + i) as NodeId, node_type: nodes@[i] },
            ),
            forall|n: NodeId, p: usize| #[trigger] source_of(final(self).conn_seq(), n, p) == workflow_source(
                old(self).conn_seq(),
                created@,
                conns@,
                n,
                p,
            ),
    {
        let ghost first = old(self).spec_next_id();
        let ghost all = nodes@;
        let ghost start_nodes = old(self).node_seq();
        let ghost start_conns = old(self).conn_seq();
        let mut rest = nodes;
        let mut created: Vec<NodeId> = Vec::new();
        while rest.len() > 0
            invariant
                self.wf(),
                created@.len() + rest@.len() == all.len(),
                rest@ == all.subrange(created@.len() as int, all.len() as int),
                self.spec_next_id() == first + created@.len(),
                first + all.len() < u64::MAX,
                forall|i: int| 0 <= i < created@.len() ==> #[trigger] created@[i] == first + i,
                self.node_seq() == start_nodes + Seq::new(
                    created@.len() as nat,
                    |i: int| Node { id: (first + i) as NodeId, node_type: all[i] },
                ),
                self.conn_seq() == start_conns,
            decreases rest@.len(),
        {
            let ghost before = self.node_seq();
            let ghost k = created@.len();
            let nt = rest.remove(0);
            let id = self.add_node(nt);
            created.push(id);
            proof {
                assert(nt == all[k as int]);
                assert(rest@ == all.subrange(created@.len() as int, all.len() as int));
                assert(self.node_seq() =~= start_nodes + Seq::new(
                    created@.len() as nat,
                    |i: int| Node { id: (first + i) as NodeId, node_type: all[i] },
                ));
            }
        }
        let ghost ids = created@;
        let mut j: usize = 0;
        while j < conns.len()
            invariant
                self.wf(),
                ids == created@,
                j <= conns@.len(),
                self.spec_next_id() == first + all.len(),
                self.node_seq() == start_nodes + Seq::new(
                    all.len(),
                    |i: int| Node { id: (first + i) as NodeId, node_type: all[i] },
                ),
                forall|n: NodeId, p: usize| #[trigger] source_of(self.conn_seq(), n, p) == workflow_source(
                    start_conns,
                    ids,
                    conns@.subrange(0, j as int),
                    n,
                    p,
                ),
            decreases conns@.len() - j,
        {
            let c = conns[j];
            proof {
                assert(conns@.subrange(0, j + 1).drop_last() == conns@.subrange(0, j as int));
                assert(conns@.subrange(0, j + 1).last() == c);
            }
            if c.from_index < created.len() && c.to_index < created.len() {
                let from_id = created[c.from_index];
                let to_id = created[c.to_index];
                self.add_connection(from_id, c.from_port, to_id, c.to_port);
            }
            j += 1;
        }
        proof {
            assert(conns@.subrange(0, conns@.len() as int) == conns@);
        }
        created
    }
}

/// The arguments of a tool call, as read from its JSON object: each field holds
/// the member of that name when it is present with the expected JSON type.
pub struct ToolArgs {
    /// "type", a string.
    pub node_type: Option<String>,
    /// "node_id", an unsigned integer.
    pub node_id: Option<u64>,
    /// Whether "properties" is present.
    pub has_properties: bool,
    /// "from_node", an unsigned integer.
    pub from_node: Option<u64>,
    /// "from_port", an unsigned integer.
    pub from_port: Option<u64>,
    /// "to_node", an unsigned integer.
    pub to_node: Option<u64>,
    /// "to_port", an unsigned integer.
    pub to_port: Option<u64>,
    /// "path", a string.
    pub path: Option<String>,
    /// The type names of "nodes", when it is a valid list of workflow nodes.
    pub workflow_nodes: Option<Vec<String>>,
    /// "connections", when it is a valid list of workflow wires.
    pub workflow_conns: Option<Vec<WorkflowConn>>,
}

/// A request of the automation client. Canvas positions and property objects
/// travel beside the command.
#[allow(inconsistent_fields)]
pub enum McpCommand {
    ListNodeTypes,
    CreateNode { node_type: String },
    DeleteNode { node_id: NodeId },
    ListNodes,
    GetNode { node_id: NodeId },
    UpdateNode { node_id: NodeId },
    Connect { from_node: NodeId, from_port: usize, to_node: NodeId, to_port: usize },
    Disconnect { from_node: NodeId, from_port: usize, to_node: NodeId, to_port: usize },
    ListConnections,
    GetPortValues { node_id: Option<NodeId> },
    SaveProject { path: String },
    LoadProject { path: String },
    GetGraph,
    CreateWorkflow { node_types: Vec<String>, connections: Vec<WorkflowConn> },
}

/// The outcome of a wire command's arguments: the four members are required in
/// the order from_node, from_port, to_node, to_port, and the first one missing is
/// reported.
pub open spec fn wire_args_outcome(args: ToolArgs, disconnect: bool, r: Result<McpCommand, String>) -> bool {
    if args.from_node is None {
        r is Err && r->Err_0@ == "Missing 'from_node'"@
    } else if args.from_port is None {
        r is Err && r->Err_0@ == "Missing 'from_port'"@
    } else if args.to_node is None {
        r is Err && r->Err_0@ == "Missing 'to_node'"@
    } else if args.to_port is None {
        r is Err && r->Err_0@ == "Missing 'to_port'"@
    } else {
        let from_node = args.from_node->Some_0;
        let from_port = args.from_port->Some_0 as usize;
        let to_node = args.to_node->Some_0;
        let to_port = args.to_port->Some_0 as usize;
        if disconnect {
            r == Ok::<McpCommand, String>(McpCommand::Disconnect { from_node, from_port, to_node, to_port })
        } else {
            r == Ok::<McpCommand, String>(McpCommand::Connect { from_node, from_port, to_node, to_port })
        }
    }
}

/// The outcome of a command that needs "node_id".
pub open spec fn node_id_outcome(args: ToolArgs, r: Result<McpCommand, String>, get: bool) -> bool {
    match args.node_id {
        None => r is Err && r->Err_0@ == "Missing 'node_id'"@,
        Some(node_id) => if get {
            r == Ok::<McpCommand, String>(McpCommand::GetNode { node_id })
        } else {
            r == Ok::<McpCommand, String>(McpCommand::DeleteNode { node_id })
        },
    }
}

/// The outcome of a command that needs "path".
pub open spec fn path_outcome(args: ToolArgs, r: Result<McpCommand, String>, load: bool) -> bool {
    match args.path {
        None => r is Err && r->Err_0@ == "Missing 'path'"@,
        Some(path) => if load {
            r == Ok::<McpCommand, String>(McpCommand::LoadProject { path })
        } else {
            r == Ok::<McpCommand, String>(McpCommand::SaveProject { path })
        },
    }
}

/// What `parse_tool_call` gives for the tool `name` with arguments `args`.
pub open spec fn tool_call_outcome(name: Seq<char>, args: ToolArgs, r: Result<McpCommand, String>) -> bool {
    if name == "list_node_types"@ {
        r == Ok::<McpCommand, String>(McpCommand::ListNodeTypes)
    } else if name == "create_node"@ {
        match args.node_type {
            None => r is Err && r->Err_0@ == "Missing 'type' parameter"@,
            Some(node_type) => r == Ok::<McpCommand, String>(McpCommand::CreateNode { node_type }),
        }
    } else if name == "delete_node"@ {
        node_id_outcome(args, r, false)
    } else if name == "list_nodes"@ {
        r == Ok::<McpCommand, String>(McpCommand::ListNodes)
    } else if name == "get_node"@ {
        node_id_outcome(args, r, true)
    } else if name == "update_node"@ {
        match args.node_id {
            None => r is Err && r->Err_0@ == "Missing 'node_id'"@,
            Some(node_id) => if !args.has_properties {
                r is Err && r->Err_0@ == "Missing 'properties'"@
            } else {
                r == Ok::<McpCommand, String>(McpCommand::UpdateNode { node_id })
            },
        }
    } else if name == "connect"@ {
        wire_args_outcome(args, false, r)
    } else if name == "disconnect"@ {
        wire_args_outcome(args, true, r)
    } else if name == "list_connections"@ {
        r == Ok::<McpCommand, String>(McpCommand::ListConnections)
    } else if name == "get_port_values"@ {
        r == Ok::<McpCommand, String>(McpCommand::GetPortValues { node_id: args.node_id })
    } else if name == "save_project"@ {
        path_outcome(args, r, false)
    } else if name == "load_project"@ {
        path_outcome(args, r, true)
    } else if name == "create_workflow"@ {
        match args.workflow_nodes {
            None => r is Err && r->Err_0@ == "Missing or invalid 'nodes' array"@,
            Some(node_types) => match r {
                Ok(McpCommand::CreateWorkflow { node_types: t, connections: c }) => t == node_types && c@ == (
                match args.workflow_conns {
                    Some(v) => v@,
                    None => Seq::<WorkflowConn>::empty(),
                }),
                _ => false,
            },
        }
    } else {
        r is Err && r->Err_0@ == "Unknown tool: "@ + name
    }
}

/// Reads the four members of a wire command, the first one missing reported.
fn parse_wire_args(args: ToolArgs, disconnect: bool) -> (r: Result<McpCommand, String>)
    ensures
        wire_args_outcome(args, disconnect, r),
{
    let from_node = match args.from_node {
        None => return Err("Missing 'from_node'".to_owned()),
        Some(v) => v,
    };
    let from_port = match args.from_port {
        None => return Err("Missing 'from_port'".to_owned()),
        Some(v) => v as usize,
    };
    let to_node = match args.to_node {
        None => return Err("Missing 'to_node'".to_owned()),
        Some(v) => v,
    };
    let to_port = match args.to_port {
        None => return Err("Missing 'to_port'".to_owned()),
        Some(v) => v as usize,
    };
    if disconnect {
        Ok(McpCommand::Disconnect { from_node, from_port, to_node, to_port })
    } else {
        Ok(McpCommand::Connect { from_node, from_port, to_node, to_port })
    }
}

/// Turns a tool call of the automation protocol into a command, or into the
/// text of the error reported to the client.
pub fn parse_tool_call(name: &str, args: ToolArgs) -> (r: Result<McpCommand, String>)
    ensures
        tool_call_outcome(name@, args, r),
{
    if str_eq(name, "list_node_types") {
        Ok(McpCommand::ListNodeTypes)
    } else if str_eq(name, "create_node") {
        match args.node_type {
            None => Err("Missing 'type' parameter".to_owned()),
            Some(node_type) => Ok(McpCommand::CreateNode { node_type }),
        }
    } else if str_eq(name, "delete_node") {
        match args.node_id {
            None => Err("Missing 'node_id'".to_owned()),
            Some(node_id) => Ok(McpCommand::DeleteNode { node_id }),
        }
    } else if str_eq(name, "list_nodes") {
        Ok(McpCommand::ListNodes)
    } else if str_eq(name, "get_node") {
        match args.node_id {
            None => Err("Missing 'node_id'".to_owned()),
            Some(node_id) => Ok(McpCommand::GetNode { node_id }),
        }
    } else if str_eq(name, "update_node") {
        match args.node_id {
            None => Err("Missing 'node_id'".to_owned()),
            Some(node_id) => if !args.has_properties {
                Err("Missing 'properties'".to_owned())
            } else {
                Ok(McpCommand::UpdateNode { node_id })
            },
        }
    } else if str_eq(name, "connect") {
        parse_wire_args(args, false)
    } else if str_eq(name, "disconnect") {
        parse_wire_args(args, true)
    } else if str_eq(name, "list_connections") {
        Ok(McpCommand::ListConnections)
    } else if str_eq(name, "get_port_values") {
        Ok(McpCommand::GetPortValues { node_id: args.node_id })
    } else if str_eq(name, "save_project") {
        match args.path {
            None => Err("Missing 'path'".to_owned()),
            Some(path) => Ok(McpCommand::SaveProject { path }),
        }
    } else if str_eq(name, "load_project") {
        match args.path {
            None => Err("Missing 'path'".to_owned()),
            Some(path) => Ok(McpCommand::LoadProject { path }),
        }
    } else if str_eq(name, "create_workflow") {
        match args.workflow_nodes {
            None => Err("Missing or invalid 'nodes' array".to_owned()),
            Some(node_types) => {
                let connections = match args.workflow_conns {
                    Some(v) => v,
                    None => Vec::new(),
                };
                Ok(McpCommand::CreateWorkflow { node_types, connections })
            },
        }
    } else {
        Err(concat_text("Unknown tool: ", name))
    }
}

/// Whether two characters are equal once ASCII upper-case letters are lowered.
pub open spec fn chars_match_ignoring_case(a: char, b: char) -> bool {
    ||| a == b
    ||| ('A' <= a <= 'Z' && b as u32 == a as u32 + 32)
    ||| ('A' <= b <= 'Z' && a as u32 == b as u32 + 32)
}

/// Whether two texts are equal with ASCII letters compared without case, as
/// `str::eq_ignore_ascii_case` compares them.
pub open spec fn same_ignoring_case(a: Seq<char>, b: Seq<char>) -> bool {
    &&& a.len() == b.len()
    &&& forall|i: int| 0 <= i < a.len() ==> chars_match_ignoring_case(#[trigger] a[i], b[i])
}

/// Whether `a` and `b` are the same text with ASCII letters compared without case.
pub fn eq_ignoring_case(a: &str, b: &str) -> (r: bool)
    ensures
        r == same_ignoring_case(a@, b@),
{
    let x = chars_of(a);
    let y = chars_of(b);
    if x.len() != y.len() {
        return false;
    }
    let mut i: usize = 0;
    while i < x.len()
        invariant
            x@ == a@,
            y@ == b@,
            x@.len() == y@.len(),
            i <= x@.len(),
            forall|j: int| 0 <= j < i ==> chars_match_ignoring_case(#[trigger] x@[j], y@[j]),
        decreases x@.len() - i,
    {
        let c = x[i];
        let d = y[i];
        let same = c == d || ('A' <= c && c <= 'Z' && (d as u32) == (c as u32) + 32) || ('A' <= d && d <= 'Z'
            && (c as u32) == (d as u32) + 32);
        if !same {
            return false;
        }
        i += 1;
    }
    true
}

/// Whether `i` is the position of the first node kind in `types` whose title is
/// `name` (ASCII case ignored).
pub open spec fn first_titled(types: Seq<NodeType>, name: Seq<char>, i: int) -> bool {
    &&& 0 <= i < types.len()
    &&& same_ignoring_case(types[i].spec_title(), name)
    &&& forall|j: int| 0 <= j < i ==> !same_ignoring_case(#[trigger] types[j].spec_title(), name)
}

/// Whether no node kind in `types` has the title `name` (ASCII case ignored).
pub open spec fn none_titled(types: Seq<NodeType>, name: Seq<char>) -> bool {
    forall|j: int| 0 <= j < types.len() ==> !same_ignoring_case(#[trigger] types[j].spec_title(), name)
}

/// The position of the first node kind in `types` whose title is `name`, ASCII
/// case ignored, as the automation commands look node kinds up.
pub fn find_by_title(types: &Vec<NodeType>, name: &str) -> (r: Option<usize>)
    ensures
        match r {
            Some(i) => first_titled(types@, name@, i as int),
            None => none_titled(types@, name@),
        },
{
    let mut i: usize = 0;
    while i < types.len()
        invariant
            i <= types@.len(),
            forall|j: int| 0 <= j < i ==> !same_ignoring_case(#[trigger] types@[j].spec_title(), name@),
        decreases types@.len() - i,
    {
        if eq_ignoring_case(types[i].title(), name) {
            return Some(i);
        }
        i += 1;
    }
    None
}

/// The node kinds named by a workflow: the position in the catalog of each name
/// before the first unknown one, and the index of that name, if any.
pub struct Resolution {
    pub found: Vec<usize>,
    pub unknown: Option<usize>,
}

/// Looks up each of `names` in `types` by title (ASCII case ignored), in order,
/// stopping at the first name that matches none.
pub fn resolve_titles(types: &Vec<NodeType>, names: &Vec<String>) -> (r: Resolution)
    ensures
        forall|j: int| 0 <= j < r.found@.len() ==> first_titled(types@, #[trigger] names@[j]@, r.found@[j] as int),
        match r.unknown {
            None => r.found@.len() == names@.len(),
            Some(k) => k == r.found@.len() && k < names@.len() && none_titled(types@, names@[k as int]@),
        },
{
    let mut found: Vec<usize> = Vec::new();
    let mut k: usize = 0;
    while k < names.len()
        invariant
            k <= names@.len(),
            found@.len() == k,
            forall|j: int| 0 <= j < k ==> first_titled(types@, #[trigger] names@[j]@, found@[j] as int),
        decreases names@.len() - k,
    {
        match find_by_title(types, names[k].as_str()) {
            Some(i) => {
                found.push(i);
            },
            None => {
                return Resolution { found, unknown: Some(k) };
            },
        }
        k += 1;
    }
    Resolution { found, unknown: None }
}

/// Whether `c` has the Unicode `White_Space` property, which `char::is_whitespace`
/// and `str::trim` go by.
pub open spec fn is_white_space(c: char) -> bool {
    ||| '\u{9}' <= c <= '\u{d}'
    ||| c == ' '
    ||| c == '\u{85}'
    ||| c == '\u{a0}'
    ||| c == '\u{1680}'
    ||| '\u{2000}' <= c <= '\u{200a}'
    ||| c == '\u{2028}'
    ||| c == '\u{2029}'
    ||| c == '\u{202f}'
    ||| c == '\u{205f}'
    ||| c == '\u{3000}'
}

/// Whether a line holds nothing but white space (it trims to nothing).
pub open spec fn is_blank(s: Seq<char>) -> bool {
    forall|i: int| 0 <= i < s.len() ==> is_white_space(#[trigger] s[i])
}

/// Whether `line` holds nothing but white space.
pub fn blank_line(line: &str) -> (r: bool)
    ensures
        r == is_blank(line@),
{
    let cs = chars_of(line);
    let mut i: usize = 0;
    while i < cs.len()
        invariant
            cs@ == line@,
            i <= cs@.len(),
            forall|j: int| 0 <= j < i ==> is_white_space(#[trigger] cs@[j]),
        decreases cs@.len() - i,
    {
        let c = cs[i];
        let white = ('\u{9}' <= c && c <= '\u{d}') || c == ' ' || c == '\u{85}' || c == '\u{a0}' || c == '\u{1680}'
            || ('\u{2000}' <= c && c <= '\u{200a}') || c == '\u{2028}' || c == '\u{2029}' || c == '\u{202f}'
            || c == '\u{205f}' || c == '\u{3000}';
        if !white {
            return false;
        }
        i += 1;
    }
    true
}

/// What the automation server does with one line of input.
pub enum RpcAction {
    /// A blank line: nothing.
    Skip,
    /// Text that is no JSON document: a parse error (-32700) is answered.
    ParseError,
    /// `initialize`: the server describes itself.
    Initialize { id: JsonNode },
    /// `notifications/initialized`: nothing is answered.
    Notification,
    /// `tools/list`: the tool list is answered.
    ListTools { id: JsonNode },
    /// `tools/call`: the named tool runs on the arguments (an empty object when
    /// there are none).
    CallTool { id: JsonNode, name: String, arguments: Option<JsonNode> },
    /// Any other method: an unknown-method error (-32601) is answered.
    UnknownMethod { id: JsonNode, method: String },
}

/// The member named `k` of a JSON object; `None` for anything else.
pub open spec fn member_of(v: JsonNode, k: Seq<char>) -> Option<JsonNode> {
    match v {
        JsonNode::Object(m, _) => member_named(m@, k),
        _ => None,
    }
}

/// The text of a value that is a JSON string; empty otherwise.
pub open spec fn text_of(v: Option<JsonNode>) -> Seq<char> {
    match v {
        Some(JsonNode::Text(s)) => s@,
        _ => Seq::empty(),
    }
}

/// A request's `id` (`null` when it has none).
pub open spec fn request_id(d: JsonNode) -> JsonNode {
    match member_of(d, "id"@) {
        Some(x) => x,
        None => JsonNode::Null,
    }
}

/// A request's `method`, when it is a string (empty otherwise).
pub open spec fn request_method(d: JsonNode) -> Seq<char> {
    text_of(member_of(d, "method"@))
}

/// The member named `k` of a request's `params`.
pub open spec fn request_param(d: JsonNode, k: Seq<char>) -> Option<JsonNode> {
    match member_of(d, "params"@) {
        Some(p) => member_of(p, k),
        None => None,
    }
}

/// Whether `r` is the action for the request document `d`.
pub open spec fn answers(r: RpcAction, d: JsonNode) -> bool {
    let m = request_method(d);
    if m == "initialize"@ {
        r matches RpcAction::Initialize { id } && id == request_id(d)
    } else if m == "notifications/initialized"@ {
        r is Notification
    } else if m == "tools/list"@ {
        r matches RpcAction::ListTools { id } && id == request_id(d)
    } else if m == "tools/call"@ {
        r matches RpcAction::CallTool { id, name, arguments } && id == request_id(d) && name@ == text_of(
            request_param(d, "name"@),
        ) && arguments == request_param(d, "arguments"@)
    } else {
        r matches RpcAction::UnknownMethod { id, method } && id == request_id(d) && method@ == m
    }
}

/// The text of the first member of `members` named `key`, when it is a string.
fn member_text(members: &Vec<(String, JsonNode)>, key: &str) -> (r: String)
    ensures
        r@ == text_of(member_named(members@, key@)),
{
    match member_position(members, key) {
        Some(p) => match &members[p].1 {
            JsonNode::Text(t) => t.clone(),
            _ => String::new(),
        },
        None => String::new(),
    }
}

/// What to do with one line of the automation protocol (JSON-RPC over standard
/// input): a blank line is skipped, text that is no JSON document is a parse
/// error, and a request is answered by its `method`.
pub fn rpc_action(line: &str) -> (r: RpcAction)
    ensures
        is_blank(line@) ==> r is Skip,
        !is_blank(line@) && json_document(line@) is None ==> r is ParseError,
        !is_blank(line@) ==> (json_document(line@) matches Some(d) ==> answers(r, d)),
{
    if blank_line(line) {
        return RpcAction::Skip;
    }
    let doc = match parse_json(line) {
        Some(d) => d,
        None => {
            return RpcAction::ParseError;
        },
    };
    let ghost d = doc;
    proof {
        reveal_strlit("id");
        reveal_strlit("params");
        reveal_strlit("initialize");
        reveal_strlit("notifications/initialized");
        reveal_strlit("tools/list");
        reveal_strlit("tools/call");
        assert("params"@.len() == 6 && "id"@.len() == 2);
        assert("initialize"@.len() > 0 && "notifications/initialized"@.len() > 0);
        assert("tools/list"@.len() > 0 && "tools/call"@.len() > 0);
    }
    match doc {
        JsonNode::Object(mut members, _) => {
            let ghost m0 = members@;
            let method = member_text(&members, "method");
            let id = match take_member(&mut members, "id") {
                Some(x) => x,
                None => JsonNode::Null,
            };
            if str_eq(method.as_str(), "initialize") {
                RpcAction::Initialize { id }
            } else if str_eq(method.as_str(), "notifications/initialized") {
                RpcAction::Notification
            } else if str_eq(method.as_str(), "tools/list") {
                RpcAction::ListTools { id }
            } else if str_eq(method.as_str(), "tools/call") {
                match take_member(&mut members, "params") {
                    Some(JsonNode::Object(mut pm, _)) => {
                        let name = member_text(&pm, "name");
                        let arguments = take_member(&mut pm, "arguments");
                        RpcAction::CallTool { id, name, arguments }
                    },
                    _ => RpcAction::CallTool { id, name: String::new(), arguments: None },
                }
            } else {
                RpcAction::UnknownMethod { id, method }
            }
        },
        _ => RpcAction::UnknownMethod { id: JsonNode::Null, method: String::new() },
    }
}

/// The message of the unknown-method error for `method`.
pub fn unknown_method_message(method: &str) -> (r: String)
    ensures
        r@ == "Unknown method: "@ + method@,
{
    concat_text("Unknown method: ", method)
}

/// How each tool of the automation protocol is read: every one of the thirteen
/// tools gives its own command, succeeding exactly when the arguments it needs
/// are present, and any other name is refused.
pub proof fn law_tool_dispatch(name: Seq<char>, args: ToolArgs, r: Result<McpCommand, String>)
    requires
        tool_call_outcome(name, args, r),
    ensures
        name == "list_node_types"@ ==> r == Ok::<McpCommand, String>(McpCommand::ListNodeTypes),
        name == "create_node"@ ==> (r is Ok <==> args.node_type is Some) && (r is Ok ==> r->Ok_0 is CreateNode),
        name == "delete_node"@ ==> (r is Ok <==> args.node_id is Some) && (r is Ok ==> r == Ok::<McpCommand, String>(
            McpCommand::DeleteNode { node_id: args.node_id->Some_0 },
        )),
        name == "list_nodes"@ ==> r == Ok::<McpCommand, String>(McpCommand::ListNodes),
        name == "get_node"@ ==> (r is Ok <==> args.node_id is Some) && (r is Ok ==> r == Ok::<McpCommand, String>(
            McpCommand::GetNode { node_id: args.node_id->Some_0 },
        )),
        name == "update_node"@ ==> (r is Ok <==> (args.node_id is Some && args.has_properties)) && (r is Ok ==> r
            == Ok::<McpCommand, String>(McpCommand::UpdateNode { node_id: args.node_id->Some_0 })),
        name == "connect"@ ==> (r is Ok <==> (args.from_node is Some && args.from_port is Some && args.to_node is Some
            && args.to_port is Some)) && (r is Ok ==> r->Ok_0 is Connect),
        name == "disconnect"@ ==> (r is Ok <==> (args.from_node is Some && args.from_port is Some && args.to_node is Some
            && args.to_port is Some)) && (r is Ok ==> r->Ok_0 is Disconnect),
        name == "list_connections"@ ==> r == Ok::<McpCommand, String>(McpCommand::ListConnections),
        name == "get_port_values"@ ==> r == Ok::<McpCommand, String>(McpCommand::GetPortValues { node_id: args.node_id }),
        name == "save_project"@ ==> (r is Ok <==> args.path is Some) && (r is Ok ==> r->Ok_0 is SaveProject),
        name == "load_project"@ ==> (r is Ok <==> args.path is Some) && (r is Ok ==> r->Ok_0 is LoadProject),
        name == "create_workflow"@ ==> (r is Ok <==> args.workflow_nodes is Some) && (r is Ok ==> r->Ok_0 is CreateWorkflow),
        name != "list_node_types"@ && name != "create_node"@ && name != "delete_node"@ && name != "list_nodes"@ && name != "get_node"@ && name != "update_node"@ && name != "connect"@ && name != "disconnect"@ && name != "list_connections"@ && name != "get_port_values"@ && name != "save_project"@ && name != "load_project"@ && name != "create_workflow"@ ==> r is Err,
{
    reveal_strlit("list_node_types");
    reveal_strlit("create_node");
    reveal_strlit("delete_node");
    reveal_strlit("list_nodes");
    reveal_strlit("get_node");
    reveal_strlit("update_node");
    reveal_strlit("connect");
    reveal_strlit("disconnect");
    reveal_strlit("list_connections");
    reveal_strlit("get_port_values");
    reveal_strlit("save_project");
    reveal_strlit("load_project");
    reveal_strlit("create_workflow");
    assert("list_node_types"@.len() != "create_node"@.len());
    assert("list_node_types"@.len() != "delete_node"@.len());
    assert("list_node_types"@.len() != "list_nodes"@.len());
    assert("list_node_types"@.len() != "get_node"@.len());
    assert("list_node_types"@.len() != "update_node"@.len());
    assert("list_node_types"@.len() != "connect"@.len());
    assert("list_node_types"@.len() != "disconnect"@.len());
    assert("list_node_types"@.len() != "list_connections"@.len());
    assert("list_node_types"@[0] != "get_port_values"@[0]);
    assert("list_node_types"@.len() != "save_project"@.len());
    assert("list_node_types"@.len() != "load_project"@.len());
    assert("list_node_types"@[0] != "create_workflow"@[0]);
    assert("create_node"@[0] != "delete_node"@[0]);
    assert("create_node"@.len() != "list_nodes"@.len());
    assert("create_node"@.len() != "get_node"@.len());
    assert("create_node"@[0] != "update_node"@[0]);
    assert("create_node"@.len() != "connect"@.len());
    assert("create_node"@.len() != "disconnect"@.len());
    assert("create_node"@.len() != "list_connections"@.len());
    assert("create_node"@.len() != "get_port_values"@.len());
    assert("create_node"@.len() != "save_project"@.len());
    assert("create_node"@.len() != "load_project"@.len());
    assert("create_node"@.len() != "create_workflow"@.len());
    assert("delete_node"@.len() != "list_nodes"@.len());
    assert("delete_node"@.len() != "get_node"@.len());
    assert("delete_node"@[0] != "update_node"@[0]);
    assert("delete_node"@.len() != "connect"@.len());
    assert("delete_node"@.len() != "disconnect"@.len());
    assert("delete_node"@.len() != "list_connections"@.len());
    assert("delete_node"@.len() != "get_port_values"@.len());
    assert("delete_node"@.len() != "save_project"@.len());
    assert("delete_node"@.len() != "load_project"@.len());
    assert("delete_node"@.len() != "create_workflow"@.len());
    assert("list_nodes"@.len() != "get_node"@.len());
    assert("list_nodes"@.len() != "update_node"@.len());
    assert("list_nodes"@.len() != "connect"@.len());
    assert("list_nodes"@[0] != "disconnect"@[0]);
    assert("list_nodes"@.len() != "list_connections"@.len());
    assert("list_nodes"@.len() != "get_port_values"@.len());
    assert("list_nodes"@.len() != "save_project"@.len());
    assert("list_nodes"@.len() != "load_project"@.len());
    assert("list_nodes"@.len() != "create_workflow"@.len());
    assert("get_node"@.len() != "update_node"@.len());
    assert("get_node"@.len() != "connect"@.len());
    assert("get_node"@.len() != "disconnect"@.len());
    assert("get_node"@.len() != "list_connections"@.len());
    assert("get_node"@.len() != "get_port_values"@.len());
    assert("get_node"@.len() != "save_project"@.len());
    assert("get_node"@.len() != "load_project"@.len());
    assert("get_node"@.len() != "create_workflow"@.len());
    assert("update_node"@.len() != "connect"@.len());
    assert("update_node"@.len() != "disconnect"@.len());
    assert("update_node"@.len() != "list_connections"@.len());
    assert("update_node"@.len() != "get_port_values"@.len());
    assert("update_node"@.len() != "save_project"@.len());
    assert("update_node"@.len() != "load_project"@.len());
    assert("update_node"@.len() != "create_workflow"@.len());
    assert("connect"@.len() != "disconnect"@.len());
    assert("connect"@.len() != "list_connections"@.len());
    assert("connect"@.len() != "get_port_values"@.len());
    assert("connect"@.len() != "save_project"@.len());
    assert("connect"@.len() != "load_project"@.len());
    assert("connect"@.len() != "create_workflow"@.len());
    assert("disconnect"@.len() != "list_connections"@.len());
    assert("disconnect"@.len() != "get_port_values"@.len());
    assert("disconnect"@.len() != "save_project"@.len());
    assert("disconnect"@.len() != "load_project"@.len());
    assert("disconnect"@.len() != "create_workflow"@.len());
    assert("list_connections"@.len() != "get_port_values"@.len());
    assert("list_connections"@.len() != "save_project"@.len());
    assert("list_connections"@.len() != "load_project"@.len());
    assert("list_connections"@.len() != "create_workflow"@.len());
    assert("get_port_values"@.len() != "save_project"@.len());
    assert("get_port_values"@.len() != "load_project"@.len());
    assert("get_port_values"@[0] != "create_workflow"@[0]);
    assert("save_project"@[0] != "load_project"@[0]);
    assert("save_project"@.len() != "create_workflow"@.len());
    assert("load_project"@.len() != "create_workflow"@.len());
}

} // verus!
