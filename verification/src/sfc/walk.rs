//! The walk over the syntax tree of a script block that decides which nodes become code
//! units, with the recursion guard that gives up on trees nested too deeply.

use vstd::prelude::*;

verus! {

/// What a syntax node is for unit extraction (the first that holds, in this order:
/// function or method, class, constant or static declaration, anything else).
#[derive(Clone, Copy, PartialEq, Eq, Debug)]
pub enum NodeRole {
    Function,
    Class,
    Constant,
    Other,
}

/// A node of a script's syntax tree, as far as unit extraction reads it.
#[derive(Debug)]
pub struct SyntaxNode {
    /// Identifies the node in its tree.
    pub id: usize,
    pub role: NodeRole,
    /// The declared name (read for classes).
    pub name: Option<String>,
    /// The children of the class body (for classes that have one).
    pub class_body: Option<Vec<SyntaxNode>>,
    pub children: Vec<SyntaxNode>,
}

/// A node to turn into a code unit.
#[derive(Debug, PartialEq, Eq)]
pub enum UnitRequest {
    /// A function or method, with the class it is declared in.
    Function { node: usize, parent_class: Option<String> },
    Class { node: usize },
    Constant { node: usize },
}

/// The requests for `n` at `depth`, inside class `parent`; `None` when some visited
/// node lies deeper than `max`.
pub open spec fn walk(n: SyntaxNode, parent: Option<String>, depth: nat, max: nat) -> Option<
    Seq<UnitRequest>,
>
    decreases n, 1nat,
{
    if depth > max {
        None
    } else {
        match n.role {
            NodeRole::Function => match walk_list(n.children@, parent, depth + 1, max) {
                Some(rs) => Some(
                    seq![UnitRequest::Function { node: n.id, parent_class: parent }] + rs,
                ),
                None => None,
            },
            NodeRole::Class => match n.name {
                Some(name) => {
                    let inner = match n.class_body {
                        Some(b) => walk_list(b@, Some(name), depth + 1, max),
                        None => Some(seq![]),
                    };
                    match inner {
                        Some(rs) => Some(seq![UnitRequest::Class { node: n.id }] + rs),
                        None => None,
                    }
                },
                None => walk_list(n.children@, parent, depth + 1, max),
            },
            NodeRole::Constant => if parent is None {
                Some(seq![UnitRequest::Constant { node: n.id }])
            } else {
                walk_list(n.children@, parent, depth + 1, max)
            },
            NodeRole::Other => walk_list(n.children@, parent, depth + 1, max),
        }
    }
}

/// The requests for the nodes `ns`, in order.
pub open spec fn walk_list(ns: Seq<SyntaxNode>, parent: Option<String>, depth: nat, max: nat) -> Option<
    Seq<UnitRequest>,
>
    decreases ns, 0nat,
{
    if ns.len() == 0 {
        Some(seq![])
    } else {
        match walk_list(ns.drop_last(), parent, depth, max) {
            Some(a) => match walk(ns.last(), parent, depth, max) {
                Some(b) => Some(a + b),
                None => None,
            },
            None => None,
        }
    }
}


/// Below the depth limit, a non-empty list hits it and an empty one gives nothing.
pub proof fn lemma_walk_list_too_deep(ns: Seq<SyntaxNode>, parent: Option<String>, depth: nat, max: nat)
    requires
        depth > max,
    ensures
        walk_list(ns, parent, depth, max) == if ns.len() == 0 {
            Some(Seq::<UnitRequest>::empty())
        } else {
            None
        },
{
    if ns.len() == 0 {
        assert(seq![] =~= Seq::<UnitRequest>::empty());
    } else {
        assert(walk(ns.last(), parent, depth, max) is None);
    }
}

fn copy_parent(parent: &Option<String>) -> (r: Option<String>)
    ensures
        r == *parent,
{
    match parent {
        Some(p) => Some(p.clone()),
        None => None,
    }
}

/// Visits `nodes` in order at `depth` (see [`visit_node`]).
fn visit_nodes(
    nodes: &Vec<SyntaxNode>,
    parent: &Option<String>,
    depth: usize,
    max_depth: usize,
    out: &mut Vec<UnitRequest>,
    hit: &mut bool,
)
    ensures
        *old(hit) ==> *final(hit) && final(out)@ == old(out)@,
        !*old(hit) ==> match walk_list(nodes@, *parent, depth as nat, max_depth as nat) {
            None => *final(hit),
            Some(rs) => !*final(hit) && final(out)@ == old(out)@ + rs,
        },
        old(out)@.len() <= final(out)@.len(),
        final(out)@.subrange(0, old(out)@.len() as int) == old(out)@,
    decreases nodes@, 0nat,
{
    let n = nodes.len();
    assert(nodes@.take(0) =~= Seq::<SyntaxNode>::empty());
    for i in 0..n
        invariant
            n == nodes.len(),
            *old(hit) ==> *hit && out@ == old(out)@,
            !*old(hit) ==> match walk_list(nodes@.take(i as int), *parent, depth as nat, max_depth as nat) {
                None => *hit,
                Some(rs) => !*hit && out@ == old(out)@ + rs,
            },
            old(out)@.len() <= out@.len(),
            out@.subrange(0, old(out)@.len() as int) == old(out)@,
    {
        let ghost before = out@;
        let ghost was_hit = *hit;
        proof {
            assert(nodes@.take(i + 1).drop_last() =~= nodes@.take(i as int));
            assert(nodes@.take(i + 1).last() == nodes@[i as int]);
        }
        visit_node(&nodes[i], parent, depth, max_depth, out, hit);
        proof {
            assert(out@.subrange(0, old(out)@.len() as int) =~= before.subrange(0, old(out)@.len() as int));
            if !was_hit {
                match walk_list(nodes@.take(i as int), *parent, depth as nat, max_depth as nat) {
                    Some(a) => {
                        match walk(nodes@[i as int], *parent, depth as nat, max_depth as nat) {
                            Some(b) => {
                                assert(out@ =~= old(out)@ + (a + b));
                            },
                            None => {},
                        }
                    },
                    None => {},
                }
            }
        }
    }
    assert(nodes@.take(n as int) =~= nodes@);
}

/// Visits `node` at `depth` inside class `parent`: functions and methods are
/// requested and their children visited; a named class is requested and its body
/// visited with the class as parent; a top-level constant is requested; any other node
/// has its children visited. Once a node deeper than `max_depth` is met, `hit` is set
/// and nothing more is visited.
fn visit_node(
    node: &SyntaxNode,
    parent: &Option<String>,
    depth: usize,
    max_depth: usize,
    out: &mut Vec<UnitRequest>,
    hit: &mut bool,
)
    ensures
        *old(hit) ==> *final(hit) && final(out)@ == old(out)@,
        !*old(hit) && depth > max_depth ==> *final(hit) && final(out)@ == old(out)@,
        !*old(hit) ==> match walk(*node, *parent, depth as nat, max_depth as nat) {
            None => *final(hit),
            Some(rs) => !*final(hit) && final(out)@ == old(out)@ + rs,
        },
        old(out)@.len() <= final(out)@.len(),
        final(out)@.subrange(0, old(out)@.len() as int) == old(out)@,
    decreases *node, 1nat,
{
    if *hit {
        return;
    }
    if depth > max_depth {
        *hit = true;
        return;
    }
    let ghost start = out@;
    match node.role {
        NodeRole::Function => {
            out.push(UnitRequest::Function { node: node.id, parent_class: copy_parent(parent) });
            visit_children(&node.children, parent, depth, max_depth, out, hit);
            proof {
                if let Some(rs) = walk_list(node.children@, *parent, (depth + 1) as nat, max_depth as nat) {
                    assert(out@ =~= start + (seq![UnitRequest::Function { node: node.id, parent_class: *parent }] + rs));
                }
            }
        },
        NodeRole::Class => {
            match &node.name {
                Some(name) => {
                    out.push(UnitRequest::Class { node: node.id });
                    let class_name = Some(name.clone());
                    match &node.class_body {
                        Some(body) => {
                            visit_children(body, &class_name, depth, max_depth, out, hit);
                            proof {
                                if let Some(rs) = walk_list(body@, class_name, (depth + 1) as nat, max_depth as nat) {
                                    assert(out@ =~= start + (seq![UnitRequest::Class { node: node.id }] + rs));
                                }
                            }
                        },
                        None => {
                            assert(out@ =~= start + (seq![UnitRequest::Class { node: node.id }] + Seq::<UnitRequest>::empty()));
                        },
                    }
                },
                None => {
                    visit_children(&node.children, parent, depth, max_depth, out, hit);
                },
            }
        },
        NodeRole::Constant => {
            if parent.is_none() {
                out.push(UnitRequest::Constant { node: node.id });
                assert(out@ =~= start + seq![UnitRequest::Constant { node: node.id }]);
            } else {
                visit_children(&node.children, parent, depth, max_depth, out, hit);
            }
        },
        NodeRole::Other => {
            visit_children(&node.children, parent, depth, max_depth, out, hit);
        },
    }
}

/// Visits `children` one level below `depth`.
fn visit_children(
    children: &Vec<SyntaxNode>,
    parent: &Option<String>,
    depth: usize,
    max_depth: usize,
    out: &mut Vec<UnitRequest>,
    hit: &mut bool,
)
    requires
        !*old(hit),
        depth <= max_depth,
    ensures
        match walk_list(children@, *parent, (depth + 1) as nat, max_depth as nat) {
            None => *final(hit),
            Some(rs) => !*final(hit) && final(out)@ == old(out)@ + rs,
        },
        old(out)@.len() <= final(out)@.len(),
        final(out)@.subrange(0, old(out)@.len() as int) == old(out)@,
    decreases children@, 1nat,
{
    if depth == usize::MAX {
        proof {
            lemma_walk_list_too_deep(children@, *parent, (depth + 1) as nat, max_depth as nat);
        }
        if children.len() > 0 {
            *hit = true;
        } else {
            assert(out@ =~= old(out)@ + Seq::<UnitRequest>::empty());
        }
    } else {
        visit_nodes(children, parent, depth + 1, max_depth, out, hit);
    }
}

/// The nodes of the tree under `root` that become code units, in the order of a
/// depth-first walk, or `None` when the tree is nested deeper than `max_depth` (the
/// whole script is then skipped).
pub fn collect_unit_requests(root: &SyntaxNode, max_depth: usize) -> (r: Option<Vec<UnitRequest>>)
    ensures
        match r {
            Some(v) => walk(*root, None, 0, max_depth as nat) == Some(v@),
            None => walk(*root, None, 0, max_depth as nat) is None,
        },
{
    let mut out: Vec<UnitRequest> = Vec::new();
    let mut hit = false;
    visit_node(root, &None, 0, max_depth, &mut out, &mut hit);
    if hit {
        None
    } else {
        assert(out@ =~= Seq::<UnitRequest>::empty() + out@);
        Some(out)
    }
}


/// Raising the depth limit never changes a walk that stayed within the limit: the same
/// nodes are requested, in the same order.
pub proof fn lemma_walk_limit_monotone(n: SyntaxNode, parent: Option<String>, depth: nat, max: nat, max2: nat)
    requires
        max <= max2,
        walk(n, parent, depth, max) is Some,
    ensures
        walk(n, parent, depth, max2) == walk(n, parent, depth, max),
    decreases n, 1nat,
{
    match n.role {
        NodeRole::Function => {
            lemma_walk_list_limit_monotone(n.children@, parent, depth + 1, max, max2);
        },
        NodeRole::Class => {
            match n.name {
                Some(name) => {
                    match n.class_body {
                        Some(b) => {
                            lemma_walk_list_limit_monotone(b@, Some(name), depth + 1, max, max2);
                        },
                        None => {},
                    }
                },
                None => {
                    lemma_walk_list_limit_monotone(n.children@, parent, depth + 1, max, max2);
                },
            }
        },
        NodeRole::Constant => {
            if parent is Some {
                lemma_walk_list_limit_monotone(n.children@, parent, depth + 1, max, max2);
            }
        },
        NodeRole::Other => {
            lemma_walk_list_limit_monotone(n.children@, parent, depth + 1, max, max2);
        },
    }
}

/// [`lemma_walk_limit_monotone`] for a list of nodes.
pub proof fn lemma_walk_list_limit_monotone(
    ns: Seq<SyntaxNode>,
    parent: Option<String>,
    depth: nat,
    max: nat,
    max2: nat,
)
    requires
        max <= max2,
        walk_list(ns, parent, depth, max) is Some,
    ensures
        walk_list(ns, parent, depth, max2) == walk_list(ns, parent, depth, max),
    decreases ns, 0nat,
{
    if ns.len() > 0 {
        lemma_walk_list_limit_monotone(ns.drop_last(), parent, depth, max, max2);
        lemma_walk_limit_monotone(ns.last(), parent, depth, max, max2);
    }
}

/// A request that may stand below a class: no constant, and a function only with the
/// class it is declared in.
pub open spec fn class_member_request(r: UnitRequest) -> bool {
    match r {
        UnitRequest::Constant { .. } => false,
        UnitRequest::Function { parent_class, .. } => parent_class is Some,
        UnitRequest::Class { .. } => true,
    }
}

/// Inside a class (at any depth, through methods and other nodes alike) no constant is
/// requested, and every function is requested with a class: the innermost named class
/// around it.
pub proof fn lemma_walk_inside_class(n: SyntaxNode, name: String, depth: nat, max: nat)
    ensures
        walk(n, Some(name), depth, max) matches Some(rs) ==> forall|k: int|
            0 <= k < rs.len() ==> class_member_request(#[trigger] rs[k]),
    decreases n, 1nat,
{
    if depth <= max {
        match n.role {
            NodeRole::Function => {
                lemma_walk_list_inside_class(n.children@, name, depth + 1, max);
            },
            NodeRole::Class => {
                match n.name {
                    Some(cn) => {
                        match n.class_body {
                            Some(b) => {
                                lemma_walk_list_inside_class(b@, cn, depth + 1, max);
                            },
                            None => {},
                        }
                    },
                    None => {
                        lemma_walk_list_inside_class(n.children@, name, depth + 1, max);
                    },
                }
            },
            NodeRole::Constant => {
                lemma_walk_list_inside_class(n.children@, name, depth + 1, max);
            },
            NodeRole::Other => {
                lemma_walk_list_inside_class(n.children@, name, depth + 1, max);
            },
        }
    }
}

/// [`lemma_walk_inside_class`] for a list of nodes.
pub proof fn lemma_walk_list_inside_class(ns: Seq<SyntaxNode>, name: String, depth: nat, max: nat)
    ensures
        walk_list(ns, Some(name), depth, max) matches Some(rs) ==> forall|k: int|
            0 <= k < rs.len() ==> class_member_request(#[trigger] rs[k]),
    decreases ns, 0nat,
{
    if ns.len() > 0 {
        lemma_walk_list_inside_class(ns.drop_last(), name, depth, max);
        lemma_walk_inside_class(ns.last(), name, depth, max);
    }
}

/// A named class is requested first, and the requests below its body hold no constant
/// and name a class for every function.
pub proof fn lemma_class_members(n: SyntaxNode, parent: Option<String>, depth: nat, max: nat)
    requires
        n.role == NodeRole::Class,
        n.name is Some,
    ensures
        walk(n, parent, depth, max) matches Some(rs) ==> {
            &&& rs.len() >= 1
            &&& rs[0] == UnitRequest::Class { node: n.id }
            &&& forall|k: int| 1 <= k < rs.len() ==> class_member_request(#[trigger] rs[k])
        },
{
    match n.class_body {
        Some(b) => {
            lemma_walk_list_inside_class(b@, n.name.unwrap(), depth + 1, max);
            if let Some(rs) = walk(n, parent, depth, max) {
                let inner = walk_list(b@, n.name, depth + 1, max);
                assert(inner is Some);
                assert forall|k: int| 1 <= k < rs.len() implies class_member_request(#[trigger] rs[k]) by {
                    assert(rs[k] == inner.unwrap()[k - 1]);
                }
            }
        },
        None => {},
    }
}

/// Within the depth limit: a top-level constant is requested by itself (nothing below it
/// is looked at); a function or method is requested first, with the class it is
/// declared in; a named class is requested first.
pub proof fn lemma_walk_heads(n: SyntaxNode, parent: Option<String>, depth: nat, max: nat)
    requires
        depth <= max,
    ensures
        n.role == NodeRole::Constant && parent is None ==> walk(n, parent, depth, max) == Some(
            seq![UnitRequest::Constant { node: n.id }],
        ),
        n.role == NodeRole::Function ==> (walk(n, parent, depth, max) matches Some(rs) ==> rs.len()
            >= 1 && rs[0] == UnitRequest::Function { node: n.id, parent_class: parent }),
        n.role == NodeRole::Class && n.name is Some ==> (walk(n, parent, depth, max) matches Some(
            rs,
        ) ==> rs.len() >= 1 && rs[0] == UnitRequest::Class { node: n.id }),
        n.role == NodeRole::Other || (n.role == NodeRole::Class && n.name is None) ==> walk(
            n,
            parent,
            depth,
            max,
        ) == walk_list(n.children@, parent, depth + 1, max),
{
}

} // verus!
