//! The help tree of registered commands, and the console's standard outputs.

use vstd::prelude::*;

use crate::command::{is_prefix, path_of, CommandContext, CommandOutput, CommandRegistry, RegisteredCommand};
use crate::error::HyperError;
use crate::table::{fields_view, max_nat, panel_text, render_panel, tables_view, Table, TableView};
use crate::text::{byte_len, byte_length, join, join_strings, lemma_views_push, owned, pad_right, pad_right_text, push_str, split_whitespace_text, views, words};

verus! {

/// A node of the help tree: a path word (or a leaf's usage tail), the
/// command's description on leaves, and the sub-commands below it.
pub struct HelpNode {
    /// Shown label.
    pub label: String,
    /// Description (empty on inner nodes).
    pub description: String,
    /// Children, in insertion order.
    pub children: Vec<HelpNode>,
}

/// Widest label of a forest, in bytes.
pub open spec fn forest_width(nodes: Seq<HelpNode>) -> nat
    decreases nodes,
{
    if nodes.len() == 0 {
        0
    } else {
        max_nat(forest_width(nodes.drop_last()), node_width(nodes.last()))
    }
}

/// Widest label of a node's subtree, in bytes.
pub open spec fn node_width(n: HelpNode) -> nat
    decreases n,
{
    proof {
        assert(decreases_to!(n => n.children));
    }
    max_nat(byte_len(n.label@), forest_width(n.children@))
}

/// The lines of one node and its subtree.
pub open spec fn node_lines(n: HelpNode, prefix: Seq<char>, last: bool, width: nat) -> Seq<Seq<char>>
    decreases n, 0nat,
{
    proof {
        assert(decreases_to!(n => n.children));
    }
    seq![prefix + (if last { "└─ "@ } else { "├─ "@ }) + pad_right(n.label@, width) + "  "@ + n.description@]
        + forest_lines(n.children@, prefix + (if last { "   "@ } else { "│  "@ }), width, n.children@.len())
}

/// The lines of the first `k` nodes of a forest (the last node of the forest
/// draws the closing branch).
pub open spec fn forest_lines(nodes: Seq<HelpNode>, prefix: Seq<char>, width: nat, k: nat) -> Seq<Seq<char>>
    decreases nodes, k,
{
    if k == 0 || k > nodes.len() {
        Seq::empty()
    } else {
        forest_lines(nodes, prefix, width, (k - 1) as nat) + node_lines(nodes[k - 1], prefix, k == nodes.len(), width)
    }
}

/// A rendered help tree under its title.
pub open spec fn tree_text(title: Seq<char>, nodes: Seq<HelpNode>) -> Seq<char> {
    join(seq![title] + forest_lines(nodes, Seq::empty(), forest_width(nodes), nodes.len()), "\n"@)
}

/// The label a command shows at `depth`: its path word, or on its last
/// word the usage from that depth on (which shows argument placeholders).
pub open spec fn label_at<H>(c: RegisteredCommand<H>, depth: int) -> Seq<char> {
    let p = path_of(c);
    if depth + 1 != p.len() {
        p[depth]
    } else {
        let u = words(c.usage@);
        if u.len() <= depth {
            p[depth]
        } else {
            join(u.skip(depth), " "@)
        }
    }
}

/// Whether `after` is `before` with a command inserted from `depth` on.
pub open spec fn inserted<H>(before: Seq<HelpNode>, after: Seq<HelpNode>, c: RegisteredCommand<H>, depth: nat) -> bool
    decreases path_of(c).len() - depth,
{
    let l = label_at(c, depth as int);
    let leaf = depth + 1 == path_of(c).len();
    if depth >= path_of(c).len() {
        false
    } else if exists|i: int| 0 <= i < before.len() && (#[trigger] before[i]).label@ == l {
        let i = choose|i: int| 0 <= i < before.len() && (#[trigger] before[i]).label@ == l && forall|j: int| 0 <= j < i ==> (#[trigger] before[j]).label@ != l;
        &&& after.len() == before.len()
        &&& forall|j: int| 0 <= j < before.len() && j != i ==> after[j] == before[j]
        &&& after[i].label == before[i].label
        &&& if leaf {
            after[i].description@ == c.description@ && after[i].children == before[i].children
        } else {
            after[i].description == before[i].description && inserted(before[i].children@, after[i].children@, c, depth + 1)
        }
    } else {
        &&& after.len() == before.len() + 1
        &&& forall|j: int| 0 <= j < before.len() ==> after[j] == before[j]
        &&& after.last().label@ == l
        &&& if leaf {
            after.last().description@ == c.description@ && after.last().children@.len() == 0
        } else {
            after.last().description@.len() == 0 && inserted(Seq::empty(), after.last().children@, c, depth + 1)
        }
    }
}

/// Whether help for `path` lists a command: it is visible and under `path`.
pub open spec fn listed<H>(c: RegisteredCommand<H>, path: Seq<Seq<char>>) -> bool {
    c.visible && (path.len() == 0 || is_prefix(path, path_of(c)))
}

/// Whether `nodes` is the tree of the listed commands among `cmds`,
/// inserted in registration order.
pub open spec fn built<H>(cmds: Seq<RegisteredCommand<H>>, path: Seq<Seq<char>>, nodes: Seq<HelpNode>) -> bool
    decreases cmds.len(),
{
    if cmds.len() == 0 {
        nodes.len() == 0
    } else if listed(cmds.last(), path) {
        exists|prev: Seq<HelpNode>| #![trigger inserted(prev, nodes, cmds.last(), 0)]
            built(cmds.drop_last(), path, prev) && inserted(prev, nodes, cmds.last(), 0)
    } else {
        built(cmds.drop_last(), path, nodes)
    }
}

/// The title of a help tree.
pub open spec fn help_title(path: Seq<Seq<char>>) -> Seq<char> {
    if path.len() == 0 {
        "Command Console"@
    } else {
        "Commands: "@ + join(path, " "@)
    }
}

/// Whether `text` is the help for `path` over the registered commands.
pub open spec fn help_text<H>(cmds: Seq<RegisteredCommand<H>>, path: Seq<Seq<char>>, text: Seq<char>) -> bool {
    exists|nodes: Seq<HelpNode>| built(cmds, path, nodes) && text == tree_text(help_title(path), nodes)
}

/// Whether two nodes show the same: same label, description and children.
pub open spec fn same_node(a: HelpNode, b: HelpNode) -> bool
    decreases a,
{
    proof {
        assert(decreases_to!(a => a.children));
    }
    a.label@ == b.label@ && a.description@ == b.description@ && same_forest(a.children@, b.children@)
}

/// Whether two forests show the same, node by node.
pub open spec fn same_forest(a: Seq<HelpNode>, b: Seq<HelpNode>) -> bool
    decreases a,
{
    if a.len() == 0 {
        b.len() == 0
    } else {
        b.len() == a.len() && same_forest(a.drop_last(), b.drop_last()) && same_node(a.last(), b.last())
    }
}

proof fn lemma_same_forest_at(a: Seq<HelpNode>, b: Seq<HelpNode>, i: int)
    requires
        same_forest(a, b),
        0 <= i < a.len(),
    ensures
        a.len() == b.len(),
        same_node(a[i], b[i]),
    decreases a.len(),
{
    if i < a.len() - 1 {
        lemma_same_forest_at(a.drop_last(), b.drop_last(), i);
    }
}

proof fn lemma_same_forest_len(a: Seq<HelpNode>, b: Seq<HelpNode>)
    requires
        same_forest(a, b),
    ensures
        a.len() == b.len(),
{
}

proof fn lemma_same_forest_from(a: Seq<HelpNode>, b: Seq<HelpNode>)
    requires
        a.len() == b.len(),
        forall|i: int| 0 <= i < a.len() ==> same_node(#[trigger] a[i], b[i]),
    ensures
        same_forest(a, b),
    decreases a.len(),
{
    if a.len() > 0 {
        assert forall|i: int| 0 <= i < a.drop_last().len() implies same_node(#[trigger] a.drop_last()[i], b.drop_last()[i]) by {
            assert(same_node(a[i], b[i]));
        }
        lemma_same_forest_from(a.drop_last(), b.drop_last());
        assert(same_node(a[a.len() - 1], b[b.len() - 1]));
    }
}

proof fn lemma_same_node_width(a: HelpNode, b: HelpNode)
    requires
        same_node(a, b),
    ensures
        node_width(a) == node_width(b),
    decreases a, 0nat,
{
    assert(decreases_to!(a => a.children));
    lemma_same_forest_width(a.children@, b.children@);
}

proof fn lemma_same_forest_width(a: Seq<HelpNode>, b: Seq<HelpNode>)
    requires
        same_forest(a, b),
    ensures
        forest_width(a) == forest_width(b),
    decreases a, 1nat,
{
    if a.len() > 0 {
        lemma_same_forest_width(a.drop_last(), b.drop_last());
        lemma_same_node_width(a.last(), b.last());
    }
}

proof fn lemma_same_node_lines(a: HelpNode, b: HelpNode, prefix: Seq<char>, last: bool, width: nat)
    requires
        same_node(a, b),
    ensures
        node_lines(a, prefix, last, width) == node_lines(b, prefix, last, width),
    decreases a, 0nat,
{
    assert(decreases_to!(a => a.children));
    lemma_same_forest_len(a.children@, b.children@);
    lemma_same_forest_lines(
        a.children@,
        b.children@,
        prefix + (if last { "   "@ } else { "│  "@ }),
        width,
        a.children@.len(),
    );
}

proof fn lemma_same_forest_lines(a: Seq<HelpNode>, b: Seq<HelpNode>, prefix: Seq<char>, width: nat, k: nat)
    requires
        same_forest(a, b),
    ensures
        forest_lines(a, prefix, width, k) == forest_lines(b, prefix, width, k),
    decreases a, k,
{
    lemma_same_forest_len(a, b);
    if k == 0 || k > a.len() {
    } else {
        lemma_same_forest_lines(a, b, prefix, width, (k - 1) as nat);
        lemma_same_forest_at(a, b, k - 1);
        lemma_same_node_lines(a[k - 1], b[k - 1], prefix, k == a.len(), width);
    }
}

/// Forests that show the same render the same text.
proof fn lemma_same_forest_text(title: Seq<char>, a: Seq<HelpNode>, b: Seq<HelpNode>)
    requires
        same_forest(a, b),
    ensures
        tree_text(title, a) == tree_text(title, b),
{
    lemma_same_forest_len(a, b);
    lemma_same_forest_width(a, b);
    lemma_same_forest_lines(a, b, Seq::empty(), forest_width(a), a.len());
}

proof fn lemma_same_node_refl(a: HelpNode)
    ensures
        same_node(a, a),
    decreases a, 0nat,
{
    assert(decreases_to!(a => a.children));
    lemma_same_forest_refl(a.children@);
}

proof fn lemma_same_forest_refl(a: Seq<HelpNode>)
    ensures
        same_forest(a, a),
    decreases a, 1nat,
{
    if a.len() > 0 {
        lemma_same_forest_refl(a.drop_last());
        lemma_same_node_refl(a.last());
    }
}

/// Inserting a command into forests that show the same gives forests that
/// show the same.
proof fn lemma_inserted_same<H>(b1: Seq<HelpNode>, a1: Seq<HelpNode>, b2: Seq<HelpNode>, a2: Seq<HelpNode>, c: RegisteredCommand<H>, depth: nat)
    requires
        same_forest(b1, b2),
        inserted(b1, a1, c, depth),
        inserted(b2, a2, c, depth),
    ensures
        same_forest(a1, a2),
    decreases path_of(c).len() - depth,
{
    let l = label_at(c, depth as int);
    let leaf = depth + 1 == path_of(c).len();
    lemma_same_forest_len(b1, b2);
    assert forall|j: int| 0 <= j < b1.len() implies (#[trigger] b1[j]).label@ == b2[j].label@ by {
        lemma_same_forest_at(b1, b2, j);
    }
    if exists|i: int| 0 <= i < b1.len() && (#[trigger] b1[i]).label@ == l {
        let w = choose|i: int| 0 <= i < b1.len() && (#[trigger] b1[i]).label@ == l;
        assert(b2[w].label@ == l);
        let i1 = choose|i: int| 0 <= i < b1.len() && (#[trigger] b1[i]).label@ == l && forall|j: int| 0 <= j < i ==> (#[trigger] b1[j]).label@ != l;
        let i2 = choose|i: int| 0 <= i < b2.len() && (#[trigger] b2[i]).label@ == l && forall|j: int| 0 <= j < i ==> (#[trigger] b2[j]).label@ != l;
        assert(exists|i: int| 0 <= i < b1.len() && (#[trigger] b1[i]).label@ == l && forall|j: int| 0 <= j < i ==> (#[trigger] b1[j]).label@ != l) by {
            lemma_first_label(b1, l, w);
        }
        assert(exists|i: int| 0 <= i < b2.len() && (#[trigger] b2[i]).label@ == l && forall|j: int| 0 <= j < i ==> (#[trigger] b2[j]).label@ != l) by {
            lemma_first_label(b2, l, w);
        }
        if i1 < i2 {
            assert(b2[i1].label@ == b1[i1].label@);
        } else if i2 < i1 {
            assert(b1[i2].label@ == b2[i2].label@);
        }
        assert(i1 == i2);
        assert forall|j: int| 0 <= j < a1.len() implies same_node(#[trigger] a1[j], a2[j]) by {
            lemma_same_forest_at(b1, b2, j);
            if j == i1 {
                if leaf {
                    lemma_same_forest_at(b1, b2, j);
                } else {
                    lemma_inserted_same(b1[j].children@, a1[j].children@, b2[j].children@, a2[j].children@, c, depth + 1);
                }
            }
        }
        lemma_same_forest_from(a1, a2);
    } else {
        assert(!exists|i: int| 0 <= i < b2.len() && (#[trigger] b2[i]).label@ == l) by {
            if exists|i: int| 0 <= i < b2.len() && (#[trigger] b2[i]).label@ == l {
                let w = choose|i: int| 0 <= i < b2.len() && (#[trigger] b2[i]).label@ == l;
                assert(b1[w].label@ == l);
            }
        }
        let n = b1.len() as int;
        assert forall|j: int| 0 <= j < a1.len() implies same_node(#[trigger] a1[j], a2[j]) by {
            if j < n {
                lemma_same_forest_at(b1, b2, j);
                assert(a1[j] == b1[j] && a2[j] == b2[j]);
            } else {
                assert(a1[j] == a1.last() && a2[j] == a2.last());
                if !leaf {
                    lemma_same_forest_refl(Seq::<HelpNode>::empty());
                    lemma_inserted_same(Seq::empty(), a1.last().children@, Seq::empty(), a2.last().children@, c, depth + 1);
                    assert(a1.last().description@ =~= a2.last().description@);
                } else {
                    assert(same_forest(a1.last().children@, a2.last().children@));
                }
                assert(same_node(a1[j], a2[j]));
            }
        }
        lemma_same_forest_from(a1, a2);
    }
}

proof fn lemma_first_label(b: Seq<HelpNode>, l: Seq<char>, w: int)
    requires
        0 <= w < b.len(),
        b[w].label@ == l,
    ensures
        exists|i: int| 0 <= i < b.len() && (#[trigger] b[i]).label@ == l && forall|j: int| 0 <= j < i ==> (#[trigger] b[j]).label@ != l,
    decreases w,
{
    if exists|j: int| 0 <= j < w && (#[trigger] b[j]).label@ == l {
        let v = choose|j: int| 0 <= j < w && (#[trigger] b[j]).label@ == l;
        lemma_first_label(b, l, v);
    } else {
        assert(forall|j: int| 0 <= j < w ==> (#[trigger] b[j]).label@ != l);
    }
}

/// Two trees built from the same commands for the same path show the same.
proof fn lemma_built_same<H>(cmds: Seq<RegisteredCommand<H>>, path: Seq<Seq<char>>, n1: Seq<HelpNode>, n2: Seq<HelpNode>)
    requires
        built(cmds, path, n1),
        built(cmds, path, n2),
    ensures
        same_forest(n1, n2),
    decreases cmds.len(),
{
    if cmds.len() == 0 {
    } else if listed(cmds.last(), path) {
        let p1 = choose|prev: Seq<HelpNode>| #![trigger inserted(prev, n1, cmds.last(), 0)]
            built(cmds.drop_last(), path, prev) && inserted(prev, n1, cmds.last(), 0);
        let p2 = choose|prev: Seq<HelpNode>| #![trigger inserted(prev, n2, cmds.last(), 0)]
            built(cmds.drop_last(), path, prev) && inserted(prev, n2, cmds.last(), 0);
        lemma_built_same(cmds.drop_last(), path, p1, p2);
        lemma_inserted_same(p1, n1, p2, n2, cmds.last(), 0);
    } else {
        lemma_built_same(cmds.drop_last(), path, n1, n2);
    }
}

/// The help for a path is one text: any two texts that are the help of the
/// same commands for the same path are equal.
pub proof fn lemma_help_text_unique<H>(cmds: Seq<RegisteredCommand<H>>, path: Seq<Seq<char>>, a: Seq<char>, b: Seq<char>)
    requires
        help_text(cmds, path, a),
        help_text(cmds, path, b),
    ensures
        a == b,
{
    let n1 = choose|nodes: Seq<HelpNode>| built(cmds, path, nodes) && a == tree_text(help_title(path), nodes);
    let n2 = choose|nodes: Seq<HelpNode>| built(cmds, path, nodes) && b == tree_text(help_title(path), nodes);
    lemma_built_same(cmds, path, n1, n2);
    lemma_same_forest_text(help_title(path), n1, n2);
}

fn command_label<H>(command: &RegisteredCommand<H>, depth: usize) -> (l: String)
    requires
        depth < command.path@.len(),
    ensures
        l@ == label_at(*command, depth as int),
{
    let n = command.path.len();
    if depth != n - 1 {
        return command.path[depth].clone();
    }
    let usage = split_whitespace_text(command.usage.as_str());
    if usage.len() <= depth {
        return command.path[depth].clone();
    }
    let mut tail: Vec<String> = Vec::new();
    let mut k: usize = depth;
    while k < usage.len()
        invariant
            depth <= k <= usage@.len(),
            views(tail@) == views(usage@).subrange(depth as int, k as int),
        decreases usage.len() - k,
    {
        let w = usage[k].clone();
        let ghost before = tail@;
        tail.push(w);
        proof {
            lemma_views_push(before, w);
            assert(views(usage@).subrange(depth as int, k + 1) =~= views(usage@).subrange(depth as int, k as int).push(usage@[k as int]@));
        }
        k = k + 1;
    }
    assert(views(usage@).subrange(depth as int, usage@.len() as int) =~= views(usage@).skip(depth as int));
    join_strings(&tail, " ")
}

fn find_label(nodes: &Vec<HelpNode>, label: &String) -> (r: Option<usize>)
    ensures
        match r {
            Some(i) => i < nodes@.len() && nodes@[i as int].label@ == label@ && forall|j: int| 0 <= j < i ==> (#[trigger] nodes@[j]).label@ != label@,
            None => forall|j: int| 0 <= j < nodes@.len() ==> (#[trigger] nodes@[j]).label@ != label@,
        },
{
    let mut i: usize = 0;
    while i < nodes.len()
        invariant
            i <= nodes@.len(),
            forall|j: int| 0 <= j < i ==> (#[trigger] nodes@[j]).label@ != label@,
        decreases nodes.len() - i,
    {
        if crate::text::text_eq(nodes[i].label.as_str(), label.as_str()) {
            return Some(i);
        }
        i = i + 1;
    }
    None
}

/// Inserts a command into the help tree from `depth` on.
fn insert_command<H>(nodes: &mut Vec<HelpNode>, command: &RegisteredCommand<H>, depth: usize)
    requires
        depth < command.path@.len(),
    ensures
        inserted(old(nodes)@, final(nodes)@, *command, depth as nat),
    decreases command.path@.len() - depth,
{
    let label = command_label(command, depth);
    let n = command.path.len();
    let leaf = depth == n - 1;
    let ghost before = nodes@;
    let ghost l = label@;
    match find_label(nodes, &label) {
        Some(i) => {
            proof {
                assert(before[i as int].label@ == l);
                let c = choose|c: int| 0 <= c < before.len() && (#[trigger] before[c]).label@ == l && forall|j: int| 0 <= j < c ==> (#[trigger] before[j]).label@ != l;
                if c < i {
                } else if c > i {
                    assert(before[i as int].label@ != l);
                }
            }
            let mut node = HelpNode { label: String::new(), description: String::new(), children: Vec::new() };
            std::mem::swap(&mut node, &mut nodes[i]);
            let ghost old_node = node;
            if leaf {
                node.description = command.description.clone();
            } else {
                insert_command(&mut node.children, command, depth + 1);
            }
            std::mem::swap(&mut node, &mut nodes[i]);
            proof {
                assert(nodes@ == before.update(i as int, nodes@[i as int]));
                assert(old_node == before[i as int]);
            }
        },
        None => {
            let mut node = HelpNode { label, description: String::new(), children: Vec::new() };
            if leaf {
                node.description = command.description.clone();
            } else {
                insert_command(&mut node.children, command, depth + 1);
            }
            nodes.push(node);
            proof {
                assert(nodes@.last() == node);
                assert forall|j: int| 0 <= j < before.len() implies nodes@[j] == before[j] by {}
            }
        },
    }
}

fn forest_label_width(nodes: &Vec<HelpNode>) -> (w: usize)
    ensures
        w == forest_width(nodes@),
    decreases nodes@,
{
    let mut w: usize = 0;
    let mut i: usize = 0;
    assert(nodes@.take(0) =~= Seq::<HelpNode>::empty());
    while i < nodes.len()
        invariant
            i <= nodes@.len(),
            w == forest_width(nodes@.take(i as int)),
        decreases nodes.len() - i,
    {
        let n = &nodes[i];
        proof {
            assert(decreases_to!(nodes@ => nodes@[i as int]));
        }
        let inner = node_label_width(n);
        assert(nodes@.take(i + 1).drop_last() =~= nodes@.take(i as int));
        w = if w >= inner {
            w
        } else {
            inner
        };
        i = i + 1;
    }
    assert(nodes@.take(nodes@.len() as int) =~= nodes@);
    w
}

fn node_label_width(n: &HelpNode) -> (w: usize)
    ensures
        w == node_width(*n),
    decreases *n,
{
    proof {
        assert(decreases_to!(*n => n.children));
        assert(decreases_to!(n.children => n.children@));
    }
    let own = byte_length(n.label.as_str());
    let inner = forest_label_width(&n.children);
    if own >= inner {
        own
    } else {
        inner
    }
}

fn render_node(n: &HelpNode, prefix: &String, last: bool, width: usize, lines: &mut Vec<String>)
    ensures
        views(final(lines)@) == views(old(lines)@) + node_lines(*n, prefix@, last, width as nat),
    decreases *n, 0nat,
{
    let mut line = prefix.clone();
    if last {
        push_str(&mut line, "└─ ");
    } else {
        push_str(&mut line, "├─ ");
    }
    push_str(&mut line, pad_right_text(n.label.as_str(), width).as_str());
    push_str(&mut line, "  ");
    push_str(&mut line, n.description.as_str());
    let ghost start = lines@;
    lines.push(line);
    proof {
        lemma_views_push(start, line);
    }
    let mut child_prefix = prefix.clone();
    if last {
        push_str(&mut child_prefix, "   ");
    } else {
        push_str(&mut child_prefix, "│  ");
    }
    proof {
        assert(decreases_to!(*n => n.children));
        assert(decreases_to!(n.children => n.children@));
    }
    render_forest(&n.children, &child_prefix, width, lines, n.children.len());
}

fn render_forest(nodes: &Vec<HelpNode>, prefix: &String, width: usize, lines: &mut Vec<String>, k: usize)
    requires
        k <= nodes@.len(),
    ensures
        views(final(lines)@) == views(old(lines)@) + forest_lines(nodes@, prefix@, width as nat, k as nat),
    decreases nodes@, k,
{
    if k == 0 {
        assert(views(lines@) =~= views(lines@) + Seq::<Seq<char>>::empty());
        return;
    }
    let ghost start = views(lines@);
    render_forest(nodes, prefix, width, lines, k - 1);
    proof {
        assert(decreases_to!(nodes@ => nodes@[k - 1]));
    }
    render_node(&nodes[k - 1], prefix, k == nodes.len(), width, lines);
    assert(views(lines@) =~= start + forest_lines(nodes@, prefix@, width as nat, k as nat));
}

fn render_tree(title: &String, nodes: &Vec<HelpNode>) -> (s: String)
    ensures
        s@ == tree_text(title@, nodes@),
{
    let width = forest_label_width(nodes);
    let mut lines: Vec<String> = Vec::new();
    lines.push(title.clone());
    assert(views(lines@) =~= seq![title@]);
    let empty = String::new();
    render_forest(nodes, &empty, width, &mut lines, nodes.len());
    join_strings(&lines, "\n")
}

fn help_title_text(path: &Vec<String>) -> (t: String)
    ensures
        t@ == help_title(views(path@)),
{
    if path.len() == 0 {
        return owned("Command Console");
    }
    let mut t = owned("Commands: ");
    push_str(&mut t, join_strings(path, " ").as_str());
    t
}

fn path_matches(command_path: &Vec<String>, path: &Vec<String>) -> (r: bool)
    ensures
        r == (path@.len() == 0 || is_prefix(views(path@), views(command_path@))),
{
    if path.len() == 0 {
        return true;
    }
    if command_path.len() < path.len() {
        return false;
    }
    let mut i: usize = 0;
    while i < path.len()
        invariant
            i <= path@.len(),
            path@.len() <= command_path@.len(),
            forall|j: int| 0 <= j < i ==> path@[j]@ == command_path@[j]@,
        decreases path.len() - i,
    {
        if !crate::text::text_eq(path[i].as_str(), command_path[i].as_str()) {
            assert(views(path@)[i as int] != views(command_path@)[i as int]);
            return false;
        }
        i = i + 1;
    }
    true
}

/// The help tree of the visible commands under `path`.
pub fn command_help<H>(commands: &Vec<RegisteredCommand<H>>, path: &Vec<String>) -> (s: String)
    requires
        forall|i: int| 0 <= i < commands@.len() ==> (#[trigger] commands@[i]).path@.len() > 0,
    ensures
        help_text(commands@, views(path@), s@),
{
    let ghost p = views(path@);
    let mut nodes: Vec<HelpNode> = Vec::new();
    let mut i: usize = 0;
    assert(commands@.take(0) =~= Seq::<RegisteredCommand<H>>::empty());
    while i < commands.len()
        invariant
            i <= commands@.len(),
            p == views(path@),
            forall|j: int| 0 <= j < commands@.len() ==> (#[trigger] commands@[j]).path@.len() > 0,
            built(commands@.take(i as int), p, nodes@),
        decreases commands.len() - i,
    {
        let c = &commands[i];
        assert(commands@.take(i + 1).drop_last() =~= commands@.take(i as int));
        assert(commands@.take(i + 1).last() == *c);
        let ghost prev = nodes@;
        if c.scope.allows_console() && c.visible && path_matches(&c.path, path) {
            insert_command(&mut nodes, c, 0);
            assert(built(commands@.take(i + 1), p, nodes@)) by {
                assert(built(commands@.take(i as int), p, prev) && inserted(prev, nodes@, *c, 0));
            }
        }
        i = i + 1;
    }
    assert(commands@.take(commands@.len() as int) =~= commands@);
    let title = help_title_text(path);
    let s = render_tree(&title, &nodes);
    assert(built(commands@, p, nodes@) && s@ == tree_text(help_title(p), nodes@));
    s
}

/// The panel text of an error message.
pub open spec fn error_panel(message: Seq<char>) -> Seq<char> {
    panel_text("Error"@, seq![("message"@, message)], Seq::empty())
}

/// The console's output for a failed command.
pub fn error_output(message: &str) -> (o: CommandOutput)
    ensures
        o.summary@ == "error="@ + message@,
        o.rendered@ == error_panel(message@),
{
    let mut summary = owned("error=");
    push_str(&mut summary, message);
    let fields = vec![(owned("message"), owned(message))];
    let tables: Vec<Table> = Vec::new();
    assert(fields_view(fields@) =~= seq![("message"@, message@)]);
    assert(tables_view(tables@) =~= Seq::<TableView>::empty());
    CommandOutput { summary, rendered: render_panel("Error", fields, tables) }
}

/// The console's output for `exit`: how to stop the process.
pub fn exit_output() -> (o: CommandOutput)
    ensures
        o.summary@ == "console=quit"@,
        o.rendered@ == panel_text("Console"@, seq![("message"@, "press Ctrl+C to stop this process"@)], Seq::empty()),
{
    let fields = vec![(owned("message"), owned("press Ctrl+C to stop this process"))];
    let tables: Vec<Table> = Vec::new();
    assert(fields_view(fields@) =~= seq![("message"@, "press Ctrl+C to stop this process"@)]);
    assert(tables_view(tables@) =~= Seq::<TableView>::empty());
    CommandOutput { summary: owned("console=quit"), rendered: render_panel("Console", fields, tables) }
}

/// Whether every registered command has a path.
pub open spec fn paths_nonempty<H>(cmds: Seq<RegisteredCommand<H>>) -> bool {
    forall|i: int| 0 <= i < cmds.len() ==> (#[trigger] cmds[i]).path@.len() > 0
}

impl<H> CommandRegistry<H> {
    /// The help tree under the given path (all commands for an empty path).
    pub fn help_output(&self, args: &Vec<String>) -> (s: String)
        requires
            paths_nonempty(self.commands@),
        ensures
            help_text(self.commands@, views(args@), s@),
    {
        command_help(&self.commands, args)
    }
}

/// The output of the `help` command: the tree under the given path.
pub fn help<H, S>(context: &CommandContext<'_, H, S>, args: &Vec<String>) -> (r: Result<CommandOutput, HyperError>)
    requires
        paths_nonempty(context.registry.commands@),
    ensures
        r matches Ok(o) && o.summary@ == "console=help"@ && help_text(context.registry.commands@, views(args@), o.rendered@),
{
    Ok(CommandOutput { summary: owned("console=help"), rendered: command_help(&context.registry.commands, args) })
}

/// Help scoped to a fixed command path, whatever the arguments.
pub fn scoped_help<H, S>(context: &CommandContext<'_, H, S>, args: &Vec<String>, path: &Vec<String>) -> (r: Result<CommandOutput, HyperError>)
    requires
        paths_nonempty(context.registry.commands@),
    ensures
        r matches Ok(o) && o.summary@ == "console=help"@ && help_text(context.registry.commands@, views(path@), o.rendered@),
{
    Ok(CommandOutput { summary: owned("console=help"), rendered: command_help(&context.registry.commands, path) })
}

} // verus!
