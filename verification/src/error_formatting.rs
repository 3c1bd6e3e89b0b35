//! Builds a dependency tree per finalized entry (check interface, consumer
//! interfaces, providers, getters and fields) and renders entries as
//! framework-aware diagnostics.  Diamond dependencies are flattened: a
//! consumer interface that was already fully expanded in the same tree is
//! emitted as a reference leaf instead of being expanded again.

use vstd::prelude::*;
use vstd::string::*;
use crate::cgp_diagnostic::{CgpDiagnostic, NamedSourceText, SpanLabel};
use crate::cgp_patterns::{
    component_info_of, spec_derive_provider_trait_name, spec_strip_module_prefixes,
    strip_module_prefixes, strip_module_prefixes_chars, ComponentInfo, ComponentInfoV,
    FieldInfo, FieldInfoV, ProviderRelationship, ProviderRelationshipV,
    derive_provider_trait_name,
};
use crate::diagnostic_db::{DiagnosticEntry, DiagnosticEntryV};
use crate::root_cause::{
    deduplicate_delegation_notes, deduplicate_provider_relationships, is_contained_chars,
    spec_dedup_notes, spec_dedup_rels, spec_is_contained,
};
use crate::text::{
    alphanumeric_like, chars_to_string, comma_from, comma_at_depth, close_from, close_pos,
    contains_pat, contains_sub, find_char_at, find_char_from, find_from, find_pat,
    find_pat_from, find_sub, match_at, opt_idx, opt_str, opt_view, strs_of, subvec, to_char_vec,
    trim_chars, trim_spec, uppercase_like, char_is_uppercase, views_of,
};

verus! {

/// The kind of a requirement node.
#[derive(Clone, Copy, PartialEq, Eq, Structural, Debug)]
pub enum NodeKind {
    Check,
    Consumer,
    Provider,
    Getter,
    Field,
}

/// One node of the requirement tree: a description, a kind tag, the
/// consumer-interface name for consumer nodes, an optional satisfied flag,
/// a reference flag for subtrees already shown elsewhere, and ordered
/// children.
#[derive(Debug)]
pub struct DependencyNode {
    pub description: String,
    pub kind: NodeKind,
    pub name: Option<String>,
    pub is_satisfied: Option<bool>,
    pub is_reference: bool,
    pub children: Vec<DependencyNode>,
}

/// The consumer-interface names that are fully expanded (not mere
/// references) in this node's subtree, children first, the node's own name
/// last.
pub open spec fn expanded_names(n: DependencyNode) -> Seq<Seq<char>>
    decreases n, 0int,
{
    let own: Seq<Seq<char>> = if n.kind == NodeKind::Consumer && !n.is_reference {
        match n.name {
            Some(t) => seq![t@],
            None => Seq::empty(),
        }
    } else {
        Seq::empty()
    };
    expanded_names_seq(n.children@, 0) + own
}

/// The expanded consumer-interface names of a list of subtrees, in order.
pub open spec fn expanded_names_seq(s: Seq<DependencyNode>, k: int) -> Seq<Seq<char>>
    decreases s, s.len() - k + 1,
    when 0 <= k <= s.len()
{
    if k >= s.len() {
        Seq::empty()
    } else {
        expanded_names(s[k]) + expanded_names_seq(s, k + 1)
    }
}

/// No name occurs twice.
pub open spec fn no_dup(names: Seq<Seq<char>>) -> bool {
    forall|i: int, j: int| 0 <= i < j < names.len() ==> names[i] != names[j]
}

proof fn lemma_expanded_push(s: Seq<DependencyNode>, x: DependencyNode, k: int)
    requires
        0 <= k <= s.len(),
    ensures
        expanded_names_seq(s.push(x), k) == expanded_names_seq(s, k) + expanded_names(x),
    decreases s.len() - k,
{
    let s2 = s.push(x);
    if k >= s.len() {
        assert(s2[k] == x);
        assert(expanded_names_seq(s2, k + 1) =~= Seq::<Seq<char>>::empty());
        assert(expanded_names_seq(s2, k) =~= expanded_names_seq(s, k) + expanded_names(x));
    } else {
        lemma_expanded_push(s, x, k + 1);
        assert(s2[k] == s[k]);
        assert(expanded_names_seq(s2, k) =~= expanded_names_seq(s, k) + expanded_names(x));
    }
}

/// Ghost shape of a requirement node: the same structure as the node, over
/// mathematical values, so that contracts can speak of whole trees.
#[verifier::ext_equal]
pub struct NodeShape {
    pub description: Seq<char>,
    pub kind: NodeKind,
    pub name: Option<Seq<char>>,
    pub is_satisfied: Option<bool>,
    pub is_reference: bool,
    pub children: Seq<NodeShape>,
}

/// The shape of a node.
pub open spec fn shape_of(n: DependencyNode) -> NodeShape
    decreases n, 0int,
{
    NodeShape {
        description: n.description@,
        kind: n.kind,
        name: opt_str(n.name),
        is_satisfied: n.is_satisfied,
        is_reference: n.is_reference,
        children: shapes_from(n.children@, 0),
    }
}

/// The shapes of the nodes of a list from index `k` on.
pub open spec fn shapes_from(s: Seq<DependencyNode>, k: int) -> Seq<NodeShape>
    decreases s, s.len() - k + 1,
    when 0 <= k <= s.len()
{
    if k >= s.len() {
        Seq::empty()
    } else {
        seq![shape_of(s[k])] + shapes_from(s, k + 1)
    }
}

/// The shapes of a node list.
pub open spec fn shapes_of(s: Seq<DependencyNode>) -> Seq<NodeShape> {
    shapes_from(s, 0)
}

proof fn lemma_shapes_singleton(s: Seq<DependencyNode>)
    requires
        s.len() == 1,
    ensures
        shapes_from(s, 0) == seq![shape_of(s[0])],
{
    assert(shapes_from(s, 1) =~= Seq::<NodeShape>::empty());
    assert(shapes_from(s, 0) =~= seq![shape_of(s[0])]);
}

proof fn lemma_shapes_from(s: Seq<DependencyNode>, k: int)
    requires
        0 <= k <= s.len(),
    ensures
        shapes_from(s, k).len() == s.len() - k,
        forall|i: int| 0 <= i < s.len() - k ==> shapes_from(s, k)[i] == shape_of(s[k + i]),
    decreases s.len() - k,
{
    if k < s.len() {
        lemma_shapes_from(s, k + 1);
        assert forall|i: int| 0 <= i < s.len() - k implies shapes_from(s, k)[i] == shape_of(
            s[k + i],
        ) by {
            if i > 0 {
                assert(shapes_from(s, k)[i] == shapes_from(s, k + 1)[i - 1]);
            }
        }
    }
}

/// The shapes of a list, element by element.
pub proof fn lemma_shapes_index(s: Seq<DependencyNode>)
    ensures
        shapes_of(s).len() == s.len(),
        forall|i: int| 0 <= i < s.len() ==> shapes_of(s)[i] == shape_of(#[trigger] s[i]),
{
    lemma_shapes_from(s, 0);
}

/// The shapes of concatenated lists are the concatenated shapes.
proof fn lemma_shapes_concat(a: Seq<DependencyNode>, b: Seq<DependencyNode>)
    ensures
        shapes_of(a + b) == shapes_of(a) + shapes_of(b),
{
    lemma_shapes_index(a);
    lemma_shapes_index(b);
    lemma_shapes_index(a + b);
    assert forall|i: int| 0 <= i < a.len() + b.len() implies shapes_of(a + b)[i] == (shapes_of(
        a,
    ) + shapes_of(b))[i] by {
        if i < a.len() {
            assert((a + b)[i] == a[i]);
        } else {
            assert((a + b)[i] == b[i - a.len()]);
        }
    }
    assert(shapes_of(a + b) =~= shapes_of(a) + shapes_of(b));
}

/// The expanded consumer-interface names of a shape's subtree, children
/// first, the shape's own name last.
pub open spec fn shape_names(sh: NodeShape) -> Seq<Seq<char>>
    decreases sh, 0int,
{
    let own: Seq<Seq<char>> = if sh.kind == NodeKind::Consumer && !sh.is_reference {
        match sh.name {
            Some(t) => seq![t],
            None => Seq::empty(),
        }
    } else {
        Seq::empty()
    };
    shape_names_seq(sh.children, 0) + own
}

/// The expanded names of a list of shapes, in order.
pub open spec fn shape_names_seq(cs: Seq<NodeShape>, k: int) -> Seq<Seq<char>>
    decreases cs, cs.len() - k + 1,
    when 0 <= k <= cs.len()
{
    if k >= cs.len() {
        Seq::empty()
    } else {
        shape_names(cs[k]) + shape_names_seq(cs, k + 1)
    }
}

/// A node's expanded names are its shape's expanded names.
proof fn lemma_names_shape(n: DependencyNode)
    ensures
        expanded_names(n) == shape_names(shape_of(n)),
    decreases n, 1int,
{
    lemma_names_shape_seq(n.children@, 0);
    assert(expanded_names(n) =~= shape_names(shape_of(n)));
}

proof fn lemma_names_shape_seq(cs: Seq<DependencyNode>, k: int)
    requires
        0 <= k <= cs.len(),
    ensures
        expanded_names_seq(cs, k) == shape_names_seq(shapes_of(cs), k),
    decreases cs, cs.len() - k + 2,
{
    lemma_shapes_from(cs, 0);
    if k < cs.len() {
        lemma_names_shape(cs[k]);
        lemma_names_shape_seq(cs, k + 1);
        assert(shapes_of(cs)[k] == shape_of(cs[k]));
        assert(expanded_names_seq(cs, k) =~= shape_names_seq(shapes_of(cs), k));
    } else {
        assert(expanded_names_seq(cs, k) =~= shape_names_seq(shapes_of(cs), k));
    }
}

/// The annotation rendered after a node's description, naming its kind.
pub open spec fn spec_kind_annot(kind: NodeKind) -> Seq<char> {
    match kind {
        NodeKind::Check => " (check trait)"@,
        NodeKind::Consumer => " (consumer trait)"@,
        NodeKind::Provider => " (provider trait)"@,
        NodeKind::Getter => " (getter trait)"@,
        NodeKind::Field => Seq::empty(),
    }
}

fn push_kind_annot(line: &mut String, kind: NodeKind)
    ensures
        final(line)@ == old(line)@ + spec_kind_annot(kind),
{
    match kind {
        NodeKind::Check => line.append(" (check trait)"),
        NodeKind::Consumer => line.append(" (consumer trait)"),
        NodeKind::Provider => line.append(" (provider trait)"),
        NodeKind::Getter => line.append(" (getter trait)"),
        NodeKind::Field => {
            proof {
                assert(old(line)@ + Seq::<char>::empty() =~= old(line)@);
            }
        },
    }
}

/// The line rendered for one node.
pub open spec fn spec_node_line(
    n: DependencyNode,
    prefix: Seq<char>,
    is_last: bool,
    is_root: bool,
) -> Seq<char> {
    if is_root {
        n.description@ + spec_kind_annot(n.kind)
    } else {
        let branch: Seq<char> = if is_last {
            "└─"@
        } else {
            "├─"@
        };
        let sat: Seq<char> = match n.is_satisfied {
            Some(true) => " ✓"@,
            Some(false) => " ✗"@,
            None => Seq::empty(),
        };
        let refm: Seq<char> = if n.is_reference {
            " (*)"@
        } else {
            Seq::empty()
        };
        prefix + branch + " "@ + n.description@ + spec_kind_annot(n.kind) + sat + refm
    }
}

/// The lines rendered for a node's subtree, depth first.
pub open spec fn spec_render_tree(
    n: DependencyNode,
    prefix: Seq<char>,
    is_last: bool,
    is_root: bool,
) -> Seq<Seq<char>>
    decreases n, 0int,
{
    let line = spec_node_line(n, prefix, is_last, is_root);
    if n.is_reference {
        seq![line]
    } else {
        let child_prefix: Seq<char> = if is_root {
            prefix
        } else if is_last {
            prefix + "   "@
        } else {
            prefix + "│  "@
        };
        seq![line] + spec_render_children(n.children@, 0, child_prefix)
    }
}

/// The lines rendered for a list of sibling subtrees.
pub open spec fn spec_render_children(
    cs: Seq<DependencyNode>,
    k: int,
    prefix: Seq<char>,
) -> Seq<Seq<char>>
    decreases cs, cs.len() - k + 1,
    when 0 <= k <= cs.len()
{
    if k >= cs.len() {
        Seq::empty()
    } else {
        spec_render_tree(cs[k], prefix, k == cs.len() - 1, false) + spec_render_children(
            cs,
            k + 1,
            prefix,
        )
    }
}

/// The line rendered for one node shape.
pub open spec fn spec_shape_line(
    sh: NodeShape,
    prefix: Seq<char>,
    is_last: bool,
    is_root: bool,
) -> Seq<char> {
    if is_root {
        sh.description + spec_kind_annot(sh.kind)
    } else {
        let branch: Seq<char> = if is_last {
            "└─"@
        } else {
            "├─"@
        };
        let sat: Seq<char> = match sh.is_satisfied {
            Some(true) => " ✓"@,
            Some(false) => " ✗"@,
            None => Seq::empty(),
        };
        let refm: Seq<char> = if sh.is_reference {
            " (*)"@
        } else {
            Seq::empty()
        };
        prefix + branch + " "@ + sh.description + spec_kind_annot(sh.kind) + sat + refm
    }
}

/// The lines rendered for a node shape's subtree, depth first.
pub open spec fn spec_render_shape(
    sh: NodeShape,
    prefix: Seq<char>,
    is_last: bool,
    is_root: bool,
) -> Seq<Seq<char>>
    decreases sh, 0int,
{
    let line = spec_shape_line(sh, prefix, is_last, is_root);
    if sh.is_reference {
        seq![line]
    } else {
        let child_prefix: Seq<char> = if is_root {
            prefix
        } else if is_last {
            prefix + "   "@
        } else {
            prefix + "│  "@
        };
        seq![line] + spec_render_shape_children(sh.children, 0, child_prefix)
    }
}

/// The lines rendered for a list of sibling shapes.
pub open spec fn spec_render_shape_children(
    cs: Seq<NodeShape>,
    k: int,
    prefix: Seq<char>,
) -> Seq<Seq<char>>
    decreases cs, cs.len() - k + 1,
    when 0 <= k <= cs.len()
{
    if k >= cs.len() {
        Seq::empty()
    } else {
        spec_render_shape(cs[k], prefix, k == cs.len() - 1, false) + spec_render_shape_children(
            cs,
            k + 1,
            prefix,
        )
    }
}

/// Rendering a node and rendering its shape give the same lines.
pub proof fn lemma_render_shape(n: DependencyNode, prefix: Seq<char>, is_last: bool, is_root: bool)
    ensures
        spec_render_tree(n, prefix, is_last, is_root) == spec_render_shape(
            shape_of(n),
            prefix,
            is_last,
            is_root,
        ),
    decreases n, 1int,
{
    assert(spec_shape_line(shape_of(n), prefix, is_last, is_root) == spec_node_line(
        n,
        prefix,
        is_last,
        is_root,
    ));
    if !n.is_reference {
        let child_prefix: Seq<char> = if is_root {
            prefix
        } else if is_last {
            prefix + "   "@
        } else {
            prefix + "│  "@
        };
        lemma_render_shape_children(n.children@, 0, child_prefix);
        assert(spec_render_tree(n, prefix, is_last, is_root) =~= spec_render_shape(
            shape_of(n),
            prefix,
            is_last,
            is_root,
        ));
    }
}

proof fn lemma_render_shape_children(cs: Seq<DependencyNode>, k: int, prefix: Seq<char>)
    requires
        0 <= k <= cs.len(),
    ensures
        spec_render_children(cs, k, prefix) == spec_render_shape_children(
            shapes_of(cs),
            k,
            prefix,
        ),
    decreases cs, cs.len() - k + 2,
{
    lemma_shapes_index(cs);
    if k < cs.len() {
        lemma_render_shape(cs[k], prefix, k == cs.len() - 1, false);
        lemma_render_shape_children(cs, k + 1, prefix);
        assert(shapes_of(cs)[k] == shape_of(cs[k]));
        assert(spec_render_children(cs, k, prefix) =~= spec_render_shape_children(
            shapes_of(cs),
            k,
            prefix,
        ));
    } else {
        assert(spec_render_children(cs, k, prefix) =~= spec_render_shape_children(
            shapes_of(cs),
            k,
            prefix,
        ));
    }
}

/// Renders a requirement tree with box-drawing branch glyphs; reference
/// nodes render with a trailing marker and no children.
#[verifier::loop_isolation(false)]
pub fn render_dependency_tree(
    node: &DependencyNode,
    prefix: &str,
    is_last: bool,
    is_root: bool,
) -> (r: Vec<String>)
    ensures
        strs_of(r@) == spec_render_tree(*node, prefix@, is_last, is_root),
    decreases *node,
{
    let mut line = String::new();
    if is_root {
        line.append(node.description.as_str());
        push_kind_annot(&mut line, node.kind);
        proof {
            assert(Seq::<char>::empty() + node.description@ =~= node.description@);
            assert(line@ =~= spec_node_line(*node, prefix@, is_last, is_root));
        }
    } else {
        line.append(prefix);
        if is_last {
            line.append("└─");
        } else {
            line.append("├─");
        }
        line.append(" ");
        line.append(node.description.as_str());
        push_kind_annot(&mut line, node.kind);
        match node.is_satisfied {
            Some(true) => line.append(" ✓"),
            Some(false) => line.append(" ✗"),
            None => {},
        }
        if node.is_reference {
            line.append(" (*)");
        }
        proof {
            assert(line@ =~= spec_node_line(*node, prefix@, is_last, is_root));
        }
    }
    let mut result: Vec<String> = Vec::new();
    result.push(line);
    if node.is_reference {
        proof {
            assert(strs_of(result@) =~= spec_render_tree(*node, prefix@, is_last, is_root));
        }
        return result;
    }
    let mut child_prefix = String::new();
    if is_root {
        child_prefix.append(prefix);
        proof {
            assert(child_prefix@ =~= prefix@);
        }
    } else if is_last {
        child_prefix.append(prefix);
        child_prefix.append("   ");
    } else {
        child_prefix.append(prefix);
        child_prefix.append("│  ");
    }
    proof {
        assert(Seq::<char>::empty() + prefix@ =~= prefix@);
    }
    let nc = node.children.len();
    let mut i: usize = 0;
    while i < nc
        invariant
            0 <= i <= nc,
            nc == node.children@.len(),
            strs_of(result@) =~= seq![
                spec_node_line(*node, prefix@, is_last, is_root),
            ] + spec_render_children_upto(node.children@, 0, i as int, child_prefix@),
        decreases nc - i,
    {
        let child_is_last = i == nc - 1;
        let mut sub = render_dependency_tree(&node.children[i], child_prefix.as_str(),
            child_is_last, false);
        let ghost pre_lines = strs_of(result@);
        let ghost sub_lines = strs_of(sub@);
        append_strings(&mut result, &mut sub);
        proof {
            assert(strs_of(result@) =~= pre_lines + sub_lines);
            lemma_render_children_upto_step(node.children@, i as int, child_prefix@);
            assert(strs_of(result@) =~= seq![
                spec_node_line(*node, prefix@, is_last, is_root),
            ] + spec_render_children_upto(node.children@, 0, i as int + 1, child_prefix@));
        }
        i += 1;
    }
    proof {
        lemma_render_children_upto_all(node.children@, child_prefix@);
        assert(strs_of(result@) =~= spec_render_tree(*node, prefix@, is_last, is_root));
    }
    result
}

/// The lines of the subtrees of the children with indices in `[k, m)`.
pub open spec fn spec_render_children_upto(
    cs: Seq<DependencyNode>,
    k: int,
    m: int,
    prefix: Seq<char>,
) -> Seq<Seq<char>>
    decreases cs, m - k + 1,
    when 0 <= k <= m <= cs.len()
{
    if k >= m {
        Seq::empty()
    } else {
        spec_render_tree(cs[k], prefix, k == cs.len() - 1, false) + spec_render_children_upto(
            cs,
            k + 1,
            m,
            prefix,
        )
    }
}

proof fn lemma_render_children_upto_step(cs: Seq<DependencyNode>, m: int, prefix: Seq<char>)
    requires
        0 <= m < cs.len(),
    ensures
        spec_render_children_upto(cs, 0, m + 1, prefix) == spec_render_children_upto(
            cs,
            0,
            m,
            prefix,
        ) + spec_render_tree(cs[m], prefix, m == cs.len() - 1, false),
{
    lemma_render_children_upto_step_from(cs, 0, m, prefix);
}

proof fn lemma_render_children_upto_step_from(
    cs: Seq<DependencyNode>,
    k: int,
    m: int,
    prefix: Seq<char>,
)
    requires
        0 <= k <= m < cs.len(),
    ensures
        spec_render_children_upto(cs, k, m + 1, prefix) == spec_render_children_upto(
            cs,
            k,
            m,
            prefix,
        ) + spec_render_tree(cs[m], prefix, m == cs.len() - 1, false),
    decreases m - k,
{
    if k == m {
        assert(spec_render_children_upto(cs, k, k, prefix) =~= Seq::<Seq<char>>::empty());
        assert(spec_render_children_upto(cs, k + 1, m + 1, prefix) =~= Seq::<Seq<
            char,
        >>::empty());
        assert(spec_render_children_upto(cs, k, m + 1, prefix) =~= spec_render_children_upto(
            cs,
            k,
            m,
            prefix,
        ) + spec_render_tree(cs[m], prefix, m == cs.len() - 1, false));
    } else {
        lemma_render_children_upto_step_from(cs, k + 1, m, prefix);
        assert(spec_render_children_upto(cs, k, m + 1, prefix) =~= spec_render_children_upto(
            cs,
            k,
            m,
            prefix,
        ) + spec_render_tree(cs[m], prefix, m == cs.len() - 1, false));
    }
}

proof fn lemma_render_children_upto_all(cs: Seq<DependencyNode>, prefix: Seq<char>)
    ensures
        spec_render_children_upto(cs, 0, cs.len() as int, prefix) == spec_render_children(
            cs,
            0,
            prefix,
        ),
{
    lemma_render_children_upto_all_from(cs, 0, prefix);
}

proof fn lemma_render_children_upto_all_from(cs: Seq<DependencyNode>, k: int, prefix: Seq<char>)
    requires
        0 <= k <= cs.len(),
    ensures
        spec_render_children_upto(cs, k, cs.len() as int, prefix) == spec_render_children(
            cs,
            k,
            prefix,
        ),
    decreases cs.len() - k,
{
    if k < cs.len() {
        lemma_render_children_upto_all_from(cs, k + 1, prefix);
    }
}

/// Moves the strings of `other` onto the end of `v`.
pub fn append_strings(v: &mut Vec<String>, other: &mut Vec<String>)
    ensures
        strs_of(final(v)@) == strs_of(old(v)@) + strs_of(old(other)@),
{
    let ghost pre = strs_of(v@);
    let ghost extra = strs_of(other@);
    v.append(other);
    proof {
        assert(strs_of(v@) =~= pre + extra);
    }
}

/// A basic identifier character for field names: ASCII alphanumeric,
/// underscore, hyphen, or the replacement character the compiler uses for
/// redacted characters.
pub open spec fn basic_identifier_char(c: char) -> bool {
    ('a' as u32 <= c as u32 && c as u32 <= 'z' as u32) || ('A' as u32 <= c as u32 && c as u32
        <= 'Z' as u32) || ('0' as u32 <= c as u32 && c as u32 <= '9' as u32) || c == '_' || c
        == '-' || c == '\u{FFFD}'
}

/// Whether the field name holds a character outside the basic identifier
/// set.
pub open spec fn spec_has_non_basic(s: Seq<char>) -> bool {
    exists|k: int| 0 <= k < s.len() && !basic_identifier_char(#[trigger] s[k])
}

/// Checks whether a field name holds non-basic identifier characters.
#[verifier::loop_isolation(false)]
pub fn has_non_basic_identifier_chars(field_name: &str) -> (r: bool)
    ensures
        r == spec_has_non_basic(field_name@),
{
    let v = to_char_vec(field_name);
    let n = v.len();
    let mut i: usize = 0;
    while i < n
        invariant
            0 <= i <= n,
            forall|k: int| 0 <= k < i ==> basic_identifier_char(#[trigger] v@[k]),
        decreases n - i,
    {
        let c = v[i];
        let cu = c as u32;
        let basic = (cu >= 'a' as u32 && cu <= 'z' as u32) || (cu >= 'A' as u32 && cu
            <= 'Z' as u32) || (cu >= '0' as u32 && cu <= '9' as u32) || c == '_' || c == '-'
            || c == '\u{FFFD}';
        if !basic {
            return true;
        }
        i += 1;
    }
    false
}

/// What `str::escape_default` returns for a string; the result depends on
/// the characters alone.
pub uninterp spec fn escaped_of(s: Seq<char>) -> Seq<char>;

/// Relies on `str::escape_default`: each character replaced by its
/// backslash-escaped form.
#[verifier::external_body]
fn escape_default_str(s: &str) -> (r: String)
    ensures
        r@ == escaped_of(s@),
{
    s.escape_default().to_string()
}

/// The display form of a field name: quoted and escaped when it holds
/// non-basic characters, unchanged otherwise.
pub open spec fn spec_format_field_name(s: Seq<char>) -> Seq<char> {
    if spec_has_non_basic(s) {
        "\""@ + escaped_of(s) + "\""@
    } else {
        s
    }
}

/// Formats a field name for display, escaping it like a string literal when
/// it holds special characters.
pub fn format_field_name(field_name: &str) -> (r: String)
    ensures
        r@ == spec_format_field_name(field_name@),
{
    if has_non_basic_identifier_chars(field_name) {
        let mut out = String::new();
        out.append("\"");
        let esc = escape_default_str(field_name);
        out.append(esc.as_str());
        out.append("\"");
        proof {
            assert(Seq::<char>::empty() + "\""@ =~= "\""@);
        }
        out
    } else {
        let v = to_char_vec(field_name);
        chars_to_string(&v)
    }
}

/// The capability name derived from a consumer-interface name: the part
/// after the conventional verb prefix, with the capability suffix appended.
pub open spec fn spec_derive_component_from_consumer(s: Seq<char>) -> Option<Seq<char>> {
    if s.len() >= "Can"@.len() && match_at(s, "Can"@, 0) {
        Some(s.subrange("Can"@.len() as int, s.len() as int) + "Component"@)
    } else {
        None
    }
}

/// Derives a capability name from a consumer-interface name.
pub fn derive_component_from_consumer_trait(consumer_trait: &str) -> (r: Option<String>)
    ensures
        opt_str(r) == spec_derive_component_from_consumer(consumer_trait@),
{
    let v = to_char_vec(consumer_trait);
    let pre = to_char_vec("Can");
    if pre.len() <= v.len() && crate::text::match_here(&v, &pre, 0) {
        let n = v.len();
        let rest = subvec(&v, pre.len(), n);
        let mut out = chars_to_string(&rest);
        out.append("Component");
        Some(out)
    } else {
        None
    }
}

/// The interface name quoted after a "to implement" phrase in a note, with
/// namespace prefixes removed; a relationship marker is reduced to its
/// capability part.
pub open spec fn spec_extract_trait_from_note(s: Seq<char>) -> Option<Seq<char>> {
    match find_sub(s, "to implement `"@) {
        Some(st) => {
            let a = st + "to implement `"@.len();
            match find_char_from(s, '`', a) {
                Some(e) => {
                    let cleaned = spec_strip_module_prefixes(s.subrange(a, e));
                    if cleaned.len() >= "IsProviderFor<"@.len() && match_at(
                        cleaned,
                        "IsProviderFor<"@,
                        0,
                    ) {
                        let ab = "IsProviderFor<"@.len() as int;
                        match find_char_from(cleaned, ',', ab) {
                            Some(cp) => Some(trim_spec(cleaned.subrange(ab, cp))),
                            None => None,
                        }
                    } else {
                        Some(cleaned)
                    }
                },
                None => None,
            }
        },
        None => None,
    }
}

/// Extracts the interface name a note says must be implemented.
pub fn extract_trait_from_note(note: &str) -> (r: Option<String>)
    ensures
        opt_str(r) == spec_extract_trait_from_note(note@),
{
    match extract_trait_from_note_chars(&to_char_vec(note)) {
        Some(t) => Some(chars_to_string(&t)),
        None => None,
    }
}

fn extract_trait_from_note_chars(text: &Vec<char>) -> (r: Option<Vec<char>>)
    ensures
        opt_view(r) == spec_extract_trait_from_note(text@),
{
    let pat = to_char_vec("to implement `");
    let n = text.len();
    match find_pat(text, &pat) {
        Some(st) => {
            let a = st + pat.len();
            match find_char_at(text, '`', a) {
                Some(e) => {
                    let raw = subvec(text, a, e);
                    let cleaned = strip_module_prefixes_chars(&raw);
                    let ipf = to_char_vec("IsProviderFor<");
                    let is_marker = if ipf.len() <= cleaned.len() {
                        crate::text::match_here(&cleaned, &ipf, 0)
                    } else {
                        false
                    };
                    if is_marker {
                        let ab = ipf.len();
                        let m = cleaned.len();
                        match find_char_at(&cleaned, ',', ab) {
                            Some(cp) => {
                                let part = subvec(&cleaned, ab, cp);
                                Some(trim_chars(&part))
                            },
                            None => None,
                        }
                    } else {
                        Some(cleaned)
                    }
                },
                None => None,
            }
        },
        None => None,
    }
}

/// A getter-interface name found in a note: an implemented interface whose
/// name starts with the accessor prefix.
pub open spec fn spec_extract_getter_trait(s: Seq<char>) -> Option<Seq<char>> {
    match spec_extract_trait_from_note(s) {
        Some(t) => if t.len() >= "Has"@.len() && match_at(t, "Has"@, 0) {
            Some(t)
        } else {
            None
        },
        None => None,
    }
}

/// Extracts a getter-interface name from a delegation note.
pub fn extract_getter_trait_from_note(note: &str) -> (r: Option<String>)
    ensures
        opt_str(r) == spec_extract_getter_trait(note@),
{
    match extract_trait_from_note_chars(&to_char_vec(note)) {
        Some(t) => {
            let pre = to_char_vec("Has");
            if pre.len() <= t.len() && crate::text::match_here(&t, &pre, 0) {
                Some(chars_to_string(&t))
            } else {
                None
            }
        },
        None => None,
    }
}

/// The context type named by the first note carrying a "for ... to
/// implement" phrase, with namespace prefixes removed.
pub open spec fn spec_context_of_note(s: Seq<char>) -> Option<Seq<char>> {
    match find_sub(s, "for `"@) {
        Some(st) => {
            let a = st + "for `"@.len();
            match find_from(s, "` to"@, a) {
                Some(e) => Some(spec_strip_module_prefixes(s.subrange(a, e))),
                None => None,
            }
        },
        None => None,
    }
}

/// The context type found in the first matching note, scanning from `k`.
pub open spec fn spec_context_from_notes(notes: Seq<Seq<char>>, k: int) -> Option<Seq<char>>
    decreases notes.len() - k,
    when 0 <= k <= notes.len()
{
    if k >= notes.len() {
        None
    } else {
        match spec_context_of_note(notes[k]) {
            Some(t) => Some(t),
            None => spec_context_from_notes(notes, k + 1),
        }
    }
}

fn context_of_note(note: &String) -> (r: Option<String>)
    ensures
        opt_str(r) == spec_context_of_note(note@),
{
    let text = to_char_vec(note.as_str());
    let pat = to_char_vec("for `");
    let n = text.len();
    match find_pat(&text, &pat) {
        Some(st) => {
            let a = st + pat.len();
            let pat2 = to_char_vec("` to");
            match find_pat_from(&text, &pat2, a) {
                Some(e) => {
                    let part = subvec(&text, a, e);
                    let stripped = strip_module_prefixes_chars(&part);
                    Some(chars_to_string(&stripped))
                },
                None => None,
            }
        },
        None => None,
    }
}

/// Extracts the context type from the first matching delegation note.
#[verifier::loop_isolation(false)]
pub fn extract_context_from_notes(notes: &Vec<String>) -> (r: Option<String>)
    ensures
        opt_str(r) == spec_context_from_notes(strs_of(notes@), 0),
{
    let n = notes.len();
    let mut k: usize = 0;
    while k < n
        invariant
            0 <= k <= n,
            spec_context_from_notes(strs_of(notes@), 0) == spec_context_from_notes(
                strs_of(notes@),
                k as int,
            ),
        decreases n - k,
    {
        proof {
            assert(strs_of(notes@)[k as int] == notes@[k as int]@);
        }
        if let Some(t) = context_of_note(&notes[k]) {
            return Some(t);
        }
        k += 1;
    }
    None
}

/// A consumer-interface dependency a provider has, found in a "required for
/// `Context` to implement `Interface`" note.
#[derive(Debug)]
pub struct NestedConsumerTrait {
    pub trait_name: String,
    pub context_type: String,
}

/// Ghost view of a nested consumer-interface dependency.
#[verifier::ext_equal]
pub struct NestedConsumerTraitV {
    pub trait_name: Seq<char>,
    pub context_type: Seq<char>,
}

impl View for NestedConsumerTrait {
    type V = NestedConsumerTraitV;

    open spec fn view(&self) -> NestedConsumerTraitV {
        NestedConsumerTraitV { trait_name: self.trait_name@, context_type: self.context_type@ }
    }
}

impl Clone for NestedConsumerTrait {
    fn clone(&self) -> (r: Self)
        ensures
            r == *self,
    {
        NestedConsumerTrait {
            trait_name: self.trait_name.clone(),
            context_type: self.context_type.clone(),
        }
    }
}

/// The nested consumer-interface dependency one note announces, when the
/// quoted interface is a consumer interface and not an internal marker.
pub open spec fn spec_nested_of_note(s: Seq<char>) -> Option<NestedConsumerTraitV> {
    match find_sub(s, "required for `"@) {
        Some(fp) => {
            let af = fp + "required for `"@.len();
            match find_char_from(s, '`', af) {
                Some(ce) => {
                    match find_from(s, "to implement `"@, ce) {
                        Some(ip) => {
                            let ts = ip + "to implement `"@.len();
                            match find_char_from(s, '`', ts) {
                                Some(te) => {
                                    let cleaned = spec_strip_module_prefixes(s.subrange(ts, te));
                                    if cleaned.len() >= "Can"@.len() && match_at(
                                        cleaned,
                                        "Can"@,
                                        0,
                                    ) && !contains_sub(cleaned, "CanUseComponent"@) {
                                        Some(
                                            NestedConsumerTraitV {
                                                trait_name: cleaned,
                                                context_type: spec_strip_module_prefixes(
                                                    s.subrange(af, ce),
                                                ),
                                            },
                                        )
                                    } else {
                                        None
                                    }
                                },
                                None => None,
                            }
                        },
                        None => None,
                    }
                },
                None => None,
            }
        },
        None => None,
    }
}

/// The nested consumer-interface dependencies of the notes, in order,
/// scanning from `k`.
pub open spec fn spec_nested_consumers_from(
    notes: Seq<Seq<char>>,
    k: int,
) -> Seq<NestedConsumerTraitV>
    decreases notes.len() - k,
    when 0 <= k <= notes.len()
{
    if k >= notes.len() {
        Seq::empty()
    } else {
        let rest = spec_nested_consumers_from(notes, k + 1);
        match spec_nested_of_note(notes[k]) {
            Some(nc) => seq![nc] + rest,
            None => rest,
        }
    }
}

fn nested_of_note(note: &String) -> (r: Option<NestedConsumerTrait>)
    ensures
        opt_view(r) == spec_nested_of_note(note@),
{
    let text = to_char_vec(note.as_str());
    let n = text.len();
    let pat = to_char_vec("required for `");
    match find_pat(&text, &pat) {
        Some(fp) => {
            let af = fp + pat.len();
            match find_char_at(&text, '`', af) {
                Some(ce) => {
                    let pat2 = to_char_vec("to implement `");
                    match find_pat_from(&text, &pat2, ce) {
                        Some(ip) => {
                            let ts = ip + pat2.len();
                            match find_char_at(&text, '`', ts) {
                                Some(te) => {
                                    let raw = subvec(&text, ts, te);
                                    let cleaned = strip_module_prefixes_chars(&raw);
                                    let can = to_char_vec("Can");
                                    let cuc = to_char_vec("CanUseComponent");
                                    let is_consumer = if can.len() <= cleaned.len() {
                                        crate::text::match_here(&cleaned, &can, 0)
                                    } else {
                                        false
                                    };
                                    if is_consumer && !contains_pat(&cleaned, &cuc) {
                                        let ctx_raw = subvec(&text, af, ce);
                                        let ctx = strip_module_prefixes_chars(&ctx_raw);
                                        Some(
                                            NestedConsumerTrait {
                                                trait_name: chars_to_string(&cleaned),
                                                context_type: chars_to_string(&ctx),
                                            },
                                        )
                                    } else {
                                        None
                                    }
                                },
                                None => None,
                            }
                        },
                        None => None,
                    }
                },
                None => None,
            }
        },
        None => None,
    }
}

/// Extracts the nested consumer-interface dependencies announced by the
/// delegation notes.
#[verifier::loop_isolation(false)]
pub fn extract_nested_consumer_traits(notes: &Vec<String>) -> (r: Vec<NestedConsumerTrait>)
    ensures
        views_of(r@) == spec_nested_consumers_from(strs_of(notes@), 0),
{
    let n = notes.len();
    let mut out: Vec<NestedConsumerTrait> = Vec::new();
    let mut k: usize = 0;
    while k < n
        invariant
            0 <= k <= n,
            spec_nested_consumers_from(strs_of(notes@), 0) =~= views_of(out@)
                + spec_nested_consumers_from(strs_of(notes@), k as int),
        decreases n - k,
    {
        proof {
            assert(strs_of(notes@)[k as int] == notes@[k as int]@);
        }
        if let Some(nc) = nested_of_note(&notes[k]) {
            let ghost prev = views_of(out@);
            let ghost ncv = nc@;
            out.push(nc);
            proof {
                assert(views_of(out@) =~= prev.push(ncv));
            }
        }
        proof {
            assert(spec_nested_consumers_from(strs_of(notes@), 0) =~= views_of(out@)
                + spec_nested_consumers_from(strs_of(notes@), k as int + 1));
        }
        k += 1;
    }
    proof {
        assert(views_of(out@) =~= views_of(out@) + spec_nested_consumers_from(
            strs_of(notes@),
            n as int,
        ));
    }
    out
}

/// An unsatisfied provider bound named by the main error message.
#[derive(Debug)]
pub struct UnsatisfiedProvider {
    pub provider_type: String,
    pub trait_name: String,
    pub context_type: String,
}

/// Ghost view of an unsatisfied provider bound.
#[verifier::ext_equal]
pub struct UnsatisfiedProviderV {
    pub provider_type: Seq<char>,
    pub trait_name: Seq<char>,
    pub context_type: Seq<char>,
}

impl View for UnsatisfiedProvider {
    type V = UnsatisfiedProviderV;

    open spec fn view(&self) -> UnsatisfiedProviderV {
        UnsatisfiedProviderV {
            provider_type: self.provider_type@,
            trait_name: self.trait_name@,
            context_type: self.context_type@,
        }
    }
}

/// The unsatisfied provider bound spelled out by a "trait bound is not
/// satisfied" message, when the bound has the provider-for-context shape.
pub open spec fn spec_unsatisfied_provider(s: Seq<char>) -> Option<UnsatisfiedProviderV> {
    match find_sub(s, "the trait bound `"@) {
        Some(bs) => {
            let ab = bs + "the trait bound `"@.len();
            match find_from(s, "` is not satisfied"@, ab) {
                Some(be) => {
                    let bound = s.subrange(ab, be);
                    match find_sub(bound, ": "@) {
                        Some(cp) => {
                            let provider = trim_spec(bound.subrange(0, cp));
                            let tac = trim_spec(bound.subrange(cp + 2, bound.len() as int));
                            match find_char_from(tac, '<', 0) {
                                Some(ob) => {
                                    match find_char_from(tac, '>', 0) {
                                        Some(cb) => if cb >= ob + 1 {
                                            Some(
                                                UnsatisfiedProviderV {
                                                    provider_type: spec_strip_module_prefixes(
                                                        provider,
                                                    ),
                                                    trait_name: spec_strip_module_prefixes(
                                                        trim_spec(tac.subrange(0, ob)),
                                                    ),
                                                    context_type: spec_strip_module_prefixes(
                                                        trim_spec(tac.subrange(ob + 1, cb)),
                                                    ),
                                                },
                                            )
                                        } else {
                                            None
                                        },
                                        None => None,
                                    }
                                },
                                None => None,
                            }
                        },
                        None => None,
                    }
                },
                None => None,
            }
        },
        None => None,
    }
}

/// Extracts the unsatisfied provider bound from the main error message.
pub fn extract_unsatisfied_provider_from_message(message: &str) -> (r: Option<
    UnsatisfiedProvider,
>)
    ensures
        opt_view(r) == spec_unsatisfied_provider(message@),
{
    let text = to_char_vec(message);
    let n = text.len();
    let pat = to_char_vec("the trait bound `");
    match find_pat(&text, &pat) {
        Some(bs) => {
            let ab = bs + pat.len();
            let pat2 = to_char_vec("` is not satisfied");
            match find_pat_from(&text, &pat2, ab) {
                Some(be) => {
                    let bound = subvec(&text, ab, be);
                    let colon = to_char_vec(": ");
                    match find_pat(&bound, &colon) {
                        Some(cp) => {
                            let m = bound.len();
                            proof {
                                reveal_strlit(": ");
                            }
                            let prov_part = subvec(&bound, 0, cp);
                            let provider = trim_chars(&prov_part);
                            let tac_part = subvec(&bound, cp + 2, m);
                            let tac = trim_chars(&tac_part);
                            match find_char_at(&tac, '<', 0) {
                                Some(ob) => {
                                    match find_char_at(&tac, '>', 0) {
                                        Some(cb) => {
                                            if cb > ob {
                                                let tn_part = subvec(&tac, 0, ob);
                                                let tn = trim_chars(&tn_part);
                                                let cx_part = subvec(&tac, ob + 1, cb);
                                                let cx = trim_chars(&cx_part);
                                                let ps = strip_module_prefixes_chars(&provider);
                                                let ts = strip_module_prefixes_chars(&tn);
                                                let cs = strip_module_prefixes_chars(&cx);
                                                Some(
                                                    UnsatisfiedProvider {
                                                        provider_type: chars_to_string(&ps),
                                                        trait_name: chars_to_string(&ts),
                                                        context_type: chars_to_string(&cs),
                                                    },
                                                )
                                            } else {
                                                None
                                            }
                                        },
                                        None => None,
                                    }
                                },
                                None => None,
                            }
                        },
                        None => None,
                    }
                },
                None => None,
            }
        },
        None => None,
    }
}

/// Whether some other relationship wraps this relationship's provider type
/// as a type parameter.
pub open spec fn spec_is_inner(rels: Seq<ProviderRelationshipV>, k: int) -> bool {
    exists|j: int|
        0 <= j < rels.len() && (#[trigger] rels[j]).provider_type != rels[k].provider_type
            && spec_is_contained(rels[k].provider_type, rels[j].provider_type)
}

/// The distinct provider types that appear wrapped inside another provider,
/// in first-seen order, scanning from `k` with the already-found types in
/// `acc`.
pub open spec fn spec_inner_providers_from(
    rels: Seq<ProviderRelationshipV>,
    k: int,
    acc: Seq<Seq<char>>,
) -> Seq<Seq<char>>
    decreases rels.len() - k,
    when 0 <= k <= rels.len()
{
    if k >= rels.len() {
        acc
    } else if spec_is_inner(rels, k) && !acc.contains(rels[k].provider_type) {
        spec_inner_providers_from(rels, k + 1, acc.push(rels[k].provider_type))
    } else {
        spec_inner_providers_from(rels, k + 1, acc)
    }
}

/// Detects the inner providers of a relationship set: providers that appear
/// as a type parameter inside another provider.
#[verifier::loop_isolation(false)]
pub fn detect_inner_providers(relationships: &Vec<ProviderRelationship>) -> (r: Vec<String>)
    ensures
        strs_of(r@) == spec_inner_providers_from(views_of(relationships@), 0, Seq::empty()),
{
    let ghost all = views_of(relationships@);
    let n = relationships.len();
    let mut out: Vec<String> = Vec::new();
    proof {
        assert(strs_of(out@) =~= Seq::<Seq<char>>::empty());
    }
    let mut k: usize = 0;
    while k < n
        invariant
            0 <= k <= n,
            n == all.len(),
            all == views_of(relationships@),
            spec_inner_providers_from(all, 0, Seq::empty()) == spec_inner_providers_from(
                all,
                k as int,
                strs_of(out@),
            ),
        decreases n - k,
    {
        proof {
            assert(all[k as int] == relationships@[k as int]@);
        }
        let rel = &relationships[k];
        let inner = to_char_vec(rel.provider_type.as_str());
        let mut is_inner = false;
        let mut j: usize = 0;
        while j < n
            invariant
                0 <= j <= n,
                k < n,
                n == all.len(),
                all == views_of(relationships@),
                inner@ == all[k as int].provider_type,
                is_inner == exists|t: int|
                    0 <= t < j && (#[trigger] all[t]).provider_type != all[k as int].provider_type
                        && spec_is_contained(all[k as int].provider_type, all[t].provider_type),
            decreases n - j,
        {
            proof {
                assert(all[j as int] == relationships@[j as int]@);
            }
            let other = &relationships[j];
            if !(other.provider_type == rel.provider_type) {
                let outer = to_char_vec(other.provider_type.as_str());
                if is_contained_chars(&inner, &outer) {
                    is_inner = true;
                }
            }
            j += 1;
        }
        proof {
            assert(is_inner == spec_is_inner(all, k as int));
        }
        if is_inner {
            let mut present = false;
            let mut t: usize = 0;
            while t < out.len()
                invariant
                    0 <= t <= out.len(),
                    k < n,
                    all == views_of(relationships@),
                    present == exists|u: int|
                        0 <= u < t && strs_of(out@)[u] == all[k as int].provider_type,
                decreases out.len() - t,
            {
                if out[t] == rel.provider_type {
                    proof {
                        assert(strs_of(out@)[t as int] == all[k as int].provider_type);
                    }
                    present = true;
                }
                t += 1;
            }
            proof {
                assert(present == strs_of(out@).contains(all[k as int].provider_type));
            }
            if !present {
                let ghost prev = strs_of(out@);
                out.push(rel.provider_type.clone());
                proof {
                    assert(strs_of(out@) =~= prev.push(all[k as int].provider_type));
                }
            }
        }
        k += 1;
    }
    out
}

/// Finds the position of a comma at the top level of generic nesting,
/// scanning from `start_pos`.
pub fn find_top_level_comma(start_pos: usize, text: &str) -> (r: Option<usize>)
    requires
        start_pos <= text@.len(),
    ensures
        opt_idx(r) == comma_from(text@, start_pos as int, 0),
{
    let v = to_char_vec(text);
    comma_at_depth(&v, start_pos)
}

/// Finds the position just past the `>` that closes the bracket group
/// opened before `start_pos`.
pub fn find_matching_bracket(start_pos: usize, text: &str) -> (r: Option<usize>)
    requires
        start_pos <= text@.len(),
    ensures
        opt_idx(r) == (match close_from(text@, start_pos as int, 1) {
            Some(e) => Some(e + 1),
            None => None,
        }),
{
    let v = to_char_vec(text);
    match close_pos(&v, start_pos) {
        Some(e) => Some(e + 1),
        None => None,
    }
}

/// The spliced replacement text: the part before the marker, the friendly
/// wording, and the part after the marker, merging surrounding backticks.
pub open spec fn spec_splice(
    s: Seq<char>,
    start: int,
    end: int,
    replacement: Seq<char>,
) -> Seq<char>
    recommends
        0 <= start <= end <= s.len(),
{
    let before = s.subrange(0, start);
    let after = s.subrange(end, s.len() as int);
    if before.len() > 0 && before.last() == '`' && after.len() > 0 && after.first() == '`' {
        before.subrange(0, before.len() - 1) + replacement + after.subrange(1, after.len() as int)
    } else {
        before + replacement + after
    }
}

#[verifier::loop_isolation(false)]
pub(crate) fn splice_exec(text: &Vec<char>, start: usize, end: usize, replacement: &Vec<char>) -> (r: Vec<
    char,
>)
    requires
        start <= end <= text@.len(),
    ensures
        r@ == spec_splice(text@, start as int, end as int, replacement@),
{
    let n = text.len();
    let before_trim = start > 0 && text[start - 1] == '`' && end < n && text[end] == '`';
    let b_end = if before_trim {
        start - 1
    } else {
        start
    };
    let a_start = if before_trim {
        end + 1
    } else {
        end
    };
    let mut r = subvec(text, 0, b_end);
    let mut mid = subvec(replacement, 0, replacement.len());
    proof {
        assert(replacement@.subrange(0, replacement@.len() as int) =~= replacement@);
    }
    r.append(&mut mid);
    let mut tail = subvec(text, a_start, n);
    r.append(&mut tail);
    proof {
        let before = text@.subrange(0, start as int);
        let after = text@.subrange(end as int, text@.len() as int);
        if before_trim {
            assert(before.len() > 0 && before.last() == '`');
            assert(after.len() > 0 && after.first() == '`');
            assert(text@.subrange(0, b_end as int) =~= before.subrange(0, before.len() - 1));
            assert(text@.subrange(a_start as int, text@.len() as int) =~= after.subrange(
                1,
                after.len() as int,
            ));
        } else {
            if before.len() > 0 && before.last() == '`' && after.len() > 0 && after.first()
                == '`' {
                assert(text@[start - 1] == '`');
                assert(text@[end as int] == '`');
                assert(false);
            }
        }
        assert(r@ =~= spec_splice(text@, start as int, end as int, replacement@));
    }
    r
}

/// The message with a relationship marker replaced by a friendly mention of
/// the derived provider interface.
pub open spec fn spec_replace_is_provider_for(s: Seq<char>) -> Seq<char> {
    if !contains_sub(s, "IsProviderFor"@) {
        s
    } else {
        match find_sub(s, "IsProviderFor<"@) {
            Some(st) => {
                let ab = st + "IsProviderFor<"@.len();
                match comma_from(s, ab, 0) {
                    Some(cp) => {
                        let component = trim_spec(s.subrange(ab, cp));
                        let ptn = match spec_derive_provider_trait_name(component) {
                            Some(t) => t,
                            None => "the provider trait for `"@ + component + "`"@,
                        };
                        let end = match close_from(s, ab, 1) {
                            Some(e) => e + 1,
                            None => s.len() as int,
                        };
                        spec_splice(s, st, end, "the provider trait `"@ + ptn + "`"@)
                    },
                    None => s,
                }
            },
            None => s,
        }
    }
}

/// Replaces a relationship marker with a friendly provider-interface
/// mention.
pub fn replace_is_provider_for(message: &str) -> (r: String)
    ensures
        r@ == spec_replace_is_provider_for(message@),
{
    let text = to_char_vec(message);
    let n = text.len();
    let probe = to_char_vec("IsProviderFor");
    if !contains_pat(&text, &probe) {
        return chars_to_string(&text);
    }
    let pat = to_char_vec("IsProviderFor<");
    match find_pat(&text, &pat) {
        Some(st) => {
            let ab = st + pat.len();
            match comma_at_depth(&text, ab) {
                Some(cp) => {
                    let comp_part = subvec(&text, ab, cp);
                    let component = trim_chars(&comp_part);
                    let ptn = match crate::cgp_patterns::derive_provider_trait_chars(&component) {
                        Some(t) => t,
                        None => {
                            let mut alt = to_char_vec("the provider trait for `");
                            let mut c2 = subvec(&component, 0, component.len());
                            proof {
                                assert(component@.subrange(0, component@.len() as int)
                                    =~= component@);
                            }
                            alt.append(&mut c2);
                            let mut bt = to_char_vec("`");
                            alt.append(&mut bt);
                            alt
                        },
                    };
                    let end = match close_pos(&text, ab) {
                        Some(e) => e + 1,
                        None => n,
                    };
                    let mut replacement = to_char_vec("the provider trait `");
                    let mut ptn2 = subvec(&ptn, 0, ptn.len());
                    proof {
                        assert(ptn@.subrange(0, ptn@.len() as int) =~= ptn@);
                    }
                    replacement.append(&mut ptn2);
                    let mut bt2 = to_char_vec("`");
                    replacement.append(&mut bt2);
                    let spliced = splice_exec(&text, st, end, &replacement);
                    chars_to_string(&spliced)
                },
                None => chars_to_string(&text),
            }
        },
        None => chars_to_string(&text),
    }
}

/// The message with a capability-check marker replaced by a friendly
/// mention of the capability; a truncated marker is replaced best-effort
/// up to the end of the message.
pub open spec fn spec_replace_can_use_component(s: Seq<char>) -> Seq<char> {
    if !contains_sub(s, "CanUseComponent"@) {
        s
    } else {
        match find_sub(s, "CanUseComponent<"@) {
            Some(st) => {
                let ab = st + "CanUseComponent<"@.len();
                let component = crate::cgp_patterns::spec_extract_balanced(s, ab);
                let end = match close_from(s, ab, 1) {
                    Some(e) => e + 1,
                    None => s.len() as int,
                };
                spec_splice(s, st, end, "use component `"@ + component + "`"@)
            },
            None => s,
        }
    }
}

/// Replaces a capability-check marker with a friendly capability mention.
pub fn replace_can_use_component(message: &str) -> (r: String)
    ensures
        r@ == spec_replace_can_use_component(message@),
{
    let text = to_char_vec(message);
    let n = text.len();
    let probe = to_char_vec("CanUseComponent");
    if !contains_pat(&text, &probe) {
        return chars_to_string(&text);
    }
    let pat = to_char_vec("CanUseComponent<");
    match find_pat(&text, &pat) {
        Some(st) => {
            let ab = st + pat.len();
            let component = crate::cgp_patterns::extract_balanced_chars(&text, ab);
            let end = match close_pos(&text, ab) {
                Some(e) => e + 1,
                None => n,
            };
            let mut replacement = to_char_vec("use component `");
            let mut c2 = subvec(&component, 0, component.len());
            proof {
                assert(component@.subrange(0, component@.len() as int) =~= component@);
            }
            replacement.append(&mut c2);
            let mut bt = to_char_vec("`");
            replacement.append(&mut bt);
            let spliced = splice_exec(&text, st, end, &replacement);
            chars_to_string(&spliced)
        },
        None => chars_to_string(&text),
    }
}

/// Position of the first uppercase character at or after `i`.
pub open spec fn find_upper_from(s: Seq<char>, i: int) -> Option<int>
    decreases s.len() - i,
    when 0 <= i <= s.len()
{
    if i >= s.len() {
        None
    } else if uppercase_like(s[i]) {
        Some(i)
    } else {
        find_upper_from(s, i + 1)
    }
}

proof fn lemma_find_upper_some(s: Seq<char>, i: int)
    requires
        0 <= i <= s.len(),
    ensures
        find_upper_from(s, i) matches Some(p) ==> i <= p < s.len(),
    decreases s.len() - i,
{
    if i < s.len() && !uppercase_like(s[i]) {
        lemma_find_upper_some(s, i + 1);
    }
}

/// The pieces of a name split at its uppercase characters; the uppercase
/// characters themselves are dropped.
pub open spec fn spec_split_upper(s: Seq<char>) -> Seq<Seq<char>>
    decreases s.len(),
    via spec_split_upper_dec
{
    match find_upper_from(s, 0) {
        Some(p) => seq![s.subrange(0, p)] + spec_split_upper(s.subrange(p + 1, s.len() as int)),
        None => seq![s],
    }
}

#[via_fn]
proof fn spec_split_upper_dec(s: Seq<char>) {
    lemma_find_upper_some(s, 0);
}

/// The significant pieces: those longer than two characters.
pub open spec fn spec_sig_words(parts: Seq<Seq<char>>, k: int) -> Seq<Seq<char>>
    decreases parts.len() - k,
    when 0 <= k <= parts.len()
{
    if k >= parts.len() {
        Seq::empty()
    } else {
        let rest = spec_sig_words(parts, k + 1);
        if parts[k].len() > 2 {
            seq![parts[k]] + rest
        } else {
            rest
        }
    }
}

/// The ASCII case-folded code point of a character.
pub open spec fn spec_char_fold(c: char) -> int {
    if 'A' as u32 <= c as u32 && c as u32 <= 'Z' as u32 {
        c as u32 + 32
    } else {
        c as u32 as int
    }
}

/// Two words are equal up to ASCII case.
pub open spec fn spec_word_eq_ic(a: Seq<char>, b: Seq<char>) -> bool {
    a.len() == b.len() && forall|i: int|
        0 <= i < a.len() ==> spec_char_fold(#[trigger] a[i]) == spec_char_fold(b[i])
}

/// Two word lists share a word up to ASCII case.
pub open spec fn spec_words_share(aw: Seq<Seq<char>>, bw: Seq<Seq<char>>) -> bool {
    exists|i: int, j: int|
        0 <= i < aw.len() && 0 <= j < bw.len() && spec_word_eq_ic(
            #[trigger] aw[i],
            #[trigger] bw[j],
        )
}

#[verifier::loop_isolation(false)]
fn find_upper_exec(v: &Vec<char>, from: usize) -> (r: Option<usize>)
    requires
        from <= v@.len(),
    ensures
        opt_idx(r) == find_upper_from(v@, from as int),
        r matches Some(p) ==> from <= p < v@.len(),
{
    let n = v.len();
    let mut i = from;
    while i < n
        invariant
            from <= i <= n,
            find_upper_from(v@, from as int) == find_upper_from(v@, i as int),
        decreases n - i,
    {
        if char_is_uppercase(v[i]) {
            return Some(i);
        }
        i += 1;
    }
    None
}

fn split_upper_exec(v: &Vec<char>) -> (r: Vec<Vec<char>>)
    ensures
        views_of(r@) == spec_split_upper(v@),
    decreases v@.len(),
{
    match find_upper_exec(v, 0) {
        Some(p) => {
            let n = v.len();
            let head = subvec(v, 0, p);
            let rest = subvec(v, p + 1, n);
            let mut tail = split_upper_exec(&rest);
            let mut out: Vec<Vec<char>> = Vec::new();
            out.push(head);
            let ghost tail_views = views_of(tail@);
            append_char_vecs(&mut out, &mut tail);
            proof {
                assert(views_of(out@) =~= seq![v@.subrange(0, p as int)] + tail_views);
            }
            out
        },
        None => {
            let n = v.len();
            let whole = subvec(v, 0, n);
            let mut out: Vec<Vec<char>> = Vec::new();
            out.push(whole);
            proof {
                assert(v@.subrange(0, v@.len() as int) =~= v@);
                assert(views_of(out@) =~= seq![v@]);
            }
            out
        },
    }
}

fn append_char_vecs(v: &mut Vec<Vec<char>>, other: &mut Vec<Vec<char>>)
    ensures
        views_of(final(v)@) == views_of(old(v)@) + views_of(old(other)@),
{
    let ghost pre = views_of(v@);
    let ghost extra = views_of(other@);
    v.append(other);
    proof {
        assert(views_of(v@) =~= pre + extra);
    }
}

#[verifier::loop_isolation(false)]
fn sig_words_exec(parts: &Vec<Vec<char>>) -> (r: Vec<Vec<char>>)
    ensures
        views_of(r@) == spec_sig_words(views_of(parts@), 0),
{
    let n = parts.len();
    let mut out: Vec<Vec<char>> = Vec::new();
    let mut k: usize = 0;
    while k < n
        invariant
            0 <= k <= n,
            spec_sig_words(views_of(parts@), 0) =~= views_of(out@) + spec_sig_words(
                views_of(parts@),
                k as int,
            ),
        decreases n - k,
    {
        proof {
            assert(views_of(parts@)[k as int] == parts@[k as int]@);
        }
        if parts[k].len() > 2 {
            let n2 = parts[k].len();
            let ghost prev = views_of(out@);
            let piece = subvec(&parts[k], 0, n2);
            proof {
                assert(parts@[k as int]@.subrange(0, parts@[k as int]@.len() as int)
                    =~= parts@[k as int]@);
            }
            out.push(piece);
            proof {
                assert(views_of(out@) =~= prev.push(views_of(parts@)[k as int]));
            }
        }
        proof {
            assert(spec_sig_words(views_of(parts@), 0) =~= views_of(out@) + spec_sig_words(
                views_of(parts@),
                k as int + 1,
            ));
        }
        k += 1;
    }
    proof {
        assert(views_of(out@) =~= views_of(out@) + spec_sig_words(views_of(parts@), n as int));
    }
    out
}

#[verifier::loop_isolation(false)]
fn word_eq_ic_exec(a: &Vec<char>, b: &Vec<char>) -> (r: bool)
    ensures
        r == spec_word_eq_ic(a@, b@),
{
    if a.len() != b.len() {
        return false;
    }
    let n = a.len();
    let mut i: usize = 0;
    while i < n
        invariant
            0 <= i <= n,
            n == a@.len() == b@.len(),
            forall|k: int| 0 <= k < i ==> spec_char_fold(#[trigger] a@[k]) == spec_char_fold(
                b@[k],
            ),
        decreases n - i,
    {
        let ca = a[i] as u32;
        let cb = b[i] as u32;
        let fa = if ca >= 'A' as u32 && ca <= 'Z' as u32 {
            ca + 32
        } else {
            ca
        };
        let fb = if cb >= 'A' as u32 && cb <= 'Z' as u32 {
            cb + 32
        } else {
            cb
        };
        if fa != fb {
            return false;
        }
        i += 1;
    }
    true
}

#[verifier::loop_isolation(false)]
fn words_share_exec(aw: &Vec<Vec<char>>, bw: &Vec<Vec<char>>) -> (r: bool)
    ensures
        r == spec_words_share(views_of(aw@), views_of(bw@)),
{
    let na = aw.len();
    let nb = bw.len();
    let mut i: usize = 0;
    while i < na
        invariant
            0 <= i <= na,
            forall|x: int, y: int|
                0 <= x < i && 0 <= y < nb ==> !spec_word_eq_ic(
                    #[trigger] views_of(aw@)[x],
                    #[trigger] views_of(bw@)[y],
                ),
        decreases na - i,
    {
        proof {
            assert(views_of(aw@)[i as int] == aw@[i as int]@);
        }
        let mut j: usize = 0;
        while j < nb
            invariant
                0 <= j <= nb,
                i < na,
                forall|y: int|
                    0 <= y < j ==> !spec_word_eq_ic(
                        views_of(aw@)[i as int],
                        #[trigger] views_of(bw@)[y],
                    ),
            decreases nb - j,
        {
            proof {
                assert(views_of(bw@)[j as int] == bw@[j as int]@);
            }
            if word_eq_ic_exec(&aw[i], &bw[j]) {
                return true;
            }
            j += 1;
        }
        i += 1;
    }
    false
}

/// The part of a consumer-interface name after the conventional verb
/// prefix.
pub open spec fn spec_action_part(t: Seq<char>) -> Seq<char> {
    if t.len() >= "Can"@.len() && match_at(t, "Can"@, 0) {
        t.subrange("Can"@.len() as int, t.len() as int)
    } else {
        t
    }
}

fn action_part_exec(t: &Vec<char>) -> (r: Vec<char>)
    ensures
        r@ == spec_action_part(t@),
{
    let pre = to_char_vec("Can");
    let n = t.len();
    if pre.len() <= n && crate::text::match_here(t, &pre, 0) {
        subvec(t, pre.len(), n)
    } else {
        let r = subvec(t, 0, n);
        proof {
            assert(t@.subrange(0, t@.len() as int) =~= t@);
        }
        r
    }
}

/// The significant case-folded words of a name.
pub open spec fn spec_name_words(s: Seq<char>) -> Seq<Seq<char>> {
    spec_sig_words(spec_split_upper(s), 0)
}

fn name_words_exec(s: &Vec<char>) -> (r: Vec<Vec<char>>)
    ensures
        views_of(r@) == spec_name_words(s@),
{
    let parts = split_upper_exec(s);
    sig_words_exec(&parts)
}

/// The first nested dependency whose consumer words share a significant
/// word with the provider words, scanning from `k`.
pub open spec fn spec_word_match_dep(
    deps: Seq<NestedConsumerTraitV>,
    k: int,
    pwords: Seq<Seq<char>>,
) -> Option<Seq<char>>
    decreases deps.len() - k,
    when 0 <= k <= deps.len()
{
    if k >= deps.len() {
        None
    } else if spec_words_share(pwords, spec_name_words(spec_action_part(deps[k].trait_name))) {
        Some(deps[k].trait_name)
    } else {
        spec_word_match_dep(deps, k + 1, pwords)
    }
}

/// The first dependency whose derived capability name equals the given
/// capability name, scanning from `k`.
pub open spec fn spec_fcfc_direct(
    deps: Seq<NestedConsumerTraitV>,
    k: int,
    name: Seq<char>,
) -> Option<Seq<char>>
    decreases deps.len() - k,
    when 0 <= k <= deps.len()
{
    if k >= deps.len() {
        None
    } else if spec_derive_component_from_consumer(deps[k].trait_name) == Some(name) {
        Some(deps[k].trait_name)
    } else {
        spec_fcfc_direct(deps, k + 1, name)
    }
}

/// The fuzzy fallback: for the first relationship naming this capability,
/// the first dependency sharing a significant word with the derived
/// provider-interface name.
pub open spec fn spec_fcfc_fuzzy(
    rels: Seq<ProviderRelationshipV>,
    k: int,
    name: Seq<char>,
    deps: Seq<NestedConsumerTraitV>,
) -> Option<Seq<char>>
    decreases rels.len() - k,
    when 0 <= k <= rels.len()
{
    if k >= rels.len() {
        None
    } else if spec_strip_module_prefixes(rels[k].component) == name {
        match spec_derive_provider_trait_name(name) {
            None => None,
            Some(pt) => match spec_word_match_dep(deps, 0, spec_name_words(pt)) {
                Some(t) => Some(t),
                None => spec_fcfc_fuzzy(rels, k + 1, name, deps),
            },
        }
    } else {
        spec_fcfc_fuzzy(rels, k + 1, name, deps)
    }
}

/// The consumer-interface name serving a capability: an explicit dependency
/// whose derived capability matches, else the word-overlap fallback.
pub open spec fn spec_find_consumer_trait(name: Seq<char>, e: DiagnosticEntryV) -> Option<
    Seq<char>,
> {
    let deps = spec_nested_consumers_from(e.delegation_notes, 0);
    match spec_fcfc_direct(deps, 0, name) {
        Some(t) => Some(t),
        None => spec_fcfc_fuzzy(e.provider_relationships, 0, name, deps),
    }
}

/// Whether two character vectors hold the same characters.
pub fn chars_eq_pub(a: &Vec<char>, b: &Vec<char>) -> (r: bool)
    ensures
        r == (a@ == b@),
{
    if a.len() != b.len() {
        return false;
    }
    let r = crate::text::match_here(a, b, 0);
    proof {
        assert(a@.subrange(0, b@.len() as int) =~= a@);
    }
    r
}

/// Finds the consumer-interface name for a capability, preferring an
/// explicit dependency edge and falling back to word overlap.
#[verifier::loop_isolation(false)]
pub fn find_consumer_trait_for_component(
    component_name: &str,
    entry: &DiagnosticEntry,
) -> (r: Option<String>)
    ensures
        opt_str(r) == spec_find_consumer_trait(component_name@, entry@),
{
    let name = to_char_vec(component_name);
    let deps = extract_nested_consumer_traits(&entry.delegation_notes);
    let ghost depsv = spec_nested_consumers_from(entry@.delegation_notes, 0);
    let nd = deps.len();
    let mut k: usize = 0;
    while k < nd
        invariant
            0 <= k <= nd,
            nd == depsv.len(),
            depsv == views_of(deps@),
            name@ == component_name@,
            spec_fcfc_direct(depsv, 0, component_name@) == spec_fcfc_direct(
                depsv,
                k as int,
                component_name@,
            ),
        decreases nd - k,
    {
        proof {
            assert(depsv[k as int] == deps@[k as int]@);
        }
        match derive_component_from_consumer_trait(deps[k].trait_name.as_str()) {
            Some(derived) => {
                let dv = to_char_vec(derived.as_str());
                if chars_eq_pub(&dv, &name) {
                    return Some(deps[k].trait_name.clone());
                }
            },
            None => {},
        }
        k += 1;
    }
    let rels = &entry.provider_relationships;
    let nr = rels.len();
    let mut k2: usize = 0;
    while k2 < nr
        invariant
            0 <= k2 <= nr,
            nr == entry@.provider_relationships.len(),
            depsv == views_of(deps@),
            nd == depsv.len(),
            name@ == component_name@,
            spec_fcfc_direct(depsv, 0, component_name@) is None,
            spec_fcfc_fuzzy(entry@.provider_relationships, 0, component_name@, depsv)
                == spec_fcfc_fuzzy(
                entry@.provider_relationships,
                k2 as int,
                component_name@,
                depsv,
            ),
        decreases nr - k2,
    {
        proof {
            assert(entry@.provider_relationships[k2 as int] == rels@[k2 as int]@);
        }
        let comp = to_char_vec(rels[k2].component.as_str());
        let stripped = strip_module_prefixes_chars(&comp);
        if chars_eq_pub(&stripped, &name) {
            match crate::cgp_patterns::derive_provider_trait_chars(&name) {
                None => {
                    return None;
                },
                Some(pt) => {
                    let pwords = name_words_exec(&pt);
                    let mut d: usize = 0;
                    while d < nd
                        invariant
                            0 <= d <= nd,
                            nd == depsv.len(),
                            depsv == views_of(deps@),
                            views_of(pwords@) == spec_name_words(
                                spec_derive_provider_trait_name(component_name@)->Some_0,
                            ),
                            spec_word_match_dep(depsv, 0, views_of(pwords@))
                                == spec_word_match_dep(depsv, d as int, views_of(pwords@)),
                        decreases nd - d,
                    {
                        proof {
                            assert(depsv[d as int] == deps@[d as int]@);
                        }
                        let tn = to_char_vec(deps[d].trait_name.as_str());
                        let action = action_part_exec(&tn);
                        let cwords = name_words_exec(&action);
                        if words_share_exec(&pwords, &cwords) {
                            return Some(deps[d].trait_name.clone());
                        }
                        d += 1;
                    }
                },
            }
        }
        k2 += 1;
    }
    None
}

/// The first relationship naming this capability exactly, scanning from
/// `k`.
pub open spec fn spec_mctp_exact(
    rels: Seq<ProviderRelationshipV>,
    k: int,
    name: Seq<char>,
) -> Option<ProviderRelationshipV>
    decreases rels.len() - k,
    when 0 <= k <= rels.len()
{
    if k >= rels.len() {
        None
    } else if spec_strip_module_prefixes(rels[k].component) == name {
        Some(rels[k])
    } else {
        spec_mctp_exact(rels, k + 1, name)
    }
}

/// The first relationship whose capability derives the same
/// provider-interface name, scanning from `k`.
pub open spec fn spec_mctp_by_trait(
    rels: Seq<ProviderRelationshipV>,
    k: int,
    pt: Seq<char>,
) -> Option<ProviderRelationshipV>
    decreases rels.len() - k,
    when 0 <= k <= rels.len()
{
    if k >= rels.len() {
        None
    } else if spec_derive_provider_trait_name(rels[k].component) == Some(pt) {
        Some(rels[k])
    } else {
        spec_mctp_by_trait(rels, k + 1, pt)
    }
}

/// The relationship that best matches a capability: exact match on the
/// simplified capability name, else a provider-interface-name match.
pub open spec fn spec_match_component_to_provider(
    ci: ComponentInfoV,
    rels: Seq<ProviderRelationshipV>,
) -> Option<ProviderRelationshipV> {
    let name = spec_strip_module_prefixes(ci.component_type);
    match spec_mctp_exact(rels, 0, name) {
        Some(r) => Some(r),
        None => match ci.provider_trait {
            Some(pt) => spec_mctp_by_trait(rels, 0, pt),
            None => None,
        },
    }
}

/// Matches a capability to its relationship fact.
#[verifier::loop_isolation(false)]
pub fn match_component_to_provider(
    component_info: &ComponentInfo,
    provider_relationships: &Vec<ProviderRelationship>,
) -> (r: Option<ProviderRelationship>)
    ensures
        opt_view(r) == spec_match_component_to_provider(
            component_info@,
            views_of(provider_relationships@),
        ),
{
    let ghost rels = views_of(provider_relationships@);
    let ct = to_char_vec(component_info.component_type.as_str());
    let name = strip_module_prefixes_chars(&ct);
    let n = provider_relationships.len();
    let mut k: usize = 0;
    while k < n
        invariant
            0 <= k <= n,
            n == rels.len(),
            rels == views_of(provider_relationships@),
            name@ == spec_strip_module_prefixes(component_info@.component_type),
            spec_mctp_exact(rels, 0, name@) == spec_mctp_exact(rels, k as int, name@),
        decreases n - k,
    {
        proof {
            assert(rels[k as int] == provider_relationships@[k as int]@);
        }
        let comp = to_char_vec(provider_relationships[k].component.as_str());
        let stripped = strip_module_prefixes_chars(&comp);
        if chars_eq_pub(&stripped, &name) {
            return Some(provider_relationships[k].clone());
        }
        k += 1;
    }
    match &component_info.provider_trait {
        Some(pt) => {
            let ptv = to_char_vec(pt.as_str());
            let mut k2: usize = 0;
            while k2 < n
                invariant
                    0 <= k2 <= n,
                    n == rels.len(),
                    rels == views_of(provider_relationships@),
                    ptv@ == component_info@.provider_trait->Some_0,
                    spec_mctp_exact(rels, 0, name@) is None,
                    name@ == spec_strip_module_prefixes(component_info@.component_type),
                    spec_mctp_by_trait(rels, 0, ptv@) == spec_mctp_by_trait(
                        rels,
                        k2 as int,
                        ptv@,
                    ),
                decreases n - k2,
            {
                proof {
                    assert(rels[k2 as int] == provider_relationships@[k2 as int]@);
                }
                let comp = to_char_vec(provider_relationships[k2].component.as_str());
                match crate::cgp_patterns::derive_provider_trait_chars(&comp) {
                    Some(d) => {
                        if chars_eq_pub(&d, &ptv) {
                            return Some(provider_relationships[k2].clone());
                        }
                    },
                    None => {},
                }
                k2 += 1;
            }
            None
        },
        None => None,
    }
}

/// The simplified display form of a delegation note: namespace prefixes
/// removed, internal markers replaced by friendly wording, and an overly
/// long result truncated at its first elision marker.
pub open spec fn spec_format_delegation_note(s: Seq<char>) -> Seq<char> {
    let t = spec_replace_can_use_component(
        spec_replace_is_provider_for(spec_strip_module_prefixes(s)),
    );
    if t.len() > 150 {
        match find_sub(t, ", ...>"@) {
            Some(ep) => t.subrange(0, ep) + "..."@,
            None => t,
        }
    } else {
        t
    }
}

/// Simplifies one delegation note for display.
pub fn format_delegation_note(note: &str) -> (r: String)
    ensures
        r@ == spec_format_delegation_note(note@),
{
    let stripped = strip_module_prefixes(note);
    let t1 = replace_is_provider_for(stripped.as_str());
    let t2 = replace_can_use_component(t1.as_str());
    let tv = to_char_vec(t2.as_str());
    if tv.len() > 150 {
        let pat = to_char_vec(", ...>");
        match find_pat(&tv, &pat) {
            Some(ep) => {
                let mut out_v = subvec(&tv, 0, ep);
                let mut dots = to_char_vec("...");
                out_v.append(&mut dots);
                chars_to_string(&out_v)
            },
            None => t2,
        }
    } else {
        t2
    }
}

proof fn lemma_expanded_concat_hi(s1: Seq<DependencyNode>, s2: Seq<DependencyNode>, j: int)
    requires
        0 <= j <= s2.len(),
    ensures
        expanded_names_seq(s1 + s2, s1.len() + j) == expanded_names_seq(s2, j),
    decreases s2.len() - j,
{
    let s = s1 + s2;
    if j < s2.len() {
        lemma_expanded_concat_hi(s1, s2, j + 1);
        assert(s[s1.len() + j] == s2[j]);
    }
}

proof fn lemma_expanded_concat_lo(s1: Seq<DependencyNode>, s2: Seq<DependencyNode>, k: int)
    requires
        0 <= k <= s1.len(),
    ensures
        expanded_names_seq(s1 + s2, k) == expanded_names_seq(s1, k) + expanded_names_seq(
            s1 + s2,
            s1.len() as int,
        ),
    decreases s1.len() - k,
{
    let s = s1 + s2;
    if k < s1.len() {
        lemma_expanded_concat_lo(s1, s2, k + 1);
        assert(s[k] == s1[k]);
        assert(expanded_names_seq(s, k) =~= expanded_names_seq(s1, k) + expanded_names_seq(
            s,
            s1.len() as int,
        ));
    } else {
        assert(expanded_names_seq(s1, k) =~= Seq::<Seq<char>>::empty());
        assert(expanded_names_seq(s, k) =~= expanded_names_seq(s1, k) + expanded_names_seq(
            s,
            s1.len() as int,
        ));
    }
}

/// The expanded names of concatenated sibling lists are the concatenated
/// expanded names.
proof fn lemma_expanded_concat(s1: Seq<DependencyNode>, s2: Seq<DependencyNode>)
    ensures
        expanded_names_seq(s1 + s2, 0) == expanded_names_seq(s1, 0) + expanded_names_seq(s2, 0),
{
    lemma_expanded_concat_hi(s1, s2, 0);
    lemma_expanded_concat_lo(s1, s2, 0);
}

proof fn lemma_singleton_names(s: Seq<DependencyNode>)
    requires
        s.len() == 1,
    ensures
        expanded_names_seq(s, 0) == expanded_names(s[0]),
{
    assert(expanded_names_seq(s, 1) =~= Seq::<Seq<char>>::empty());
    assert(expanded_names_seq(s, 0) =~= expanded_names(s[0]) + expanded_names_seq(s, 1));
    assert(expanded_names_seq(s, 0) =~= expanded_names(s[0]));
}

proof fn lemma_node_names(n: DependencyNode)
    requires
        n.kind != NodeKind::Consumer || n.is_reference || n.name is None,
        expanded_names_seq(n.children@, 0) == Seq::<Seq<char>>::empty(),
    ensures
        expanded_names(n) == Seq::<Seq<char>>::empty(),
{
    assert(expanded_names(n) =~= Seq::<Seq<char>>::empty());
}

proof fn lemma_leaf_names(n: DependencyNode)
    requires
        n.children@.len() == 0,
        n.kind != NodeKind::Consumer || n.is_reference || n.name is None,
    ensures
        expanded_names(n) == Seq::<Seq<char>>::empty(),
{
    assert(expanded_names_seq(n.children@, 0) =~= Seq::<Seq<char>>::empty());
    lemma_node_names(n);
}

/// Wraps two names as "`a` for `b`".
pub open spec fn spec_bt_pair(a: Seq<char>, b: Seq<char>) -> Seq<char> {
    "`"@ + a + "` for `"@ + b + "`"@
}

fn bt_pair_exec(a: &Vec<char>, b: &Vec<char>) -> (r: String)
    ensures
        r@ == spec_bt_pair(a@, b@),
{
    let mut s = String::new();
    s.append("`");
    let asx = chars_to_string(a);
    s.append(asx.as_str());
    s.append("` for `");
    let bsx = chars_to_string(b);
    s.append(bsx.as_str());
    s.append("`");
    proof {
        assert(Seq::<char>::empty() + "`"@ =~= "`"@);
        assert(s@ =~= spec_bt_pair(a@, b@));
    }
    s
}

/// The description of a provider node: the provider interface applied to
/// the context, for the given provider type, with namespace prefixes
/// removed.
pub open spec fn spec_provider_desc(pt: Seq<char>, ctx: Seq<char>, prov: Seq<char>) -> Seq<
    char,
> {
    spec_strip_module_prefixes("`"@ + pt + "<"@ + ctx + ">` for provider `"@ + prov + "`"@)
}

/// The description of an inner-provider hint node.
pub open spec fn spec_inner_desc(pt: Seq<char>, ctx: Seq<char>, prov: Seq<char>) -> Seq<char> {
    spec_strip_module_prefixes(
        "`"@ + pt + "<"@ + ctx + ">` for inner provider `"@ + prov + "`"@,
    )
}

fn provider_desc_exec(pt: &Vec<char>, ctx: &Vec<char>, prov: &Vec<char>, inner: bool) -> (r:
    String)
    ensures
        !inner ==> r@ == spec_provider_desc(pt@, ctx@, prov@),
        inner ==> r@ == spec_inner_desc(pt@, ctx@, prov@),
{
    let mut s = String::new();
    s.append("`");
    let a = chars_to_string(pt);
    s.append(a.as_str());
    s.append("<");
    let b = chars_to_string(ctx);
    s.append(b.as_str());
    if inner {
        s.append(">` for inner provider `");
    } else {
        s.append(">` for provider `");
    }
    let c = chars_to_string(prov);
    s.append(c.as_str());
    s.append("`");
    proof {
        assert(Seq::<char>::empty() + "`"@ =~= "`"@);
        if inner {
            assert(s@ =~= "`"@ + pt@ + "<"@ + ctx@ + ">` for inner provider `"@ + prov@ + "`"@);
        } else {
            assert(s@ =~= "`"@ + pt@ + "<"@ + ctx@ + ">` for provider `"@ + prov@ + "`"@);
        }
    }
    let sv = to_char_vec(s.as_str());
    let stripped = strip_module_prefixes_chars(&sv);
    chars_to_string(&stripped)
}

/// The description of a field-requirement leaf.
pub open spec fn spec_field_desc(fi: FieldInfoV) -> Seq<char> {
    "field `"@ + spec_format_field_name(fi.field_name) + "` on `"@ + fi.target_type + "`"@
}

fn field_desc_exec(fi: &FieldInfo) -> (r: String)
    ensures
        r@ == spec_field_desc(fi@),
{
    let mut s = String::new();
    s.append("field `");
    let fname = format_field_name(fi.field_name.as_str());
    s.append(fname.as_str());
    s.append("` on `");
    s.append(fi.target_type.as_str());
    s.append("`");
    proof {
        assert(Seq::<char>::empty() + "field `"@ =~= "field `"@);
        assert(s@ =~= spec_field_desc(fi@));
    }
    s
}

/// The getter-node descriptions derived from the delegation notes, in
/// order, scanning from `k`.
pub open spec fn spec_getter_descs(notes: Seq<Seq<char>>, k: int, ctx: Seq<char>) -> Seq<
    Seq<char>,
>
    decreases notes.len() - k,
    when 0 <= k <= notes.len()
{
    if k >= notes.len() {
        Seq::empty()
    } else {
        let rest = spec_getter_descs(notes, k + 1, ctx);
        match spec_extract_getter_trait(notes[k]) {
            Some(g) => seq![spec_bt_pair(g, ctx)] + rest,
            None => rest,
        }
    }
}

/// The descriptions of a node list.
pub open spec fn descs_of(s: Seq<DependencyNode>) -> Seq<Seq<char>> {
    Seq::new(s.len(), |i: int| s[i].description@)
}

/// The shape of a field-requirement leaf.
pub open spec fn spec_field_leaf(fi: FieldInfoV) -> NodeShape {
    NodeShape {
        description: spec_field_desc(fi),
        kind: NodeKind::Field,
        name: None,
        is_satisfied: Some(false),
        is_reference: false,
        children: Seq::empty(),
    }
}

/// The shapes of the getter-requirement nodes: one per getter note, the
/// first carrying the missing-field leaf when the entry has one.
pub open spec fn spec_getter_shapes(e: DiagnosticEntryV, ctx: Seq<char>) -> Seq<NodeShape> {
    let gd = spec_getter_descs(e.delegation_notes, 0, ctx);
    Seq::new(
        gd.len(),
        |i: int|
            NodeShape {
                description: gd[i],
                kind: NodeKind::Getter,
                name: None,
                is_satisfied: None,
                is_reference: false,
                children: if i == 0 && e.field_info is Some {
                    seq![spec_field_leaf(e.field_info->Some_0)]
                } else {
                    Seq::empty()
                },
            },
    )
}

/// Builds getter-requirement nodes from the delegation notes; the first
/// getter carries the missing-field leaf when the entry has one.
#[verifier::loop_isolation(false)]
pub fn build_getter_nodes(entry: &DiagnosticEntry, context_type: &str) -> (r: Vec<
    DependencyNode,
>)
    ensures
        expanded_names_seq(r@, 0) == Seq::<Seq<char>>::empty(),
        descs_of(r@) == spec_getter_descs(strs_of(entry.delegation_notes@), 0, context_type@),
        forall|i: int|
            0 <= i < r@.len() ==> (#[trigger] r@[i]).kind == NodeKind::Getter
                && !r@[i].is_reference && r@[i].name is None,
        entry@.field_info is Some && r@.len() > 0 ==> r@[0].children@.len() == 1
            && r@[0].children@[0].kind == NodeKind::Field && r@[0].children@[0].is_satisfied
            == Some(false) && r@[0].children@[0].description@ == spec_field_desc(
            entry@.field_info->Some_0,
        ) && r@[0].children@[0].children@.len() == 0,
        shapes_of(r@) == spec_getter_shapes(entry@, context_type@),
{
    let ghost notes = strs_of(entry.delegation_notes@);
    let ctxv = to_char_vec(context_type);
    let n = entry.delegation_notes.len();
    let mut out: Vec<DependencyNode> = Vec::new();
    let mut k: usize = 0;
    while k < n
        invariant
            0 <= k <= n,
            n == notes.len(),
            notes == strs_of(entry.delegation_notes@),
            ctxv@ == context_type@,
            expanded_names_seq(out@, 0) =~= Seq::<Seq<char>>::empty(),
            spec_getter_descs(notes, 0, context_type@) =~= descs_of(out@) + spec_getter_descs(
                notes,
                k as int,
                context_type@,
            ),
            forall|i: int|
                0 <= i < out@.len() ==> (#[trigger] out@[i]).kind == NodeKind::Getter
                    && !out@[i].is_reference && out@[i].name is None,
            entry@.field_info is Some && out@.len() > 0 ==> out@[0].children@.len() == 1
                && shape_of(out@[0].children@[0]) == spec_field_leaf(entry@.field_info->Some_0),
            forall|i: int| 0 <= i < out@.len() ==> (#[trigger] out@[i]).is_satisfied is None,
            forall|i: int|
                0 <= i < out@.len() ==> (i > 0 || entry@.field_info is None) ==> (
                #[trigger] out@[i]).children@.len() == 0,
        decreases n - k,
    {
        proof {
            assert(notes[k as int] == entry.delegation_notes@[k as int]@);
        }
        match extract_getter_trait_from_note(entry.delegation_notes[k].as_str()) {
            Some(g) => {
                let gv = to_char_vec(g.as_str());
                let desc = bt_pair_exec(&gv, &ctxv);
                let mut children: Vec<DependencyNode> = Vec::new();
                if out.len() == 0 {
                    match &entry.field_info {
                        Some(fi) => {
                            let fdesc = field_desc_exec(fi);
                            let field_node = DependencyNode {
                                description: fdesc,
                                kind: NodeKind::Field,
                                name: None,
                                is_satisfied: Some(false),
                                is_reference: false,
                                children: Vec::new(),
                            };
                            children.push(field_node);
                        },
                        None => {},
                    }
                }
                let node = DependencyNode {
                    description: desc,
                    kind: NodeKind::Getter,
                    name: None,
                    is_satisfied: None,
                    is_reference: false,
                    children,
                };
                proof {
                    if node.children@.len() > 0 {
                        lemma_leaf_names(node.children@[0]);
                        lemma_singleton_names(node.children@);
                        assert(shapes_from(node.children@[0].children@, 0) =~= Seq::<
                            NodeShape,
                        >::empty());
                        assert(shape_of(node.children@[0]) =~= spec_field_leaf(
                            entry@.field_info->Some_0,
                        ));
                    } else {
                        assert(expanded_names_seq(node.children@, 0) =~= Seq::<Seq<
                            char,
                        >>::empty());
                    }
                    lemma_node_names(node);
                }
                let ghost prev = out@;
                out.push(node);
                proof {
                    lemma_expanded_push(prev, node, 0);
                    assert(expanded_names_seq(out@, 0) =~= Seq::<Seq<char>>::empty());
                    assert(descs_of(out@) =~= descs_of(prev).push(node.description@));
                    assert(spec_getter_descs(notes, 0, context_type@) =~= descs_of(out@)
                        + spec_getter_descs(notes, k as int + 1, context_type@));
                }
            },
            None => {},
        }
        k += 1;
    }
    proof {
        assert(descs_of(out@) =~= descs_of(out@) + spec_getter_descs(
            notes,
            n as int,
            context_type@,
        ));
        assert(notes == entry@.delegation_notes);
        let expect = spec_getter_shapes(entry@, context_type@);
        lemma_shapes_index(out@);
        assert(expect.len() == descs_of(out@).len());
        assert forall|i: int| 0 <= i < out@.len() implies shapes_of(out@)[i] == expect[i] by {
            assert(shapes_of(out@)[i] == shape_of(out@[i]));
            if i == 0 && entry@.field_info is Some {
                lemma_shapes_singleton(out@[i].children@);
            } else {
                assert(shapes_from(out@[i].children@, 0) =~= Seq::<NodeShape>::empty());
            }
            assert(out@[i].description@ == descs_of(out@)[i]);
            assert(shape_of(out@[i]) =~= expect[i]);
        }
        assert(shapes_of(out@) =~= expect);
    }
    out
}

fn rendered_contains(rendered: &Vec<String>, name: &String) -> (r: bool)
    ensures
        r == strs_of(rendered@).contains(name@),
{
    let mut j: usize = 0;
    while j < rendered.len()
        invariant
            0 <= j <= rendered.len(),
            forall|t: int| 0 <= t < j ==> strs_of(rendered@)[t] != name@,
        decreases rendered.len() - j,
    {
        if rendered[j] == *name {
            proof {
                assert(strs_of(rendered@)[j as int] == name@);
            }
            return true;
        }
        j += 1;
    }
    proof {
        assert(forall|t: int| 0 <= t < rendered@.len() ==> strs_of(rendered@)[t] != name@);
    }
    false
}

/// The first capability whose derivable provider-interface name shares a
/// significant word with the nested consumer interface's action part.
pub open spec fn spec_nested_found(
    cis: Seq<ComponentInfoV>,
    k: int,
    nct: Seq<char>,
) -> Option<int>
    decreases cis.len() - k,
    when 0 <= k <= cis.len()
{
    if k >= cis.len() {
        None
    } else if cis[k].provider_trait is Some && nct.len() >= "Can"@.len() && match_at(
        nct,
        "Can"@,
        0,
    ) && spec_words_share(
        spec_name_words(spec_action_part(nct)),
        spec_name_words(cis[k].provider_trait->Some_0),
    ) {
        Some(k)
    } else {
        spec_nested_found(cis, k + 1, nct)
    }
}

/// The shape of the subtree built for one nested consumer-interface
/// dependency: a reference leaf when the interface was already expanded;
/// else the consumer node over the matching capability's provider with its
/// getter requirements, or over the unsatisfied provider named by the main
/// message.
pub open spec fn spec_nested_shape(
    e: DiagnosticEntryV,
    nc: NestedConsumerTraitV,
    is_ref: bool,
) -> NodeShape {
    let children: Seq<NodeShape> = if is_ref {
        Seq::empty()
    } else {
        match spec_nested_found(e.component_infos, 0, nc.trait_name) {
            Some(fidx) => {
                let ci = e.component_infos[fidx];
                match spec_match_component_to_provider(ci, e.provider_relationships) {
                    Some(rel) => match ci.provider_trait {
                        Some(pt) => seq![
                            NodeShape {
                                description: spec_provider_desc(
                                    pt,
                                    nc.context_type,
                                    rel.provider_type,
                                ),
                                kind: NodeKind::Provider,
                                name: None,
                                is_satisfied: None,
                                is_reference: false,
                                children: spec_getter_shapes(e, nc.context_type),
                            },
                        ],
                        None => Seq::empty(),
                    },
                    None => Seq::empty(),
                }
            },
            None => match spec_unsatisfied_provider(e.message) {
                Some(u) => seq![
                    NodeShape {
                        description: spec_provider_desc(
                            u.trait_name,
                            u.context_type,
                            u.provider_type,
                        ),
                        kind: NodeKind::Provider,
                        name: None,
                        is_satisfied: Some(false),
                        is_reference: false,
                        children: Seq::empty(),
                    },
                ],
                None => Seq::empty(),
            },
        }
    };
    NodeShape {
        description: spec_bt_pair(nc.trait_name, nc.context_type),
        kind: NodeKind::Consumer,
        name: Some(nc.trait_name),
        is_satisfied: None,
        is_reference: is_ref,
        children,
    }
}

/// Builds the subtree for one nested consumer-interface dependency.  When
/// the interface was already fully expanded in this tree, a reference leaf
/// is emitted instead of a new expansion.
#[verifier::loop_isolation(false)]
#[verifier::rlimit(60)]
pub fn build_nested_consumer_provider_nodes(
    entry: &DiagnosticEntry,
    nested_consumer: &NestedConsumerTrait,
    rendered: &mut Vec<String>,
) -> (r: Vec<DependencyNode>)
    ensures
        r@.len() == 1,
        r@[0].kind == NodeKind::Consumer,
        opt_str(r@[0].name) == Some(nested_consumer@.trait_name),
        r@[0].is_reference == strs_of(old(rendered)@).contains(nested_consumer@.trait_name),
        r@[0].description@ == spec_bt_pair(
            nested_consumer@.trait_name,
            nested_consumer@.context_type,
        ),
        expanded_names_seq(r@, 0) == (if strs_of(old(rendered)@).contains(
            nested_consumer@.trait_name,
        ) {
            Seq::<Seq<char>>::empty()
        } else {
            seq![nested_consumer@.trait_name]
        }),
        strs_of(final(rendered)@) == strs_of(old(rendered)@) + expanded_names_seq(r@, 0),
        r@[0].is_reference ==> r@[0].children@.len() == 0,
        shape_of(r@[0]) == spec_nested_shape(
            entry@,
            nested_consumer@,
            strs_of(old(rendered)@).contains(nested_consumer@.trait_name),
        ),
{
    let is_reference = rendered_contains(rendered, &nested_consumer.trait_name);
    let tv = to_char_vec(nested_consumer.trait_name.as_str());
    let cv = to_char_vec(nested_consumer.context_type.as_str());
    let desc = bt_pair_exec(&tv, &cv);
    if is_reference {
        let node = DependencyNode {
            description: desc,
            kind: NodeKind::Consumer,
            name: Some(nested_consumer.trait_name.clone()),
            is_satisfied: None,
            is_reference: true,
            children: Vec::new(),
        };
        let mut out: Vec<DependencyNode> = Vec::new();
        out.push(node);
        proof {
            lemma_leaf_names(out@[0]);
            lemma_singleton_names(out@);
            assert(strs_of(rendered@) =~= strs_of(rendered@) + expanded_names_seq(out@, 0));
            assert(shapes_from(out@[0].children@, 0) =~= Seq::<NodeShape>::empty());
            assert(shape_of(out@[0]) =~= spec_nested_shape(entry@, nested_consumer@, true));
        }
        return out;
    }
    let mut children: Vec<DependencyNode> = Vec::new();
    let nci = entry.component_infos.len();
    let ghost civ = views_of(entry.component_infos@);
    let ghost tn = nested_consumer@.trait_name;
    let action = action_part_exec(&tv);
    let nwords = name_words_exec(&action);
    let mut ci_idx: usize = 0;
    let mut found: Option<usize> = None;
    while ci_idx < nci
        invariant
            0 <= ci_idx <= nci,
            nci == civ.len(),
            civ == views_of(entry.component_infos@),
            civ == entry@.component_infos,
            tn == nested_consumer@.trait_name,
            tv@ == tn,
            views_of(nwords@) == spec_name_words(spec_action_part(tn)),
            match found {
                Some(f) => f < nci && spec_nested_found(civ, 0, tn) == Some(f as int),
                None => spec_nested_found(civ, 0, tn) == spec_nested_found(civ, ci_idx as int, tn),
            },
        decreases nci - ci_idx,
    {
        if found.is_none() {
            proof {
                assert(civ[ci_idx as int] == entry.component_infos@[ci_idx as int]@);
            }
            let mut hit = false;
            match &entry.component_infos[ci_idx].provider_trait {
                Some(pt) => {
                    let ptv = to_char_vec(pt.as_str());
                    let pwords = name_words_exec(&ptv);
                    let starts_can = {
                        let pre = to_char_vec("Can");
                        pre.len() <= tv.len() && crate::text::match_here(&tv, &pre, 0)
                    };
                    if starts_can && words_share_exec(&nwords, &pwords) {
                        hit = true;
                    }
                },
                None => {},
            }
            if hit {
                found = Some(ci_idx);
            }
        }
        ci_idx += 1;
    }
    match found {
        Some(fidx) => {
            let ci = &entry.component_infos[fidx];
            proof {
                assert(civ[fidx as int] == entry.component_infos@[fidx as int]@);
            }
            match match_component_to_provider(ci, &entry.provider_relationships) {
                Some(rel) => {
                    match &ci.provider_trait {
                        Some(pt) => {
                            let ptv = to_char_vec(pt.as_str());
                            let provv = to_char_vec(rel.provider_type.as_str());
                            let pdesc = provider_desc_exec(&ptv, &cv, &provv, false);
                            let getters = build_getter_nodes(
                                entry,
                                nested_consumer.context_type.as_str(),
                            );
                            let pnode = DependencyNode {
                                description: pdesc,
                                kind: NodeKind::Provider,
                                name: None,
                                is_satisfied: None,
                                is_reference: false,
                                children: getters,
                            };
                            proof {
                                lemma_node_names(pnode);
                            }
                            children.push(pnode);
                        },
                        None => {},
                    }
                },
                None => {},
            }
        },
        None => {
            match extract_unsatisfied_provider_from_message(entry.message.as_str()) {
                Some(unsat) => {
                    let ptv = to_char_vec(unsat.trait_name.as_str());
                    let cxv = to_char_vec(unsat.context_type.as_str());
                    let provv = to_char_vec(unsat.provider_type.as_str());
                    let pdesc = provider_desc_exec(&ptv, &cxv, &provv, false);
                    let pnode = DependencyNode {
                        description: pdesc,
                        kind: NodeKind::Provider,
                        name: None,
                        is_satisfied: Some(false),
                        is_reference: false,
                        children: Vec::new(),
                    };
                    proof {
                        lemma_leaf_names(pnode);
                    }
                    children.push(pnode);
                },
                None => {},
            }
        },
    }
    proof {
        if children@.len() > 0 {
            assert(expanded_names(children@[0]) == Seq::<Seq<char>>::empty());
            lemma_singleton_names(children@);
        } else {
            assert(expanded_names_seq(children@, 0) =~= Seq::<Seq<char>>::empty());
        }
    }
    let ghost expect = spec_nested_shape(entry@, nested_consumer@, false);
    proof {
        if children@.len() > 0 {
            lemma_shapes_singleton(children@);
            assert(shapes_from(children@[0].children@, 0) == shapes_of(children@[0].children@));
            if children@[0].children@.len() == 0 {
                assert(shapes_from(children@[0].children@, 0) =~= Seq::<NodeShape>::empty());
            }
            assert(shape_of(children@[0]) =~= expect.children[0]);
            assert(shapes_from(children@, 0) =~= expect.children);
        } else {
            assert(shapes_from(children@, 0) =~= Seq::<NodeShape>::empty());
            assert(shapes_from(children@, 0) =~= expect.children);
        }
    }
    let node = DependencyNode {
        description: desc,
        kind: NodeKind::Consumer,
        name: Some(nested_consumer.trait_name.clone()),
        is_satisfied: None,
        is_reference: false,
        children,
    };
    let mut out: Vec<DependencyNode> = Vec::new();
    out.push(node);
    let ghost pre_rendered = strs_of(rendered@);
    rendered.push(nested_consumer.trait_name.clone());
    proof {
        assert(expanded_names(out@[0]) =~= seq![nested_consumer@.trait_name]);
        lemma_singleton_names(out@);
        assert(strs_of(rendered@) =~= pre_rendered + expanded_names_seq(out@, 0));
        assert(shape_of(out@[0]) =~= expect);
    }
    out
}

/// The nested consumer-interface dependencies that are foreign to the
/// current consumer interface: the current interface itself is never shown
/// as its own dependency.
pub open spec fn spec_nested_filtered(
    ncs: Seq<NestedConsumerTraitV>,
    k: int,
    cur: Option<Seq<char>>,
) -> Seq<NestedConsumerTraitV>
    decreases ncs.len() - k,
    when 0 <= k <= ncs.len()
{
    if k >= ncs.len() {
        Seq::empty()
    } else {
        let rest = spec_nested_filtered(ncs, k + 1, cur);
        let keep = match cur {
            Some(ct) => ncs[k].trait_name != ct,
            None => true,
        };
        if keep {
            seq![ncs[k]] + rest
        } else {
            rest
        }
    }
}

/// Whether the chosen provider type wraps one of the detected inner
/// providers as a type parameter.
pub open spec fn spec_is_higher_order(
    rels: Seq<ProviderRelationshipV>,
    relpt: Seq<char>,
) -> bool {
    let inner = spec_inner_providers_from(rels, 0, Seq::empty());
    exists|t: int| 0 <= t < inner.len() && spec_is_contained(#[trigger] inner[t], relpt)
}

/// View of an optional borrowed string.
pub open spec fn opt_ref_str(o: Option<&String>) -> Option<Seq<char>> {
    match o {
        Some(s) => Some(s@),
        None => None,
    }
}

/// The shapes of the subtrees built for a list of foreign nested
/// dependencies, threading the set of already-expanded interface names left
/// to right: a repeated name becomes a reference leaf.
pub open spec fn spec_nested_shapes(
    e: DiagnosticEntryV,
    nf: Seq<NestedConsumerTraitV>,
    t: int,
    rendered: Seq<Seq<char>>,
) -> (Seq<NodeShape>, Seq<Seq<char>>)
    decreases nf.len() - t,
    when 0 <= t <= nf.len()
{
    if t >= nf.len() {
        (Seq::empty(), rendered)
    } else {
        let is_ref = rendered.contains(nf[t].trait_name);
        let sh = spec_nested_shape(e, nf[t], is_ref);
        let rendered2: Seq<Seq<char>> = if is_ref {
            rendered
        } else {
            rendered.push(nf[t].trait_name)
        };
        let rest = spec_nested_shapes(e, nf, t + 1, rendered2);
        (seq![sh] + rest.0, rest.1)
    }
}

/// The shapes of a built provider node's children: the getter requirements
/// when no foreign nested dependency exists, else the nested subtrees, plus
/// the pre-satisfied inner-provider hint for a higher-order provider.
pub open spec fn spec_provider_children_shapes(
    e: DiagnosticEntryV,
    ctx: Seq<char>,
    pt: Seq<char>,
    relpt: Seq<char>,
    cur: Option<Seq<char>>,
    rendered0: Seq<Seq<char>>,
) -> Seq<NodeShape> {
    let nf = spec_nested_filtered(spec_nested_consumers_from(e.delegation_notes, 0), 0, cur);
    let gpart: Seq<NodeShape> = if nf.len() == 0 {
        spec_getter_shapes(e, ctx)
    } else {
        Seq::empty()
    };
    let npart = spec_nested_shapes(e, nf, 0, rendered0).0;
    let inner = spec_inner_providers_from(e.provider_relationships, 0, Seq::empty());
    let hpart: Seq<NodeShape> = if spec_is_higher_order(e.provider_relationships, relpt)
        && inner.len() > 0 {
        seq![
            NodeShape {
                description: spec_inner_desc(pt, ctx, inner[0]),
                kind: NodeKind::Provider,
                name: None,
                is_satisfied: Some(true),
                is_reference: false,
                children: Seq::empty(),
            },
        ]
    } else {
        Seq::empty()
    };
    gpart + npart + hpart
}

/// The shape of a built provider node.
pub open spec fn spec_provider_node_shape(
    e: DiagnosticEntryV,
    ctx: Seq<char>,
    pt: Seq<char>,
    relpt: Seq<char>,
    cur: Option<Seq<char>>,
    rendered0: Seq<Seq<char>>,
) -> NodeShape {
    NodeShape {
        description: spec_provider_desc(pt, ctx, relpt),
        kind: NodeKind::Provider,
        name: None,
        is_satisfied: None,
        is_reference: false,
        children: spec_provider_children_shapes(e, ctx, pt, relpt, cur, rendered0),
    }
}

/// The children of a built provider node: the getter requirements exactly
/// when no foreign nested consumer interface exists, else one consumer
/// subtree per foreign nested dependency — never both — plus a trailing
/// pre-satisfied inner-provider hint when the provider is higher order.
pub open spec fn spec_provider_children(
    e: DiagnosticEntryV,
    ctx: Seq<char>,
    pt: Seq<char>,
    relpt: Seq<char>,
    cur: Option<Seq<char>>,
    children: Seq<DependencyNode>,
) -> bool {
    let nf = spec_nested_filtered(spec_nested_consumers_from(e.delegation_notes, 0), 0, cur);
    let gd: Seq<Seq<char>> = if nf.len() == 0 {
        spec_getter_descs(e.delegation_notes, 0, ctx)
    } else {
        Seq::empty()
    };
    let inner = spec_inner_providers_from(e.provider_relationships, 0, Seq::empty());
    let hint: int = if spec_is_higher_order(e.provider_relationships, relpt) && inner.len() > 0 {
        1
    } else {
        0
    };
    &&& children.len() == gd.len() + nf.len() + hint
    &&& forall|i: int|
        0 <= i < gd.len() ==> (#[trigger] children[i]).kind == NodeKind::Getter
            && children[i].description@ == gd[i] && !children[i].is_reference
            && children[i].name is None
    &&& forall|t: int|
        0 <= t < nf.len() ==> (#[trigger] children[gd.len() + t]).kind == NodeKind::Consumer
            && opt_str(children[gd.len() + t].name) == Some(nf[t].trait_name) && children[gd.len()
            + t].description@ == spec_bt_pair(nf[t].trait_name, nf[t].context_type) && (children[
            gd.len() + t].is_reference ==> children[gd.len() + t].children@.len() == 0)
    &&& hint == 1 ==> children.last().kind == NodeKind::Provider && children.last().is_satisfied
        == Some(true) && !children.last().is_reference && children.last().children@.len() == 0
        && children.last().description@ == spec_inner_desc(pt, ctx, inner[0])
}

/// Builds the provider subtree for one capability: the provider node with
/// its getter requirements or nested consumer-interface dependencies, and
/// an inner-provider hint for higher-order providers.
#[verifier::loop_isolation(false)]
#[verifier::rlimit(100)]
pub fn build_provider_nodes_for_component(
    entry: &DiagnosticEntry,
    context_type: &str,
    component_info: Option<&ComponentInfo>,
    provider_rel: Option<&ProviderRelationship>,
    rendered: &mut Vec<String>,
    current_consumer_trait: Option<&String>,
) -> (r: Vec<DependencyNode>)
    ensures
        strs_of(final(rendered)@) == strs_of(old(rendered)@) + expanded_names_seq(r@, 0),
        no_dup(expanded_names_seq(r@, 0)),
        forall|t: int|
            0 <= t < expanded_names_seq(r@, 0).len() ==> !strs_of(old(rendered)@).contains(
                #[trigger] expanded_names_seq(r@, 0)[t],
            ),
        current_consumer_trait matches Some(ct) ==> !expanded_names_seq(r@, 0).contains(ct@),
        r@.len() <= 1,
        r@.len() == 1 ==> r@[0].kind == NodeKind::Provider && !r@[0].is_reference
            && r@[0].name is None,
        ({
            let relv = match provider_rel {
                Some(rr) => Some(rr@),
                None => if spec_dedup_rels(entry@.provider_relationships).len() > 0 {
                    Some(spec_dedup_rels(entry@.provider_relationships)[0])
                } else {
                    None
                },
            };
            let ptv = match component_info {
                Some(ci) => ci@.provider_trait,
                None => None,
            };
            if relv is Some && ptv is Some {
                r@.len() == 1 && r@[0].description@ == spec_provider_desc(
                    ptv->Some_0,
                    context_type@,
                    (relv->Some_0).provider_type,
                ) && spec_provider_children(
                    entry@,
                    context_type@,
                    ptv->Some_0,
                    (relv->Some_0).provider_type,
                    opt_ref_str(current_consumer_trait),
                    r@[0].children@,
                ) && shape_of(r@[0]) == spec_provider_node_shape(
                    entry@,
                    context_type@,
                    ptv->Some_0,
                    (relv->Some_0).provider_type,
                    opt_ref_str(current_consumer_trait),
                    strs_of(old(rendered)@),
                )
            } else {
                r@.len() == 0
            }
        }),
{
    let all_inner = detect_inner_providers(&entry.provider_relationships);
    let ghost all_innerv = strs_of(all_inner@);
    let deduped = deduplicate_provider_relationships(&entry.provider_relationships);
    let rel_to_use: Option<ProviderRelationship> = match provider_rel {
        Some(r) => Some(r.clone()),
        None => {
            if deduped.len() > 0 {
                Some(deduped[0].clone())
            } else {
                None
            }
        },
    };
    let empty_out: Vec<DependencyNode> = Vec::new();
    proof {
        assert(expanded_names_seq(empty_out@, 0) =~= Seq::<Seq<char>>::empty());
        assert(strs_of(rendered@) =~= strs_of(rendered@) + expanded_names_seq(empty_out@, 0));
    }
    let rel = match rel_to_use {
        Some(rel) => rel,
        None => {
            return empty_out;
        },
    };
    let ci = match component_info {
        Some(ci) => ci,
        None => {
            return empty_out;
        },
    };
    let pt = match &ci.provider_trait {
        Some(pt) => pt,
        None => {
            return empty_out;
        },
    };
    let relpt = to_char_vec(rel.provider_type.as_str());
    let mut is_higher_order = false;
    let mut hi: usize = 0;
    while hi < all_inner.len()
        invariant
            0 <= hi <= all_inner.len(),
            all_innerv == strs_of(all_inner@),
            relpt@ == rel@.provider_type,
            is_higher_order == exists|t: int|
                0 <= t < hi && spec_is_contained(#[trigger] all_innerv[t], rel@.provider_type),
        decreases all_inner.len() - hi,
    {
        proof {
            assert(all_innerv[hi as int] == all_inner@[hi as int]@);
        }
        let iv = to_char_vec(all_inner[hi].as_str());
        if is_contained_chars(&iv, &relpt) {
            is_higher_order = true;
        }
        hi += 1;
    }
    proof {
        assert(is_higher_order == spec_is_higher_order(
            entry@.provider_relationships,
            rel@.provider_type,
        ));
    }
    let nested_all = extract_nested_consumer_traits(&entry.delegation_notes);
    let ghost nav = views_of(nested_all@);
    let ghost curv = opt_ref_str(current_consumer_trait);
    let mut nested_filtered: Vec<NestedConsumerTrait> = Vec::new();
    proof {
        assert(views_of(nested_filtered@) =~= Seq::<NestedConsumerTraitV>::empty());
    }
    let mut fi: usize = 0;
    while fi < nested_all.len()
        invariant
            0 <= fi <= nested_all.len(),
            nav == views_of(nested_all@),
            curv == opt_ref_str(current_consumer_trait),
            spec_nested_filtered(nav, 0, curv) =~= views_of(nested_filtered@)
                + spec_nested_filtered(nav, fi as int, curv),
            forall|i: int|
                0 <= i < nested_filtered@.len() ==> (current_consumer_trait matches Some(ct)
                    ==> (#[trigger] nested_filtered@[i])@.trait_name != ct@),
        decreases nested_all.len() - fi,
    {
        proof {
            assert(nav[fi as int] == nested_all@[fi as int]@);
        }
        let keep = match current_consumer_trait {
            Some(ct) => !(nested_all[fi].trait_name == *ct),
            None => true,
        };
        if keep {
            let ghost prev = views_of(nested_filtered@);
            let item = nested_all[fi].clone();
            let ghost itemv = item@;
            nested_filtered.push(item);
            proof {
                assert(views_of(nested_filtered@) =~= prev.push(itemv));
            }
        }
        proof {
            assert(spec_nested_filtered(nav, 0, curv) =~= views_of(nested_filtered@)
                + spec_nested_filtered(nav, fi as int + 1, curv));
        }
        fi += 1;
    }
    let ghost nfv = spec_nested_filtered(nav, 0, curv);
    proof {
        assert(views_of(nested_filtered@) =~= views_of(nested_filtered@)
            + spec_nested_filtered(nav, nested_all@.len() as int, curv));
        assert(nfv == views_of(nested_filtered@));
    }
    let ghost old_rendered = strs_of(rendered@);
    let nn = nested_filtered.len();
    let ghost gd: Seq<Seq<char>> = if nn == 0 {
        spec_getter_descs(entry@.delegation_notes, 0, context_type@)
    } else {
        Seq::<Seq<char>>::empty()
    };
    let ghost gshapes: Seq<NodeShape> = if nn == 0 {
        spec_getter_shapes(entry@, context_type@)
    } else {
        Seq::<NodeShape>::empty()
    };
    let mut children: Vec<DependencyNode>;
    if nn == 0 {
        children = build_getter_nodes(entry, context_type);
        proof {
            assert(strs_of(entry.delegation_notes@) == entry@.delegation_notes);
            assert(children@.len() == gd.len());
            assert(shapes_of(children@) == gshapes);
        }
    } else {
        children = Vec::new();
        proof {
            assert(expanded_names_seq(children@, 0) =~= Seq::<Seq<char>>::empty());
            assert(shapes_of(children@) =~= gshapes);
        }
    }
    proof {
        assert(strs_of(rendered@) =~= old_rendered + expanded_names_seq(children@, 0));
        assert(shapes_of(children@) + spec_nested_shapes(entry@, nfv, 0, strs_of(rendered@)).0
            =~= gshapes + spec_nested_shapes(entry@, nfv, 0, old_rendered).0);
    }
    let mut k: usize = 0;
    while k < nn
        invariant
            0 <= k <= nn,
            nn == nested_filtered@.len(),
            nfv == views_of(nested_filtered@),
            nfv == spec_nested_filtered(
                spec_nested_consumers_from(entry@.delegation_notes, 0),
                0,
                opt_ref_str(current_consumer_trait),
            ),
            gd == (if nn == 0 {
                spec_getter_descs(entry@.delegation_notes, 0, context_type@)
            } else {
                Seq::<Seq<char>>::empty()
            }),
            forall|i: int|
                0 <= i < nested_filtered@.len() ==> (current_consumer_trait matches Some(ct)
                    ==> (#[trigger] nested_filtered@[i])@.trait_name != ct@),
            children@.len() == gd.len() + k,
            forall|i: int|
                0 <= i < gd.len() ==> (#[trigger] children@[i]).kind == NodeKind::Getter
                    && children@[i].description@ == gd[i] && !children@[i].is_reference
                    && children@[i].name is None,
            forall|t: int|
                0 <= t < k ==> (#[trigger] children@[gd.len() + t]).kind == NodeKind::Consumer
                    && opt_str(children@[gd.len() + t].name) == Some(nfv[t].trait_name)
                    && children@[gd.len() + t].description@ == spec_bt_pair(
                    nfv[t].trait_name,
                    nfv[t].context_type,
                ) && (children@[gd.len() + t].is_reference ==> children@[gd.len()
                    + t].children@.len() == 0),
            strs_of(rendered@) == old_rendered + expanded_names_seq(children@, 0),
            no_dup(expanded_names_seq(children@, 0)),
            forall|t: int|
                0 <= t < expanded_names_seq(children@, 0).len() ==> !old_rendered.contains(
                    #[trigger] expanded_names_seq(children@, 0)[t],
                ),
            current_consumer_trait matches Some(ct) ==> !expanded_names_seq(
                children@,
                0,
            ).contains(ct@),
            gshapes == (if nn == 0 {
                spec_getter_shapes(entry@, context_type@)
            } else {
                Seq::<NodeShape>::empty()
            }),
            shapes_of(children@) + spec_nested_shapes(entry@, nfv, k as int, strs_of(
                rendered@,
            )).0 =~= gshapes + spec_nested_shapes(entry@, nfv, 0, old_rendered).0,
            spec_nested_shapes(entry@, nfv, k as int, strs_of(rendered@)).1
                == spec_nested_shapes(entry@, nfv, 0, old_rendered).1,
        decreases nn - k,
    {
        let ghost names_so_far = expanded_names_seq(children@, 0);
        let ghost at_call = strs_of(rendered@);
        proof {
            assert(nfv[k as int] == nested_filtered@[k as int]@);
        }
        let mut sub = build_nested_consumer_provider_nodes(entry, &nested_filtered[k],
            rendered);
        let ghost sub_names = expanded_names_seq(sub@, 0);
        let ghost pre_children = children@;
        let ghost pre_sub = sub@;
        append_nodes(&mut children, &mut sub);
        proof {
            lemma_expanded_concat(pre_children, pre_sub);
            assert(children@ =~= pre_children + pre_sub);
            assert(children@[gd.len() + k as int] == pre_sub[0]);
            assert(expanded_names_seq(children@, 0) == names_so_far + sub_names);
            assert(strs_of(rendered@) =~= old_rendered + expanded_names_seq(children@, 0));
            lemma_shapes_concat(pre_children, pre_sub);
            lemma_shapes_index(pre_sub);
            assert(shapes_of(pre_sub) =~= seq![shape_of(pre_sub[0])]);
            let is_ref = at_call.contains(nfv[k as int].trait_name);
            assert(shape_of(pre_sub[0]) == spec_nested_shape(entry@, nfv[k as int], is_ref));
            assert(strs_of(rendered@) == (if is_ref {
                at_call
            } else {
                at_call.push(nfv[k as int].trait_name)
            }));
            assert(spec_nested_shapes(entry@, nfv, k as int, at_call).0 =~= seq![
                shape_of(pre_sub[0]),
            ] + spec_nested_shapes(entry@, nfv, k as int + 1, strs_of(rendered@)).0);
            assert(spec_nested_shapes(entry@, nfv, k as int, at_call).1
                == spec_nested_shapes(entry@, nfv, k as int + 1, strs_of(rendered@)).1);
            assert(shapes_of(children@) + spec_nested_shapes(entry@, nfv, k as int + 1, strs_of(
                rendered@,
            )).0 =~= gshapes + spec_nested_shapes(entry@, nfv, 0, old_rendered).0);
            if sub_names.len() > 0 {
                let x = nested_filtered@[k as int]@.trait_name;
                assert(sub_names =~= seq![x]);
                assert(!at_call.contains(x));
                assert forall|u: int| 0 <= u < names_so_far.len() implies names_so_far[u]
                    != x by {
                    if names_so_far[u] == x {
                        assert(at_call[old_rendered.len() + u] == x);
                        assert(at_call.contains(x));
                    }
                }
                assert forall|u: int| 0 <= u < old_rendered.len() implies old_rendered[u]
                    != x by {
                    if old_rendered[u] == x {
                        assert(at_call[u] == x);
                        assert(at_call.contains(x));
                    }
                }
                assert(no_dup(expanded_names_seq(children@, 0)));
                assert forall|t: int|
                    0 <= t < expanded_names_seq(children@, 0).len() implies !old_rendered
                    .contains(#[trigger] expanded_names_seq(children@, 0)[t]) by {
                    if t < names_so_far.len() {
                    } else {
                        assert(expanded_names_seq(children@, 0)[t] == x);
                        if old_rendered.contains(x) {
                            let w = choose|w: int|
                                0 <= w < old_rendered.len() && old_rendered[w] == x;
                            assert(at_call[w] == x);
                            assert(at_call.contains(x));
                        }
                    }
                }
                match current_consumer_trait {
                    Some(ct) => {
                        assert(x != ct@);
                        assert(!expanded_names_seq(children@, 0).contains(ct@)) by {
                            if expanded_names_seq(children@, 0).contains(ct@) {
                                let w = choose|w: int|
                                    0 <= w < expanded_names_seq(children@, 0).len()
                                        && expanded_names_seq(children@, 0)[w] == ct@;
                                if w < names_so_far.len() {
                                    assert(names_so_far[w] == ct@);
                                    assert(names_so_far.contains(ct@));
                                }
                            }
                        }
                    },
                    None => {},
                }
            } else {
                assert(expanded_names_seq(children@, 0) =~= names_so_far);
            }
        }
        k += 1;
    }
    let hint_now = is_higher_order && all_inner.len() > 0;
    if hint_now {
        let ptv = to_char_vec(pt.as_str());
        let cxv = to_char_vec(context_type);
        let innerv = to_char_vec(all_inner[0].as_str());
        proof {
            assert(all_innerv[0] == all_inner@[0]@);
        }
        let idesc = provider_desc_exec(&ptv, &cxv, &innerv, true);
        let inode = DependencyNode {
            description: idesc,
            kind: NodeKind::Provider,
            name: None,
            is_satisfied: Some(true),
            is_reference: false,
            children: Vec::new(),
        };
        proof {
            lemma_leaf_names(inode);
        }
        let ghost pre_children = children@;
        let ghost inode_g = inode;
        children.push(inode);
        proof {
            lemma_expanded_push(pre_children, inode, 0);
            assert(expanded_names_seq(children@, 0) =~= expanded_names_seq(pre_children, 0));
            assert(children@ =~= pre_children + seq![inode_g]);
            lemma_shapes_concat(pre_children, seq![inode_g]);
            lemma_shapes_index(seq![inode_g]);
            assert(shapes_from(inode_g.children@, 0) =~= Seq::<NodeShape>::empty());
            assert(shapes_of(seq![inode_g]) =~= seq![shape_of(inode_g)]);
            assert(shapes_of(children@) =~= shapes_of(pre_children) + seq![shape_of(inode_g)]);
        }
    }
    let ptv = to_char_vec(pt.as_str());
    let cxv = to_char_vec(context_type);
    let provv = to_char_vec(rel.provider_type.as_str());
    let pdesc = provider_desc_exec(&ptv, &cxv, &provv, false);
    let ghost child_names = expanded_names_seq(children@, 0);
    let ghost final_children = children@;
    let pnode = DependencyNode {
        description: pdesc,
        kind: NodeKind::Provider,
        name: None,
        is_satisfied: None,
        is_reference: false,
        children,
    };
    let mut out: Vec<DependencyNode> = Vec::new();
    out.push(pnode);
    proof {
        assert(expanded_names(pnode) =~= child_names);
        lemma_singleton_names(out@);
        assert(expanded_names_seq(out@, 0) == child_names);
        assert(spec_provider_children(
            entry@,
            context_type@,
            pt@,
            rel@.provider_type,
            opt_ref_str(current_consumer_trait),
            final_children,
        ));
        assert(spec_nested_shapes(entry@, nfv, nn as int, strs_of(rendered@)).0 =~= Seq::<
            NodeShape,
        >::empty());
        assert(shapes_of(final_children) =~= spec_provider_children_shapes(
            entry@,
            context_type@,
            pt@,
            rel@.provider_type,
            opt_ref_str(current_consumer_trait),
            old_rendered,
        ));
        assert(shape_of(out@[0]) =~= spec_provider_node_shape(
            entry@,
            context_type@,
            pt@,
            rel@.provider_type,
            opt_ref_str(current_consumer_trait),
            old_rendered,
        ));
    }
    out
}

/// Moves the nodes of `other` onto the end of `v`.
fn append_nodes(v: &mut Vec<DependencyNode>, other: &mut Vec<DependencyNode>)
    ensures
        final(v)@ == old(v)@ + old(other)@,
{
    v.append(other);
}

/// The description and interface name of the consumer child built for the
/// capability at index `i`: the recognized consumer interface applied to
/// the context, or the generic wording over the simplified capability name.
pub open spec fn spec_consumer_label(e: DiagnosticEntryV, i: int, ctx: Seq<char>) -> (
    Seq<char>,
    Option<Seq<char>>,
) {
    let comp_name = spec_strip_module_prefixes(e.component_infos[i].component_type);
    match spec_find_consumer_trait(comp_name, e) {
        Some(t) => (spec_bt_pair(t, ctx), Some(t)),
        None => ("consumer trait of `"@ + comp_name + "` for `"@ + ctx + "`"@, None),
    }
}

/// The context type a tree is built for: the record type missing the field,
/// else the context named by the delegation notes.
pub open spec fn spec_tree_context(e: DiagnosticEntryV) -> Option<Seq<char>> {
    match e.field_info {
        Some(fi) => Some(fi.target_type),
        None => spec_context_from_notes(e.delegation_notes, 0),
    }
}

/// The shapes of the provider nodes built for one capability: the matched
/// relationship's provider node when the capability has a derivable
/// provider interface, else nothing.
pub open spec fn spec_provider_nodes_shapes(
    e: DiagnosticEntryV,
    ctx: Seq<char>,
    ci: ComponentInfoV,
    cur: Option<Seq<char>>,
    rendered: Seq<Seq<char>>,
) -> Seq<NodeShape> {
    let relv = match spec_match_component_to_provider(ci, e.provider_relationships) {
        Some(r) => Some(r),
        None => if spec_dedup_rels(e.provider_relationships).len() > 0 {
            Some(spec_dedup_rels(e.provider_relationships)[0])
        } else {
            None
        },
    };
    match relv {
        Some(rel) => match ci.provider_trait {
            Some(pt) => seq![
                spec_provider_node_shape(e, ctx, pt, rel.provider_type, cur, rendered),
            ],
            None => Seq::empty(),
        },
        None => Seq::empty(),
    }
}

/// The shapes of the root's consumer children, one per capability,
/// threading the set of already-expanded interface names left to right: a
/// capability whose consumer interface was already expanded becomes a
/// reference leaf.
pub open spec fn spec_root_children(
    e: DiagnosticEntryV,
    ctx: Seq<char>,
    k: int,
    rendered: Seq<Seq<char>>,
) -> Seq<NodeShape>
    decreases e.component_infos.len() - k,
    when 0 <= k <= e.component_infos.len()
{
    if k >= e.component_infos.len() {
        Seq::empty()
    } else {
        let label = spec_consumer_label(e, k, ctx);
        let already = match label.1 {
            Some(t) => rendered.contains(t),
            None => false,
        };
        let sh = if already {
            NodeShape {
                description: label.0,
                kind: NodeKind::Consumer,
                name: label.1,
                is_satisfied: None,
                is_reference: true,
                children: Seq::empty(),
            }
        } else {
            NodeShape {
                description: label.0,
                kind: NodeKind::Consumer,
                name: label.1,
                is_satisfied: None,
                is_reference: false,
                children: spec_provider_nodes_shapes(e, ctx, e.component_infos[k], label.1,
                    rendered),
            }
        };
        seq![sh] + spec_root_children(e, ctx, k + 1, rendered + shape_names(sh))
    }
}

/// The shape of the requirement tree built for an entry, when the check
/// interface and the context type are both known.
pub open spec fn spec_build_tree(e: DiagnosticEntryV) -> Option<NodeShape> {
    match e.consumer_trait {
        Some(check) => match spec_tree_context(e) {
            Some(ctx) => Some(
                NodeShape {
                    description: spec_bt_pair(check, ctx),
                    kind: NodeKind::Check,
                    name: None,
                    is_satisfied: None,
                    is_reference: false,
                    children: spec_root_children(e, ctx, 0, Seq::empty()),
                },
            ),
            None => None,
        },
        None => None,
    }
}

/// Every reference node in the subtree is a leaf.
pub open spec fn refs_are_leaves(sh: NodeShape) -> bool
    decreases sh, 0int,
{
    (sh.is_reference ==> sh.children.len() == 0) && refs_are_leaves_seq(sh.children, 0)
}

/// Every reference node in the subtrees from `k` on is a leaf.
pub open spec fn refs_are_leaves_seq(cs: Seq<NodeShape>, k: int) -> bool
    decreases cs, cs.len() - k + 1,
    when 0 <= k <= cs.len()
{
    if k >= cs.len() {
        true
    } else {
        refs_are_leaves(cs[k]) && refs_are_leaves_seq(cs, k + 1)
    }
}

proof fn lemma_refs_seq_all(cs: Seq<NodeShape>, k: int)
    requires
        0 <= k <= cs.len(),
        forall|i: int| k <= i < cs.len() ==> refs_are_leaves(#[trigger] cs[i]),
    ensures
        refs_are_leaves_seq(cs, k),
    decreases cs.len() - k,
{
    if k < cs.len() {
        lemma_refs_seq_all(cs, k + 1);
    }
}

proof fn lemma_refs_getters(e: DiagnosticEntryV, ctx: Seq<char>)
    ensures
        forall|i: int|
            0 <= i < spec_getter_shapes(e, ctx).len() ==> refs_are_leaves(
                #[trigger] spec_getter_shapes(e, ctx)[i],
            ),
{
    let gs = spec_getter_shapes(e, ctx);
    assert forall|i: int| 0 <= i < gs.len() implies refs_are_leaves(gs[i]) by {
        let children = gs[i].children;
        if children.len() > 0 {
            assert(refs_are_leaves_seq(children[0].children, 0));
            assert(refs_are_leaves(children[0]));
            assert(refs_are_leaves_seq(children, 1));
            assert(refs_are_leaves_seq(children, 0));
        } else {
            assert(refs_are_leaves_seq(children, 0));
        }
    }
}

proof fn lemma_refs_nested_shape(e: DiagnosticEntryV, nc: NestedConsumerTraitV, is_ref: bool)
    ensures
        refs_are_leaves(spec_nested_shape(e, nc, is_ref)),
{
    let sh = spec_nested_shape(e, nc, is_ref);
    if sh.children.len() > 0 {
        let p = sh.children[0];
        lemma_refs_getters(e, nc.context_type);
        lemma_refs_seq_all(p.children, 0);
        assert(refs_are_leaves(p));
        assert(refs_are_leaves_seq(sh.children, 1));
        assert(refs_are_leaves_seq(sh.children, 0));
    } else {
        assert(refs_are_leaves_seq(sh.children, 0));
    }
}

proof fn lemma_refs_nested_shapes(
    e: DiagnosticEntryV,
    nf: Seq<NestedConsumerTraitV>,
    t: int,
    rendered: Seq<Seq<char>>,
)
    requires
        0 <= t <= nf.len(),
    ensures
        forall|i: int|
            0 <= i < spec_nested_shapes(e, nf, t, rendered).0.len() ==> refs_are_leaves(
                #[trigger] spec_nested_shapes(e, nf, t, rendered).0[i],
            ),
    decreases nf.len() - t,
{
    if t < nf.len() {
        let is_ref = rendered.contains(nf[t].trait_name);
        let rendered2: Seq<Seq<char>> = if is_ref {
            rendered
        } else {
            rendered.push(nf[t].trait_name)
        };
        lemma_refs_nested_shape(e, nf[t], is_ref);
        lemma_refs_nested_shapes(e, nf, t + 1, rendered2);
        let cur = spec_nested_shapes(e, nf, t, rendered).0;
        let rest = spec_nested_shapes(e, nf, t + 1, rendered2).0;
        assert forall|i: int| 0 <= i < cur.len() implies refs_are_leaves(cur[i]) by {
            if i > 0 {
                assert(cur[i] == rest[i - 1]);
            }
        }
    }
}

proof fn lemma_refs_provider_node(
    e: DiagnosticEntryV,
    ctx: Seq<char>,
    pt: Seq<char>,
    relpt: Seq<char>,
    cur: Option<Seq<char>>,
    rendered0: Seq<Seq<char>>,
)
    ensures
        refs_are_leaves(spec_provider_node_shape(e, ctx, pt, relpt, cur, rendered0)),
{
    let nf = spec_nested_filtered(spec_nested_consumers_from(e.delegation_notes, 0), 0, cur);
    let sh = spec_provider_node_shape(e, ctx, pt, relpt, cur, rendered0);
    lemma_refs_getters(e, ctx);
    lemma_refs_nested_shapes(e, nf, 0, rendered0);
    assert forall|i: int| 0 <= i < sh.children.len() implies refs_are_leaves(
        #[trigger] sh.children[i],
    ) by {
        let gpart: Seq<NodeShape> = if nf.len() == 0 {
            spec_getter_shapes(e, ctx)
        } else {
            Seq::empty()
        };
        let npart = spec_nested_shapes(e, nf, 0, rendered0).0;
        if i < gpart.len() {
            assert(sh.children[i] == gpart[i]);
        } else if i < gpart.len() + npart.len() {
            assert(sh.children[i] == npart[i - gpart.len()]);
        } else {
            assert(refs_are_leaves_seq(sh.children[i].children, 0));
        }
    }
    lemma_refs_seq_all(sh.children, 0);
}

proof fn lemma_refs_root_children(
    e: DiagnosticEntryV,
    ctx: Seq<char>,
    k: int,
    rendered: Seq<Seq<char>>,
)
    requires
        0 <= k <= e.component_infos.len(),
    ensures
        forall|i: int|
            0 <= i < spec_root_children(e, ctx, k, rendered).len() ==> refs_are_leaves(
                #[trigger] spec_root_children(e, ctx, k, rendered)[i],
            ),
    decreases e.component_infos.len() - k,
{
    if k < e.component_infos.len() {
        let label = spec_consumer_label(e, k, ctx);
        let already = match label.1 {
            Some(t) => rendered.contains(t),
            None => false,
        };
        let cur = spec_root_children(e, ctx, k, rendered);
        let sh = cur[0];
        if already {
            assert(refs_are_leaves_seq(sh.children, 0));
            assert(refs_are_leaves(sh));
        } else {
            let pshapes = spec_provider_nodes_shapes(e, ctx, e.component_infos[k], label.1,
                rendered);
            if pshapes.len() > 0 {
                let relv = match spec_match_component_to_provider(
                    e.component_infos[k],
                    e.provider_relationships,
                ) {
                    Some(r) => Some(r),
                    None => if spec_dedup_rels(e.provider_relationships).len() > 0 {
                        Some(spec_dedup_rels(e.provider_relationships)[0])
                    } else {
                        None
                    },
                };
                lemma_refs_provider_node(e, ctx, e.component_infos[k].provider_trait->Some_0,
                    (relv->Some_0).provider_type, label.1, rendered);
                assert(refs_are_leaves(pshapes[0]));
                assert(refs_are_leaves_seq(sh.children, 1));
                assert(refs_are_leaves_seq(sh.children, 0));
            } else {
                assert(refs_are_leaves_seq(sh.children, 0));
            }
            assert(refs_are_leaves(sh));
        }
        lemma_refs_root_children(e, ctx, k + 1, rendered + shape_names(sh));
        let rest = spec_root_children(e, ctx, k + 1, rendered + shape_names(sh));
        assert forall|i: int| 0 <= i < cur.len() implies refs_are_leaves(cur[i]) by {
            if i > 0 {
                assert(cur[i] == rest[i - 1]);
            }
        }
    }
}

/// Within the built tree every reference node is a leaf: a subtree already
/// shown elsewhere is never re-expanded below a reference.
pub proof fn lemma_tree_references_are_leaves(e: DiagnosticEntryV)
    ensures
        spec_build_tree(e) matches Some(root) ==> refs_are_leaves(root),
{
    match e.consumer_trait {
        Some(check) => {
            match spec_tree_context(e) {
                Some(ctx) => {
                    let root = spec_build_tree(e)->Some_0;
                    lemma_refs_root_children(e, ctx, 0, Seq::empty());
                    lemma_refs_seq_all(root.children, 0);
                },
                None => {},
            }
        },
        None => {},
    }
}

/// Builds the requirement tree for an entry: the check interface at the
/// root, one consumer-interface child per capability, providers below, and
/// reference leaves for interfaces already expanded.  No consumer-interface
/// name is fully expanded more than once within the tree.
#[verifier::loop_isolation(false)]
#[verifier::rlimit(100)]
pub fn build_dependency_tree(entry: &DiagnosticEntry) -> (r: Option<DependencyNode>)
    ensures
        (r is Some) == (entry@.consumer_trait is Some && spec_tree_context(entry@) is Some),
        r matches Some(root) ==> root.kind == NodeKind::Check && !root.is_reference
            && root.name is None && root.description@ == spec_bt_pair(
            entry@.consumer_trait->Some_0,
            spec_tree_context(entry@)->Some_0,
        ) && shape_of(root) == spec_build_tree(entry@)->Some_0 && no_dup(expanded_names(root))
            && (entry@.component_infos.len() > 0
            ==> root.children@.len() == entry@.component_infos.len() && (forall|i: int|
            0 <= i < root.children@.len() ==> (#[trigger] root.children@[i]).kind
                == NodeKind::Consumer && root.children@[i].description@ == spec_consumer_label(
                entry@,
                i,
                spec_tree_context(entry@)->Some_0,
            ).0 && opt_str(root.children@[i].name) == spec_consumer_label(
                entry@,
                i,
                spec_tree_context(entry@)->Some_0,
            ).1)),
{
    let check_trait = match &entry.consumer_trait {
        Some(t) => t,
        None => {
            return None;
        },
    };
    let context_type: String = match &entry.field_info {
        Some(fi) => fi.target_type.clone(),
        None => {
            match extract_context_from_notes(&entry.delegation_notes) {
                Some(c) => c,
                None => {
                    return None;
                },
            }
        },
    };
    let ctv = to_char_vec(check_trait.as_str());
    let cxv = to_char_vec(context_type.as_str());
    let root_desc = bt_pair_exec(&ctv, &cxv);
    let mut rendered: Vec<String> = Vec::new();
    let mut children: Vec<DependencyNode> = Vec::new();
    proof {
        assert(strs_of(rendered@) =~= Seq::<Seq<char>>::empty());
        assert(expanded_names_seq(children@, 0) =~= Seq::<Seq<char>>::empty());
        assert(strs_of(rendered@) =~= expanded_names_seq(children@, 0));
        assert(shapes_of(children@) =~= Seq::<NodeShape>::empty());
        assert(shapes_of(children@) + spec_root_children(entry@, context_type@, 0, strs_of(
            rendered@,
        )) =~= spec_root_children(entry@, context_type@, 0, Seq::<Seq<char>>::empty()));
    }
    let nci = entry.component_infos.len();
    let mut k: usize = 0;
    while k < nci
        invariant
            0 <= k <= nci,
            nci == entry.component_infos@.len(),
            cxv@ == context_type@,
            children@.len() == k,
            context_type@ == spec_tree_context(entry@)->Some_0,
            strs_of(rendered@) == expanded_names_seq(children@, 0),
            shapes_of(children@) + spec_root_children(entry@, context_type@, k as int, strs_of(
                rendered@,
            )) =~= spec_root_children(entry@, context_type@, 0, Seq::empty()),
            no_dup(expanded_names_seq(children@, 0)),
            forall|i: int|
                0 <= i < children@.len() ==> (#[trigger] children@[i]).kind
                    == NodeKind::Consumer && children@[i].description@ == spec_consumer_label(
                    entry@,
                    i,
                    context_type@,
                ).0 && opt_str(children@[i].name) == spec_consumer_label(
                    entry@,
                    i,
                    context_type@,
                ).1,
        decreases nci - k,
    {
        let ci = &entry.component_infos[k];
        proof {
            assert(entry@.component_infos[k as int] == entry.component_infos@[k as int]@);
        }
        let ctchars = to_char_vec(ci.component_type.as_str());
        let comp_name = strip_module_prefixes_chars(&ctchars);
        let comp_name_s = chars_to_string(&comp_name);
        let t = find_consumer_trait_for_component(comp_name_s.as_str(), entry);
        let (desc, name): (String, Option<String>) = match &t {
            Some(tn) => {
                let tnv = to_char_vec(tn.as_str());
                (bt_pair_exec(&tnv, &cxv), Some(tn.clone()))
            },
            None => {
                let mut d = String::new();
                d.append("consumer trait of `");
                d.append(comp_name_s.as_str());
                d.append("` for `");
                d.append(context_type.as_str());
                d.append("`");
                (d, None)
            },
        };
        let already = match &t {
            Some(tn) => rendered_contains(&rendered, tn),
            None => false,
        };
        let node: DependencyNode;
        let ghost names_so_far = expanded_names_seq(children@, 0);
        let ghost label = spec_consumer_label(entry@, k as int, context_type@);
        proof {
            assert(desc@ == label.0);
            assert(opt_str(name) == label.1);
        }
        let ghost spec_sh = (if (match label.1 {
            Some(tl) => names_so_far.contains(tl),
            None => false,
        }) {
            NodeShape {
                description: label.0,
                kind: NodeKind::Consumer,
                name: label.1,
                is_satisfied: None,
                is_reference: true,
                children: Seq::<NodeShape>::empty(),
            }
        } else {
            NodeShape {
                description: label.0,
                kind: NodeKind::Consumer,
                name: label.1,
                is_satisfied: None,
                is_reference: false,
                children: spec_provider_nodes_shapes(entry@, context_type@,
                    entry@.component_infos[k as int], label.1, names_so_far),
            }
        });
        proof {
            assert(already == (match label.1 {
                Some(tl) => names_so_far.contains(tl),
                None => false,
            }));
        }
        if already {
            node = DependencyNode {
                description: desc,
                kind: NodeKind::Consumer,
                name,
                is_satisfied: None,
                is_reference: true,
                children: Vec::new(),
            };
            proof {
                lemma_leaf_names(node);
                assert(shapes_from(node.children@, 0) =~= Seq::<NodeShape>::empty());
                assert(shape_of(node) =~= spec_sh);
            }
        } else {
            let rel = match_component_to_provider(ci, &entry.provider_relationships);
            let ghost at_call = strs_of(rendered@);
            let tref = t.as_ref();
            proof {
                assert(opt_ref_str(tref) == label.1);
            }
            let sub = build_provider_nodes_for_component(entry, context_type.as_str(),
                Some(ci), rel.as_ref(), &mut rendered, tref);
            let ghost sub_names = expanded_names_seq(sub@, 0);
            let pushed_name: bool;
            match &t {
                Some(tn) => {
                    rendered.push(tn.clone());
                    pushed_name = true;
                },
                None => {
                    pushed_name = false;
                },
            }
            node = DependencyNode {
                description: desc,
                kind: NodeKind::Consumer,
                name,
                is_satisfied: None,
                is_reference: false,
                children: sub,
            };
            proof {
                let own_names = expanded_names(node);
                assert(at_call == names_so_far);
                if pushed_name {
                    let x = t->Some_0@;
                    assert(own_names =~= sub_names + seq![x]);
                    assert(strs_of(rendered@) =~= (at_call + sub_names).push(x));
                    assert(strs_of(rendered@) =~= at_call + own_names);
                    assert(!names_so_far.contains(x));
                    assert(!sub_names.contains(x));
                    assert(no_dup(own_names)) by {
                        assert forall|i: int, j: int|
                            0 <= i < j < own_names.len() implies own_names[i]
                            != own_names[j] by {
                            if j < sub_names.len() {
                            } else {
                                assert(own_names[j] == x);
                                if own_names[i] == x {
                                    assert(sub_names[i] == x);
                                    assert(sub_names.contains(x));
                                }
                            }
                        }
                    }
                    assert forall|u: int|
                        0 <= u < own_names.len() implies !names_so_far.contains(
                        #[trigger] own_names[u]) by {
                        if u < sub_names.len() {
                            assert(!at_call.contains(sub_names[u]));
                        } else {
                            assert(own_names[u] == x);
                        }
                    }
                } else {
                    assert(node.name is None);
                    assert(own_names =~= sub_names);
                    assert(strs_of(rendered@) =~= at_call + own_names);
                    assert forall|u: int|
                        0 <= u < own_names.len() implies !names_so_far.contains(
                        #[trigger] own_names[u]) by {
                        assert(!at_call.contains(sub_names[u]));
                    }
                }
                if sub@.len() == 1 {
                    lemma_shapes_singleton(sub@);
                } else {
                    assert(shapes_from(sub@, 0) =~= Seq::<NodeShape>::empty());
                }
                assert(shapes_from(node.children@, 0) == shapes_of(sub@));
                assert(shapes_of(sub@) =~= spec_provider_nodes_shapes(entry@, context_type@,
                    entry@.component_infos[k as int], label.1, names_so_far));
                assert(shape_of(node) =~= spec_sh);
            }
        }
        let ghost pre_children = children@;
        let ghost own_names = expanded_names(node);
        proof {
            if already {
                assert(own_names =~= Seq::<Seq<char>>::empty());
            }
            assert(no_dup(own_names));
            assert(forall|u: int|
                0 <= u < own_names.len() ==> !names_so_far.contains(#[trigger] own_names[u]));
            lemma_no_dup_append(names_so_far, own_names);
        }
        children.push(node);
        proof {
            lemma_expanded_push(pre_children, node, 0);
            let all_names = expanded_names_seq(children@, 0);
            assert(all_names == names_so_far + own_names);
            assert(no_dup(all_names));
            if already {
                assert(all_names =~= names_so_far);
                assert(strs_of(rendered@) == all_names);
            } else {
                assert(strs_of(rendered@) =~= all_names);
            }
            assert(children@ =~= pre_children + seq![node]);
            lemma_shapes_concat(pre_children, seq![node]);
            lemma_shapes_index(seq![node]);
            assert(shapes_of(children@) =~= shapes_of(pre_children) + seq![shape_of(node)]);
            lemma_names_shape(node);
            assert(shape_names(spec_sh) == own_names);
            assert(spec_root_children(entry@, context_type@, k as int, names_so_far) =~= seq![
                spec_sh,
            ] + spec_root_children(entry@, context_type@, k as int + 1, names_so_far
                + shape_names(spec_sh)));
            assert(names_so_far + shape_names(spec_sh) =~= strs_of(rendered@));
            assert(shapes_of(children@) + spec_root_children(entry@, context_type@, k as int
                + 1, strs_of(rendered@)) =~= spec_root_children(entry@, context_type@, 0, Seq::<
                Seq<char>,
            >::empty()));
        }
        k += 1;
    }
    if entry.component_infos.len() == 0 && entry.provider_relationships.len() > 0 {
        let ghost at_call = strs_of(rendered@);
        let mut extra = build_provider_nodes_for_component(entry, context_type.as_str(), None,
            None, &mut rendered, None);
        let ghost extra_names = expanded_names_seq(extra@, 0);
        let ghost pre_children = children@;
        let ghost pre_names = expanded_names_seq(pre_children, 0);
        let ghost pre_extra = extra@;
        append_nodes(&mut children, &mut extra);
        proof {
            lemma_expanded_concat(pre_children, pre_extra);
            assert(children@ =~= pre_children + pre_extra);
            assert(expanded_names_seq(children@, 0) == pre_names + extra_names);
            assert(at_call == pre_names);
            lemma_no_dup_append(pre_names, extra_names);
            assert(strs_of(rendered@) =~= expanded_names_seq(children@, 0));
            assert(pre_extra.len() == 0);
            assert(children@ =~= pre_children);
        }
    }
    let ghost all_names = expanded_names_seq(children@, 0);
    let ghost final_children = children@;
    let root = DependencyNode {
        description: root_desc,
        kind: NodeKind::Check,
        name: None,
        is_satisfied: None,
        is_reference: false,
        children,
    };
    proof {
        assert(expanded_names(root) =~= all_names);
        assert(spec_root_children(entry@, context_type@, entry@.component_infos.len() as int,
            strs_of(rendered@)) =~= Seq::<NodeShape>::empty());
        assert(shapes_of(final_children) =~= spec_root_children(entry@, context_type@, 0, Seq::<
            Seq<char>,
        >::empty()));
        assert(shape_of(root) =~= spec_build_tree(entry@)->Some_0);
    }
    Some(root)
}

proof fn lemma_no_dup_append(a: Seq<Seq<char>>, b: Seq<Seq<char>>)
    requires
        no_dup(a),
        no_dup(b),
        forall|t: int| 0 <= t < b.len() ==> !a.contains(#[trigger] b[t]),
    ensures
        no_dup(a + b),
{
    let c = a + b;
    assert forall|i: int, j: int| 0 <= i < j < c.len() implies c[i] != c[j] by {
        if j < a.len() {
        } else if i >= a.len() {
            assert(c[i] == b[i - a.len()]);
            assert(c[j] == b[j - a.len()]);
        } else {
            assert(c[i] == a[i]);
            assert(c[j] == b[j - a.len()]);
            if c[i] == c[j] {
                assert(a[i] == b[j - a.len()]);
                assert(a.contains(b[j - a.len()]));
            }
        }
    }
}

/// A reference node renders as exactly one line: the subtree it stands for
/// is never re-expanded in the rendered text.
pub proof fn lemma_reference_renders_leaf(n: DependencyNode, prefix: Seq<char>, is_last: bool)
    requires
        n.is_reference,
    ensures
        spec_render_tree(n, prefix, is_last, false).len() == 1,
{
}

/// The tail of a joined text: each further piece preceded by the
/// separator.
pub open spec fn spec_join_tail(ss: Seq<Seq<char>>, k: int, sep: Seq<char>) -> Seq<char>
    decreases ss.len() - k,
    when 0 <= k <= ss.len()
{
    if k >= ss.len() {
        Seq::empty()
    } else {
        sep + ss[k] + spec_join_tail(ss, k + 1, sep)
    }
}

/// The pieces joined with the separator between them.
pub open spec fn spec_join_sep(ss: Seq<Seq<char>>, sep: Seq<char>) -> Seq<char> {
    if ss.len() == 0 {
        Seq::empty()
    } else {
        ss[0] + spec_join_tail(ss, 1, sep)
    }
}

/// Joins strings with a separator.
#[verifier::loop_isolation(false)]
pub fn join_with(parts: &Vec<String>, sep: &str) -> (r: String)
    ensures
        r@ == spec_join_sep(strs_of(parts@), sep@),
{
    if parts.len() == 0 {
        let r = String::new();
        proof {
            assert(r@ =~= spec_join_sep(strs_of(parts@), sep@));
        }
        return r;
    }
    let mut r = String::new();
    r.append(parts[0].as_str());
    proof {
        assert(strs_of(parts@)[0] == parts@[0]@);
        assert(Seq::<char>::empty() + parts@[0]@ =~= parts@[0]@);
    }
    let n = parts.len();
    let mut k: usize = 1;
    while k < n
        invariant
            1 <= k <= n,
            n == parts@.len(),
            r@ + spec_join_tail(strs_of(parts@), k as int, sep@) == spec_join_sep(
                strs_of(parts@),
                sep@,
            ),
        decreases n - k,
    {
        proof {
            assert(strs_of(parts@)[k as int] == parts@[k as int]@);
        }
        r.append(sep);
        r.append(parts[k].as_str());
        proof {
            assert(r@ + spec_join_tail(strs_of(parts@), k as int + 1, sep@) =~= spec_join_sep(
                strs_of(parts@),
                sep@,
            ));
        }
        k += 1;
    }
    proof {
        assert(r@ + Seq::<char>::empty() =~= r@);
    }
    r
}

/// A line with a trailing carriage return removed.
pub open spec fn strip_cr(t: Seq<char>) -> Seq<char> {
    if t.len() > 0 && t.last() == '\r' {
        t.drop_last()
    } else {
        t
    }
}

proof fn lemma_find_char_some(s: Seq<char>, c: char, i: int)
    requires
        0 <= i <= s.len(),
    ensures
        find_char_from(s, c, i) matches Some(p) ==> i <= p < s.len(),
    decreases s.len() - i,
{
    if i < s.len() && s[i] != c {
        lemma_find_char_some(s, c, i + 1);
    }
}

/// The text split into lines as the toolchain's source files are: split at
/// line feeds, with a final empty piece dropped and one trailing carriage
/// return removed per line.
pub open spec fn spec_split_lines(s: Seq<char>) -> Seq<Seq<char>>
    decreases s.len(),
    via spec_split_lines_dec
{
    if s.len() == 0 {
        Seq::empty()
    } else {
        match find_char_from(s, '\n', 0) {
            Some(p) => seq![strip_cr(s.subrange(0, p))] + spec_split_lines(
                s.subrange(p + 1, s.len() as int),
            ),
            None => seq![strip_cr(s)],
        }
    }
}

#[via_fn]
proof fn spec_split_lines_dec(s: Seq<char>) {
    lemma_find_char_some(s, '\n', 0);
}

fn strip_cr_exec(t: &Vec<char>) -> (r: Vec<char>)
    ensures
        r@ == strip_cr(t@),
{
    let n = t.len();
    if n > 0 && t[n - 1] == '\r' {
        let r = subvec(t, 0, n - 1);
        proof {
            assert(t@.subrange(0, t@.len() - 1) =~= t@.drop_last());
        }
        r
    } else {
        let r = subvec(t, 0, n);
        proof {
            assert(t@.subrange(0, t@.len() as int) =~= t@);
        }
        r
    }
}

/// Splits a source text into lines.
pub fn split_lines(content: &Vec<char>) -> (r: Vec<String>)
    ensures
        strs_of(r@) == spec_split_lines(content@),
    decreases content@.len(),
{
    let n = content.len();
    if n == 0 {
        let r: Vec<String> = Vec::new();
        proof {
            assert(strs_of(r@) =~= spec_split_lines(content@));
        }
        return r;
    }
    match find_char_at(content, '\n', 0) {
        Some(p) => {
            let head = subvec(content, 0, p);
            let head_line = strip_cr_exec(&head);
            let rest = subvec(content, p + 1, n);
            let tail = split_lines(&rest);
            let mut out: Vec<String> = Vec::new();
            out.push(chars_to_string(&head_line));
            let ghost first = strs_of(out@);
            let mut i: usize = 0;
            while i < tail.len()
                invariant
                    0 <= i <= tail.len(),
                    strs_of(out@) =~= first + strs_of(tail@).subrange(0, i as int),
                decreases tail.len() - i,
            {
                let ghost prev = strs_of(out@);
                out.push(tail[i].clone());
                proof {
                    assert(strs_of(tail@)[i as int] == tail@[i as int]@);
                    assert(strs_of(out@) =~= prev.push(tail@[i as int]@));
                    assert(strs_of(tail@).subrange(0, i as int + 1) =~= strs_of(tail@).subrange(
                        0,
                        i as int,
                    ).push(strs_of(tail@)[i as int]));
                    assert(prev.push(tail@[i as int]@) =~= first + strs_of(tail@).subrange(
                        0,
                        i as int + 1,
                    ));
                }
                i += 1;
            }
            proof {
                assert(strs_of(tail@).subrange(0, strs_of(tail@).len() as int)
                    =~= strs_of(tail@));
                assert(strs_of(out@) =~= spec_split_lines(content@));
            }
            out
        },
        None => {
            let whole = subvec(content, 0, n);
            let line = strip_cr_exec(&whole);
            let mut out: Vec<String> = Vec::new();
            out.push(chars_to_string(&line));
            proof {
                assert(content@.subrange(0, content@.len() as int) =~= content@);
                assert(strs_of(out@) =~= spec_split_lines(content@));
            }
            out
        },
    }
}

/// The machine byte length of one line.
pub open spec fn line_byte_len(l: Seq<char>) -> int {
    (vstd::utf8::encode_utf8(l).len() as usize) as int
}

/// The byte length of the first `upto` lines, each counted with its line
/// feed.
pub open spec fn spec_sum_lines(lines: Seq<Seq<char>>, k: int, upto: int) -> int
    decreases upto - k,
    when k <= upto
{
    if k >= upto || k >= lines.len() {
        0
    } else {
        line_byte_len(lines[k]) + 1 + spec_sum_lines(lines, k + 1, upto)
    }
}

proof fn lemma_sum_step(lines: Seq<Seq<char>>, k: int, upto: int)
    requires
        0 <= k <= upto,
        upto < lines.len(),
    ensures
        spec_sum_lines(lines, k, upto + 1) == spec_sum_lines(lines, k, upto)
            + line_byte_len(lines[upto]) + 1,
    decreases upto - k,
{
    if k < upto {
        lemma_sum_step(lines, k + 1, upto);
    } else {
        assert(spec_sum_lines(lines, k + 1, upto + 1) == 0);
        assert(spec_sum_lines(lines, k, upto) == 0);
    }
}

proof fn lemma_sum_caps(lines: Seq<Seq<char>>, k: int, upto: int)
    requires
        0 <= k,
        k <= upto,
        upto >= lines.len(),
        k <= lines.len(),
    ensures
        spec_sum_lines(lines, k, upto) == spec_sum_lines(lines, k, lines.len() as int),
    decreases lines.len() - k,
{
    if k < lines.len() {
        lemma_sum_caps(lines, k + 1, upto);
    }
}

proof fn lemma_sum_nonneg(lines: Seq<Seq<char>>, k: int, upto: int)
    requires
        0 <= k <= upto,
    ensures
        spec_sum_lines(lines, k, upto) >= 0,
    decreases upto - k,
{
    if k < upto && k < lines.len() {
        lemma_sum_nonneg(lines, k + 1, upto);
    }
}

/// The byte offset of a one-based line and column position: the bytes of
/// every earlier line, each with its line feed, plus the column offset.
pub open spec fn spec_byte_offset(lines: Seq<Seq<char>>, line_start: int, col: int) -> int {
    spec_sum_lines(lines, 0, if line_start >= 1 {
        line_start - 1
    } else {
        0
    }) + (if col >= 1 {
        col - 1
    } else {
        0
    })
}

/// Computes the byte offset of a position, capped at the machine maximum.
#[verifier::loop_isolation(false)]
fn byte_offset_exec(lines: &Vec<String>, line_start: usize, col: usize) -> (r: usize)
    ensures
        r as int == (if spec_byte_offset(strs_of(lines@), line_start as int, col as int)
            <= usize::MAX {
            spec_byte_offset(strs_of(lines@), line_start as int, col as int)
        } else {
            usize::MAX as int
        }),
{
    let ghost lv = strs_of(lines@);
    let upto: usize = if line_start >= 1 {
        line_start - 1
    } else {
        0
    };
    let n = lines.len();
    let mut acc: u128 = 0;
    let mut i: usize = 0;
    while i < n && i < upto
        invariant
            0 <= i <= n,
            i <= upto,
            n == lv.len(),
            lv == strs_of(lines@),
            acc as int == spec_sum_lines(lv, 0, i as int),
            acc <= (i as u128) * (usize::MAX as u128 + 1),
        decreases upto - i,
    {
        proof {
            assert(lv[i as int] == lines@[i as int]@);
            lemma_sum_step(lv, 0, i as int);
        }
        let blen = lines[i].as_str().len();
        proof {
            assert(blen as int == line_byte_len(lv[i as int]));
            let c = usize::MAX as int + 1;
            assert(acc as int + blen as int + 1 <= (i as int + 1) * c) by (nonlinear_arith)
                requires
                    acc as int <= (i as int) * c,
                    blen as int + 1 <= c,
                    c == usize::MAX as int + 1,
            ;
            assert(i as int + 1 <= usize::MAX as int);
            assert((i as int + 1) * c <= usize::MAX as int * c) by (nonlinear_arith)
                requires
                    i as int + 1 <= usize::MAX as int,
                    c == usize::MAX as int + 1,
            ;
        }
        acc = acc + blen as u128 + 1;
        i += 1;
    }
    proof {
        if i < upto {
            lemma_sum_caps(lv, i as int, upto as int);
            assert(i as int == lv.len());
            assert(spec_sum_lines(lv, 0, upto as int) == spec_sum_lines(lv, 0, i as int)) by {
                lemma_sum_prefix_caps(lv, 0, i as int, upto as int);
            }
        }
        assert(acc as int == spec_sum_lines(lv, 0, upto as int));
    }
    let cadd: u128 = if col >= 1 {
        (col - 1) as u128
    } else {
        0
    };
    proof {
        let c = usize::MAX as int + 1;
        assert(acc as int <= (i as int) * c);
        assert((i as int) * c <= usize::MAX as int * c) by (nonlinear_arith)
            requires
                i as int <= usize::MAX as int,
                c == usize::MAX as int + 1,
        ;
    }
    let total: u128 = acc + cadd;
    proof {
        assert(total as int == spec_byte_offset(lv, line_start as int, col as int));
    }
    if total > usize::MAX as u128 {
        usize::MAX
    } else {
        total as usize
    }
}

proof fn lemma_sum_prefix_caps(lines: Seq<Seq<char>>, k: int, mid: int, upto: int)
    requires
        0 <= k <= mid <= upto,
        mid >= lines.len(),
    ensures
        spec_sum_lines(lines, k, upto) == spec_sum_lines(lines, k, mid),
    decreases mid - k,
{
    if k < mid && k < lines.len() {
        lemma_sum_prefix_caps(lines, k + 1, mid, upto);
    } else if k >= lines.len() {
        lemma_sum_zero(lines, k, upto);
        lemma_sum_zero(lines, k, mid);
    }
}

proof fn lemma_sum_zero(lines: Seq<Seq<char>>, k: int, upto: int)
    requires
        0 <= k <= upto,
        k >= lines.len(),
    ensures
        spec_sum_lines(lines, k, upto) == 0,
    decreases upto - k,
{
    if k < upto {
        lemma_sum_zero(lines, k + 1, upto);
    }
}

/// The label attached to one span: the span's own label or the generic
/// wording, at the computed offset, with the span's width but at least one
/// byte.
pub open spec fn spec_label_of_span(
    sp: crate::raw_diagnostic::SpanInfoV,
    lines_opt: Option<Seq<Seq<char>>>,
) -> crate::cgp_diagnostic::SpanLabelV {
    let raw_offset = match lines_opt {
        Some(lines) => spec_byte_offset(lines, sp.line_start, sp.column_start),
        None => if sp.column_start >= 1 {
            sp.column_start - 1
        } else {
            0
        },
    };
    crate::cgp_diagnostic::SpanLabelV {
        label: match sp.label {
            Some(l) => Some(l),
            None => Some("unsatisfied trait bound"@),
        },
        offset: if raw_offset <= usize::MAX {
            raw_offset
        } else {
            usize::MAX as int
        },
        len: if sp.column_end > sp.column_start {
            sp.column_end - sp.column_start
        } else {
            1
        },
    }
}

fn label_of_span(sp: &crate::raw_diagnostic::SpanInfo, lines: Option<&Vec<String>>) -> (r:
    SpanLabel)
    ensures
        r@ == spec_label_of_span(sp@, match lines {
            Some(l) => Some(strs_of(l@)),
            None => None,
        }),
{
    let offset: usize = match lines {
        Some(l) => byte_offset_exec(l, sp.line_start, sp.column_start),
        None => {
            if sp.column_start >= 1 {
                sp.column_start - 1
            } else {
                0
            }
        },
    };
    let len: usize = if sp.column_end > sp.column_start {
        sp.column_end - sp.column_start
    } else {
        1
    };
    let label: Option<String> = match &sp.label {
        Some(l) => Some(l.clone()),
        None => {
            let mut s = String::new();
            s.append("unsatisfied trait bound");
            proof {
                assert(Seq::<char>::empty() + "unsatisfied trait bound"@
                    =~= "unsatisfied trait bound"@);
            }
            Some(s)
        },
    };
    let r = SpanLabel { label, offset, len };
    proof {
        assert(r@ =~= spec_label_of_span(sp@, match lines {
            Some(l) => Some(strs_of(l@)),
            None => None,
        }));
    }
    r
}

/// The labels of every primary span of the entry.
pub open spec fn spec_labels_of(
    spans: Seq<crate::raw_diagnostic::SpanInfoV>,
    lines_opt: Option<Seq<Seq<char>>>,
) -> Seq<crate::cgp_diagnostic::SpanLabelV> {
    Seq::new(spans.len(), |i: int| spec_label_of_span(spans[i], lines_opt))
}

/// The source text and labels of an entry: the real file content with byte
/// offsets computed from its lines when it is available, else the embedded
/// snippet lines of the first primary span; an entry without a primary span
/// or any snippet text gets neither.
pub open spec fn spec_build_source_labels(e: DiagnosticEntryV, content: Option<Seq<char>>) -> (
    Option<crate::cgp_diagnostic::NamedSourceTextV>,
    Seq<crate::cgp_diagnostic::SpanLabelV>,
) {
    if e.primary_spans.len() == 0 {
        (None, Seq::empty())
    } else {
        let first = e.primary_spans[0];
        match content {
            Some(c) => (
                Some(crate::cgp_diagnostic::NamedSourceTextV { name: first.file_name, text: c }),
                spec_labels_of(e.primary_spans, Some(spec_split_lines(c))),
            ),
            None => {
                let text = spec_join_sep(first.text, "\n"@);
                if text.len() == 0 {
                    (None, Seq::empty())
                } else {
                    (
                        Some(
                            crate::cgp_diagnostic::NamedSourceTextV {
                                name: first.file_name,
                                text: text,
                            },
                        ),
                        spec_labels_of(e.primary_spans, None),
                    )
                }
            },
        }
    }
}

/// Builds the source text and one label per primary span; reads nothing
/// itself, the caller hands over the file content when it could be read.
#[verifier::loop_isolation(false)]
pub fn build_source_and_labels(entry: &DiagnosticEntry, file_content: Option<&String>) -> (r: (
    Option<NamedSourceText>,
    Vec<SpanLabel>,
))
    ensures
        (opt_view(r.0), views_of(r.1@)) == spec_build_source_labels(entry@, match file_content {
            Some(c) => Some(c@),
            None => None,
        }),
{
    let empty_labels: Vec<SpanLabel> = Vec::new();
    if entry.primary_spans.len() == 0 {
        proof {
            assert(views_of(empty_labels@) =~= Seq::<crate::cgp_diagnostic::SpanLabelV>::empty());
        }
        return (None, empty_labels);
    }
    let first = &entry.primary_spans[0];
    proof {
        assert(entry@.primary_spans[0] == entry.primary_spans@[0]@);
    }
    match file_content {
        Some(c) => {
            let cv = to_char_vec(c.as_str());
            let lines = split_lines(&cv);
            let source = NamedSourceText { name: first.file_name.clone(), text: c.clone() };
            let mut labels: Vec<SpanLabel> = Vec::new();
            let n = entry.primary_spans.len();
            let mut i: usize = 0;
            while i < n
                invariant
                    0 <= i <= n,
                    n == entry@.primary_spans.len(),
                    strs_of(lines@) == spec_split_lines(c@),
                    views_of(labels@) =~= spec_labels_of(
                        entry@.primary_spans,
                        Some(spec_split_lines(c@)),
                    ).subrange(0, i as int),
                decreases n - i,
            {
                proof {
                    assert(entry@.primary_spans[i as int] == entry.primary_spans@[i as int]@);
                }
                let lab = label_of_span(&entry.primary_spans[i], Some(&lines));
                labels.push(lab);
                proof {
                    assert(views_of(labels@) =~= spec_labels_of(
                        entry@.primary_spans,
                        Some(spec_split_lines(c@)),
                    ).subrange(0, i as int + 1));
                }
                i += 1;
            }
            proof {
                let full = spec_labels_of(entry@.primary_spans, Some(spec_split_lines(c@)));
                assert(full.subrange(0, full.len() as int) =~= full);
            }
            (Some(source), labels)
        },
        None => {
            let text = join_with(&first.text, "\n");
            proof {
                assert(strs_of(entry.primary_spans@[0].text@)
                    == entry@.primary_spans[0].text);
            }
            if text.as_str().unicode_len() == 0 {
                proof {
                    assert(views_of(empty_labels@) =~= Seq::<
                        crate::cgp_diagnostic::SpanLabelV,
                    >::empty());
                }
                return (None, empty_labels);
            }
            let source = NamedSourceText { name: first.file_name.clone(), text };
            let mut labels: Vec<SpanLabel> = Vec::new();
            let n = entry.primary_spans.len();
            let mut i: usize = 0;
            while i < n
                invariant
                    0 <= i <= n,
                    n == entry@.primary_spans.len(),
                    views_of(labels@) =~= spec_labels_of(entry@.primary_spans, None).subrange(
                        0,
                        i as int,
                    ),
                decreases n - i,
            {
                proof {
                    assert(entry@.primary_spans[i as int] == entry.primary_spans@[i as int]@);
                }
                let lab = label_of_span(&entry.primary_spans[i], None);
                labels.push(lab);
                proof {
                    assert(views_of(labels@) =~= spec_labels_of(
                        entry@.primary_spans,
                        None,
                    ).subrange(0, i as int + 1));
                }
                i += 1;
            }
            proof {
                let full = spec_labels_of(entry@.primary_spans, None);
                assert(full.subrange(0, full.len() as int) =~= full);
            }
            (Some(source), labels)
        },
    }
}

/// The first deduplicated provider type that is not an inner provider.
pub open spec fn spec_first_outer(
    deduped: Seq<ProviderRelationshipV>,
    inner: Seq<Seq<char>>,
    k: int,
) -> Option<Seq<char>>
    decreases deduped.len() - k,
    when 0 <= k <= deduped.len()
{
    if k >= deduped.len() {
        None
    } else if !inner.contains(deduped[k].provider_type) {
        Some(deduped[k].provider_type)
    } else {
        spec_first_outer(deduped, inner, k + 1)
    }
}

/// The provider types of the deduplicated relationships.
pub open spec fn spec_kept_types(deduped: Seq<ProviderRelationshipV>) -> Seq<Seq<char>> {
    Seq::new(deduped.len(), |i: int| deduped[i].provider_type)
}

/// The flat fallback lines for the deduplicated notes: one arrow-prefixed
/// simplified note per note whose provider survived deduplication.
pub open spec fn spec_legacy_note_lines(
    dnotes: Seq<Seq<char>>,
    k: int,
    kept: Seq<Seq<char>>,
) -> Seq<Seq<char>>
    decreases dnotes.len() - k,
    when 0 <= k <= dnotes.len()
{
    if k >= dnotes.len() {
        Seq::empty()
    } else {
        let rest = spec_legacy_note_lines(dnotes, k + 1, kept);
        let keep = match crate::cgp_patterns::spec_extract_provider_relationship(dnotes[k]) {
            Some(pi) => kept.len() == 0 || kept.contains(pi.provider_type),
            None => true,
        };
        if keep {
            seq!["→ "@ + spec_format_delegation_note(dnotes[k])] + rest
        } else {
            rest
        }
    }
}

/// The flat fallback rendering of an entry's delegation facts: the
/// surviving simplified notes, in order, each behind an arrow glyph.
pub open spec fn spec_legacy_chain(e: DiagnosticEntryV) -> Seq<Seq<char>> {
    spec_legacy_note_lines(
        spec_dedup_notes(e.delegation_notes),
        0,
        spec_kept_types(spec_dedup_rels(e.provider_relationships)),
    )
}

fn str_vec_contains(v: &Vec<String>, x: &String) -> (r: bool)
    ensures
        r == strs_of(v@).contains(x@),
{
    let mut j: usize = 0;
    while j < v.len()
        invariant
            0 <= j <= v.len(),
            forall|t: int| 0 <= t < j ==> strs_of(v@)[t] != x@,
        decreases v.len() - j,
    {
        if v[j] == *x {
            proof {
                assert(strs_of(v@)[j as int] == x@);
            }
            return true;
        }
        j += 1;
    }
    proof {
        assert(forall|t: int| 0 <= t < v@.len() ==> strs_of(v@)[t] != x@);
    }
    false
}

/// The flat fallback rendering: the deduplicated notes, simplified and
/// arrow-prefixed, keeping only notes whose provider survived containment
/// deduplication.
#[verifier::loop_isolation(false)]
pub fn format_delegation_chain_legacy(entry: &DiagnosticEntry) -> (r: Vec<String>)
    ensures
        strs_of(r@) == spec_legacy_chain(entry@),
{
    let deduped = deduplicate_provider_relationships(&entry.provider_relationships);
    let ghost dedupedv = views_of(deduped@);
    let mut kept: Vec<String> = Vec::new();
    let mut i: usize = 0;
    while i < deduped.len()
        invariant
            0 <= i <= deduped.len(),
            dedupedv == views_of(deduped@),
            strs_of(kept@) =~= spec_kept_types(dedupedv).subrange(0, i as int),
        decreases deduped.len() - i,
    {
        proof {
            assert(dedupedv[i as int] == deduped@[i as int]@);
        }
        kept.push(deduped[i].provider_type.clone());
        proof {
            assert(strs_of(kept@) =~= spec_kept_types(dedupedv).subrange(0, i as int + 1));
        }
        i += 1;
    }
    proof {
        assert(spec_kept_types(dedupedv).subrange(0, spec_kept_types(dedupedv).len() as int)
            =~= spec_kept_types(dedupedv));
    }
    let dnotes = deduplicate_delegation_notes(&entry.delegation_notes);
    let ghost dnotesv = strs_of(dnotes@);
    let mut formatted: Vec<String> = Vec::new();
    let ghost hint_lines = strs_of(formatted@);
    proof {
        assert(hint_lines =~= Seq::<Seq<char>>::empty());
    }
    let n = dnotes.len();
    let mut k: usize = 0;
    while k < n
        invariant
            0 <= k <= n,
            n == dnotesv.len(),
            dnotesv == strs_of(dnotes@),
            strs_of(kept@) == spec_kept_types(dedupedv),
            strs_of(formatted@) =~= hint_lines + spec_legacy_note_lines_upto(
                dnotesv,
                0,
                k as int,
                spec_kept_types(dedupedv),
            ),
        decreases n - k,
    {
        proof {
            assert(dnotesv[k as int] == dnotes@[k as int]@);
        }
        let keep: bool = match crate::cgp_patterns::extract_provider_relationship(
            dnotes[k].as_str(),
        ) {
            Some(pi) => kept.len() == 0 || str_vec_contains(&kept, &pi.provider_type),
            None => true,
        };
        let ghost keptv = spec_kept_types(dedupedv);
        let ghost spec_keep = (match crate::cgp_patterns::spec_extract_provider_relationship(
            dnotesv[k as int],
        ) {
            Some(pi) => keptv.len() == 0 || keptv.contains(pi.provider_type),
            None => true,
        });
        proof {
            assert(keep == spec_keep);
            assert(spec_legacy_note_lines_upto(dnotesv, k as int + 1, k as int + 1, keptv)
                =~= Seq::<Seq<char>>::empty());
            if spec_keep {
                assert(spec_legacy_note_lines_upto(dnotesv, k as int, k as int + 1, keptv)
                    =~= seq!["→ "@ + spec_format_delegation_note(dnotesv[k as int])]);
            } else {
                assert(spec_legacy_note_lines_upto(dnotesv, k as int, k as int + 1, keptv)
                    =~= Seq::<Seq<char>>::empty());
            }
        }
        if keep {
            let fnote = format_delegation_note(dnotes[k].as_str());
            let mut line = String::new();
            line.append("→ ");
            line.append(fnote.as_str());
            proof {
                assert(Seq::<char>::empty() + "→ "@ =~= "→ "@);
                assert(line@ =~= "→ "@ + spec_format_delegation_note(dnotesv[k as int]));
            }
            let ghost prevf = strs_of(formatted@);
            let ghost linev = line@;
            formatted.push(line);
            proof {
                lemma_legacy_upto_step(dnotesv, k as int, keptv);
                assert(strs_of(formatted@) =~= prevf.push(linev));
                assert(spec_legacy_note_lines_upto(dnotesv, 0, k as int + 1, keptv)
                    == spec_legacy_note_lines_upto(dnotesv, 0, k as int, keptv)
                    + spec_legacy_note_lines_upto(dnotesv, k as int, k as int + 1, keptv));
                assert(prevf.push(linev) =~= hint_lines + (spec_legacy_note_lines_upto(
                    dnotesv,
                    0,
                    k as int,
                    keptv,
                ) + seq![linev]));
                assert(spec_legacy_note_lines_upto(dnotesv, k as int, k as int + 1, keptv)
                    == seq![linev]);
                assert(strs_of(formatted@) =~= hint_lines + spec_legacy_note_lines_upto(
                    dnotesv,
                    0,
                    k as int + 1,
                    keptv,
                ));
            }
        } else {
            proof {
                lemma_legacy_upto_step(dnotesv, k as int, keptv);
                assert(spec_legacy_note_lines_upto(dnotesv, 0, k as int + 1, keptv)
                    =~= spec_legacy_note_lines_upto(dnotesv, 0, k as int, keptv));
                assert(strs_of(formatted@) =~= hint_lines + spec_legacy_note_lines_upto(
                    dnotesv,
                    0,
                    k as int + 1,
                    keptv,
                ));
            }
        }
        k += 1;
    }
    proof {
        lemma_legacy_upto_all(dnotesv, 0, spec_kept_types(dedupedv));
        assert(strs_of(formatted@) =~= spec_legacy_chain(entry@));
    }
    formatted
}

/// The fallback lines of the notes with indices in `[k, m)`.
pub open spec fn spec_legacy_note_lines_upto(
    dnotes: Seq<Seq<char>>,
    k: int,
    m: int,
    kept: Seq<Seq<char>>,
) -> Seq<Seq<char>>
    decreases m - k,
    when 0 <= k <= m <= dnotes.len()
{
    if k >= m {
        Seq::empty()
    } else {
        let rest = spec_legacy_note_lines_upto(dnotes, k + 1, m, kept);
        let keep = match crate::cgp_patterns::spec_extract_provider_relationship(dnotes[k]) {
            Some(pi) => kept.len() == 0 || kept.contains(pi.provider_type),
            None => true,
        };
        if keep {
            seq!["→ "@ + spec_format_delegation_note(dnotes[k])] + rest
        } else {
            rest
        }
    }
}

proof fn lemma_legacy_upto_step_from(
    dnotes: Seq<Seq<char>>,
    k: int,
    m: int,
    kept: Seq<Seq<char>>,
)
    requires
        0 <= k <= m < dnotes.len(),
    ensures
        spec_legacy_note_lines_upto(dnotes, k, m + 1, kept) == spec_legacy_note_lines_upto(
            dnotes,
            k,
            m,
            kept,
        ) + spec_legacy_note_lines_upto(dnotes, m, m + 1, kept),
    decreases m - k,
{
    if k < m {
        lemma_legacy_upto_step_from(dnotes, k + 1, m, kept);
        assert(spec_legacy_note_lines_upto(dnotes, k, m + 1, kept)
            =~= spec_legacy_note_lines_upto(dnotes, k, m, kept) + spec_legacy_note_lines_upto(
            dnotes,
            m,
            m + 1,
            kept,
        ));
    } else {
        assert(spec_legacy_note_lines_upto(dnotes, k, m, kept) =~= Seq::<Seq<char>>::empty());
        assert(spec_legacy_note_lines_upto(dnotes, k, m + 1, kept)
            =~= spec_legacy_note_lines_upto(dnotes, k, m, kept) + spec_legacy_note_lines_upto(
            dnotes,
            m,
            m + 1,
            kept,
        ));
    }
}

proof fn lemma_legacy_upto_step(dnotes: Seq<Seq<char>>, m: int, kept: Seq<Seq<char>>)
    requires
        0 <= m < dnotes.len(),
    ensures
        spec_legacy_note_lines_upto(dnotes, 0, m + 1, kept) == spec_legacy_note_lines_upto(
            dnotes,
            0,
            m,
            kept,
        ) + spec_legacy_note_lines_upto(dnotes, m, m + 1, kept),
{
    lemma_legacy_upto_step_from(dnotes, 0, m, kept);
}

proof fn lemma_legacy_upto_all(dnotes: Seq<Seq<char>>, k: int, kept: Seq<Seq<char>>)
    requires
        0 <= k <= dnotes.len(),
    ensures
        spec_legacy_note_lines_upto(dnotes, k, dnotes.len() as int, kept)
            == spec_legacy_note_lines(dnotes, k, kept),
    decreases dnotes.len() - k,
{
    if k < dnotes.len() {
        lemma_legacy_upto_all(dnotes, k + 1, kept);
    }
}

/// The delegation-chain lines of an entry: the rendered requirement tree
/// when one can be built, else the flat fallback lines.
pub open spec fn spec_chain_of(e: DiagnosticEntryV) -> Seq<Seq<char>> {
    match spec_build_tree(e) {
        Some(root) => spec_render_shape(root, Seq::empty(), true, true),
        None => spec_legacy_chain(e),
    }
}

/// Formats the delegation facts of an entry: the requirement tree when one
/// can be built, else the flat fallback lines.
pub fn format_delegation_chain(entry: &DiagnosticEntry) -> (r: Vec<String>)
    ensures
        strs_of(r@) == spec_chain_of(entry@),
{
    match build_dependency_tree(entry) {
        Some(tree) => {
            let lines = render_dependency_tree(&tree, "", true, true);
            proof {
                reveal_strlit("");
                assert(""@ =~= Seq::<char>::empty());
                lemma_render_shape(tree, Seq::empty(), true, true);
            }
            lines
        },
        None => format_delegation_chain_legacy(entry),
    }
}

/// The simplified capability names shown to the user: namespace prefixes
/// removed, internal markers excluded.
pub open spec fn spec_component_names(cis: Seq<ComponentInfoV>, k: int) -> Seq<Seq<char>>
    decreases cis.len() - k,
    when 0 <= k <= cis.len()
{
    if k >= cis.len() {
        Seq::empty()
    } else {
        let rest = spec_component_names(cis, k + 1);
        let n = spec_strip_module_prefixes(cis[k].component_type);
        if !contains_sub(n, "IsProviderFor<"@) && !contains_sub(n, "CanUseComponent<"@) {
            seq![n] + rest
        } else {
            rest
        }
    }
}

#[verifier::loop_isolation(false)]
fn component_names_exec(cis: &Vec<ComponentInfo>) -> (r: Vec<String>)
    ensures
        strs_of(r@) == spec_component_names(views_of(cis@), 0),
{
    let ghost cv = views_of(cis@);
    let n = cis.len();
    let p1 = to_char_vec("IsProviderFor<");
    let p2 = to_char_vec("CanUseComponent<");
    let mut out: Vec<String> = Vec::new();
    let mut k: usize = 0;
    while k < n
        invariant
            0 <= k <= n,
            n == cv.len(),
            cv == views_of(cis@),
            p1@ == "IsProviderFor<"@,
            p2@ == "CanUseComponent<"@,
            spec_component_names(cv, 0) =~= strs_of(out@) + spec_component_names(cv, k as int),
        decreases n - k,
    {
        proof {
            assert(cv[k as int] == cis@[k as int]@);
        }
        let ctv = to_char_vec(cis[k].component_type.as_str());
        let name = strip_module_prefixes_chars(&ctv);
        if !contains_pat(&name, &p1) && !contains_pat(&name, &p2) {
            let ghost prev = strs_of(out@);
            out.push(chars_to_string(&name));
            proof {
                assert(strs_of(out@) =~= prev.push(name@));
            }
        }
        proof {
            assert(spec_component_names(cv, 0) =~= strs_of(out@) + spec_component_names(
                cv,
                k as int + 1,
            ));
        }
        k += 1;
    }
    proof {
        assert(strs_of(out@) =~= strs_of(out@) + spec_component_names(cv, n as int));
    }
    out
}

/// The one-line message of a missing-field diagnostic.
pub open spec fn spec_missing_field_message(e: DiagnosticEntryV, fi: FieldInfoV) -> Seq<char> {
    let f = spec_format_field_name(fi.field_name);
    if e.has_other_hasfield_impls {
        "missing field `"@ + f + "` in the context `"@ + fi.target_type + "`."@
    } else {
        "missing field `"@ + f + "` or `#[derive(HasField)]` in the context `"@ + fi.target_type
            + "`."@
    }
}

/// The high-level context section of the help text.
pub open spec fn spec_seg_context(e: DiagnosticEntryV, fi: FieldInfoV) -> Seq<Seq<char>> {
    let names = spec_component_names(e.component_infos, 0);
    let t = fi.target_type;
    if names.len() > 0 {
        if names.len() == 1 {
            seq![
                "Context `"@ + t + "` is missing a required field to use `"@ + names[0] + "`."@,
            ]
        } else {
            seq![
                "Context `"@ + t + "` is missing a required field to use multiple components: `"@
                    + spec_join_sep(names, "`, `"@) + "`."@,
            ]
        }
    } else {
        seq!["Context `"@ + t + "` is missing a required field."@]
    }
}

/// The missing-field note and its following blank line.
pub open spec fn spec_seg_note(e: DiagnosticEntryV, fi: FieldInfoV) -> Seq<Seq<char>> {
    let f = spec_format_field_name(fi.field_name);
    let line = if e.has_other_hasfield_impls {
        "    note: Missing field: `"@ + f + "`"@
    } else {
        "    note: Missing field: `"@ + f + "` or struct needs `#[derive(HasField)]`"@
    };
    seq![line, Seq::empty()]
}

/// The redaction warning, when characters were hidden.
pub open spec fn spec_seg_warn(fi: FieldInfoV) -> Seq<Seq<char>> {
    if fi.has_unknown_chars {
        seq![
            "note: some characters in the field name are hidden by the compiler and shown as '\u{FFFD}'"@,
            Seq::empty(),
        ]
    } else {
        Seq::empty()
    }
}

/// The struct-location section, when a primary span is known.
pub open spec fn spec_seg_loc(e: DiagnosticEntryV, fi: FieldInfoV) -> Seq<Seq<char>> {
    if e.primary_spans.len() > 0 {
        let sp = e.primary_spans[0];
        let f = spec_format_field_name(fi.field_name);
        seq![
            "The struct `"@ + fi.target_type + "` is defined at `"@ + sp.file_name + ":"@
                + crate::text::dec_chars(sp.line_start)
                + "` but does not have the required field `"@ + f + "`."@,
            Seq::empty(),
        ]
    } else {
        Seq::empty()
    }
}

/// The dependency-chain section: the given chain lines, indented.
pub open spec fn spec_seg_chain(e: DiagnosticEntryV, chain: Seq<Seq<char>>) -> Seq<Seq<char>> {
    if e.delegation_notes.len() > 0 {
        seq!["Dependency chain:"@] + Seq::new(chain.len(), |i: int| "    "@ + chain[i]) + seq![
            Seq::<char>::empty(),
        ]
    } else {
        Seq::empty()
    }
}

/// The higher-order provider hint.
pub open spec fn spec_seg_inner(e: DiagnosticEntryV) -> Seq<Seq<char>> {
    let all_inner = spec_inner_providers_from(e.provider_relationships, 0, Seq::empty());
    let deduped = spec_dedup_rels(e.provider_relationships);
    if all_inner.len() > 0 {
        match spec_first_outer(deduped, all_inner, 0) {
            Some(o) => seq![
                "The error in the higher-order provider `"@ + o
                    + "` might be caused by its inner provider `"@ + all_inner[0] + "`."@,
                Seq::<char>::empty(),
            ],
            None => Seq::empty(),
        }
    } else {
        Seq::empty()
    }
}

/// The fix suggestions.
pub open spec fn spec_seg_fix(e: DiagnosticEntryV, fi: FieldInfoV) -> Seq<Seq<char>> {
    let head = seq!["To fix this error:"@];
    if e.has_other_hasfield_impls {
        if e.primary_spans.len() > 0 {
            let sp = e.primary_spans[0];
            head + seq![
                "    • Add a field `"@ + fi.field_name + "` to the `"@ + fi.target_type
                    + "` struct at "@ + sp.file_name + ":"@ + crate::text::dec_chars(
                    sp.line_start,
                ),
            ]
        } else {
            head + seq![
                "    • Add a field `"@ + fi.field_name + "` to the `"@ + fi.target_type
                    + "` struct"@,
            ]
        }
    } else {
        let base = "    • If the struct has the field `"@ + fi.field_name
            + "`, add `#[derive(HasField)]` to the struct definition"@;
        let first = if e.primary_spans.len() > 0 {
            let sp = e.primary_spans[0];
            base + " at `"@ + sp.file_name + ":"@ + crate::text::dec_chars(sp.line_start)
                + "`"@
        } else {
            base
        };
        head + seq![
            first,
            "    • If the field is missing, add a `"@ + fi.field_name + "` field to the struct"@,
        ]
    }
}

/// The full help-section list of a missing-field diagnostic, given the
/// rendered chain lines.
pub open spec fn spec_missing_field_sections(
    e: DiagnosticEntryV,
    fi: FieldInfoV,
    chain: Seq<Seq<char>>,
) -> Seq<Seq<char>> {
    spec_seg_context(e, fi) + spec_seg_note(e, fi) + spec_seg_warn(fi) + spec_seg_loc(e, fi)
        + spec_seg_chain(e, chain) + spec_seg_inner(e) + spec_seg_fix(e, fi)
}

fn push_line(v: &mut Vec<String>, s: String)
    ensures
        strs_of(final(v)@) == strs_of(old(v)@).push(s@),
{
    let ghost prev = strs_of(v@);
    let ghost sv = s@;
    v.push(s);
    proof {
        assert(strs_of(v@) =~= prev.push(sv));
    }
}

fn empty_string() -> (r: String)
    ensures
        r@ == Seq::<char>::empty(),
{
    String::new()
}

fn line_number_string(n: usize) -> (r: String)
    ensures
        r@ == crate::text::dec_chars(n as int),
{
    let v = crate::text::usize_to_chars(n);
    chars_to_string(&v)
}

fn seg_context_exec(entry: &DiagnosticEntry, fi: &FieldInfo) -> (r: Vec<String>)
    ensures
        strs_of(r@) == spec_seg_context(entry@, fi@),
{
    let names = component_names_exec(&entry.component_infos);
    let mut line = String::new();
    line.append("Context `");
    line.append(fi.target_type.as_str());
    if names.len() > 0 {
        if names.len() == 1 {
            line.append("` is missing a required field to use `");
            line.append(names[0].as_str());
            line.append("`.");
            proof {
                assert(strs_of(names@)[0] == names@[0]@);
            }
        } else {
            line.append("` is missing a required field to use multiple components: `");
            let joined = join_with(&names, "`, `");
            line.append(joined.as_str());
            line.append("`.");
        }
    } else {
        line.append("` is missing a required field.");
    }
    let mut out: Vec<String> = Vec::new();
    proof {
        assert(Seq::<char>::empty() + "Context `"@ =~= "Context `"@);
        assert(line@ =~= spec_seg_context(entry@, fi@)[0]);
    }
    push_line(&mut out, line);
    proof {
        assert(strs_of(out@) =~= spec_seg_context(entry@, fi@));
    }
    out
}

fn seg_note_exec(entry: &DiagnosticEntry, fi: &FieldInfo) -> (r: Vec<String>)
    ensures
        strs_of(r@) == spec_seg_note(entry@, fi@),
{
    let f = format_field_name(fi.field_name.as_str());
    let mut line = String::new();
    line.append("    note: Missing field: `");
    line.append(f.as_str());
    if entry.has_other_hasfield_impls {
        line.append("`");
    } else {
        line.append("` or struct needs `#[derive(HasField)]`");
    }
    let mut out: Vec<String> = Vec::new();
    proof {
        assert(Seq::<char>::empty() + "    note: Missing field: `"@
            =~= "    note: Missing field: `"@);
        assert(line@ =~= spec_seg_note(entry@, fi@)[0]);
    }
    push_line(&mut out, line);
    push_line(&mut out, empty_string());
    proof {
        assert(strs_of(out@) =~= spec_seg_note(entry@, fi@));
    }
    out
}

fn seg_warn_exec(fi: &FieldInfo) -> (r: Vec<String>)
    ensures
        strs_of(r@) == spec_seg_warn(fi@),
{
    let mut out: Vec<String> = Vec::new();
    if fi.has_unknown_chars {
        let mut line = String::new();
        line.append(
            "note: some characters in the field name are hidden by the compiler and shown as '\u{FFFD}'",
        );
        proof {
            assert(line@
                =~= "note: some characters in the field name are hidden by the compiler and shown as '\u{FFFD}'"@);
        }
        push_line(&mut out, line);
        push_line(&mut out, empty_string());
    }
    proof {
        assert(strs_of(out@) =~= spec_seg_warn(fi@));
    }
    out
}

fn seg_loc_exec(entry: &DiagnosticEntry, fi: &FieldInfo) -> (r: Vec<String>)
    ensures
        strs_of(r@) == spec_seg_loc(entry@, fi@),
{
    let mut out: Vec<String> = Vec::new();
    if entry.primary_spans.len() > 0 {
        let sp = &entry.primary_spans[0];
        proof {
            assert(entry@.primary_spans[0] == entry.primary_spans@[0]@);
        }
        let f = format_field_name(fi.field_name.as_str());
        let mut line = String::new();
        line.append("The struct `");
        line.append(fi.target_type.as_str());
        line.append("` is defined at `");
        line.append(sp.file_name.as_str());
        line.append(":");
        let ln = line_number_string(sp.line_start);
        line.append(ln.as_str());
        line.append("` but does not have the required field `");
        line.append(f.as_str());
        line.append("`.");
        proof {
            assert(Seq::<char>::empty() + "The struct `"@ =~= "The struct `"@);
            assert(line@ =~= spec_seg_loc(entry@, fi@)[0]);
        }
        push_line(&mut out, line);
        push_line(&mut out, empty_string());
    }
    proof {
        assert(strs_of(out@) =~= spec_seg_loc(entry@, fi@));
    }
    out
}

#[verifier::loop_isolation(false)]
fn seg_chain_exec(entry: &DiagnosticEntry, chain: &Vec<String>, indent: &str) -> (r: Vec<
    String,
>)
    requires
        indent@ == "    "@,
    ensures
        strs_of(r@) == spec_seg_chain(entry@, strs_of(chain@)),
{
    let mut out: Vec<String> = Vec::new();
    if entry.delegation_notes.len() > 0 {
        let mut head = String::new();
        head.append("Dependency chain:");
        proof {
            assert(head@ =~= "Dependency chain:"@);
        }
        push_line(&mut out, head);
        let n = chain.len();
        let ghost cv = strs_of(chain@);
        let mut i: usize = 0;
        while i < n
            invariant
                0 <= i <= n,
                n == cv.len(),
                cv == strs_of(chain@),
                strs_of(out@) =~= seq!["Dependency chain:"@] + Seq::new(
                    cv.len(),
                    |t: int| "    "@ + cv[t],
                ).subrange(0, i as int),
            decreases n - i,
        {
            proof {
                assert(cv[i as int] == chain@[i as int]@);
            }
            let mut line = String::new();
            line.append(indent);
            line.append(chain[i].as_str());
            proof {
                assert(Seq::<char>::empty() + "    "@ =~= "    "@);
            }
            push_line(&mut out, line);
            proof {
                assert(strs_of(out@) =~= seq!["Dependency chain:"@] + Seq::new(
                    cv.len(),
                    |t: int| "    "@ + cv[t],
                ).subrange(0, i as int + 1));
            }
            i += 1;
        }
        push_line(&mut out, empty_string());
        proof {
            let mapped = Seq::new(cv.len(), |t: int| "    "@ + cv[t]);
            assert(mapped.subrange(0, mapped.len() as int) =~= mapped);
            assert(strs_of(out@) =~= spec_seg_chain(entry@, cv));
        }
    } else {
        proof {
            assert(strs_of(out@) =~= spec_seg_chain(entry@, strs_of(chain@)));
        }
    }
    out
}

#[verifier::loop_isolation(false)]
fn seg_inner_exec(entry: &DiagnosticEntry) -> (r: Vec<String>)
    ensures
        strs_of(r@) == spec_seg_inner(entry@),
{
    let all_inner = detect_inner_providers(&entry.provider_relationships);
    let deduped = deduplicate_provider_relationships(&entry.provider_relationships);
    let ghost all_innerv = strs_of(all_inner@);
    let ghost dedupedv = views_of(deduped@);
    let mut out: Vec<String> = Vec::new();
    if all_inner.len() > 0 {
        let mut oi: usize = 0;
        let mut outer: Option<usize> = None;
        while oi < deduped.len()
            invariant
                0 <= oi <= deduped.len(),
                outer is None,
                dedupedv == views_of(deduped@),
                all_innerv == strs_of(all_inner@),
                spec_first_outer(dedupedv, all_innerv, 0) == spec_first_outer(
                    dedupedv,
                    all_innerv,
                    oi as int,
                ),
            decreases deduped.len() - oi,
        {
            proof {
                assert(dedupedv[oi as int] == deduped@[oi as int]@);
            }
            if !str_vec_contains(&all_inner, &deduped[oi].provider_type) {
                outer = Some(oi);
                break;
            }
            oi += 1;
        }
        match outer {
            Some(oidx) => {
                proof {
                    assert(dedupedv[oidx as int] == deduped@[oidx as int]@);
                    assert(all_innerv[0] == all_inner@[0]@);
                }
                let mut line = String::new();
                line.append("The error in the higher-order provider `");
                line.append(deduped[oidx].provider_type.as_str());
                line.append("` might be caused by its inner provider `");
                line.append(all_inner[0].as_str());
                line.append("`.");
                proof {
                    assert(Seq::<char>::empty() + "The error in the higher-order provider `"@
                        =~= "The error in the higher-order provider `"@);
                    assert(line@ =~= spec_seg_inner(entry@)[0]);
                }
                push_line(&mut out, line);
                push_line(&mut out, empty_string());
            },
            None => {},
        }
    }
    proof {
        assert(strs_of(out@) =~= spec_seg_inner(entry@));
    }
    out
}

fn seg_fix_exec(entry: &DiagnosticEntry, fi: &FieldInfo) -> (r: Vec<String>)
    ensures
        strs_of(r@) == spec_seg_fix(entry@, fi@),
{
    let mut out: Vec<String> = Vec::new();
    let mut head = String::new();
    head.append("To fix this error:");
    proof {
        assert(head@ =~= "To fix this error:"@);
    }
    push_line(&mut out, head);
    if entry.has_other_hasfield_impls {
        let mut line = String::new();
        line.append("    • Add a field `");
        line.append(fi.field_name.as_str());
        line.append("` to the `");
        line.append(fi.target_type.as_str());
        if entry.primary_spans.len() > 0 {
            let sp = &entry.primary_spans[0];
            proof {
                assert(entry@.primary_spans[0] == entry.primary_spans@[0]@);
            }
            line.append("` struct at ");
            line.append(sp.file_name.as_str());
            line.append(":");
            let ln = line_number_string(sp.line_start);
            line.append(ln.as_str());
        } else {
            line.append("` struct");
        }
        proof {
            assert(Seq::<char>::empty() + "    • Add a field `"@ =~= "    • Add a field `"@);
            assert(line@ =~= spec_seg_fix(entry@, fi@)[1]);
        }
        push_line(&mut out, line);
    } else {
        let mut first = String::new();
        first.append("    • If the struct has the field `");
        first.append(fi.field_name.as_str());
        first.append("`, add `#[derive(HasField)]` to the struct definition");
        if entry.primary_spans.len() > 0 {
            let sp = &entry.primary_spans[0];
            proof {
                assert(entry@.primary_spans[0] == entry.primary_spans@[0]@);
            }
            first.append(" at `");
            first.append(sp.file_name.as_str());
            first.append(":");
            let ln = line_number_string(sp.line_start);
            first.append(ln.as_str());
            first.append("`");
        }
        proof {
            assert(Seq::<char>::empty() + "    • If the struct has the field `"@
                =~= "    • If the struct has the field `"@);
        }
        let mut second = String::new();
        second.append("    • If the field is missing, add a `");
        second.append(fi.field_name.as_str());
        second.append("` field to the struct");
        proof {
            assert(Seq::<char>::empty() + "    • If the field is missing, add a `"@
                =~= "    • If the field is missing, add a `"@);
            assert(first@ =~= spec_seg_fix(entry@, fi@)[1]);
            assert(second@ =~= spec_seg_fix(entry@, fi@)[2]);
        }
        push_line(&mut out, first);
        push_line(&mut out, second);
    }
    proof {
        assert(strs_of(out@) =~= spec_seg_fix(entry@, fi@));
    }
    out
}

/// Formats a missing-field entry: a field-specific message, a sectioned
/// help text, and the source text with one label per primary span.
pub fn format_missing_field_error(
    entry: &DiagnosticEntry,
    field_info: &FieldInfo,
    file_content: Option<&String>,
) -> (r: Option<CgpDiagnostic>)
    ensures
        r matches Some(d) && {
            &&& d.message@ == spec_missing_field_message(entry@, field_info@)
            &&& opt_str(d.code) == entry@.error_code
            &&& (opt_view(d.source_code), views_of(d.labels@)) == spec_build_source_labels(
                entry@,
                match file_content {
                    Some(c) => Some(c@),
                    None => None,
                },
            )
            &&& opt_str(d.help) == Some(
                spec_join_sep(
                    spec_missing_field_sections(entry@, field_info@, spec_chain_of(entry@)),
                    "\n"@,
                ),
            )
        },
{
    let chain = format_delegation_chain(entry);
    let mut sections = seg_context_exec(entry, field_info);
    let mut s2 = seg_note_exec(entry, field_info);
    append_strings(&mut sections, &mut s2);
    let mut s3 = seg_warn_exec(field_info);
    append_strings(&mut sections, &mut s3);
    let mut s4 = seg_loc_exec(entry, field_info);
    append_strings(&mut sections, &mut s4);
    let mut s5 = seg_chain_exec(entry, &chain, "    ");
    append_strings(&mut sections, &mut s5);
    let mut s6 = seg_inner_exec(entry);
    append_strings(&mut sections, &mut s6);
    let mut s7 = seg_fix_exec(entry, field_info);
    append_strings(&mut sections, &mut s7);
    proof {
        assert(strs_of(sections@) == spec_missing_field_sections(entry@, field_info@,
            strs_of(chain@)));
    }
    let help = join_with(&sections, "\n");
    let f = format_field_name(field_info.field_name.as_str());
    let mut message = String::new();
    message.append("missing field `");
    message.append(f.as_str());
    if entry.has_other_hasfield_impls {
        message.append("` in the context `");
    } else {
        message.append("` or `#[derive(HasField)]` in the context `");
    }
    message.append(field_info.target_type.as_str());
    message.append("`.");
    proof {
        assert(Seq::<char>::empty() + "missing field `"@ =~= "missing field `"@);
        assert(message@ =~= spec_missing_field_message(entry@, field_info@));
    }
    let (source_code, labels) = build_source_and_labels(entry, file_content);
    Some(
        CgpDiagnostic {
            message,
            code: crate::raw_diagnostic::clone_opt_string(&entry.error_code),
            help: Some(help),
            source_code,
            labels,
        },
    )
}

/// The suggested capability checks derived from the nested consumer
/// interfaces.
pub open spec fn spec_check_suggestions(
    ncs: Seq<NestedConsumerTraitV>,
    k: int,
    ctx: Seq<char>,
) -> Seq<Seq<char>>
    decreases ncs.len() - k,
    when 0 <= k <= ncs.len()
{
    if k >= ncs.len() {
        Seq::empty()
    } else {
        let rest = spec_check_suggestions(ncs, k + 1, ctx);
        match spec_derive_component_from_consumer(ncs[k].trait_name) {
            Some(comp) => seq![
                "Add a check that `"@ + ctx + "` can use `"@ + comp
                    + "` using `check_components!` to get further details on the missing dependencies."@,
            ] + rest,
            None => rest,
        }
    }
}

/// The context type the generic help speaks of.
pub open spec fn spec_generic_context(e: DiagnosticEntryV) -> Seq<char> {
    match spec_unsatisfied_provider(e.message) {
        Some(u) => u.context_type,
        None => match spec_context_from_notes(e.delegation_notes, 0) {
            Some(c) => c,
            None => "the context"@,
        },
    }
}

/// The help sections of a generic framework diagnostic.
pub open spec fn spec_generic_sections(e: DiagnosticEntryV, chain: Seq<Seq<char>>) -> Seq<
    Seq<char>,
> {
    let chain_part: Seq<Seq<char>> = if e.delegation_notes.len() > 0 {
        seq!["Dependency chain:"@] + Seq::new(chain.len(), |i: int| "  "@ + chain[i]) + seq![
            Seq::<char>::empty(),
        ]
    } else {
        Seq::empty()
    };
    let ncs = spec_nested_consumers_from(e.delegation_notes, 0);
    let suggestions: Seq<Seq<char>> = if ncs.len() > 0 {
        spec_check_suggestions(ncs, 0, spec_generic_context(e))
    } else {
        Seq::empty()
    };
    chain_part + suggestions
}

/// Formats a generic framework entry: the original message, the delegation
/// chain and capability-check suggestions as help, and the labeled source.
#[verifier::loop_isolation(false)]
pub fn format_generic_cgp_error(entry: &DiagnosticEntry, file_content: Option<&String>) -> (r:
    Option<CgpDiagnostic>)
    ensures
        r matches Some(d) && {
            &&& d.message@ == entry@.message
            &&& opt_str(d.code) == entry@.error_code
            &&& (opt_view(d.source_code), views_of(d.labels@)) == spec_build_source_labels(
                entry@,
                match file_content {
                    Some(c) => Some(c@),
                    None => None,
                },
            )
            &&& opt_str(d.help) == (if spec_generic_sections(
                entry@,
                spec_chain_of(entry@),
            ).len() == 0 {
                None::<Seq<char>>
            } else {
                Some(
                    spec_join_sep(spec_generic_sections(entry@, spec_chain_of(entry@)), "\n"@),
                )
            })
        },
{
    let chain = format_delegation_chain(entry);
    let ghost chainv = strs_of(chain@);
    let mut sections: Vec<String> = Vec::new();
    if entry.delegation_notes.len() > 0 {
        let mut head = String::new();
        head.append("Dependency chain:");
        proof {
            assert(head@ =~= "Dependency chain:"@);
        }
        push_line(&mut sections, head);
        let n = chain.len();
        let mut i: usize = 0;
        while i < n
            invariant
                0 <= i <= n,
                n == chainv.len(),
                chainv == strs_of(chain@),
                strs_of(sections@) =~= seq!["Dependency chain:"@] + Seq::new(
                    chainv.len(),
                    |t: int| "  "@ + chainv[t],
                ).subrange(0, i as int),
            decreases n - i,
        {
            proof {
                assert(chainv[i as int] == chain@[i as int]@);
            }
            let mut line = String::new();
            line.append("  ");
            line.append(chain[i].as_str());
            proof {
                assert(Seq::<char>::empty() + "  "@ =~= "  "@);
            }
            push_line(&mut sections, line);
            proof {
                assert(strs_of(sections@) =~= seq!["Dependency chain:"@] + Seq::new(
                    chainv.len(),
                    |t: int| "  "@ + chainv[t],
                ).subrange(0, i as int + 1));
            }
            i += 1;
        }
        push_line(&mut sections, empty_string());
        proof {
            let mapped = Seq::new(chainv.len(), |t: int| "  "@ + chainv[t]);
            assert(mapped.subrange(0, mapped.len() as int) =~= mapped);
        }
    }
    let ghost chain_part = strs_of(sections@);
    proof {
        let e = entry@;
        let expect: Seq<Seq<char>> = if e.delegation_notes.len() > 0 {
            seq!["Dependency chain:"@] + Seq::new(chainv.len(), |i: int| "  "@ + chainv[i])
                + seq![Seq::<char>::empty()]
        } else {
            Seq::empty()
        };
        assert(chain_part =~= expect);
    }
    let ncs = extract_nested_consumer_traits(&entry.delegation_notes);
    let ghost ncsv = spec_nested_consumers_from(entry@.delegation_notes, 0);
    if ncs.len() > 0 {
        let context_type: String = match extract_unsatisfied_provider_from_message(
            entry.message.as_str(),
        ) {
            Some(u) => u.context_type,
            None => {
                match extract_context_from_notes(&entry.delegation_notes) {
                    Some(c) => c,
                    None => {
                        let mut d = String::new();
                        d.append("the context");
                        proof {
                            assert(d@ =~= "the context"@);
                        }
                        d
                    },
                }
            },
        };
        proof {
            assert(context_type@ == spec_generic_context(entry@));
        }
        let n = ncs.len();
        let mut k: usize = 0;
        while k < n
            invariant
                0 <= k <= n,
                n == ncsv.len(),
                ncsv == views_of(ncs@),
                context_type@ == spec_generic_context(entry@),
                strs_of(sections@) =~= chain_part + spec_check_suggestions_upto(
                    ncsv,
                    0,
                    k as int,
                    context_type@,
                ),
            decreases n - k,
        {
            proof {
                assert(ncsv[k as int] == ncs@[k as int]@);
            }
            proof {
                assert(spec_check_suggestions_upto(ncsv, k as int + 1, k as int + 1,
                    context_type@) =~= Seq::<Seq<char>>::empty());
            }
            match derive_component_from_consumer_trait(ncs[k].trait_name.as_str()) {
                Some(comp) => {
                    let mut line = String::new();
                    line.append("Add a check that `");
                    line.append(context_type.as_str());
                    line.append("` can use `");
                    line.append(comp.as_str());
                    line.append(
                        "` using `check_components!` to get further details on the missing dependencies.",
                    );
                    proof {
                        assert(Seq::<char>::empty() + "Add a check that `"@
                            =~= "Add a check that `"@);
                    }
                    let ghost prevs = strs_of(sections@);
                    let ghost linev = line@;
                    push_line(&mut sections, line);
                    proof {
                        lemma_suggestions_upto_step(ncsv, k as int, context_type@);
                        assert(spec_check_suggestions_upto(ncsv, k as int, k as int + 1,
                            context_type@) =~= seq![linev]);
                        assert(strs_of(sections@) =~= prevs.push(linev));
                        assert(prevs.push(linev) =~= chain_part + (spec_check_suggestions_upto(
                            ncsv,
                            0,
                            k as int,
                            context_type@,
                        ) + seq![linev]));
                        assert(strs_of(sections@) =~= chain_part + spec_check_suggestions_upto(
                            ncsv,
                            0,
                            k as int + 1,
                            context_type@,
                        ));
                    }
                },
                None => {
                    proof {
                        lemma_suggestions_upto_step(ncsv, k as int, context_type@);
                        assert(spec_check_suggestions_upto(ncsv, k as int, k as int + 1,
                            context_type@) =~= Seq::<Seq<char>>::empty());
                        assert(strs_of(sections@) =~= chain_part + spec_check_suggestions_upto(
                            ncsv,
                            0,
                            k as int + 1,
                            context_type@,
                        ));
                    }
                },
            }
            k += 1;
        }
        proof {
            lemma_suggestions_upto_all(ncsv, 0, context_type@);
            assert(strs_of(sections@) =~= spec_generic_sections(entry@, chainv));
        }
    } else {
        proof {
            assert(strs_of(sections@) =~= spec_generic_sections(entry@, chainv));
        }
    }
    let help: Option<String> = if sections.len() == 0 {
        None
    } else {
        Some(join_with(&sections, "\n"))
    };
    let (source_code, labels) = build_source_and_labels(entry, file_content);
    Some(
        CgpDiagnostic {
            message: entry.message.clone(),
            code: crate::raw_diagnostic::clone_opt_string(&entry.error_code),
            help,
            source_code,
            labels,
        },
    )
}

/// The suggestion lines of the dependencies with indices in `[k, m)`.
pub open spec fn spec_check_suggestions_upto(
    ncs: Seq<NestedConsumerTraitV>,
    k: int,
    m: int,
    ctx: Seq<char>,
) -> Seq<Seq<char>>
    decreases m - k,
    when 0 <= k <= m <= ncs.len()
{
    if k >= m {
        Seq::empty()
    } else {
        let rest = spec_check_suggestions_upto(ncs, k + 1, m, ctx);
        match spec_derive_component_from_consumer(ncs[k].trait_name) {
            Some(comp) => seq![
                "Add a check that `"@ + ctx + "` can use `"@ + comp
                    + "` using `check_components!` to get further details on the missing dependencies."@,
            ] + rest,
            None => rest,
        }
    }
}

proof fn lemma_suggestions_upto_step_from(
    ncs: Seq<NestedConsumerTraitV>,
    k: int,
    m: int,
    ctx: Seq<char>,
)
    requires
        0 <= k <= m < ncs.len(),
    ensures
        spec_check_suggestions_upto(ncs, k, m + 1, ctx) == spec_check_suggestions_upto(
            ncs,
            k,
            m,
            ctx,
        ) + spec_check_suggestions_upto(ncs, m, m + 1, ctx),
    decreases m - k,
{
    if k < m {
        lemma_suggestions_upto_step_from(ncs, k + 1, m, ctx);
        assert(spec_check_suggestions_upto(ncs, k, m + 1, ctx) =~= spec_check_suggestions_upto(
            ncs,
            k,
            m,
            ctx,
        ) + spec_check_suggestions_upto(ncs, m, m + 1, ctx));
    } else {
        assert(spec_check_suggestions_upto(ncs, k, m, ctx) =~= Seq::<Seq<char>>::empty());
        assert(spec_check_suggestions_upto(ncs, k, m + 1, ctx) =~= spec_check_suggestions_upto(
            ncs,
            k,
            m,
            ctx,
        ) + spec_check_suggestions_upto(ncs, m, m + 1, ctx));
    }
}

proof fn lemma_suggestions_upto_step(ncs: Seq<NestedConsumerTraitV>, m: int, ctx: Seq<char>)
    requires
        0 <= m < ncs.len(),
    ensures
        spec_check_suggestions_upto(ncs, 0, m + 1, ctx) == spec_check_suggestions_upto(
            ncs,
            0,
            m,
            ctx,
        ) + spec_check_suggestions_upto(ncs, m, m + 1, ctx),
{
    lemma_suggestions_upto_step_from(ncs, 0, m, ctx);
}

proof fn lemma_suggestions_upto_all(ncs: Seq<NestedConsumerTraitV>, k: int, ctx: Seq<char>)
    requires
        0 <= k <= ncs.len(),
    ensures
        spec_check_suggestions_upto(ncs, k, ncs.len() as int, ctx) == spec_check_suggestions(
            ncs,
            k,
            ctx,
        ),
    decreases ncs.len() - k,
{
    if k < ncs.len() {
        lemma_suggestions_upto_all(ncs, k + 1, ctx);
    }
}

/// Formats a finalized entry as a framework-aware diagnostic: the
/// field-specific wording when a field requirement is known, else the
/// generic form.
pub fn format_error_message(entry: &DiagnosticEntry, file_content: Option<&String>) -> (r:
    Option<CgpDiagnostic>)
    ensures
        r is Some,
        r matches Some(d) ==> {
            &&& opt_str(d.code) == entry@.error_code
            &&& (opt_view(d.source_code), views_of(d.labels@)) == spec_build_source_labels(
                entry@,
                match file_content {
                    Some(c) => Some(c@),
                    None => None,
                },
            )
            &&& match entry@.field_info {
                Some(fi) => d.message@ == spec_missing_field_message(entry@, fi) && opt_str(
                    d.help,
                ) == Some(
                    spec_join_sep(
                        spec_missing_field_sections(entry@, fi, spec_chain_of(entry@)),
                        "\n"@,
                    ),
                ),
                None => d.message@ == entry@.message && opt_str(d.help) == (if
                spec_generic_sections(entry@, spec_chain_of(entry@)).len() == 0 {
                    None::<Seq<char>>
                } else {
                    Some(
                        spec_join_sep(
                            spec_generic_sections(entry@, spec_chain_of(entry@)),
                            "\n"@,
                        ),
                    )
                }),
            }
        },
{
    match &entry.field_info {
        Some(fi) => format_missing_field_error(entry, fi, file_content),
        None => format_generic_cgp_error(entry, file_content),
    }
}

} // verus!
