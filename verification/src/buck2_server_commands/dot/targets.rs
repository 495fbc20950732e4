//! A set of targets as a graph for dot: the targets are the nodes, and the
//! dependencies between them the edges.

use regex::RegexSet;
use vstd::prelude::*;

verus! {

/// A set of regular expressions of the crate `regex`.
#[verifier::external_type_specification]
#[verifier::external_body]
pub struct ExRegexSet(RegexSet);

/// The texts in which one of the regular expressions of the set matches.
pub uninterp spec fn matched_by(set: RegexSet) -> Set<Seq<char>>;

/// `regex::RegexSet::is_match`: whether one of the regular expressions of
/// the set matches in the text.
#[verifier::external_body]
fn is_match(set: &RegexSet, text: &str) -> (b: bool)
    ensures
        b == matched_by(*set).contains(text@),
{
    set.is_match(text)
}

/// A target as a query sees it.
pub struct QueryTargetNode {
    /// The label of the target.
    pub key: String,
    /// The labels of the targets that the target depends on.
    pub deps: Vec<String>,
    /// The attributes of the target: names and values as they are shown.
    pub attrs: Vec<(String, String)>,
}

pub struct DotEdge {
    pub from: String,
    pub to: String,
}

/// How a node is drawn.
pub struct DotNodeAttrs {
    pub style: Option<String>,
    pub color: Option<String>,
    pub label: Option<String>,
    /// Further attributes, each name once.
    pub extra: Vec<(String, String)>,
}

pub struct DotTargetGraphNode<'a>(pub &'a QueryTargetNode, pub &'a DotTargetGraph);

/// A simple adapter for creating a dot graph for a set of targets.
pub struct DotTargetGraph {
    pub targets: Vec<QueryTargetNode>,
    /// The attributes that are to be shown: those whose name one of the
    /// regular expressions matches.
    pub attributes: Option<RegexSet>,
}

/// Whether one of the targets has the label `key`.
pub open spec fn has_target(targets: Seq<QueryTargetNode>, key: Seq<char>) -> bool {
    exists|i: int| 0 <= i < targets.len() && (#[trigger] targets[i]).key@ == key
}

/// The dependencies that are among the targets, in their order.
pub open spec fn kept_deps(deps: Seq<String>, targets: Seq<QueryTargetNode>) -> Seq<Seq<char>>
    decreases deps.len(),
{
    if deps.len() == 0 {
        Seq::empty()
    } else if has_target(targets, deps.last()@) {
        kept_deps(deps.drop_last(), targets).push(deps.last()@)
    } else {
        kept_deps(deps.drop_last(), targets)
    }
}

/// Where the name `name` stands in `extra`; the length of `extra` if it
/// does not.
pub open spec fn name_position(extra: Seq<(Seq<char>, Seq<char>)>, name: Seq<char>) -> int
    decreases extra.len(),
{
    if extra.len() == 0 {
        0
    } else if extra[0].0 == name {
        0
    } else {
        1 + name_position(extra.drop_first(), name)
    }
}

/// `extra` with `value` under `name`: in the place of the value that the
/// name had, or at the end.
pub open spec fn with_attr(
    extra: Seq<(Seq<char>, Seq<char>)>,
    name: Seq<char>,
    value: Seq<char>,
) -> Seq<(Seq<char>, Seq<char>)> {
    let p = name_position(extra, name);
    if p < extra.len() {
        extra.update(p, (name, value))
    } else {
        extra.push((name, value))
    }
}

/// The attributes that are shown of a target: those whose name is in
/// `shown`, under their name with `buck_` before it.
pub open spec fn shown_attrs(attrs: Seq<(String, String)>, shown: Set<Seq<char>>) -> Seq<
    (Seq<char>, Seq<char>),
>
    decreases attrs.len(),
{
    if attrs.len() == 0 {
        Seq::empty()
    } else if shown.contains(attrs.last().0@) {
        with_attr(
            shown_attrs(attrs.drop_last(), shown),
            "buck_"@ + attrs.last().0@,
            attrs.last().1@,
        )
    } else {
        shown_attrs(attrs.drop_last(), shown)
    }
}

/// The names and values as texts.
pub open spec fn texts(extra: Seq<(String, String)>) -> Seq<(Seq<char>, Seq<char>)> {
    Seq::new(extra.len(), |i: int| (extra[i].0@, extra[i].1@))
}

proof fn lemma_name_position(extra: Seq<(Seq<char>, Seq<char>)>, name: Seq<char>, p: int)
    requires
        0 <= p <= extra.len(),
        forall|j: int| 0 <= j < p ==> (#[trigger] extra[j]).0 != name,
        p < extra.len() ==> extra[p].0 == name,
    ensures
        name_position(extra, name) == p,
    decreases extra.len(),
{
    if extra.len() == 0 {
    } else if extra[0].0 == name {
    } else {
        assert forall|j: int| 0 <= j < p - 1 implies (#[trigger] extra.drop_first()[j]).0
            != name by {
            assert(extra.drop_first()[j] == extra[j + 1]);
        }
        if p - 1 < extra.drop_first().len() {
            assert(extra.drop_first()[p - 1] == extra[p]);
        }
        lemma_name_position(extra.drop_first(), name, p - 1);
    }
}

impl DotTargetGraph {
    pub fn name(&self) -> (name: &str)
        ensures
            name@ == "result_graph"@,
    {
        "result_graph"
    }

    fn contains(&self, key: &String) -> (b: bool)
        ensures
            b == has_target(self.targets@, key@),
    {
        let mut i: usize = 0;
        while i < self.targets.len()
            invariant
                i <= self.targets@.len(),
                forall|j: int| 0 <= j < i ==> (#[trigger] self.targets@[j]).key@ != key@,
            decreases self.targets@.len() - i,
        {
            if self.targets[i].key == *key {
                return true;
            }
            i = i + 1;
        }
        false
    }

    /// The nodes of the graph: one for each target, in their order.
    pub fn for_each_node(&self) -> (nodes: Vec<DotTargetGraphNode<'_>>)
        ensures
            nodes@.len() == self.targets@.len(),
            forall|i: int|
                0 <= i < nodes@.len() ==> *(#[trigger] nodes@[i]).0 == self.targets@[i]
                    && *nodes@[i].1 == *self,
    {
        let mut nodes: Vec<DotTargetGraphNode<'_>> = Vec::new();
        let mut i: usize = 0;
        while i < self.targets.len()
            invariant
                i <= self.targets@.len(),
                nodes@.len() == i,
                forall|j: int|
                    0 <= j < i ==> *(#[trigger] nodes@[j]).0 == self.targets@[j] && *nodes@[j].1
                        == *self,
            decreases self.targets@.len() - i,
        {
            nodes.push(DotTargetGraphNode(&self.targets[i], self));
            i = i + 1;
        }
        nodes
    }

    /// The edges that leave a node: one to each of its dependencies that is
    /// a node of the graph.
    pub fn for_each_edge(&self, node: &DotTargetGraphNode<'_>) -> (edges: Vec<DotEdge>)
        ensures
            edges@.len() == kept_deps(node.0.deps@, self.targets@).len(),
            forall|i: int|
                0 <= i < edges@.len() ==> (#[trigger] edges@[i]).from@ == node.0.key@
                    && edges@[i].to@ == kept_deps(node.0.deps@, self.targets@)[i],
    {
        let mut edges: Vec<DotEdge> = Vec::new();
        let deps = &node.0.deps;
        let mut i: usize = 0;
        while i < deps.len()
            invariant
                i <= deps@.len(),
                deps@ == node.0.deps@,
                edges@.len() == kept_deps(deps@.take(i as int), self.targets@).len(),
                forall|j: int|
                    0 <= j < edges@.len() ==> (#[trigger] edges@[j]).from@ == node.0.key@
                        && edges@[j].to@ == kept_deps(deps@.take(i as int), self.targets@)[j],
            decreases deps@.len() - i,
        {
            let dep = &deps[i];
            proof {
                let s = deps@.take(i + 1);
                assert(s.drop_last() =~= deps@.take(i as int));
                assert(s.last() == deps@[i as int]);
            }
            // Only include edges to other nodes within the subgraph.
            if self.contains(dep) {
                edges.push(DotEdge { from: node.0.key.clone(), to: dep.clone() });
            }
            i = i + 1;
        }
        proof {
            assert(deps@.take(i as int) =~= deps@);
        }
        edges
    }
}

impl<'a> DotTargetGraphNode<'a> {
    /// How the node is drawn: filled with a light green, and with those of
    /// its attributes that are to be shown.
    pub fn attrs(&self) -> (attrs: DotNodeAttrs)
        ensures
            attrs.style matches Some(style) && style@ == "filled"@,
            attrs.color matches Some(color) && color@ == "#DFECDF"@,
            attrs.label is None,
            texts(attrs.extra@) == (match self.1.attributes {
                Some(attr_regex) => shown_attrs(self.0.attrs@, matched_by(attr_regex)),
                None => Seq::empty(),
            }),
    {
        let mut extra: Vec<(String, String)> = Vec::new();
        match &self.1.attributes {
            Some(attr_regex) => {
                let all = &self.0.attrs;
                let mut i: usize = 0;
                proof {
                    assert(texts(extra@) =~= shown_attrs(all@.take(0), matched_by(*attr_regex)));
                }
                while i < all.len()
                    invariant
                        i <= all@.len(),
                        all@ == self.0.attrs@,
                        texts(extra@) == shown_attrs(all@.take(i as int), matched_by(*attr_regex)),
                    decreases all@.len() - i,
                {
                    let attr_name = &all[i].0;
                    let attr_value = &all[i].1;
                    proof {
                        let s = all@.take(i + 1);
                        assert(s.drop_last() =~= all@.take(i as int));
                        assert(s.last() == all@[i as int]);
                    }
                    if is_match(attr_regex, attr_name.as_str()) {
                        let mut name = String::from_str("buck_");
                        name.append(attr_name.as_str());
                        let ghost before = texts(extra@);
                        let mut p: usize = 0;
                        while p < extra.len() && !(extra[p].0 == name)
                            invariant
                                p <= extra@.len(),
                                forall|j: int| 0 <= j < p ==> (#[trigger] extra@[j]).0@ != name@,
                            decreases extra@.len() - p,
                        {
                            p = p + 1;
                        }
                        proof {
                            assert forall|j: int| 0 <= j < p implies (#[trigger] before[j]).0
                                != name@ by {
                                assert(before[j].0 == extra@[j].0@);
                            }
                            if p < before.len() {
                                assert(before[p as int].0 == extra@[p as int].0@);
                            }
                            lemma_name_position(before, name@, p as int);
                        }
                        if p < extra.len() {
                            extra.set(p, (name, attr_value.clone()));
                            proof {
                                assert(texts(extra@) =~= before.update(
                                    p as int,
                                    (name@, attr_value@),
                                ));
                            }
                        } else {
                            extra.push((name, attr_value.clone()));
                            proof {
                                assert(texts(extra@) =~= before.push((name@, attr_value@)));
                            }
                        }
                    }
                    i = i + 1;
                }
                proof {
                    assert(all@.take(i as int) =~= all@);
                }
            },
            None => {
                proof {
                    assert(texts(extra@) =~= Seq::empty());
                }
            },
        }
        DotNodeAttrs {
            style: Some(String::from_str("filled")),
            color: Some(String::from_str("#DFECDF")),
            label: None,
            extra,
        }
    }

    pub fn id(&self) -> (id: String)
        ensures
            id@ == self.0.key@,
    {
        self.0.key.clone()
    }
}

} // verus!
