//! The document as scripts see and change it.
//!
//! Scripts work on a snapshot of the page. What they do to it is also
//! recorded, as a list of mutations that the page takes over later.
use std::collections::HashMap;

use vstd::prelude::*;
use vstd::string::*;

use crate::codec;
use crate::js::arg;
use crate::js::arg::Arg;
use crate::js::case;
use crate::strmap::StringMap;
use crate::text;

verus! {

broadcast use vstd::std_specs::hash::group_hash_axioms;

/// The type of element nodes.
pub const ELEMENT_NODE: u8 = 1;

/// The type of text nodes.
pub const TEXT_NODE: u8 = 3;

/// A node of the snapshot.
pub struct DomNode {
    pub id: u32,
    pub tag: String,
    pub attributes: StringMap<String>,
    pub text_content: String,
    pub children: Vec<u32>,
    pub parent: Option<u32>,
    pub node_type: u8,
}

/// What a node is.
#[verifier::ext_equal]
pub struct NodeView {
    pub id: u32,
    pub tag: Seq<char>,
    pub attributes: Map<Seq<char>, Seq<char>>,
    pub text_content: Seq<char>,
    pub children: Seq<u32>,
    pub parent: Option<u32>,
    pub node_type: u8,
}

impl View for DomNode {
    type V = NodeView;

    open spec fn view(&self) -> NodeView {
        NodeView {
            id: self.id,
            tag: self.tag@,
            attributes: self.attributes@.map_values(|t: String| t@),
            text_content: self.text_content@,
            children: self.children@,
            parent: self.parent,
            node_type: self.node_type,
        }
    }
}

/// A snapshot of a page.
pub struct DomSnapshot {
    /// The nodes by their ids.
    pub nodes: HashMap<u32, DomNode>,
    pub title: String,
    pub url: String,
    pub root_id: u32,
    pub body_id: Option<u32>,
    pub head_id: Option<u32>,
}

/// What a snapshot shows.
#[verifier::ext_equal]
pub struct SnapshotView {
    pub nodes: Map<u32, NodeView>,
    pub title: Seq<char>,
    pub url: Seq<char>,
    pub root_id: u32,
    pub body_id: Option<u32>,
    pub head_id: Option<u32>,
}

impl View for DomSnapshot {
    type V = SnapshotView;

    open spec fn view(&self) -> SnapshotView {
        SnapshotView {
            nodes: self.nodes@.map_values(|n: DomNode| n@),
            title: self.title@,
            url: self.url@,
            root_id: self.root_id,
            body_id: self.body_id,
            head_id: self.head_id,
        }
    }
}

/// A change that a script made to the document.
#[derive(Debug, PartialEq, Eq)]
pub enum DomMutation {
    SetAttribute { node_id: u32, name: String, value: String },
    ClickElement { node_id: u32 },
    InputElement { node_id: u32, value: String },
    AppendChild { parent_id: u32, child_id: u32 },
    RemoveChild { parent_id: u32, child_id: u32 },
    CreateElement { node_id: u32, tag: String },
    CreateTextNode { node_id: u32, text: String },
}

/// What a change is.
pub enum MutationView {
    SetAttribute { node_id: u32, name: Seq<char>, value: Seq<char> },
    ClickElement { node_id: u32 },
    InputElement { node_id: u32, value: Seq<char> },
    AppendChild { parent_id: u32, child_id: u32 },
    RemoveChild { parent_id: u32, child_id: u32 },
    CreateElement { node_id: u32, tag: Seq<char> },
    CreateTextNode { node_id: u32, text: Seq<char> },
}

impl View for DomMutation {
    type V = MutationView;

    open spec fn view(&self) -> MutationView {
        match self {
            DomMutation::SetAttribute { node_id, name, value } => MutationView::SetAttribute {
                node_id: *node_id,
                name: name@,
                value: value@,
            },
            DomMutation::ClickElement { node_id } => MutationView::ClickElement {
                node_id: *node_id,
            },
            DomMutation::InputElement { node_id, value } => MutationView::InputElement {
                node_id: *node_id,
                value: value@,
            },
            DomMutation::AppendChild { parent_id, child_id } => MutationView::AppendChild {
                parent_id: *parent_id,
                child_id: *child_id,
            },
            DomMutation::RemoveChild { parent_id, child_id } => MutationView::RemoveChild {
                parent_id: *parent_id,
                child_id: *child_id,
            },
            DomMutation::CreateElement { node_id, tag } => MutationView::CreateElement {
                node_id: *node_id,
                tag: tag@,
            },
            DomMutation::CreateTextNode { node_id, text } => MutationView::CreateTextNode {
                node_id: *node_id,
                text: text@,
            },
        }
    }
}

/// What several changes are.
pub open spec fn mutation_views(v: Seq<DomMutation>) -> Seq<MutationView> {
    v.map_values(|m: DomMutation| m@)
}

/// `m` is the highest of the ids, or zero where there is none.
pub open spec fn is_highest(ids: Set<u32>, m: u32) -> bool {
    if ids.is_empty() {
        m == 0
    } else {
        ids.contains(m) && forall|k: u32| #[trigger] ids.contains(k) ==> k <= m
    }
}

/// The highest of the ids, or zero where there is none.
pub open spec fn highest(ids: Set<u32>) -> u32 {
    choose|m: u32| is_highest(ids, m)
}

proof fn lemma_highest(ids: Set<u32>, m: u32)
    requires
        is_highest(ids, m),
    ensures
        highest(ids) == m,
{
    let h = highest(ids);
    assert(is_highest(ids, h));
    if !ids.is_empty() {
        assert(ids.contains(h) && ids.contains(m));
    }
}

/// A new node that has no parent, children or attributes yet.
pub open spec fn fresh_node(id: u32, tag: Seq<char>, content: Seq<char>, node_type: u8) -> NodeView {
    NodeView {
        id,
        tag,
        attributes: Map::empty(),
        text_content: content,
        children: Seq::empty(),
        parent: None,
        node_type,
    }
}

impl SnapshotView {
    /// The highest id of a node, or zero where there is none.
    pub open spec fn top(self) -> u32 {
        highest(self.nodes.dom())
    }

    /// The snapshot with a node in the place of the one with its key.
    pub open spec fn with_node(self, id: u32, node: NodeView) -> SnapshotView {
        SnapshotView { nodes: self.nodes.insert(id, node), ..self }
    }

    /// The snapshot once `child` stands last among the children of `parent`,
    /// whether it was one of them before or not.
    pub open spec fn with_last_child(self, parent: u32, child: u32) -> SnapshotView {
        if self.nodes.contains_key(parent) {
            let p = self.nodes[parent];
            self.with_node(parent, NodeView { children: p.children.push(child), ..p })
        } else {
            self
        }
    }

    /// The snapshot once `child` is among the children of `parent`.
    pub open spec fn with_child(self, parent: u32, child: u32) -> SnapshotView {
        if self.nodes.contains_key(parent) && self.nodes[parent].children.contains(child) {
            self
        } else {
            self.with_last_child(parent, child)
        }
    }

    /// The snapshot once `child` is no longer among the children of `parent`.
    pub open spec fn without_child(self, parent: u32, child: u32) -> SnapshotView {
        if self.nodes.contains_key(parent) {
            let p = self.nodes[parent];
            self.with_node(parent, NodeView { children: without(p.children, child), ..p })
        } else {
            self
        }
    }

    /// The snapshot once the parent of `child` is the one given.
    pub open spec fn with_parent(self, child: u32, parent: Option<u32>) -> SnapshotView {
        if self.nodes.contains_key(child) {
            let c = self.nodes[child];
            self.with_node(child, NodeView { parent, ..c })
        } else {
            self
        }
    }

    /// The snapshot once `child` has been appended to `parent`.
    pub open spec fn appended(self, parent: u32, child: u32) -> SnapshotView {
        self.with_child(parent, child).with_parent(child, Some(parent))
    }

    /// The snapshot once `child` has been removed from `parent`.
    pub open spec fn removed(self, parent: u32, child: u32) -> SnapshotView {
        self.without_child(parent, child).with_parent(child, None)
    }

    /// The snapshot once a text has been written to the end of the body `body`.
    pub open spec fn written(self, body: u32, id: u32, content: Seq<char>) -> SnapshotView {
        let node = NodeView {
            parent: Some(body),
            ..fresh_node(id, Seq::empty(), content, TEXT_NODE)
        };
        self.with_node(id, node).with_last_child(body, id)
    }

    /// The first child of the root that is tagged `html`.
    pub open spec fn document_element(self) -> Option<u32> {
        if self.nodes.contains_key(self.root_id) {
            first_tagged(self.nodes, self.nodes[self.root_id].children, "html"@)
        } else {
            None
        }
    }

    /// An id, if it is that of a node.
    pub open spec fn known(self, id: Option<u32>) -> Option<u32> {
        match id {
            Some(i) => if self.nodes.contains_key(i) {
                Some(i)
            } else {
                None
            },
            None => None,
        }
    }
}

/// The ids without those that equal `x`, in order.
pub open spec fn without(ids: Seq<u32>, x: u32) -> Seq<u32>
    decreases ids.len(),
{
    if ids.len() == 0 {
        Seq::empty()
    } else if ids.last() == x {
        without(ids.drop_last(), x)
    } else {
        without(ids.drop_last(), x).push(ids.last())
    }
}

/// The first of the ids that is the id of a node with this tag.
pub open spec fn first_tagged(
    nodes: Map<u32, NodeView>,
    ids: Seq<u32>,
    tag: Seq<char>,
) -> Option<u32>
    decreases ids.len(),
{
    if ids.len() == 0 {
        None
    } else if nodes.contains_key(ids[0]) && nodes[ids[0]].tag == tag {
        Some(ids[0])
    } else {
        first_tagged(nodes, ids.drop_first(), tag)
    }
}

impl DomSnapshot {
    /// The attributes of each node hold no name twice.
    pub open spec fn wf(&self) -> bool {
        forall|id: u32|
            #[trigger] self.nodes@.contains_key(id) ==> self.nodes@[id].attributes.wf()
    }

    /// The highest id of a node, or zero where there is none.
    pub fn top_id(&self) -> (r: u32)
        ensures
            r == self@.top(),
    {
        let mut m: u32 = 0;
        let mut any: bool = false;
        let ghost ids = self.nodes@.dom();
        let ghost all = vstd::std_specs::iter::IteratorSpec::remaining(
            &vstd::std_specs::hash::spec_keys_iter(&self.nodes),
        ).unref();
        let ghost mut seen: Seq<u32> = Seq::empty();
        for k in it: self.nodes.keys()
            invariant
                it.seq().unref() == all,
                it.seq().len() == all.len(),
                seen == all.take(it.index()),
                seen.len() == it.index(),
                any == (seen.len() > 0),
                !any ==> m == 0,
                any ==> seen.contains(m),
                forall|j: int| 0 <= j < seen.len() ==> seen[j] <= m,
        {
            let ghost before = seen;
            proof {
                seen = seen.push(*k);
                assert(it.seq().unref()[it.index() as int] == *k);
                assert(seen =~= all.take(it.index() + 1));
                if before.contains(m) {
                    let j = before.index_of(m);
                    assert(seen[j] == m);
                }
                assert(seen[before.len() as int] == *k);
            }
            if !any || *k > m {
                m = *k;
                any = true;
            }
        }
        proof {
            assert(self@.nodes.dom() =~= ids);
            assert(seen =~= all);
            assert(seen.to_set() == ids);
            assert forall|k: u32| #[trigger] ids.contains(k) implies k <= m by {
                assert(seen.contains(k));
            }
            if ids.is_empty() {
                if seen.len() > 0 {
                    assert(seen.to_set().contains(seen[0]));
                }
            } else {
                let k = choose|k: u32| ids.contains(k);
                assert(seen.contains(k));
            }
            lemma_highest(ids, m);
        }
        m
    }

    fn put_node(&mut self, id: u32, node: DomNode)
        requires
            old(self).wf(),
            node.attributes.wf(),
        ensures
            final(self).wf(),
            final(self)@ == old(self)@.with_node(id, node@),
    {
        self.nodes.insert(id, node);
        assert(self@ =~= old(self)@.with_node(id, node@));
    }

    fn push_child(&mut self, parent: u32, child: u32)
        requires
            old(self).wf(),
        ensures
            final(self).wf(),
            final(self)@ == old(self)@.with_last_child(parent, child),
    {
        match self.nodes.remove(&parent) {
            Some(mut n) => {
                n.children.push(child);
                self.nodes.insert(parent, n);
                assert(self@ =~= old(self)@.with_last_child(parent, child));
            },
            None => {
                assert(self@ =~= old(self)@);
            },
        }
    }

    fn has_child(&self, parent: u32, child: u32) -> (r: bool)
        ensures
            r == (self@.nodes.contains_key(parent) && self@.nodes[parent].children.contains(child)),
    {
        match self.nodes.get(&parent) {
            Some(n) => {
                let mut i: usize = 0;
                while i < n.children.len()
                    invariant
                        i <= n.children.len(),
                        self.nodes@.contains_key(parent),
                        *n == self.nodes@[parent],
                        forall|j: int| 0 <= j < i ==> n.children@[j] != child,
                    decreases n.children.len() - i,
                {
                    if n.children[i] == child {
                        return true;
                    }
                    i = i + 1;
                }
                false
            },
            None => false,
        }
    }

    fn drop_child(&mut self, parent: u32, child: u32)
        requires
            old(self).wf(),
        ensures
            final(self).wf(),
            final(self)@ == old(self)@.without_child(parent, child),
    {
        match self.nodes.remove(&parent) {
            Some(mut n) => {
                let ghost before = n@;
                let mut kept: Vec<u32> = Vec::new();
                let mut i: usize = 0;
                assert(n.children@.take(0) =~= Seq::empty());
                while i < n.children.len()
                    invariant
                        i <= n.children.len(),
                        kept@ == without(n.children@.take(i as int), child),
                    decreases n.children.len() - i,
                {
                    assert(n.children@.take(i + 1).drop_last() =~= n.children@.take(i as int));
                    if n.children[i] != child {
                        kept.push(n.children[i]);
                    }
                    i = i + 1;
                }
                assert(n.children@.take(i as int) =~= n.children@);
                n.children = kept;
                self.nodes.insert(parent, n);
                assert(self@ =~= old(self)@.without_child(parent, child));
            },
            None => {
                assert(self@ =~= old(self)@);
            },
        }
    }

    fn set_parent(&mut self, child: u32, parent: Option<u32>)
        requires
            old(self).wf(),
        ensures
            final(self).wf(),
            final(self)@ == old(self)@.with_parent(child, parent),
    {
        match self.nodes.remove(&child) {
            Some(mut n) => {
                n.parent = parent;
                self.nodes.insert(child, n);
                assert(self@ =~= old(self)@.with_parent(child, parent));
            },
            None => {
                assert(self@ =~= old(self)@);
            },
        }
    }

    /// Makes `child` a child of `parent`, as far as the two are nodes.
    pub fn append(&mut self, parent: u32, child: u32)
        requires
            old(self).wf(),
        ensures
            final(self).wf(),
            final(self)@ == old(self)@.appended(parent, child),
    {
        if !self.has_child(parent, child) {
            self.push_child(parent, child);
        }
        self.set_parent(child, Some(parent));
    }

    /// Makes `child` no longer a child of `parent`, as far as the two are nodes.
    pub fn remove(&mut self, parent: u32, child: u32)
        requires
            old(self).wf(),
        ensures
            final(self).wf(),
            final(self)@ == old(self)@.removed(parent, child),
    {
        self.drop_child(parent, child);
        self.set_parent(child, None);
    }

    fn has_node(&self, id: u32) -> (r: bool)
        ensures
            r == self@.nodes.contains_key(id),
    {
        self.nodes.contains_key(&id)
    }

    /// An id, if it is that of a node.
    pub fn known_id(&self, id: Option<u32>) -> (r: Option<u32>)
        ensures
            r == self@.known(id),
    {
        match id {
            Some(i) => if self.has_node(i) {
                Some(i)
            } else {
                None
            },
            None => None,
        }
    }

    /// The first child of the root that is tagged `html`.
    pub fn html_id(&self) -> (r: Option<u32>)
        ensures
            r == self@.document_element(),
    {
        match self.nodes.get(&self.root_id) {
            Some(root) => {
                let ghost ids = root.children@;
                let mut i: usize = 0;
                assert(ids.skip(0) =~= ids);
                while i < root.children.len()
                    invariant
                        i <= root.children.len(),
                        ids == root.children@,
                        self.nodes@.contains_key(self.root_id),
                        *root == self.nodes@[self.root_id],
                        first_tagged(self@.nodes, ids, "html"@) == first_tagged(
                            self@.nodes,
                            ids.skip(i as int),
                            "html"@,
                        ),
                    decreases root.children.len() - i,
                {
                    let id: u32 = root.children[i];
                    assert(ids.skip(i as int).drop_first() =~= ids.skip(i + 1));
                    match self.nodes.get(&id) {
                        Some(n) => {
                            if text::same(n.tag.as_str(), "html") {
                                return Some(id);
                            }
                        },
                        None => {},
                    }
                    i = i + 1;
                }
                None
            },
            None => None,
        }
    }
}

fn new_node(id: u32, tag: &str, content: &str, parent: Option<u32>, node_type: u8) -> (r: DomNode)
    ensures
        r@ == (NodeView { parent, ..fresh_node(id, tag@, content@, node_type) }),
        r.attributes.wf(),
{
    let r: DomNode = DomNode {
        id,
        tag: tag.to_owned(),
        attributes: StringMap::new(),
        text_content: content.to_owned(),
        children: Vec::new(),
        parent,
        node_type,
    };
    assert(r@.attributes =~= Map::empty());
    r
}

/// The document of a script: the snapshot, where the page has one, and the
/// changes that the script has made.
pub struct Document {
    pub dom: Option<DomSnapshot>,
    pub mutations: Vec<DomMutation>,
}

/// What the document of a script is.
#[verifier::ext_equal]
pub struct DocumentView {
    pub dom: Option<SnapshotView>,
    pub mutations: Seq<MutationView>,
}

impl View for Document {
    type V = DocumentView;

    open spec fn view(&self) -> DocumentView {
        DocumentView {
            dom: match self.dom {
                Some(s) => Some(s@),
                None => None,
            },
            mutations: mutation_views(self.mutations@),
        }
    }
}

impl DocumentView {
    /// The document once a change has been recorded.
    pub open spec fn recorded(self, m: MutationView) -> DocumentView {
        DocumentView { mutations: self.mutations.push(m), ..self }
    }

    /// The document with another snapshot, if it has one.
    pub open spec fn with_dom(self, s: SnapshotView) -> DocumentView {
        DocumentView { dom: Some(s), ..self }
    }

    /// The highest id of a node, or zero where there is none.
    pub open spec fn top(self) -> u32 {
        match self.dom {
            Some(s) => s.top(),
            None => 0,
        }
    }

    /// The id that a new node gets, when the clock stands at `nanos`
    /// nanoseconds of its second.
    pub open spec fn next_id(self, nanos: u32) -> int {
        self.top() + 1 + nanos % 10000
    }

    /// The document once a node without a parent has been added.
    pub open spec fn with_node(self, id: u32, node: NodeView) -> DocumentView {
        match self.dom {
            Some(s) => self.with_dom(s.with_node(id, node)),
            None => self,
        }
    }

    /// `document.write(html)` changes the document: it has a body, and there
    /// is something to write.
    pub open spec fn written_to(self, html: Seq<char>) -> bool {
        html.len() > 0 && (self.dom matches Some(s) && s.body_id is Some)
    }

    /// The document after `document.write(html)`.
    pub open spec fn written(self, html: Seq<char>) -> DocumentView {
        if self.written_to(html) {
            let s = self.dom->0;
            let b = s.body_id->0;
            let id = (s.top() + 1) as u32;
            self.with_dom(s.written(b, id, html)).recorded(
                MutationView::AppendChild { parent_id: b, child_id: id },
            )
        } else {
            self
        }
    }

    /// The document after `document.createElement(tag)`.
    pub open spec fn element_created(self, tag: Seq<char>, nanos: u32) -> DocumentView {
        if tag.len() == 0 {
            self
        } else {
            let id = self.next_id(nanos) as u32;
            self.with_node(id, fresh_node(id, tag, Seq::empty(), ELEMENT_NODE)).recorded(
                MutationView::CreateElement { node_id: id, tag },
            )
        }
    }

    /// The document after `document.createTextNode(content)`.
    pub open spec fn text_created(self, content: Seq<char>, nanos: u32) -> DocumentView {
        let id = self.next_id(nanos) as u32;
        self.with_node(id, fresh_node(id, Seq::empty(), content, TEXT_NODE)).recorded(
            MutationView::CreateTextNode { node_id: id, text: content },
        )
    }

    /// The document after `parent.appendChild(child)`.
    pub open spec fn child_appended(
        self,
        parent: u32,
        child: Option<u32>,
        recorded: bool,
    ) -> DocumentView {
        match child {
            Some(c) => {
                let d = match self.dom {
                    Some(s) => self.with_dom(s.appended(parent, c)),
                    None => self,
                };
                if recorded {
                    d.recorded(MutationView::AppendChild { parent_id: parent, child_id: c })
                } else {
                    d
                }
            },
            None => self,
        }
    }

    /// The document after `parent.removeChild(child)`.
    pub open spec fn child_removed(self, parent: u32, child: Option<u32>) -> DocumentView {
        match child {
            Some(c) => {
                let d = match self.dom {
                    Some(s) => self.with_dom(s.removed(parent, c)),
                    None => self,
                };
                d.recorded(MutationView::RemoveChild { parent_id: parent, child_id: c })
            },
            None => self,
        }
    }
}

/// The element that `document.createElement` gives.
pub struct CreatedElement {
    pub node_id: u32,
    /// The tag in upper case, which is `tagName` and `nodeName`.
    pub tag_name: String,
}

/// The node that `document.createTextNode` gives.
pub struct CreatedText {
    pub node_id: u32,
    pub text_content: String,
}

impl Document {
    /// The attributes of each node hold no name twice.
    pub open spec fn wf(&self) -> bool {
        self.dom matches Some(s) ==> s.wf()
    }

    /// A document without a snapshot.
    pub fn new() -> (r: Document)
        ensures
            r.wf(),
            r@ == (DocumentView { dom: None, mutations: Seq::empty() }),
    {
        let r: Document = Document { dom: None, mutations: Vec::new() };
        assert(r@.mutations =~= Seq::empty());
        r
    }

    /// Sets the snapshot. The changes that were made to another are dropped.
    pub fn set_snapshot(&mut self, snapshot: Option<DomSnapshot>)
        requires
            snapshot matches Some(s) ==> s.wf(),
        ensures
            final(self).wf(),
            final(self)@ == (DocumentView {
                dom: match snapshot {
                    Some(s) => Some(s@),
                    None => None,
                },
                mutations: Seq::empty(),
            }),
    {
        self.mutations = Vec::new();
        self.dom = snapshot;
        assert(self@.mutations =~= Seq::empty());
    }

    /// Hands out the changes made so far; none are left.
    pub fn drain_mutations(&mut self) -> (r: Vec<DomMutation>)
        requires
            old(self).wf(),
        ensures
            final(self).wf(),
            mutation_views(r@) == old(self)@.mutations,
            final(self)@ == (DocumentView { mutations: Seq::empty(), ..old(self)@ }),
    {
        let mut out: Vec<DomMutation> = Vec::new();
        std::mem::swap(&mut out, &mut self.mutations);
        assert(self@.mutations =~= Seq::empty());
        out
    }

    /// Drops the changes made so far.
    pub fn clear_mutations(&mut self)
        requires
            old(self).wf(),
        ensures
            final(self).wf(),
            final(self)@ == (DocumentView { mutations: Seq::empty(), ..old(self)@ }),
    {
        self.mutations = Vec::new();
        assert(self@.mutations =~= Seq::empty());
    }

    fn record(&mut self, m: DomMutation)
        requires
            old(self).wf(),
        ensures
            final(self).wf(),
            final(self)@ == old(self)@.recorded(m@),
    {
        self.mutations.push(m);
        assert(self@.mutations =~= old(self)@.mutations.push(m@));
    }

    /// `document.title`
    pub fn title(&self) -> (r: String)
        ensures
            r@ == match self@.dom {
                Some(s) => s.title,
                None => Seq::empty(),
            },
    {
        match &self.dom {
            Some(s) => s.title.clone(),
            None => String::new(),
        }
    }

    /// `document.URL`
    pub fn url(&self) -> (r: String)
        ensures
            r@ == match self@.dom {
                Some(s) => s.url,
                None => Seq::empty(),
            },
    {
        match &self.dom {
            Some(s) => s.url.clone(),
            None => String::new(),
        }
    }

    /// `document.cookie`: there is no cookie jar here.
    pub fn cookie(&self) -> (r: String)
        ensures
            r@ == Seq::<char>::empty(),
    {
        String::new()
    }

    /// The node of `document.body`.
    pub fn body(&self) -> (r: Option<u32>)
        ensures
            r == match self@.dom {
                Some(s) => s.known(s.body_id),
                None => None,
            },
    {
        match &self.dom {
            Some(s) => s.known_id(s.body_id),
            None => None,
        }
    }

    /// The node of `document.head`.
    pub fn head(&self) -> (r: Option<u32>)
        ensures
            r == match self@.dom {
                Some(s) => s.known(s.head_id),
                None => None,
            },
    {
        match &self.dom {
            Some(s) => s.known_id(s.head_id),
            None => None,
        }
    }

    /// The node of `document.documentElement`.
    pub fn document_element(&self) -> (r: Option<u32>)
        ensures
            r == match self@.dom {
                Some(s) => s.document_element(),
                None => None,
            },
    {
        match &self.dom {
            Some(s) => s.html_id(),
            None => None,
        }
    }

    /// `document.write(html)`: the argument becomes a text node at the end of
    /// the body. Nothing happens where it is empty or there is no body.
    pub fn write(&mut self, args: &[Arg])
        requires
            old(self).wf(),
            old(self)@.written_to(arg::shown_at(args@, 0)) ==> old(self)@.top() < u32::MAX,
        ensures
            final(self).wf(),
            final(self)@ == old(self)@.written(arg::shown_at(args@, 0)),
    {
        let html: String = arg::shown(args, 0);
        if text::is_empty(html.as_str()) {
            return ;
        }
        let ghost before = self@;
        let mut made: Option<(u32, u32)> = None;
        match &mut self.dom {
            Some(s) => {
                match s.body_id {
                    Some(b) => {
                        let id: u32 = s.top_id() + 1;
                        let node: DomNode = new_node(id, "", html.as_str(), Some(b), TEXT_NODE);
                        proof {
                            reveal_strlit("");
                            assert(""@ =~= Seq::empty());
                        }
                        s.put_node(id, node);
                        s.push_child(b, id);
                        made = Some((b, id));
                    },
                    None => {},
                }
            },
            None => {},
        }
        match made {
            Some((b, id)) => {
                self.record(DomMutation::AppendChild { parent_id: b, child_id: id });
            },
            None => {},
        }
        assert(self@ =~= before.written(html@));
    }

    fn top_id(&self) -> (r: u32)
        ensures
            r == self@.top(),
    {
        match &self.dom {
            Some(s) => s.top_id(),
            None => 0,
        }
    }

    fn add_node(&mut self, id: u32, node: DomNode)
        requires
            old(self).wf(),
            node.attributes.wf(),
        ensures
            final(self).wf(),
            final(self)@ == old(self)@.with_node(id, node@),
    {
        match &mut self.dom {
            Some(s) => {
                s.put_node(id, node);
            },
            None => {},
        }
        assert(self@ =~= old(self)@.with_node(id, node@));
    }

    /// `document.createElement(tag)`; nothing for an empty tag. `nanos` is
    /// where the clock stands in its second.
    pub fn create_element(&mut self, args: &[Arg], nanos: u32) -> (r: Option<CreatedElement>)
        requires
            old(self).wf(),
            arg::shown_at(args@, 0).len() > 0 ==> old(self)@.next_id(nanos) <= u32::MAX,
        ensures
            final(self).wf(),
            final(self)@ == old(self)@.element_created(arg::shown_at(args@, 0), nanos),
            r is None <==> arg::shown_at(args@, 0).len() == 0,
            r matches Some(e) ==> e.node_id == old(self)@.next_id(nanos) && e.tag_name@
                == case::uppercased(arg::shown_at(args@, 0)),
    {
        let tag: String = arg::shown(args, 0);
        if text::is_empty(tag.as_str()) {
            return None;
        }
        let id: u32 = self.top_id() + 1 + nanos % 10000;
        proof {
            reveal_strlit("");
            assert(""@ =~= Seq::empty());
        }
        let node: DomNode = new_node(id, tag.as_str(), "", None, ELEMENT_NODE);
        self.add_node(id, node);
        self.record(DomMutation::CreateElement { node_id: id, tag: tag.clone() });
        Some(CreatedElement { node_id: id, tag_name: case::to_upper(tag.as_str()) })
    }

    /// `document.createTextNode(text)`. `nanos` is where the clock stands in its second.
    pub fn create_text_node(&mut self, args: &[Arg], nanos: u32) -> (r: CreatedText)
        requires
            old(self).wf(),
            old(self)@.next_id(nanos) <= u32::MAX,
        ensures
            final(self).wf(),
            final(self)@ == old(self)@.text_created(arg::shown_at(args@, 0), nanos),
            r.node_id == old(self)@.next_id(nanos),
            r.text_content@ == arg::shown_at(args@, 0),
    {
        let content: String = arg::shown(args, 0);
        let id: u32 = self.top_id() + 1 + nanos % 10000;
        proof {
            reveal_strlit("");
            assert(""@ =~= Seq::empty());
        }
        let node: DomNode = new_node(id, "", content.as_str(), None, TEXT_NODE);
        self.add_node(id, node);
        self.record(DomMutation::CreateTextNode { node_id: id, text: content.clone() });
        CreatedText { node_id: id, text_content: content }
    }

    /// `parent.appendChild(child)`. An element that `createElement` gave does
    /// not record what is appended to it; one that a query gave does.
    pub fn append_child(&mut self, parent: u32, args: &[Arg], recorded: bool)
        requires
            old(self).wf(),
        ensures
            final(self).wf(),
            final(self)@ == old(self)@.child_appended(parent, arg::node_at(args@, 0), recorded),
    {
        match arg::node(args, 0) {
            Some(c) => {
                match &mut self.dom {
                    Some(s) => {
                        s.append(parent, c);
                    },
                    None => {},
                }
                if recorded {
                    self.record(DomMutation::AppendChild { parent_id: parent, child_id: c });
                }
            },
            None => {},
        }
        assert(self@ =~= old(self)@.child_appended(parent, arg::node_at(args@, 0), recorded));
    }

    /// `parent.removeChild(child)`
    pub fn remove_child(&mut self, parent: u32, args: &[Arg])
        requires
            old(self).wf(),
        ensures
            final(self).wf(),
            final(self)@ == old(self)@.child_removed(parent, arg::node_at(args@, 0)),
    {
        match arg::node(args, 0) {
            Some(c) => {
                match &mut self.dom {
                    Some(s) => {
                        s.remove(parent, c);
                    },
                    None => {},
                }
                self.record(DomMutation::RemoveChild { parent_id: parent, child_id: c });
            },
            None => {},
        }
        assert(self@ =~= old(self)@.child_removed(parent, arg::node_at(args@, 0)));
    }

    /// `element.click()`
    pub fn click(&mut self, node_id: u32)
        requires
            old(self).wf(),
        ensures
            final(self).wf(),
            final(self)@ == old(self)@.recorded(MutationView::ClickElement { node_id }),
    {
        self.record(DomMutation::ClickElement { node_id });
    }

    /// `element.setAttribute(name, value)`: the page sets the attribute later;
    /// the snapshot keeps what it has.
    pub fn set_attribute(&mut self, node_id: u32, args: &[Arg])
        requires
            old(self).wf(),
        ensures
            final(self).wf(),
            final(self)@ == old(self)@.recorded(
                MutationView::SetAttribute {
                    node_id,
                    name: arg::text_at(args@, 0),
                    value: arg::text_at(args@, 1),
                },
            ),
    {
        self.record(
            DomMutation::SetAttribute {
                node_id,
                name: arg::text(args, 0),
                value: arg::text(args, 1),
            },
        );
    }

    /// `element.value = value`: the page takes the input later.
    pub fn set_value(&mut self, node_id: u32, args: &[Arg])
        requires
            old(self).wf(),
        ensures
            final(self).wf(),
            final(self)@ == old(self)@.recorded(
                MutationView::InputElement { node_id, value: arg::text_at(args@, 0) },
            ),
    {
        self.record(DomMutation::InputElement { node_id, value: arg::text(args, 0) });
    }
}

/// A child or parent of an element, as far as the element shows it.
pub struct ElementStub {
    /// The tag in upper case.
    pub tag_name: String,
    pub id: String,
}

/// What a child or parent of an element is, as far as the element shows it.
pub struct StubView {
    pub tag_name: Seq<char>,
    pub id: Seq<char>,
}

impl View for ElementStub {
    type V = StubView;

    open spec fn view(&self) -> StubView {
        StubView { tag_name: self.tag_name@, id: self.id@ }
    }
}

/// What several stubs are.
pub open spec fn stub_views(v: Seq<ElementStub>) -> Seq<StubView> {
    v.map_values(|e: ElementStub| e@)
}

/// An element as scripts get it: its properties, as the snapshot shows them
/// when the element is asked for.
pub struct ElementObject {
    pub node_id: u32,
    /// The tag in upper case.
    pub tag_name: String,
    pub text_content: String,
    pub inner_html: String,
    pub id: String,
    pub class_name: String,
    pub href: String,
    pub src: String,
    pub value: String,
    pub children: Vec<ElementStub>,
    pub parent_node: Option<ElementStub>,
    pub attributes: StringMap<String>,
}

/// What the properties of an element are.
#[verifier::ext_equal]
pub struct ElementView {
    pub node_id: u32,
    pub tag_name: Seq<char>,
    pub text_content: Seq<char>,
    pub inner_html: Seq<char>,
    pub id: Seq<char>,
    pub class_name: Seq<char>,
    pub href: Seq<char>,
    pub src: Seq<char>,
    pub value: Seq<char>,
    pub children: Seq<StubView>,
    pub parent_node: Option<StubView>,
    pub attributes: Map<Seq<char>, Seq<char>>,
}

impl View for ElementObject {
    type V = ElementView;

    open spec fn view(&self) -> ElementView {
        ElementView {
            node_id: self.node_id,
            tag_name: self.tag_name@,
            text_content: self.text_content@,
            inner_html: self.inner_html@,
            id: self.id@,
            class_name: self.class_name@,
            href: self.href@,
            src: self.src@,
            value: self.value@,
            children: stub_views(self.children@),
            parent_node: match self.parent_node {
                Some(p) => Some(p@),
                None => None,
            },
            attributes: self.attributes@.map_values(|t: String| t@),
        }
    }
}

/// The attribute of a node; empty if it has none of this name.
pub open spec fn attribute(n: NodeView, name: Seq<char>) -> Seq<char> {
    if n.attributes.contains_key(name) {
        n.attributes[name]
    } else {
        Seq::empty()
    }
}

/// What a node is, as far as its children and parent show it.
pub open spec fn stub_of(n: NodeView) -> StubView {
    StubView { tag_name: case::uppercased(n.tag), id: attribute(n, "id"@) }
}

/// The stubs of those ids that are ids of elements, in order.
pub open spec fn element_stubs(nodes: Map<u32, NodeView>, ids: Seq<u32>) -> Seq<StubView>
    decreases ids.len(),
{
    if ids.len() == 0 {
        Seq::empty()
    } else {
        let front = element_stubs(nodes, ids.drop_last());
        let id = ids.last();
        if nodes.contains_key(id) && nodes[id].node_type == ELEMENT_NODE {
            front.push(stub_of(nodes[id]))
        } else {
            front
        }
    }
}

/// The stub of the parent, if it is an element.
pub open spec fn parent_stub(nodes: Map<u32, NodeView>, parent: Option<u32>) -> Option<StubView> {
    match parent {
        Some(p) => if nodes.contains_key(p) && nodes[p].node_type == ELEMENT_NODE {
            Some(stub_of(nodes[p]))
        } else {
            None
        },
        None => None,
    }
}

/// The properties of the element that a node of a snapshot is.
pub open spec fn element_of(s: SnapshotView, n: NodeView) -> ElementView {
    ElementView {
        node_id: n.id,
        tag_name: case::uppercased(n.tag),
        text_content: n.text_content,
        inner_html: n.text_content,
        id: attribute(n, "id"@),
        class_name: attribute(n, "class"@),
        href: attribute(n, "href"@),
        src: attribute(n, "src"@),
        value: attribute(n, "value"@),
        children: element_stubs(s.nodes, n.children),
        parent_node: parent_stub(s.nodes, n.parent),
        attributes: n.attributes,
    }
}

impl DomNode {
    fn attribute_or_empty(&self, name: &str) -> (r: String)
        requires
            self.attributes.wf(),
        ensures
            r@ == attribute(self@, name@),
    {
        match self.attributes.get(name) {
            Some(v) => v.clone(),
            None => String::new(),
        }
    }

    fn stub(&self) -> (r: ElementStub)
        requires
            self.attributes.wf(),
        ensures
            r@ == stub_of(self@),
    {
        ElementStub {
            tag_name: case::to_upper(self.tag.as_str()),
            id: self.attribute_or_empty("id"),
        }
    }

    fn copy_attributes(&self) -> (r: StringMap<String>)
        requires
            self.attributes.wf(),
        ensures
            r.wf(),
            r@.map_values(|t: String| t@) == self@.attributes,
    {
        let mut r: StringMap<String> = StringMap::new();
        let ghost keys = self.attributes.keys();
        let ghost want = self@.attributes;
        let mut i: usize = 0;
        while i < self.attributes.len()
            invariant
                i <= keys.len(),
                keys == self.attributes.keys(),
                want == self@.attributes,
                self.attributes.wf(),
                r.wf(),
                forall|k: Seq<char>|
                    r@.contains_key(k) <==> exists|j: int| 0 <= j < i && #[trigger] keys[j] == k,
                forall|k: Seq<char>| #[trigger] r@.contains_key(k) ==> r@[k]@ == want[k],
            decreases keys.len() - i,
        {
            proof {
                self.attributes.lemma_keys();
                assert(keys.contains(keys[i as int]));
            }
            let key: String = match self.attributes.key_at(i) {
                Some(k) => k.clone(),
                None => String::new(),
            };
            let value: String = self.attributes.value_at(i).clone();
            let ghost before = r@;
            r.insert(key, value);
            proof {
                assert forall|k: Seq<char>|
                    r@.contains_key(k) <==> exists|j: int|
                        0 <= j < i + 1 && #[trigger] keys[j] == k by {
                    if r@.contains_key(k) {
                        if k == key@ {
                            assert(keys[i as int] == k);
                        } else {
                            assert(before.contains_key(k));
                        }
                    }
                    if exists|j: int| 0 <= j < i + 1 && #[trigger] keys[j] == k {
                        let j = choose|j: int| 0 <= j < i + 1 && #[trigger] keys[j] == k;
                        if j < i {
                            assert(before.contains_key(k));
                        }
                    }
                }
            }
            i = i + 1;
        }
        proof {
            self.attributes.lemma_keys();
            let got = r@.map_values(|t: String| t@);
            assert forall|k: Seq<char>| got.contains_key(k) <==> want.contains_key(k) by {
                if want.contains_key(k) {
                    assert(keys.contains(k));
                    let j = keys.index_of(k);
                    assert(keys[j] == k);
                }
                if r@.contains_key(k) {
                    let j = choose|j: int| 0 <= j < i && #[trigger] keys[j] == k;
                    assert(keys.contains(k));
                    assert(self.attributes@.contains_key(k));
                }
            }
            assert(got =~= want);
        }
        r
    }
}

/// The element that a node of a snapshot is, as scripts get it.
pub fn create_element_object(snapshot: &DomSnapshot, node: &DomNode) -> (r: ElementObject)
    requires
        snapshot.wf(),
        node.attributes.wf(),
    ensures
        r.attributes.wf(),
        r@ == element_of(snapshot@, node@),
{
    let mut children: Vec<ElementStub> = Vec::new();
    let ghost ids = node.children@;
    let mut i: usize = 0;
    proof {
        assert(ids.take(0) =~= Seq::empty());
        assert(stub_views(children@) =~= Seq::empty());
    }
    while i < node.children.len()
        invariant
            i <= node.children.len(),
            ids == node.children@,
            snapshot.wf(),
            stub_views(children@) == element_stubs(snapshot@.nodes, ids.take(i as int)),
        decreases node.children.len() - i,
    {
        let id: u32 = node.children[i];
        assert(ids.take(i + 1).drop_last() =~= ids.take(i as int));
        match snapshot.nodes.get(&id) {
            Some(n) => {
                assert(snapshot.nodes@.contains_key(id));
                if n.node_type == ELEMENT_NODE {
                    let stub: ElementStub = n.stub();
                    assert(stub_views(children@.push(stub)) =~= stub_views(children@).push(stub@));
                    children.push(stub);
                }
            },
            None => {},
        }
        i = i + 1;
    }
    assert(ids.take(i as int) =~= ids);
    let parent_node: Option<ElementStub> = match node.parent {
        Some(p) => match snapshot.nodes.get(&p) {
            Some(n) => {
                assert(snapshot.nodes@.contains_key(p));
                if n.node_type == ELEMENT_NODE {
                    Some(n.stub())
                } else {
                    None
                }
            },
            None => None,
        },
        None => None,
    };
    let r: ElementObject = ElementObject {
        node_id: node.id,
        tag_name: case::to_upper(node.tag.as_str()),
        text_content: node.text_content.clone(),
        inner_html: node.text_content.clone(),
        id: node.attribute_or_empty("id"),
        class_name: node.attribute_or_empty("class"),
        href: node.attribute_or_empty("href"),
        src: node.attribute_or_empty("src"),
        value: node.attribute_or_empty("value"),
        children,
        parent_node,
        attributes: node.copy_attributes(),
    };
    assert(r@ =~= element_of(snapshot@, node@));
    r
}

impl ElementObject {
    /// `element.getAttribute(name)`; nothing if there is no such attribute.
    pub fn get_attribute(&self, args: &[Arg]) -> (r: Option<String>)
        requires
            self.attributes.wf(),
        ensures
            codec::text_view(r) == if self@.attributes.contains_key(arg::text_at(args@, 0)) {
                Some(self@.attributes[arg::text_at(args@, 0)])
            } else {
                None
            },
    {
        let name: String = arg::text(args, 0);
        match self.attributes.get(name.as_str()) {
            Some(v) => Some(v.clone()),
            None => None,
        }
    }

    /// `element.hasAttribute(name)`
    pub fn has_attribute(&self, args: &[Arg]) -> (r: bool)
        requires
            self.attributes.wf(),
        ensures
            r == self@.attributes.contains_key(arg::text_at(args@, 0)),
    {
        let name: String = arg::text(args, 0);
        self.attributes.contains_key(name.as_str())
    }
}

/// What the elements are that scripts get for ids.
pub open spec fn elements_of(s: SnapshotView, ids: Seq<u32>) -> Seq<ElementView>
    decreases ids.len(),
{
    if ids.len() == 0 {
        Seq::empty()
    } else {
        let front = elements_of(s, ids.drop_last());
        if s.nodes.contains_key(ids.last()) {
            front.push(element_of(s, s.nodes[ids.last()]))
        } else {
            front
        }
    }
}

/// What several elements are.
pub open spec fn element_views(v: Seq<ElementObject>) -> Seq<ElementView> {
    v.map_values(|e: ElementObject| e@)
}

impl Document {
    /// The element that a query gives for the id that it found; nothing if it
    /// found none, or the id is that of no node.
    pub fn element(&self, found: Option<u32>) -> (r: Option<ElementObject>)
        requires
            self.wf(),
        ensures
            match r {
                Some(e) => e.attributes.wf() && (self@.dom matches Some(s) && s.known(found) is Some
                    && e@ == element_of(s, s.nodes[found->0])),
                None => (self@.dom matches Some(s) ==> s.known(found) is None),
            },
    {
        match &self.dom {
            Some(s) => match found {
                Some(id) => match s.nodes.get(&id) {
                    Some(n) => {
                        assert(s.nodes@.contains_key(id));
                        Some(create_element_object(s, n))
                    },
                    None => None,
                },
                None => None,
            },
            None => None,
        }
    }

    /// The elements that a query gives for the ids that it found: those that
    /// are ids of nodes, in order.
    pub fn elements(&self, found: &[u32]) -> (r: Vec<ElementObject>)
        requires
            self.wf(),
        ensures
            element_views(r@) == match self@.dom {
                Some(s) => elements_of(s, found@),
                None => Seq::empty(),
            },
            forall|i: int| 0 <= i < r@.len() ==> (#[trigger] r@[i]).attributes.wf(),
    {
        let mut r: Vec<ElementObject> = Vec::new();
        assert(element_views(r@) =~= Seq::empty());
        match &self.dom {
            Some(s) => {
                let mut i: usize = 0;
                assert(found@.take(0) =~= Seq::empty());
                while i < found.len()
                    invariant
                        i <= found.len(),
                        s.wf(),
                        element_views(r@) == elements_of(s@, found@.take(i as int)),
                        forall|j: int| 0 <= j < r@.len() ==> (#[trigger] r@[j]).attributes.wf(),
                    decreases found.len() - i,
                {
                    assert(found@.take(i + 1).drop_last() =~= found@.take(i as int));
                    match s.nodes.get(&found[i]) {
                        Some(n) => {
                            assert(s.nodes@.contains_key(found@[i as int]));
                            let e: ElementObject = create_element_object(s, n);
                            assert(element_views(r@.push(e)) =~= element_views(r@).push(e@));
                            r.push(e);
                        },
                        None => {},
                    }
                    i = i + 1;
                }
                assert(found@.take(i as int) =~= found@);
            },
            None => {},
        }
        r
    }
}

proof fn lemma_without(ids: Seq<u32>, x: u32)
    ensures
        !without(ids, x).contains(x),
        !ids.contains(x) ==> without(ids, x) == ids,
        forall|y: u32| y != x ==> (#[trigger] without(ids, x).contains(y) <==> ids.contains(y)),
    decreases ids.len(),
{
    if ids.len() > 0 {
        let front = ids.drop_last();
        let kept = without(front, x);
        let all = without(ids, x);
        lemma_without(front, x);
        assert(ids =~= front.push(ids.last()));
        assert forall|y: u32| #[trigger] ids.contains(y) <==> front.contains(y) || y
            == ids.last() by {
            if front.contains(y) {
                let j = front.index_of(y);
                assert(ids[j] == y);
            }
            if y == ids.last() {
                assert(ids[ids.len() - 1] == y);
            }
        }
        if ids.last() == x {
            assert(ids.contains(x));
        } else {
            assert forall|y: u32| #[trigger] all.contains(y) <==> kept.contains(y) || y
                == ids.last() by {
                if kept.contains(y) {
                    let j = kept.index_of(y);
                    assert(all[j] == y);
                }
                if y == ids.last() {
                    assert(all[all.len() - 1] == y);
                }
            }
            if !ids.contains(x) {
                assert(!front.contains(x));
                assert(all =~= ids);
            }
        }
    }
}

proof fn lemma_top(s: SnapshotView)
    requires
        s.nodes.dom().finite(),
    ensures
        forall|k: u32| #[trigger] s.nodes.contains_key(k) ==> k <= s.top(),
{
    let ids = s.nodes.dom();
    lemma_some_highest(ids);
    assert(is_highest(ids, highest(ids)));
    assert forall|k: u32| #[trigger] s.nodes.contains_key(k) implies k <= s.top() by {
        assert(ids.contains(k));
    }
}

proof fn lemma_some_highest(ids: Set<u32>)
    requires
        ids.finite(),
    ensures
        exists|m: u32| is_highest(ids, m),
    decreases ids.len(),
{
    if ids.is_empty() {
        assert(is_highest(ids, 0));
    } else {
        let k = ids.choose();
        let rest = ids.remove(k);
        lemma_some_highest(rest);
        let m = choose|m: u32| is_highest(rest, m);
        if !rest.is_empty() && m > k {
            assert(is_highest(ids, m));
        } else {
            assert forall|j: u32| #[trigger] ids.contains(j) implies j <= k by {
                if j != k {
                    assert(rest.contains(j));
                }
            }
            assert(is_highest(ids, k));
        }
    }
}

/// A node that a script creates gets an id that no node of the snapshot has,
/// and leaves the other nodes as they are.
pub proof fn lemma_created_is_new(d: DocumentView, tag: Seq<char>, nanos: u32)
    requires
        d.dom matches Some(s) && s.nodes.dom().finite(),
        tag.len() > 0,
        d.next_id(nanos) <= u32::MAX,
    ensures
        ({
            let s = d.dom->0;
            let id = d.next_id(nanos) as u32;
            let t = d.element_created(tag, nanos).dom->0;
            &&& !s.nodes.contains_key(id)
            &&& t.nodes.contains_key(id)
            &&& t.nodes[id].tag == tag
            &&& t.nodes[id].node_type == ELEMENT_NODE
            &&& forall|k: u32| #[trigger] s.nodes.contains_key(k) ==> t.nodes.contains_key(k)
                && t.nodes[k] == s.nodes[k]
        }),
{
    let s = d.dom->0;
    lemma_top(s);
}

/// What was appended is among the parent's children, once, and has that
/// parent; appending it again changes nothing.
pub proof fn lemma_append(s: SnapshotView, parent: u32, child: u32)
    requires
        s.nodes.contains_key(parent),
        s.nodes.contains_key(child),
        parent != child,
    ensures
        s.appended(parent, child).nodes[parent].children.contains(child),
        s.nodes[parent].children.no_duplicates() ==> s.appended(
            parent,
            child,
        ).nodes[parent].children.no_duplicates(),
        s.appended(parent, child).nodes[child].parent == Some(parent),
        s.appended(parent, child).appended(parent, child) == s.appended(parent, child),
{
    let t = s.appended(parent, child);
    let before = s.nodes[parent].children;
    let now = t.nodes[parent].children;
    if !before.contains(child) {
        assert(now == before.push(child));
        assert(now[before.len() as int] == child);
        if before.no_duplicates() {
            assert forall|i: int, j: int| 0 <= i < j < now.len() implies now[i] != now[j] by {
                if j == before.len() {
                    assert(before.contains(before[i]));
                }
            }
        }
    }
    assert(now.contains(child));
    assert(t.appended(parent, child) =~= t);
}

/// What was removed is not among the parent's children and has no parent.
/// Removing what was just appended gives back the snapshot, where the child
/// had no parent and the parent had no such child.
pub proof fn lemma_remove(s: SnapshotView, parent: u32, child: u32)
    requires
        s.nodes.contains_key(parent),
        s.nodes.contains_key(child),
        parent != child,
    ensures
        !s.removed(parent, child).nodes[parent].children.contains(child),
        s.removed(parent, child).nodes[child].parent is None,
        forall|c: u32|
            c != child ==> (#[trigger] s.removed(parent, child).nodes[parent].children.contains(c)
                <==> s.nodes[parent].children.contains(c)),
        s.nodes[child].parent is None && !s.nodes[parent].children.contains(child) ==> s.appended(
            parent,
            child,
        ).removed(parent, child) == s,
{
    let before = s.nodes[parent].children;
    lemma_without(before, child);
    if s.nodes[child].parent is None && !before.contains(child) {
        let t = s.appended(parent, child);
        let u = t.removed(parent, child);
        lemma_without(before.push(child), child);
        assert(before.push(child).drop_last() =~= before);
        assert(without(before.push(child), child) == before);
        assert(u.nodes[parent] =~= s.nodes[parent]);
        assert(u.nodes[child] =~= s.nodes[child]);
        assert(u.nodes =~= s.nodes);
        assert(u =~= s);
    }
}

/// After `document.write` the last child of the body is a new text node that
/// holds what was written, and the page is told of it.
pub proof fn lemma_written(d: DocumentView, body: u32, html: Seq<char>)
    requires
        d.dom matches Some(s) && s.nodes.dom().finite() && s.body_id == Some(body)
            && s.nodes.contains_key(body) && s.top() < u32::MAX,
        html.len() > 0,
    ensures
        ({
            let s = d.dom->0;
            let t = d.written(html);
            let id = (s.top() + 1) as u32;
            let nodes = (t.dom->0).nodes;
            &&& !s.nodes.contains_key(id)
            &&& nodes[body].children == s.nodes[body].children.push(id)
            &&& nodes[id].text_content == html
            &&& nodes[id].node_type == TEXT_NODE
            &&& nodes[id].parent == Some(body)
            &&& nodes[id].id == id
            &&& nodes[id].tag.len() == 0 && nodes[id].children.len() == 0
            &&& nodes[id].attributes.dom().is_empty()
            &&& t.mutations.last() == (MutationView::AppendChild { parent_id: body, child_id: id })
        }),
{
    lemma_top(d.dom->0);
}

/// No operation forgets a change that was recorded before it: what a script
/// does only adds to the list.
pub proof fn lemma_changes_are_kept(
    d: DocumentView,
    content: Seq<char>,
    nanos: u32,
    parent: u32,
    child: Option<u32>,
    recorded: bool,
)
    ensures
        d.mutations.is_prefix_of(d.written(content).mutations),
        d.mutations.is_prefix_of(d.element_created(content, nanos).mutations),
        d.mutations.is_prefix_of(d.text_created(content, nanos).mutations),
        d.mutations.is_prefix_of(d.child_appended(parent, child, recorded).mutations),
        d.mutations.is_prefix_of(d.child_removed(parent, child).mutations),
{
}

/// The properties `id`, `className`, `href`, `src` and `value` of an element
/// are what `getAttribute` gives of it under the names `id`, `class`, `href`,
/// `src` and `value`, and empty where it has no such attribute.
pub proof fn lemma_element_attributes(s: SnapshotView, n: NodeView)
    ensures
        ({
            let e = element_of(s, n);
            &&& e.attributes == n.attributes
            &&& e.attributes.contains_key("id"@) ==> e.id == e.attributes["id"@]
            &&& e.attributes.contains_key("class"@) ==> e.class_name == e.attributes["class"@]
            &&& e.attributes.contains_key("href"@) ==> e.href == e.attributes["href"@]
            &&& e.attributes.contains_key("src"@) ==> e.src == e.attributes["src"@]
            &&& e.attributes.contains_key("value"@) ==> e.value == e.attributes["value"@]
            &&& !e.attributes.contains_key("id"@) ==> e.id.len() == 0
            &&& !e.attributes.contains_key("class"@) ==> e.class_name.len() == 0
            &&& !e.attributes.contains_key("href"@) ==> e.href.len() == 0
            &&& !e.attributes.contains_key("src"@) ==> e.src.len() == 0
            &&& !e.attributes.contains_key("value"@) ==> e.value.len() == 0
        }),
{
}

/// An element shows the node that it was asked for: its id, its tag in upper
/// case, and its text.
pub proof fn lemma_element_shows_node(s: SnapshotView, n: NodeView)
    ensures
        element_of(s, n).node_id == n.id,
        element_of(s, n).tag_name == case::uppercased(n.tag),
        element_of(s, n).text_content == n.text_content,
        element_of(s, n).inner_html == n.text_content,
{
}

/// The children of an element are those of the node's children that are
/// elements, in order, each with its tag in upper case and its attribute `id`.
/// Its parent is the node's parent, if that is an element.
pub proof fn lemma_element_family(s: SnapshotView, n: NodeView)
    ensures
        ({
            let e = element_of(s, n);
            let kept = n.children.filter(
                |c: u32| s.nodes.contains_key(c) && s.nodes[c].node_type == 1,
            );
            &&& e.children.len() == kept.len()
            &&& forall|i: int|
                0 <= i < kept.len() ==> {
                    let c = s.nodes[kept[i]];
                    &&& (#[trigger] e.children[i]).tag_name == case::uppercased(c.tag)
                    &&& c.attributes.contains_key("id"@) ==> e.children[i].id == c.attributes["id"@]
                    &&& !c.attributes.contains_key("id"@) ==> e.children[i].id.len() == 0
                }
        }),
        ({
            let p = element_of(s, n).parent_node;
            &&& p is Some <==> (n.parent matches Some(id) && s.nodes.contains_key(id)
                && s.nodes[id].node_type == 1)
            &&& p is Some ==> {
                let c = s.nodes[n.parent->0];
                &&& p->0.tag_name == case::uppercased(c.tag)
                &&& c.attributes.contains_key("id"@) ==> p->0.id == c.attributes["id"@]
                &&& !c.attributes.contains_key("id"@) ==> p->0.id.len() == 0
            }
        }),
{
    lemma_stubs(s.nodes, n.children);
}

proof fn lemma_stubs(nodes: Map<u32, NodeView>, ids: Seq<u32>)
    ensures
        ({
            let kept = ids.filter(|c: u32| nodes.contains_key(c) && nodes[c].node_type == 1);
            let got = element_stubs(nodes, ids);
            &&& got.len() == kept.len()
            &&& forall|i: int| 0 <= i < kept.len() ==> #[trigger] got[i] == stub_of(nodes[kept[i]])
        }),
    decreases ids.len(),
{
    reveal(Seq::filter);
    if ids.len() > 0 {
        lemma_stubs(nodes, ids.drop_last());
    }
}

/// The elements that a query gives are those of the ids it found that are ids
/// of nodes, in order.
pub proof fn lemma_elements_found(s: SnapshotView, ids: Seq<u32>)
    ensures
        ({
            let kept = ids.filter(|c: u32| s.nodes.contains_key(c));
            let got = elements_of(s, ids);
            &&& got.len() == kept.len()
            &&& forall|i: int|
                0 <= i < kept.len() ==> (#[trigger] got[i]).node_id == s.nodes[kept[i]].id && got[i]
                    == element_of(s, s.nodes[kept[i]])
        }),
    decreases ids.len(),
{
    reveal(Seq::filter);
    if ids.len() > 0 {
        lemma_elements_found(s, ids.drop_last());
    }
}

/// The document element is the first of the root's children that is tagged
/// `html`; there is one if any is.
pub proof fn lemma_document_element(s: SnapshotView)
    requires
        s.nodes.contains_key(s.root_id),
    ensures
        ({
            let ids = s.nodes[s.root_id].children;
            let html = |id: u32| s.nodes.contains_key(id) && s.nodes[id].tag == "html"@;
            match s.document_element() {
                Some(id) => exists|i: int|
                    0 <= i < ids.len() && #[trigger] ids[i] == id && html(id) && forall|j: int|
                        0 <= j < i ==> !html(#[trigger] ids[j]),
                None => forall|j: int| 0 <= j < ids.len() ==> !html(#[trigger] ids[j]),
            }
        }),
{
    lemma_first_tagged(s.nodes, s.nodes[s.root_id].children, "html"@);
}

proof fn lemma_first_tagged(nodes: Map<u32, NodeView>, ids: Seq<u32>, tag: Seq<char>)
    ensures
        match first_tagged(nodes, ids, tag) {
            Some(id) => exists|i: int|
                0 <= i < ids.len() && #[trigger] ids[i] == id && nodes.contains_key(id)
                    && nodes[id].tag == tag && forall|j: int|
                    0 <= j < i ==> !(nodes.contains_key(#[trigger] ids[j]) && nodes[ids[j]].tag == tag),
            None => forall|j: int|
                0 <= j < ids.len() ==> !(nodes.contains_key(#[trigger] ids[j]) && nodes[ids[j]].tag
                    == tag),
        },
    decreases ids.len(),
{
    if ids.len() > 0 && !(nodes.contains_key(ids[0]) && nodes[ids[0]].tag == tag) {
        let rest = ids.drop_first();
        lemma_first_tagged(nodes, rest, tag);
        match first_tagged(nodes, ids, tag) {
            Some(id) => {
                let i = choose|i: int|
                    0 <= i < rest.len() && #[trigger] rest[i] == id && forall|j: int|
                        0 <= j < i ==> !(nodes.contains_key(#[trigger] rest[j]) && nodes[rest[j]].tag
                            == tag);
                assert(ids[i + 1] == id);
                assert forall|j: int| 0 <= j < i + 1 implies !(nodes.contains_key(#[trigger] ids[j])
                    && nodes[ids[j]].tag == tag) by {
                    if j > 0 {
                        assert(ids[j] == rest[j - 1]);
                    }
                }
            },
            None => {
                assert forall|j: int| 0 <= j < ids.len() implies !(nodes.contains_key(
                    #[trigger] ids[j],
                ) && nodes[ids[j]].tag == tag) by {
                    if j > 0 {
                        assert(ids[j] == rest[j - 1]);
                    }
                }
            },
        }
    } else if ids.len() > 0 {
        assert(ids[0] == ids[0]);
    }
}

/// Appending and removing change no more than the two nodes they speak of, keep
/// the order of the other children, and keep all else that the nodes hold.
pub proof fn lemma_family_changes(s: SnapshotView, parent: u32, child: u32, other: u32)
    requires
        s.nodes.contains_key(parent),
        s.nodes.contains_key(child),
        parent != child,
        other != parent,
        other != child,
    ensures
        ({
            let a = s.appended(parent, child);
            let r = s.removed(parent, child);
            let was = s.nodes[parent].children;
            &&& a.nodes.dom() == s.nodes.dom()
            &&& r.nodes.dom() == s.nodes.dom()
            &&& s.nodes.contains_key(other) ==> a.nodes[other] == s.nodes[other] && r.nodes[other]
                == s.nodes[other]
            &&& a.nodes[parent].children == if was.contains(child) {
                was
            } else {
                was.push(child)
            }
            &&& r.nodes[parent].children == was.filter(|c: u32| c != child)
            &&& a.nodes[child].children == s.nodes[child].children
            &&& r.nodes[child].children == s.nodes[child].children
            &&& a.nodes[child].tag == s.nodes[child].tag
            &&& a.nodes[child].attributes == s.nodes[child].attributes
            &&& a.nodes[child].text_content == s.nodes[child].text_content
            &&& r.nodes[child].tag == s.nodes[child].tag
            &&& r.nodes[child].attributes == s.nodes[child].attributes
            &&& a.nodes[parent].tag == s.nodes[parent].tag
            &&& a.nodes[parent].parent == s.nodes[parent].parent
            &&& r.nodes[parent].parent == s.nodes[parent].parent
            &&& a.title == s.title && a.url == s.url && a.body_id == s.body_id
            &&& r.title == s.title && r.url == s.url && r.body_id == s.body_id
        }),
{
    lemma_without_filter(s.nodes[parent].children, child);
    assert(s.appended(parent, child).nodes.dom() =~= s.nodes.dom());
    assert(s.removed(parent, child).nodes.dom() =~= s.nodes.dom());
}

proof fn lemma_without_filter(ids: Seq<u32>, x: u32)
    ensures
        without(ids, x) == ids.filter(|c: u32| c != x),
    decreases ids.len(),
{
    reveal(Seq::filter);
    if ids.len() > 0 {
        lemma_without_filter(ids.drop_last(), x);
    }
}

/// A text node that a script creates holds the text, is new, and is reported to
/// the page; so is an element with its tag.
pub proof fn lemma_created_is_reported(d: DocumentView, content: Seq<char>, nanos: u32)
    requires
        d.dom matches Some(s) && s.nodes.dom().finite(),
        d.next_id(nanos) <= u32::MAX,
    ensures
        ({
            let s = d.dom->0;
            let t = d.text_created(content, nanos);
            let id = d.next_id(nanos) as u32;
            let node = (t.dom->0).nodes[id];
            &&& !s.nodes.contains_key(id)
            &&& (t.dom->0).nodes.contains_key(id)
            &&& node.id == id
            &&& node.text_content == content
            &&& node.node_type == 3
            &&& node.children.len() == 0
            &&& node.parent is None
            &&& t.mutations == d.mutations.push(
                MutationView::CreateTextNode { node_id: id, text: content },
            )
            &&& forall|k: u32| #[trigger] s.nodes.contains_key(k) ==> (t.dom->0).nodes[k]
                == s.nodes[k]
        }),
        content.len() > 0 ==> {
            let t = d.element_created(content, nanos);
            let id = d.next_id(nanos) as u32;
            let node = (t.dom->0).nodes[id];
            &&& node.id == id
            &&& node.tag == content
            &&& node.node_type == 1
            &&& node.children.len() == 0
            &&& node.parent is None
            &&& t.mutations == d.mutations.push(
                MutationView::CreateElement { node_id: id, tag: content },
            )
        },
        content.len() == 0 ==> d.element_created(content, nanos) == d,
{
    lemma_top(d.dom->0);
}

/// What a script appends or removes is reported to the page with the parent and
/// the child, an appending only where it is asked for; what is no node changes nothing.
pub proof fn lemma_family_changes_reported(d: DocumentView, parent: u32, child: u32, recorded: bool)
    ensures
        d.child_appended(parent, None, recorded) == d,
        d.child_removed(parent, None) == d,
        d.child_appended(parent, Some(child), true).mutations == d.mutations.push(
            MutationView::AppendChild { parent_id: parent, child_id: child },
        ),
        d.child_appended(parent, Some(child), false).mutations == d.mutations,
        d.child_removed(parent, Some(child)).mutations == d.mutations.push(
            MutationView::RemoveChild { parent_id: parent, child_id: child },
        ),
        d.child_appended(parent, Some(child), recorded).dom is Some <==> d.dom is Some,
        d.child_removed(parent, Some(child)).dom is Some <==> d.dom is Some,
        d.dom matches Some(s) ==> s.nodes.contains_key(child) && parent != child ==> (
        d.child_appended(parent, Some(child), recorded).dom->0).nodes[child].parent == Some(parent)
            && (d.child_removed(parent, Some(child)).dom->0).nodes[child].parent is None,
        d.dom matches Some(s) ==> s.nodes.contains_key(parent) && parent != child ==> (
        d.child_appended(parent, Some(child), recorded).dom->0).nodes[parent].children.contains(
            child,
        ) && !(d.child_removed(parent, Some(child)).dom->0).nodes[parent].children.contains(child),
{
    if d.dom is Some {
        let s = d.dom->0;
        if s.nodes.contains_key(parent) && parent != child {
            let was = s.nodes[parent].children;
            lemma_without(was, child);
            let now = s.appended(parent, child).nodes[parent].children;
            if !was.contains(child) {
                assert(now == was.push(child));
                assert(now[was.len() as int] == child);
            }
        }
    }
}

/// Writing touches no node but the body: the others stay as they are, the body
/// keeps its children before the new one, and nothing is written where there is
/// nothing to write or no body.
pub proof fn lemma_written_keeps(d: DocumentView, html: Seq<char>, k: u32)
    requires
        d.dom matches Some(s) && s.nodes.dom().finite() && s.top() < u32::MAX,
    ensures
        ({
            let s = d.dom->0;
            let t = d.written(html);
            &&& html.len() == 0 || s.body_id is None ==> t == d
            &&& s.nodes.contains_key(k) && s.body_id != Some(k) ==> (t.dom->0).nodes.contains_key(k)
                && (t.dom->0).nodes[k] == s.nodes[k]
            &&& s.nodes.contains_key(k) ==> s.nodes[k].children.is_prefix_of(
                (t.dom->0).nodes[k].children,
            )
            &&& html.len() > 0 && s.body_id is Some ==> t.mutations.len() == d.mutations.len() + 1
        }),
{
    lemma_top(d.dom->0);
}

/// An id is known exactly if a node has it.
pub proof fn lemma_known(s: SnapshotView, i: u32)
    ensures
        s.known(Some(i)) is Some <==> s.nodes.contains_key(i),
        s.nodes.contains_key(i) ==> s.known(Some(i)) == Some(i),
        s.known(None) is None,
{
}

/// A new node gets an id above all others, by at most 10000, and one that the
/// clock moves on; a document without nodes begins above zero.
pub proof fn lemma_next_id(d: DocumentView, nanos: u32)
    ensures
        d.top() < d.next_id(nanos) <= d.top() + 10000,
        d.dom matches Some(s) ==> d.top() == s.top(),
        d.dom is None ==> d.top() == 0,
        d.next_id(0) == d.top() + 1,
        nanos < 10000 ==> d.next_id(nanos) == d.next_id(0) + nanos,
        nanos >= 10000 ==> d.next_id(nanos) == d.next_id((nanos - 10000) as u32),
{
}

} // verus!
