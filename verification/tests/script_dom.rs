use std::collections::HashMap;

use oxibrowser::js::arg::{Arg, Kind};
use oxibrowser::js::dom::{Document, DomMutation, DomNode, DomSnapshot};
use oxibrowser::strmap::StringMap;

fn text(t: &str) -> Arg {
    Arg {
        kind: Kind::Text(t.to_string()),
        shown: Some(t.to_string()),
    }
}

fn element(id: u32) -> Arg {
    Arg {
        kind: Kind::Object {
            callable: false,
            node_id: Some((id as f64).to_bits()),
        },
        shown: Some("[object Object]".to_string()),
    }
}

fn node(id: u32, tag: &str, parent: Option<u32>, children: Vec<u32>) -> DomNode {
    let mut attributes = StringMap::new();
    attributes.insert("id".to_string(), format!("n{}", id));
    DomNode {
        id,
        tag: tag.to_string(),
        attributes,
        text_content: format!("text {}", id),
        children,
        parent,
        node_type: if tag == "#text" { 3 } else { 1 },
    }
}

fn page() -> Document {
    let mut nodes = HashMap::new();
    nodes.insert(0, DomNode { node_type: 9, ..node(0, "#document", None, vec![7, 1]) });
    nodes.insert(1, node(1, "html", Some(0), vec![2, 3]));
    nodes.insert(2, node(2, "head", Some(1), vec![]));
    nodes.insert(3, node(3, "body", Some(1), vec![4, 5, 99]));
    nodes.insert(4, node(4, "p", Some(3), vec![]));
    nodes.insert(5, node(5, "#text", Some(3), vec![]));
    let mut d = Document::new();
    d.set_snapshot(Some(DomSnapshot {
        nodes,
        title: "Title".to_string(),
        url: "http://a/".to_string(),
        root_id: 0,
        body_id: Some(3),
        head_id: Some(2),
    }));
    d
}

fn children(d: &Document, id: u32) -> Vec<u32> {
    d.dom.as_ref().unwrap().nodes[&id].children.clone()
}

#[test]
fn documents_show_their_snapshot() {
    let d = page();
    assert_eq!(d.title(), "Title");
    assert_eq!(d.url(), "http://a/");
    assert_eq!(d.cookie(), "");
    assert_eq!(d.body(), Some(3));
    assert_eq!(d.head(), Some(2));
    assert_eq!(d.document_element(), Some(1));
    let empty = Document::new();
    assert_eq!(empty.title(), "");
    assert_eq!(empty.body(), None);
    assert_eq!(empty.document_element(), None);
}

#[test]
fn elements_show_children_and_parent_as_stubs() {
    let d = page();
    let e = d.element(Some(3)).unwrap();
    assert_eq!(e.tag_name, "BODY");
    assert_eq!(e.id, "n3");
    assert_eq!(e.class_name, "");
    assert_eq!(e.text_content, "text 3");
    assert_eq!(e.inner_html, "text 3");
    assert_eq!(e.children.len(), 1);
    assert_eq!(e.children[0].tag_name, "P");
    assert_eq!(e.children[0].id, "n4");
    assert_eq!(e.parent_node.as_ref().unwrap().tag_name, "HTML");
    assert_eq!(e.get_attribute(&[text("id")]), Some("n3".to_string()));
    assert_eq!(e.get_attribute(&[text("href")]), None);
    assert!(e.has_attribute(&[text("id")]));
    assert!(d.element(Some(1)).unwrap().parent_node.is_none());
    assert!(d.element(Some(50)).is_none());
    assert!(d.element(None).is_none());
    assert_eq!(d.elements(&[4, 50, 3]).len(), 2);
}

#[test]
fn writing_adds_a_text_node_to_the_body() {
    let mut d = page();
    d.write(&[text("<b>hi</b>")]);
    assert_eq!(children(&d, 3), vec![4, 5, 99, 6]);
    let n = &d.dom.as_ref().unwrap().nodes[&6];
    assert_eq!(n.text_content, "<b>hi</b>");
    assert_eq!(n.node_type, 3);
    assert_eq!(n.parent, Some(3));
    assert_eq!(
        d.drain_mutations(),
        vec![DomMutation::AppendChild { parent_id: 3, child_id: 6 }]
    );
    assert!(d.drain_mutations().is_empty());
    d.write(&[text("")]);
    d.write(&[]);
    assert!(d.drain_mutations().is_empty());
}

#[test]
fn writing_without_a_body_changes_nothing() {
    let mut d = page();
    d.dom.as_mut().unwrap().body_id = None;
    d.write(&[text("x")]);
    assert!(d.mutations.is_empty());
    let mut none = Document::new();
    none.write(&[text("x")]);
    assert!(none.mutations.is_empty());
}

#[test]
fn created_nodes_get_ids_of_their_own() {
    let mut d = page();
    let e = d.create_element(&[text("div")], 123_456).unwrap();
    assert_eq!(e.node_id, 3462);
    assert_eq!(e.tag_name, "DIV");
    let t = d.create_text_node(&[text("words")], 1);
    assert_eq!(t.node_id, 3464);
    assert_eq!(t.text_content, "words");
    assert!(d.create_element(&[text("")], 0).is_none());
    assert_eq!(
        d.drain_mutations(),
        vec![
            DomMutation::CreateElement { node_id: 3462, tag: "div".to_string() },
            DomMutation::CreateTextNode { node_id: 3464, text: "words".to_string() },
        ]
    );
    assert_eq!(d.dom.as_ref().unwrap().nodes[&3462].tag, "div");
}

#[test]
fn upper_case_is_that_of_unicode() {
    let mut d = Document::new();
    assert_eq!(d.create_element(&[text("straße")], 0).unwrap().tag_name, "STRASSE");
    assert_eq!(d.mutations.len(), 1);
}

#[test]
fn appending_twice_is_appending_once() {
    let mut d = page();
    d.append_child(4, &[element(5)], true);
    d.append_child(4, &[element(5)], true);
    assert_eq!(children(&d, 4), vec![5]);
    assert_eq!(d.dom.as_ref().unwrap().nodes[&5].parent, Some(4));
    assert_eq!(d.drain_mutations().len(), 2);
    d.append_child(4, &[element(2)], false);
    assert_eq!(children(&d, 4), vec![5, 2]);
    assert!(d.drain_mutations().is_empty());
    d.append_child(4, &[text("no node")], true);
    assert!(d.drain_mutations().is_empty());
}

#[test]
fn removing_undoes_appending() {
    let mut d = page();
    let before = children(&d, 4);
    let e = d.create_element(&[text("i")], 0).unwrap();
    d.append_child(4, &[element(e.node_id)], true);
    d.remove_child(4, &[element(e.node_id)]);
    assert_eq!(children(&d, 4), before);
    assert_eq!(d.dom.as_ref().unwrap().nodes[&e.node_id].parent, None);
    assert_eq!(
        d.drain_mutations().last(),
        Some(&DomMutation::RemoveChild { parent_id: 4, child_id: e.node_id })
    );
}

#[test]
fn clicks_inputs_and_attributes_are_recorded() {
    let mut d = page();
    d.click(4);
    d.set_attribute(4, &[text("class"), text("big")]);
    d.set_value(4, &[text("typed")]);
    assert!(!d.element(Some(4)).unwrap().has_attribute(&[text("class")]));
    assert_eq!(
        d.drain_mutations(),
        vec![
            DomMutation::ClickElement { node_id: 4 },
            DomMutation::SetAttribute {
                node_id: 4,
                name: "class".to_string(),
                value: "big".to_string(),
            },
            DomMutation::InputElement { node_id: 4, value: "typed".to_string() },
        ]
    );
}
