use puck::changeset::{Changeset, Instruction, Op};
use puck::element::Element;
use puck::wire::decimal_string;

fn op(id: usize, instruction: Instruction) -> Op {
    Op { id, instruction }
}

#[test]
fn decimal_identities() {
    assert_eq!(decimal_string(0), "0");
    assert_eq!(decimal_string(7), "7");
    assert_eq!(decimal_string(10), "10");
    assert_eq!(decimal_string(1234567890), "1234567890");
    assert_eq!(decimal_string(usize::MAX), usize::MAX.to_string());
}

#[test]
fn wire_tags_and_payloads() {
    let cs = Changeset {
        ops: vec![
            op(12, Instruction::SetAttribute { key: "class".to_string(), value: "two".to_string() }),
            op(3, Instruction::CreateTag { name: "p".to_string(), parent_id: Some(40) }),
            op(0, Instruction::CreateTag { name: "div".to_string(), parent_id: None }),
            op(5, Instruction::RemoveText),
            op(5, Instruction::AttachListener { name: "go".to_string(), on: "click".to_string() }),
            op(6, Instruction::InsertBefore { before_id: 15 }),
            op(6, Instruction::RemoveAttribute { key: "id".to_string() }),
            op(6, Instruction::DeleteEl),
        ],
    };
    let w = cs.to_wire();
    let got: Vec<(String, String, Option<String>)> =
        w.into_iter().map(|o| (o.el, o.ty, o.payload)).collect();
    let want = vec![
        ("12", "setAttr", Some("class+two")),
        ("3", "createTag", Some("p+40")),
        ("0", "createTag", Some("div+")),
        ("5", "removeText", None),
        ("5", "attachListener", Some("go+click")),
        ("6", "insertBefore", Some("15")),
        ("6", "removeAttr", Some("id")),
        ("6", "deleteEl", None),
    ];
    let want: Vec<(String, String, Option<String>)> = want
        .into_iter()
        .map(|(a, b, c)| (a.to_string(), b.to_string(), c.map(|s| s.to_string())))
        .collect();
    assert_eq!(got, want);
}

#[test]
fn first_paint_on_the_wire() {
    let mut root = Element { id: 1, name: "div".to_string(), ..Default::default() };
    root.children.push(Element {
        id: 2,
        name: "p".to_string(),
        text: Some("hi".to_string()),
        ..Default::default()
    });
    let w = root.diff(None).to_wire();
    assert_eq!(w.len(), 3);
    assert_eq!((w[0].ty.as_str(), w[0].payload.as_deref()), ("createTag", Some("div+")));
    assert_eq!((w[1].el.as_str(), w[1].payload.as_deref()), ("2", Some("p+1")));
    assert_eq!((w[2].ty.as_str(), w[2].payload.as_deref()), ("setText", Some("hi")));
}

#[test]
fn render_nested_tags() {
    let mut root = Element { id: 0, name: "div".to_string(), ..Default::default() };
    root.attributes.push(("class".to_string(), "x".to_string()));
    root.children.push(Element {
        id: 1,
        name: "p".to_string(),
        text: Some("the cat sat on the mat".to_string()),
        ..Default::default()
    });
    root.children.push(Element {
        id: 2,
        name: "p".to_string(),
        text: Some("the mat sat on the cat".to_string()),
        ..Default::default()
    });
    assert_eq!(
        root.render(),
        "<div \"class\"=\"x\"  ><p  >the cat sat on the mat</p><p  >the mat sat on the cat</p></div>"
    );
}
