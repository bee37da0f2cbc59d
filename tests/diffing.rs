use puck::client::{ClientMessage, ClientMessagePayload};
use puck::session::{ListenerKind, Session};
use puck::changeset::{Changeset, Instruction, Op};
use puck::element::{Element, ListenerRef};

fn s(x: &str) -> String {
    x.to_string()
}

fn node(id: usize, name: &str) -> Element {
    Element {
        id,
        name: s(name),
        ..Default::default()
    }
}

fn with_text(mut e: Element, text: &str) -> Element {
    e.text = Some(s(text));
    e
}

fn with_key(mut e: Element, key: &str) -> Element {
    e.key = Some(s(key));
    e
}

fn with_attrs(mut e: Element, attrs: &[(&str, &str)]) -> Element {
    e.attributes = attrs.iter().map(|(k, v)| (s(k), s(v))).collect();
    e
}

fn with_listeners(mut e: Element, ls: &[(&str, &str)]) -> Element {
    e.listeners = ls
        .iter()
        .map(|(n, ev)| ListenerRef::new(s(n), s(ev)))
        .collect();
    e
}

fn with_children(mut e: Element, children: Vec<Element>) -> Element {
    e.children = children;
    e
}

fn without_keys(mut e: Element) -> Element {
    e.key = None;
    e.children = e.children.into_iter().map(without_keys).collect();
    e
}

fn replays(old: &Element, new: &Element) -> bool {
    let mut t = old.clone();
    old.diff(Some(new)).try_apply(&mut t).is_ok() && without_keys(t) == without_keys(new.clone())
}

fn is_set_attr(op: &Op, id: usize, key: &str, value: &str) -> bool {
    op.id == id
        && matches!(&op.instruction, Instruction::SetAttribute { key: k, value: v } if k == key && v == value)
}

fn check_name_change() {
    let old = node(0, "div");
    let new = node(0, "p");
    let cs = old.diff(Some(&new));
    assert_eq!(cs.ops.len(), 1);
    assert_eq!(cs.ops[0].id, 0);
    assert!(matches!(&cs.ops[0].instruction, Instruction::SetTagName { name } if name == "p"));
}

fn attribute_trees() -> (Element, Element) {
    let old = with_attrs(
        node(0, "div"),
        &[
            ("class", "one"),
            ("attribute-which-doesn-t-exist-after-diffing", "1"),
        ],
    );
    let new = with_attrs(
        node(0, "div"),
        &[
            ("class", "two"),
            ("new-attribute-added-after-diffing", "value"),
        ],
    );
    (old, new)
}

fn check_single_element_attribute_change() {
    let (old, new) = attribute_trees();
    let cs = old.diff(Some(&new));
    assert_eq!(cs.ops.len(), 3);
    assert!(cs
        .ops
        .iter()
        .any(|op| is_set_attr(op, 0, "new-attribute-added-after-diffing", "value")));
    assert!(cs.ops.iter().any(|op| is_set_attr(op, 0, "class", "two")));
}

fn check_single_element_text_change() {
    let old = with_text(node(0, "p"), "the cat sat on the mat");
    let new = with_text(node(0, "p"), "the mat sat on the cat");
    let cs = old.diff(Some(&new));
    assert_eq!(cs.ops.len(), 1);
    assert_eq!(cs.ops[0].id, 0);
    assert!(matches!(&cs.ops[0].instruction, Instruction::SetText { value } if value == "the mat sat on the cat"));
}

fn check_add_child_change() {
    let old = with_children(
        node(0, "div"),
        vec![with_key(with_text(node(3, "p"), "the cat sat on the mat"), "a")],
    );
    let new = with_children(
        node(0, "div"),
        vec![
            with_key(with_text(node(3, "p"), "the cat sat on the mat"), "a"),
            with_key(with_text(node(2, "p"), "the mat sat on the cat"), "b"),
        ],
    );
    let cs = old.diff(Some(&new));
    assert_eq!(cs.ops.len(), 3);
    assert_eq!(cs.ops[0].id, 2);
    assert!(matches!(cs.ops[0].instruction, Instruction::InsertAfter { after_id: 3 }));
    assert!(cs.ops[1].id == 2 && matches!(&cs.ops[1].instruction, Instruction::SetTagName { name } if name == "p"));
    assert!(is_set_text(&cs.ops[2], 2, "the mat sat on the cat"));
}

fn check_add_child_before_change() {
    let old = with_children(
        node(0, "div"),
        vec![with_key(with_text(node(3, "p"), "the cat sat on the mat"), "a")],
    );
    let new = with_children(
        node(0, "div"),
        vec![
            with_key(with_text(node(3, "p"), "the mat sat on the cat"), "b"),
            with_key(with_text(node(2, "p"), "the cat sat on the mat"), "a"),
        ],
    );
    // the matched child gives up identity 3 to the new first child
    let cs = old.diff(Some(&new));
    assert_eq!(cs.ops.len(), 4);
    assert!(cs.ops.iter().all(|op| op.id == 3));
    assert!(matches!(cs.ops[0].instruction, Instruction::SetId { value: 2 }));
    assert!(matches!(cs.ops[1].instruction, Instruction::InsertBefore { before_id: 2 }));
    assert!(matches!(&cs.ops[2].instruction, Instruction::SetTagName { name } if name == "p"));
    assert!(is_set_text(&cs.ops[3], 3, "the mat sat on the cat"));
    assert!(replays(&old, &new));
}

fn complex_old() -> Element {
    with_children(
        with_attrs(node(0, "div"), &[("class", "message-list")]),
        vec![
            with_children(
                node(3, "div"),
                vec![with_listeners(node(4, "input"), &[("msg-input", "input")])],
            ),
            with_children(
                node(2, "div"),
                vec![with_text(
                    with_listeners(node(5, "button"), &[("msg-submit", "click")]),
                    "Send message",
                )],
            ),
        ],
    )
}

fn complex_new() -> Element {
    let mut new = complex_old();
    new.children.push(with_children(
        with_attrs(node(9, "div"), &[("class", "message-container")]),
        vec![
            with_text(
                with_attrs(node(8, "p"), &[("class", "message-sent-at")]),
                "1970-01-25 06:34:13",
            ),
            with_text(
                with_attrs(node(6, "p"), &[("class", "message-author")]),
                "[username not set]",
            ),
            with_text(
                with_attrs(node(7, "p"), &[("class", "message-contents")]),
                "sending message",
            ),
        ],
    ));
    new
}

fn is_create(op: &Op, id: usize, name: &str, parent: usize) -> bool {
    op.id == id
        && matches!(&op.instruction, Instruction::CreateTag { name: n, parent_id: Some(p) } if n == name && *p == parent)
}

fn is_set_text(op: &Op, id: usize, text: &str) -> bool {
    op.id == id && matches!(&op.instruction, Instruction::SetText { value } if value == text)
}

fn check_more_complex_diff() {
    let old = complex_old();
    let new = complex_new();
    let cs = old.diff(Some(&new));
    let ops = &cs.ops;
    assert_eq!(ops.len(), 11);
    assert!(is_create(&ops[0], 9, "div", 0));
    assert!(is_set_attr(&ops[1], 9, "class", "message-container"));
    assert!(is_create(&ops[2], 8, "p", 9));
    assert!(is_set_attr(&ops[3], 8, "class", "message-sent-at"));
    assert!(is_set_text(&ops[4], 8, "1970-01-25 06:34:13"));
    assert!(is_create(&ops[5], 6, "p", 9));
    assert!(is_set_attr(&ops[6], 6, "class", "message-author"));
    assert!(is_set_text(&ops[7], 6, "[username not set]"));
    assert!(is_create(&ops[8], 7, "p", 9));
    assert!(is_set_attr(&ops[9], 7, "class", "message-contents"));
    assert!(is_set_text(&ops[10], 7, "sending message"));
}

#[test]
fn test_test_name_change() {
    check_name_change();
}

#[test]
fn test_diffing_test_name_change() {
    check_name_change();
}

#[test]
fn test_test_single_element_attribute_change() {
    check_single_element_attribute_change();
}

#[test]
fn test_diffing_test_single_element_attribute_change() {
    check_single_element_attribute_change();
}

#[test]
fn test_test_single_element_text_change() {
    check_single_element_text_change();
}

#[test]
fn test_diffing_test_single_element_text_change() {
    check_single_element_text_change();
}

#[test]
fn test_test_add_child_change() {
    check_add_child_change();
}

#[test]
fn test_diffing_test_add_child_change() {
    check_add_child_change();
}

#[test]
fn test_test_add_child_before_change() {
    check_add_child_before_change();
}

#[test]
fn test_diffing_test_add_child_before_change() {
    check_add_child_before_change();
}

#[test]
fn test_test_more_complex_diff() {
    check_more_complex_diff();
}

#[test]
fn test_diffing_test_more_complex_diff() {
    check_more_complex_diff();
}

#[test]
fn test_test_delete_child_change() {}

#[test]
fn test_diffing_test_delete_child_change() {}

#[test]
fn simple_listener_test() {
    let mut before = with_listeners(node(0, ""), &[("one", "two"), ("three", "four")]);
    let after = with_listeners(node(0, ""), &[("one", "two")]);
    let before2 = before.clone();
    let cs = before2.diff(Some(&after));
    cs.apply(&mut before);
    assert!(before == after);
}

#[test]
fn diffing_regression_2022_01_23() {
    let mut before = with_children(
        node(0, "div"),
        vec![
            with_children(
                node(1, "div"),
                vec![with_listeners(
                    with_attrs(
                        node(2, "input"),
                        &[("type", "text"), ("value", "name"), ("placeholder", "username...")],
                    ),
                    &[("set_username", "input")],
                )],
            ),
            with_children(
                node(3, "div"),
                vec![with_listeners(
                    with_attrs(node(4, "input"), &[("type", "submit")]),
                    &[("initialize_username", "click")],
                )],
            ),
        ],
    );
    let after = with_children(
        node(0, "div"),
        vec![with_children(
            node(1, "div"),
            vec![
                with_text(node(2, "p"), "Hello teymour (user_id: 0)!"),
                with_children(
                    node(3, "div"),
                    vec![with_listeners(
                        with_attrs(
                            node(4, "input"),
                            &[
                                ("placeholder", "send a new message..."),
                                ("type", "text"),
                                ("value", ""),
                            ],
                        ),
                        &[("update_message_contents", "input")],
                    )],
                ),
                with_children(
                    node(5, "div"),
                    vec![with_listeners(
                        with_attrs(
                            node(6, "input"),
                            &[("type", "submit"), ("value", "send message")],
                        ),
                        &[("submit_message", "click")],
                    )],
                ),
            ],
        )],
    );
    let before2 = before.clone();
    let cs = before2.diff(Some(&after));
    cs.apply(&mut before);
    assert!(before == after);
}

// Laws and scenarios of the diff engine on concrete trees.

#[test]
fn diff_of_a_tree_with_itself_is_empty() {
    let a = complex_new();
    assert_eq!(a.diff(Some(&a)).ops.len(), 0);
    let keyed = with_children(
        node(0, "ul"),
        vec![
            with_key(with_text(node(1, "li"), "x"), "a"),
            with_key(with_text(node(2, "li"), "y"), "b"),
        ],
    );
    assert_eq!(keyed.diff(Some(&keyed)).ops.len(), 0);
}

#[test]
fn text_only_change_gives_one_edit() {
    let a = with_text(complex_old(), "before");
    let b = with_text(complex_old(), "after");
    let cs = a.diff(Some(&b));
    assert_eq!(cs.ops.len(), 1);
    assert!(is_set_text(&cs.ops[0], 0, "after"));
    let c = complex_old();
    let cs = a.diff(Some(&c));
    assert_eq!(cs.ops.len(), 1);
    assert_eq!(cs.ops[0].id, 0);
    assert!(matches!(cs.ops[0].instruction, Instruction::RemoveText));
}

#[test]
fn keyed_append_is_one_insert_after() {
    let old = with_children(
        node(0, "div"),
        vec![with_key(with_text(node(1, "p"), "hi"), "a")],
    );
    let new = with_children(
        node(0, "div"),
        vec![
            with_key(with_text(node(1, "p"), "hi"), "a"),
            with_key(with_text(node(2, "p"), "bye"), "b"),
        ],
    );
    let cs = old.diff(Some(&new));
    assert_eq!(cs.ops.len(), 3);
    assert!(cs.ops.iter().all(|op| op.id == 2));
    assert!(matches!(cs.ops[0].instruction, Instruction::InsertAfter { after_id: 1 }));
    assert!(matches!(&cs.ops[1].instruction, Instruction::SetTagName { name } if name == "p"));
    assert!(is_set_text(&cs.ops[2], 2, "bye"));
    let mut replayed = old.clone();
    cs.apply(&mut replayed);
    assert!(without_keys(replayed) == without_keys(new));
}

#[test]
fn attribute_changes_are_three_distinct_edits() {
    let (old, new) = attribute_trees();
    let cs = old.diff(Some(&new));
    assert_eq!(cs.ops.len(), 3);
    assert!(matches!(&cs.ops[0].instruction,
        Instruction::RemoveAttribute { key } if key == "attribute-which-doesn-t-exist-after-diffing"));
    assert!(is_set_attr(&cs.ops[1], 0, "class", "two"));
    assert!(is_set_attr(&cs.ops[2], 0, "new-attribute-added-after-diffing", "value"));
}

#[test]
fn keyed_delete_and_insert_into_empty() {
    let old = with_children(
        node(0, "ul"),
        vec![
            with_key(node(1, "li"), "a"),
            with_key(node(2, "li"), "b"),
        ],
    );
    let new = with_children(node(0, "ul"), vec![with_key(node(1, "li"), "a")]);
    let cs = old.diff(Some(&new));
    assert_eq!(cs.ops.len(), 1);
    assert_eq!(cs.ops[0].id, 2);
    assert!(matches!(cs.ops[0].instruction, Instruction::DeleteEl));

    let empty = node(0, "ul");
    let one = with_children(node(0, "ul"), vec![with_key(node(7, "li"), "z")]);
    let cs = empty.diff(Some(&one));
    assert_eq!(cs.ops.len(), 2);
    assert_eq!(cs.ops[0].id, 0);
    assert!(matches!(cs.ops[0].instruction, Instruction::InsertChild { new_child_id: 7 }));
    assert!(cs.ops[1].id == 7 && matches!(&cs.ops[1].instruction, Instruction::SetTagName { name } if name == "li"));
    let mut replayed = node(0, "ul");
    cs.apply(&mut replayed);
    assert!(without_keys(replayed) == without_keys(one));
}

#[test]
fn unkeyed_surplus_children_are_deleted_first() {
    let old = with_children(
        node(0, "div"),
        vec![node(1, "p"), node(2, "p"), node(3, "p")],
    );
    let new = with_children(node(0, "div"), vec![node(1, "span")]);
    let cs = old.diff(Some(&new));
    assert_eq!(cs.ops.len(), 3);
    assert!(cs.ops[0].id == 2 && matches!(cs.ops[0].instruction, Instruction::DeleteEl));
    assert!(cs.ops[1].id == 3 && matches!(cs.ops[1].instruction, Instruction::DeleteEl));
    assert!(matches!(&cs.ops[2].instruction, Instruction::SetTagName { name } if name == "span"));
}

#[test]
fn listener_and_id_changes() {
    let old = with_listeners(node(4, "button"), &[("a", "click")]);
    let new = with_listeners(node(5, "button"), &[("b", "click"), ("c", "submit")]);
    let cs = old.diff(Some(&new));
    assert_eq!(cs.ops.len(), 4);
    assert!(matches!(cs.ops[0].instruction, Instruction::RemoveListeners));
    assert!(matches!(&cs.ops[1].instruction, Instruction::AttachListener { name, on } if name == "b" && on == "click"));
    assert!(matches!(&cs.ops[2].instruction, Instruction::AttachListener { name, on } if name == "c" && on == "submit"));
    assert!(cs.ops[3].id == 4 && matches!(cs.ops[3].instruction, Instruction::SetId { value: 5 }));
}

#[test]
fn first_paint_replays_to_the_tree() {
    let tree = complex_new();
    let cs = tree.diff(None);
    assert!(matches!(&cs.ops[0].instruction, Instruction::CreateTag { name, parent_id: None } if name == "div"));
    let mut target = node(42, "anything");
    cs.apply(&mut target);
    assert!(target == tree);
}

#[test]
fn unkeyed_diffs_replay_to_the_new_tree() {
    let old = complex_old();
    let new = complex_new();
    let mut replayed = complex_old();
    old.diff(Some(&new)).apply(&mut replayed);
    assert!(replayed == new);

    let mut back = complex_new();
    new.diff(Some(&old)).apply(&mut back);
    assert!(back == old);
}

#[test]
fn apply_reports_missing_nodes_and_raw_html() {
    let mut tree = node(0, "div");
    let cs = Changeset {
        ops: vec![Op { id: 9, instruction: Instruction::RemoveText }],
    };
    assert_eq!(cs.try_apply(&mut tree), Err(puck::apply::ApplyError::ElementNotFound));
    let cs = Changeset {
        ops: vec![Op {
            id: 0,
            instruction: Instruction::SetInnerHtml { element: s("div"), html: s("<p></p>") },
        }],
    };
    assert_eq!(cs.try_apply(&mut tree), Err(puck::apply::ApplyError::Unsupported));
}

#[test]
fn tree_equality_ignores_attribute_order() {
    let a = with_attrs(node(0, "div"), &[("a", "1"), ("b", "2")]);
    let b = with_attrs(node(0, "div"), &[("b", "2"), ("a", "1")]);
    let c = with_attrs(node(0, "div"), &[("b", "3"), ("a", "1")]);
    assert!(a == b);
    assert!(a != c);
}

#[test]
fn id_generator_counts_up() {
    let mut ids = puck::element::IdGen::new();
    assert_eq!(ids.new_id(), 0);
    assert_eq!(ids.new_id(), 1);
    assert_eq!(ids.new_id(), 2);
}

#[test]
fn keyed_reordering_replays_in_the_new_order() {
    let old = with_children(
        node(0, "div"),
        vec![
            with_key(with_text(node(1, "p"), "first"), "a"),
            with_key(with_attrs(with_text(node(2, "q"), "second"), &[("class", "x")]), "b"),
        ],
    );
    let new = with_children(
        node(0, "div"),
        vec![
            with_key(with_attrs(with_text(node(2, "q"), "second"), &[("class", "x")]), "b"),
            with_key(with_text(node(1, "p"), "first"), "a"),
        ],
    );
    assert!(replays(&old, &new));
    let swapped_ids = with_children(
        node(0, "div"),
        vec![
            with_key(with_attrs(with_text(node(1, "q"), "second"), &[("class", "x")]), "b"),
            with_key(with_text(node(2, "p"), "first"), "a"),
        ],
    );
    assert!(replays(&old, &swapped_ids));
}

#[test]
fn identity_changes_replay() {
    let old = with_children(node(0, "div"), vec![node(1, "x")]);
    let new = with_children(node(7, "div"), vec![node(1, "x"), node(2, "y")]);
    assert!(replays(&old, &new));
    let old = with_children(node(0, "div"), vec![node(1, "x"), node(2, "x")]);
    let new = with_children(node(0, "div"), vec![node(2, "x"), node(1, "x")]);
    assert!(replays(&old, &new));
    let old = with_children(node(0, "div"), vec![with_text(node(1, "p"), "a")]);
    let new = with_children(node(3, "div"), vec![with_text(node(1, "p"), "b")]);
    let cs = old.diff(Some(&new));
    assert_eq!(cs.ops.len(), 2);
    assert!(cs.ops[0].id == 0 && matches!(cs.ops[0].instruction, Instruction::SetId { value: 3 }));
    assert!(is_set_text(&cs.ops[1], 1, "b"));
    assert!(replays(&old, &new));
}

#[test]
fn identities_are_rewritten_in_place() {
    let old = with_children(node(0, "div"), vec![node(1, "p")]);
    let new = with_children(node(5, "div"), vec![node(2, "p")]);
    let cs = old.diff(Some(&new));
    assert_eq!(cs.ops.len(), 2);
    assert!(cs.ops[0].id == 0 && matches!(cs.ops[0].instruction, Instruction::SetId { value: 5 }));
    assert!(cs.ops[1].id == 1 && matches!(cs.ops[1].instruction, Instruction::SetId { value: 2 }));
    assert!(replays(&old, &new));
}

#[test]
fn new_children_go_under_the_new_parent_identity() {
    let old = with_children(node(0, "div"), vec![node(1, "x")]);
    let new = with_children(node(7, "div"), vec![node(1, "x"), node(2, "y")]);
    let cs = old.diff(Some(&new));
    assert_eq!(cs.ops.len(), 2);
    assert!(cs.ops[0].id == 0 && matches!(cs.ops[0].instruction, Instruction::SetId { value: 7 }));
    assert!(is_create(&cs.ops[1], 2, "y", 7));
    assert!(replays(&old, &new));
}

#[test]
fn keyed_inserts_replay_with_their_content() {
    let old = with_children(
        node(0, "ul"),
        vec![with_key(node(1, "li"), "a"), with_key(node(2, "li"), "b")],
    );
    let new = with_children(
        node(0, "ul"),
        vec![
            with_key(with_children(with_attrs(node(5, "li"), &[("k", "v")]), vec![with_text(node(6, "b"), "bold")]), "z"),
            with_key(node(1, "li"), "a"),
            with_key(with_listeners(node(7, "li"), &[("go", "click")]), "y"),
            with_key(node(8, "li"), "x"),
        ],
    );
    assert!(replays(&old, &new));
    let lone = with_children(node(0, "div"), vec![with_key(node(1, "p"), "a")]);
    assert!(replays(&node(0, "div"), &lone));
    assert!(replays(&lone, &node(0, "div")));
}

#[test]
fn unkeyed_changes_replay() {
    assert!(replays(&complex_old(), &complex_new()));
    assert!(replays(&complex_new(), &complex_old()));
    let a = with_children(node(0, "div"), vec![node(1, "p"), node(2, "p")]);
    let b = with_children(node(0, "div"), vec![with_text(node(1, "h1"), "t"), node(2, "p"), node(3, "p")]);
    assert!(replays(&a, &b));
    assert!(replays(&b, &a));
}

#[test]
fn session_resolves_events_and_rerenders() {
    let table = vec![
        (s("go"), ListenerKind::Click),
        (s("name"), ListenerKind::Input),
        (s("send"), ListenerKind::Submit),
    ];
    let (mut session, first) = Session::start(complex_old(), table.clone());
    assert!(is_create(&first.ops[2], 3, "div", 0));
    let click = ClientMessage { listener: s("go"), payload: None };
    assert_eq!(session.on_event(&click), Some((0, None)));
    let typed = ClientMessage { listener: s("name"), payload: Some(ClientMessagePayload { value: s("ann") }) };
    assert_eq!(session.on_event(&typed), Some((1, Some(s("ann")))));
    let empty_input = ClientMessage { listener: s("name"), payload: None };
    assert_eq!(session.on_event(&empty_input), None);
    let submit = ClientMessage { listener: s("send"), payload: Some(ClientMessagePayload { value: s("x") }) };
    assert_eq!(session.on_event(&submit), Some((2, None)));
    let unknown = ClientMessage { listener: s("nope"), payload: None };
    assert_eq!(session.on_event(&unknown), None);

    let cs = session.rerender(complex_new(), vec![]);
    assert_eq!(cs.ops.len(), 11);
    assert_eq!(session.on_event(&click), None);
    let cs = session.rerender(complex_new(), table);
    assert_eq!(cs.ops.len(), 0);
}

#[test]
fn well_formedness_is_checked() {
    assert!(complex_new().is_wf());
    let mixed = with_children(node(0, "ul"), vec![with_key(node(1, "li"), "a"), node(2, "li")]);
    assert!(!mixed.is_wf());
    let twice = with_children(node(0, "ul"), vec![with_key(node(1, "li"), "a"), with_key(node(2, "li"), "a")]);
    assert!(!twice.is_wf());
    let attrs = with_children(node(0, "div"), vec![with_attrs(node(1, "p"), &[("a", "1"), ("a", "2")])]);
    assert!(!attrs.is_wf());
    assert_eq!(ListenerKind::Input.js_event(), "input");
}
