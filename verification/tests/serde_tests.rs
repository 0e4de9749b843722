use joinc::defs::Bool;
use joinc::parse::parse;
use joinc::ser::{to_vec, to_vec_formatted, PrettyFormatter};
use joinc::types::GuiUrls;
use joinc::xml::Node;

#[test]
fn serializes_structs() {
    let mut inner = Node::new("inner");
    inner.add_new_content_child("b", -11);

    let mut outer = Node::new("outer");
    outer.add_new_content_child("a", 47);
    outer.add_child(inner);

    let expected = "<outer><a>47</a><inner><b>-11</b></inner></outer>";
    assert_eq!(String::from_utf8(to_vec(&outer)).unwrap(), expected);
}

#[test]
fn serializes_enums() {
    let mut test = Node::new("dto");
    test.add_new_content_child("a_color", 5);
    test.add_new_content_child("another_color", 7);

    let expected = "<dto><a_color>5</a_color><another_color>7</another_color></dto>";
    assert_eq!(String::from_utf8(to_vec(&test)).unwrap(), expected);
}

#[test]
fn serializes_sequences() {
    let mut test = Node::new("dto");
    for number in [2, 3, 5] {
        test.add_new_content_child("number", number);
    }

    let expected = "<dto><number>2</number><number>3</number><number>5</number></dto>";
    assert_eq!(String::from_utf8(to_vec(&test)).unwrap(), expected);
}

#[test]
fn serializes_sequences2() {
    let mut test = Node::new("msgs");
    for (id, body) in [(2, "foo"), (5, "bar")] {
        let mut msg = Node::new("msg");
        msg.add_new_content_child("id", id);
        msg.add_new_content_child("body", body);
        test.add_child(msg);
    }

    let expected = "<msgs><msg><id>2</id><body>foo</body></msg><msg><id>5</id><body>bar</body></msg></msgs>";
    assert_eq!(String::from_utf8(to_vec(&test)).unwrap(), expected);
}

#[test]
fn serializes_empty_field_self_closed() {
    let mut test = Node::new("dto");
    test.add_new_content_child("field", "");

    // the daemon's parser requires exactly `<field/>`: no space before
    // the slash, and never `<field></field>`
    assert_eq!(String::from_utf8(to_vec(&test)).unwrap(), "<dto><field/></dto>");
}

#[test]
fn prints_pretty() {
    let mut inner = Node::new("inner");
    inner.add_new_content_child("b", -11);

    let mut outer = Node::new("outer");
    outer.add_new_content_child("a", 47);
    outer.add_child(inner);

    let expected = "\
<outer>
  <a>47</a>
  <inner>
    <b>-11</b>
  </inner>
</outer>
";
    assert_eq!(
        String::from_utf8(to_vec_formatted(PrettyFormatter::with_indent("  "), &outer)).unwrap(),
        expected
    );
}

#[test]
fn deserializes_structs() {
    let xml = "<outer><a>47</a><inner><b>-11</b></inner></outer>";
    let tree = parse(xml.as_bytes()).unwrap();

    assert_eq!(tree.try_child_into_content::<i32>("a").unwrap(), 47);
    let inner = tree.find_child("inner").unwrap();
    assert_eq!(inner.try_child_into_content::<i32>("b").unwrap(), -11);
}

#[test]
fn deserializes_enums() {
    let xml = "<dto><a_color>5</a_color><another_color>7</another_color></dto>";
    let tree = parse(xml.as_bytes()).unwrap();

    assert_eq!(tree.try_child_into_content::<i32>("a_color").unwrap(), 5);
    assert_eq!(tree.try_child_into_content::<i32>("another_color").unwrap(), 7);
}

#[test]
fn deserializes_sequences() {
    let xml = "<dto><number>2</number><number>3</number><number>5</number></dto>";
    let tree = parse(xml.as_bytes()).unwrap();

    let numbers: Vec<i32> = tree
        .find_children("number")
        .iter()
        .map(|n| n.try_into_content::<i32>().unwrap())
        .collect();
    assert_eq!(numbers, vec![2, 3, 5]);
}

#[test]
fn deserializes_sequences2() {
    let xml = "<msgs><msg><id>2</id><body>foo</body></msg><msg><id>5</id><body>bar</body></msg></msgs>";
    let tree = parse(xml.as_bytes()).unwrap();

    let msgs = tree.find_children("msg");
    assert_eq!(msgs.len(), 2);
    assert_eq!(msgs[0].try_child_into_content::<i32>("id").unwrap(), 2);
    assert_eq!(msgs[0].try_child_into_content::<String>("body").unwrap(), "foo");
    assert_eq!(msgs[1].try_child_into_content::<i32>("id").unwrap(), 5);
    assert_eq!(msgs[1].try_child_into_content::<String>("body").unwrap(), "bar");
}

#[test]
fn deserializes_sequences3() {
    let xml = "\
            <projects>
                <project>
                    <url>p1</url>
                    <gui_urls>
                        <gui_url><name>u1.1</name></gui_url>
                        <gui_url><name>u1.2</name></gui_url>
                    </gui_urls>
                </project>
                <project>
                    <url>p2</url>
                    <gui_urls>
                        <gui_url><name>u2.1</name></gui_url>
                        <ifteam>
                            <gui_url><name>u2.2</name></gui_url>
                        </ifteam>
                        <gui_url><name>u2.3</name></gui_url>
                    </gui_urls>
                </project>
            </projects>";
    let tree = parse(xml.as_bytes()).unwrap();

    let projects = tree.find_children("project");
    assert_eq!(projects.len(), 2);

    let urls: Vec<String> = projects
        .iter()
        .map(|p| p.try_child_into_content::<String>("url").unwrap())
        .collect();
    assert_eq!(urls, vec!["p1".to_string(), "p2".to_string()]);

    // only direct `gui_url` children count: the one nested under
    // `ifteam` is ignored
    let names: Vec<Vec<String>> = projects
        .iter()
        .map(|p| {
            let GuiUrls(links) = GuiUrls::from_node(p.find_child("gui_urls").unwrap());
            links.into_iter().map(|l| l.name).collect()
        })
        .collect();
    assert_eq!(
        names,
        vec![
            vec!["u1.1".to_string(), "u1.2".to_string()],
            vec!["u2.1".to_string(), "u2.3".to_string()],
        ]
    );
}

#[test]
fn deserializes_booleans() {
    let xml = "<dto><a_bool/><another_bool>1</another_bool><unset_bool>0</unset_bool></dto>";
    let tree = parse(xml.as_bytes()).unwrap();

    assert_eq!(Bool::from_field(&tree, "a_bool"), Bool::True);
    assert_eq!(Bool::from_field(&tree, "another_bool"), Bool::True);
    assert_eq!(Bool::from_field(&tree, "unset_bool"), Bool::False);
    assert_eq!(Bool::from_field(&tree, "not_set"), Bool::False);
}

#[test]
fn deserializes_empty_sequence() {
    let tree = parse("<project><url>p1</url></project>".as_bytes()).unwrap();
    let GuiUrls(links) = GuiUrls::from_node(&tree);
    assert!(links.is_empty());
}

#[test]
fn deserializes_absent_string_as_empty() {
    let tree = parse("<gui_url><name>n</name></gui_url>".as_bytes()).unwrap();
    let link = joinc::types::GuiUrl::from_node(&tree);
    assert_eq!(link.name, "n");
    assert_eq!(link.description, "");
    assert_eq!(link.url, "");
}
