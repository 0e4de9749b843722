use joinc::error::Error;
use joinc::parse::parse;
use joinc::xml::Node;

#[test]
fn serialize_empty_node() {
    let node = Node::new("foo");
    assert_eq!(node.pretty_print(0), "<foo/>");
}

#[test]
fn serialize_node_with_content() {
    let node = Node::new("foo").with_content("bar");
    assert_eq!(node.pretty_print(0), "<foo>bar</foo>");
}

#[test]
fn serialize_node_with_child() {
    let mut node = Node::new("foo");
    node.add_new_child("bar");

    assert_eq!(node.pretty_print(0), "<foo>\n<bar/>\n</foo>");
}

#[test]
fn deserialize_empty_node() {
    let xml = "<foo/>";
    let tree = parse(xml.as_bytes()).expect("Should be parseable");
    assert_eq!(tree.pretty_print(0), xml);
}

#[test]
fn deserialize_tree_with_content() {
    let xml = "<foo>bar</foo>";
    let tree = parse(xml.as_bytes()).expect("Should be parseable");
    assert_eq!(tree.pretty_print(0), xml);
}

#[test]
fn deserialize_tree_with_child() {
    let xml = "<a>\n<b/>\n</a>";
    let tree = parse(xml.as_bytes()).expect("Should be parseable");
    assert_eq!(tree.pretty_print(0), xml);
}

#[test]
fn deserialize_tree_with_childs() {
    let xml = "<a>\n<b>\n<c>d</c>\n</b>\n</a>";
    let tree = parse(xml.as_bytes()).expect("Should be parseable");
    assert_eq!(tree.pretty_print(0), xml);
}

#[test]
fn deserialize_cdata() {
    let xml = "<foo><![CDATA[ <bar> ]]></foo>";
    let tree = parse(xml.as_bytes()).expect("Should be parseable");
    assert_eq!(tree.content.as_str(), " <bar> ".to_string());
}

#[test]
fn dont_deserialize_without_root() {
    let xml = "<?foo?>";
    let result = parse(xml.as_bytes());
    assert!(result.is_err());
}

#[test]
fn dont_deserialize_invalid_root() {
    let xml = "<foo>";
    let result = parse(xml.as_bytes());
    assert!(result.is_err());
}

#[test]
fn dont_deserialize_invalid_tree() {
    let xml = "<foo><bar/>";
    let result = parse(xml.as_bytes());
    assert!(result.is_err());
}

#[test]
fn dont_deserialize_with_unopened_closing_tags() {
    let xml = "<foo></bar>";
    let result = parse(xml.as_bytes());
    assert!(result.is_err());
}

#[test]
fn set_boolean_content() {
    let node = Node::new("foo").with_content(false);
    assert_eq!(node.pretty_print(0), "<foo>0</foo>");
    let node = Node::new("foo").with_content(true);
    assert_eq!(node.pretty_print(0), "<foo>1</foo>");
}

#[test]
fn set_integer_content() {
    let node = Node::new("foo").with_content(1234);
    assert_eq!(node.pretty_print(0), "<foo>1234</foo>");
}

#[test]
fn set_floating_point_content() {
    let node = Node::new("foo").with_content(format!("{}", 1234.56789));
    assert_eq!(node.pretty_print(0), "<foo>1234.56789</foo>");
}

#[test]
fn set_string_content() {
    let node = Node::new("foo").with_content("bar");
    assert_eq!(node.pretty_print(0), "<foo>bar</foo>");
}

#[test]
fn get_boolean_content() {
    let xml = "<foo>0</foo>";
    let tree = parse(xml.as_bytes()).expect("Should be parseable");
    assert_eq!(tree.try_into_content::<bool>().unwrap(), false);

    let xml = "<foo>1</foo>";
    let tree = parse(xml.as_bytes()).expect("Should be parseable");
    assert_eq!(tree.try_into_content::<bool>().unwrap(), true);
}

#[test]
fn get_integer_content() {
    let xml = "<foo>1234</foo>";
    let tree = parse(xml.as_bytes()).expect("Should be parseable");
    assert_eq!(tree.try_into_content::<i32>().unwrap(), 1234);
}

#[test]
fn get_string_content() {
    let xml = "<foo>bar</foo>";
    let tree = parse(xml.as_bytes()).expect("Should be parseable");
    assert_eq!(tree.try_into_content::<String>().unwrap(), "bar");
}

#[test]
fn get_integer_content_rejects_text() {
    let tree = parse("<foo>12a4</foo>".as_bytes()).unwrap();
    assert_eq!(tree.try_into_content::<i32>(), Err(Error::InvalidFormat));
}

#[test]
fn get_integer_content_respects_range() {
    let tree = parse("<foo>2147483648</foo>".as_bytes()).unwrap();
    assert_eq!(tree.try_into_content::<i32>(), Err(Error::InvalidFormat));
    let tree = parse("<foo>-2147483648</foo>".as_bytes()).unwrap();
    assert_eq!(tree.try_into_content::<i32>().unwrap(), i32::MIN);
}

#[test]
fn set_extreme_integer_content() {
    let node = Node::new("foo").with_content(i32::MIN);
    assert_eq!(node.pretty_print(0), "<foo>-2147483648</foo>");
    let node = Node::new("foo").with_content(0);
    assert_eq!(node.pretty_print(0), "<foo>0</foo>");
}

#[test]
fn parse_rejects_invalid_utf8() {
    let bytes = vec![b'<', b'a', b'/', b'>', 0xff, 0xfe];
    match parse(&bytes) {
        Err(Error::UnsupportedEncoding) => {}
        other => panic!("expected an encoding error, got {:?}", other),
    }
}

#[test]
fn parse_trims_text_content() {
    let tree = parse("<foo>  bar baz\n</foo>".as_bytes()).unwrap();
    assert_eq!(tree.content.as_str(), "bar baz");
}

#[test]
fn find_child_returns_first_match() {
    let mut node = Node::new("a");
    node.add_new_content_child("b", "one");
    node.add_new_content_child("b", "two");
    let child = node.find_child("b").unwrap();
    assert_eq!(child.content.as_str(), "one");
    assert!(node.find_child("c").is_none());
}

#[test]
fn pretty_print_indents_by_width() {
    let mut inner = Node::new("b");
    inner.add_new_child("c");
    let mut node = Node::new("a");
    node.add_child(inner);
    assert_eq!(node.pretty_print(2), "<a>\n  <b>\n    <c/>\n  </b>\n</a>");
}

#[test]
fn boinc_request_tree_has_the_request_tag() {
    let tree = joinc::xml::boinc_request_tree();
    assert_eq!(tree.tag, "boinc_gui_rpc_request");
    assert!(tree.children.is_empty());
}
