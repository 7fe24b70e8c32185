use tx_filter::parse::{address, bytes};
use tx_filter::{FilterError, Node, Operator};

fn kids(node: &Node) -> usize {
    node.nodes.as_ref().map_or(0, |v| v.len())
}

#[test]
fn operator_codes() {
    assert_eq!(Operator::AND.code(), 1);
    assert_eq!(Operator::OR.code(), 2);
}

#[test]
fn condition_is_a_leaf() {
    let node = Node::condition("to", vec![1, 2, 3]);
    assert!(node.is_condition());
    assert_eq!(node.operand.as_ref().unwrap().key, "to");
    assert_eq!(node.operand.as_ref().unwrap().value, vec![1, 2, 3]);
    assert!(node.operator.is_none());
    assert!(node.nodes.is_none());
}

#[test]
fn condition_may_hold_no_bytes() {
    let node = Node::condition("value", Vec::new());
    assert!(node.is_condition());
    assert!(node.operand.as_ref().unwrap().value.is_empty());
}

#[test]
fn group_starts_empty() {
    let node = Node::group(Operator::OR);
    assert!(!node.is_condition());
    assert!(node.operand.is_none());
    assert_eq!(node.operator, Some(Operator::OR));
    assert!(node.nodes.is_none());
}

#[test]
fn attach_appends_in_order() {
    let mut root = Node::group(Operator::AND);
    assert_eq!(root.attach(&[], Node::condition("to", vec![1])), Ok(0));
    assert_eq!(root.attach(&[], Node::group(Operator::OR)), Ok(1));
    assert_eq!(root.attach(&[], Node::condition("from", vec![2])), Ok(2));
    assert_eq!(root.attach(&[1], Node::condition("method", vec![3])), Ok(0));
    assert_eq!(root.attach(&[1], Node::group(Operator::AND)), Ok(1));
    assert_eq!(root.attach(&[1, 1], Node::condition("value", vec![4])), Ok(0));
    assert_eq!(kids(&root), 3);
    let nodes = root.nodes.as_ref().unwrap();
    assert_eq!(nodes[0].operand.as_ref().unwrap().key, "to");
    assert_eq!(nodes[2].operand.as_ref().unwrap().key, "from");
    assert_eq!(kids(&nodes[1]), 2);
    let inner = nodes[1].nodes.as_ref().unwrap();
    assert_eq!(inner[0].operand.as_ref().unwrap().value, vec![3]);
    assert_eq!(inner[1].operator, Some(Operator::AND));
    assert_eq!(inner[1].nodes.as_ref().unwrap()[0].operand.as_ref().unwrap().value, vec![4]);
}

#[test]
fn attach_under_a_condition_is_refused() {
    let mut leaf = Node::condition("to", vec![1]);
    assert_eq!(
        leaf.attach(&[], Node::condition("from", vec![2])),
        Err(FilterError::InvalidAttachment)
    );
    assert!(leaf.is_condition());
    assert!(leaf.nodes.is_none());

    let mut root = Node::group(Operator::AND);
    root.attach(&[], Node::condition("to", vec![1])).unwrap();
    let before = format!("{:?}", root);
    assert_eq!(
        root.attach(&[0], Node::group(Operator::OR)),
        Err(FilterError::InvalidAttachment)
    );
    assert_eq!(format!("{:?}", root), before);
}

#[test]
fn attach_off_the_tree_is_refused() {
    let mut root = Node::group(Operator::AND);
    assert_eq!(
        root.attach(&[0], Node::group(Operator::OR)),
        Err(FilterError::InvalidAttachment)
    );
    root.attach(&[], Node::group(Operator::OR)).unwrap();
    let before = format!("{:?}", root);
    assert_eq!(
        root.attach(&[1], Node::group(Operator::OR)),
        Err(FilterError::InvalidAttachment)
    );
    assert_eq!(
        root.attach(&[0, 0], Node::group(Operator::OR)),
        Err(FilterError::InvalidAttachment)
    );
    assert_eq!(format!("{:?}", root), before);
}

#[test]
fn groups_are_found_by_path() {
    let mut root = Node::group(Operator::AND);
    root.attach(&[], Node::condition("to", vec![1])).unwrap();
    root.attach(&[], Node::group(Operator::OR)).unwrap();
    assert!(root.has_group_at(&[]));
    assert!(!root.has_group_at(&[0]));
    assert!(root.has_group_at(&[1]));
    assert!(!root.has_group_at(&[2]));
    assert!(!root.has_group_at(&[1, 0]));
    assert!(!Node::condition("to", vec![1]).has_group_at(&[]));
}

#[test]
fn copy_of_a_node_is_its_own() {
    let mut root = Node::group(Operator::AND);
    root.attach(&[], Node::group(Operator::OR)).unwrap();
    root.attach(&[0], Node::condition("value", vec![9])).unwrap();
    let mut copy = root.clone();
    assert_eq!(format!("{:?}", copy), format!("{:?}", root));
    let before = format!("{:?}", root);
    copy.attach(&[0], Node::condition("value", vec![8])).unwrap();
    assert_eq!(format!("{:?}", root), before);
    assert_eq!(kids(&copy.nodes.as_ref().unwrap()[0]), 2);
}

#[test]
fn address_has_twenty_bytes() {
    let bytes = address("0x7a250d5630B4cF539739dF2C5dAcb4c659F2488D").unwrap();
    assert_eq!(bytes.len(), 20);
    assert_eq!(bytes[..3], [0x7a, 0x25, 0x0d]);
    assert_eq!(bytes[17..], [0xf2, 0x48, 0x8d]);
    assert_eq!(address("0x0000000000000000000000000000000000000000").unwrap(), vec![0u8; 20]);
}

#[test]
fn address_that_is_none() {
    assert_eq!(address("not-an-address"), Err(FilterError::AddressParseError));
    assert_eq!(address(""), Err(FilterError::AddressParseError));
    assert_eq!(address("0x"), Err(FilterError::AddressParseError));
    assert_eq!(
        address("0x7a250d5630B4cF539739dF2C5dAcb4c659F248"),
        Err(FilterError::AddressParseError)
    );
    assert_eq!(
        address("0x7a250d5630B4cF539739dF2C5dAcb4c659F2488D00"),
        Err(FilterError::AddressParseError)
    );
    assert_eq!(
        address("0x7a250d5630B4cF539739dF2C5dAcb4c659F2488g"),
        Err(FilterError::AddressParseError)
    );
}

#[test]
fn bytes_from_hexadecimal() {
    assert_eq!(bytes("0xa9059cbb"), Ok(vec![0xa9, 0x05, 0x9c, 0xbb]));
    assert_eq!(bytes("A9059CBB"), Ok(vec![0xa9, 0x05, 0x9c, 0xbb]));
    assert_eq!(bytes(""), Ok(Vec::new()));
    assert_eq!(bytes("0x00"), Ok(vec![0]));
}

#[test]
fn bytes_that_are_none() {
    assert_eq!(bytes("0xa9059cb"), Err(FilterError::HexParseError));
    assert_eq!(bytes("xyz"), Err(FilterError::HexParseError));
    assert_eq!(bytes("0xgg"), Err(FilterError::HexParseError));
}

#[test]
fn wire_text_is_base64() {
    assert_eq!(tx_filter::base64::serialize(&Vec::new()), "");
    assert_eq!(tx_filter::base64::serialize(&vec![0x27, 0x10]), "JxA=");
    assert_eq!(tx_filter::base64::serialize(&b"hello world".to_vec()), "aGVsbG8gd29ybGQ=");
    assert_eq!(tx_filter::base64::serialize(&vec![0xfb, 0xff, 0xbf]), "+/+/");
    assert_eq!(tx_filter::base64::serialize(&vec![0xff]), "/w==");
}
