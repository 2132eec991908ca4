use std::str::FromStr;

use balatui::rope::{BadPath, Directions, Rope, RopeNode};

fn leaves_in_order(node: &RopeNode, out: &mut Vec<String>) {
    if let Some(content) = &node.content {
        out.push(content.clone());
    }
    if let Some(left) = &node.left_node {
        leaves_in_order(left, out);
    }
    if let Some(right) = &node.right_node {
        leaves_in_order(right, out);
    }
}

fn leaves_of(rope: &Rope) -> Vec<String> {
    let mut out = Vec::new();
    if let Some(head) = &rope.head {
        leaves_in_order(head, &mut out);
    }
    out
}

#[test]
//   o
//  / \
// o   o
fn basic_creation() {
    let rope = Rope::string_to_rope(String::from_str("Hello World!").unwrap(), 12);
    assert_eq!(
        rope.head.as_ref().unwrap().content.as_ref().unwrap(),
        "Hello World!"
    );
}

#[test]
fn three_nodes_rope() {
    let rope = Rope::string_to_rope(String::from_str("Hello World!").unwrap(), 6);
    assert_eq!(rope.head.as_ref().unwrap().content, None);
    assert_eq!(
        rope.head
            .as_ref()
            .unwrap()
            .left_node
            .as_ref()
            .unwrap()
            .content
            .as_ref()
            .unwrap(),
        "Hello "
    );
    assert_eq!(
        rope.head
            .as_ref()
            .unwrap()
            .right_node
            .as_ref()
            .unwrap()
            .content
            .as_ref()
            .unwrap(),
        "World!"
    );
}

#[test]
//      o
//    _/ \_
//   o     o
//  / \   /
// o   o o
fn six_nodes_rope() {
    let rope = Rope::string_to_rope(String::from_str("Hello World!").unwrap(), 4);
    assert_eq!(
        rope.head
            .as_ref()
            .unwrap()
            .right_node
            .as_ref()
            .unwrap()
            .left_node
            .as_ref()
            .unwrap()
            .content
            .as_ref()
            .unwrap(),
        "rld!"
    );
    assert_eq!(
        rope.head
            .as_ref()
            .unwrap()
            .left_node
            .as_ref()
            .unwrap()
            .right_node
            .as_ref()
            .unwrap()
            .content
            .as_ref()
            .unwrap(),
        "o Wo"
    );
    assert_eq!(
        rope.head
            .as_ref()
            .unwrap()
            .left_node
            .as_ref()
            .unwrap()
            .left_node
            .as_ref()
            .unwrap()
            .content
            .as_ref()
            .unwrap(),
        "Hell"
    );
}

#[test]
//      o
//    _/ \_
//   o     o
//  / \   / \
// o   o o   o
fn seven_nodes_rope() {
    let rope = Rope::string_to_rope(String::from_str("Hello World!").unwrap(), 3);
    assert_eq!(
        rope.head
            .as_ref()
            .unwrap()
            .right_node
            .as_ref()
            .unwrap()
            .right_node
            .as_ref()
            .unwrap()
            .content
            .as_ref()
            .unwrap(),
        "ld!"
    );
    assert_eq!(
        rope.head
            .as_ref()
            .unwrap()
            .right_node
            .as_ref()
            .unwrap()
            .left_node
            .as_ref()
            .unwrap()
            .content
            .as_ref()
            .unwrap(),
        "Wor"
    );
    assert_eq!(
        rope.head
            .as_ref()
            .unwrap()
            .left_node
            .as_ref()
            .unwrap()
            .right_node
            .as_ref()
            .unwrap()
            .content
            .as_ref()
            .unwrap(),
        "lo "
    );
    assert_eq!(
        rope.head
            .as_ref()
            .unwrap()
            .left_node
            .as_ref()
            .unwrap()
            .left_node
            .as_ref()
            .unwrap()
            .content
            .as_ref()
            .unwrap(),
        "Hel"
    );
}

#[test]
//         ____o____
//        /         \
//      o            o
//    _/ \_        _/
//   o     o      o
//  / \   / \    /
// o   o o   o  o
fn eleven_nodes_rope() {
    let rope = Rope::string_to_rope(String::from_str("HelloWorld").unwrap(), 2);
    assert_eq!(
        rope.head
            .as_ref()
            .unwrap()
            .right_node
            .as_ref()
            .unwrap()
            .left_node
            .as_ref()
            .unwrap()
            .left_node
            .as_ref()
            .unwrap()
            .content
            .as_ref()
            .unwrap(),
        "ld"
    );
    assert_eq!(
        rope.head
            .as_ref()
            .unwrap()
            .left_node
            .as_ref()
            .unwrap()
            .right_node
            .as_ref()
            .unwrap()
            .right_node
            .as_ref()
            .unwrap()
            .content
            .as_ref()
            .unwrap(),
        "or"
    );
    assert_eq!(
        rope.head
            .as_ref()
            .unwrap()
            .left_node
            .as_ref()
            .unwrap()
            .right_node
            .as_ref()
            .unwrap()
            .left_node
            .as_ref()
            .unwrap()
            .content
            .as_ref()
            .unwrap(),
        "oW"
    );
    assert_eq!(
        rope.head
            .as_ref()
            .unwrap()
            .left_node
            .as_ref()
            .unwrap()
            .left_node
            .as_ref()
            .unwrap()
            .right_node
            .as_ref()
            .unwrap()
            .content
            .as_ref()
            .unwrap(),
        "ll"
    );
    assert_eq!(
        rope.head
            .as_ref()
            .unwrap()
            .left_node
            .as_ref()
            .unwrap()
            .left_node
            .as_ref()
            .unwrap()
            .left_node
            .as_ref()
            .unwrap()
            .content
            .as_ref()
            .unwrap(),
        "He"
    );
}

#[test]
fn basic_weight() {
    let rope = Rope::string_to_rope(String::from_str("Hello World!").unwrap(), 12);
    assert_eq!(rope.head.as_ref().unwrap().weight, 12);
}

#[test]
fn right_weight() {
    let rope = Rope::string_to_rope(String::from_str("Hello World!").unwrap(), 6);
    assert_eq!(rope.head.as_ref().unwrap().right_weight, 6);
    assert_eq!(
        rope.head
            .as_ref()
            .unwrap()
            .right_node
            .as_ref()
            .unwrap()
            .weight,
        6
    );
}

#[test]
fn complex_weight() {
    let rope = Rope::string_to_rope(String::from_str("HelloWorld").unwrap(), 2);
    assert_eq!(
        rope.head
            .as_ref()
            .unwrap()
            .left_node
            .as_ref()
            .unwrap()
            .right_weight,
        4
    );

    assert_eq!(rope.head.as_ref().unwrap().right_weight, 2);

    assert_eq!(rope.head.as_ref().unwrap().weight, 8);
}

#[test]
fn search() {
    let rope = Rope::string_to_rope(String::from_str("HelloWorld").unwrap(), 2);
    let ret = rope.search(3);
    assert_eq!(ret.unwrap().0, "ll");
    assert_eq!(ret.unwrap().1, 2);
}

#[test]
fn leaves_in_order_for_each_leaf_size() {
    let text = "Hello World!";
    assert_eq!(leaves_of(&Rope::string_to_rope(text.to_string(), 12)), vec!["Hello World!"]);
    assert_eq!(leaves_of(&Rope::string_to_rope(text.to_string(), 6)), vec!["Hello ", "World!"]);
    assert_eq!(leaves_of(&Rope::string_to_rope(text.to_string(), 4)), vec!["Hell", "o Wo", "rld!"]);
    assert_eq!(
        leaves_of(&Rope::string_to_rope(text.to_string(), 3)),
        vec!["Hel", "lo ", "Wor", "ld!"]
    );
    assert_eq!(
        leaves_of(&Rope::string_to_rope("HelloWorld".to_string(), 2)),
        vec!["He", "ll", "oW", "or", "ld"]
    );
}

#[test]
fn round_trip_joins_back_to_the_input() {
    let text = "The quick brown fox jumps over the lazy dog";
    for size in 1u8..=50 {
        let rope = Rope::string_to_rope(text.to_string(), size);
        assert_eq!(leaves_of(&rope).concat(), text);
        let head = rope.head.as_ref().unwrap();
        assert_eq!((head.weight + head.right_weight) as usize, text.len());
    }
}

#[test]
fn empty_input_gives_an_empty_rope() {
    let rope = Rope::string_to_rope(String::new(), 4);
    assert!(rope.head.is_none());
    assert!(rope.path_to_last.is_empty());
    assert!(rope.search(0).is_none());
}

#[test]
fn search_past_the_end_finds_nothing() {
    let rope = Rope::string_to_rope("HelloWorld".to_string(), 2);
    assert!(rope.search(10).is_none());
    assert!(rope.search(11).is_none());
    assert!(rope.search(u32::MAX).is_none());
    let ret = rope.search(9).unwrap();
    assert_eq!(ret.0, "ld");
    assert_eq!(ret.1, 2);
    let ret = rope.search(0).unwrap();
    assert_eq!(ret.0, "He");
    assert_eq!(ret.1, 1);
}

#[test]
fn search_finds_every_byte() {
    let text = "Hello World, hello rope!";
    for size in 1u8..=9 {
        let rope = Rope::string_to_rope(text.to_string(), size);
        for i in 0..text.len() {
            let (leaf, offset) = rope.search(i as u32).unwrap();
            assert!(offset >= 1);
            assert_eq!(leaf.as_bytes()[offset as usize - 1], text.as_bytes()[i]);
        }
        assert!(rope.search(text.len() as u32).is_none());
    }
}

#[test]
fn append_keeps_weights_and_path() {
    let mut rope = Rope::string_to_rope("Hello".to_string(), 5);
    rope.elongate_rope(" World".to_string());
    rope.elongate_rope("!".to_string());
    assert_eq!(leaves_of(&rope), vec!["Hello", " World", "!"]);
    let head = rope.head.as_ref().unwrap();
    assert_eq!(head.weight, 11);
    assert_eq!(head.right_weight, 1);
    assert_eq!(head.layer, 2);
    assert_eq!(rope.path_to_last, vec![Directions::RIGHT, Directions::LEFT]);
    let ret = rope.search(11).unwrap();
    assert_eq!(ret.0, "!");
    assert_eq!(ret.1, 1);
}

#[test]
fn append_to_an_empty_rope_makes_one_leaf() {
    let mut rope = Rope::string_to_rope(String::new(), 3);
    rope.elongate_rope("abc".to_string());
    let head = rope.head.as_ref().unwrap();
    assert_eq!(head.content.as_deref(), Some("abc"));
    assert_eq!(head.weight, 3);
    assert_eq!(head.layer, 0);
    assert!(rope.path_to_last.is_empty());
}

#[test]
fn empty_segments_are_leaves_that_search_skips() {
    let mut rope = Rope::string_to_rope("ab".to_string(), 2);
    rope.elongate_rope(String::new());
    rope.elongate_rope("cd".to_string());
    assert_eq!(leaves_of(&rope), vec!["ab", "", "cd"]);
    let ret = rope.search(2).unwrap();
    assert_eq!(ret.0, "cd");
    assert_eq!(ret.1, 1);
    assert!(rope.search(4).is_none());
}

#[test]
fn lengths_count_bytes() {
    let rope = Rope::string_to_rope("h\u{e9}llo".to_string(), 3);
    assert_eq!(leaves_of(&rope), vec!["h\u{e9}", "llo"]);
    let head = rope.head.as_ref().unwrap();
    assert_eq!(head.weight, 3);
    assert_eq!(head.right_weight, 3);
    let ret = rope.search(2).unwrap();
    assert_eq!(ret.0, "h\u{e9}");
    assert_eq!(ret.1, 3);
}

#[test]
fn node_builders_set_their_fields() {
    let mut node = RopeNode::new_empty(4, 2, 1);
    assert_eq!((node.weight, node.right_weight, node.layer), (4, 2, 1));
    assert!(node.content.is_none() && node.left_node.is_none() && node.right_node.is_none());
    node.assign_left_node(Box::new(RopeNode::new_with_content("abcd".to_string())));
    node.assign_right_node(Box::new(RopeNode::new_with_content("ef".to_string())));
    assert_eq!(node.left_node.as_ref().unwrap().weight, 4);
    assert_eq!(node.right_node.as_ref().unwrap().weight, 2);
    node.empty_left_node();
    node.empty_right_node();
    assert!(node.left_node.is_none() && node.right_node.is_none());
    node.fill_content("x".to_string());
    assert_eq!(node.content.as_deref(), Some("x"));
    node.empty_content();
    assert!(node.content.is_none());
    let leaf = RopeNode::new_with_content("h\u{e9}".to_string());
    assert_eq!((leaf.weight, leaf.right_weight, leaf.layer), (3, 0, 0));
}

#[test]
fn assing_head_replaces_the_root() {
    let mut rope = Rope::string_to_rope("abc".to_string(), 3);
    rope.assing_head(Box::new(RopeNode::new_with_content("xyz".to_string())));
    assert_eq!(rope.head.as_ref().unwrap().content.as_deref(), Some("xyz"));
    assert_eq!(rope.search(1).unwrap().0, "xyz");
}

#[test]
fn names_of_steps_and_errors() {
    assert_eq!(Directions::RIGHT.name(), "RIGHT");
    assert_eq!(Directions::LEFT.name(), "LEFT");
    assert_eq!(BadPath.message(), "The path given cannot be followed");
}

#[test]
fn cuts_inside_a_character_are_found() {
    assert!(Rope::cuts_fall_on_chars("Hello World!", 1));
    assert!(Rope::cuts_fall_on_chars("h\u{e9}llo", 3));
    assert!(!Rope::cuts_fall_on_chars("h\u{e9}llo", 2));
    assert!(!Rope::cuts_fall_on_chars("\u{e9}", 1));
    assert!(Rope::cuts_fall_on_chars("\u{e9}", 2));
}

#[test]
fn append_below_the_last_left_turn_keeps_the_height() {
    let mut rope = Rope::string_to_rope("abc".to_string(), 1);
    assert_eq!(rope.path_to_last, vec![Directions::RIGHT, Directions::LEFT]);
    assert_eq!(rope.head.as_ref().unwrap().layer, 2);
    rope.elongate_rope("de".to_string());
    assert_eq!(rope.path_to_last, vec![Directions::RIGHT, Directions::RIGHT]);
    let head = rope.head.as_ref().unwrap();
    assert_eq!(head.layer, 2);
    assert_eq!((head.weight, head.right_weight), (2, 3));
    let right = head.right_node.as_ref().unwrap();
    assert_eq!((right.weight, right.right_weight), (1, 2));
    assert_eq!(right.left_node.as_ref().unwrap().content.as_deref(), Some("c"));
    assert_eq!(right.right_node.as_ref().unwrap().content.as_deref(), Some("de"));
    assert_eq!(leaves_of(&rope), vec!["a", "b", "c", "de"]);
    rope.elongate_rope("f".to_string());
    let head = rope.head.as_ref().unwrap();
    assert_eq!(head.layer, 3);
    assert_eq!((head.weight, head.right_weight), (5, 1));
    assert_eq!(
        rope.path_to_last,
        vec![Directions::RIGHT, Directions::LEFT, Directions::LEFT]
    );
}

#[test]
fn height_follows_the_number_of_leaves() {
    for n in 1usize..=40 {
        let text = "x".repeat(n);
        let rope = Rope::string_to_rope(text, 1);
        let height = rope.head.as_ref().unwrap().layer;
        let mut expected = 0u32;
        while (1usize << expected) < n {
            expected += 1;
        }
        assert_eq!(height, expected);
        let mut value = 0usize;
        for d in &rope.path_to_last {
            value = value * 2 + if *d == Directions::RIGHT { 1 } else { 0 };
        }
        assert_eq!(value, n - 1);
        assert_eq!(rope.path_to_last.len(), height as usize);
    }
}
