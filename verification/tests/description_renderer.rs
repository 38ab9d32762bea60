use googletest::internal::description_renderer::{Block, Decoration, Fragment, List};

fn list(blocks: Vec<Block>) -> List {
    List(blocks, Decoration::Undecorated)
}

fn b(text: &str) -> Block {
    Block::from_text(text)
}

fn chars(text: &str) -> Vec<char> {
    text.chars().collect()
}

fn text(v: &[char]) -> String {
    v.iter().collect()
}

#[test]
fn renders_fragment() {
    let fragment = Fragment(chars("A fragment"));
    let mut result: Vec<char> = Vec::new();

    fragment.render(&mut result);

    assert_eq!(text(&result), "A fragment");
}

#[test]
fn renders_empty_block() {
    let block = Block::Literal(vec![]);
    let mut result: Vec<char> = Vec::new();

    block.render(&mut result, 0, &chars(""));

    assert_eq!(text(&result), "");
}

#[test]
fn renders_block_with_one_fragment() {
    let block = b("A fragment");
    let mut result: Vec<char> = Vec::new();

    block.render(&mut result, 0, &chars(""));

    assert_eq!(text(&result), "A fragment");
}

#[test]
fn renders_block_with_two_fragments() {
    let block = b("A fragment\nAnother fragment");
    let mut result: Vec<char> = Vec::new();

    block.render(&mut result, 0, &chars(""));

    assert_eq!(text(&result), "A fragment\nAnother fragment");
}

#[test]
fn renders_indented_block() {
    let block = b("A fragment\nAnother fragment");
    let mut result: Vec<char> = Vec::new();

    block.render(&mut result, 2, &chars(""));

    assert_eq!(text(&result), "  A fragment\n  Another fragment");
}

#[test]
fn renders_block_with_prefix() {
    let block = b("A fragment\nAnother fragment");
    let mut result: Vec<char> = Vec::new();

    block.render(&mut result, 0, &chars("* "));

    assert_eq!(text(&result), "* A fragment\n  Another fragment");
}

#[test]
fn renders_indented_block_with_prefix() {
    let block = b("A fragment\nAnother fragment");
    let mut result: Vec<char> = Vec::new();

    block.render(&mut result, 2, &chars("* "));

    assert_eq!(text(&result), "  * A fragment\n    Another fragment");
}

#[test]
fn renders_empty_list() {
    let list = list(vec![]);
    let mut result: Vec<char> = Vec::new();

    list.render(&mut result, 0);

    assert_eq!(text(&result), "");
}

#[test]
fn renders_plain_list_with_one_block() {
    let list = list(vec![b("A fragment")]);
    let mut result: Vec<char> = Vec::new();

    list.render(&mut result, 0);

    assert_eq!(text(&result), "A fragment");
}

#[test]
fn renders_plain_list_with_two_blocks() {
    let list = list(vec![b("A fragment"), b("A fragment in a second block")]);
    let mut result: Vec<char> = Vec::new();

    list.render(&mut result, 0);

    assert_eq!(text(&result), "A fragment\nA fragment in a second block");
}

#[test]
fn renders_plain_list_with_one_block_with_two_fragments() {
    let list = list(vec![b("A fragment\nA second fragment")]);
    let mut result: Vec<char> = Vec::new();

    list.render(&mut result, 0);

    assert_eq!(text(&result), "A fragment\nA second fragment");
}

#[test]
fn renders_nested_plain_list_with_one_block() {
    let list = list(vec![Block::nested(list(vec![b("A fragment")]))]);
    let mut result: Vec<char> = Vec::new();

    list.render(&mut result, 0);

    assert_eq!(text(&result), "  A fragment");
}

#[test]
fn renders_nested_plain_list_with_two_blocks() {
    let list = list(vec![Block::nested(list(vec![
        b("A fragment"),
        b("A fragment in a second block"),
    ]))]);
    let mut result: Vec<char> = Vec::new();

    list.render(&mut result, 0);

    assert_eq!(text(&result), "  A fragment\n  A fragment in a second block");
}

#[test]
fn renders_nested_plain_list_with_one_block_with_two_fragments() {
    let list = list(vec![Block::nested(list(vec![b("A fragment\nA second fragment")]))]);
    let mut result: Vec<char> = Vec::new();

    list.render(&mut result, 0);

    assert_eq!(text(&result), "  A fragment\n  A second fragment");
}

#[test]
fn renders_bulleted_list_with_one_block() {
    let list = list(vec![b("A fragment")]).bullet_list();
    let mut result: Vec<char> = Vec::new();

    list.render(&mut result, 0);

    assert_eq!(text(&result), "* A fragment");
}

#[test]
fn renders_bulleted_list_with_two_blocks() {
    let list =
        list(vec![b("A fragment"), b("A fragment in a second block")]).bullet_list();
    let mut result: Vec<char> = Vec::new();

    list.render(&mut result, 0);

    assert_eq!(text(&result), "* A fragment\n* A fragment in a second block");
}

#[test]
fn renders_bulleted_list_with_one_block_with_two_fragments() {
    let list = list(vec![b("A fragment\nA second fragment")]).bullet_list();
    let mut result: Vec<char> = Vec::new();

    list.render(&mut result, 0);

    assert_eq!(text(&result), "* A fragment\n  A second fragment");
}

#[test]
fn renders_nested_bulleted_list_with_one_block() {
    let list = list(vec![Block::nested(list(vec![b("A fragment")]).bullet_list())]);
    let mut result: Vec<char> = Vec::new();

    list.render(&mut result, 0);

    assert_eq!(text(&result), "  * A fragment");
}

#[test]
fn renders_nested_bulleted_list_with_two_blocks() {
    let list = list(vec![Block::nested(
        list(vec![b("A fragment"), b("A fragment in a second block")]).bullet_list(),
    )]);
    let mut result: Vec<char> = Vec::new();

    list.render(&mut result, 0);

    assert_eq!(text(&result), "  * A fragment\n  * A fragment in a second block");
}

#[test]
fn renders_nested_bulleted_list_with_one_block_with_two_fragments() {
    let list = list(vec![Block::nested(
        list(vec![b("A fragment\nA second fragment")]).bullet_list(),
    )]);
    let mut result: Vec<char> = Vec::new();

    list.render(&mut result, 0);

    assert_eq!(text(&result), "  * A fragment\n    A second fragment");
}

#[test]
fn renders_enumerated_list_with_one_block() {
    let list = list(vec![b("A fragment")]).enumerate();
    let mut result: Vec<char> = Vec::new();

    list.render(&mut result, 0);

    assert_eq!(text(&result), "0. A fragment");
}

#[test]
fn renders_enumerated_list_with_two_blocks() {
    let list =
        list(vec![b("A fragment"), b("A fragment in a second block")]).enumerate();
    let mut result: Vec<char> = Vec::new();

    list.render(&mut result, 0);

    assert_eq!(text(&result), "0. A fragment\n1. A fragment in a second block");
}

#[test]
fn renders_enumerated_list_with_one_block_with_two_fragments() {
    let list = list(vec![b("A fragment\nA second fragment")]).enumerate();
    let mut result: Vec<char> = Vec::new();

    list.render(&mut result, 0);

    assert_eq!(text(&result), "0. A fragment\n   A second fragment");
}

#[test]
fn aligns_renders_enumerated_list_with_more_than_ten_blocks() {
    let list =
        list((0..11).map(|i| b(&format!("Fragment {i}"))).collect()).enumerate();
    let mut result: Vec<char> = Vec::new();

    list.render(&mut result, 0);

    assert_eq!(
        text(&result),
        " 0. Fragment 0\n 1. Fragment 1\n 2. Fragment 2\n 3. Fragment 3\n 4. Fragment 4\n 5. Fragment 5\n 6. Fragment 6\n 7. Fragment 7\n 8. Fragment 8\n 9. Fragment 9\n10. Fragment 10"
    );
}

#[test]
fn renders_fragment_plus_nested_plain_list_with_one_block() {
    let list =
        list(vec![b("A fragment"), Block::nested(list(vec![b("Another fragment")]))]);
    let mut result: Vec<char> = Vec::new();

    list.render(&mut result, 0);

    assert_eq!(text(&result), "A fragment\n  Another fragment");
}

#[test]
fn renders_double_nested_plain_list_with_one_block() {
    let list =
        list(vec![Block::nested(list(vec![Block::nested(list(vec![b("A fragment")]))]))]);
    let mut result: Vec<char> = Vec::new();

    list.render(&mut result, 0);

    assert_eq!(text(&result), "    A fragment");
}

#[test]
fn renders_headers_plus_double_nested_plain_list() {
    let list = list(vec![
        b("First header"),
        Block::nested(list(vec![
            b("Second header"),
            Block::nested(list(vec![b("A fragment")])),
        ])),
    ]);
    let mut result: Vec<char> = Vec::new();

    list.render(&mut result, 0);

    assert_eq!(text(&result), "First header\n  Second header\n    A fragment");
}

#[test]
fn renders_double_nested_bulleted_list() {
    let list =
        list(vec![Block::nested(list(vec![b("A fragment")]).bullet_list())]).bullet_list();
    let mut result: Vec<char> = Vec::new();

    list.render(&mut result, 0);

    assert_eq!(text(&result), "* * A fragment");
}

#[test]
fn renders_nested_enumeration_with_two_blocks_inside_bulleted_list() {
    let list =
        list(vec![Block::nested(list(vec![b("Block 1"), b("Block 2")]).enumerate())])
            .bullet_list();
    let mut result: Vec<char> = Vec::new();

    list.render(&mut result, 0);

    assert_eq!(text(&result), "* 0. Block 1\n  1. Block 2");
}

#[test]
fn renders_nested_enumeration_with_block_with_two_fragments_inside_bulleted_list() {
    let list = list(vec![Block::nested(
        list(vec![b("A fragment\nAnother fragment")]).enumerate(),
    )])
    .bullet_list();
    let mut result: Vec<char> = Vec::new();

    list.render(&mut result, 0);

    assert_eq!(text(&result), "* 0. A fragment\n     Another fragment");
}

#[test]
fn renders_list_built_by_pushing_literals_and_nested_lists() {
    let mut outer = List::empty();
    outer.push_literal(&chars("Header"));
    let mut inner = List::empty();
    inner.push_literal(&chars("First\nSecond"));
    outer.push_nested(inner.bullet_list());
    let mut result: Vec<char> = Vec::new();

    outer.render(&mut result, 1);

    assert_eq!(text(&result), " Header\n   * First\n     Second");
    assert_eq!(outer.len(), 2);
    assert!(!outer.is_empty());
}
