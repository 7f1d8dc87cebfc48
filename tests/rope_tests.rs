use yate::rope::{Rope, RopeNode};

fn chars(s: &str) -> Vec<char> {
    s.chars().collect()
}

#[test]
pub fn test_index() {
    let node = RopeNode::new(String::from("a new rope node"));
    // test that a valid bound works
    assert!(node.index(0) == Some('a'));
    assert!(node.index(14) == Some('e'));

    // test that an invalid bound fails
    assert!(node.index(15) == None);
}

#[test]
pub fn test_concat() {
    let left = RopeNode::new(String::from("left"));
    let right = RopeNode::new(String::from("right"));

    let concat = RopeNode::concat(left, right);

    // test that size was updated correctly
    assert!(concat.length() == 9);
}

#[test]
fn concat_length_is_sum() {
    let a = RopeNode::new(String::from("héllo"));
    let b = RopeNode::new(String::from(" wörld!"));
    let (la, lb) = (a.length(), b.length());
    let c = RopeNode::concat(a, b);
    assert_eq!(c.length(), la + lb);
    assert_eq!(c.length(), 12);
    assert_eq!(c.materialize(), chars("héllo wörld!"));
}

#[test]
fn index_across_leaves() {
    let c = RopeNode::concat(RopeNode::new(String::from("ab")), RopeNode::new(String::from("cd")));
    assert_eq!(c.index(1), Some('b'));
    assert_eq!(c.index(2), Some('c'));
    assert_eq!(c.index(3), Some('d'));
    assert_eq!(c.index(4), None);
}

#[test]
fn split_hello_world() {
    let r = RopeNode::new(String::from("hello world"));
    assert_eq!(r.length(), 11);
    let (a, b) = r.split(5);
    assert_eq!(a.materialize(), chars("hello"));
    assert_eq!(b.materialize(), chars(" world"));
    let joined = RopeNode::concat(a, b);
    assert_eq!(joined.materialize(), chars("hello world"));
}

#[test]
fn split_at_ends_and_inside_tree() {
    let r = RopeNode::concat(RopeNode::new(String::from("hello")), RopeNode::new(String::from(" world")));
    let (a, b) = r.split(0);
    assert_eq!(a.length(), 0);
    assert_eq!(b.materialize(), chars("hello world"));
    let (a, b) = r.split(11);
    assert_eq!(a.materialize(), chars("hello world"));
    assert_eq!(b.length(), 0);
    let (a, b) = r.split(5);
    assert_eq!(a.materialize(), chars("hello"));
    assert_eq!(b.materialize(), chars(" world"));
    let (a, b) = r.split(7);
    assert_eq!(a.materialize(), chars("hello w"));
    assert_eq!(b.materialize(), chars("orld"));
}

#[test]
fn insert_into_hello_world() {
    let r = RopeNode::new(String::from("hello world"));
    let s = r.insert(5, RopeNode::new(String::from("!!!")));
    assert_eq!(s.materialize(), chars("hello!!! world"));
    assert_eq!(s.length(), 14);
    // the original is unchanged
    assert_eq!(r.materialize(), chars("hello world"));
}

#[test]
fn delete_from_hello_world() {
    let r = RopeNode::new(String::from("hello world"));
    let s = r.delete(5, 6);
    assert_eq!(s.materialize(), chars("hello"));
    assert_eq!(s.length(), 5);
    assert_eq!(r.materialize(), chars("hello world"));
}

#[test]
fn insert_then_delete_restores() {
    let r = RopeNode::concat(RopeNode::new(String::from("abc")), RopeNode::new(String::from("def")));
    let s = r.insert(4, RopeNode::new(String::from("XYZ")));
    assert_eq!(s.materialize(), chars("abcdXYZef"));
    let t = s.delete(4, 3);
    assert_eq!(t.materialize(), chars("abcdef"));
}

#[test]
fn report_and_substring() {
    let r = RopeNode::concat(RopeNode::new(String::from("hello")), RopeNode::new(String::from(" world")));
    assert_eq!(r.report(3, 5).materialize(), chars("lo wo"));
    assert_eq!(r.substring(3, 5), chars("lo wo"));
    assert_eq!(r.substring(6, 0), chars(""));
    assert_eq!(r.substring(0, 11), chars("hello world"));
}

#[test]
fn line_of_offsets() {
    let r = Rope::from_text(String::from("ab\ncd\nef"));
    for off in 0..3 {
        assert_eq!(r.line_of(off), 0);
    }
    for off in 3..6 {
        assert_eq!(r.line_of(off), 1);
    }
    for off in 6..9 {
        assert_eq!(r.line_of(off), 2);
    }
    assert_eq!(r.line_breaks(), 2);
}

#[test]
fn line_of_across_leaves() {
    let r = RopeNode::concat(RopeNode::new(String::from("ab\nc")), RopeNode::new(String::from("d\nef")));
    assert_eq!(r.line_of(2), 0);
    assert_eq!(r.line_of(5), 1);
    assert_eq!(r.line_of(6), 2);
    assert_eq!(r.line_breaks(), 2);
}

#[test]
fn offset_of_line_starts() {
    let r = Rope::from_text(String::from("ab\ncd\nef"));
    assert_eq!(r.offset_of_line(0), Some(0));
    assert_eq!(r.offset_of_line(1), Some(3));
    assert_eq!(r.offset_of_line(2), Some(6));
    assert_eq!(r.offset_of_line(3), None);
    let t = RopeNode::concat(RopeNode::new(String::from("x\ny")), RopeNode::new(String::from("z\n")));
    assert_eq!(t.offset_of_line(1), Some(2));
    assert_eq!(t.offset_of_line(2), Some(5));
    assert_eq!(t.offset_of_line(3), None);
}

#[test]
fn rope_edits_keep_old_version() {
    let r = Rope::from_text(String::from("hello world"));
    let bang = Rope::from_text(String::from("!!!"));
    let s = r.insert(5, &bang);
    assert_eq!(s.materialize(), "hello!!! world");
    assert_eq!(s.length(), 14);
    let d = s.delete(0, 6);
    assert_eq!(d.materialize(), "!! world");
    assert_eq!(r.materialize(), "hello world");
    assert_eq!(s.materialize(), "hello!!! world");
}

#[test]
fn rope_split_concat_char_at() {
    let r = Rope::from_text(String::from("hello world"));
    let (a, b) = r.split(5);
    assert_eq!(a.materialize(), "hello");
    assert_eq!(b.materialize(), " world");
    let c = Rope::concat(&a, &b);
    assert_eq!(c.materialize(), "hello world");
    assert_eq!(c.char_at(6), Some('w'));
    assert_eq!(c.char_at(11), None);
    assert_eq!(c.substring(2, 3), "llo");
}

#[test]
fn empty_rope() {
    let r = Rope::from_text(String::new());
    assert_eq!(r.length(), 0);
    assert_eq!(r.char_at(0), None);
    assert_eq!(r.line_of(0), 0);
    assert_eq!(r.offset_of_line(0), Some(0));
    assert_eq!(r.offset_of_line(1), None);
    assert_eq!(r.materialize(), "");
}

#[test]
fn rebalance_keeps_text() {
    let mut r = Rope::from_text(String::from("ab\ncd"));
    let x = Rope::from_text(String::from("x"));
    for i in 0..20 {
        r = r.insert(i % 5, &x);
    }
    let before = r.materialize();
    let b = r.rebalance();
    assert_eq!(b.materialize(), before);
    assert_eq!(b.length(), 25);
    assert_eq!(b.line_breaks(), 1);
    assert_eq!(b.line_of(b.length()), 1);
    assert_eq!(b.char_at(0), r.char_at(0));
}

#[test]
fn offset_at_clamps_to_line_end() {
    let r = Rope::from_text(String::from("ab\ncdef\n\ngh"));
    assert_eq!(r.offset_at(0, 0), Some(0));
    assert_eq!(r.offset_at(0, 1), Some(1));
    assert_eq!(r.offset_at(0, 9), Some(2));
    assert_eq!(r.offset_at(1, 3), Some(6));
    assert_eq!(r.offset_at(1, 10), Some(7));
    assert_eq!(r.offset_at(2, 4), Some(8));
    assert_eq!(r.offset_at(3, 1), Some(10));
    assert_eq!(r.offset_at(3, 5), Some(11));
    assert_eq!(r.offset_at(4, 0), None);
}
