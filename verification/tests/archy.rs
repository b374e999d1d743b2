use cb2_core::archy::{archy, ArchyOpts, Node};

#[test]
fn single_node() {
    let node = Node::new("Hello", vec![]);
    let opts = ArchyOpts::new().unicode(false);
    assert_eq!("Hello\n", archy(&node, "", &opts));
}

#[test]
fn multi_node() {
    let node = Node::new("first", vec![
        Node::new("second", vec![]),
        Node::new("third", vec![]),
    ]);
    let opts = ArchyOpts::new();
    assert_eq!("first
├── second
└── third\n", archy(&node, "", &opts));
}

#[test]
fn multi_level() {
    let node = Node::new("first", vec![
        Node::new("second", vec![
            Node::new("third", vec![]),
        ]),
    ]);
    let opts = ArchyOpts::new();
    assert_eq!("first
└─┬ second
  └── third\n", archy(&node, "", &opts));
}

#[test]
fn multi_line_label() {
    let node = Node::new("first", vec![
        Node::new("second", vec![
            Node::new("third\nwith\nmultiple\nlines", vec![]),
            Node::new("forth", vec![]),
        ]),
    ]);
    let opts = ArchyOpts::new();
    println!("{}", archy(&node, "", &opts));
    assert_eq!("first
└─┬ second
  ├── third
  │   with
  │   multiple
  │   lines
  └── forth\n", archy(&node, "", &opts));
}

#[test]
fn ascii_mode_draws_plain_connectors() {
    let node = Node::new("first", vec![
        Node::new("second", vec![
            Node::new("third\nwith lines", vec![]),
            Node::new("forth", vec![]),
        ]),
        Node::new("fifth", vec![]),
    ]);
    let opts = ArchyOpts::new().unicode(false);
    assert_eq!(
        "first\n+-- second\n| +-- third\n| |   with lines\n| `-- forth\n`-- fifth\n",
        archy(&node, "", &opts)
    );
}

#[test]
fn prefix_starts_every_line() {
    let node = Node::new("root\nnote", vec![Node::new("leaf", vec![])]);
    let opts = ArchyOpts::new().unicode(false);
    let out = archy(&node, "> ", &opts);
    assert_eq!("> root\n> | note\n> `-- leaf\n", out);
    for line in out.lines() {
        assert!(line.starts_with("> "));
    }
}

#[test]
fn label_line_endings() {
    // "\r\n" ends a line like "\n"; a final line ending adds no empty line.
    let node = Node::new("a\r\nb\n", vec![]);
    let opts = ArchyOpts::new();
    assert_eq!("a\n  b\n", archy(&node, "", &opts));
    // An empty label still gives one (empty) line.
    let empty = Node::new("", vec![]);
    assert_eq!("\n", archy(&empty, "", &opts));
}

#[test]
fn label_lines_agree_with_str_lines() {
    let opts = ArchyOpts::new().unicode(false);
    for label in ["foo\nbar\n\r\nbaz\r", "\n\n", "a\r\r\nb", "x", "\r\n", "one\ntwo\n"] {
        let node = Node::new(label, vec![]);
        let expected = format!("{}\n", label.lines().collect::<Vec<&str>>().join("\n  "));
        assert_eq!(expected, archy(&node, "", &opts));
    }
}

fn sample_tree() -> Node {
    Node::new("first\nline two", vec![
        Node::new("second", vec![
            Node::new("third", vec![]),
            Node::new("forth\nmore", vec![]),
        ]),
        Node::new("fifth", vec![]),
    ])
}

#[test]
fn a_prefix_is_put_before_each_line_of_the_plain_rendering() {
    for unicode in [true, false] {
        let opts = ArchyOpts::new().unicode(unicode);
        let plain = archy(&sample_tree(), "", &opts);
        let prefixed = archy(&sample_tree(), "-> ", &opts);
        let expected: String = plain.split_terminator('\n').map(|l| format!("-> {}\n", l)).collect();
        assert_eq!(expected, prefixed);
    }
}

#[test]
fn ascii_mode_is_the_box_drawing_with_each_box_char_replaced() {
    let unicode = archy(&sample_tree(), "  ", &ArchyOpts::new());
    let ascii = archy(&sample_tree(), "  ", &ArchyOpts::new().unicode(false));
    let mapped: String = unicode
        .chars()
        .map(|c| match c {
            '\u{2502}' => '|',
            '\u{2514}' => '`',
            '\u{251C}' => '+',
            '\u{2500}' | '\u{252C}' => '-',
            c => c,
        })
        .collect();
    assert_eq!(mapped, ascii);
}
