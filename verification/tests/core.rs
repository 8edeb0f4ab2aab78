use typst_analyzer::backend::Backend;
use typst_analyzer::completion::{CmpKind, TypCmpItem};
use typst_analyzer::error::TyError;
use typst_analyzer::mapper::{to_offset, to_position, Position};
use typst_analyzer::tree::{resolve, NodeKind, TreeNode};

fn chars(s: &str) -> Vec<char> {
    s.chars().collect()
}

fn pos(line: u32, character: u32) -> Position {
    Position { line, character }
}

#[test]
fn offset_round_trip_ascii() {
    let text = chars("hello\nworld\n");
    for o in [0usize, 3, 5, 6, 9, 11, 12] {
        let p = to_position(&text, o);
        assert_eq!(to_offset(&text, p), Ok(o));
    }
}

#[test]
fn offset_round_trip_multibyte() {
    // Two-byte, three-byte and four-byte characters mixed with ASCII.
    let s = "aé\u{20AC}\u{1F600}z\nnext";
    let text = chars(s);
    let mut boundaries: Vec<usize> = Vec::new();
    let mut b = 0usize;
    for c in s.chars() {
        boundaries.push(b);
        b += c.len_utf8();
    }
    boundaries.push(b);
    for o in boundaries {
        let p = to_position(&text, o);
        assert_eq!(to_offset(&text, p), Ok(o));
    }
}

#[test]
fn to_offset_counts_utf16_units() {
    // '😀' is a supplementary-plane character: 2 UTF-16 units, 4 UTF-8 bytes.
    let text = chars("a\u{1F600}b");
    assert_eq!(to_offset(&text, pos(0, 0)), Ok(0));
    assert_eq!(to_offset(&text, pos(0, 1)), Ok(1));
    // Character 3 sits after the emoji's two units: byte 1 + 4 = 5.
    assert_eq!(to_offset(&text, pos(0, 3)), Ok(5));
    assert_eq!(to_offset(&text, pos(0, 4)), Ok(6));
}

#[test]
fn to_offset_mid_surrogate_rounds_down() {
    // Character 2 lands between the emoji's two UTF-16 units: it rounds down
    // to the character's start, byte offset 1, not an arbitrary byte.
    let text = chars("a\u{1F600}xyz");
    assert_eq!(to_offset(&text, pos(0, 2)), Ok(1));
}

#[test]
fn to_offset_clamps_long_character() {
    let text = chars("ab\ncd\n");
    // Character far beyond the line clamps to the line end (before '\n').
    assert_eq!(to_offset(&text, pos(0, 99)), Ok(2));
    assert_eq!(to_offset(&text, pos(1, 99)), Ok(5));
}

#[test]
fn to_offset_rejects_line_beyond_document() {
    let text = chars("one line");
    assert_eq!(to_offset(&text, pos(3, 0)), Err(TyError::PositionOutOfRange));
}

#[test]
fn to_position_line_and_column() {
    let text = chars("ab\nc\u{1F600}d");
    // Offset of 'd': 3 (line 1 start) + 1 + 4 = 8; column: 'c' 1 + emoji 2.
    let p = to_position(&text, 8);
    assert_eq!((p.line, p.character), (1, 3));
}

#[test]
fn store_versions_increase_and_stale_is_rejected() {
    let mut b = Backend::new();
    let uri = "file:///a.typ".to_string();
    assert!(b.open(uri.clone(), chars("one"), 1, "typst".to_string()).is_ok());
    // Same version: rejected, text unchanged.
    assert_eq!(b.apply_change(&uri, chars("two"), 1), Err(TyError::StaleVersion));
    {
        let d = b.get(&uri).unwrap();
        let text: String = d.text.iter().collect();
        assert_eq!(text, "one");
        assert_eq!(d.version, 1);
    }
    // Lower version: rejected too.
    assert_eq!(b.apply_change(&uri, chars("two"), 0), Err(TyError::StaleVersion));
    // Strictly greater: accepted.
    assert!(b.apply_change(&uri, chars("two"), 2).is_ok());
    let d = b.get(&uri).unwrap();
    let text: String = d.text.iter().collect();
    assert_eq!(text, "two");
    assert_eq!(d.version, 2);
}

#[test]
fn open_twice_fails() {
    let mut b = Backend::new();
    let uri = "file:///a.typ".to_string();
    assert!(b.open(uri.clone(), chars("x"), 1, "typst".to_string()).is_ok());
    assert_eq!(
        b.open(uri.clone(), chars("y"), 2, "typst".to_string()),
        Err(TyError::AlreadyOpen)
    );
}

#[test]
fn change_unknown_document_fails() {
    let mut b = Backend::new();
    let uri = "file:///nope.typ".to_string();
    assert_eq!(b.apply_change(&uri, chars("x"), 1), Err(TyError::UnknownDocument));
}

#[test]
fn close_then_query_fails() {
    let mut b = Backend::new();
    let uri = "file:///a.typ".to_string();
    assert!(b.open(uri.clone(), chars("= Heading\n"), 1, "typst".to_string()).is_ok());
    assert!(b.tree_for(&uri).is_ok());
    assert!(b.close(&uri).is_ok());
    assert!(matches!(b.tree_for(&uri), Err(TyError::UnknownDocument)));
    assert!(matches!(b.close(&uri), Err(TyError::UnknownDocument)));
}

fn check_tree_invariants(n: &TreeNode) {
    assert!(n.start <= n.end);
    for c in n.children.iter() {
        assert!(n.start <= c.start && c.start <= c.end && c.end <= n.end);
        check_tree_invariants(c);
    }
    for w in n.children.windows(2) {
        assert!(w[0].end <= w[1].start);
    }
}

#[test]
fn parsed_tree_spans_are_well_formed() {
    let mut b = Backend::new();
    let uri = "file:///t.typ".to_string();
    let src = "#table(\n  columns: auto,\n)\nSome *markup* and a @ref here.\n";
    assert!(b.open(uri.clone(), chars(src), 1, "typst".to_string()).is_ok());
    let tree = b.tree_for(&uri).unwrap();
    assert_eq!(tree.start, 0);
    assert_eq!(tree.end, src.len());
    check_tree_invariants(tree);
}

#[test]
fn tree_follows_latest_change() {
    let mut b = Backend::new();
    let uri = "file:///t.typ".to_string();
    assert!(b.open(uri.clone(), chars("abc"), 1, "typst".to_string()).is_ok());
    {
        let t1 = b.tree_for(&uri).unwrap();
        assert_eq!(t1.end, 3);
    }
    assert!(b.apply_change(&uri, chars("abcdefgh"), 2).is_ok());
    // The next query must see a tree parsed from the new text, never the old.
    let t2 = b.tree_for(&uri).unwrap();
    assert_eq!(t2.end, 8);
}

#[test]
fn resolve_path_never_empty() {
    let mut b = Backend::new();
    let uri = "file:///t.typ".to_string();
    let src = "hello *world*\n";
    assert!(b.open(uri.clone(), chars(src), 1, "typst".to_string()).is_ok());
    let tree = b.tree_for(&uri).unwrap();
    for o in 0..src.len() {
        let path = resolve(tree, o).unwrap();
        assert!(path.len() >= 1);
        assert_eq!(path[0].start, 0);
        assert_eq!(path[0].end, src.len());
    }
}

#[test]
fn resolve_out_of_root_span_fails() {
    let leaf = TreeNode {
        kind: NodeKind::Text,
        start: 0,
        end: 4,
        is_error: false,
        children: Vec::new(),
    };
    assert!(matches!(resolve(&leaf, 4), Err(TyError::OffsetOutOfRange)));
    assert!(matches!(resolve(&leaf, 99), Err(TyError::OffsetOutOfRange)));
    assert!(resolve(&leaf, 3).is_ok());
}

#[test]
fn definition_query_returns_placeholder() {
    let mut b = Backend::new();
    let uri = "file:///d.typ".to_string();
    let src = "See @intro for more.\n";
    assert!(b.open(uri.clone(), chars(src), 1, "typst".to_string()).is_ok());
    // Cursor inside the reference marker.
    let (path, target) = b.provide_definitions(&uri, pos(0, 6)).unwrap();
    assert!(path.len() >= 1);
    assert!(path.iter().any(|e| e.kind == NodeKind::Ref || e.kind == NodeKind::RefMarker));
    assert_eq!((target.line, target.character), (1, 4));
}

#[test]
fn definition_query_on_unknown_uri_fails() {
    let mut b = Backend::new();
    let uri = "file:///missing.typ".to_string();
    assert!(matches!(
        b.provide_definitions(&uri, pos(0, 0)),
        Err(TyError::UnknownDocument)
    ));
}

#[test]
fn completion_context_in_table_call() {
    let mut b = Backend::new();
    let uri = "file:///a.typ".to_string();
    let src = "#table(columns: auto)\n";
    assert!(b.open(uri.clone(), chars(src), 1, "typst".to_string()).is_ok());
    // Offset just after `columns: auto`, inside the call's argument list.
    let (path, _) = b.provide_definitions(&uri, pos(0, 20)).unwrap();
    assert!(path.iter().any(|e| e.kind == NodeKind::Args));
    assert!(path.iter().any(|e| e.kind == NodeKind::FuncCall));

    // The existing-parameter scan yields exactly {"columns"}.
    let existing = b.parse_table_params(&chars(src));
    assert_eq!(existing, vec!["columns".to_string()]);

    // One "add missing parameter" action per parameter not yet supplied.
    let actions = b.calculate_code_actions(&chars(src), pos(0, 20), pos(0, 20));
    let mut titles: Vec<String> = actions.iter().map(|a| a.title.clone()).collect();
    titles.sort();
    let mut expected: Vec<String> = [
        "rows", "gutter", "column-gutter", "row-gutter", "fill", "align", "stroke", "inset",
    ]
    .iter()
    .map(|p| format!("Add missing parameter: {}", p))
    .collect();
    expected.sort();
    assert_eq!(titles, expected);
}

#[test]
fn parse_table_params_patterns() {
    let b = Backend::new();
    assert_eq!(
        b.parse_table_params(&chars("#table(\n  columns: auto,\n  row-gutter : 4pt,\n)")),
        vec!["columns".to_string(), "row-gutter".to_string()]
    );
    // No colon, no parameter.
    assert_eq!(b.parse_table_params(&chars("just words here")), Vec::<String>::new());
    // A name must end with a word character before the colon.
    assert_eq!(b.parse_table_params(&chars("bad-: 1")), Vec::<String>::new());
}

#[test]
fn parse_table_params_takes_at_most_one_hyphen() {
    let b = Backend::new();
    // The pattern allows one hyphenated segment, so the leftmost match
    // inside a longer run keeps only the trailing two segments.
    assert_eq!(b.parse_table_params(&chars("a-b-c:")), vec!["b-c".to_string()]);
    assert_eq!(
        b.parse_table_params(&chars("x-row-gutter: 1")),
        vec!["row-gutter".to_string()]
    );
    // Word characters are not limited to ASCII.
    assert_eq!(b.parse_table_params(&chars("\u{e9}: 1")), vec!["\u{e9}".to_string()]);
}

#[test]
fn table_opener_inside_a_block_restarts_it() {
    let b = Backend::new();
    // The second opener moves the block's start line; edits anchor one line
    // below it.
    let src = "#table(\n#table(\n)\n";
    let actions = b.calculate_code_actions(&chars(src), pos(5, 0), pos(6, 0));
    assert_eq!(actions.len(), 9);
    assert!(actions.iter().all(|a| a.start.line == 2 && a.start.character == 2));
}

#[test]
fn table_parameters_are_the_fixed_nine() {
    let b = Backend::new();
    let all = b.get_table_parameters();
    assert_eq!(all.len(), 9);
    assert_eq!(all[0], ("columns".to_string(), "auto".to_string()));
    assert_eq!(all[3], ("column-gutter".to_string(), "auto".to_string()));
    assert_eq!(all[8], ("inset".to_string(), "relative".to_string()));
}

#[test]
fn code_action_replaces_editor_name() {
    let b = Backend::new();
    let src = "first line\nuse VS Code here\n";
    let actions = b.calculate_code_actions(&chars(src), pos(1, 0), pos(1, 5));
    assert_eq!(actions.len(), 1);
    let a = &actions[0];
    assert_eq!(a.title, "Replace 'VS Code' with 'Neovim'");
    assert_eq!((a.start.line, a.start.character), (1, 4));
    assert_eq!((a.end.line, a.end.character), (1, 11));
    assert_eq!(a.new_text, "Neovim");
}

#[test]
fn code_action_missing_param_edit_shape() {
    let b = Backend::new();
    let src = "#table(\n  columns: auto, rows: 2, gutter: 1, column-gutter: 1,\n  row-gutter: 1, fill: none, align: auto, stroke: none,\n)\n";
    let actions = b.calculate_code_actions(&chars(src), pos(0, 0), pos(0, 0));
    // Everything but `inset` is supplied.
    assert_eq!(actions.len(), 1);
    let a = &actions[0];
    assert_eq!(a.title, "Add missing parameter: inset");
    assert_eq!((a.start.line, a.start.character), (1, 2));
    assert_eq!((a.end.line, a.end.character), (1, 2));
    assert_eq!(a.new_text, "inset: relative,\n  ");
}

#[test]
fn error_descriptions_are_stable() {
    assert_eq!(TyError::UnknownDocument.describe(), "document is not open");
    assert_eq!(TyError::StaleVersion.describe(), "change notification is stale");
    assert_eq!(TyError::AlreadyOpen.describe(), "document is already open");
    assert_eq!(
        TyError::PositionOutOfRange.describe(),
        "line is beyond the end of the document"
    );
    assert_eq!(TyError::OffsetOutOfRange.describe(), "offset lies outside the root span");
    assert_eq!(TyError::ParserPanic.describe(), "the parser crashed");
}

#[test]
fn completion_item_keeps_its_parts() {
    let item = TypCmpItem::new(
        "table".to_string(),
        "code".to_string(),
        CmpKind::Function,
        "A table.".to_string(),
        "table(${1:columns})".to_string(),
    );
    assert_eq!(item.label, "table");
    assert_eq!(item.label_details, "code");
    assert_eq!(item.kind, CmpKind::Function);
    assert_eq!(item.documentation, "A table.");
    assert_eq!(item.insert_text, "table(${1:columns})");
}
