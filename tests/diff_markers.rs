use linediff::{diff, line_diff, Diff, DiffKind};

fn vec_compare(va: Vec<Diff>, vb: Vec<Diff>) -> bool {
    (va.len() == vb.len()) && va.iter().zip(vb).all(|(a, b)| *a == b)
}

fn u8_vec_compare(va: Vec<u8>, vb: Vec<u8>) -> bool {
    (va.len() == vb.len()) && va.iter().zip(vb).all(|(a, b)| *a == b)
}

#[test]
fn no_changes() {
    let out = diff("hello, world\n2\n3\n4\n", "hello, world\n2\n3\n4\n");
    let expected = vec![];
    assert_eq!(vec_compare(out, expected), true);
}

#[test]
fn single_add() {
    let out = diff("", "hello, world\n");
    let expected = vec![Diff { kind: DiffKind::Add, start_line: 1, end_line: 1 }];
    assert_eq!(vec_compare(out, expected), true);
}

#[test]
fn single_delete() {
    let out = diff("hello, world\n", "");
    let expected = vec![Diff { kind: DiffKind::Delete, start_line: 1, end_line: 1 }];
    assert_eq!(vec_compare(out, expected), true);
}

#[test]
fn single_modify() {
    let out = diff("hello, world\n", "hello, test\n");
    let expected = vec![Diff { kind: DiffKind::Modify, start_line: 1, end_line: 1 }];
    assert_eq!(vec_compare(out, expected), true);
}

#[test]
fn modify_and_add() {
    let out = diff("hello, world\n", "hello, test\na\nb\n");
    let expected = vec![
        Diff { kind: DiffKind::Modify, start_line: 1, end_line: 1 },
        Diff { kind: DiffKind::Add, start_line: 2, end_line: 3 },
    ];
    assert_eq!(vec_compare(out, expected), true);
}

#[test]
fn modify_and_delete() {
    let out = diff("hello, world\na\nb\n", "hello, test\n");
    let expected = vec![
        Diff { kind: DiffKind::Modify, start_line: 1, end_line: 1 },
        Diff { kind: DiffKind::Delete, start_line: 2, end_line: 2 },
    ];
    assert_eq!(vec_compare(out, expected), true);
}

#[test]
fn prefix_add() {
    let out = diff("hello, world\n", "a\nhello, world\n");
    let expected = vec![Diff { kind: DiffKind::Add, start_line: 1, end_line: 1 }];
    assert_eq!(vec_compare(out, expected), true);
}

#[test]
fn prefix_delete() {
    let out = diff("a\nhello, world\n", "hello, world\n");
    let expected = vec![Diff { kind: DiffKind::Delete, start_line: 1, end_line: 1 }];
    assert_eq!(vec_compare(out, expected), true);
}

#[test]
fn complex() {
    let before = r#"
    #version 330 # to be modified

    in vec4 v_color;
    out vec4 color; # to be removed

    void main() {
        color = v_color;
    };
    to be modified
"#;

    let after = r#"
    #version 331

    in vec4 v_color;

    void main() {
        color = v_color;
        # added this comment
        # and this one
    };
    it was modified
"#;
    let out = diff(before, after);
    let expected = vec![
        Diff { kind: DiffKind::Modify, start_line: 2, end_line: 2 },
        Diff { kind: DiffKind::Delete, start_line: 5, end_line: 5 },
        Diff { kind: DiffKind::Add, start_line: 8, end_line: 9 },
        Diff { kind: DiffKind::Modify, start_line: 11, end_line: 11 },
    ];
    assert_eq!(vec_compare(out, expected), true);
}

#[test]
fn wasm_empty() {
    let out = line_diff("hello, world\n2\n3\n4\n", "hello, world\n2\n3\n4\n");
    let expected = vec![];
    assert_eq!(u8_vec_compare(out, expected), true);
}

#[test]
fn wasm_modify_and_delete() {
    let out = line_diff("hello, world\na\nb\n", "hello, test\n");
    let expected = vec![0, 0, 0, 1, 0, 0, 0, 1, 3, 0, 0, 0, 2, 0, 0, 0, 2, 2];
    assert_eq!(u8_vec_compare(out, expected), true);
}

#[test]
fn wasm_single_add() {
    let out = line_diff("", "hello, world\n");
    let expected = vec![0, 0, 0, 1, 0, 0, 0, 1, 1];
    assert_eq!(u8_vec_compare(out, expected), true);
}
