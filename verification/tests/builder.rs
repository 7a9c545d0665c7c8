use rust_code_builder::{Block, CodeSpace};

#[test]
fn entries_come_out_in_the_order_of_insertion() {
    let code = CodeSpace::new()
        .insert_line("1")
        .insert_block(Block::new().insert_line("2").insert_new_line().insert_line("3"))
        .insert_new_line()
        .insert_line("4")
        .insert_block(Block::new().insert_line("5"))
        .to_string();
    assert_eq!(code, "1\n{\n  2\n\n  3\n}\n\n4\n{\n  5\n}\n");
}

#[test]
fn equal_entries_are_all_kept() {
    let code = CodeSpace::new().insert_line("x").insert_line("x").insert_line("x").to_string();
    assert_eq!(code, "x\nx\nx\n");
}

#[test]
fn insert_line_if_false_changes_nothing() {
    let before = CodeSpace::new().insert_line("a").to_string();
    let after = CodeSpace::new().insert_line("a").insert_line_if(false, "x").to_string();
    assert_eq!(after, before);
    assert_eq!(after, "a\n");

    let before = Block::new().insert_line("a").to_string();
    let after = Block::new().insert_line("a").insert_line_if(false, "x").to_string();
    assert_eq!(after, before);
    assert_eq!(after, "{\n  a\n}\n");
}

#[test]
fn insert_line_if_true_is_insert_line() {
    let plain = CodeSpace::new().insert_line("a").insert_line("x").to_string();
    let conditional = CodeSpace::new().insert_line("a").insert_line_if(true, "x").to_string();
    assert_eq!(conditional, plain);
    assert_eq!(conditional, "a\nx\n");

    let plain = Block::new().insert_line("a").insert_line("x").to_string();
    let conditional = Block::new().insert_line("a").insert_line_if(true, "x").to_string();
    assert_eq!(conditional, plain);
    assert_eq!(conditional, "{\n  a\n  x\n}\n");
}

#[test]
fn insert_line_if_on_an_empty_value() {
    assert_eq!(CodeSpace::new().insert_line_if(false, "x").to_string(), "");
    assert_eq!(CodeSpace::new().insert_line_if(true, "x").to_string(), "x\n");
    assert_eq!(Block::new().insert_line_if(false, "x").to_string(), "{\n}\n");
    assert_eq!(Block::new().insert_line_if(true, "x").to_string(), "{\n  x\n}\n");
}

#[test]
fn insert_new_lines_inserts_that_many() {
    let code = CodeSpace::new().insert_line("a").insert_new_lines(3).insert_line("b").to_string();
    assert_eq!(code, "a\n\n\n\nb\n");

    let block = Block::new().insert_line("a").insert_new_lines(2).insert_line("b").to_string();
    assert_eq!(block, "{\n  a\n\n\n  b\n}\n");
}

#[test]
fn insert_new_lines_zero_inserts_nothing() {
    let code = CodeSpace::new().insert_line("a").insert_new_lines(0).insert_line("b").to_string();
    assert_eq!(code, "a\nb\n");
    assert_eq!(CodeSpace::new().insert_new_lines(0).to_string(), "");
    assert_eq!(Block::new().insert_new_lines(0).to_string(), "{\n}\n");
}

#[test]
fn insert_new_lines_one_is_insert_new_line() {
    let many = CodeSpace::new().insert_new_lines(1).to_string();
    let one = CodeSpace::new().insert_new_line().to_string();
    assert_eq!(many, one);
    assert_eq!(one, "\n");

    let many = Block::new().insert_new_lines(1).to_string();
    let one = Block::new().insert_new_line().to_string();
    assert_eq!(many, one);
    assert_eq!(one, "{\n\n}\n");
}

#[test]
fn empty_line_text_is_a_line_of_indentation() {
    assert_eq!(CodeSpace::new().insert_line("").to_string(), "\n");
    assert_eq!(Block::new().insert_line("").to_string(), "{\n  \n}\n");
}

#[test]
fn insert_line_takes_owned_text_by_reference() {
    let text = String::from("let y = 1;");
    let code = CodeSpace::new().insert_line(&text).insert_line(text.as_str()).to_string();
    assert_eq!(code, "let y = 1;\nlet y = 1;\n");
}

#[test]
fn inserted_block_is_written_as_it_was_built() {
    let inner = Block::new().insert_line("x").insert_new_line().insert_line("y");
    let alone = inner.to_string();
    assert_eq!(alone, "{\n  x\n\n  y\n}\n");
    let code = CodeSpace::new().insert_block(inner).to_string();
    assert_eq!(code, alone);
}
