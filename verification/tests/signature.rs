use rust_code_builder::{Block, BlockSignature, SignatureVisibility};

fn text(value: &str) -> String {
    String::from(value)
}

fn pair(first: &str, second: &str) -> (String, String) {
    (String::from(first), String::from(second))
}

#[test]
fn visibility_keywords() {
    assert_eq!(SignatureVisibility::Pub.to_string(), "pub");
    assert_eq!(SignatureVisibility::PubCrate.to_string(), "pub(crate)");
    assert_eq!(SignatureVisibility::PubSuper.to_string(), "pub(super)");
    assert_eq!(SignatureVisibility::PubSelf.to_string(), "pub(self)");
}

#[test]
fn public_async_function() {
    let signature = BlockSignature::Function {
        visibility: Some(SignatureVisibility::Pub),
        is_async: true,
        name: text("run"),
        generics: vec![],
        params: vec![pair("x", "i32")],
        return_type: Some(text("i32")),
        where_clauses: vec![],
    };
    assert_eq!(signature.to_string(), "pub async fn run(x: i32) -> i32");
}

#[test]
fn bare_function() {
    let signature = BlockSignature::Function {
        visibility: None,
        is_async: false,
        name: text("f"),
        generics: vec![],
        params: vec![],
        return_type: None,
        where_clauses: vec![],
    };
    assert_eq!(signature.to_string(), "fn f()");
}

#[test]
fn function_with_every_part() {
    let signature = BlockSignature::Function {
        visibility: Some(SignatureVisibility::PubCrate),
        is_async: true,
        name: text("merge"),
        generics: vec![text("K"), text("V"), text("const N: usize")],
        params: vec![pair("left", "Map<K, V>"), pair("right", "Map<K, V>"), pair("n", "[u8; N]")],
        return_type: Some(text("Result<Map<K, V>, Error>")),
        where_clauses: vec![pair("K", "Ord + Clone"), pair("V", "Default")],
    };
    assert_eq!(
        signature.to_string(),
        "pub(crate) async fn merge<K, V, const N: usize>\
         (left: Map<K, V>, right: Map<K, V>, n: [u8; N]) -> Result<Map<K, V>, Error>\n\
         where K: Ord + Clone, V: Default"
    );
}

#[test]
fn function_with_one_generic_and_one_clause() {
    let signature = BlockSignature::Function {
        visibility: Some(SignatureVisibility::PubSuper),
        is_async: false,
        name: text("show"),
        generics: vec![text("T")],
        params: vec![pair("value", "&T")],
        return_type: None,
        where_clauses: vec![pair("T", "Display")],
    };
    assert_eq!(signature.to_string(), "pub(super) fn show<T>(value: &T)\nwhere T: Display");
}

#[test]
fn function_parts_are_written_as_they_are() {
    let signature = BlockSignature::Function {
        visibility: Some(SignatureVisibility::PubSelf),
        is_async: false,
        name: text(""),
        generics: vec![text("")],
        params: vec![pair("", ""), pair("", "")],
        return_type: Some(text("")),
        where_clauses: vec![pair("", "")],
    };
    assert_eq!(signature.to_string(), "pub(self) fn <>(: , : ) -> \nwhere : ");
}

#[test]
fn async_without_visibility() {
    let signature = BlockSignature::Function {
        visibility: None,
        is_async: true,
        name: text("poll"),
        generics: vec![],
        params: vec![pair("a", "A"), pair("b", "B")],
        return_type: None,
        where_clauses: vec![],
    };
    assert_eq!(signature.to_string(), "async fn poll(a: A, b: B)");
}

#[test]
fn module_with_and_without_visibility() {
    let private = BlockSignature::Module { visibility: None, name: text("inner") };
    assert_eq!(private.to_string(), "mod inner");

    let public = BlockSignature::Module {
        visibility: Some(SignatureVisibility::Pub),
        name: text("api"),
    };
    assert_eq!(public.to_string(), "pub mod api");

    let crate_wide = BlockSignature::Module {
        visibility: Some(SignatureVisibility::PubCrate),
        name: text("util"),
    };
    assert_eq!(crate_wide.to_string(), "pub(crate) mod util");

    let parent = BlockSignature::Module {
        visibility: Some(SignatureVisibility::PubSuper),
        name: text("up"),
    };
    assert_eq!(parent.to_string(), "pub(super) mod up");

    let own = BlockSignature::Module {
        visibility: Some(SignatureVisibility::PubSelf),
        name: text("me"),
    };
    assert_eq!(own.to_string(), "pub(self) mod me");
}

#[test]
fn module_name_is_not_looked_at() {
    let odd = BlockSignature::Module { visibility: None, name: text("not a name!") };
    assert_eq!(odd.to_string(), "mod not a name!");
    let empty = BlockSignature::Module { visibility: None, name: text("") };
    assert_eq!(empty.to_string(), "mod ");
}

#[test]
fn custom_text_is_handed_back() {
    assert_eq!(BlockSignature::Custom(text("if x > 0")).to_string(), "if x > 0");
    assert_eq!(BlockSignature::Custom(text("")).to_string(), "");
    assert_eq!(BlockSignature::Custom(text("a\nb {")).to_string(), "a\nb {");
}

#[test]
fn module_block() {
    let block = Block::new()
        .set_signature(Some(BlockSignature::Module {
            visibility: Some(SignatureVisibility::Pub),
            name: text("shapes"),
        }))
        .insert_line("pub struct Circle;")
        .insert_new_line()
        .insert_block(
            Block::new()
                .set_signature(Some(BlockSignature::Function {
                    visibility: Some(SignatureVisibility::Pub),
                    is_async: false,
                    name: text("area"),
                    generics: vec![],
                    params: vec![pair("r", "u32")],
                    return_type: Some(text("u32")),
                    where_clauses: vec![],
                }))
                .insert_line("3 * r * r"),
        );
    assert_eq!(
        block.to_string(),
        "pub mod shapes {\n  pub struct Circle;\n\n  pub fn area(r: u32) -> u32 {\n    3 * r * r\n  }\n}\n"
    );
}

#[test]
fn values_can_be_shown_for_debugging() {
    assert_eq!(format!("{:?}", SignatureVisibility::PubCrate), "PubCrate");
    assert_eq!(
        format!("{:?}", BlockSignature::Module { visibility: None, name: text("m") }),
        "Module { visibility: None, name: \"m\" }"
    );
    assert_eq!(format!("{:?}", Block::new()), "Block { signature: None, codes: [] }");
}
