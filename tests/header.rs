use ffizz::item::{registration_symbol, Item, UseTree};
use ffizz::metadata::{parse_digits, Attribute, HeaderError, Lit, MetaEntry};
use ffizz::registry::{generate, HeaderItem};

fn item(order: usize, name: &str, content: &str) -> HeaderItem {
    HeaderItem {
        order,
        name: name.to_string(),
        content: content.to_string(),
    }
}

fn doc(s: &str) -> Attribute {
    Attribute::Doc(s.to_string())
}

fn name_entry(v: &str) -> MetaEntry {
    MetaEntry::NameValue {
        key: "name".to_string(),
        value: Lit::Str(v.to_string()),
    }
}

fn order_entry(v: &str) -> MetaEntry {
    MetaEntry::NameValue {
        key: "order".to_string(),
        value: Lit::Int(v.to_string()),
    }
}

fn strings(v: &[&str]) -> Vec<String> {
    v.iter().map(|s| s.to_string()).collect()
}

fn multiline(s: &'static str) -> String {
    // strip `/**` and `*/`.
    s[3..s.len() - 2].to_string()
}

fn fields(hi: &HeaderItem) -> (usize, &str, &str) {
    (hi.order, hi.name.as_str(), hi.content.as_str())
}

#[test]
fn test_generate_order_by_order() {
    assert_eq!(
        generate(vec![
            item(1, "foo", "one"),
            item(3, "foo", "three"),
            item(2, "foo", "two"),
        ]),
        String::from("one\n\ntwo\n\nthree\n")
    );
}

#[test]
fn test_generate_order_by_name() {
    assert_eq!(
        generate(vec![
            item(3, "bbb", "two"),
            item(3, "ccc", "three"),
            item(3, "aaa", "one"),
        ]),
        String::from("one\n\ntwo\n\nthree\n")
    );
}

#[test]
fn test_empty() {
    assert_eq!(generate(vec![]), String::new());
}

#[test]
fn generate_registration_order_irrelevant() {
    let a = generate(vec![
        item(3, "foo", "three"),
        item(1, "foo", "one"),
        item(2, "foo", "two"),
    ]);
    let b = generate(vec![
        item(2, "foo", "two"),
        item(3, "foo", "three"),
        item(1, "foo", "one"),
    ]);
    assert_eq!(a, "one\n\ntwo\n\nthree\n");
    assert_eq!(a, b);
}

#[test]
fn generate_trims_contents() {
    assert_eq!(
        generate(vec![item(5, "b", "\n  second\t\n"), item(5, "a", " first ")]),
        "first\n\nsecond\n"
    );
}

#[test]
fn generate_single_item() {
    assert_eq!(generate(vec![item(100, "x", "// x")]), "// x\n");
}

#[test]
fn generate_equal_keys_keep_registration_order() {
    assert_eq!(
        generate(vec![item(1, "k", "first"), item(1, "k", "second")]),
        "first\n\nsecond\n"
    );
}

#[test]
fn generate_name_prefix_sorts_first() {
    assert_eq!(
        generate(vec![item(0, "ab", "longer"), item(0, "a", "shorter")]),
        "shorter\n\nlonger\n"
    );
}

#[test]
fn parse_attrs_simple() {
    let mut attrs = vec![doc(" aaa"), doc(" bbb")];
    let (doc, name, order) = HeaderItem::parse_attrs(&mut attrs).unwrap();
    assert_eq!(order, None);
    assert_eq!(name, None);
    assert_eq!(doc, vec!["aaa", "bbb"]);
}

#[test]
fn parse_attrs_multiline() {
    let mut attrs = vec![doc("\n             * aaa\n             * bbb\n             ")];
    let (doc, name, order) = HeaderItem::parse_attrs(&mut attrs).unwrap();
    assert_eq!(order, None);
    assert_eq!(name, None);
    assert_eq!(doc, vec!["aaa", "bbb"]);
}

#[test]
fn parse_attrs_single_override_attr() {
    let mut attrs = vec![
        doc(" aaa"),
        Attribute::Metadata(vec![name_entry("override")]),
        doc(" bbb"),
    ];
    let (doc, name, order) = HeaderItem::parse_attrs(&mut attrs).unwrap();
    assert_eq!(order, None);
    assert_eq!(name, Some(String::from("override")));
    assert_eq!(doc, vec!["aaa", "bbb"]);
    // check that the metadata attributes were stripped
    assert_eq!(attrs.len(), 2);
}

#[test]
fn parse_attrs_multi_override_attr() {
    let mut attrs = vec![
        Attribute::Metadata(vec![name_entry("not seen")]),
        doc(" aaa"),
        Attribute::Metadata(vec![name_entry("override")]),
        Attribute::Metadata(vec![order_entry("13")]),
        doc(" bbb"),
    ];
    let (doc, name, order) = HeaderItem::parse_attrs(&mut attrs).unwrap();
    assert_eq!(order, Some(13));
    assert_eq!(name, Some(String::from("override")));
    assert_eq!(doc, vec!["aaa", "bbb"]);
    // check that the metadata attributes were stripped
    assert_eq!(attrs.len(), 2);
}

#[test]
fn parse_attrs_name_order_same_attr() {
    let mut attrs = vec![
        Attribute::Metadata(vec![name_entry("override"), order_entry("13")]),
        doc(" aaa"),
        doc(" bbb"),
    ];
    let (doc, name, order) = HeaderItem::parse_attrs(&mut attrs).unwrap();
    assert_eq!(order, Some(13));
    assert_eq!(name, Some(String::from("override")));
    assert_eq!(doc, vec!["aaa", "bbb"]);
    // check that the metadata attributes were stripped
    assert_eq!(attrs.len(), 2);
}

#[test]
fn parse_attrs_invalid_ffizz_attr() {
    let mut attrs = vec![
        Attribute::Metadata(vec![
            MetaEntry::NameValue {
                key: "blergh".to_string(),
                value: Lit::Str("uhoh".to_string()),
            },
            MetaEntry::NameValue {
                key: "snars".to_string(),
                value: Lit::Int("13".to_string()),
            },
        ]),
        doc(" aaa"),
        doc(" bbb"),
    ];
    assert!(HeaderItem::parse_attrs(&mut attrs).is_err());
}

#[test]
fn parse_attrs_error_leaves_attrs() {
    let mut attrs = vec![
        doc(" aaa"),
        Attribute::Metadata(vec![MetaEntry::NameValue {
            key: "order".to_string(),
            value: Lit::Str("13".to_string()),
        }]),
        Attribute::Other,
    ];
    assert_eq!(
        HeaderItem::parse_attrs(&mut attrs).err(),
        Some(HeaderError::InvalidMetadata)
    );
    assert_eq!(attrs.len(), 3);
}

#[test]
fn parse_attrs_keeps_other_attributes() {
    let mut attrs = vec![
        Attribute::Other,
        Attribute::Metadata(vec![order_entry("7")]),
        doc(" text"),
    ];
    let (doc, name, order) = HeaderItem::parse_attrs(&mut attrs).unwrap();
    assert_eq!(doc, vec!["text"]);
    assert_eq!(name, None);
    assert_eq!(order, Some(7));
    assert_eq!(attrs.len(), 2);
    assert!(matches!(attrs[0], Attribute::Other));
    assert!(matches!(attrs[1], Attribute::Doc(_)));
}

#[test]
fn parse_attrs_rejects_non_entry() {
    let mut attrs = vec![Attribute::Metadata(vec![MetaEntry::Other])];
    assert_eq!(
        HeaderItem::parse_attrs(&mut attrs).err(),
        Some(HeaderError::InvalidMetadata)
    );
}

#[test]
fn parse_attrs_rejects_order_overflow() {
    let mut attrs = vec![Attribute::Metadata(vec![order_entry(
        "99999999999999999999999999",
    )])];
    assert_eq!(
        HeaderItem::parse_attrs(&mut attrs).err(),
        Some(HeaderError::InvalidMetadata)
    );
}

#[test]
fn parse_digits_values() {
    assert_eq!(parse_digits("13"), Some(13));
    assert_eq!(parse_digits("0"), Some(0));
    assert_eq!(parse_digits("007"), Some(7));
    assert_eq!(parse_digits(""), None);
    assert_eq!(parse_digits("1a"), None);
    assert_eq!(parse_digits("-1"), None);
    assert_eq!(parse_digits(&usize::MAX.to_string()), Some(usize::MAX));
    assert_eq!(parse_digits("18446744073709551616"), None);
}

#[test]
fn parse_doc_attr_multiline_1() {
    assert_eq!(
        HeaderItem::parse_docstring_attr(multiline(
            "/**
                  * hello
                  */"
        )),
        vec!["hello".to_string()],
    )
}

#[test]
fn parse_doc_attr_multiline_2() {
    assert_eq!(
        HeaderItem::parse_docstring_attr(multiline(
            "/** hello
                  */"
        )),
        vec!["hello".to_string()],
    )
}

#[test]
fn parse_doc_attr_multiline_3() {
    assert_eq!(
        HeaderItem::parse_docstring_attr(multiline(
            "/**
                  */"
        )),
        Vec::<String>::new(),
    )
}

#[test]
fn parse_doc_attr_multiline_4() {
    assert_eq!(
        HeaderItem::parse_docstring_attr(multiline(
            "/**
                  * two
                  * lines
                  */"
        )),
        vec!["two", "lines"],
    )
}

#[test]
fn parse_doc_attr_multiline_5() {
    assert_eq!(
        HeaderItem::parse_docstring_attr(multiline(
            "/**
                  * three
                  *   indented
                  * lines
                  */"
        )),
        vec!["three", "  indented", "lines"],
    )
}

#[test]
fn parse_doc_attr_single_line() {
    assert_eq!(HeaderItem::parse_docstring_attr(" foo".into()), vec!["foo"],)
}

#[test]
fn parse_doc_attr_single_line_empty() {
    assert_eq!(HeaderItem::parse_docstring_attr("".into()), vec![""],)
}

#[test]
fn parse_doc_attr_single_line_keeps_extra_indent() {
    assert_eq!(
        HeaderItem::parse_docstring_attr("   indented".into()),
        vec!["  indented"]
    )
}

#[test]
fn parse_doc_attr_ragged_lines_left_alone() {
    assert_eq!(
        HeaderItem::parse_docstring_attr("\n   * one\n two\n   * three\n   ".into()),
        vec!["one", " two", "three"]
    )
}

#[test]
fn parse_doc_attr_unicode_whitespace_markers() {
    assert_eq!(
        HeaderItem::parse_docstring_attr("\u{3000}\n\t* x\n\t* y\n\t".into()),
        vec!["x", "y"]
    )
}

#[test]
fn parse_content_just_text() {
    assert_eq!(
        HeaderItem::parse_content(vec!["some".to_string(), "content".to_string()]),
        "// some\n// content".to_string()
    );
}

#[test]
fn parse_content_single_decl() {
    assert_eq!(
        HeaderItem::parse_content(vec![
            "intro".to_string(),
            "```c".to_string(),
            "void foo(void);".to_string(),
            "```".to_string(),
            "suffix".to_string(),
        ]),
        "// intro\nvoid foo(void);\n// suffix".to_string()
    );
}

#[test]
fn parse_content_empty_lines() {
    assert_eq!(
        HeaderItem::parse_content(vec![
            "".to_string(),
            "intro".to_string(),
            "".to_string(),
            "suffix".to_string(),
            "".to_string(),
        ]),
        "// intro\n//\n// suffix".to_string()
    );
}

#[test]
fn parse_content_multi_decl() {
    assert_eq!(
        HeaderItem::parse_content(vec![
            "aaa".to_string(),
            "".to_string(),
            "```c".to_string(),
            "void foo(void);".to_string(),
            "```".to_string(),
            "".to_string(),
            "bbb".to_string(),
            "".to_string(),
            "```c".to_string(),
            "void bar(void);".to_string(),
            "```".to_string(),
            "".to_string(),
        ]),
        "// aaa\nvoid foo(void);\n// bbb\nvoid bar(void);".to_string()
    );
}

#[test]
fn parse_content_empty() {
    assert_eq!(HeaderItem::parse_content(vec![]), "");
    assert_eq!(HeaderItem::parse_content(strings(&["", ""])), "");
}

#[test]
fn parse_content_consecutive_blank_lines() {
    assert_eq!(
        HeaderItem::parse_content(strings(&["a", "", "", "b"])),
        "// a\n//\n//\n// b"
    );
}

#[test]
fn parse_content_fence_markers_trimmed_and_block_verbatim() {
    assert_eq!(
        HeaderItem::parse_content(strings(&["  ```c  ", "  int x;", "", "\t```", "end"])),
        "  int x;\n\n// end"
    );
}

#[test]
fn test_parsing_fn() {
    let mut attrs = vec![doc(" A docstring")];
    let hi = HeaderItem::for_item(&Item::Fn("add".to_string()), &mut attrs).unwrap();
    assert_eq!(fields(&hi), (100, "add", "// A docstring"));
}

#[test]
fn test_parsing_const() {
    let mut attrs = vec![doc(" A docstring")];
    let hi = HeaderItem::for_item(&Item::Const("X".to_string()), &mut attrs).unwrap();
    assert_eq!(fields(&hi), (100, "X", "// A docstring"));
}

#[test]
fn test_parsing_static() {
    let mut attrs = vec![doc(" A docstring")];
    let hi = HeaderItem::for_item(&Item::Static("X".to_string()), &mut attrs).unwrap();
    assert_eq!(fields(&hi), (100, "X", "// A docstring"));
}

#[test]
fn test_parsing_struct() {
    let mut attrs = vec![doc(" A docstring")];
    let hi = HeaderItem::for_item(&Item::Struct("Foo".to_string()), &mut attrs).unwrap();
    assert_eq!(fields(&hi), (100, "Foo", "// A docstring"));
}

#[test]
fn test_parsing_enum() {
    let mut attrs = vec![doc(" A docstring")];
    let hi = HeaderItem::for_item(&Item::Enum("Foo".to_string()), &mut attrs).unwrap();
    assert_eq!(fields(&hi), (100, "Foo", "// A docstring"));
}

#[test]
fn test_parsing_union() {
    let mut attrs = vec![doc(" A docstring")];
    let hi = HeaderItem::for_item(&Item::Union("Foo".to_string()), &mut attrs).unwrap();
    assert_eq!(fields(&hi), (100, "Foo", "// A docstring"));
}

#[test]
fn test_parsing_type() {
    let mut attrs = vec![doc(" A docstring")];
    let hi = HeaderItem::for_item(&Item::Type("Foo".to_string()), &mut attrs).unwrap();
    assert_eq!(fields(&hi), (100, "Foo", "// A docstring"));
}

#[test]
fn test_parsing_use_name() {
    let mut attrs = vec![doc(" A docstring")];
    let it = Item::Use(UseTree::Name("foo".to_string()));
    let hi = HeaderItem::for_item(&it, &mut attrs).unwrap();
    assert_eq!(fields(&hi), (100, "foo", "// A docstring"));
}

#[test]
fn test_parsing_use_path() {
    let mut attrs = vec![doc(" A docstring")];
    let it = Item::Use(UseTree::Path(Box::new(UseTree::Name("foo".to_string()))));
    let hi = HeaderItem::for_item(&it, &mut attrs).unwrap();
    assert_eq!(fields(&hi), (100, "foo", "// A docstring"));
}

#[test]
fn test_parsing_use_rename() {
    let mut attrs = vec![doc(" A docstring")];
    let it = Item::Use(UseTree::Path(Box::new(UseTree::Rename("bar".to_string()))));
    let hi = HeaderItem::for_item(&it, &mut attrs).unwrap();
    assert_eq!(fields(&hi), (100, "bar", "// A docstring"));
}

#[test]
fn test_parsing_type_with_attrs() {
    let mut attrs = vec![
        doc(" A docstring"),
        Attribute::Metadata(vec![name_entry("bar"), order_entry("10")]),
    ];
    let hi = HeaderItem::for_item(&Item::Fn("foo".to_string()), &mut attrs).unwrap();
    assert_eq!(fields(&hi), (10, "bar", "// A docstring"));
    assert_eq!(attrs.len(), 1);
}

#[test]
fn parsing_use_glob_is_rejected() {
    let mut attrs = vec![doc(" A docstring")];
    let it = Item::Use(UseTree::Path(Box::new(UseTree::Glob)));
    assert_eq!(
        HeaderItem::for_item(&it, &mut attrs).err(),
        Some(HeaderError::MultipleUseNames)
    );
    let it = Item::Use(UseTree::Group);
    assert_eq!(
        HeaderItem::for_item(&it, &mut attrs).err(),
        Some(HeaderError::MultipleUseNames)
    );
    assert_eq!(attrs.len(), 1);
}

#[test]
fn parsing_unsupported_item_is_rejected() {
    let mut attrs = vec![doc(" A docstring")];
    assert_eq!(
        HeaderItem::for_item(&Item::Other, &mut attrs).err(),
        Some(HeaderError::UnsupportedItem)
    );
}

#[test]
fn test_parse_simple() {
    let mut attrs = vec![
        Attribute::Metadata(vec![name_entry("intro")]),
        doc(" A docstring"),
    ];
    let hi = HeaderItem::for_snippet(&mut attrs).unwrap();
    assert_eq!(fields(&hi), (100, "intro", "// A docstring"));
}

#[test]
#[should_panic]
fn test_parse_no_name() {
    let mut attrs = vec![doc(" A docstring")];
    HeaderItem::for_snippet(&mut attrs).unwrap();
}

#[test]
fn snippet_errors() {
    let mut attrs = vec![doc(" A docstring")];
    assert_eq!(
        HeaderItem::for_snippet(&mut attrs).err(),
        Some(HeaderError::MissingName)
    );
    let mut attrs = vec![Attribute::Metadata(vec![name_entry("")])];
    assert_eq!(
        HeaderItem::for_snippet(&mut attrs).err(),
        Some(HeaderError::MissingName)
    );
    let mut attrs = vec![Attribute::Metadata(vec![order_entry("x")])];
    assert_eq!(
        HeaderItem::for_snippet(&mut attrs).err(),
        Some(HeaderError::InvalidMetadata)
    );
}

#[test]
fn snippet_with_order_and_block() {
    let mut attrs = vec![
        Attribute::Metadata(vec![name_entry("includes"), order_entry("1")]),
        doc(" ```c"),
        doc(" #include <stdint.h>"),
        doc(" ```"),
    ];
    let hi = HeaderItem::for_snippet(&mut attrs).unwrap();
    assert_eq!(fields(&hi), (1, "includes", "#include <stdint.h>"));
}

#[test]
fn from_attrs_defaults() {
    let mut attrs = vec![doc(" Add two numbers."), Attribute::Other];
    let hi = HeaderItem::from_attrs("add".to_string(), &mut attrs).unwrap();
    assert_eq!(fields(&hi), (100, "add", "// Add two numbers."));
    assert_eq!(attrs.len(), 2);
}

#[test]
fn registration_symbol_prefixes_name() {
    assert_eq!(registration_symbol("intro"), "FFIZZ_HDR__intro");
    assert_eq!(registration_symbol(""), "FFIZZ_HDR__");
}
