use rgrok::util::item_type;
use rgrok::util::print_header_info;
use rgrok::util::FileEntry;
use rgrok::util::ItemType;
use rgrok::util::ParsedFile;

fn kind_of(source: &str) -> ItemType {
    let item: syn::Item = syn::parse_str(source).unwrap();
    item_type(&item)
}

#[test]
fn item_type_of_each_kind_of_item() {
    assert_eq!(kind_of("const A: u8 = 1;"), ItemType::Const);
    assert_eq!(kind_of("enum A { B }"), ItemType::Enum);
    assert_eq!(kind_of("extern crate a;"), ItemType::ExternCrate);
    assert_eq!(kind_of("fn a() {}"), ItemType::Fn);
    assert_eq!(kind_of("extern \"C\" { fn a(); }"), ItemType::ForeignMod);
    assert_eq!(kind_of("impl A {}"), ItemType::Impl);
    assert_eq!(kind_of("a!();"), ItemType::Macro);
    assert_eq!(kind_of("macro_rules! a { () => {} }"), ItemType::Macro);
    assert_eq!(kind_of("macro a() {}"), ItemType::Macro2);
    assert_eq!(kind_of("mod a {}"), ItemType::Mod);
    assert_eq!(kind_of("static A: u8 = 1;"), ItemType::Static);
    assert_eq!(kind_of("struct A;"), ItemType::Struct);
    assert_eq!(kind_of("trait A {}"), ItemType::Trait);
    assert_eq!(kind_of("trait A = B + C;"), ItemType::TraitAlias);
    assert_eq!(kind_of("type A = u8;"), ItemType::Type);
    assert_eq!(kind_of("union A { a: u8 }"), ItemType::Union);
    assert_eq!(kind_of("use a::b;"), ItemType::Use);
}

#[test]
fn names_of_the_kinds() {
    let all = [
        (ItemType::Fn, "Fn"),
        (ItemType::Enum, "Enum"),
        (ItemType::Const, "Const"),
        (ItemType::ExternCrate, "ExternCrate"),
        (ItemType::ForeignMod, "ForeignMod"),
        (ItemType::Impl, "Impl"),
        (ItemType::Macro, "Macro"),
        (ItemType::Macro2, "Macro2"),
        (ItemType::Mod, "Mod"),
        (ItemType::Static, "Static"),
        (ItemType::Struct, "Struct"),
        (ItemType::Trait, "Trait"),
        (ItemType::TraitAlias, "TraitAlias"),
        (ItemType::Type, "Type"),
        (ItemType::Union, "Union"),
        (ItemType::Use, "Use"),
        (ItemType::Verbatim, "Verbatim"),
    ];
    for (kind, name) in all {
        assert_eq!(kind.name(), name);
        assert_eq!(kind.to_string(), name);
        assert_eq!(format!("{:?}", kind), name);
    }
}

#[test]
fn header_names_kind_and_path() {
    let file = ParsedFile {
        contents: String::new(),
        dir_entry: FileEntry {
            path: "src/lib.rs".to_string(),
            is_dir: Some(false),
            extension: Some("rs".to_string()),
        },
    };
    assert_eq!(print_header_info(&file, ItemType::Impl), "[Impl] src/lib.rs\n");
    assert_eq!(print_header_info(&file, ItemType::Macro2), "[Macro2] src/lib.rs\n");
}
