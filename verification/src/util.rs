//! The kinds of top-level items, and a file as the search sees it.

use syn::Item;
use syn::ItemType as ItemTypeAlias;
use vstd::prelude::*;
use vstd::string::StringExecFns;

verus! {

/// A top-level item of a Rust source file, as the parser hands it out: one
/// variant for each kind of item.
#[verifier::external_type_specification]
pub struct ExItem(Item);

/// What the parser holds of a constant item; nothing of it is read here.
#[verifier::external_type_specification]
#[verifier::external_body]
pub struct ExItemConst(syn::ItemConst);

/// What the parser holds of an enum definition; nothing of it is read here.
#[verifier::external_type_specification]
#[verifier::external_body]
pub struct ExItemEnum(syn::ItemEnum);

/// What the parser holds of an `extern crate` item; nothing of it is read here.
#[verifier::external_type_specification]
#[verifier::external_body]
pub struct ExItemExternCrate(syn::ItemExternCrate);

/// What the parser holds of a free-standing function; nothing of it is read here.
#[verifier::external_type_specification]
#[verifier::external_body]
pub struct ExItemFn(syn::ItemFn);

/// What the parser holds of a block of foreign items; nothing of it is read here.
#[verifier::external_type_specification]
#[verifier::external_body]
pub struct ExItemForeignMod(syn::ItemForeignMod);

/// What the parser holds of an impl block; nothing of it is read here.
#[verifier::external_type_specification]
#[verifier::external_body]
pub struct ExItemImpl(syn::ItemImpl);

/// What the parser holds of a macro invocation; nothing of it is read here.
#[verifier::external_type_specification]
#[verifier::external_body]
pub struct ExItemMacro(syn::ItemMacro);

/// What the parser holds of a macro by the `macro` keyword; nothing of it is read here.
#[verifier::external_type_specification]
#[verifier::external_body]
pub struct ExItemMacro2(syn::ItemMacro2);

/// What the parser holds of a module; nothing of it is read here.
#[verifier::external_type_specification]
#[verifier::external_body]
pub struct ExItemMod(syn::ItemMod);

/// What the parser holds of a static item; nothing of it is read here.
#[verifier::external_type_specification]
#[verifier::external_body]
pub struct ExItemStatic(syn::ItemStatic);

/// What the parser holds of a struct definition; nothing of it is read here.
#[verifier::external_type_specification]
#[verifier::external_body]
pub struct ExItemStruct(syn::ItemStruct);

/// What the parser holds of a trait definition; nothing of it is read here.
#[verifier::external_type_specification]
#[verifier::external_body]
pub struct ExItemTrait(syn::ItemTrait);

/// What the parser holds of a trait alias; nothing of it is read here.
#[verifier::external_type_specification]
#[verifier::external_body]
pub struct ExItemTraitAlias(syn::ItemTraitAlias);

/// What the parser holds of a type alias; nothing of it is read here.
#[verifier::external_type_specification]
#[verifier::external_body]
pub struct ExItemTypeAlias(ItemTypeAlias);

/// What the parser holds of a union definition; nothing of it is read here.
#[verifier::external_type_specification]
#[verifier::external_body]
pub struct ExItemUnion(syn::ItemUnion);

/// What the parser holds of a use declaration; nothing of it is read here.
#[verifier::external_type_specification]
#[verifier::external_body]
pub struct ExItemUse(syn::ItemUse);

/// What the parser holds of tokens that the parser did not interpret; nothing of it is read here.
#[verifier::external_type_specification]
#[verifier::external_body]
pub struct ExTokenStream(proc_macro2::TokenStream);

/// The kind of a top-level item.
#[derive(Clone, Copy, Debug, PartialEq, Eq, Structural)]
pub enum ItemType {
    Fn,
    Enum,
    Const,
    ExternCrate,
    ForeignMod,
    Impl,
    Macro,
    Macro2,
    Mod,
    Static,
    Struct,
    Trait,
    TraitAlias,
    Type,
    Union,
    Use,
    Verbatim,
}

/// The name of a kind, as the output shows it.
pub open spec fn kind_name(kind: ItemType) -> Seq<char> {
    match kind {
        ItemType::Fn => "Fn"@,
        ItemType::Enum => "Enum"@,
        ItemType::Const => "Const"@,
        ItemType::ExternCrate => "ExternCrate"@,
        ItemType::ForeignMod => "ForeignMod"@,
        ItemType::Impl => "Impl"@,
        ItemType::Macro => "Macro"@,
        ItemType::Macro2 => "Macro2"@,
        ItemType::Mod => "Mod"@,
        ItemType::Static => "Static"@,
        ItemType::Struct => "Struct"@,
        ItemType::Trait => "Trait"@,
        ItemType::TraitAlias => "TraitAlias"@,
        ItemType::Type => "Type"@,
        ItemType::Union => "Union"@,
        ItemType::Use => "Use"@,
        ItemType::Verbatim => "Verbatim"@,
    }
}

impl ItemType {
    /// The name of the kind, as the output shows it.
    pub fn name(&self) -> (name: &'static str)
        ensures
            name@ == kind_name(*self),
    {
        match self {
            ItemType::Fn => "Fn",
            ItemType::Enum => "Enum",
            ItemType::Const => "Const",
            ItemType::ExternCrate => "ExternCrate",
            ItemType::ForeignMod => "ForeignMod",
            ItemType::Impl => "Impl",
            ItemType::Macro => "Macro",
            ItemType::Macro2 => "Macro2",
            ItemType::Mod => "Mod",
            ItemType::Static => "Static",
            ItemType::Struct => "Struct",
            ItemType::Trait => "Trait",
            ItemType::TraitAlias => "TraitAlias",
            ItemType::Type => "Type",
            ItemType::Union => "Union",
            ItemType::Use => "Use",
            ItemType::Verbatim => "Verbatim",
        }
    }

    /// The name of the kind as a text of its own.
    pub fn to_string(&self) -> (name: String)
        ensures
            name@ == kind_name(*self),
    {
        String::from_str(self.name())
    }
}

/// The extension of Rust source files: the files that are searched, and the
/// syntax that they are highlighted with.
pub const RUST_EXTENSION: &'static str = "rs";

/// An entry of the directory tree: its path and what the walk knows of it.
#[derive(Debug, PartialEq, Eq)]
pub struct FileEntry {
    /// The path, as it is shown.
    pub path: String,
    /// Whether the entry is a directory; `None` where that could not be read.
    pub is_dir: Option<bool>,
    /// What stands behind the last dot of the file name, if anything does.
    pub extension: Option<String>,
}

/// A file that was read: its whole text and the entry it was read from.
#[derive(Debug, PartialEq, Eq)]
pub struct ParsedFile {
    pub contents: String,
    pub dir_entry: FileEntry,
}

/// The line that names a file in front of what was found in it.
pub open spec fn header_info(path: Seq<char>, kind: ItemType) -> Seq<char> {
    "["@ + kind_name(kind) + "] "@ + path + "\n"@
}

/// Writes the line that names `file` and the kind of what was found in it:
/// the kind in square brackets, a space, the path, a line feed.
pub fn print_header_info(file: &ParsedFile, item_type: ItemType) -> (line: String)
    ensures
        line@ == header_info(file.dir_entry.path@, item_type),
{
    let mut line = String::from_str("[");
    line.append(item_type.name());
    line.append("] ");
    line.append(file.dir_entry.path.as_str());
    line.append("\n");
    line
}

/// The kind of `item`.
pub open spec fn kind_of(item: Item) -> ItemType {
    match item {
        Item::Const(_) => ItemType::Const,
        Item::Enum(_) => ItemType::Enum,
        Item::ExternCrate(_) => ItemType::ExternCrate,
        Item::Fn(_) => ItemType::Fn,
        Item::ForeignMod(_) => ItemType::ForeignMod,
        Item::Impl(_) => ItemType::Impl,
        Item::Macro(_) => ItemType::Macro,
        Item::Macro2(_) => ItemType::Macro2,
        Item::Mod(_) => ItemType::Mod,
        Item::Static(_) => ItemType::Static,
        Item::Struct(_) => ItemType::Struct,
        Item::Trait(_) => ItemType::Trait,
        Item::TraitAlias(_) => ItemType::TraitAlias,
        Item::Type(_) => ItemType::Type,
        Item::Union(_) => ItemType::Union,
        Item::Use(_) => ItemType::Use,
        Item::Verbatim(_) => ItemType::Verbatim,
        _ => ItemType::Verbatim,
    }
}

/// The kind of `item`.
pub fn item_type(item: &Item) -> (kind: ItemType)
    ensures
        kind == kind_of(*item),
{
    match item {
        Item::Const(_) => ItemType::Const,
        Item::Enum(_) => ItemType::Enum,
        Item::ExternCrate(_) => ItemType::ExternCrate,
        Item::Fn(_) => ItemType::Fn,
        Item::ForeignMod(_) => ItemType::ForeignMod,
        Item::Impl(_) => ItemType::Impl,
        Item::Macro(_) => ItemType::Macro,
        Item::Macro2(_) => ItemType::Macro2,
        Item::Mod(_) => ItemType::Mod,
        Item::Static(_) => ItemType::Static,
        Item::Struct(_) => ItemType::Struct,
        Item::Trait(_) => ItemType::Trait,
        Item::TraitAlias(_) => ItemType::TraitAlias,
        Item::Type(_) => ItemType::Type,
        Item::Union(_) => ItemType::Union,
        Item::Use(_) => ItemType::Use,
        Item::Verbatim(_) => ItemType::Verbatim,
        _ => ItemType::Verbatim,
    }
}

} // verus!
