//! The parse adapter: a source text becomes the sequence of its top-level
//! constructs, each with its kind and the lines it stands on.

use crate::util::item_type;
use crate::util::kind_of;
use crate::util::ItemType;
use syn::spanned::Spanned;
use syn::Item;
use vstd::prelude::*;

verus! {

/// A top-level construct of a file: its kind and its first and last line,
/// both counted from 1.
#[derive(Clone, Copy, Debug, PartialEq, Eq, Structural)]
pub struct Construct {
    pub kind: ItemType,
    pub start_line: usize,
    pub end_line: usize,
}

/// The text is no Rust source file.
#[derive(Clone, Copy, Debug, PartialEq, Eq, Structural)]
pub struct ParseError;

/// The top-level constructs that the parser finds in `text`, in the order in
/// which they are declared; `None` where it refuses `text`.
pub uninterp spec fn parsed_constructs(text: Seq<char>) -> Option<Seq<Construct>>;

/// The construct that an item with its first and last line stands for.
pub open spec fn construct_of(item: (Item, usize, usize)) -> Construct {
    Construct { kind: kind_of(item.0), start_line: item.1, end_line: item.2 }
}

/// The constructs that items with their lines stand for, in the same order.
pub open spec fn constructs_of(items: Seq<(Item, usize, usize)>) -> Seq<Construct> {
    items.map_values(|item: (Item, usize, usize)| construct_of(item))
}

/// `syn::parse_file`, and for each item of the file, from `Spanned::span`,
/// the lines of its first and last token. The items come in the order of the
/// file. What comes back depends on `text` alone.
#[verifier::external_body]
fn parse_items(text: &str) -> (items: Option<Vec<(Item, usize, usize)>>)
    ensures
        match items {
            Some(found) => parsed_constructs(text@) == Some(constructs_of(found@)),
            None => parsed_constructs(text@).is_none(),
        },
{
    let file = syn::parse_file(text).ok()?;
    Some(file.items.into_iter().map(|item| {
        let span = item.span();
        (item, span.start().line, span.end().line)
    }).collect())
}

/// Parses `text` as a Rust source file. A text that the parser refuses has
/// no constructs at all: the error stands for the whole file.
pub fn parse(text: &str) -> (constructs: Result<Vec<Construct>, ParseError>)
    ensures
        match constructs {
            Ok(found) => parsed_constructs(text@) == Some(found@),
            Err(_) => parsed_constructs(text@).is_none(),
        },
{
    let items = match parse_items(text) {
        Some(items) => items,
        None => {
            return Err(ParseError);
        },
    };
    let mut constructs: Vec<Construct> = Vec::new();
    let mut i: usize = 0;
    while i < items.len()
        invariant
            0 <= i <= items@.len(),
            constructs@ =~= constructs_of(items@).take(i as int),
        decreases items@.len() - i,
    {
        let kind = item_type(&items[i].0);
        constructs.push(Construct { kind, start_line: items[i].1, end_line: items[i].2 });
        i += 1;
    }
    assert(constructs@ =~= constructs_of(items@));
    Ok(constructs)
}

} // verus!
