use vstd::prelude::*;
use crate::content::content_text;
use crate::metadata::{
    attrs_ok, doc_lines, kept_attrs, name_override, order_override, Attribute, HeaderError,
    DEFAULT_ORDER,
};
use crate::registry::HeaderItem;

verus! {

/// The tree of a `use` item.
pub enum UseTree {
    /// A single name: `foo`.
    Name(String),
    /// A path segment followed by the rest of the tree: `xxx::<rest>`.
    Path(Box<UseTree>),
    /// A renamed import: `foo as bar`, with the new name.
    Rename(String),
    /// A wildcard: `*`.
    Glob,
    /// A group: `{a, b}`.
    Group,
}

/// An item that may be annotated with header content, with the name it
/// declares.
pub enum Item {
    Fn(String),
    Const(String),
    Static(String),
    Struct(String),
    Enum(String),
    Union(String),
    Type(String),
    Use(UseTree),
    /// Any other kind of item, such as a module or a trait.
    Other,
}

/// The one name that a `use` tree brings in, if it brings in exactly one.
pub open spec fn use_name(t: UseTree) -> Option<Seq<char>>
    decreases t,
{
    match t {
        UseTree::Name(n) => Some(n@),
        UseTree::Path(rest) => use_name(*rest),
        UseTree::Rename(n) => Some(n@),
        _ => None,
    }
}

/// The name of the header item for an item, or why there is none.
pub open spec fn item_name(item: Item) -> Result<Seq<char>, HeaderError> {
    match item {
        Item::Fn(n) => Ok(n@),
        Item::Const(n) => Ok(n@),
        Item::Static(n) => Ok(n@),
        Item::Struct(n) => Ok(n@),
        Item::Enum(n) => Ok(n@),
        Item::Union(n) => Ok(n@),
        Item::Type(n) => Ok(n@),
        Item::Use(t) => match use_name(t) {
            Some(n) => Ok(n),
            None => Err(HeaderError::MultipleUseNames),
        },
        Item::Other => Err(HeaderError::UnsupportedItem),
    }
}

/// Follow a `use` tree down to the single name it brings in.
fn use_ident(tree: &UseTree) -> (r: Result<String, HeaderError>)
    ensures
        match use_name(*tree) {
            Some(n) => r is Ok && r->Ok_0@ == n,
            None => r == Err::<String, HeaderError>(HeaderError::MultipleUseNames),
        },
    decreases tree,
{
    match tree {
        UseTree::Name(n) => Ok(n.clone()),
        UseTree::Path(rest) => use_ident(rest),
        UseTree::Rename(n) => Ok(n.clone()),
        _ => Err(HeaderError::MultipleUseNames),
    }
}

/// The name that an item declares: its identifier, or for a `use` item the
/// single name it brings in.
pub fn declared_name(item: &Item) -> (r: Result<String, HeaderError>)
    ensures
        match item_name(*item) {
            Ok(n) => r is Ok && r->Ok_0@ == n,
            Err(e) => r == Err::<String, HeaderError>(e),
        },
{
    match item {
        Item::Fn(n) => Ok(n.clone()),
        Item::Const(n) => Ok(n.clone()),
        Item::Static(n) => Ok(n.clone()),
        Item::Struct(n) => Ok(n.clone()),
        Item::Enum(n) => Ok(n.clone()),
        Item::Union(n) => Ok(n.clone()),
        Item::Type(n) => Ok(n.clone()),
        Item::Use(t) => use_ident(t),
        Item::Other => Err(HeaderError::UnsupportedItem),
    }
}

/// The symbol under which the header item called `name` is registered.
pub open spec fn symbol_for(name: Seq<char>) -> Seq<char> {
    seq!['F', 'F', 'I', 'Z', 'Z', '_', 'H', 'D', 'R', '_', '_'] + name
}

/// The name of the static that registers the header item called `name`: a
/// fixed prefix followed by the name.
pub fn registration_symbol(name: &str) -> (r: String)
    ensures
        r@ == symbol_for(name@),
{
    proof {
        reveal_strlit("FFIZZ_HDR__");
        assert("FFIZZ_HDR__"@ =~= seq!['F', 'F', 'I', 'Z', 'Z', '_', 'H', 'D', 'R', '_', '_']);
    }
    let mut r = String::from_str("FFIZZ_HDR__");
    r.append(name);
    r
}

impl HeaderItem {
    /// Make the header item for an annotated item with the attributes `attrs`.
    /// Its name is the name the item declares unless metadata sets one; the
    /// metadata attributes are removed from `attrs`.
    pub fn for_item(item: &Item, attrs: &mut Vec<Attribute>) -> (r: Result<HeaderItem, HeaderError>)
        ensures
            item_name(*item) is Err ==> r == Err::<HeaderItem, HeaderError>(item_name(*item)->Err_0)
                && final(attrs)@ == old(attrs)@,
            item_name(*item) is Ok ==> {
                &&& r is Ok <==> attrs_ok(old(attrs)@)
                &&& r is Ok ==> {
                    &&& r->Ok_0.name@ == match name_override(old(attrs)@) {
                        Some(n) => n,
                        None => item_name(*item)->Ok_0,
                    }
                    &&& r->Ok_0.order == match order_override(old(attrs)@) {
                        Some(o) => o,
                        None => DEFAULT_ORDER,
                    }
                    &&& r->Ok_0.content@ == content_text(doc_lines(old(attrs)@))
                    &&& final(attrs)@ == kept_attrs(old(attrs)@)
                }
                &&& r is Err ==> r->Err_0 == HeaderError::InvalidMetadata && final(attrs)@ == old(
                    attrs,
                )@
            },
    {
        let name = declared_name(item)?;
        HeaderItem::from_attrs(name, attrs)
    }

    /// Make the header item for a snippet: documentation with metadata but no
    /// item.  Metadata must give it a non-empty name.
    pub fn for_snippet(attrs: &mut Vec<Attribute>) -> (r: Result<HeaderItem, HeaderError>)
        ensures
            !attrs_ok(old(attrs)@) ==> r == Err::<HeaderItem, HeaderError>(
                HeaderError::InvalidMetadata,
            ),
            attrs_ok(old(attrs)@) ==> match name_override(old(attrs)@) {
                Some(n) if n.len() > 0 => {
                    &&& r is Ok
                    &&& r->Ok_0.name@ == n
                    &&& r->Ok_0.order == match order_override(old(attrs)@) {
                        Some(o) => o,
                        None => DEFAULT_ORDER,
                    }
                    &&& r->Ok_0.content@ == content_text(doc_lines(old(attrs)@))
                },
                _ => r == Err::<HeaderItem, HeaderError>(HeaderError::MissingName),
            },
            attrs_ok(old(attrs)@) ==> final(attrs)@ == kept_attrs(old(attrs)@),
            !attrs_ok(old(attrs)@) ==> final(attrs)@ == old(attrs)@,
    {
        let item = HeaderItem::from_attrs(String::new(), attrs)?;
        if item.name.unicode_len() == 0 {
            return Err(HeaderError::MissingName);
        }
        Ok(item)
    }
}

} // verus!
