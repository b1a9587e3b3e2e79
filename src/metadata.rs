use vstd::prelude::*;
use crate::content::content_text;
use crate::docstring::docstring_lines;
use crate::registry::HeaderItem;
use crate::text::{str_eq, views};

verus! {

/// The order of an item that gives none: ordinary content.
pub const DEFAULT_ORDER: usize = 100;

/// The value of a `key = value` entry in a metadata attribute.
pub enum Lit {
    /// A string literal, with its value.
    Str(String),
    /// An integer literal, as its base-10 digits.
    Int(String),
    /// Any other kind of literal.
    Other,
}

/// One element inside a metadata attribute `#[ffizz(..)]`.
pub enum MetaEntry {
    /// `key = value`.
    NameValue { key: String, value: Lit },
    /// Anything that is not of the form `key = value`.
    Other,
}

/// An attribute attached to an annotated item, as far as the header is
/// concerned.
pub enum Attribute {
    /// A documentation attribute, with the text of the comment.
    Doc(String),
    /// A metadata attribute `#[ffizz(..)]`, with its entries.
    Metadata(Vec<MetaEntry>),
    /// Any other attribute.
    Other,
}

/// Why a header item could not be made.
#[derive(Debug, PartialEq, Eq, Structural, Clone, Copy)]
pub enum HeaderError {
    /// The item is not of a kind that can carry header content.
    UnsupportedItem,
    /// A `use` item that brings in more than one name.
    MultipleUseNames,
    /// A metadata entry other than `name = ".."` or `order = <integer>`.
    InvalidMetadata,
    /// A snippet without a name.
    MissingName,
}

pub open spec fn key_name() -> Seq<char> {
    seq!['n', 'a', 'm', 'e']
}

pub open spec fn key_order() -> Seq<char> {
    seq!['o', 'r', 'd', 'e', 'r']
}

pub open spec fn is_digit(c: char) -> bool {
    '0' <= c && c <= '9'
}

/// The number written by the decimal digits `s`.
pub open spec fn digits_value(s: Seq<char>) -> nat
    decreases s.len(),
{
    if s.len() == 0 {
        0
    } else {
        digits_value(s.drop_last()) * 10 + ((s.last() as u32) - ('0' as u32)) as nat
    }
}

/// Whether `s` is a non-empty run of decimal digits whose value fits a `usize`.
pub open spec fn parses_as_usize(s: Seq<char>) -> bool {
    &&& s.len() > 0
    &&& forall|j: int| 0 <= j < s.len() ==> is_digit(#[trigger] s[j])
    &&& digits_value(s) <= usize::MAX
}

/// The name that an entry sets, if it is a valid `name = ".."` entry.
pub open spec fn entry_name(e: MetaEntry) -> Option<Seq<char>> {
    match e {
        MetaEntry::NameValue { key, value } => {
            if key@ == key_name() {
                match value {
                    Lit::Str(v) => Some(v@),
                    _ => None,
                }
            } else {
                None
            }
        },
        MetaEntry::Other => None,
    }
}

/// The order that an entry sets, if it is a valid `order = <integer>` entry.
pub open spec fn entry_order(e: MetaEntry) -> Option<usize> {
    match e {
        MetaEntry::NameValue { key, value } => {
            if key@ == key_order() {
                match value {
                    Lit::Int(d) => {
                        if parses_as_usize(d@) {
                            Some(digits_value(d@) as usize)
                        } else {
                            None
                        }
                    },
                    _ => None,
                }
            } else {
                None
            }
        },
        MetaEntry::Other => None,
    }
}

pub open spec fn entry_ok(e: MetaEntry) -> bool {
    entry_name(e) is Some || entry_order(e) is Some
}

/// Whether an attribute is a well-formed metadata attribute or not one at all.
pub open spec fn attr_ok(a: Attribute) -> bool {
    a is Metadata ==> forall|j: int|
        0 <= j < a->Metadata_0@.len() ==> entry_ok(#[trigger] a->Metadata_0@[j])
}

pub open spec fn attrs_ok(attrs: Seq<Attribute>) -> bool {
    forall|i: int| 0 <= i < attrs.len() ==> attr_ok(#[trigger] attrs[i])
}

/// The name set by the last name entry in `es`.
pub open spec fn last_name(es: Seq<MetaEntry>) -> Option<Seq<char>>
    decreases es.len(),
{
    if es.len() == 0 {
        None
    } else if entry_name(es.last()) is Some {
        entry_name(es.last())
    } else {
        last_name(es.drop_last())
    }
}

/// The order set by the last order entry in `es`.
pub open spec fn last_order(es: Seq<MetaEntry>) -> Option<usize>
    decreases es.len(),
{
    if es.len() == 0 {
        None
    } else if entry_order(es.last()) is Some {
        entry_order(es.last())
    } else {
        last_order(es.drop_last())
    }
}

/// The name set by the last name entry of the metadata attributes, in order.
pub open spec fn name_override(attrs: Seq<Attribute>) -> Option<Seq<char>>
    decreases attrs.len(),
{
    if attrs.len() == 0 {
        None
    } else {
        let here = match attrs.last() {
            Attribute::Metadata(es) => last_name(es@),
            _ => None,
        };
        if here is Some {
            here
        } else {
            name_override(attrs.drop_last())
        }
    }
}

/// The order set by the last order entry of the metadata attributes, in order.
pub open spec fn order_override(attrs: Seq<Attribute>) -> Option<usize>
    decreases attrs.len(),
{
    if attrs.len() == 0 {
        None
    } else {
        let here = match attrs.last() {
            Attribute::Metadata(es) => last_order(es@),
            _ => None,
        };
        if here is Some {
            here
        } else {
            order_override(attrs.drop_last())
        }
    }
}

/// The documentation lines of all doc attributes, in order.
pub open spec fn doc_lines(attrs: Seq<Attribute>) -> Seq<Seq<char>>
    decreases attrs.len(),
{
    if attrs.len() == 0 {
        Seq::empty()
    } else {
        doc_lines(attrs.drop_last()) + match attrs.last() {
            Attribute::Doc(s) => docstring_lines(s@),
            _ => Seq::empty(),
        }
    }
}

/// The attributes that stay on the item: all but the metadata attributes.
pub open spec fn kept_attrs(attrs: Seq<Attribute>) -> Seq<Attribute>
    decreases attrs.len(),
{
    if attrs.len() == 0 {
        Seq::empty()
    } else if attrs.last() is Metadata {
        kept_attrs(attrs.drop_last())
    } else {
        kept_attrs(attrs.drop_last()).push(attrs.last())
    }
}

pub open spec fn opt_view(o: Option<String>) -> Option<Seq<char>> {
    match o {
        Some(s) => Some(s@),
        None => None,
    }
}

proof fn lemma_last_name_present(es: Seq<MetaEntry>, j: int)
    requires
        0 <= j < es.len(),
        entry_name(es[j]) is Some,
    ensures
        last_name(es) is Some,
    decreases es.len(),
{
    if entry_name(es.last()) is None {
        lemma_last_name_present(es.drop_last(), j);
    }
}

proof fn lemma_last_order_present(es: Seq<MetaEntry>, j: int)
    requires
        0 <= j < es.len(),
        entry_order(es[j]) is Some,
    ensures
        last_order(es) is Some,
    decreases es.len(),
{
    if entry_order(es.last()) is None {
        lemma_last_order_present(es.drop_last(), j);
    }
}

/// A name set by any metadata entry, in any of the attributes, overrides the
/// name the item declares: some explicit name is always the one used.
pub proof fn lemma_explicit_name_wins(attrs: Seq<Attribute>, i: int, j: int)
    requires
        0 <= i < attrs.len(),
        attrs[i] is Metadata,
        0 <= j < attrs[i]->Metadata_0@.len(),
        entry_name(attrs[i]->Metadata_0@[j]) is Some,
    ensures
        name_override(attrs) is Some,
    decreases attrs.len(),
{
    if i == attrs.len() - 1 {
        lemma_last_name_present(attrs[i]->Metadata_0@, j);
    } else {
        let here = match attrs.last() {
            Attribute::Metadata(es) => last_name(es@),
            _ => None,
        };
        if here is None {
            lemma_explicit_name_wins(attrs.drop_last(), i, j);
        }
    }
}

/// An order set by any metadata entry, in any of the attributes, overrides the
/// default order: some explicit order is always the one used.
pub proof fn lemma_explicit_order_wins(attrs: Seq<Attribute>, i: int, j: int)
    requires
        0 <= i < attrs.len(),
        attrs[i] is Metadata,
        0 <= j < attrs[i]->Metadata_0@.len(),
        entry_order(attrs[i]->Metadata_0@[j]) is Some,
    ensures
        order_override(attrs) is Some,
    decreases attrs.len(),
{
    if i == attrs.len() - 1 {
        lemma_last_order_present(attrs[i]->Metadata_0@, j);
    } else {
        let here = match attrs.last() {
            Attribute::Metadata(es) => last_order(es@),
            _ => None,
        };
        if here is None {
            lemma_explicit_order_wins(attrs.drop_last(), i, j);
        }
    }
}

proof fn lemma_digits_prefix(s: Seq<char>, i: int)
    requires
        0 <= i <= s.len(),
        forall|j: int| 0 <= j < s.len() ==> is_digit(#[trigger] s[j]),
    ensures
        digits_value(s.take(i)) <= digits_value(s),
    decreases s.len() - i,
{
    if i < s.len() {
        lemma_digits_prefix(s, i + 1);
        assert(s.take(i + 1).drop_last() =~= s.take(i));
    } else {
        assert(s.take(i) =~= s);
    }
}

/// Read decimal digits as a `usize`; `None` when `d` is empty, holds anything
/// but digits, or is too large.
pub fn parse_digits(d: &str) -> (r: Option<usize>)
    ensures
        r is Some <==> parses_as_usize(d@),
        r is Some ==> r->0 == digits_value(d@),
{
    let n = d.unicode_len();
    if n == 0 {
        return None;
    }
    let mut all_digits = true;
    let mut k: usize = 0;
    while k < n
        invariant
            n == d@.len(),
            k <= n,
            all_digits == (forall|j: int| 0 <= j < k ==> is_digit(#[trigger] d@[j])),
        decreases n - k,
    {
        let c = d.get_char(k);
        if !('0' <= c && c <= '9') {
            all_digits = false;
        }
        k = k + 1;
    }
    if !all_digits {
        return None;
    }
    let mut acc: usize = 0;
    let mut i: usize = 0;
    assert(d@.take(0) =~= Seq::<char>::empty());
    while i < n
        invariant
            n == d@.len(),
            i <= n,
            forall|j: int| 0 <= j < n ==> is_digit(#[trigger] d@[j]),
            acc == digits_value(d@.take(i as int)),
        decreases n - i,
    {
        let c = d.get_char(i);
        let digit = (c as u32 - '0' as u32) as usize;
        assert(d@.take(i + 1).drop_last() =~= d@.take(i as int));
        if acc > (usize::MAX - digit) / 10 {
            proof {
                lemma_digits_prefix(d@, i + 1);
            }
            return None;
        }
        acc = acc * 10 + digit;
        i = i + 1;
    }
    assert(d@.take(n as int) =~= d@);
    Some(acc)
}

/// The name and the order that one metadata entry sets; an error for an entry
/// that is neither `name = ".."` nor `order = <integer>`.
fn read_entry(e: &MetaEntry) -> (r: Result<(Option<String>, Option<usize>), HeaderError>)
    ensures
        r is Ok <==> entry_ok(*e),
        r is Ok ==> opt_view(r->Ok_0.0) == entry_name(*e) && r->Ok_0.1 == entry_order(*e),
        r is Err ==> r->Err_0 == HeaderError::InvalidMetadata,
{
    proof {
        reveal_strlit("name");
        reveal_strlit("order");
        assert("name"@ =~= key_name());
        assert("order"@ =~= key_order());
    }
    match e {
        MetaEntry::NameValue { key, value } => {
            if str_eq(key.as_str(), "name") {
                match value {
                    Lit::Str(v) => Ok((Some(v.clone()), None)),
                    _ => Err(HeaderError::InvalidMetadata),
                }
            } else if str_eq(key.as_str(), "order") {
                match value {
                    Lit::Int(d) => match parse_digits(d.as_str()) {
                        Some(n) => Ok((None, Some(n))),
                        None => Err(HeaderError::InvalidMetadata),
                    },
                    _ => Err(HeaderError::InvalidMetadata),
                }
            } else {
                Err(HeaderError::InvalidMetadata)
            }
        },
        MetaEntry::Other => Err(HeaderError::InvalidMetadata),
    }
}

/// Remove the metadata attributes, keeping the others in order.
fn remove_metadata(attrs: &mut Vec<Attribute>)
    ensures
        final(attrs)@ == kept_attrs(old(attrs)@),
{
    let ghost orig = attrs@;
    let ghost mut j: int = 0;
    let mut i: usize = 0;
    assert(orig.skip(0) =~= orig);
    while i < attrs.len()
        invariant
            0 <= j <= orig.len(),
            attrs@ == kept_attrs(orig.take(j)) + orig.skip(j),
            i == kept_attrs(orig.take(j)).len(),
        decreases attrs@.len() - i,
    {
        assert(orig.take(j + 1).drop_last() =~= orig.take(j));
        assert(attrs@[i as int] == orig[j]);
        let ghost kept = kept_attrs(orig.take(j));
        let is_meta = match &attrs[i] {
            Attribute::Metadata(_) => true,
            _ => false,
        };
        if is_meta {
            attrs.remove(i);
            assert(attrs@ =~= kept + orig.skip(j + 1));
        } else {
            i = i + 1;
            assert(attrs@ =~= kept.push(orig[j]) + orig.skip(j + 1));
        }
        proof {
            j = j + 1;
        }
    }
    assert(orig.take(j) =~= orig);
    assert(attrs@ =~= kept_attrs(orig));
}

impl HeaderItem {
    /// Read the attributes of an annotated item: the documentation lines of its
    /// doc attributes, and the name and order that its metadata attributes set
    /// (the last setting wins).  The metadata attributes are removed from
    /// `attrs`; an invalid metadata entry is an error and leaves `attrs` as it
    /// was.
    pub fn parse_attrs(attrs: &mut Vec<Attribute>) -> (r: Result<
        (Vec<String>, Option<String>, Option<usize>),
        HeaderError,
    >)
        ensures
            r is Ok <==> attrs_ok(old(attrs)@),
            r is Ok ==> {
                &&& views(r->Ok_0.0@) == doc_lines(old(attrs)@)
                &&& opt_view(r->Ok_0.1) == name_override(old(attrs)@)
                &&& r->Ok_0.2 == order_override(old(attrs)@)
                &&& final(attrs)@ == kept_attrs(old(attrs)@)
            },
            r is Err ==> r->Err_0 == HeaderError::InvalidMetadata && final(attrs)@ == old(attrs)@,
    {
        let mut doc: Vec<String> = Vec::new();
        let mut name: Option<String> = None;
        let mut order: Option<usize> = None;
        let mut i: usize = 0;
        while i < attrs.len()
            invariant
                i <= attrs@.len(),
                attrs_ok(attrs@.take(i as int)),
                views(doc@) == doc_lines(attrs@.take(i as int)),
                opt_view(name) == name_override(attrs@.take(i as int)),
                order == order_override(attrs@.take(i as int)),
            decreases attrs@.len() - i,
        {
            let ghost prefix = attrs@.take(i as int);
            assert(attrs@.take(i + 1).drop_last() =~= prefix);
            assert(attrs@.take(i + 1).last() == attrs@[i as int]);
            match &attrs[i] {
                Attribute::Doc(s) => {
                    let ghost before = doc@;
                    let mut lines = HeaderItem::parse_docstring_attr(s.clone());
                    let ghost added = lines@;
                    doc.append(&mut lines);
                    assert(views(doc@) =~= views(before) + views(added));
                },
                Attribute::Metadata(es) => {
                    let mut ename: Option<String> = None;
                    let mut eorder: Option<usize> = None;
                    let mut k: usize = 0;
                    while k < es.len()
                        invariant
                            i < attrs@.len(),
                            attrs@[i as int] == Attribute::Metadata(*es),
                            prefix == attrs@.take(i as int),
                            attrs_ok(prefix),
                            views(doc@) == doc_lines(prefix),
                            opt_view(name) == name_override(prefix),
                            order == order_override(prefix),
                            k <= es@.len(),
                            forall|m: int| 0 <= m < k ==> entry_ok(#[trigger] es@[m]),
                            opt_view(ename) == last_name(es@.take(k as int)),
                            eorder == last_order(es@.take(k as int)),
                        decreases es@.len() - k,
                    {
                        assert(es@.take(k + 1).drop_last() =~= es@.take(k as int));
                        match read_entry(&es[k]) {
                            Ok((n, o)) => {
                                if n.is_some() {
                                    ename = n;
                                }
                                if o.is_some() {
                                    eorder = o;
                                }
                            },
                            Err(e) => {
                                assert(!entry_ok(es@[k as int]));
                                assert(attrs@[i as int]->Metadata_0 == *es);
                                assert(!entry_ok(attrs@[i as int]->Metadata_0@[k as int]));
                                assert(!attr_ok(attrs@[i as int]));
                                return Err(e);
                            },
                        }
                        k = k + 1;
                    }
                    assert(es@.take(es@.len() as int) =~= es@);
                    if ename.is_some() {
                        name = ename;
                    }
                    if eorder.is_some() {
                        order = eorder;
                    }
                },
                Attribute::Other => {},
            }
            assert(attrs_ok(attrs@.take(i + 1))) by {
                assert forall|m: int| 0 <= m < i + 1 implies attr_ok(
                    #[trigger] attrs@.take(i + 1)[m],
                ) by {
                    if m < i {
                        assert(attrs@.take(i + 1)[m] == prefix[m]);
                    }
                }
            }
            i = i + 1;
        }
        assert(attrs@.take(attrs@.len() as int) =~= attrs@);
        remove_metadata(attrs);
        Ok((doc, name, order))
    }

    /// Make the header item for an annotated item called `name`, whose
    /// attributes are `attrs`.  A name or order set by metadata wins over
    /// `name` and over the default order.  The metadata attributes are removed
    /// from `attrs`.
    pub fn from_attrs(name: String, attrs: &mut Vec<Attribute>) -> (r: Result<HeaderItem, HeaderError>)
        ensures
            r is Ok <==> attrs_ok(old(attrs)@),
            r is Ok ==> {
                &&& r->Ok_0.name@ == match name_override(old(attrs)@) {
                    Some(n) => n,
                    None => name@,
                }
                &&& r->Ok_0.order == match order_override(old(attrs)@) {
                    Some(o) => o,
                    None => DEFAULT_ORDER,
                }
                &&& r->Ok_0.content@ == content_text(doc_lines(old(attrs)@))
                &&& final(attrs)@ == kept_attrs(old(attrs)@)
            },
            r is Err ==> r->Err_0 == HeaderError::InvalidMetadata && final(attrs)@ == old(attrs)@,
    {
        let (doc, override_name, override_order) = HeaderItem::parse_attrs(attrs)?;
        let content = HeaderItem::parse_content(doc);
        let name = match override_name {
            Some(n) => n,
            None => name,
        };
        let order = match override_order {
            Some(o) => o,
            None => DEFAULT_ORDER,
        };
        Ok(HeaderItem { order, name, content })
    }
}

} // verus!
