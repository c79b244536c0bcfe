//! The parts of a `toml_edit` document that the config edits read and
//! change. The document itself stays opaque; its contents are named as
//! readings at key paths (each reached from the root by `Item::get` with
//! the path's keys), and every change states what it does to those
//! readings and that items on unrelated key paths keep them.

use vstd::prelude::*;

use toml_edit::DocumentMut;

verus! {

#[verifier::external_type_specification]
#[verifier::external_body]
pub struct ExDocumentMut(DocumentMut);

#[verifier::external_type_specification]
#[verifier::external_body]
pub struct ExTable(toml_edit::Table);

/// Whether `toml_edit` parses `text` as a document.
pub uninterp spec fn toml_parses(text: Seq<char>) -> bool;

/// The document `toml_edit` parses `text` into.
pub uninterp spec fn parsed_document(text: Seq<char>) -> DocumentMut;

/// A table's text (`Table::to_string`).
pub uninterp spec fn table_text(table: toml_edit::Table) -> Seq<char>;

/// The document's text as `toml_edit` writes it.
pub uninterp spec fn document_text(doc: DocumentMut) -> Seq<char>;

/// The text of the item reached from the root by the table keys of
/// `path`, if there is one.
pub uninterp spec fn item_text(doc: DocumentMut, path: Seq<Seq<char>>) -> Option<Seq<char>>;

/// The number of entries of the table (or inline table) at `path`.
pub uninterp spec fn table_len(doc: DocumentMut, path: Seq<Seq<char>>) -> Option<nat>;

/// Whether the item at `path` is an inline table (`{ .. }`):
/// `Item::is_inline_table`, false where there is no item.
pub uninterp spec fn is_inline(doc: DocumentMut, path: Seq<Seq<char>>) -> bool;

/// The string at `path`: `Item::as_str` on the item there.
pub uninterp spec fn str_at(doc: DocumentMut, path: Seq<Seq<char>>) -> Option<Seq<char>>;

/// The boolean at `path`: `Item::as_bool` on the item there.
pub uninterp spec fn bool_at(doc: DocumentMut, path: Seq<Seq<char>>) -> Option<bool>;

/// The items of the array at `path`, each as a string if it is one.
pub uninterp spec fn array_strs(doc: DocumentMut, path: Seq<Seq<char>>) -> Option<Seq<Option<Seq<char>>>>;

/// For the array of tables at `path`: each table's string `field`.
pub uninterp spec fn entry_strs(doc: DocumentMut, path: Seq<Seq<char>>, field: Seq<char>) -> Option<
    Seq<Option<Seq<char>>>,
>;

/// For the array of tables at `path`: each table's text
/// (`Table::to_string`).
pub uninterp spec fn entry_texts(doc: DocumentMut, path: Seq<Seq<char>>) -> Option<Seq<Seq<char>>>;

pub open spec fn path_view(path: Seq<String>) -> Seq<Seq<char>> {
    path.map_values(|s: String| s@)
}

pub open spec fn opt_str(o: Option<String>) -> Option<Seq<char>> {
    match o {
        Some(s) => Some(s@),
        None => None,
    }
}

pub open spec fn opt_strs(v: Seq<Option<String>>) -> Seq<Option<Seq<char>>> {
    v.map_values(|o: Option<String>| opt_str(o))
}

pub open spec fn is_prefix(a: Seq<Seq<char>>, b: Seq<Seq<char>>) -> bool {
    a.len() <= b.len() && b.take(a.len() as int) == a
}

/// Neither path leads through the other.
pub open spec fn unrelated(a: Seq<Seq<char>>, b: Seq<Seq<char>>) -> bool {
    !is_prefix(a, b) && !is_prefix(b, a)
}

/// Every reading at `p` is the same in both documents.
pub open spec fn same_at(a: DocumentMut, b: DocumentMut, p: Seq<Seq<char>>) -> bool {
    &&& item_text(a, p) == item_text(b, p)
    &&& table_len(a, p) == table_len(b, p)
    &&& str_at(a, p) == str_at(b, p)
    &&& bool_at(a, p) == bool_at(b, p)
    &&& array_strs(a, p) == array_strs(b, p)
    &&& entry_texts(a, p) == entry_texts(b, p)
    &&& forall|f: Seq<char>| #[trigger] entry_strs(a, p, f) == entry_strs(b, p, f)
}

/// Every reading at `p` but the item's own text is the same in both
/// documents.
pub open spec fn same_values_at(a: DocumentMut, b: DocumentMut, p: Seq<Seq<char>>) -> bool {
    &&& table_len(a, p) == table_len(b, p)
    &&& str_at(a, p) == str_at(b, p)
    &&& bool_at(a, p) == bool_at(b, p)
    &&& array_strs(a, p) == array_strs(b, p)
    &&& entry_texts(a, p) == entry_texts(b, p)
    &&& forall|f: Seq<char>| #[trigger] entry_strs(a, p, f) == entry_strs(b, p, f)
}

/// Nothing is at `p`.
pub open spec fn absent_at(d: DocumentMut, p: Seq<Seq<char>>) -> bool {
    &&& item_text(d, p) is None
    &&& table_len(d, p) is None
    &&& str_at(d, p) is None
    &&& bool_at(d, p) is None
    &&& array_strs(d, p) is None
    &&& entry_texts(d, p) is None
    &&& forall|f: Seq<char>| #[trigger] entry_strs(d, p, f) is None
}

/// Every key path that neither leads to nor through `path` reads the
/// same in both documents.
pub open spec fn untouched_except(a: DocumentMut, b: DocumentMut, path: Seq<Seq<char>>) -> bool {
    forall|p: Seq<Seq<char>>| unrelated(p, path) ==> #[trigger] same_at(a, b, p)
}

/// Nothing at `path` or below it.
pub open spec fn cleared(d: DocumentMut, path: Seq<Seq<char>>) -> bool {
    forall|q: Seq<Seq<char>>| is_prefix(path, q) ==> #[trigger] absent_at(d, q)
}

/// A value can be written at `path`: every table on the way there is
/// missing or a table.
pub open spec fn settable(d: DocumentMut, path: Seq<Seq<char>>) -> bool {
    &&& path.len() >= 1
    &&& forall|k: int|
        1 <= k < path.len() ==> (#[trigger] item_text(d, path.take(k)) is None || table_len(d, path.take(k)) is Some)
}

/// Every table on the way to `path` is there and is a table.
pub open spec fn tables_on_way(d: DocumentMut, path: Seq<Seq<char>>) -> bool {
    forall|k: int| 1 <= k < path.len() ==> #[trigger] table_len(d, path.take(k)) is Some
}

/// The path of key `k` in the root table `key`.
pub open spec fn key_pair(key: Seq<char>, k: Seq<char>) -> Seq<Seq<char>> {
    seq![key, k]
}

/// A plain value written into the document.
pub enum Leaf {
    Text(String),
    Flag(bool),
    Texts(Vec<String>),
}

/// What reading `path` gives after `leaf` was written there.
pub open spec fn holds_leaf(d: DocumentMut, path: Seq<Seq<char>>, leaf: Leaf) -> bool {
    match leaf {
        Leaf::Text(s) => str_at(d, path) == Some(s@),
        Leaf::Flag(b) => bool_at(d, path) == Some(b),
        Leaf::Texts(v) => array_strs(d, path) == Some(v@.map_values(|s: String| Some(s@))),
    }
}

/// The value a table built from `row`'s key/value pairs holds under
/// `field`: the last pair with that key wins.
pub open spec fn row_value(row: Seq<(String, String)>, field: Seq<char>) -> Option<Seq<char>>
    decreases row.len(),
{
    if row.len() == 0 {
        None
    } else if row.last().0@ == field {
        Some(row.last().1@)
    } else {
        row_value(row.drop_last(), field)
    }
}

/// `toml_edit`'s `str::parse::<DocumentMut>`: `Some` exactly when the
/// text is a TOML document.
#[verifier::external_body]
pub(crate) fn parse_document(text: &str) -> (r: Option<DocumentMut>)
    ensures
        r is Some <==> toml_parses(text@),
        r matches Some(d) ==> d == parsed_document(text@),
{
    text.parse::<DocumentMut>().ok()
}

/// `DocumentMut::to_string`.
#[verifier::external_body]
pub(crate) fn document_string(doc: &DocumentMut) -> (r: String)
    ensures
        r@ == document_text(*doc),
{
    doc.to_string()
}

/// `Item::get` along the keys of `path` from the root, then the item's
/// `to_string`. Where no item is reached, none is reached further down
/// either, so every other reading there is missing too.
#[verifier::external_body]
pub(crate) fn item_text_at(doc: &DocumentMut, path: &[String]) -> (r: Option<String>)
    ensures
        opt_str(r) == item_text(*doc, path_view(path@)),
        r is None ==> cleared(*doc, path_view(path@)),
{
    path.iter().try_fold(doc.as_item(), |item, key| item.get(key.as_str())).map(|item| item.to_string())
}

/// `Item::as_table_like` and `TableLike::len` on the item at `path`. An
/// empty table has nothing under it.
#[verifier::external_body]
pub(crate) fn table_len_at(doc: &DocumentMut, path: &[String]) -> (r: Option<usize>)
    ensures
        match r {
            Some(n) => table_len(*doc, path_view(path@)) == Some(n as nat),
            None => table_len(*doc, path_view(path@)) is None,
        },
        r == Some(0usize) ==> forall|q: Seq<Seq<char>>|
            is_prefix(path_view(path@), q) && q.len() > path@.len() ==> #[trigger] absent_at(*doc, q),
        r is Some && !is_inline(*doc, path_view(path@)) && (forall|k: Seq<char>|
            #[trigger] item_text(*doc, path_view(path@).push(k)) is None) ==> r == Some(0usize),
{
    path.iter().try_fold(doc.as_item(), |item, key| item.get(key.as_str())).and_then(|item| item.as_table_like()).map(
        |table| table.len(),
    )
}

/// `Item::as_array` on the item at `path`, then `Value::as_str` on each
/// of its values.
#[verifier::external_body]
pub(crate) fn array_strs_at(doc: &DocumentMut, path: &[String]) -> (r: Option<Vec<Option<String>>>)
    ensures
        match r {
            Some(v) => array_strs(*doc, path_view(path@)) == Some(opt_strs(v@)),
            None => array_strs(*doc, path_view(path@)) is None,
        },
{
    path.iter().try_fold(doc.as_item(), |item, key| item.get(key.as_str())).and_then(|item| item.as_array()).map(
        |array| array.iter().map(|value| value.as_str().map(String::from)).collect(),
    )
}

/// `Item::as_array_of_tables` on the item at `path`, then `Table::get`
/// of `field` and `Item::as_str` on each table; there is such a list
/// exactly when there are entry texts, one per table.
#[verifier::external_body]
pub(crate) fn entry_strs_at(doc: &DocumentMut, path: &[String], field: &str) -> (r: Option<Vec<Option<String>>>)
    ensures
        match r {
            Some(v) => {
                &&& entry_strs(*doc, path_view(path@), field@) == Some(opt_strs(v@))
                &&& entry_texts(*doc, path_view(path@)) matches Some(t) && t.len() == v@.len()
            },
            None => entry_strs(*doc, path_view(path@), field@) is None && entry_texts(
                *doc,
                path_view(path@),
            ) is None,
        },
{
    path.iter().try_fold(doc.as_item(), |item, key| item.get(key.as_str())).and_then(
        |item| item.as_array_of_tables(),
    ).map(|entries| entries.iter().map(|table| table.get(field).and_then(|v| v.as_str()).map(String::from)).collect())
}

/// `IndexMut<&str>` along `path` from the root, assigning the value
/// `toml_edit::value` makes of `leaf` (a string array is formatted with
/// `Array::fmt`). Tables missing on the way are created as inline tables;
/// only the items on the way to `path` change.
#[verifier::external_body]
pub(crate) fn set_leaf(doc: &mut DocumentMut, path: &[String], leaf: &Leaf)
    requires
        settable(*old(doc), path_view(path@)),
    ensures
        match *leaf {
            Leaf::Text(s) => str_at(*final(doc), path_view(path@)) == Some(s@),
            Leaf::Flag(b) => bool_at(*final(doc), path_view(path@)) == Some(b),
            Leaf::Texts(v) => array_strs(*final(doc), path_view(path@)) == Some(
                v@.map_values(|s: String| Some(s@)),
            ),
        },
        tables_on_way(*final(doc), path_view(path@)),
        untouched_except(*old(doc), *final(doc), path_view(path@)),
{
    let target = path.iter().fold(doc.as_item_mut(), |item, key| &mut item[key.as_str()]);
    *target = match leaf {
        Leaf::Text(s) => toml_edit::value(s.as_str()),
        Leaf::Flag(b) => toml_edit::value(*b),
        Leaf::Texts(v) => {
            let mut array: toml_edit::Array = v.iter().map(|s| s.as_str()).collect();
            array.fmt();
            toml_edit::value(array)
        },
    };
}

/// `IndexMut<&str>` along `path` from the root, assigning an array of
/// tables with one table per row, built by `Table::from_iter` from the
/// row's pairs as `toml_edit::value` strings. Every table on the way is
/// there and none is an inline table, which cannot hold an array of
/// tables.
#[verifier::external_body]
pub(crate) fn set_entries(doc: &mut DocumentMut, path: &[String], rows: &[Vec<(String, String)>])
    requires
        path@.len() >= 1,
        tables_on_way(*old(doc), path_view(path@)),
        forall|k: int| 1 <= k < path@.len() ==> !#[trigger] is_inline(*old(doc), path_view(path@).take(k)),
    ensures
        forall|f: Seq<char>|
            #[trigger] entry_strs(*final(doc), path_view(path@), f) == Some(
                rows@.map_values(|row: Vec<(String, String)>| row_value(row@, f)),
            ),
        tables_on_way(*final(doc), path_view(path@)),
        forall|k: int|
            1 <= k < path@.len() && item_text(*old(doc), path_view(path@).take(k)) is Some ==> #[trigger] is_inline(
                *final(doc),
                path_view(path@).take(k),
            ) == is_inline(*old(doc), path_view(path@).take(k)),
        untouched_except(*old(doc), *final(doc), path_view(path@)),
{
    let target = path.iter().fold(doc.as_item_mut(), |item, key| &mut item[key.as_str()]);
    *target = toml_edit::Item::ArrayOfTables(
        rows.iter().map(
            |row| row.iter().map(|(k, v)| (k.as_str(), toml_edit::value(v.as_str()))).collect::<toml_edit::Table>(),
        ).collect(),
    );
}

/// `TableLike::get_mut` along all but the last key of `path`, then
/// `TableLike::remove` of the last key from that table, if it is one.
#[verifier::external_body]
pub(crate) fn remove_at(doc: &mut DocumentMut, path: &[String])
    requires
        path@.len() >= 1,
    ensures
        cleared(*final(doc), path_view(path@)),
        settable(*old(doc), path_view(path@)) ==> settable(*final(doc), path_view(path@)),
        forall|k: int|
            1 <= k < path@.len() ==> #[trigger] is_inline(*final(doc), path_view(path@).take(k)) == is_inline(
                *old(doc),
                path_view(path@).take(k),
            ),
        untouched_except(*old(doc), *final(doc), path_view(path@)),
{
    let last = path.len() - 1;
    let _ = path[..last].iter().try_fold(
        doc.as_item_mut(),
        |item, key| item.as_table_like_mut().and_then(|table| table.get_mut(key.as_str())),
    ).and_then(|item| item.as_table_like_mut()).map(|table| table.remove(path[last].as_str()));
}

/// `ArrayOfTables::remove` of table `index` from the array of tables at
/// `path`.
#[verifier::external_body]
pub(crate) fn remove_entry_at(doc: &mut DocumentMut, path: &[String], index: usize)
    requires
        entry_texts(*old(doc), path_view(path@)) matches Some(t) && index < t.len(),
    ensures
        entry_texts(*final(doc), path_view(path@)) == Some(
            entry_texts(*old(doc), path_view(path@))->0.remove(index as int),
        ),
        forall|f: Seq<char>|
            #[trigger] entry_strs(*final(doc), path_view(path@), f) == match entry_strs(
                *old(doc),
                path_view(path@),
                f,
            ) {
                Some(v) => Some(v.remove(index as int)),
                None => None,
            },
        untouched_except(*old(doc), *final(doc), path_view(path@)),
{
    let _ = path.iter().try_fold(
        doc.as_item_mut(),
        |item, key| item.as_table_like_mut().and_then(|table| table.get_mut(key.as_str())),
    ).and_then(|item| item.as_array_of_tables_mut()).map(|entries| entries.remove(index));
}

/// `IndexMut<&str>` on table `index` of the array of tables at `path`,
/// assigning `toml_edit::value(s)` to `field`.
#[verifier::external_body]
pub(crate) fn set_entry_str(doc: &mut DocumentMut, path: &[String], index: usize, field: &str, s: &str)
    requires
        entry_texts(*old(doc), path_view(path@)) matches Some(t) && index < t.len(),
    ensures
        entry_strs(*final(doc), path_view(path@), field@) == Some(
            entry_strs(*old(doc), path_view(path@), field@)->0.update(index as int, Some(s@)),
        ),
        forall|f: Seq<char>|
            f != field@ ==> #[trigger] entry_strs(*final(doc), path_view(path@), f) == entry_strs(
                *old(doc),
                path_view(path@),
                f,
            ),
        entry_texts(*final(doc), path_view(path@)) matches Some(t) && t.len() == entry_texts(
            *old(doc),
            path_view(path@),
        )->0.len() && forall|j: int|
            0 <= j < t.len() && j != index ==> t[j] == entry_texts(*old(doc), path_view(path@))->0[j],
        untouched_except(*old(doc), *final(doc), path_view(path@)),
{
    let _ = path.iter().try_fold(
        doc.as_item_mut(),
        |item, key| item.as_table_like_mut().and_then(|table| table.get_mut(key.as_str())),
    ).and_then(|item| item.as_array_of_tables_mut()).and_then(|entries| entries.get_mut(index)).map(
        |table| table[field] = toml_edit::value(s),
    );
}

/// `IndexMut<&str>` of the root key `path[0]`, `Item::or_insert` of an
/// empty array of tables, `Item::as_array_of_tables_mut`, then
/// `ArrayOfTables::push` of `table`. Where the key holds something other
/// than an array of tables, nothing changes.
#[verifier::external_body]
pub(crate) fn push_entry(doc: &mut DocumentMut, path: &[String], table: toml_edit::Table)
    requires
        path@.len() == 1,
    ensures
        entry_texts(*old(doc), path_view(path@)) is Some || item_text(*old(doc), path_view(path@)) is None ==> {
            let before = match entry_texts(*old(doc), path_view(path@)) {
                Some(t) => t,
                None => Seq::empty(),
            };
            &&& entry_texts(*final(doc), path_view(path@)) matches Some(t) && t.len() == before.len() + 1
                && forall|j: int| 0 <= j < before.len() ==> t[j] == before[j]
            &&& entry_texts(*final(doc), path_view(path@))->0.last() == table_text(table)
            &&& untouched_except(*old(doc), *final(doc), path_view(path@))
        },
        !(entry_texts(*old(doc), path_view(path@)) is Some || item_text(*old(doc), path_view(path@)) is None)
            ==> *final(doc) == *old(doc),
{
    let _ = doc[path[0].as_str()].or_insert(toml_edit::Item::ArrayOfTables(toml_edit::ArrayOfTables::new()))
        .as_array_of_tables_mut().map(|entries| entries.push(table));
}

/// `ArrayOfTables::get_mut` of table `index` in the array of tables at
/// `path`, replaced by `table`.
#[verifier::external_body]
pub(crate) fn replace_entry_at(doc: &mut DocumentMut, path: &[String], index: usize, table: toml_edit::Table)
    requires
        entry_texts(*old(doc), path_view(path@)) matches Some(t) && index < t.len(),
    ensures
        entry_texts(*final(doc), path_view(path@)) matches Some(t) && t.len() == entry_texts(
            *old(doc),
            path_view(path@),
        )->0.len() && forall|j: int|
            0 <= j < t.len() && j != index ==> t[j] == entry_texts(*old(doc), path_view(path@))->0[j],
        entry_texts(*final(doc), path_view(path@))->0[index as int] == table_text(table),
        untouched_except(*old(doc), *final(doc), path_view(path@)),
{
    let _ = path.iter().try_fold(
        doc.as_item_mut(),
        |item, key| item.as_table_like_mut().and_then(|t| t.get_mut(key.as_str())),
    ).and_then(|item| item.as_array_of_tables_mut()).and_then(|entries| entries.get_mut(index)).map(
        |slot| *slot = table,
    );
}

/// `Table::insert` of an empty table under the root key `key`.
#[verifier::external_body]
pub(crate) fn insert_root_table(doc: &mut DocumentMut, key: &str)
    ensures
        table_len(*final(doc), seq![key@]) == Some(0nat),
        item_text(*final(doc), seq![key@]) is Some,
        !is_inline(*final(doc), seq![key@]),
        forall|q: Seq<Seq<char>>|
            is_prefix(seq![key@], q) && q.len() > 1 ==> #[trigger] absent_at(*final(doc), q),
        untouched_except(*old(doc), *final(doc), seq![key@]),
{
    let _ = doc.as_table_mut().insert(key, toml_edit::Item::Table(toml_edit::Table::new()));
}

/// `Table::remove` of the root key `key`, then `Table::insert` of it
/// back, turned into a table by `Item::into_table` where it is an inline
/// table (`Table::fmt` then clears the decoration of its values, so only
/// their own text may change). Whether there is an item and whether it
/// is a table stay as they were, and so does everything under it.
#[verifier::external_body]
pub(crate) fn root_table(doc: &mut DocumentMut, key: &str)
    ensures
        item_text(*final(doc), seq![key@]) is Some <==> item_text(*old(doc), seq![key@]) is Some,
        table_len(*final(doc), seq![key@]) is Some <==> table_len(*old(doc), seq![key@]) is Some,
        !is_inline(*final(doc), seq![key@]),
        !is_inline(*old(doc), seq![key@]) ==> forall|p: Seq<Seq<char>>|
            p.len() >= 1 ==> #[trigger] same_at(*old(doc), *final(doc), p),
        forall|p: Seq<Seq<char>>|
            is_prefix(seq![key@], p) && p.len() > 1 ==> #[trigger] same_values_at(*old(doc), *final(doc), p),
        forall|k: Seq<char>|
            (#[trigger] item_text(*final(doc), key_pair(key@, k)) is None) == (item_text(
                *old(doc),
                key_pair(key@, k),
            ) is None),
        forall|k: Seq<char>, f: Seq<char>|
            #[trigger] entry_strs(*final(doc), key_pair(key@, k), f) == entry_strs(*old(doc), key_pair(key@, k), f),
        untouched_except(*old(doc), *final(doc), seq![key@]),
{
    let taken = doc.as_table_mut().remove(key);
    let _ = taken.map(
        |item| doc.as_table_mut().insert(key, item.into_table().map_or_else(|other| other, toml_edit::Item::Table)),
    );
}

} // verus!
