//! Editing `config.toml` in place: each edit changes the items it is
//! about, prunes the tables it empties, and leaves every unrelated key
//! path reading as it did. Comments and layout are `toml_edit`'s to keep.
//! An edit that would have to write through something that is not a
//! table changes nothing and reports it.

use vstd::prelude::*;

use toml_edit::DocumentMut;

use crate::config;
use crate::config::{DashboardEntry, DashboardItem, EntryKind, FanUnit, HiddenCategory, TempUnit};
use crate::toml_doc::{
    insert_root_table, is_inline, key_pair, parsed_document, push_entry, same_values_at, table_text, replace_entry_at, absent_at, array_strs, array_strs_at, cleared, document_string, document_text, entry_strs,
    entry_strs_at, entry_texts, holds_leaf, is_prefix, item_text, item_text_at, opt_strs, parse_document,
    path_view, remove_at, remove_entry_at, root_table, row_value, same_at, set_entries, set_entry_str, set_leaf,
    settable, str_at, table_len, table_len_at, tables_on_way, toml_parses, unrelated, untouched_except, Leaf,
};

verus! {

/// The text of an optional string argument.
pub open spec fn opt_str_ref(o: Option<&str>) -> Option<Seq<char>> {
    match o {
        Some(s) => Some(s@),
        None => None,
    }
}

/// Key paths of one, two and three keys.
pub open spec fn p1(a: Seq<char>) -> Seq<Seq<char>> {
    seq![a]
}

pub open spec fn p2(a: Seq<char>, b: Seq<char>) -> Seq<Seq<char>> {
    seq![a, b]
}

pub open spec fn p3(a: Seq<char>, b: Seq<char>, c: Seq<char>) -> Seq<Seq<char>> {
    seq![a, b, c]
}

/// Only `path` and the tables on the way to it may read differently.
pub open spec fn only_on_way(a: DocumentMut, b: DocumentMut, path: Seq<Seq<char>>) -> bool {
    forall|p: Seq<Seq<char>>| !is_prefix(p, path) ==> #[trigger] same_at(a, b, p)
}

/// Whether a table at `path` is left empty.
pub open spec fn empty_table(d: DocumentMut, path: Seq<Seq<char>>) -> bool {
    table_len(d, path) == Some(0nat)
}

proof fn lemma_prefix_refl(a: Seq<Seq<char>>)
    ensures
        is_prefix(a, a),
{
    assert(a.take(a.len() as int) =~= a);
}

proof fn lemma_prefix_trans(a: Seq<Seq<char>>, b: Seq<Seq<char>>, c: Seq<Seq<char>>)
    requires
        is_prefix(a, b),
        is_prefix(b, c),
    ensures
        is_prefix(a, c),
{
    assert(c.take(a.len() as int) =~= c.take(b.len() as int).take(a.len() as int));
}

/// Two prefixes of one path: the shorter leads to the longer.
proof fn lemma_prefixes_nest(a: Seq<Seq<char>>, b: Seq<Seq<char>>, c: Seq<Seq<char>>)
    requires
        is_prefix(a, c),
        is_prefix(b, c),
        a.len() <= b.len(),
    ensures
        is_prefix(a, b),
{
    assert(b.take(a.len() as int) =~= c.take(b.len() as int).take(a.len() as int));
    assert(c.take(b.len() as int).take(a.len() as int) =~= c.take(a.len() as int));
}

/// A path that leads to a prefix of itself is that prefix.
proof fn lemma_prefix_same_len(a: Seq<Seq<char>>, b: Seq<Seq<char>>)
    requires
        is_prefix(a, b),
        a.len() == b.len(),
    ensures
        a == b,
{
    assert(b.take(b.len() as int) =~= b);
}

proof fn lemma_absent_same(a: DocumentMut, b: DocumentMut, p: Seq<Seq<char>>)
    requires
        absent_at(a, p),
        absent_at(b, p),
    ensures
        same_at(a, b, p),
{
    assert forall|f: Seq<char>| #[trigger] entry_strs(a, p, f) == entry_strs(b, p, f) by {
        assert(entry_strs(a, p, f) is None);
        assert(entry_strs(b, p, f) is None);
    }
}

/// A path unrelated to `inner` is unrelated to a longer path through it...
proof fn lemma_unrelated_deeper(p: Seq<Seq<char>>, outer: Seq<Seq<char>>, inner: Seq<Seq<char>>)
    requires
        unrelated(p, outer),
        is_prefix(outer, inner),
    ensures
        unrelated(p, inner),
{
    if is_prefix(p, inner) {
        if p.len() <= outer.len() {
            lemma_prefixes_nest(p, outer, inner);
        } else {
            lemma_prefixes_nest(outer, p, inner);
        }
    }
    if is_prefix(inner, p) {
        lemma_prefix_trans(outer, inner, p);
    }
}

/// ...and a path unrelated to a longer one leads to no shorter prefix of
/// it.
proof fn lemma_unrelated_not_on_way(p: Seq<Seq<char>>, outer: Seq<Seq<char>>, inner: Seq<Seq<char>>)
    requires
        unrelated(p, inner),
        is_prefix(outer, inner),
    ensures
        !is_prefix(p, outer),
{
    if is_prefix(p, outer) {
        lemma_prefix_trans(p, outer, inner);
    }
}

/// A frame around `inner` holds around any `outer` that `inner` goes
/// through.
proof fn lemma_frame_widen(a: DocumentMut, b: DocumentMut, outer: Seq<Seq<char>>, inner: Seq<Seq<char>>)
    requires
        untouched_except(a, b, inner),
        is_prefix(outer, inner),
    ensures
        untouched_except(a, b, outer),
{
    assert forall|p: Seq<Seq<char>>| unrelated(p, outer) implies #[trigger] same_at(a, b, p) by {
        lemma_unrelated_deeper(p, outer, inner);
    }
}

proof fn lemma_same_trans(a: DocumentMut, b: DocumentMut, c: DocumentMut, p: Seq<Seq<char>>)
    requires
        same_at(a, b, p),
        same_at(b, c, p),
    ensures
        same_at(a, c, p),
{
    assert forall|f: Seq<char>| #[trigger] entry_strs(a, p, f) == entry_strs(c, p, f) by {
        assert(entry_strs(a, p, f) == entry_strs(b, p, f));
        assert(entry_strs(b, p, f) == entry_strs(c, p, f));
    }
}

proof fn lemma_values_trans(a: DocumentMut, b: DocumentMut, c: DocumentMut, p: Seq<Seq<char>>)
    requires
        same_values_at(a, b, p),
        same_at(b, c, p),
    ensures
        same_values_at(a, c, p),
{
    assert forall|f: Seq<char>| #[trigger] entry_strs(a, p, f) == entry_strs(c, p, f) by {
        assert(entry_strs(a, p, f) == entry_strs(b, p, f));
        assert(entry_strs(b, p, f) == entry_strs(c, p, f));
    }
}

proof fn lemma_absent_transfer(a: DocumentMut, b: DocumentMut, p: Seq<Seq<char>>)
    requires
        absent_at(a, p),
        same_at(a, b, p),
    ensures
        absent_at(b, p),
{
    assert forall|f: Seq<char>| #[trigger] entry_strs(b, p, f) is None by {
        assert(entry_strs(a, p, f) == entry_strs(b, p, f));
        assert(entry_strs(a, p, f) is None);
    }
}

/// Pruning a table on the way to `pv` keeps everything beside `pv` and
/// at or below it.
proof fn lemma_prune_after(a: DocumentMut, b: DocumentMut, table: Seq<Seq<char>>, pv: Seq<Seq<char>>)
    requires
        only_on_way(a, b, table),
        is_prefix(table, pv),
        table.len() < pv.len(),
    ensures
        forall|p: Seq<Seq<char>>| unrelated(p, pv) ==> #[trigger] same_at(a, b, p),
        forall|q: Seq<Seq<char>>| is_prefix(pv, q) ==> #[trigger] same_at(a, b, q),
{
    assert forall|p: Seq<Seq<char>>| unrelated(p, pv) implies #[trigger] same_at(a, b, p) by {
        lemma_unrelated_not_on_way(p, table, pv);
    }
    assert forall|q: Seq<Seq<char>>| is_prefix(pv, q) implies #[trigger] same_at(a, b, q) by {
        assert(!is_prefix(q, table));
    }
}

fn path1(a: &str) -> (r: Vec<String>)
    ensures
        r@.len() == 1,
        path_view(r@) == p1(a@),
{
    let mut v: Vec<String> = Vec::new();
    v.push(a.to_owned());
    assert(path_view(v@) =~= p1(a@));
    v
}

fn path2(a: &str, b: &str) -> (r: Vec<String>)
    ensures
        r@.len() == 2,
        path_view(r@) == p2(a@, b@),
{
    let mut v: Vec<String> = Vec::new();
    v.push(a.to_owned());
    v.push(b.to_owned());
    assert(path_view(v@) =~= p2(a@, b@));
    v
}

fn path3(a: &str, b: &str, c: &str) -> (r: Vec<String>)
    ensures
        r@.len() == 3,
        path_view(r@) == p3(a@, b@, c@),
{
    let mut v: Vec<String> = Vec::new();
    v.push(a.to_owned());
    v.push(b.to_owned());
    v.push(c.to_owned());
    assert(path_view(v@) =~= p3(a@, b@, c@));
    v
}

/// Whether a value can be written at `path` (every table on the way
/// there is missing or a table).
fn can_write(doc: &DocumentMut, path: &Vec<String>) -> (r: bool)
    requires
        path@.len() >= 1,
    ensures
        r == settable(*doc, path_view(path@)),
{
    let ghost pv = path_view(path@);
    let mut prefix: Vec<String> = Vec::new();
    prefix.push(path[0].clone());
    assert(path_view(prefix@) =~= pv.take(1));
    let mut k: usize = 1;
    while k < path.len()
        invariant
            1 <= k <= path@.len(),
            pv == path_view(path@),
            path_view(prefix@) == pv.take(k as int),
            forall|j: int|
                1 <= j < k ==> (#[trigger] item_text(*doc, pv.take(j)) is None || table_len(*doc, pv.take(j)) is Some),
        decreases path@.len() - k,
    {
        let there = item_text_at(doc, prefix.as_slice());
        let len = table_len_at(doc, prefix.as_slice());
        if there.is_some() && len.is_none() {
            assert(item_text(*doc, pv.take(k as int)) is Some);
            return false;
        }
        let ghost before = prefix@;
        let next = path[k].clone();
        prefix.push(next);
        assert(path_view(prefix@) =~= path_view(before).push(path@[k as int]@));
        assert(path_view(prefix@) =~= pv.take(k + 1));
        k += 1;
    }
    true
}

/// Removes the table at `path` if it is empty.
fn prune(doc: &mut DocumentMut, path: &Vec<String>)
    requires
        path@.len() >= 1,
    ensures
        !empty_table(*final(doc), path_view(path@)),
        only_on_way(*old(doc), *final(doc), path_view(path@)),
        !empty_table(*old(doc), path_view(path@)) ==> *final(doc) == *old(doc),
        empty_table(*old(doc), path_view(path@)) ==> cleared(*final(doc), path_view(path@)),
        empty_table(*old(doc), path_view(path@)) ==> forall|q: Seq<Seq<char>>|
            is_prefix(path_view(path@), q) && q.len() > path@.len() ==> #[trigger] absent_at(*old(doc), q),
        table_len(*old(doc), path_view(path@)) is Some && !is_inline(*old(doc), path_view(path@)) && (forall|
            k: Seq<char>,
        | #[trigger] item_text(*old(doc), path_view(path@).push(k)) is None) ==> cleared(*final(doc), path_view(path@)),
{
    let ghost pv = path_view(path@);
    let len = table_len_at(doc, path.as_slice());
    let empty = match len {
        Some(n) => n == 0,
        None => false,
    };
    if empty {
        let ghost before = *doc;
        remove_at(doc, path.as_slice());
        proof {
            lemma_prefix_refl(pv);
            assert(absent_at(*doc, pv));
        }
        assert forall|p: Seq<Seq<char>>| !is_prefix(p, pv) implies #[trigger] same_at(before, *doc, p) by {
            if is_prefix(pv, p) {
                if p.len() == pv.len() {
                    lemma_prefix_same_len(pv, p);
                    lemma_prefix_refl(p);
                }
                assert(absent_at(before, p));
                assert(absent_at(*doc, p));
                lemma_absent_same(before, *doc, p);
            }
        }
    }
}

/// Writes `value` at `path`, or removes what is there when there is no
/// value.
fn write_or_remove(doc: &mut DocumentMut, path: &Vec<String>, value: Option<Leaf>) -> (done: bool)
    requires
        path@.len() >= 1,
    ensures
        done == (value is None || settable(*old(doc), path_view(path@))),
        done ==> match value {
            Some(leaf) => holds_leaf(*final(doc), path_view(path@), leaf) && tables_on_way(
                *final(doc),
                path_view(path@),
            ),
            None => cleared(*final(doc), path_view(path@)),
        },
        done ==> untouched_except(*old(doc), *final(doc), path_view(path@)),
        !done ==> *final(doc) == *old(doc),
{
    match value {
        Some(leaf) => {
            if can_write(doc, path) {
                set_leaf(doc, path.as_slice(), &leaf);
                true
            } else {
                false
            }
        },
        None => {
            remove_at(doc, path.as_slice());
            true
        },
    }
}

/// The strings of a hidden list as read from the file: the array's
/// string items in order, none when there is no array.
pub open spec fn listed_strings(o: Option<Seq<Option<Seq<char>>>>) -> Seq<Seq<char>> {
    match o {
        Some(items) => somes(items),
        None => Seq::empty(),
    }
}

pub open spec fn somes(items: Seq<Option<Seq<char>>>) -> Seq<Seq<char>>
    decreases items.len(),
{
    if items.len() == 0 {
        Seq::empty()
    } else {
        match items.last() {
            Some(s) => somes(items.drop_last()).push(s),
            None => somes(items.drop_last()),
        }
    }
}

/// The string items of `items`, in order.
fn strings_of(items: Option<Vec<Option<String>>>) -> (r: Vec<String>)
    ensures
        config::views(r@) == listed_strings(match items {
            Some(v) => Some(opt_strs(v@)),
            None => None,
        }),
{
    let mut out: Vec<String> = Vec::new();
    match items {
        Some(v) => {
            let ghost ov = opt_strs(v@);
            let mut i: usize = 0;
            while i < v.len()
                invariant
                    i <= v@.len(),
                    ov == opt_strs(v@),
                    config::views(out@) == somes(ov.take(i as int)),
                decreases v@.len() - i,
            {
                assert(ov.take(i + 1).drop_last() =~= ov.take(i as int));
                match &v[i] {
                    Some(s) => {
                        out.push(s.clone());
                    },
                    None => {},
                }
                assert(config::views(out@) =~= somes(ov.take(i + 1)));
                i += 1;
            }
            assert(ov.take(i as int) =~= ov);
        },
        None => {
            assert(config::views(out@) =~= Seq::<Seq<char>>::empty());
        },
    }
    out
}

/// What hiding or showing `key` for `chip` did to `a`, giving `b`.
pub open spec fn set_hidden_result(a: DocumentMut, b: DocumentMut, chip: Seq<char>, key: Seq<char>, hidden: bool, done: bool) -> bool {
    let path = p2("hidden"@, chip);
    let after = config::hidden_after(listed_strings(array_strs(a, path)), key, hidden);
    &&& done == (after.len() == 0 || settable(a, path))
    &&& done && after.len() == 0 ==> cleared(b, path)
    &&& done && after.len() > 0 ==> array_strs(b, path) == Some(
        after.map_values(|s: Seq<char>| Some(s)),
    )
    &&& done ==> untouched_except(a, b, path)
    &&& !done ==> b == a
}

/// Hides or shows `key` for `chip` in the `[hidden]` table: the chip's
/// list becomes its string items without `key`, plus `key` when hiding;
/// an emptied list is removed. Returns false, changing nothing, where
/// `hidden` is there but is no table.
pub fn set_hidden(doc: &mut DocumentMut, chip: &str, key: &str, hidden: bool) -> (done: bool)
    ensures
        set_hidden_result(*old(doc), *final(doc), chip@, key@, hidden, done),
{
    let path = path2("hidden", chip);
    let listed = strings_of(array_strs_at(doc, path.as_slice()));
    let next = config::hidden_list_after(&listed, key, hidden);
    if next.len() == 0 {
        write_or_remove(doc, &path, None)
    } else {
        let ghost want = config::views(next@);
        let ok = write_or_remove(doc, &path, Some(Leaf::Texts(next)));
        proof {
            if ok {
                assert(next@.map_values(|s: String| Some(s@)) =~= want.map_values(|s: Seq<char>| Some(s)));
            }
        }
        ok
    }
}

/// Hides or shows a whole device in the `[hidden]` table.
pub fn set_device_hidden(doc: &mut DocumentMut, chip: &str, hidden: bool) -> (done: bool)
    ensures
        set_hidden_result(*old(doc), *final(doc), chip@, config::HIDDEN_DEVICE_KEY@, hidden, done),
{
    set_hidden(doc, chip, config::HIDDEN_DEVICE_KEY, hidden)
}

/// Hides or shows a sensor category of a chip in the `[hidden]` table.
pub fn set_category_hidden(doc: &mut DocumentMut, chip: &str, category: HiddenCategory, hidden: bool) -> (done:
    bool)
    ensures
        set_hidden_result(*old(doc), *final(doc), chip@, config::category_key(category), hidden, done),
{
    set_hidden(doc, chip, category.key(), hidden)
}

/// The chip's hidden list as loading the file reads it.
pub open spec fn file_hidden_keys(d: DocumentMut, chip: Seq<char>) -> Seq<Seq<char>> {
    listed_strings(array_strs(d, p2("hidden"@, chip)))
}

proof fn lemma_somes_all(s: Seq<Seq<char>>)
    ensures
        somes(s.map_values(|x: Seq<char>| Some(x))) == s,
    decreases s.len(),
{
    let m = s.map_values(|x: Seq<char>| Some(x));
    if s.len() > 0 {
        lemma_somes_all(s.drop_last());
        assert(m.drop_last() =~= s.drop_last().map_values(|x: Seq<char>| Some(x)));
        assert(m.last() == Some(s.last()));
        assert(s.drop_last().push(s.last()) =~= s);
    } else {
        assert(m.len() == 0);
        assert(somes(m) =~= s);
    }
}

/// Hiding or showing `key` for `chip` in the file is what reading the
/// file back sees: the chip's list holds `key` exactly when it was
/// hidden, and every other chip's list reads as before.
pub proof fn law_hidden_reads_back(a: DocumentMut, b: DocumentMut, chip: Seq<char>, key: Seq<char>, hidden: bool)
    requires
        set_hidden_result(a, b, chip, key, hidden, true),
    ensures
        file_hidden_keys(b, chip).contains(key) == hidden,
        forall|other: Seq<char>|
            other != chip ==> #[trigger] file_hidden_keys(b, other) == file_hidden_keys(a, other),
{
    let path = p2("hidden"@, chip);
    let after = config::hidden_after(listed_strings(array_strs(a, path)), key, hidden);
    config::law_hide_show(listed_strings(array_strs(a, path)), key);
    if after.len() == 0 {
        lemma_prefix_refl(path);
        assert(absent_at(b, path));
        assert(file_hidden_keys(b, chip) =~= Seq::<Seq<char>>::empty());
        if hidden {
            assert(after.contains(key));
        }
    } else {
        lemma_somes_all(after);
        assert(file_hidden_keys(b, chip) == after);
    }
    assert forall|other: Seq<char>| other != chip implies #[trigger] file_hidden_keys(b, other) == file_hidden_keys(
        a,
        other,
    ) by {
        let q = p2("hidden"@, other);
        assert(q[1] != path[1]);
        assert(q.take(2) =~= q);
        assert(path.take(2) =~= path);
        assert(unrelated(q, path));
        assert(same_at(a, b, q));
    }
}

/// Hiding a device in the file and reading the chip's list back into the
/// names shows the device hidden, with every channel of it, or shown.
pub proof fn law_device_hidden_reads_back(
    a: DocumentMut,
    b: DocumentMut,
    chip: Seq<char>,
    hidden: bool,
    names: config::NamesConfig,
)
    requires
        set_hidden_result(a, b, chip, config::HIDDEN_DEVICE_KEY@, hidden, true),
        names.hidden_keys(chip) == file_hidden_keys(b, chip),
    ensures
        names.hidden_keys(chip).contains(config::HIDDEN_DEVICE_KEY@) == hidden,
        hidden ==> forall|k: Seq<char>| #[trigger] names.hidden_spec(chip, k),
{
    law_hidden_reads_back(a, b, chip, config::HIDDEN_DEVICE_KEY@, hidden);
}

/// Hiding a category in the file and reading the chip's list back into
/// the names shows the category hidden, with every channel of it, or
/// shown.
pub proof fn law_category_hidden_reads_back(
    a: DocumentMut,
    b: DocumentMut,
    chip: Seq<char>,
    category: HiddenCategory,
    hidden: bool,
    names: config::NamesConfig,
)
    requires
        set_hidden_result(a, b, chip, config::category_key(category), hidden, true),
        names.hidden_keys(chip) == file_hidden_keys(b, chip),
    ensures
        names.hidden_keys(chip).contains(config::category_key(category)) == hidden,
        hidden ==> forall|k: Seq<char>|
            config::category_of_key(k) == Some(category) ==> #[trigger] names.hidden_spec(chip, k),
{
    law_hidden_reads_back(a, b, chip, config::category_key(category), hidden);
}

/// Deletes the `[[custom]]` sensor going by `id`.
pub fn delete_custom(doc: &mut DocumentMut, id: &str) -> (done: bool)
    ensures
        done == !(entry_count(*old(doc), EntryKind::Custom) matches Some(n) && n >= usize::MAX),
        done ==> entry_deleted(*old(doc), *final(doc), EntryKind::Custom, id@),
        !done ==> *final(doc) == *old(doc),
{
    delete_entry_in(doc, EntryKind::Custom, id)
}

/// Deletes the `[[curve]]` going by `id`.
pub fn delete_curve(doc: &mut DocumentMut, id: &str) -> (done: bool)
    ensures
        done == !(entry_count(*old(doc), EntryKind::Curve) matches Some(n) && n >= usize::MAX),
        done ==> entry_deleted(*old(doc), *final(doc), EntryKind::Curve, id@),
        !done ==> *final(doc) == *old(doc),
{
    delete_entry_in(doc, EntryKind::Curve, id)
}

/// What setting or removing `[section.<chip>] key` did to `a`, giving `b`.
pub open spec fn edit_graph_field_result(a: DocumentMut, b: DocumentMut, section: Seq<char>, chip: Seq<char>, key: Seq<char>, value: Option<Leaf>, done: bool) -> bool {
    let path = p3(section, chip, key);
    &&& done == (value is None || settable(a, path))
    &&& done ==> match value {
        Some(leaf) => holds_leaf(b, path, leaf),
        None => cleared(b, path),
    }
    &&& done ==> !empty_table(b, p2(section, chip)) && !empty_table(
        b,
        p1(section),
    )
    &&& done ==> untouched_except(a, b, path)
    &&& !done ==> b == a
}

/// Sets or removes `[section.<chip>] key`, then removes the chip's table
/// and the section if they are left empty. Returns false, changing
/// nothing, where a value is to be written through something that is no
/// table.
pub fn edit_graph_field(doc: &mut DocumentMut, section: &str, chip: &str, key: &str, value: Option<Leaf>) -> (done:
    bool)
    ensures
        edit_graph_field_result(*old(doc), *final(doc), section@, chip@, key@, value, done),
{
    let path = path3(section, chip, key);
    let ghost start = *doc;
    let ghost pv = p3(section@, chip@, key@);
    let ghost chip_path = p2(section@, chip@);
    let ghost section_path = p1(section@);
    let ghost leaf = value;
    if !write_or_remove(doc, &path, value) {
        return false;
    }
    let ghost written = *doc;
    let chip_table = path2(section, chip);
    prune(doc, &chip_table);
    let ghost mid = *doc;
    let section_table = path1(section);
    prune(doc, &section_table);
    proof {
        assert(pv.take(2) =~= chip_path);
        assert(pv.take(1) =~= section_path);
        assert(chip_path.take(1) =~= section_path);
        assert(is_prefix(section_path, chip_path));
        lemma_prune_after(written, mid, chip_path, pv);
        lemma_prune_after(mid, *doc, section_path, pv);
        assert forall|p: Seq<Seq<char>>| unrelated(p, pv) implies #[trigger] same_at(start, *doc, p) by {
            assert(same_at(start, written, p));
            assert(same_at(written, mid, p));
            assert(same_at(mid, *doc, p));
            lemma_same_trans(start, written, mid, p);
            lemma_same_trans(start, mid, *doc, p);
        }
        lemma_prefix_refl(pv);
        assert(same_at(written, mid, pv));
        assert(same_at(mid, *doc, pv));
        match leaf {
            Some(l) => {
                assert(holds_leaf(written, pv, l));
            },
            None => {
                assert forall|q: Seq<Seq<char>>| is_prefix(pv, q) implies #[trigger] absent_at(*doc, q) by {
                    assert(absent_at(written, q));
                    assert(same_at(written, mid, q));
                    assert(same_at(mid, *doc, q));
                    lemma_absent_transfer(written, mid, q);
                    lemma_absent_transfer(mid, *doc, q);
                }
            },
        }
        if empty_table(mid, section_path) {
            assert(absent_at(*doc, chip_path));
        }
    }
    true
}

/// The name a temperature unit is stored under.
pub open spec fn temp_unit_name(t: TempUnit) -> Seq<char> {
    match t {
        TempUnit::Celsius => "celsius"@,
        TempUnit::Fahrenheit => "fahrenheit"@,
    }
}

/// The name a fan unit is stored under.
pub open spec fn fan_unit_name(f: FanUnit) -> Seq<char> {
    match f {
        FanUnit::Rpm => "rpm"@,
        FanUnit::Percent => "percent"@,
    }
}

/// What writing both units did to `a`, giving `b`.
pub open spec fn edit_units_result(a: DocumentMut, b: DocumentMut, temp: TempUnit, fan: FanUnit, done: bool) -> bool {
    let t = p2("units"@, "temperature"@);
    let f = p2("units"@, "fan"@);
    &&& done == settable(a, t)
    &&& done ==> str_at(b, t) == Some(temp_unit_name(temp)) && str_at(b, f) == Some(
        fan_unit_name(fan),
    )
    &&& done ==> forall|p: Seq<Seq<char>>|
        unrelated(p, t) && unrelated(p, f) ==> #[trigger] same_at(a, b, p)
    &&& !done ==> b == a
}

/// Writes both units into `[units]`. Returns false, changing nothing,
/// where `units` is there but is no table.
pub fn edit_units(doc: &mut DocumentMut, temp: TempUnit, fan: FanUnit) -> (done: bool)
    ensures
        edit_units_result(*old(doc), *final(doc), temp, fan, done),
{
    let ghost t = p2("units"@, "temperature"@);
    let ghost f = p2("units"@, "fan"@);
    let ghost start = *doc;
    let temp_path = path2("units", "temperature");
    let temp_name = temp.as_str();
    if !write_or_remove(doc, &temp_path, Some(Leaf::Text(temp_name.to_owned()))) {
        return false;
    }
    let ghost mid = *doc;
    let fan_path = path2("units", "fan");
    let fan_name = fan.as_str();
    proof {
        reveal_strlit("temperature");
        reveal_strlit("fan");
        assert(f.take(1) =~= t.take(1));
        assert(table_len(mid, t.take(1)) is Some);
        assert(settable(mid, f));
    }
    let done = write_or_remove(doc, &fan_path, Some(Leaf::Text(fan_name.to_owned())));
    proof {
        assert(t[1] == "temperature"@ && f[1] == "fan"@);
        assert("temperature"@.len() != "fan"@.len());
        assert(t[1] != f[1]);
        assert(unrelated(t, f)) by {
            assert(f.take(2) =~= f);
            assert(t.take(2) =~= t);
        }
        assert(same_at(mid, *doc, t));
        assert forall|p: Seq<Seq<char>>| unrelated(p, t) && unrelated(p, f) implies #[trigger] same_at(
            start,
            *doc,
            p,
        ) by {
            assert(same_at(start, mid, p));
            assert(same_at(mid, *doc, p));
            lemma_same_trans(start, mid, *doc, p);
        }
    }
    done
}

/// What setting or removing a channel's name did to `a`, giving `b`.
pub open spec fn edit_chip_name_result(a: DocumentMut, b: DocumentMut, chip: Seq<char>, key: Seq<char>, name: Option<Seq<char>>, done: bool) -> bool {
    let path = p3("chips"@, chip, key);
    &&& done == (name is None || settable(a, path))
    &&& done ==> match name {
        Some(n) => str_at(b, path) == Some(n),
        None => cleared(b, path),
    }
    &&& done ==> untouched_except(a, b, path)
    &&& !done ==> b == a
}

/// Sets a channel's display name in `[chips.<chip>]`, or removes it.
/// Returns false, changing nothing, where a name is to be written through
/// something that is no table.
pub fn edit_chip_name(doc: &mut DocumentMut, chip: &str, key: &str, name: Option<&str>) -> (done: bool)
    ensures
        edit_chip_name_result(*old(doc), *final(doc), chip@, key@, opt_str_ref(name), done),
{
    let path = path3("chips", chip, key);
    let value = match name {
        Some(n) => Some(Leaf::Text(n.to_owned())),
        None => None,
    };
    write_or_remove(doc, &path, value)
}

/// What remembering a fan's curve did to `a`, giving `b`.
pub open spec fn edit_fan_curve_result(a: DocumentMut, b: DocumentMut, chip: Seq<char>, key: Seq<char>, curve: Seq<char>, done: bool) -> bool {
    let path = p3("fan_curve"@, chip, key);
    &&& done == settable(a, path)
    &&& done ==> str_at(b, path) == Some(curve)
    &&& done ==> untouched_except(a, b, path)
    &&& !done ==> b == a
}

/// Remembers the curve last chosen for a fan in `[fan_curve.<chip>]`.
/// Returns false, changing nothing, where the way there is blocked by
/// something that is no table.
pub fn edit_fan_curve(doc: &mut DocumentMut, chip: &str, key: &str, curve: &str) -> (done: bool)
    ensures
        edit_fan_curve_result(*old(doc), *final(doc), chip@, key@, curve@, done),
{
    let path = path3("fan_curve", chip, key);
    write_or_remove(doc, &path, Some(Leaf::Text(curve.to_owned())))
}

/// What setting or removing a curve's color did to `a`, giving `b`.
pub open spec fn edit_curve_color_result(a: DocumentMut, b: DocumentMut, id: Seq<char>, color: Option<Seq<char>>, done: bool) -> bool {
    let path = p2("curve_color"@, id);
    &&& done == (color is None || settable(a, path))
    &&& done ==> match color {
        Some(c) => str_at(b, path) == Some(c),
        None => cleared(b, path),
    }
    &&& done ==> !empty_table(b, p1("curve_color"@))
    &&& done ==> untouched_except(a, b, path)
    &&& !done ==> b == a
}

/// Sets or removes a curve's color in `[curve_color]`, removing the table
/// when it is left empty. Returns false, changing nothing, where
/// `curve_color` is there but is no table and a color is to be written.
pub fn edit_curve_color(doc: &mut DocumentMut, id: &str, color: Option<&str>) -> (done: bool)
    ensures
        edit_curve_color_result(*old(doc), *final(doc), id@, opt_str_ref(color), done),
{
    let path = path2("curve_color", id);
    let ghost start = *doc;
    let ghost pv = p2("curve_color"@, id@);
    let ghost table = p1("curve_color"@);
    let value = match color {
        Some(c) => Some(Leaf::Text(c.to_owned())),
        None => None,
    };
    if !write_or_remove(doc, &path, value) {
        return false;
    }
    let ghost written = *doc;
    let table_path = path1("curve_color");
    prune(doc, &table_path);
    proof {
        assert(pv.take(1) =~= table);
        lemma_prune_after(written, *doc, table, pv);
        assert forall|p: Seq<Seq<char>>| unrelated(p, pv) implies #[trigger] same_at(start, *doc, p) by {
            assert(same_at(start, written, p));
            assert(same_at(written, *doc, p));
            lemma_same_trans(start, written, *doc, p);
        }
        lemma_prefix_refl(pv);
        assert(same_at(written, *doc, pv));
        if color is None {
            assert forall|q: Seq<Seq<char>>| is_prefix(pv, q) implies #[trigger] absent_at(*doc, q) by {
                assert(absent_at(written, q));
                assert(same_at(written, *doc, q));
                lemma_absent_transfer(written, *doc, q);
            }
        }
    }
    true
}

/// Which `[[custom]]` or `[[curve]]` entry goes by `id`: the first whose
/// `id` (or positional fallback) is it.
#[verifier::opaque]
pub open spec fn first_entry(kind: EntryKind, ids: Seq<Option<Seq<char>>>, id: Seq<char>) -> Option<int> {
    if exists|i: int| 0 <= i < ids.len() && entry_id(kind, ids, i) == id {
        Some(
            choose|i: int|
                0 <= i < ids.len() && entry_id(kind, ids, i) == id && forall|j: int|
                    0 <= j < i ==> entry_id(kind, ids, j) != id,
        )
    } else {
        None
    }
}

/// An entry's own id, or its positional fallback.
pub open spec fn entry_id(kind: EntryKind, ids: Seq<Option<Seq<char>>>, i: int) -> Seq<char> {
    match ids[i] {
        Some(s) => s,
        None => config::numbered(config::entry_prefix(kind), (i + 1) as nat),
    }
}

/// Where the entries of `kind` stand in the file.
pub open spec fn entry_section(kind: EntryKind) -> Seq<Seq<char>> {
    p1(config::entry_prefix(kind))
}

fn section_path(kind: EntryKind) -> (r: Vec<String>)
    ensures
        r@.len() == 1,
        path_view(r@) == entry_section(kind),
{
    match kind {
        EntryKind::Custom => path1("custom"),
        EntryKind::Curve => path1("curve"),
    }
}

/// Finds the entry going by `id`, from the ids as read from the file.
fn locate_entry(kind: EntryKind, ids: &Vec<Option<String>>, id: &str) -> (r: Option<usize>)
    requires
        ids@.len() < usize::MAX,
    ensures
        match r {
            Some(i) => i < ids@.len() && first_entry(kind, opt_strs(ids@), id@) == Some(i as int),
            None => first_entry(kind, opt_strs(ids@), id@) is None,
        },
{
    let ghost v = opt_strs(ids@);
    let r = config::entry_position(kind, ids.as_slice(), id);
    proof {
        reveal(first_entry);
        assert forall|i: int| 0 <= i < ids@.len() implies #[trigger] entry_id(kind, v, i) == config::effective_id(
            kind,
            ids@[i],
            i as nat,
        ) by {}
        match r {
            Some(i) => {
                let w = i as int;
                assert(entry_id(kind, v, w) == id@);
                let c = choose|c: int|
                    0 <= c < v.len() && entry_id(kind, v, c) == id@ && forall|j: int|
                        0 <= j < c ==> entry_id(kind, v, j) != id@;
                assert(c == w) by {
                    if c < w {
                        assert(entry_id(kind, v, c) != id@);
                    }
                    if c > w {
                        assert(entry_id(kind, v, w) != id@);
                    }
                }
            },
            None => {
                assert(!exists|i: int| 0 <= i < v.len() && entry_id(kind, v, i) == id@) by {
                    assert forall|i: int| 0 <= i < v.len() implies entry_id(kind, v, i) != id@ by {
                        assert(entry_id(kind, v, i) == config::effective_id(kind, ids@[i], i as nat));
                    }
                }
            },
        }
    }
    r
}

/// Deletes the `[[custom]]` or `[[curve]]` entry going by `id`; the
/// others keep their order and content. Returns false, changing nothing,
/// only for a list too long to count.
/// Deleting the entry going by `id` from `a` gives `b`: the others keep
/// their order and content, and nothing else changes.
pub open spec fn entry_deleted(a: DocumentMut, b: DocumentMut, kind: EntryKind, id: Seq<char>) -> bool {
    let path = entry_section(kind);
    match entry_strs(a, path, "id"@) {
        None => b == a,
        Some(ids) => match first_entry(kind, ids, id) {
            Some(i) => {
                &&& entry_texts(b, path) == Some(entry_texts(a, path)->0.remove(i))
                &&& forall|f: Seq<char>|
                    #[trigger] entry_strs(b, path, f) == match entry_strs(a, path, f) {
                        Some(v) => Some(v.remove(i)),
                        None => None,
                    }
                &&& untouched_except(a, b, path)
            },
            None => b == a,
        },
    }
}

/// How many entries there are for `kind`, if they are an array of tables.
pub open spec fn entry_count(d: DocumentMut, kind: EntryKind) -> Option<nat> {
    match entry_strs(d, entry_section(kind), "id"@) {
        Some(ids) => Some(ids.len()),
        None => None,
    }
}

/// Deletes the `[[custom]]` or `[[curve]]` entry going by `id`; the
/// others keep their order and content. Returns false, changing nothing,
/// only for a list too long to count.
pub fn delete_entry_in(doc: &mut DocumentMut, kind: EntryKind, id: &str) -> (done: bool)
    ensures
        done == !(entry_count(*old(doc), kind) matches Some(n) && n >= usize::MAX),
        done ==> entry_deleted(*old(doc), *final(doc), kind, id@),
        !done ==> *final(doc) == *old(doc),
{
    let path = section_path(kind);
    let ghost pv = path_view(path@);
    let ghost start = *doc;
    let ids = entry_strs_at(doc, path.as_slice(), "id");
    match ids {
        None => true,
        Some(v) => {
            if v.len() == usize::MAX {
                return false;
            }
            let found = locate_entry(kind, &v, id);
            match found {
                Some(i) => {
                    assert(entry_texts(start, pv) matches Some(t) && i < t.len());
                    remove_entry_at(doc, path.as_slice(), i);
                    true
                },
                None => true,
            }
        },
    }
}

/// Renaming the entry going by `id` in `a` gives `b`: its `name` is
/// `name`, its other fields and the other entries stay, and nothing else
/// changes.
pub open spec fn entry_renamed(a: DocumentMut, b: DocumentMut, kind: EntryKind, id: Seq<char>, name: Seq<char>) -> bool {
    let path = entry_section(kind);
    match entry_strs(a, path, "id"@) {
        None => b == a,
        Some(ids) => match first_entry(kind, ids, id) {
            Some(i) => {
                &&& entry_strs(b, path, "name"@) == Some(entry_strs(a, path, "name"@)->0.update(i, Some(name)))
                &&& forall|f: Seq<char>| f != "name"@ ==> #[trigger] entry_strs(b, path, f) == entry_strs(a, path, f)
                &&& entry_texts(b, path) matches Some(t) && t.len() == entry_texts(a, path)->0.len() && forall|j: int|
                    0 <= j < t.len() && j != i ==> t[j] == entry_texts(a, path)->0[j]
                &&& untouched_except(a, b, path)
            },
            None => b == a,
        },
    }
}

/// Sets the `name` of the `[[custom]]` or `[[curve]]` entry going by
/// `id`; its other fields and the other entries stay. Returns false,
/// changing nothing, only for a list too long to count.
pub fn rename_entry_in(doc: &mut DocumentMut, kind: EntryKind, id: &str, name: &str) -> (done: bool)
    ensures
        done == !(entry_count(*old(doc), kind) matches Some(n) && n >= usize::MAX),
        done ==> entry_renamed(*old(doc), *final(doc), kind, id@, name@),
        !done ==> *final(doc) == *old(doc),
{
    let path = section_path(kind);
    let ghost pv = path_view(path@);
    let ghost start = *doc;
    let ids = entry_strs_at(doc, path.as_slice(), "id");
    match ids {
        None => true,
        Some(v) => {
            if v.len() == usize::MAX {
                return false;
            }
            let found = locate_entry(kind, &v, id);
            match found {
                Some(i) => {
                    assert(entry_texts(start, pv) matches Some(t) && i < t.len());
                    set_entry_str(doc, path.as_slice(), i, "name", name);
                    true
                },
                None => true,
            }
        },
    }
}

/// Where the dashboard pins stand: `[[dashboard.item]]`.
pub open spec fn pin_path() -> Seq<Seq<char>> {
    p2("dashboard"@, "item"@)
}

/// A pin's fields as read from the file: kind, chip, channel, id.
pub open spec fn pin_view(e: DashboardEntry) -> (Option<Seq<char>>, Option<Seq<char>>, Option<Seq<char>>, Option<
    Seq<char>,
>) {
    (config::opt_view(e.kind), config::opt_view(e.chip), config::opt_view(e.channel), config::opt_view(e.id))
}

/// The pins stored in the document, in order; none where there is no
/// array of tables.
pub open spec fn stored_pins(d: DocumentMut) -> Seq<
    (Option<Seq<char>>, Option<Seq<char>>, Option<Seq<char>>, Option<Seq<char>>),
> {
    match (
        entry_strs(d, pin_path(), "kind"@),
        entry_strs(d, pin_path(), "chip"@),
        entry_strs(d, pin_path(), "channel"@),
        entry_strs(d, pin_path(), "id"@),
    ) {
        (Some(k), Some(c), Some(h), Some(i)) => Seq::new(k.len(), |j: int| (k[j], c[j], h[j], i[j])),
        _ => Seq::empty(),
    }
}

/// Whether stored pin fields are the pin for `item`.
pub open spec fn pin_matches(
    v: (Option<Seq<char>>, Option<Seq<char>>, Option<Seq<char>>, Option<Seq<char>>),
    item: DashboardItem,
) -> bool {
    &&& v.0 == Some(config::item_kind_str(item.kind))
    &&& match item.kind {
        config::DashboardItemKind::Curve => v.3 == config::opt_view(item.id),
        _ => v.1 == config::opt_view(item.chip) && v.2 == config::opt_view(item.channel),
    }
}

/// The pins after pinning or unpinning `item`: every pin for it goes, the
/// others keep their order, and pinning appends its table.
pub open spec fn pins_after(
    pins: Seq<(Option<Seq<char>>, Option<Seq<char>>, Option<Seq<char>>, Option<Seq<char>>)>,
    item: DashboardItem,
    pinned: bool,
) -> Seq<(Option<Seq<char>>, Option<Seq<char>>, Option<Seq<char>>, Option<Seq<char>>)> {
    let kept = pins.filter(|v: (Option<Seq<char>>, Option<Seq<char>>, Option<Seq<char>>, Option<Seq<char>>)| !pin_matches(v, item));
    if pinned {
        let e = config::entry_for(item);
        kept.push((Some(config::item_kind_str(item.kind)), config::opt_view(e.chip), config::opt_view(e.channel), config::opt_view(e.id)))
    } else {
        kept
    }
}

proof fn lemma_filter_views(s: Seq<DashboardEntry>, item: DashboardItem)
    ensures
        s.filter(|e: DashboardEntry| !config::entry_matches(e, item)).map_values(|e: DashboardEntry| pin_view(e))
            == s.map_values(|e: DashboardEntry| pin_view(e)).filter(
            |v: (Option<Seq<char>>, Option<Seq<char>>, Option<Seq<char>>, Option<Seq<char>>)| !pin_matches(v, item),
        ),
    decreases s.len(),
{
    reveal(Seq::filter);
    let f = |e: DashboardEntry| !config::entry_matches(e, item);
    let g = |v: (Option<Seq<char>>, Option<Seq<char>>, Option<Seq<char>>, Option<Seq<char>>)| !pin_matches(v, item);
    let m = |e: DashboardEntry| pin_view(e);
    if s.len() > 0 {
        lemma_filter_views(s.drop_last(), item);
        assert(s.map_values(m).drop_last() =~= s.drop_last().map_values(m));
        assert(f(s.last()) == g(pin_view(s.last())));
        if f(s.last()) {
            assert(s.filter(f) == s.drop_last().filter(f).push(s.last()));
            assert(s.filter(f).map_values(m) =~= s.drop_last().filter(f).map_values(m).push(pin_view(s.last())));
        }
    } else {
        assert(s.filter(f).map_values(m) =~= Seq::empty());
        assert(s.map_values(m) =~= Seq::empty());
    }
}

/// The pins as read from the file, one entry per table.
fn read_pins(doc: &DocumentMut) -> (r: Vec<DashboardEntry>)
    ensures
        r@.map_values(|e: DashboardEntry| pin_view(e)) == stored_pins(*doc),
{
    let path = path2("dashboard", "item");
    let kinds = entry_strs_at(doc, path.as_slice(), "kind");
    let chips = entry_strs_at(doc, path.as_slice(), "chip");
    let channels = entry_strs_at(doc, path.as_slice(), "channel");
    let ids = entry_strs_at(doc, path.as_slice(), "id");
    let mut out: Vec<DashboardEntry> = Vec::new();
    match (kinds, chips, channels, ids) {
        (Some(k), Some(c), Some(h), Some(d)) => {
            let ghost want = stored_pins(*doc);
            let mut j: usize = 0;
            while j < k.len()
                invariant
                    j <= k@.len(),
                    k@.len() == c@.len() && k@.len() == h@.len() && k@.len() == d@.len(),
                    want == Seq::new(
                        k@.len(),
                        |x: int| (opt_strs(k@)[x], opt_strs(c@)[x], opt_strs(h@)[x], opt_strs(d@)[x]),
                    ),
                    out@.map_values(|e: DashboardEntry| pin_view(e)) == want.take(j as int),
                decreases k@.len() - j,
            {
                let e = DashboardEntry {
                    kind: config::opt_clone(&k[j]),
                    chip: config::opt_clone(&c[j]),
                    channel: config::opt_clone(&h[j]),
                    id: config::opt_clone(&d[j]),
                };
                let ghost prev = out@;
                out.push(e);
                assert(pin_view(e) == want[j as int]);
                assert(out@.map_values(|e: DashboardEntry| pin_view(e)) =~= prev.map_values(
                    |e: DashboardEntry| pin_view(e),
                ).push(pin_view(e)));
                assert(out@.map_values(|e: DashboardEntry| pin_view(e)) =~= want.take(j + 1));
                j += 1;
            }
            assert(want.take(j as int) =~= want);
        },
        _ => {
            assert(out@.map_values(|e: DashboardEntry| pin_view(e)) =~= stored_pins(*doc));
        },
    }
    out
}

proof fn lemma_row_push(row: Seq<(String, String)>, pair: (String, String), f: Seq<char>)
    ensures
        row_value(row.push(pair), f) == if pair.0@ == f {
            Some(pair.1@)
        } else {
            row_value(row, f)
        },
{
    assert(row.push(pair).drop_last() =~= row);
}

proof fn lemma_field_names()
    ensures
        "kind"@ != "chip"@,
        "kind"@ != "channel"@,
        "kind"@ != "id"@,
        "chip"@ != "channel"@,
        "chip"@ != "id"@,
        "channel"@ != "id"@,
{
    reveal_strlit("kind");
    reveal_strlit("chip");
    reveal_strlit("channel");
    reveal_strlit("id");
    assert("kind"@[0] != "chip"@[0]);
    assert("kind"@[0] != "channel"@[0]);
    assert("kind"@.len() != "id"@.len());
    assert("chip"@.len() != "channel"@.len());
    assert("chip"@.len() != "id"@.len());
    assert("channel"@.len() != "id"@.len());
}

/// Appends `(key, value)` to `row` when there is a value.
fn push_field(row: &mut Vec<(String, String)>, key: &str, value: &Option<String>)
    ensures
        forall|f: Seq<char>|
            #[trigger] row_value(final(row)@, f) == if f == key@ && value is Some {
                config::opt_view(*value)
            } else {
                row_value(old(row)@, f)
            },
{
    match value {
        Some(v) => {
            let pair = (key.to_owned(), v.clone());
            let ghost before = row@;
            row.push(pair);
            proof {
                assert forall|f: Seq<char>| #[trigger] row_value(row@, f) == if f == key@ {
                    Some(v@)
                } else {
                    row_value(before, f)
                } by {
                    lemma_row_push(before, pair, f);
                }
            }
        },
        None => {},
    }
}

/// The fields a pin's table is written with, in order, leaving out the
/// ones it does not have.
fn pin_row(e: &DashboardEntry) -> (r: Vec<(String, String)>)
    ensures
        row_value(r@, "kind"@) == config::opt_view(e.kind),
        row_value(r@, "chip"@) == config::opt_view(e.chip),
        row_value(r@, "channel"@) == config::opt_view(e.channel),
        row_value(r@, "id"@) == config::opt_view(e.id),
{
    proof {
        lemma_field_names();
    }
    let mut row: Vec<(String, String)> = Vec::new();
    assert(row_value(row@, "kind"@) is None && row_value(row@, "chip"@) is None && row_value(row@, "channel"@) is None
        && row_value(row@, "id"@) is None);
    push_field(&mut row, "kind", &e.kind);
    push_field(&mut row, "chip", &e.chip);
    push_field(&mut row, "channel", &e.channel);
    push_field(&mut row, "id", &e.id);
    row
}

/// Whether the pins can be written: `dashboard` is missing or a table.
fn dashboard_writable(doc: &DocumentMut) -> (r: bool)
    ensures
        r == settable(*doc, pin_path()),
{
    let path = path2("dashboard", "item");
    can_write(doc, &path)
}

/// What pinning or unpinning `item` did to `a`, giving `b`.
pub open spec fn set_dashboard_pinned_result(a: DocumentMut, b: DocumentMut, item: DashboardItem, pinned: bool, done: bool) -> bool {
    let after = pins_after(stored_pins(a), item, pinned);
    &&& done == (after.len() == 0 || settable(a, pin_path()))
    &&& done ==> stored_pins(b) == after
    &&& done && after.len() == 0 ==> cleared(b, pin_path())
    &&& done ==> !empty_table(b, p1("dashboard"@))
    &&& done && after.len() > 0 ==> !is_inline(b, p1("dashboard"@))
    &&& done && after.len() == 0 && only_pins_in_dashboard(a) ==> item_text(b, p1("dashboard"@)) is None
    &&& done ==> forall|p: Seq<Seq<char>>|
        beside_pins(p) ==> #[trigger] same_values_at(a, b, p)
    &&& done ==> untouched_except(a, b, p1("dashboard"@))
    &&& !done ==> b == a
}

/// A key path under `[dashboard]` that is not the pin list or under it.
pub open spec fn beside_pins(p: Seq<Seq<char>>) -> bool {
    is_prefix(p1("dashboard"@), p) && p.len() > 1 && !is_prefix(pin_path(), p)
}

/// `dashboard` is a table holding nothing but the pin list.
pub open spec fn only_pins_in_dashboard(d: DocumentMut) -> bool {
    &&& table_len(d, p1("dashboard"@)) is Some
    &&& forall|k: Seq<char>| k != "item"@ ==> #[trigger] item_text(d, key_pair("dashboard"@, k)) is None
}

/// Pins or unpins `item` in `[[dashboard.item]]`: every pin for it goes,
/// the others keep their order, and pinning appends its table. An
/// emptied list is removed, then an empty `[dashboard]`; an inline
/// `dashboard` table becomes a `[dashboard]` table. Returns false,
/// changing nothing, where pins are to be written but `dashboard` is
/// there and is no table.
pub fn set_dashboard_pinned(doc: &mut DocumentMut, item: &DashboardItem, pinned: bool) -> (done: bool)
    ensures
        set_dashboard_pinned_result(*old(doc), *final(doc), *item, pinned, done),
{
    let ghost start = *doc;
    let ghost pv = pin_path();
    let ghost dv = p1("dashboard"@);
    let entries = read_pins(doc);
    let ghost before = entries@;
    let next = config::pins_after_edit(entries, item, pinned);
    let ghost after = pins_after(stored_pins(start), *item, pinned);
    proof {
        lemma_filter_views(before, *item);
        let m = |e: DashboardEntry| pin_view(e);
        if pinned {
            assert(next@.drop_last().map_values(m) =~= next@.map_values(m).drop_last());
            assert(next@.map_values(m) =~= after);
        } else {
            assert(next@.map_values(m) =~= after);
        }
    }
    if next.len() > 0 && !dashboard_writable(doc) {
        return false;
    }
    let dashboard = "dashboard".to_owned();
    proof {
        assert(pv.take(1) =~= dv);
        assert(is_prefix(dv, pv));
    }
    root_table(doc, dashboard.as_str());
    let ghost s1 = *doc;
    let path = path2("dashboard", "item");
    proof {
        // The pins read the same from the table the dashboard became.
        assert(crate::toml_doc::key_pair(dashboard@, "item"@) == pv);
        assert(entry_strs(s1, crate::toml_doc::key_pair(dashboard@, "item"@), "kind"@) == entry_strs(start, pv, "kind"@));
        assert(entry_strs(s1, crate::toml_doc::key_pair(dashboard@, "item"@), "chip"@) == entry_strs(start, pv, "chip"@));
        assert(entry_strs(s1, crate::toml_doc::key_pair(dashboard@, "item"@), "channel"@) == entry_strs(start, pv, "channel"@));
        assert(entry_strs(s1, crate::toml_doc::key_pair(dashboard@, "item"@), "id"@) == entry_strs(start, pv, "id"@));
        assert(stored_pins(s1) == stored_pins(start));
        assert forall|p: Seq<Seq<char>>| beside_pins(p) implies #[trigger] same_values_at(start, s1, p) by {
            assert(seq![dashboard@] == dv);
        }
        if next@.len() > 0 {
            assert(settable(s1, pv)) by {
                assert(pv.take(1) == dv);
            }
        }
    }
    remove_at(doc, path.as_slice());
    let ghost s2 = *doc;
    proof {
        lemma_frame_widen(s1, s2, dv, pv);
        assert(seq![dashboard@] == dv);
        assert forall|p: Seq<Seq<char>>| beside_pins(p) implies #[trigger] same_values_at(start, s2, p) by {
            assert(same_values_at(start, s1, p));
            if is_prefix(p, pv) {
                if p.len() == pv.len() {
                    lemma_prefix_same_len(p, pv);
                    lemma_prefix_refl(pv);
                }
            }
            assert(unrelated(p, pv));
            assert(same_at(s1, s2, p));
            lemma_values_trans(start, s1, s2, p);
        }
        assert(!is_inline(s2, dv)) by {
            assert(pv.take(1) == dv);
        }
    }
    if next.len() > 0 {
        let there = item_text_at(doc, path1("dashboard").as_slice());
        if there.is_none() {
            insert_root_table(doc, dashboard.as_str());
        }
        let ghost s3 = *doc;
        proof {
            assert(item_text(s3, dv) is Some);
            assert forall|p: Seq<Seq<char>>| beside_pins(p) implies #[trigger] same_values_at(start, s3, p) by {
                if item_text(s2, dv) is None {
                    assert(absent_at(s2, p));
                    assert(absent_at(s3, p));
                    lemma_absent_same(s2, s3, p);
                }
                lemma_values_trans(start, s2, s3, p);
            }
        }
        let mut rows: Vec<Vec<(String, String)>> = Vec::new();
        let mut j: usize = 0;
        while j < next.len()
            invariant
                j <= next@.len(),
                rows@.len() == j,
                forall|x: int|
                    0 <= x < j ==> {
                        &&& row_value(#[trigger] rows@[x]@, "kind"@) == config::opt_view(next@[x].kind)
                        &&& row_value(rows@[x]@, "chip"@) == config::opt_view(next@[x].chip)
                        &&& row_value(rows@[x]@, "channel"@) == config::opt_view(next@[x].channel)
                        &&& row_value(rows@[x]@, "id"@) == config::opt_view(next@[x].id)
                    },
            decreases next@.len() - j,
        {
            let row = pin_row(&next[j]);
            rows.push(row);
            j += 1;
        }
        proof {
            assert(!is_inline(s2, pv.take(1)));
            assert(!is_inline(s3, pv.take(1)));
            assert(tables_on_way(s3, pv)) by {
                assert(pv.take(1) == dv);
                if item_text(s2, dv) is None {
                    assert(table_len(s3, dv) is Some);
                } else {
                    assert(settable(s2, pv));
                    assert(table_len(s2, pv.take(1)) is Some);
                }
            }
        }
        set_entries(doc, path.as_slice(), rows.as_slice());
        let ghost s4 = *doc;
        proof {
            lemma_frame_widen(s3, s4, dv, pv);
            assert(!is_inline(s4, dv)) by {
                assert(pv.take(1) == dv);
            }
            assert forall|p: Seq<Seq<char>>| beside_pins(p) implies #[trigger] same_values_at(start, s4, p) by {
                if is_prefix(p, pv) {
                    if p.len() == pv.len() {
                        lemma_prefix_same_len(p, pv);
                        lemma_prefix_refl(pv);
                    }
                }
                assert(unrelated(p, pv));
                lemma_values_trans(start, s3, s4, p);
            }
            assert(stored_pins(s4) =~= after) by {
                assert(entry_strs(s4, pv, "kind"@) == Some(rows@.map_values(|row: Vec<(String, String)>| row_value(row@, "kind"@))));
                assert(entry_strs(s4, pv, "chip"@) == Some(rows@.map_values(|row: Vec<(String, String)>| row_value(row@, "chip"@))));
                assert(entry_strs(s4, pv, "channel"@) == Some(rows@.map_values(|row: Vec<(String, String)>| row_value(row@, "channel"@))));
                assert(entry_strs(s4, pv, "id"@) == Some(rows@.map_values(|row: Vec<(String, String)>| row_value(row@, "id"@))));
            }
            assert forall|p: Seq<Seq<char>>| unrelated(p, dv) implies #[trigger] same_at(start, s4, p) by {
                lemma_same_trans(start, s1, s2, p);
                lemma_same_trans(start, s2, s3, p);
                lemma_same_trans(start, s3, s4, p);
            }
        }
    } else {
        proof {
            lemma_prefix_refl(pv);
            assert(absent_at(s2, pv));
            assert(entry_strs(s2, pv, "kind"@) is None);
            assert(stored_pins(s2) =~= after);
            assert forall|p: Seq<Seq<char>>| unrelated(p, dv) implies #[trigger] same_at(start, s2, p) by {
                lemma_same_trans(start, s1, s2, p);
            }
            if only_pins_in_dashboard(start) {
                assert(table_len(s1, dv) is Some);
                assert forall|k: Seq<char>| #[trigger] item_text(s2, dv.push(k)) is None by {
                    assert(dv.push(k) =~= key_pair("dashboard"@, k));
                    if k == "item"@ {
                        assert(dv.push(k) =~= pv);
                        assert(absent_at(s2, pv));
                    } else {
                        assert(item_text(start, key_pair("dashboard"@, k)) is None);
                        assert(item_text(s1, key_pair("dashboard"@, k)) is None);
                        assert(unrelated(key_pair("dashboard"@, k), pv)) by {
                            assert(key_pair("dashboard"@, k)[1] != pv[1]);
                            assert(key_pair("dashboard"@, k).take(2) =~= key_pair("dashboard"@, k));
                            assert(pv.take(2) =~= pv);
                        }
                        assert(same_at(s1, s2, key_pair("dashboard"@, k)));
                    }
                }
                assert(settable(s1, pv)) by {
                    assert(pv.take(1) == dv);
                }
                assert(settable(s2, pv));
                assert(item_text(s2, pv.take(1)) is None || table_len(s2, pv.take(1)) is Some);
                assert(pv.take(1) == dv);
            }
        }
    }
    let ghost s5 = *doc;
    let table = path1("dashboard");
    prune(doc, &table);
    proof {
        assert forall|p: Seq<Seq<char>>| beside_pins(p) implies #[trigger] same_values_at(start, *doc, p) by {
            assert(!is_prefix(p, dv));
            lemma_values_trans(start, s5, *doc, p);
        }
        if next@.len() > 0 {
            if empty_table(s5, dv) {
                lemma_prefix_refl(pv);
                assert(absent_at(s5, pv));
                assert(entry_strs(s5, pv, "kind"@) is None);
            }
        }
        if next@.len() == 0 && only_pins_in_dashboard(start) && item_text(s5, dv) is Some {
            lemma_prefix_refl(dv);
            assert(absent_at(*doc, dv));
        }
        if next@.len() > 0 {
            assert(!empty_table(s5, dv));
            assert(*doc == s5);
            assert(!is_inline(*doc, dv));
        }
        if next@.len() == 0 && only_pins_in_dashboard(start) {
            lemma_prefix_refl(dv);
            if table_len(s5, dv) is Some {
                assert(forall|k: Seq<char>| #[trigger] item_text(s5, dv.push(k)) is None);
                assert(!is_inline(s5, dv));
                assert(cleared(*doc, dv));
                assert(absent_at(*doc, dv));
            } else {
                assert(*doc == s5);
                assert(item_text(s5, dv) is None);
            }
            assert(item_text(*doc, dv) is None);
        }
        lemma_prune_after(s5, *doc, dv, pv);
        lemma_prefix_refl(pv);
        assert(same_at(s5, *doc, pv));
        assert(stored_pins(*doc) == stored_pins(s5));
        assert forall|p: Seq<Seq<char>>| unrelated(p, dv) implies #[trigger] same_at(start, *doc, p) by {
            assert(!is_prefix(p, dv));
            lemma_same_trans(start, s5, *doc, p);
        }
        if next@.len() == 0 {
            assert forall|q: Seq<Seq<char>>| is_prefix(pv, q) implies #[trigger] absent_at(*doc, q) by {
                assert(absent_at(s5, q));
                lemma_absent_transfer(s5, *doc, q);
            }
        }
    }
    true
}

/// What saving `table` as the entry going by `id` did to `a`, giving `b`:
/// it replaces that entry, or is appended when there is none, and that
/// slot then reads as `table`; the other entries and everything beside
/// the list stay.
pub open spec fn entry_saved(
    a: DocumentMut,
    b: DocumentMut,
    kind: EntryKind,
    id: Seq<char>,
    table: toml_edit::Table,
    done: bool,
) -> bool {
    let path = entry_section(kind);
    let before = match entry_texts(a, path) {
        Some(t) => t,
        None => Seq::empty(),
    };
    let ids = match entry_strs(a, path, "id"@) {
        Some(v) => v,
        None => Seq::empty(),
    };
    &&& done == ((entry_texts(a, path) is Some || item_text(a, path) is None) && ids.len() < usize::MAX)
    &&& done ==> match first_entry(kind, ids, id) {
        Some(i) => {
            &&& entry_texts(b, path) matches Some(t) && t.len() == before.len() && forall|j: int|
                0 <= j < t.len() && j != i ==> t[j] == before[j]
            &&& entry_texts(b, path)->0[i] == table_text(table)
        },
        None => {
            &&& entry_texts(b, path) matches Some(t) && t.len() == before.len() + 1 && forall|j: int|
                0 <= j < before.len() ==> t[j] == before[j]
            &&& entry_texts(b, path)->0.last() == table_text(table)
        },
    }
    &&& done ==> untouched_except(a, b, path)
    &&& !done ==> b == a
}

/// Saves `table` as the `[[custom]]` or `[[curve]]` entry going by `id`:
/// it replaces that entry, or is appended. Returns false, changing
/// nothing, where the key holds something other than an array of tables
/// (or a list too long to count).
pub fn save_entry(doc: &mut DocumentMut, kind: EntryKind, id: &str, table: toml_edit::Table) -> (done: bool)
    ensures
        entry_saved(*old(doc), *final(doc), kind, id@, table, done),
{
    let path = section_path(kind);
    let ghost pv = path_view(path@);
    let there = item_text_at(doc, path.as_slice());
    let ids = entry_strs_at(doc, path.as_slice(), "id");
    let ids = match ids {
        Some(v) => v,
        None => {
            if there.is_some() {
                return false;
            }
            Vec::new()
        },
    };
    assert(opt_strs(ids@) =~= match entry_strs(*old(doc), pv, "id"@) {
        Some(v) => v,
        None => Seq::empty(),
    });
    if ids.len() == usize::MAX {
        return false;
    }
    match locate_entry(kind, &ids, id) {
        Some(i) => {
            replace_entry_at(doc, path.as_slice(), i, table);
        },
        None => {
            push_entry(doc, path.as_slice(), table);
        },
    }
    true
}

/// One edit of `config.toml`.
pub enum ConfigEdit {
    /// Both display units.
    Units { temp: TempUnit, fan: FanUnit },
    /// A channel's display name; `None` removes it.
    ChipName { chip: String, key: String, name: Option<String> },
    /// Hiding or showing a channel, a category or the whole device.
    Hidden { chip: String, key: String, hidden: bool },
    /// One `[section.<chip>] key` graph setting; `None` removes it.
    GraphField { section: String, chip: String, key: String, value: Option<Leaf> },
    /// A curve's color; `None` removes it.
    CurveColor { id: String, color: Option<String> },
    /// The curve last chosen for a fan.
    FanCurve { chip: String, key: String, curve: String },
    /// A derived sensor's or curve's display name.
    RenameEntry { kind: EntryKind, id: String, name: String },
    /// Deleting a derived sensor or a curve.
    DeleteEntry { kind: EntryKind, id: String },
    /// Saving a derived sensor's or curve's table, by its id.
    SaveEntry { kind: EntryKind, id: String, table: toml_edit::Table },
    /// Pinning or unpinning a dashboard item.
    Pin { item: DashboardItem, pinned: bool },
}

/// What `edit` did to `a`, giving `b`, and whether it was made.
pub open spec fn edit_result(a: DocumentMut, b: DocumentMut, edit: ConfigEdit, done: bool) -> bool {
    match edit {
        ConfigEdit::Units { temp, fan } => edit_units_result(a, b, temp, fan, done),
        ConfigEdit::ChipName { chip, key, name } => edit_chip_name_result(
            a,
            b,
            chip@,
            key@,
            config::opt_view(name),
            done,
        ),
        ConfigEdit::Hidden { chip, key, hidden } => set_hidden_result(a, b, chip@, key@, hidden, done),
        ConfigEdit::GraphField { section, chip, key, value } => edit_graph_field_result(
            a,
            b,
            section@,
            chip@,
            key@,
            value,
            done,
        ),
        ConfigEdit::CurveColor { id, color } => edit_curve_color_result(a, b, id@, config::opt_view(color), done),
        ConfigEdit::FanCurve { chip, key, curve } => edit_fan_curve_result(a, b, chip@, key@, curve@, done),
        ConfigEdit::RenameEntry { kind, id, name } => {
            &&& done == !(entry_count(a, kind) matches Some(n) && n >= usize::MAX)
            &&& done ==> entry_renamed(a, b, kind, id@, name@)
            &&& !done ==> b == a
        },
        ConfigEdit::DeleteEntry { kind, id } => {
            &&& done == !(entry_count(a, kind) matches Some(n) && n >= usize::MAX)
            &&& done ==> entry_deleted(a, b, kind, id@)
            &&& !done ==> b == a
        },
        ConfigEdit::SaveEntry { kind, id, table } => entry_saved(a, b, kind, id@, table, done),
        ConfigEdit::Pin { item, pinned } => set_dashboard_pinned_result(a, b, item, pinned, done),
    }
}

fn opt_as_str(o: &Option<String>) -> (r: Option<&str>)
    ensures
        opt_str_ref(r) == config::opt_view(*o),
{
    match o {
        Some(s) => Some(s.as_str()),
        None => None,
    }
}

/// Makes `edit` on the document; false where it could not be made.
pub fn apply_edit(doc: &mut DocumentMut, edit: ConfigEdit) -> (done: bool)
    ensures
        edit_result(*old(doc), *final(doc), edit, done),
{
    match edit {
        ConfigEdit::Units { temp, fan } => edit_units(doc, temp, fan),
        ConfigEdit::ChipName { chip, key, name } => edit_chip_name(doc, chip.as_str(), key.as_str(), opt_as_str(&name)),
        ConfigEdit::Hidden { chip, key, hidden } => set_hidden(doc, chip.as_str(), key.as_str(), hidden),
        ConfigEdit::GraphField { section, chip, key, value } => edit_graph_field(
            doc,
            section.as_str(),
            chip.as_str(),
            key.as_str(),
            value,
        ),
        ConfigEdit::CurveColor { id, color } => edit_curve_color(doc, id.as_str(), opt_as_str(&color)),
        ConfigEdit::FanCurve { chip, key, curve } => edit_fan_curve(doc, chip.as_str(), key.as_str(), curve.as_str()),
        ConfigEdit::RenameEntry { kind, id, name } => rename_entry_in(doc, kind, id.as_str(), name.as_str()),
        ConfigEdit::DeleteEntry { kind, id } => delete_entry_in(doc, kind, id.as_str()),
        ConfigEdit::SaveEntry { kind, id, table } => save_entry(doc, kind, id.as_str(), table),
        ConfigEdit::Pin { item, pinned } => set_dashboard_pinned(doc, &item, pinned),
    }
}

/// The new text of `config.toml` after `edit`: `text` parsed as a TOML
/// document, edited, and written back. `None`, so that nothing is
/// written, where `text` is no TOML document or the edit could not be
/// made on it.
pub fn edit_config_text(text: &str, edit: ConfigEdit) -> (r: Option<String>)
    ensures
        !toml_parses(text@) ==> r is None,
        toml_parses(text@) ==> exists|b: DocumentMut|
            #[trigger] edit_result(parsed_document(text@), b, edit, r is Some) && (r matches Some(out) ==> out@
                == document_text(b)),
{
    let ghost e = edit;
    match parse_document(text) {
        None => None,
        Some(mut doc) => {
            let done = apply_edit(&mut doc, edit);
            let r = if done {
                Some(document_string(&doc))
            } else {
                None
            };
            assert(edit_result(parsed_document(text@), doc, e, r is Some) && (r matches Some(out) ==> out@
                == document_text(doc)));
            r
        },
    }
}

} // verus!
