//! Import of the tree-shaped export of a third-party hosts manager. Two
//! schema generations are recognised by their shape: a newer one with a
//! content table beside a folder tree, and an older flat or nested list.
use vstd::prelude::*;
use crate::error::StoreError;
use crate::json::{get_member, get_str, json_get, lemma_member_within, str_of, text_or, JsonValue};
use crate::json::{json_document, parse_json};
use crate::model::{config_wf, content_of, files_map, files_view, ProfileFile, first_index, has_name, AppConfig, ConfigView};
use crate::profiles::{
    fresh_along, last_content, leaves_view, lemma_upsert_all, upsert_all, lookup_profile_file, upsert_profiles, upserts_done,
};

verus! {

/// The host records of the newer schema: `collection.hosts.data`.
pub open spec fn host_records(data: JsonValue) -> Seq<JsonValue> {
    match json_get(data, "collection"@) {
        Some(c) => match json_get(c, "hosts"@) {
            Some(h) => match json_get(h, "data"@) {
                Some(JsonValue::Array(a)) => a@,
                _ => Seq::empty(),
            },
            None => Seq::empty(),
        },
        None => Seq::empty(),
    }
}

/// Content by id of the host records that have both a string id and string
/// content; a later record replaces an earlier one with the same id.
pub open spec fn host_table(hs: Seq<JsonValue>) -> Map<Seq<char>, Seq<char>>
    decreases hs.len(),
{
    if hs.len() == 0 {
        Map::empty()
    } else {
        let t = host_table(hs.drop_last());
        match (str_of(json_get(hs.last(), "id"@)), str_of(json_get(hs.last(), "content"@))) {
            (Some(id), Some(c)) => t.insert(id, c),
            _ => t,
        }
    }
}

/// A node of the newer tree is a folder when its type is "folder".
pub open spec fn is_tree_folder(item: JsonValue) -> bool {
    str_of(json_get(item, "type"@)) == Some("folder"@)
}

/// The profile of a leaf of the newer tree: content from the table by id,
/// else inline, else empty.
pub open spec fn tree_leaf(item: JsonValue, table: Map<Seq<char>, Seq<char>>) -> (Seq<char>, Seq<char>) {
    let title = text_or(str_of(json_get(item, "title"@)), "Unknown"@);
    let id = text_or(str_of(json_get(item, "id"@)), Seq::empty());
    let content = if table.contains_key(id) {
        table[id]
    } else {
        text_or(str_of(json_get(item, "content"@)), Seq::empty())
    };
    (title, content)
}

/// The leaves among the first `n` nodes of a newer tree, depth first, in
/// order.
pub open spec fn tree_leaves(items: Seq<JsonValue>, n: int, table: Map<Seq<char>, Seq<char>>) -> Seq<
    (Seq<char>, Seq<char>),
>
    decreases items, n,
{
    if n <= 0 || n > items.len() {
        Seq::empty()
    } else {
        let item = items[n - 1];
        tree_leaves(items, n - 1, table) + if is_tree_folder(item) {
            match json_get(item, "children"@) {
                Some(JsonValue::Array(cs)) => {
                    proof {
                        lemma_children_decrease(items, n - 1, cs);
                    }
                    tree_leaves(cs@, cs@.len() as int, table)
                },
                _ => Seq::empty(),
            }
        } else {
            seq![tree_leaf(item, table)]
        }
    }
}

/// A node of the older list is a folder when its `folder` member is `true`;
/// without a boolean `folder`, when it has a `type` that is "folder".
pub open spec fn is_list_folder(item: JsonValue) -> bool {
    match json_get(item, "folder"@) {
        Some(JsonValue::Bool(b)) => b,
        _ => match json_get(item, "type"@) {
            Some(t) => str_of(Some(t)) == Some("folder"@),
            None => false,
        },
    }
}

/// The profile of a leaf of the older list.
pub open spec fn list_leaf(item: JsonValue) -> (Seq<char>, Seq<char>) {
    (
        text_or(str_of(json_get(item, "title"@)), "Unknown"@),
        text_or(str_of(json_get(item, "content"@)), Seq::empty()),
    )
}

/// The leaves among the first `n` nodes of an older list, depth first, in
/// order.
pub open spec fn list_leaves(items: Seq<JsonValue>, n: int) -> Seq<(Seq<char>, Seq<char>)>
    decreases items, n,
{
    if n <= 0 || n > items.len() {
        Seq::empty()
    } else {
        let item = items[n - 1];
        list_leaves(items, n - 1) + if is_list_folder(item) {
            match json_get(item, "children"@) {
                Some(JsonValue::Array(cs)) => {
                    proof {
                        lemma_children_decrease(items, n - 1, cs);
                    }
                    list_leaves(cs@, cs@.len() as int)
                },
                _ => Seq::empty(),
            }
        } else {
            seq![list_leaf(item)]
        }
    }
}

/// The `children` array of a node is smaller than the list that holds the
/// node.
pub proof fn lemma_children_decrease(items: Seq<JsonValue>, i: int, cs: Vec<JsonValue>)
    requires
        0 <= i < items.len(),
        json_get(items[i], "children"@) == Some(JsonValue::Array(cs)),
    ensures
        decreases_to!(items => cs@),
{
    if let JsonValue::Object(ms) = items[i] {
        lemma_member_within(ms@, "children"@);
        let j = choose|j: int| 0 <= j < ms@.len() && (#[trigger] ms@[j]).1 == JsonValue::Array(cs);
        assert(decreases_to!(items => items[i]));
        assert(decreases_to!(items[i] => ms));
        assert(decreases_to!(ms => ms@));
        assert(decreases_to!(ms@ => ms@[j]));
        assert(decreases_to!(ms@[j] => ms@[j].1));
        let node = ms@[j].1;
        if let JsonValue::Array(xs) = node {
            assert(decreases_to!(node => xs));
            assert(xs == cs);
        }
        assert(decreases_to!(cs => cs@));
        assert(decreases_to!(items => cs@));
    }
}

pub open spec fn opt_view(s: Option<&String>) -> Option<Seq<char>> {
    match s {
        Some(t) => Some(t@),
        None => None,
    }
}

/// Whether `s` is the text `lit`.
fn is_text(s: Option<&String>, lit: &str) -> (r: bool)
    ensures
        r == (opt_view(s) == Some(lit@)),
{
    match s {
        Some(t) => *t == lit.to_owned(),
        None => false,
    }
}

/// `s`, or `default` when absent.
fn text_or_default(s: Option<&String>, default: &str) -> (r: String)
    ensures
        r@ == text_or(opt_view(s), default@),
{
    match s {
        Some(t) => t.clone(),
        None => default.to_owned(),
    }
}

/// The content table of a newer document's `data` member.
fn host_table_of(data: &JsonValue) -> (r: Vec<ProfileFile>)
    ensures
        files_map(files_view(r@)) == host_table(host_records(*data)),
{
    let mut table: Vec<ProfileFile> = Vec::new();
    let records: Option<&Vec<JsonValue>> = match get_member(data, "collection") {
        Some(c) => match get_member(c, "hosts") {
            Some(h) => match get_member(h, "data") {
                Some(JsonValue::Array(a)) => Some(a),
                _ => None,
            },
            None => None,
        },
        None => None,
    };
    match records {
        Some(hs) => {
            let mut i: usize = 0;
            while i < hs.len()
                invariant
                    i <= hs.len(),
                    files_map(files_view(table@)) == host_table(hs@.take(i as int)),
                decreases hs.len() - i,
            {
                assert(hs@.take(i + 1).drop_last() =~= hs@.take(i as int));
                let ghost prev = table@;
                let h = &hs[i];
                match (get_str(h, "id"), get_str(h, "content")) {
                    (Some(id), Some(c)) => {
                        table.push(ProfileFile { id: id.clone(), content: c.clone() });
                        assert(files_view(table@).drop_last() =~= files_view(prev));
                    },
                    _ => {},
                }
                i = i + 1;
            }
            assert(hs@.take(hs.len() as int) =~= hs@);
        },
        None => {
            assert(host_records(*data) =~= Seq::<JsonValue>::empty());
            assert(files_map(files_view(table@)) =~= host_table(host_records(*data)));
        },
    }
    table
}

/// Appends the leaves of a newer tree to `out`, depth first.
fn collect_tree(items: &Vec<JsonValue>, table: &Vec<ProfileFile>, out: &mut Vec<(String, String)>)
    ensures
        leaves_view(final(out)@) == leaves_view(old(out)@) + tree_leaves(
            items@,
            items@.len() as int,
            files_map(files_view(table@)),
        ),
    decreases items@,
{
    let ghost tm = files_map(files_view(table@));
    let mut i: usize = 0;
    while i < items.len()
        invariant
            i <= items.len(),
            tm == files_map(files_view(table@)),
            leaves_view(out@) == leaves_view(old(out)@) + tree_leaves(items@, i as int, tm),
        decreases items.len() - i,
    {
        let item = &items[i];
        let ghost before = leaves_view(out@);
        if is_text(get_str(item, "type"), "folder") {
            match get_member(item, "children") {
                Some(JsonValue::Array(cs)) => {
                    proof {
                        lemma_children_decrease(items@, i as int, *cs);
                    }
                    collect_tree(cs, table, out);
                },
                _ => {},
            }
        } else {
            let title = text_or_default(get_str(item, "title"), "Unknown");
            let id = text_or_default(get_str(item, "id"), "");
            let content = match lookup_profile_file(table, &id) {
                Some(c) => c,
                None => text_or_default(get_str(item, "content"), ""),
            };
            proof {
                reveal_strlit("");
                assert(""@ =~= Seq::<char>::empty());
            }
            assert((title@, content@) == tree_leaf(*item, tm));
            let ghost prev = out@;
            out.push((title, content));
            assert forall|k: int| 0 <= k < prev.len() implies #[trigger] out@[k] == prev[k] by {}
            assert(leaves_view(out@) =~= before.push(tree_leaf(*item, tm)));
        }
        assert(leaves_view(out@) =~= leaves_view(old(out)@) + tree_leaves(items@, i + 1, tm));
        i = i + 1;
    }
}

/// Appends the leaves of an older list to `out`, depth first.
fn collect_list(items: &Vec<JsonValue>, out: &mut Vec<(String, String)>)
    ensures
        leaves_view(final(out)@) == leaves_view(old(out)@) + list_leaves(items@, items@.len() as int),
    decreases items@,
{
    let mut i: usize = 0;
    while i < items.len()
        invariant
            i <= items.len(),
            leaves_view(out@) == leaves_view(old(out)@) + list_leaves(items@, i as int),
        decreases items.len() - i,
    {
        let item = &items[i];
        let ghost before = leaves_view(out@);
        let folder = match get_member(item, "folder") {
            Some(JsonValue::Bool(b)) => *b,
            _ => match get_member(item, "type") {
                Some(JsonValue::Str(t)) => *t == "folder".to_owned(),
                Some(_) => false,
                None => false,
            },
        };
        if folder {
            match get_member(item, "children") {
                Some(JsonValue::Array(cs)) => {
                    proof {
                        lemma_children_decrease(items@, i as int, *cs);
                    }
                    collect_list(cs, out);
                },
                _ => {},
            }
        } else {
            let title = text_or_default(get_str(item, "title"), "Unknown");
            let content = text_or_default(get_str(item, "content"), "");
            proof {
                reveal_strlit("");
                assert(""@ =~= Seq::<char>::empty());
            }
            assert((title@, content@) == list_leaf(*item));
            let ghost prev = out@;
            out.push((title, content));
            assert forall|k: int| 0 <= k < prev.len() implies #[trigger] out@[k] == prev[k] by {}
            assert(leaves_view(out@) =~= before.push(list_leaf(*item)));
        }
        assert(leaves_view(out@) =~= leaves_view(old(out)@) + list_leaves(items@, i + 1));
        i = i + 1;
    }
}

/// The folder tree and content table of a newer document, when it has one.
pub open spec fn tree_of_document(doc: JsonValue) -> Option<(Seq<JsonValue>, Map<Seq<char>, Seq<char>>)> {
    match json_get(doc, "data"@) {
        Some(data) => match json_get(data, "list"@) {
            Some(l) => match json_get(l, "tree"@) {
                Some(JsonValue::Array(t)) => Some((t@, host_table(host_records(data)))),
                _ => None,
            },
            None => None,
        },
        None => None,
    }
}

/// The profiles that a document describes, in order, or why it is not
/// recognised: a newer tree first, then an older `list` member, then a bare
/// array.
pub open spec fn document_leaves(doc: JsonValue) -> Result<Seq<(Seq<char>, Seq<char>)>, Seq<char>> {
    match tree_of_document(doc) {
        Some((t, table)) => Ok(tree_leaves(t, t.len() as int, table)),
        None => match json_get(doc, "list"@) {
            Some(JsonValue::Array(l)) => Ok(list_leaves(l@, l@.len() as int)),
            Some(_) => Err("Invalid SwitchHosts format: 'list' is not an array"@),
            None => match doc {
                JsonValue::Array(a) => Ok(list_leaves(a@, a@.len() as int)),
                _ => Err("Invalid SwitchHosts format: Expected SH v4 structure or a simple array"@),
            },
        },
    }
}

/// The profiles that a document describes, in order.
pub fn switchhosts_leaves(doc: &JsonValue) -> (r: Result<Vec<(String, String)>, StoreError>)
    ensures
        match document_leaves(*doc) {
            Ok(ls) => match r {
                Ok(v) => leaves_view(v@) == ls,
                Err(_) => false,
            },
            Err(m) => match r {
                Err(StoreError::UnrecognizedFormat(reason)) => reason@ == m,
                _ => false,
            },
        },
{
    let mut out: Vec<(String, String)> = Vec::new();
    assert(leaves_view(out@) =~= Seq::empty());
    if let Some(data) = get_member(doc, "data") {
        if let Some(l) = get_member(data, "list") {
            if let Some(JsonValue::Array(tree)) = get_member(l, "tree") {
                let table = host_table_of(data);
                collect_tree(tree, &table, &mut out);
                assert(leaves_view(out@) =~= tree_leaves(tree@, tree@.len() as int, host_table(host_records(*data))));
                return Ok(out);
            }
        }
    }
    match get_member(doc, "list") {
        Some(JsonValue::Array(l)) => {
            collect_list(l, &mut out);
            assert(leaves_view(out@) =~= list_leaves(l@, l@.len() as int));
            Ok(out)
        },
        Some(_) => Err(StoreError::UnrecognizedFormat("Invalid SwitchHosts format: 'list' is not an array".to_owned())),
        None => match doc {
            JsonValue::Array(a) => {
                collect_list(a, &mut out);
                assert(leaves_view(out@) =~= list_leaves(a@, a@.len() as int));
                Ok(out)
            },
            _ => Err(
                StoreError::UnrecognizedFormat(
                    "Invalid SwitchHosts format: Expected SH v4 structure or a simple array".to_owned(),
                ),
            ),
        },
    }
}

/// What importing document `doc` into `(c0, w0)` may give: `r`, with the
/// configuration `c1` and pending writes `w1` after it.
pub open spec fn imported_document(
    c0: ConfigView,
    w0: Seq<(Seq<char>, Seq<char>)>,
    doc: JsonValue,
    r: Result<usize, StoreError>,
    c1: ConfigView,
    w1: Seq<(Seq<char>, Seq<char>)>,
) -> bool {
    match document_leaves(doc) {
        Err(m) => {
            &&& (match r {
                Err(StoreError::UnrecognizedFormat(reason)) => reason@ == m,
                _ => false,
            })
            &&& c1 == c0
            &&& w1 == w0
        },
        Ok(ls) => match r {
            Ok(n) => n == ls.len() && upserts_done(c0, w0, ls, c1, w1),
            Err(_) => false,
        },
    }
}

/// Imports each leaf of a third-party document as a profile, upserting by
/// title in depth-first order; returns how many leaves were imported.
pub fn import_switchhosts_document(config: &mut AppConfig, writes: &mut Vec<ProfileFile>, doc: &JsonValue) -> (r:
    Result<usize, StoreError>)
    ensures
        imported_document(old(config)@, files_view(old(writes)@), *doc, r, final(config)@, files_view(final(writes)@)),
{
    let leaves = match switchhosts_leaves(doc) {
        Ok(leaves) => leaves,
        Err(e) => return Err(e),
    };
    Ok(upsert_profiles(config, writes, &leaves))
}

/// Imports a third-party document given as JSON text; text that is not JSON
/// is refused with `InvalidJson` and changes nothing.
pub fn import_switchhosts_internal(config: &mut AppConfig, writes: &mut Vec<ProfileFile>, json_content: &str) -> (r:
    Result<usize, StoreError>)
    ensures
        match json_document(json_content@) {
            None => r matches Err(StoreError::InvalidJson(_)) && *final(config) == *old(config) && *final(writes)
                == *old(writes),
            Some(doc) => imported_document(
                old(config)@,
                files_view(old(writes)@),
                doc,
                r,
                final(config)@,
                files_view(final(writes)@),
            ),
        },
{
    match parse_json(json_content) {
        Ok(doc) => import_switchhosts_document(config, writes, &doc),
        Err(reason) => Err(StoreError::InvalidJson(reason)),
    }
}

/// A successful import keeps a well-formed configuration well-formed (names
/// stay unique) and leaves existing profiles as they were; each imported
/// title names a profile holding the content of the last leaf with that title.
pub proof fn lemma_import_switchhosts(
    c0: ConfigView,
    w0: Seq<(Seq<char>, Seq<char>)>,
    doc: JsonValue,
    ls: Seq<(Seq<char>, Seq<char>)>,
    n: usize,
    c1: ConfigView,
    w1: Seq<(Seq<char>, Seq<char>)>,
)
    requires
        config_wf(c0),
        document_leaves(doc) == Ok::<_, Seq<char>>(ls),
        imported_document(c0, w0, doc, Ok(n), c1, w1),
    ensures
        n == ls.len(),
        config_wf(c1),
        c1.profiles.take(c0.profiles.len() as int) == c0.profiles,
        forall|i: int| 0 <= i < n ==> {
            let k = #[trigger] first_index(c1.profiles, has_name(ls[i].0));
            &&& 0 <= k < c1.profiles.len()
            &&& content_of(files_map(w1), c1.profiles[k].id) == last_content(ls, ls[i].0)
        },
{
    let ids = choose|ids: Seq<Seq<char>>|
        ids.len() == ls.len() && #[trigger] fresh_along(c0, w0, ls, ids) && (c1, w1) == upsert_all(c0, w0, ls, ids);
    lemma_upsert_all(c0, w0, ls, ids);
}

} // verus!
