//! Session-archive maintenance on dsh's workspace registry.
//!
//! The registry (`~/.dsh/storages/workspace.json`) keeps the archived session
//! ids in `global.archivedSessionIds` and each workspace's sessions in
//! `tables.workspaces[*].sessionIds`. Un-archiving removes ids from the
//! former; physically deleting a session also prunes it from the latter.
//! Only those two arrays are edited; everything else in the document stays
//! as it was. Session ids are validated before they are used to build paths.
use crate::json::{
    array_view, find_member, get_member, jget, jset, json_view, lemma_array_view,
    lemma_member_index_bounds, lemma_object_view, member_index, object_view, Json, JsonMember,
    JsonView,
};
use crate::paths::joined;
use crate::text::{chars_of, has_infix, has_prefix, is_ascii_alnum, string_views};
use vstd::prelude::*;

verus! {

broadcast use vstd::string::group_string_axioms;

/// An array element that is one of the ids (a string equal to one of them).
pub open spec fn is_target(v: JsonView, ids: Seq<Seq<char>>) -> bool {
    v matches JsonView::Str(s) && ids.contains(s)
}

/// Elements that are not one of the ids.
pub open spec fn keeps(ids: Seq<Seq<char>>) -> spec_fn(JsonView) -> bool {
    |v: JsonView| !is_target(v, ids)
}

/// The elements of `items` that are not one of the ids, in order.
pub open spec fn kept(items: Seq<JsonView>, ids: Seq<Seq<char>>) -> Seq<JsonView> {
    items.filter(keeps(ids))
}

/// How many elements of `items` are one of the ids.
pub open spec fn removed_count(items: Seq<JsonView>, ids: Seq<Seq<char>>) -> int {
    items.len() - kept(items, ids).len()
}

/// Whether `s` is one of `ids`.
pub fn contains_id(ids: &[String], s: &String) -> (r: bool)
    ensures
        r == string_views(ids@).contains(s@),
{
    let mut i: usize = 0;
    while i < ids.len()
        invariant
            i <= ids.len(),
            forall|k: int| 0 <= k < i ==> ids@[k]@ != s@,
        decreases ids.len() - i,
    {
        if ids[i] == *s {
            assert(string_views(ids@)[i as int] == s@);
            return true;
        }
        i = i + 1;
    }
    assert forall|k: int| 0 <= k < string_views(ids@).len() implies string_views(ids@)[k] != s@ by {
        assert(string_views(ids@)[k] == ids@[k]@);
    }
    false
}

/// Whether an array element is one of the ids.
fn targets(v: &Json, ids: &[String]) -> (r: bool)
    ensures
        r == is_target(v@, string_views(ids@)),
{
    match v {
        Json::Str(s) => contains_id(ids, s),
        _ => false,
    }
}

/// The elements of `items` that are not one of the ids, and how many were removed.
fn filter_targets(items: Vec<Json>, ids: &[String]) -> (r: (Vec<Json>, usize))
    ensures
        array_view(r.0@) == kept(array_view(items@), string_views(ids@)),
        r.1 == items@.len() - r.0@.len(),
{
    let ghost iv = array_view(items@);
    let ghost idv = string_views(ids@);
    let ghost n = items@.len();
    let len = items.len();
    let mut out: Vec<Json> = Vec::new();
    let mut removed: usize = 0;
    for v in it: items.into_iter()
        invariant
            iv == array_view(it.seq()),
            it.seq().len() == n,
            n == len,
            idv == string_views(ids@),
            array_view(out@) == kept(iv.take(it.index() as int), idv),
            removed + out@.len() == it.index(),
    {
        let ghost k = it.index() as int;
        assert(iv.take(k + 1) =~= iv.take(k).push(iv[k]));
        assert(iv[k] == json_view(v));
        proof {
            iv.take(k).lemma_filter_push(iv[k], keeps(idv));
        }
        let ghost before = out@;
        if !targets(&v, ids) {
            out.push(v);
            assert(array_view(out@) =~= array_view(before).push(iv[k]));
        } else {
            removed = removed + 1;
        }
    }
    assert(iv.take(n as int) =~= iv);
    (out, removed)
}

// ---------------------------------------------------------------------------
// Editing one member of an object
// ---------------------------------------------------------------------------
/// The elements of the array at `outer.inner`; `None` when there is no such
/// array.
pub open spec fn nested_array(doc: JsonView, outer: Seq<char>, inner: Seq<char>) -> Option<Seq<JsonView>> {
    match jget(doc, outer) {
        Some(g) => match jget(g, inner) {
            Some(JsonView::Array(items)) => Some(items),
            _ => None,
        },
        None => None,
    }
}

/// `doc` with the array at `outer.inner` replaced by `items`.
pub open spec fn with_nested_array(
    doc: JsonView,
    outer: Seq<char>,
    inner: Seq<char>,
    items: Seq<JsonView>,
) -> JsonView {
    match jget(doc, outer) {
        Some(g) => jset(doc, outer, jset(g, inner, JsonView::Array(items))),
        None => doc,
    }
}

/// The array at `key` of an object, filtered; `None` (and the value unchanged)
/// when `key` is not an array member.
fn filter_member_array(v: Json, key: &str, ids: &[String]) -> (r: (Json, Option<usize>))
    ensures
        match jget(v@, key@) {
            Some(JsonView::Array(items)) => r.1 matches Some(c) && c == removed_count(items, string_views(ids@))
                && r.0@ == jset(v@, key@, JsonView::Array(kept(items, string_views(ids@)))),
            _ => r.1 is None && r.0@ == v@,
        },
{
    match v {
        Json::Object(members) => {
            let mut members = members;
            let ghost ov = object_view(members@);
            proof {
                lemma_object_view(members);
                lemma_member_index_bounds(ov, key@);
            }
            match find_member(&members, key) {
                None => {
                    proof {
                        lemma_object_view(members);
                    }
                    (Json::Object(members), None)
                },
                Some(i) => {
                    let ghost old_members = members@;
                    let JsonMember { key: k, value: val } = members.remove(i);
                    match val {
                        Json::Array(items) => {
                            proof {
                                lemma_array_view(items);
                            }
                            let (kept_items, removed) = filter_targets(items, ids);
                            let new_val = Json::Array(kept_items);
                            proof {
                                lemma_array_view(kept_items);
                            }
                            let ghost nv = new_val@;
                            members.insert(i, JsonMember { key: k, value: new_val });
                            proof {
                                assert(members@ == old_members.update(i as int, members@[i as int]));
                                assert(object_view(members@) =~= ov.update(i as int, (ov[i as int].0, nv)));
                                lemma_object_view(members);
                            }
                            (Json::Object(members), Some(removed))
                        },
                        other => {
                            let ghost ow = other;
                            members.insert(i, JsonMember { key: k, value: other });
                            proof {
                                assert(members@ =~= old_members);
                                lemma_object_view(members);
                                assert(json_view(ow) == ov[i as int].1);
                            }
                            (Json::Object(members), None)
                        },
                    }
                },
            }
        },
        other => (other, None),
    }
}

/// `doc` with the array at `outer.inner` filtered; `None` (and `doc`
/// unchanged) when there is no such array.
fn filter_nested_array(doc: Json, outer: &str, inner: &str, ids: &[String]) -> (r: (
    Json,
    Option<usize>,
))
    ensures
        match nested_array(doc@, outer@, inner@) {
            Some(items) => r.1 matches Some(c) && c == removed_count(items, string_views(ids@))
                && r.0@ == with_nested_array(doc@, outer@, inner@, kept(items, string_views(ids@))),
            None => r.1 is None && r.0@ == doc@,
        },
{
    match doc {
        Json::Object(members) => {
            let mut members = members;
            let ghost ov = object_view(members@);
            proof {
                lemma_object_view(members);
                lemma_member_index_bounds(ov, outer@);
            }
            match find_member(&members, outer) {
                None => {
                    proof {
                        lemma_object_view(members);
                    }
                    (Json::Object(members), None)
                },
                Some(i) => {
                    let ghost old_members = members@;
                    let JsonMember { key: k, value: val } = members.remove(i);
                    let ghost gv = json_view(val);
                    assert(gv == ov[i as int].1);
                    let (new_val, removed) = filter_member_array(val, inner, ids);
                    let ghost nv = new_val@;
                    members.insert(i, JsonMember { key: k, value: new_val });
                    proof {
                        assert(members@ == old_members.update(i as int, members@[i as int]));
                        assert(object_view(members@) =~= ov.update(i as int, (ov[i as int].0, nv)));
                        lemma_object_view(members);
                        if removed is None {
                            assert(ov.update(i as int, (ov[i as int].0, nv)) =~= ov);
                        }
                    }
                    (Json::Object(members), removed)
                },
            }
        },
        other => (other, None),
    }
}

// ---------------------------------------------------------------------------
// The archived set
// ---------------------------------------------------------------------------
/// The elements of `global.archivedSessionIds`, when it is an array.
pub open spec fn archived_items(doc: JsonView) -> Option<Seq<JsonView>> {
    nested_array(doc, "global"@, "archivedSessionIds"@)
}

/// Remove the ids from `global.archivedSessionIds`.
///
/// Returns the number of ids that were present and removed (every element
/// equal to one of them). Ids that are absent are skipped; elements that are
/// not strings are kept. Fails, leaving `doc` as it was, when
/// `global.archivedSessionIds` is not an array.
pub fn remove_from_archived(doc: &mut Json, ids: &[String]) -> (r: Result<usize, String>)
    ensures
        match archived_items(old(doc)@) {
            Some(items) => r matches Ok(c) && c == removed_count(items, string_views(ids@))
                && final(doc)@ == with_nested_array(old(doc)@, "global"@, "archivedSessionIds"@,
                    kept(items, string_views(ids@))),
            None => r matches Err(e) && e@ == "workspace 存储缺少 archivedSessionIds"@
                && final(doc)@ == old(doc)@,
        },
{
    let mut taken = Json::Null;
    std::mem::swap(doc, &mut taken);
    let (edited, removed) = filter_nested_array(taken, "global", "archivedSessionIds", ids);
    *doc = edited;
    match removed {
        Some(n) => Ok(n),
        None => Err(String::from_str("workspace 存储缺少 archivedSessionIds")),
    }
}


// ---------------------------------------------------------------------------
// Workspace membership
// ---------------------------------------------------------------------------
/// A workspace record with its `sessionIds` array (when it has one) pruned
/// of the ids.
pub open spec fn pruned_record(rec: JsonView, ids: Seq<Seq<char>>) -> JsonView {
    match jget(rec, "sessionIds"@) {
        Some(JsonView::Array(items)) => jset(rec, "sessionIds"@, JsonView::Array(kept(items, ids))),
        _ => rec,
    }
}

/// How many references pruning removes from one record.
pub open spec fn record_removed(rec: JsonView, ids: Seq<Seq<char>>) -> int {
    match jget(rec, "sessionIds"@) {
        Some(JsonView::Array(items)) => removed_count(items, ids),
        _ => 0,
    }
}

/// Every record of `ws` pruned, keys and order unchanged.
pub open spec fn pruned_members(ws: Seq<(Seq<char>, JsonView)>, ids: Seq<Seq<char>>) -> Seq<
    (Seq<char>, JsonView),
> {
    Seq::new(ws.len(), |i: int| (ws[i].0, pruned_record(ws[i].1, ids)))
}

/// How many references pruning removes from all records of `ws`.
pub open spec fn removed_total(ws: Seq<(Seq<char>, JsonView)>, ids: Seq<Seq<char>>) -> int
    decreases ws.len(),
{
    if ws.len() == 0 {
        0
    } else {
        removed_total(ws.drop_last(), ids) + record_removed(ws.last().1, ids)
    }
}

/// `n`, or `usize::MAX` when it does not fit.
pub open spec fn capped(n: int) -> int {
    if n <= usize::MAX {
        n
    } else {
        usize::MAX as int
    }
}

/// The members of `tables.workspaces`, when it is an object.
pub open spec fn workspace_records(doc: JsonView) -> Option<Seq<(Seq<char>, JsonView)>> {
    match jget(doc, "tables"@) {
        Some(t) => match jget(t, "workspaces"@) {
            Some(JsonView::Object(ws)) => Some(ws),
            _ => None,
        },
        None => None,
    }
}

/// `doc` with the members of `tables.workspaces` replaced by `ws`.
pub open spec fn with_workspace_records(doc: JsonView, ws: Seq<(Seq<char>, JsonView)>) -> JsonView {
    match jget(doc, "tables"@) {
        Some(t) => jset(doc, "tables"@, jset(t, "workspaces"@, JsonView::Object(ws))),
        None => doc,
    }
}

proof fn lemma_removed_count_nonneg(items: Seq<JsonView>, ids: Seq<Seq<char>>)
    ensures
        0 <= removed_count(items, ids),
{
    items.lemma_filter_len(keeps(ids));
}

proof fn lemma_removed_total_nonneg(ws: Seq<(Seq<char>, JsonView)>, ids: Seq<Seq<char>>)
    ensures
        0 <= removed_total(ws, ids),
    decreases ws.len(),
{
    if ws.len() > 0 {
        lemma_removed_total_nonneg(ws.drop_last(), ids);
        if let Some(JsonView::Array(items)) = jget(ws.last().1, "sessionIds"@) {
            lemma_removed_count_nonneg(items, ids);
        }
    }
}

/// Prune every record of a workspace table.
fn prune_records(ws: Vec<JsonMember>, ids: &[String]) -> (r: (Vec<JsonMember>, usize))
    ensures
        object_view(r.0@) == pruned_members(object_view(ws@), string_views(ids@)),
        r.1 == capped(removed_total(object_view(ws@), string_views(ids@))),
{
    let ghost wv = object_view(ws@);
    let ghost idv = string_views(ids@);
    let ghost n = ws@.len();
    let mut out: Vec<JsonMember> = Vec::new();
    let mut total: usize = 0;
    for m in it: ws.into_iter()
        invariant
            wv == object_view(it.seq()),
            it.seq().len() == n,
            idv == string_views(ids@),
            object_view(out@) == pruned_members(wv.take(it.index() as int), idv),
            total == capped(removed_total(wv.take(it.index() as int), idv)),
    {
        let ghost k = it.index() as int;
        let ghost before = out@;
        assert(wv.take(k + 1).drop_last() =~= wv.take(k));
        assert(wv[k] == (m.key@, json_view(m.value)));
        let ghost mv = json_view(m.value);
        let ghost mk = m.key@;
        let JsonMember { key, value } = m;
        let (new_value, removed) = filter_member_array(value, "sessionIds", ids);
        let add: usize = match removed {
            Some(c) => c,
            None => 0,
        };
        proof {
            lemma_removed_total_nonneg(wv.take(k), idv);
            if let Some(JsonView::Array(items)) = jget(mv, "sessionIds"@) {
                lemma_removed_count_nonneg(items, idv);
            }
            assert(new_value@ == pruned_record(mv, idv));
            assert(key@ == mk);
            assert(add == record_removed(mv, idv));
            assert(wv.take(k + 1).last() == wv[k]);
            assert(removed_total(wv.take(k + 1), idv) == removed_total(wv.take(k), idv)
                + record_removed(mv, idv));
        }
        total = total.saturating_add(add);
        let ghost nv = new_value@;
        out.push(JsonMember { key, value: new_value });
        assert(wv.take(k).len() == k);
        assert(object_view(before).len() == before.len());
        assert forall|j: int| 0 <= j < k + 1 implies object_view(out@)[j] == pruned_members(
            wv.take(k + 1),
            idv,
        )[j] by {
            if j < k {
                assert(out@[j] == before[j]);
                assert(object_view(before)[j] == pruned_members(wv.take(k), idv)[j]);
            } else {
                assert(out@[j].key@ == mk);
                assert(json_view(out@[j].value) == nv);
            }
        }
        assert(object_view(out@) =~= pruned_members(wv.take(k + 1), idv));
    }
    assert(wv.take(n as int) =~= wv);
    (out, total)
}

/// The value of `key` in an object, with its records pruned when it is an
/// object itself; the count is 0 and `v` unchanged otherwise.
fn prune_member_object(v: Json, key: &str, ids: &[String]) -> (r: (Json, usize))
    ensures
        match jget(v@, key@) {
            Some(JsonView::Object(ws)) => r.1 == capped(removed_total(ws, string_views(ids@)))
                && r.0@ == jset(v@, key@, JsonView::Object(pruned_members(ws, string_views(ids@)))),
            _ => r.1 == 0 && r.0@ == v@,
        },
{
    match v {
        Json::Object(members) => {
            let mut members = members;
            let ghost ov = object_view(members@);
            proof {
                lemma_object_view(members);
                lemma_member_index_bounds(ov, key@);
            }
            match find_member(&members, key) {
                None => {
                    proof {
                        lemma_object_view(members);
                    }
                    (Json::Object(members), 0)
                },
                Some(i) => {
                    let ghost old_members = members@;
                    let JsonMember { key: k, value: val } = members.remove(i);
                    match val {
                        Json::Object(records) => {
                            proof {
                                lemma_object_view(records);
                            }
                            let (new_records, removed) = prune_records(records, ids);
                            let new_val = Json::Object(new_records);
                            proof {
                                lemma_object_view(new_records);
                            }
                            let ghost nv = new_val@;
                            members.insert(i, JsonMember { key: k, value: new_val });
                            proof {
                                assert(members@ == old_members.update(i as int, members@[i as int]));
                                assert(object_view(members@) =~= ov.update(i as int, (ov[i as int].0, nv)));
                                lemma_object_view(members);
                            }
                            (Json::Object(members), removed)
                        },
                        other => {
                            let ghost ow = other;
                            members.insert(i, JsonMember { key: k, value: other });
                            proof {
                                assert(members@ =~= old_members);
                                lemma_object_view(members);
                                assert(json_view(ow) == ov[i as int].1);
                            }
                            (Json::Object(members), 0)
                        },
                    }
                },
            }
        },
        other => (other, 0),
    }
}

/// Remove the ids from every workspace record's `sessionIds` array.
///
/// Returns how many references were removed (capped at `usize::MAX`). A
/// document without a `tables.workspaces` object is left as it was, with
/// nothing removed; records without a `sessionIds` array are left alone.
pub fn prune_workspace_session_refs(doc: &mut Json, ids: &[String]) -> (r: Result<usize, String>)
    ensures
        match workspace_records(old(doc)@) {
            Some(ws) => (r matches Ok(c) && c == capped(removed_total(ws, string_views(ids@))))
                && final(doc)@ == with_workspace_records(old(doc)@, pruned_members(ws, string_views(ids@))),
            None => r == Ok::<usize, String>(0) && final(doc)@ == old(doc)@,
        },
{
    let mut taken = Json::Null;
    std::mem::swap(doc, &mut taken);
    match taken {
        Json::Object(members) => {
            let mut members = members;
            let ghost ov = object_view(members@);
            proof {
                lemma_object_view(members);
                lemma_member_index_bounds(ov, "tables"@);
            }
            match find_member(&members, "tables") {
                None => {
                    proof {
                        lemma_object_view(members);
                    }
                    *doc = Json::Object(members);
                    Ok(0)
                },
                Some(i) => {
                    let ghost old_members = members@;
                    let JsonMember { key: k, value: val } = members.remove(i);
                    let ghost gv = json_view(val);
                    assert(gv == ov[i as int].1);
                    let (new_val, removed) = prune_member_object(val, "workspaces", ids);
                    let ghost nv = new_val@;
                    members.insert(i, JsonMember { key: k, value: new_val });
                    proof {
                        assert(members@ == old_members.update(i as int, members@[i as int]));
                        assert(object_view(members@) =~= ov.update(i as int, (ov[i as int].0, nv)));
                        lemma_object_view(members);
                        if !(jget(gv, "workspaces"@) matches Some(JsonView::Object(_))) {
                            assert(ov.update(i as int, (ov[i as int].0, nv)) =~= ov);
                        }
                    }
                    *doc = Json::Object(members);
                    Ok(removed)
                },
            }
        },
        other => {
            *doc = other;
            Ok(0)
        },
    }
}


// ---------------------------------------------------------------------------
// Session ids
// ---------------------------------------------------------------------------
/// A session id that may be used to build a path: it starts with
/// `session-`, has at most 128 characters, all ASCII letters, digits or `-`,
/// and holds no `..`.
pub open spec fn is_safe_id(id: Seq<char>) -> bool {
    &&& has_prefix(id, "session-"@)
    &&& id.len() <= 128
    &&& forall|i: int| 0 <= i < id.len() ==> is_ascii_alnum(#[trigger] id[i]) || id[i] == '-'
    &&& !has_infix(id, ".."@)
}

/// Whether `id` is a safe session id.
pub fn is_safe_session_id(id: &str) -> (r: bool)
    ensures
        r == is_safe_id(id@),
{
    let v = chars_of(id);
    let prefix = chars_of("session-");
    let dots = chars_of("..");
    proof {
        reveal_strlit("session-");
        reveal_strlit("..");
    }
    if !crate::text::starts_with(&v, &prefix) {
        return false;
    }
    let mut i: usize = 0;
    while i < v.len()
        invariant
            i <= v.len(),
            v@ == id@,
            forall|k: int| 0 <= k < i ==> is_ascii_alnum(#[trigger] v@[k]) || v@[k] == '-',
        decreases v.len() - i,
    {
        if !(crate::text::is_ascii_alphanumeric(v[i]) || v[i] == '-') {
            assert(!(is_ascii_alnum(id@[i as int]) || id@[i as int] == '-'));
            return false;
        }
        i = i + 1;
    }
    // All characters are ASCII here, so the character count is the byte length.
    if v.len() > 128 {
        return false;
    }
    !crate::text::contains_chars(&v, &dots)
}

/// The directory name of a session, `None` when the id is unsafe.
pub fn safe_dir_name(id: &str) -> (r: Option<String>)
    ensures
        match r {
            Some(n) => is_safe_id(id@) && n@ == id@,
            None => !is_safe_id(id@),
        },
{
    if is_safe_session_id(id) {
        Some(id.to_owned())
    } else {
        None
    }
}

/// The index of the first unsafe id.
pub open spec fn first_unsafe(ids: Seq<Seq<char>>) -> Option<int>
    decreases ids.len(),
{
    if ids.len() == 0 {
        None
    } else if !is_safe_id(ids[0]) {
        Some(0)
    } else {
        match first_unsafe(ids.drop_first()) {
            Some(i) => Some(i + 1),
            None => None,
        }
    }
}

proof fn lemma_first_unsafe(ids: Seq<Seq<char>>, i: int)
    requires
        0 <= i <= ids.len(),
        forall|k: int| 0 <= k < i ==> is_safe_id(#[trigger] ids[k]),
    ensures
        i < ids.len() && !is_safe_id(ids[i]) ==> first_unsafe(ids) == Some(i),
        i == ids.len() ==> first_unsafe(ids) is None,
    decreases i,
{
    if i > 0 {
        assert forall|k: int| 0 <= k < i - 1 implies is_safe_id(#[trigger] ids.drop_first()[k]) by {
            assert(ids.drop_first()[k] == ids[k + 1]);
        }
        lemma_first_unsafe(ids.drop_first(), i - 1);
    }
}

/// Why a batch of ids is refused, if it is.
pub open spec fn validation_error(ids: Seq<Seq<char>>) -> Option<Seq<char>> {
    if ids.len() == 0 {
        Some("未选择任何会话"@)
    } else {
        match first_unsafe(ids) {
            Some(i) => Some("非法的会话 id: "@ + ids[i]),
            None => None,
        }
    }
}

/// Refuse an empty batch or one holding an unsafe id.
pub fn validate_ids(ids: &[String]) -> (r: Result<(), String>)
    ensures
        match validation_error(string_views(ids@)) {
            Some(e) => r matches Err(m) && m@ == e,
            None => r is Ok,
        },
{
    let ghost iv = string_views(ids@);
    if ids.len() == 0 {
        return Err(String::from_str("未选择任何会话"));
    }
    let mut i: usize = 0;
    while i < ids.len()
        invariant
            i <= ids.len(),
            iv == string_views(ids@),
            forall|k: int| 0 <= k < i ==> is_safe_id(#[trigger] iv[k]),
        decreases ids.len() - i,
    {
        assert(iv[i as int] == ids@[i as int]@);
        if !is_safe_session_id(ids[i].as_str()) {
            proof {
                lemma_first_unsafe(iv, i as int);
            }
            let mut m = String::from_str("非法的会话 id: ");
            crate::text::push_chars(&mut m, &chars_of(ids[i].as_str()));
            return Err(m);
        }
        i = i + 1;
    }
    proof {
        lemma_first_unsafe(iv, i as int);
    }
    Ok(())
}


// ---------------------------------------------------------------------------
// The registry document
// ---------------------------------------------------------------------------
/// Why a loaded registry cannot be edited, if it cannot: it must have a
/// `global` object holding an `archivedSessionIds` array.
pub open spec fn doc_error(doc: JsonView, path: Seq<char>) -> Option<Seq<char>> {
    match jget(doc, "global"@) {
        Some(JsonView::Object(_)) => match archived_items(doc) {
            Some(_) => None,
            None => Some(path + " 缺少 archivedSessionIds 数组"@),
        },
        _ => Some(path + " 缺少 global 对象"@),
    }
}

/// Check the shape of a loaded registry document.
pub fn check_workspace_doc(doc: &Json, path: &str) -> (r: Result<(), String>)
    ensures
        match doc_error(doc@, path@) {
            Some(e) => r matches Err(m) && m@ == e,
            None => r is Ok,
        },
{
    let mut msg = String::from_str(path);
    match get_member(doc, "global") {
        Some(g) => match g {
            Json::Object(_) => match get_member(g, "archivedSessionIds") {
                Some(Json::Array(_)) => Ok(()),
                _ => {
                    crate::text::push_chars(&mut msg, &chars_of(" 缺少 archivedSessionIds 数组"));
                    Err(msg)
                },
            },
            _ => {
                crate::text::push_chars(&mut msg, &chars_of(" 缺少 global 对象"));
                Err(msg)
            },
        },
        None => {
            crate::text::push_chars(&mut msg, &chars_of(" 缺少 global 对象"));
            Err(msg)
        },
    }
}

/// The elements of `global.archivedSessionIds`, or none when it is missing.
pub open spec fn archived_or_empty(doc: JsonView) -> Seq<JsonView> {
    match archived_items(doc) {
        Some(items) => items,
        None => Seq::empty(),
    }
}

/// The ids that are currently archived, in the order and multiplicity given.
pub open spec fn eligible(ids: Seq<Seq<char>>, items: Seq<JsonView>) -> Seq<Seq<char>> {
    ids.filter(|id: Seq<char>| items.contains(JsonView::Str(id)))
}

/// Whether the string `id` is one of the elements of `items`.
fn holds_str(items: &Vec<Json>, id: &String) -> (r: bool)
    ensures
        r == array_view(items@).contains(JsonView::Str(id@)),
{
    let ghost av = array_view(items@);
    let mut i: usize = 0;
    while i < items.len()
        invariant
            i <= items.len(),
            av == array_view(items@),
            forall|k: int| 0 <= k < i ==> av[k] != JsonView::Str(id@),
        decreases items.len() - i,
    {
        assert(av[i as int] == json_view(items@[i as int]));
        if let Json::Str(s) = &items[i] {
            if *s == *id {
                assert(av[i as int] == JsonView::Str(id@));
                return true;
            }
        }
        i = i + 1;
    }
    false
}

/// The ids that are archived in `doc`.
pub fn eligible_ids(doc: &Json, ids: &[String]) -> (r: Vec<String>)
    ensures
        string_views(r@) == eligible(string_views(ids@), archived_or_empty(doc@)),
{
    let empty: Vec<Json> = Vec::new();
    let mut items: &Vec<Json> = &empty;
    if let Some(g) = get_member(doc, "global") {
        if let Some(Json::Array(a)) = get_member(g, "archivedSessionIds") {
            proof {
                lemma_array_view(*a);
            }
            items = a;
        }
    }
    assert(array_view(items@) == archived_or_empty(doc@));
    let ghost av = archived_or_empty(doc@);
    let ghost iv = string_views(ids@);
    let ghost pred = |id: Seq<char>| av.contains(JsonView::Str(id));
    let mut out: Vec<String> = Vec::new();
    let mut i: usize = 0;
    while i < ids.len()
        invariant
            i <= ids.len(),
            av == array_view(items@),
            iv == string_views(ids@),
            pred == (|id: Seq<char>| av.contains(JsonView::Str(id))),
            string_views(out@) == iv.take(i as int).filter(pred),
        decreases ids.len() - i,
    {
        assert(iv.take(i + 1) =~= iv.take(i as int).push(iv[i as int]));
        proof {
            iv.take(i as int).lemma_filter_push(iv[i as int], pred);
        }
        assert(iv[i as int] == ids@[i as int]@);
        if holds_str(items, &ids[i]) {
            let ghost before = out@;
            out.push(ids[i].clone());
            assert(string_views(out@) =~= string_views(before).push(iv[i as int]));
        }
        i = i + 1;
    }
    assert(iv.take(ids.len() as int) =~= iv);
    out
}

// ---------------------------------------------------------------------------
// Reports
// ---------------------------------------------------------------------------
/// Outcome of one batch archive-maintenance operation (unarchive or delete).
#[derive(Debug, Clone)]
pub struct ArchiveOpsReport {
    /// Number of session ids accepted for processing.
    pub processed: usize,
    /// Number of ids actually removed from `archivedSessionIds`.
    pub changed_archive: usize,
    /// Number of stale `sessionIds` references pruned from workspace tables.
    pub pruned_session_refs: usize,
    /// Number of session directories physically removed (delete only).
    pub deleted_dirs: usize,
    /// Ids no session directory was found for (delete only).
    pub missing_dirs: Vec<String>,
    /// Non-fatal diagnostics (e.g. a directory that failed to remove).
    pub warnings: Vec<String>,
}

impl Default for ArchiveOpsReport {
    fn default() -> (r: Self)
        ensures
            r.processed == 0 && r.changed_archive == 0 && r.pruned_session_refs == 0,
            r.deleted_dirs == 0 && r.missing_dirs@.len() == 0 && r.warnings@.len() == 0,
    {
        ArchiveOpsReport {
            processed: 0,
            changed_archive: 0,
            pruned_session_refs: 0,
            deleted_dirs: 0,
            missing_dirs: Vec::new(),
            warnings: Vec::new(),
        }
    }
}

/// An edit of the registry: the report, and the document to write back
/// (`None` when nothing is to be written).
#[derive(Debug)]
pub struct ArchiveEdit {
    pub report: ArchiveOpsReport,
    pub updated: Option<Json>,
}

/// A report with only `processed` set.
pub open spec fn report_processed_only(r: ArchiveOpsReport, n: int) -> bool {
    &&& r.processed == n
    &&& r.changed_archive == 0
    &&& r.pruned_session_refs == 0
    &&& r.deleted_dirs == 0
    &&& r.missing_dirs@.len() == 0
    &&& r.warnings@.len() == 0
}

/// The registry path under a dsh home.
pub open spec fn storage_path(home: Seq<char>) -> Seq<char> {
    crate::paths::joined(crate::paths::joined(home, "storages"@), "workspace.json"@)
}

/// **Unarchive**: remove the ids that are archived from the archived set;
/// nothing is deleted from disk.
///
/// `loaded` is the registry as read from `workspace_storage_path(home)` (or
/// why it could not be read). On success, `updated` is the document to write
/// back, `None` when none of the ids is archived.
pub fn restore_archived(home: &str, ids: &[String], loaded: Result<Json, String>) -> (r: Result<
    ArchiveEdit,
    String,
>)
    ensures
        match validation_error(string_views(ids@)) {
            Some(e) => r matches Err(m) && m@ == e,
            None => match loaded {
                Err(e) => r matches Err(m) && m@ == e@,
                Ok(doc) => match doc_error(doc@, storage_path(home@)) {
                    Some(e) => r matches Err(m) && m@ == e,
                    None => r matches Ok(edit) && {
                        let items = archived_or_empty(doc@);
                        let el = eligible(string_views(ids@), items);
                        if el.len() == 0 {
                            report_processed_only(edit.report, ids@.len() as int)
                                && edit.updated is None
                        } else {
                            &&& edit.report.processed == ids@.len()
                            &&& edit.report.changed_archive == removed_count(items, el)
                            &&& edit.report.pruned_session_refs == 0
                            &&& edit.report.deleted_dirs == 0
                            &&& edit.report.missing_dirs@.len() == 0
                            &&& edit.report.warnings@.len() == 0
                            &&& edit.updated matches Some(d) && d@ == with_nested_array(
                                doc@,
                                "global"@,
                                "archivedSessionIds"@,
                                kept(items, el),
                            )
                        }
                    },
                },
            },
        },
{
    validate_ids(ids)?;
    let path = crate::paths::workspace_storage_path(home);
    let mut doc = loaded?;
    check_workspace_doc(&doc, path.as_str())?;
    let el = eligible_ids(&doc, ids);
    let mut report = ArchiveOpsReport::default();
    report.processed = ids.len();
    if el.len() == 0 {
        return Ok(ArchiveEdit { report, updated: None });
    }
    let changed = remove_from_archived(&mut doc, el.as_slice())?;
    report.changed_archive = changed;
    Ok(ArchiveEdit { report, updated: Some(doc) })
}


// ---------------------------------------------------------------------------
// Physical deletion
// ---------------------------------------------------------------------------
/// What happened to one session directory: removed, or the error text.
#[derive(Debug)]
pub struct DirResult {
    pub dir: String,
    pub error: Option<String>,
}

/// The directories found for one eligible id, each with its outcome.
#[derive(Debug)]
pub struct DirRemoval {
    pub id: String,
    pub dirs: Vec<DirResult>,
}

/// How many directories of `ds` were removed.
pub open spec fn removed_in(ds: Seq<DirResult>) -> int
    decreases ds.len(),
{
    if ds.len() == 0 {
        0
    } else {
        removed_in(ds.drop_last()) + if ds.last().error is None {
            1int
        } else {
            0int
        }
    }
}

/// The warning for a directory that could not be removed.
pub open spec fn removal_warning(dir: Seq<char>, error: Seq<char>) -> Seq<char> {
    "删除 "@ + dir + " 失败: "@ + error
}

/// The warnings for the directories of `ds` that could not be removed.
pub open spec fn warnings_in(ds: Seq<DirResult>) -> Seq<Seq<char>>
    decreases ds.len(),
{
    if ds.len() == 0 {
        Seq::empty()
    } else {
        let w = warnings_in(ds.drop_last());
        match ds.last().error {
            Some(e) => w.push(removal_warning(ds.last().dir@, e@)),
            None => w,
        }
    }
}

/// The ids for which no directory was found.
pub open spec fn missing_of(rs: Seq<DirRemoval>) -> Seq<Seq<char>>
    decreases rs.len(),
{
    if rs.len() == 0 {
        Seq::empty()
    } else if rs.last().dirs@.len() == 0 {
        missing_of(rs.drop_last()).push(rs.last().id@)
    } else {
        missing_of(rs.drop_last())
    }
}

/// How many directories were removed over all ids.
pub open spec fn removed_of(rs: Seq<DirRemoval>) -> int
    decreases rs.len(),
{
    if rs.len() == 0 {
        0
    } else {
        removed_of(rs.drop_last()) + removed_in(rs.last().dirs@)
    }
}

/// The warnings over all ids, in order.
pub open spec fn warnings_of(rs: Seq<DirRemoval>) -> Seq<Seq<char>>
    decreases rs.len(),
{
    if rs.len() == 0 {
        Seq::empty()
    } else {
        warnings_of(rs.drop_last()) + warnings_in(rs.last().dirs@)
    }
}

proof fn lemma_removed_in_nonneg(ds: Seq<DirResult>)
    ensures
        0 <= removed_in(ds),
    decreases ds.len(),
{
    if ds.len() > 0 {
        lemma_removed_in_nonneg(ds.drop_last());
    }
}

proof fn lemma_removed_of_nonneg(rs: Seq<DirRemoval>)
    ensures
        0 <= removed_of(rs),
    decreases rs.len(),
{
    if rs.len() > 0 {
        lemma_removed_of_nonneg(rs.drop_last());
        lemma_removed_in_nonneg(rs.last().dirs@);
    }
}

/// Record the outcome of removing the directories of each id.
fn record_removals(report: &mut ArchiveOpsReport, removals: &Vec<DirRemoval>)
    requires
        old(report).deleted_dirs == 0,
        old(report).missing_dirs@.len() == 0,
        old(report).warnings@.len() == 0,
    ensures
        final(report).processed == old(report).processed,
        final(report).changed_archive == old(report).changed_archive,
        final(report).pruned_session_refs == old(report).pruned_session_refs,
        final(report).deleted_dirs == capped(removed_of(removals@)),
        string_views(final(report).missing_dirs@) == missing_of(removals@),
        string_views(final(report).warnings@) == warnings_of(removals@),
{
    let mut i: usize = 0;
    while i < removals.len()
        invariant
            i <= removals.len(),
            report.processed == old(report).processed,
            report.changed_archive == old(report).changed_archive,
            report.pruned_session_refs == old(report).pruned_session_refs,
            report.deleted_dirs == capped(removed_of(removals@.take(i as int))),
            string_views(report.missing_dirs@) == missing_of(removals@.take(i as int)),
            string_views(report.warnings@) == warnings_of(removals@.take(i as int)),
        decreases removals.len() - i,
    {
        let ghost rs = removals@.take(i + 1);
        assert(rs.drop_last() =~= removals@.take(i as int));
        assert(rs.last() == removals@[i as int]);
        let r = &removals[i];
        proof {
            lemma_removed_of_nonneg(removals@.take(i as int));
        }
        if r.dirs.len() == 0 {
            let ghost before = report.missing_dirs@;
            report.missing_dirs.push(r.id.clone());
            assert(string_views(report.missing_dirs@) =~= string_views(before).push(r.id@));
        }
        let ghost start_deleted = removed_of(removals@.take(i as int));
        let ghost start_warnings = string_views(report.warnings@);
        let mut j: usize = 0;
        while j < r.dirs.len()
            invariant
                i < removals.len(),
                r == &removals[i as int],
                j <= r.dirs.len(),
                0 <= start_deleted,
                report.processed == old(report).processed,
                report.changed_archive == old(report).changed_archive,
                report.pruned_session_refs == old(report).pruned_session_refs,
                report.deleted_dirs == capped(start_deleted + removed_in(r.dirs@.take(j as int))),
                string_views(report.missing_dirs@) == missing_of(removals@.take(i + 1)),
                string_views(report.warnings@) == start_warnings + warnings_in(
                    r.dirs@.take(j as int),
                ),
            decreases r.dirs.len() - j,
        {
            let ghost ds = r.dirs@.take(j + 1);
            assert(ds.drop_last() =~= r.dirs@.take(j as int));
            assert(ds.last() == r.dirs@[j as int]);
            proof {
                lemma_removed_in_nonneg(r.dirs@.take(j as int));
            }
            let d = &r.dirs[j];
            match &d.error {
                None => {
                    report.deleted_dirs = report.deleted_dirs.saturating_add(1);
                },
                Some(e) => {
                    let mut w = String::from_str("删除 ");
                    crate::text::push_chars(&mut w, &chars_of(d.dir.as_str()));
                    crate::text::push_chars(&mut w, &chars_of(" 失败: "));
                    crate::text::push_chars(&mut w, &chars_of(e.as_str()));
                    let ghost before = report.warnings@;
                    report.warnings.push(w);
                    assert(string_views(report.warnings@) =~= string_views(before).push(
                        removal_warning(d.dir@, e@),
                    ));
                    assert(start_warnings + warnings_in(ds) =~= (start_warnings + warnings_in(
                        r.dirs@.take(j as int),
                    )).push(removal_warning(d.dir@, e@)));
                },
            }
            j = j + 1;
        }
        assert(r.dirs@.take(r.dirs@.len() as int) =~= r.dirs@);
        i = i + 1;
    }
    assert(removals@.take(removals@.len() as int) =~= removals@);
}

/// The first step of a physical delete, before any directory is removed:
/// the ids are validated and the loaded registry is checked; only then are
/// the ids whose session directories are to go known, namely those that are
/// archived, in order.
pub fn deletion_targets(home: &str, ids: &[String], doc: &Json) -> (r: Result<Vec<String>, String>)
    ensures
        match validation_error(string_views(ids@)) {
            Some(e) => r matches Err(m) && m@ == e,
            None => match doc_error(doc@, storage_path(home@)) {
                Some(e) => r matches Err(m) && m@ == e,
                None => r matches Ok(el) && string_views(el@) == eligible(
                    string_views(ids@),
                    archived_or_empty(doc@),
                ),
            },
        },
{
    validate_ids(ids)?;
    let path = crate::paths::workspace_storage_path(home);
    check_workspace_doc(doc, path.as_str())?;
    Ok(eligible_ids(doc, ids))
}

/// An entry of the sessions root: its name, whether it is a directory, and
/// (for a directory) whether it holds a directory named after the session.
#[derive(Debug)]
pub struct RootEntry {
    pub name: String,
    pub is_dir: bool,
    pub holds_session: bool,
}

/// The session directory the root entry `e` gives for the session `id`: the
/// entry itself when it is the directory `<root>/<id>`, else `<root>/<e>/<id>`
/// when that is a directory.
pub open spec fn session_dir_of(root: Seq<char>, id: Seq<char>, e: RootEntry) -> Option<Seq<char>> {
    if e.is_dir && e.name@ == id {
        Some(joined(root, id))
    } else if e.is_dir && e.holds_session {
        Some(joined(joined(root, e.name@), id))
    } else {
        None
    }
}

/// The session directories of `id` under `root`, in the order of the listing.
pub open spec fn session_dirs_in(root: Seq<char>, id: Seq<char>, es: Seq<RootEntry>) -> Seq<Seq<char>>
    decreases es.len(),
{
    if es.len() == 0 {
        seq![]
    } else {
        let rest = session_dirs_in(root, id, es.drop_last());
        match session_dir_of(root, id, es.last()) {
            Some(d) => rest.push(d),
            None => rest,
        }
    }
}

/// The directories that hold the session `id` under `root`, given the
/// listing of `root`: `<root>/<id>` and `<root>/<workspace>/<id>`; none for
/// an unsafe id.
pub fn session_dirs(root: &str, id: &str, entries: &Vec<RootEntry>) -> (r: Vec<String>)
    ensures
        string_views(r@) == (if is_safe_id(id@) {
            session_dirs_in(root@, id@, entries@)
        } else {
            seq![]
        }),
{
    let mut found: Vec<String> = Vec::new();
    let target = match safe_dir_name(id) {
        Some(n) => n,
        None => {
            return found;
        },
    };
    let mut i: usize = 0;
    while i < entries.len()
        invariant
            i <= entries.len(),
            target@ == id@,
            string_views(found@) == session_dirs_in(root@, id@, entries@.take(i as int)),
        decreases entries.len() - i,
    {
        let e = &entries[i];
        assert(entries@.take(i + 1).drop_last() =~= entries@.take(i as int));
        assert(entries@.take(i + 1).last() == *e);
        let ghost before = string_views(found@);
        if e.is_dir && e.name == target {
            found.push(crate::paths::path_join(root, target.as_str()));
            assert(string_views(found@) =~= before.push(joined(root@, id@)));
        } else if e.is_dir && e.holds_session {
            let ws = crate::paths::path_join(root, e.name.as_str());
            found.push(crate::paths::path_join(ws.as_str(), target.as_str()));
            assert(string_views(found@) =~= before.push(joined(joined(root@, e.name@), id@)));
        }
        i = i + 1;
    }
    assert(entries@.take(entries@.len() as int) =~= entries@);
    found
}

/// Only the session's own directories are ever removed: each directory chosen
/// for the session `id` is `<root>/<id>` or `<root>/<name>/<id>` for a name
/// listed in `root`.
pub proof fn session_dirs_are_the_sessions_own(root: Seq<char>, id: Seq<char>, es: Seq<RootEntry>)
    ensures
        forall|k: int|
            0 <= k < session_dirs_in(root, id, es).len() ==> {
                let d = #[trigger] session_dirs_in(root, id, es)[k];
                d == joined(root, id) || exists|j: int|
                    0 <= j < es.len() && d == joined(joined(root, es[j].name@), id)
            },
    decreases es.len(),
{
    if es.len() > 0 {
        let d0 = es.drop_last();
        session_dirs_are_the_sessions_own(root, id, d0);
        let ds = session_dirs_in(root, id, es);
        let r0 = session_dirs_in(root, id, d0);
        assert forall|k: int| 0 <= k < ds.len() implies {
            let d = #[trigger] ds[k];
            d == joined(root, id) || exists|j: int|
                0 <= j < es.len() && d == joined(joined(root, es[j].name@), id)
        } by {
            if k < r0.len() {
                assert(ds[k] == r0[k]);
                if ds[k] != joined(root, id) {
                    let j = choose|j: int|
                        0 <= j < d0.len() && r0[k] == joined(joined(root, d0[j].name@), id);
                    assert(es[j] == d0[j]);
                }
            } else {
                assert(es[es.len() - 1] == es.last());
            }
        }
    }
}

/// **Physical delete**: remove the archived ids from the archived set, prune
/// them from workspace membership, and report the removal of their session
/// directories.
///
/// `loaded` is the registry as read from `workspace_storage_path(home)`.
/// `removals` holds, for each id of `eligible_ids` in order, the directories
/// found for it under `sessions_root(home)` and whether each was removed.
/// On success, `updated` is the document to write back, `None` when none of
/// the ids is archived.
pub fn delete_archived(
    home: &str,
    ids: &[String],
    loaded: Result<Json, String>,
    removals: &Vec<DirRemoval>,
) -> (r: Result<ArchiveEdit, String>)
    ensures
        match validation_error(string_views(ids@)) {
            Some(e) => r matches Err(m) && m@ == e,
            None => match loaded {
                Err(e) => r matches Err(m) && m@ == e@,
                Ok(doc) => match doc_error(doc@, storage_path(home@)) {
                    Some(e) => r matches Err(m) && m@ == e,
                    None => r matches Ok(edit) && {
                        let items = archived_or_empty(doc@);
                        let el = eligible(string_views(ids@), items);
                        &&& edit.report.processed == ids@.len()
                        &&& edit.report.deleted_dirs == capped(removed_of(removals@))
                        &&& string_views(edit.report.missing_dirs@) == missing_of(removals@)
                        &&& string_views(edit.report.warnings@) == warnings_of(removals@)
                        &&& if el.len() == 0 {
                            edit.report.changed_archive == 0
                                && edit.report.pruned_session_refs == 0
                                && edit.updated is None
                        } else {
                            let archived_done = with_nested_array(
                                doc@,
                                "global"@,
                                "archivedSessionIds"@,
                                kept(items, el),
                            );
                            &&& edit.report.changed_archive == removed_count(items, el)
                            &&& match workspace_records(archived_done) {
                                Some(ws) => edit.report.pruned_session_refs == capped(
                                    removed_total(ws, el),
                                ) && (edit.updated matches Some(d) && d@ == with_workspace_records(
                                    archived_done,
                                    pruned_members(ws, el),
                                )),
                                None => edit.report.pruned_session_refs == 0
                                    && (edit.updated matches Some(d) && d@ == archived_done),
                            }
                        }
                    },
                },
            },
        },
{
    validate_ids(ids)?;
    let path = crate::paths::workspace_storage_path(home);
    let mut doc = loaded?;
    check_workspace_doc(&doc, path.as_str())?;
    let el = eligible_ids(&doc, ids);
    let mut report = ArchiveOpsReport::default();
    report.processed = ids.len();
    record_removals(&mut report, removals);
    if el.len() == 0 {
        return Ok(ArchiveEdit { report, updated: None });
    }
    let changed = remove_from_archived(&mut doc, el.as_slice())?;
    report.changed_archive = changed;
    let pruned = prune_workspace_session_refs(&mut doc, el.as_slice())?;
    report.pruned_session_refs = pruned;
    Ok(ArchiveEdit { report, updated: Some(doc) })
}

/// What a batch operation answers the injected panel.
#[derive(Debug)]
pub struct ArchiveOpResponse {
    /// The outcome of the batch.
    pub report: ArchiveOpsReport,
    /// Always `false`: dsh is not restarted after an archive operation; the
    /// panel keeps its own list right, and dsh catches up on its next start.
    pub restart_triggered: bool,
}

/// The answer for a finished batch.
pub fn archive_op_response(report: ArchiveOpsReport) -> (r: ArchiveOpResponse)
    ensures
        r.report == report,
        !r.restart_triggered,
{
    ArchiveOpResponse { report, restart_triggered: false }
}

// ---------------------------------------------------------------------------
// Laws
// ---------------------------------------------------------------------------
/// A safe session id cannot leave the storage tree: it holds no path
/// separator and no `..`.
pub proof fn safe_id_stays_in_tree(id: Seq<char>)
    requires
        is_safe_id(id),
    ensures
        !id.contains('/'),
        !has_infix(id, ".."@),
{
    if id.contains('/') {
        let i = choose|i: int| 0 <= i < id.len() && id[i] == '/';
        assert(is_ascii_alnum(id[i]) || id[i] == '-');
    }
}

proof fn lemma_member_index_keys(
    ms: Seq<(Seq<char>, JsonView)>,
    i: int,
    new: JsonView,
    k: Seq<char>,
)
    requires
        0 <= i < ms.len(),
    ensures
        member_index(ms.update(i, (ms[i].0, new)), k) == member_index(ms, k),
    decreases ms.len(),
{
    if ms.len() > 0 && i > 0 {
        assert(ms.update(i, (ms[i].0, new)).drop_first() =~= ms.drop_first().update(
            i - 1,
            (ms.drop_first()[i - 1].0, new),
        ));
        lemma_member_index_keys(ms.drop_first(), i - 1, new, k);
    } else if ms.len() > 0 {
        assert(ms.update(i, (ms[i].0, new)).drop_first() =~= ms.drop_first());
    }
}

/// Setting one member of an object leaves every other member as it was.
pub proof fn jset_keeps_other_members(v: JsonView, key: Seq<char>, new: JsonView, k: Seq<char>)
    requires
        k != key,
    ensures
        jget(jset(v, key, new), k) == jget(v, k),
{
    if let JsonView::Object(ms) = v {
        lemma_member_index_bounds(ms, key);
        lemma_member_index_bounds(ms, k);
        if let Some(i) = member_index(ms, key) {
            lemma_member_index_keys(ms, i, new, k);
            let ms2 = ms.update(i, (ms[i].0, new));
            lemma_member_index_bounds(ms2, k);
            if let Some(j) = member_index(ms, k) {
                assert(j != i);
                assert(ms2[j] == ms[j]);
            }
        }
    }
}

/// Un-archiving edits only `global.archivedSessionIds`: every other top-level
/// member (the workspace tables among them) and every other member of
/// `global` stay as they were.
pub proof fn unarchive_touches_only_archived(
    doc: JsonView,
    items: Seq<JsonView>,
    k: Seq<char>,
    g: Seq<char>,
)
    requires
        archived_items(doc) is Some,
        k != "global"@,
        g != "archivedSessionIds"@,
    ensures
        jget(with_nested_array(doc, "global"@, "archivedSessionIds"@, items), k) == jget(doc, k),
        ({
            let gv = jget(doc, "global"@)->0;
            jget(
                jget(with_nested_array(doc, "global"@, "archivedSessionIds"@, items), "global"@)->0,
                g,
            ) == jget(gv, g)
        }),
{
    let gv = jget(doc, "global"@)->0;
    let new_g = jset(gv, "archivedSessionIds"@, JsonView::Array(items));
    jset_keeps_other_members(doc, "global"@, new_g, k);
    jset_keeps_other_members(gv, "archivedSessionIds"@, JsonView::Array(items), g);
    jset_gets_member(doc, "global"@, new_g);
}

/// Setting a member that exists, then reading it, gives the new value.
pub proof fn jset_gets_member(v: JsonView, key: Seq<char>, new: JsonView)
    requires
        jget(v, key) is Some,
    ensures
        jget(jset(v, key, new), key) == Some(new),
{
    if let JsonView::Object(ms) = v {
        lemma_member_index_bounds(ms, key);
        let i = member_index(ms, key)->0;
        lemma_member_index_keys(ms, i, new, key);
    }
}

/// Removing the same ids a second time removes nothing.
pub proof fn removal_is_idempotent(items: Seq<JsonView>, ids: Seq<Seq<char>>)
    ensures
        kept(kept(items, ids), ids) == kept(items, ids),
        removed_count(kept(items, ids), ids) == 0,
    decreases items.len(),
{
    reveal(Seq::filter);
    if items.len() > 0 {
        removal_is_idempotent(items.drop_last(), ids);
        let k1 = kept(items.drop_last(), ids);
        if keeps(ids)(items.last()) {
            assert(kept(items, ids) == k1.push(items.last()));
            assert(k1.push(items.last()).drop_last() =~= k1);
            assert(kept(k1.push(items.last()), ids) == kept(k1, ids).push(items.last()));
        } else {
            assert(kept(items, ids) == k1);
        }
    }
}

proof fn lemma_filter_same(items: Seq<JsonView>, p: spec_fn(JsonView) -> bool, q: spec_fn(JsonView) -> bool)
    requires
        forall|i: int| 0 <= i < items.len() ==> p(#[trigger] items[i]) == q(items[i]),
    ensures
        items.filter(p) == items.filter(q),
    decreases items.len(),
{
    reveal(Seq::filter);
    if items.len() > 0 {
        let d = items.drop_last();
        assert forall|i: int| 0 <= i < d.len() implies p(#[trigger] d[i]) == q(d[i]) by {
            assert(d[i] == items[i]);
        }
        lemma_filter_same(d, p, q);
        assert(p(items[items.len() - 1]) == q(items[items.len() - 1]));
    }
}

proof fn lemma_none_eligible(ids: Seq<Seq<char>>, items: Seq<JsonView>)
    requires
        forall|i: int| 0 <= i < ids.len() ==> !items.contains(JsonView::Str(#[trigger] ids[i])),
    ensures
        eligible(ids, items).len() == 0,
{
    broadcast use vstd::seq_lib::group_filter_ensures;

    let pred = |id: Seq<char>| items.contains(JsonView::Str(id));
    let el = ids.filter(pred);
    if el.len() > 0 {
        assert(pred(el[0]));
        assert(el.contains(el[0]));
        ids.lemma_filter_contains_rev(pred, el[0]);
        let k = choose|k: int| 0 <= k < ids.len() && ids[k] == el[0];
        assert(!items.contains(JsonView::Str(ids[k])));
    }
}

/// Un-archiving the eligible ids removes exactly the elements of the archived
/// set that are one of the requested ids: the report counts the string
/// entries that are among the ids.
pub proof fn eligible_removal_is_removal_of_ids(items: Seq<JsonView>, ids: Seq<Seq<char>>)
    ensures
        kept(items, eligible(ids, items)) == kept(items, ids),
        removed_count(items, eligible(ids, items)) == removed_count(items, ids),
{
    broadcast use vstd::seq_lib::group_filter_ensures;

    let el = eligible(ids, items);
    let pred = |id: Seq<char>| items.contains(JsonView::Str(id));
    assert forall|i: int| 0 <= i < items.len() implies keeps(el)(#[trigger] items[i]) == keeps(ids)(
        items[i],
    ) by {
        if let JsonView::Str(s) = items[i] {
            assert(items.contains(JsonView::Str(s)));
            if ids.contains(s) {
                let k = choose|k: int| 0 <= k < ids.len() && ids[k] == s;
                ids.lemma_filter_contains(pred, k);
            }
            if el.contains(s) {
                ids.lemma_filter_contains_rev(pred, s);
            }
        }
    }
    lemma_filter_same(items, keeps(el), keeps(ids));
}

/// When none of the ids is archived there is nothing to un-archive (so
/// `restore_archived` reports only `processed` and writes nothing).
pub proof fn nothing_archived_nothing_restored(ids: Seq<Seq<char>>, items: Seq<JsonView>)
    requires
        forall|i: int| 0 <= i < ids.len() ==> !items.contains(JsonView::Str(#[trigger] ids[i])),
    ensures
        eligible(ids, items).len() == 0,
{
    lemma_none_eligible(ids, items);
}

/// Un-archiving the same ids again changes nothing: the document written by
/// a first `restore_archived` is a valid registry in which none of the ids is
/// archived any more, so a second run reports only `processed` and writes
/// nothing.
pub proof fn second_restore_changes_nothing(doc: JsonView, path: Seq<char>, ids: Seq<Seq<char>>)
    requires
        doc_error(doc, path) is None,
    ensures
        ({
            let items = archived_or_empty(doc);
            let el = eligible(ids, items);
            let d = with_nested_array(doc, "global"@, "archivedSessionIds"@, kept(items, el));
            &&& doc_error(d, path) is None
            &&& archived_or_empty(d) == kept(items, el)
            &&& eligible(ids, archived_or_empty(d)).len() == 0
        }),
{
    broadcast use vstd::seq_lib::group_filter_ensures;

    let items = archived_or_empty(doc);
    let el = eligible(ids, items);
    let ks = kept(items, el);
    let g = jget(doc, "global"@)->0;
    let new_g = jset(g, "archivedSessionIds"@, JsonView::Array(ks));
    jset_gets_member(g, "archivedSessionIds"@, JsonView::Array(ks));
    jset_gets_member(doc, "global"@, new_g);
    let d = with_nested_array(doc, "global"@, "archivedSessionIds"@, ks);
    assert(jget(d, "global"@) == Some(new_g));
    assert(new_g is Object);
    eligible_removal_is_removal_of_ids(items, ids);
    assert forall|i: int| 0 <= i < ids.len() implies !ks.contains(JsonView::Str(#[trigger] ids[i])) by {
        if ks.contains(JsonView::Str(ids[i])) {
            items.lemma_filter_contains_rev(keeps(ids), JsonView::Str(ids[i]));
            let k = choose|k: int| 0 <= k < ks.len() && ks[k] == JsonView::Str(ids[i]);
            assert(keeps(ids)(ks[k]));
            assert(ids.contains(ids[i]));
        }
    }
    lemma_none_eligible(ids, ks);
}

} // verus!
