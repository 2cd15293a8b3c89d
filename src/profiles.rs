//! The profile store: creation, renaming, deletion, lookup and upsert of
//! profiles over a configuration held in memory, with the content documents
//! to write collected in order.
use vstd::prelude::*;
use crate::error::StoreError;
use crate::model::{
    config_wf, content_of, datas_view, files_map, files_view, first_index, has_id, has_name,
    ids_unique, lemma_first_index, lemma_first_index_push, metas_view, names_unique, AppConfig, ConfigView, DataView,
    MetaView, ProfileData, ProfileFile, ProfileMetadata,
};
use crate::selection::{position_of_id, position_of_name};

verus! {

/// The profiles with their contents, in configuration order.
pub open spec fn listed(c: ConfigView, files: Map<Seq<char>, Seq<char>>) -> Seq<DataView> {
    Seq::new(
        c.profiles.len(),
        |i: int|
            DataView {
                id: c.profiles[i].id,
                name: c.profiles[i].name,
                content: content_of(files, c.profiles[i].id),
                active: c.profiles[i].active,
            },
    )
}

/// Whether some profile with id `id` is active.
pub open spec fn active_with_id(c: ConfigView, id: Seq<char>) -> bool {
    exists|i: int| 0 <= i < c.profiles.len() && (#[trigger] c.profiles[i]).id == id && c.profiles[i].active
}

/// The content stored under `id` in `files`, when there is some.
pub fn lookup_profile_file(files: &Vec<ProfileFile>, id: &String) -> (r: Option<String>)
    ensures
        match r {
            Some(c) => files_map(files_view(files@)).contains_key(id@) && c@ == files_map(files_view(files@))[id@],
            None => !files_map(files_view(files@)).contains_key(id@),
        },
{
    let ghost fv = files_view(files@);
    let mut last: Option<usize> = None;
    let mut i: usize = 0;
    while i < files.len()
        invariant
            fv == files_view(files@),
            i <= files.len(),
            match last {
                Some(j) => j < i && files_map(fv.take(i as int)).contains_key(id@)
                    && files_map(fv.take(i as int))[id@] == files@[j as int].content@,
                None => !files_map(fv.take(i as int)).contains_key(id@),
            },
        decreases files.len() - i,
    {
        assert(fv.take(i + 1).drop_last() =~= fv.take(i as int));
        if files[i].id == *id {
            last = Some(i);
        }
        i = i + 1;
    }
    assert(fv.take(files.len() as int) =~= fv);
    match last {
        Some(j) => Some(files[j].content.clone()),
        None => None,
    }
}

/// The content stored under `id` in `files`, empty when there is none.
pub fn read_profile_content(files: &Vec<ProfileFile>, id: &String) -> (r: String)
    ensures
        r@ == content_of(files_map(files_view(files@)), id@),
{
    match lookup_profile_file(files, id) {
        Some(c) => c,
        None => String::new(),
    }
}

/// The profiles of `config`, each with its content read from `files` (a
/// missing document reads as empty).
pub fn list_profiles_internal(config: &AppConfig, files: &Vec<ProfileFile>) -> (r: Vec<ProfileData>)
    ensures
        datas_view(r@) == listed(config@, files_map(files_view(files@))),
{
    let mut out: Vec<ProfileData> = Vec::new();
    let mut i: usize = 0;
    while i < config.profiles.len()
        invariant
            i <= config.profiles.len(),
            out@.len() == i,
            forall|j: int| 0 <= j < i ==> #[trigger] datas_view(out@)[j] == listed(config@, files_map(files_view(files@)))[j],
        decreases config.profiles.len() - i,
    {
        let p = &config.profiles[i];
        let content = read_profile_content(files, &p.id);
        let ghost prev = out@;
        out.push(ProfileData { id: p.id.clone(), name: p.name.clone(), content, active: p.active });
        assert(config@.profiles[i as int] == config.profiles@[i as int]@);
        assert(datas_view(out@)[i as int] == listed(config@, files_map(files_view(files@)))[i as int]);
        assert forall|j: int| 0 <= j < i implies #[trigger] datas_view(out@)[j] == datas_view(prev)[j] by {
            assert(out@[j] == prev[j]);
        }
        i = i + 1;
    }
    assert(datas_view(out@) =~= listed(config@, files_map(files_view(files@))));
    out
}

/// Whether a profile with id `id` is active.
pub fn is_profile_active(config: &AppConfig, id: &str) -> (r: bool)
    ensures
        r == active_with_id(config@, id@),
{
    let key = id.to_owned();
    assert(key@ == id@);
    let mut i: usize = 0;
    while i < config.profiles.len()
        invariant
            key@ == id@,
            i <= config.profiles.len(),
            forall|j: int| 0 <= j < i ==> !((#[trigger] config@.profiles[j]).id == id@ && config@.profiles[j].active),
        decreases config.profiles.len() - i,
    {
        assert(config@.profiles[i as int] == config.profiles@[i as int]@);
        if config.profiles[i].id == key && config.profiles[i].active {
            assert(config@.profiles[i as int].id == id@ && config@.profiles[i as int].active);
            return true;
        }
        i = i + 1;
    }
    false
}

/// The id of the first profile named `name`.
pub fn find_profile_id_by_name_internal(config: &AppConfig, name: &str) -> (r: Option<String>)
    ensures
        ({
            let k = first_index(config@.profiles, has_name(name@));
            match r {
                Some(id) => k >= 0 && id@ == config@.profiles[k].id,
                None => k == -1,
            }
        }),
{
    let name = name.to_owned();
    match position_of_name(&config.profiles, &name) {
        Some(k) => Some(config.profiles[k].id.clone()),
        None => None,
    }
}

/// The configuration with a new inactive profile appended.
pub open spec fn created(c: ConfigView, id: Seq<char>, name: Seq<char>) -> ConfigView {
    ConfigView { profiles: c.profiles.push(MetaView { id: id, name: name, active: false }), ..c }
}

/// Whether a profile other than `id` already holds `name`.
pub open spec fn name_taken_by_other(c: ConfigView, id: Seq<char>, name: Seq<char>) -> bool {
    exists|i: int| 0 <= i < c.profiles.len() && (#[trigger] c.profiles[i]).name == name && c.profiles[i].id != id
}

/// The configuration with the first profile of id `id` renamed.
pub open spec fn renamed(c: ConfigView, id: Seq<char>, name: Seq<char>) -> ConfigView {
    let k = first_index(c.profiles, has_id(id));
    if k < 0 {
        c
    } else {
        ConfigView { profiles: c.profiles.update(k, MetaView { name: name, ..c.profiles[k] }), ..c }
    }
}

/// The configuration with the first profile of id `id` removed.
pub open spec fn deleted(c: ConfigView, id: Seq<char>) -> ConfigView {
    let k = first_index(c.profiles, has_id(id));
    if k < 0 {
        c
    } else {
        ConfigView { profiles: c.profiles.remove(k), ..c }
    }
}

pub open spec fn option_text(t: Option<String>) -> Seq<char> {
    match t {
        Some(s) => s@,
        None => Seq::empty(),
    }
}

/// The configuration and pending writes after an upsert of `name` with
/// `content`; `fresh` is the id that a new profile receives.
pub open spec fn upserted(
    c: ConfigView,
    writes: Seq<(Seq<char>, Seq<char>)>,
    name: Seq<char>,
    content: Seq<char>,
    fresh: Seq<char>,
) -> (ConfigView, Seq<(Seq<char>, Seq<char>)>) {
    let k = first_index(c.profiles, has_name(name));
    if k >= 0 {
        (c, writes.push((c.profiles[k].id, content)))
    } else {
        (created(c, fresh, name), writes.push((fresh, content)))
    }
}

/// Relies on uuid::Uuid::new_v4 and the hyphenated lower-case text form of
/// a Uuid: a random identifier of 36 characters.
#[verifier::external_body]
fn new_uuid() -> (r: String)
    ensures
        r@.len() == 36,
{
    uuid::Uuid::new_v4().to_string()
}

/// The length of the longest profile id of `config`.
fn longest_id_len(config: &AppConfig) -> (r: usize)
    ensures
        forall|i: int| 0 <= i < config@.profiles.len() ==> (#[trigger] config@.profiles[i]).id.len() <= r,
{
    let mut longest: usize = 0;
    let mut i: usize = 0;
    while i < config.profiles.len()
        invariant
            i <= config.profiles.len(),
            forall|j: int| 0 <= j < i ==> (#[trigger] config@.profiles[j]).id.len() <= longest,
        decreases config.profiles.len() - i,
    {
        assert(config@.profiles[i as int] == config.profiles@[i as int]@);
        let n = config.profiles[i].id.as_str().unicode_len();
        if n > longest {
            longest = n;
        }
        i = i + 1;
    }
    longest
}

/// A randomly drawn id that no profile of `config` holds. In the unlikely
/// event that the draw hits an id in use, it is lengthened with `-` until it
/// is longer than every id in use.
pub fn fresh_profile_id(config: &AppConfig) -> (r: String)
    ensures
        first_index(config@.profiles, has_id(r@)) == -1,
{
    let mut id = new_uuid();
    if position_of_id(&config.profiles, &id).is_some() {
        let longest = longest_id_len(config);
        let mut len = id.as_str().unicode_len();
        while len <= longest
            invariant
                len == id@.len(),
            decreases longest + 1 - len,
        {
            proof {
                reveal_strlit("-");
            }
            id.append("-");
            len = id.as_str().unicode_len();
        }
        proof {
            lemma_first_index(config@.profiles, has_id(id@));
            assert forall|i: int| 0 <= i < config@.profiles.len() implies !has_id(id@)(
                #[trigger] config@.profiles[i],
            ) by {
                assert(config@.profiles[i].id.len() <= longest);
            }
        }
    }
    id
}

/// Appends an inactive profile named `name` under the new id `id`, and a
/// write of its initial content.
pub fn add_profile(
    config: &mut AppConfig,
    id: String,
    name: String,
    content: String,
    writes: &mut Vec<ProfileFile>,
)
    ensures
        final(config)@ == created(old(config)@, id@, name@),
        files_view(final(writes)@) == files_view(old(writes)@).push((id@, content@)),
{
    writes.push(ProfileFile { id: id.clone(), content });
    config.profiles.push(ProfileMetadata { id, name, active: false });
    proof {
        assert(config@.profiles =~= created(old(config)@, id@, name@).profiles);
        assert(files_view(writes@) =~= files_view(old(writes)@).push((id@, content@)));
    }
}

/// Creates a profile named `name` with the given initial content (empty when
/// none is given). Refused with `DuplicateName` when the name is taken; the
/// new profile is inactive and goes last.
pub fn create_profile_internal(
    config: &mut AppConfig,
    name: String,
    content: Option<String>,
    writes: &mut Vec<ProfileFile>,
) -> (r: Result<String, StoreError>)
    ensures
        first_index(old(config)@.profiles, has_name(name@)) >= 0 ==> r matches Err(StoreError::DuplicateName),
        first_index(old(config)@.profiles, has_name(name@)) == -1 ==> r is Ok,
        match r {
            Ok(id) => {
                &&& first_index(old(config)@.profiles, has_name(name@)) == -1
                &&& first_index(old(config)@.profiles, has_id(id@)) == -1
                &&& final(config)@ == created(old(config)@, id@, name@)
                &&& files_view(final(writes)@) == files_view(old(writes)@).push((id@, option_text(content)))
            },
            Err(e) => {
                &&& e is DuplicateName
                &&& first_index(old(config)@.profiles, has_name(name@)) >= 0
                &&& *final(config) == *old(config)
                &&& *final(writes) == *old(writes)
            },
        },
{
    if position_of_name(&config.profiles, &name).is_some() {
        return Err(StoreError::DuplicateName);
    }
    let id = fresh_profile_id(config);
    let initial = match content {
        Some(text) => text,
        None => String::new(),
    };
    add_profile(config, id.clone(), name, initial, writes);
    Ok(id)
}

/// Whether a profile whose id differs from `id` holds `name`.
fn taken_by_other(config: &AppConfig, id: &String, name: &String) -> (r: bool)
    ensures
        r == name_taken_by_other(config@, id@, name@),
{
    let mut i: usize = 0;
    while i < config.profiles.len()
        invariant
            i <= config.profiles.len(),
            forall|j: int| 0 <= j < i ==> !((#[trigger] config@.profiles[j]).name == name@ && config@.profiles[j].id != id@),
        decreases config.profiles.len() - i,
    {
        assert(config@.profiles[i as int] == config.profiles@[i as int]@);
        if config.profiles[i].name == *name && !(config.profiles[i].id == *id) {
            assert(config@.profiles[i as int].name == name@ && config@.profiles[i as int].id != id@);
            return true;
        }
        i = i + 1;
    }
    false
}

/// Renames the profile with id `id`. Refused with `DuplicateName` when
/// another profile holds `new_name`; an unknown id changes nothing.
pub fn rename_profile_internal(config: &mut AppConfig, id: &str, new_name: String) -> (r: Result<(), StoreError>)
    ensures
        match r {
            Ok(()) => !name_taken_by_other(old(config)@, id@, new_name@)
                && final(config)@ == renamed(old(config)@, id@, new_name@),
            Err(e) => e is DuplicateName && name_taken_by_other(old(config)@, id@, new_name@)
                && *final(config) == *old(config),
        },
{
    let key = id.to_owned();
    if taken_by_other(config, &key, &new_name) {
        return Err(StoreError::DuplicateName);
    }
    if let Some(k) = position_of_id(&config.profiles, &key) {
        let mut p = config.profiles[k].duplicate();
        p.name = new_name;
        config.profiles.set(k, p);
        proof {
            assert(config@.profiles =~= renamed(old(config)@, id@, new_name@).profiles);
        }
    }
    Ok(())
}

/// Removes the profile with id `id`, if there is one; returns whether one was
/// removed. Its content document is the caller's to discard.
pub fn delete_profile_internal(config: &mut AppConfig, id: &str) -> (removed: bool)
    ensures
        removed == (first_index(old(config)@.profiles, has_id(id@)) >= 0),
        final(config)@ == deleted(old(config)@, id@),
{
    let key = id.to_owned();
    match position_of_id(&config.profiles, &key) {
        Some(k) => {
            config.profiles.remove(k);
            proof {
                assert(config@.profiles =~= deleted(old(config)@, id@).profiles);
            }
            true
        },
        None => false,
    }
}

/// Writes `content` to the profile named `name`, creating the profile when
/// there is none; returns its id.
pub fn upsert_profile_internal(
    config: &mut AppConfig,
    name: String,
    content: String,
    writes: &mut Vec<ProfileFile>,
) -> (id: String)
    ensures
        ({
            let k = first_index(old(config)@.profiles, has_name(name@));
            &&& (k >= 0 ==> id@ == old(config)@.profiles[k].id)
            &&& (k == -1 ==> first_index(old(config)@.profiles, has_id(id@)) == -1)
            &&& (final(config)@, files_view(final(writes)@))
                == upserted(old(config)@, files_view(old(writes)@), name@, content@, id@)
        }),
{
    match position_of_name(&config.profiles, &name) {
        Some(k) => {
            let id = config.profiles[k].id.clone();
            writes.push(ProfileFile { id: id.clone(), content });
            proof {
                assert(files_view(writes@) =~= files_view(old(writes)@).push((id@, content@)));
            }
            id
        },
        None => {
            let id = fresh_profile_id(config);
            add_profile(config, id.clone(), name, content, writes);
            id
        },
    }
}

/// Creating a profile under a new name and a fresh id keeps a well-formed
/// configuration well-formed; in particular names stay unique.
pub proof fn lemma_create_keeps_wf(c: ConfigView, id: Seq<char>, name: Seq<char>)
    requires
        config_wf(c),
        first_index(c.profiles, has_name(name)) == -1,
        first_index(c.profiles, has_id(id)) == -1,
    ensures
        config_wf(created(c, id, name)),
{
    lemma_first_index(c.profiles, has_name(name));
    lemma_first_index(c.profiles, has_id(id));
    let ps = created(c, id, name).profiles;
    assert forall|i: int| 0 <= i < c.profiles.len() implies #[trigger] ps[i] == c.profiles[i] by {}
    assert(has_name(name)(c.profiles[0]) == (c.profiles[0].name == name));
}

/// A rename that is not refused keeps a well-formed configuration
/// well-formed; in particular names stay unique.
pub proof fn lemma_rename_keeps_wf(c: ConfigView, id: Seq<char>, name: Seq<char>)
    requires
        config_wf(c),
        !name_taken_by_other(c, id, name),
    ensures
        config_wf(renamed(c, id, name)),
{
    lemma_first_index(c.profiles, has_id(id));
    let k = first_index(c.profiles, has_id(id));
    let ps = renamed(c, id, name).profiles;
    if k >= 0 {
        assert forall|i: int, j: int| 0 <= i < ps.len() && 0 <= j < ps.len() && i != j
            implies #[trigger] ps[i].name != #[trigger] ps[j].name by {
            if i == k {
                assert(c.profiles[j] == ps[j]);
                assert(c.profiles[j].id != id);
            } else if j == k {
                assert(c.profiles[i] == ps[i]);
                assert(c.profiles[i].id != id);
            } else {
                assert(c.profiles[i] == ps[i] && c.profiles[j] == ps[j]);
            }
        }
        assert forall|i: int, j: int| 0 <= i < ps.len() && 0 <= j < ps.len() && i != j
            implies #[trigger] ps[i].id != #[trigger] ps[j].id by {
            assert(c.profiles[i].id == ps[i].id && c.profiles[j].id == ps[j].id);
        }
        assert forall|i: int, j: int| 0 <= i < ps.len() && 0 <= j < ps.len() && #[trigger] ps[i].active
            && #[trigger] ps[j].active && !c.multi_select implies i == j by {
            assert(c.profiles[i].active == ps[i].active && c.profiles[j].active == ps[j].active);
        }
    }
}

/// A rename that is not refused keeps names unique, in a configuration
/// whose ids and names are unique.
pub proof fn lemma_rename_keeps_names_unique(c: ConfigView, id: Seq<char>, name: Seq<char>)
    requires
        ids_unique(c.profiles),
        names_unique(c.profiles),
        !name_taken_by_other(c, id, name),
    ensures
        names_unique(renamed(c, id, name).profiles),
        ids_unique(renamed(c, id, name).profiles),
{
    lemma_first_index(c.profiles, has_id(id));
    let k = first_index(c.profiles, has_id(id));
    let ps = renamed(c, id, name).profiles;
    if k >= 0 {
        assert forall|i: int, j: int| 0 <= i < ps.len() && 0 <= j < ps.len() && i != j
            implies #[trigger] ps[i].name != #[trigger] ps[j].name by {
            if i == k {
                assert(c.profiles[j] == ps[j]);
                assert(c.profiles[j].id != id);
            } else if j == k {
                assert(c.profiles[i] == ps[i]);
                assert(c.profiles[i].id != id);
            } else {
                assert(c.profiles[i] == ps[i] && c.profiles[j] == ps[j]);
            }
        }
        assert forall|i: int, j: int| 0 <= i < ps.len() && 0 <= j < ps.len() && i != j
            implies #[trigger] ps[i].id != #[trigger] ps[j].id by {
            assert(c.profiles[i].id == ps[i].id && c.profiles[j].id == ps[j].id);
        }
    }
}

/// Removing a profile keeps a well-formed configuration well-formed.
pub proof fn lemma_delete_keeps_wf(c: ConfigView, id: Seq<char>)
    requires
        config_wf(c),
    ensures
        config_wf(deleted(c, id)),
{
    lemma_first_index(c.profiles, has_id(id));
    let k = first_index(c.profiles, has_id(id));
    let ps = deleted(c, id).profiles;
    if k >= 0 {
        assert forall|i: int| 0 <= i < ps.len() implies #[trigger] ps[i] == c.profiles[if i < k { i } else { i + 1 }] by {}
        assert forall|i: int, j: int| 0 <= i < ps.len() && 0 <= j < ps.len() && i != j
            implies #[trigger] ps[i].name != #[trigger] ps[j].name && ps[i].id != ps[j].id by {
            assert(ps[i] == c.profiles[if i < k { i } else { i + 1 }]);
            assert(ps[j] == c.profiles[if j < k { j } else { j + 1 }]);
        }
        assert forall|i: int, j: int| 0 <= i < ps.len() && 0 <= j < ps.len() && #[trigger] ps[i].active
            && #[trigger] ps[j].active && !c.multi_select implies i == j by {
            assert(ps[i] == c.profiles[if i < k { i } else { i + 1 }]);
            assert(ps[j] == c.profiles[if j < k { j } else { j + 1 }]);
        }
    }
}

/// An upsert keeps a well-formed configuration well-formed, provided a new
/// profile gets an id not in use; in particular names stay unique.
pub proof fn lemma_upsert_keeps_wf(
    c: ConfigView,
    writes: Seq<(Seq<char>, Seq<char>)>,
    name: Seq<char>,
    content: Seq<char>,
    fresh: Seq<char>,
)
    requires
        config_wf(c),
        first_index(c.profiles, has_name(name)) == -1 ==> first_index(c.profiles, has_id(fresh)) == -1,
    ensures
        config_wf(upserted(c, writes, name, content, fresh).0),
{
    if first_index(c.profiles, has_name(name)) == -1 {
        lemma_create_keeps_wf(c, fresh, name);
    }
}

/// Upserting the same name twice leaves one profile of that name, holding
/// the content of the second upsert.
pub proof fn lemma_upsert_twice(
    c: ConfigView,
    writes: Seq<(Seq<char>, Seq<char>)>,
    name: Seq<char>,
    first: Seq<char>,
    second: Seq<char>,
    fresh1: Seq<char>,
    fresh2: Seq<char>,
)
    requires
        config_wf(c),
        first_index(c.profiles, has_name(name)) == -1 ==> first_index(c.profiles, has_id(fresh1)) == -1,
    ensures
        ({
            let (c1, w1) = upserted(c, writes, name, first, fresh1);
            let (c2, w2) = upserted(c1, w1, name, second, fresh2);
            let k = first_index(c2.profiles, has_name(name));
            &&& c2 == c1
            &&& names_unique(c2.profiles)
            &&& 0 <= k < c2.profiles.len()
            &&& forall|j: int| 0 <= j < c2.profiles.len() && (#[trigger] c2.profiles[j]).name == name ==> j == k
            &&& content_of(files_map(w2), c2.profiles[k].id) == second
        }),
{
    let (c1, w1) = upserted(c, writes, name, first, fresh1);
    lemma_upsert_keeps_wf(c, writes, name, first, fresh1);
    lemma_first_index(c.profiles, has_name(name));
    lemma_first_index(c1.profiles, has_name(name));
    if first_index(c.profiles, has_name(name)) == -1 {
        let n = c.profiles.len();
        assert(c1.profiles[n as int].name == name);
        assert(has_name(name)(c1.profiles[n as int]));
    }
    let (c2, w2) = upserted(c1, w1, name, second, fresh2);
    assert(w2.drop_last() == w1);
}

/// Names of the profiles made on first run, in order: the snapshot of the
/// system hosts file, then three empty environments.
pub open spec fn default_names() -> Seq<Seq<char>> {
    seq!["系统hosts备份"@, "Dev"@, "Test"@, "Prod"@]
}

/// Content of the snapshot profile made on first run.
pub open spec fn snapshot_text(system_hosts: Result<String, String>) -> Seq<char> {
    match system_hosts {
        Ok(text) => text@,
        Err(_) => "# Backup failed"@,
    }
}

/// The configuration of a store on first run: single-select mode and four
/// inactive profiles, the first holding the current system hosts file (or a
/// marker when it could not be read) and the other three empty. The four
/// content documents are appended to `writes`.
pub fn bootstrap_config(system_hosts: Result<String, String>, writes: &mut Vec<ProfileFile>) -> (c: AppConfig)
    ensures
        !c@.multi_select,
        c@.active_profile_ids.len() == 0,
        c@.profiles.len() == 4,
        forall|i: int| 0 <= i < 4 ==> (#[trigger] c@.profiles[i]).name == default_names()[i] && !c@.profiles[i].active,
        config_wf(c@),
        files_view(final(writes)@) == files_view(old(writes)@) + seq![
            (c@.profiles[0].id, snapshot_text(system_hosts)),
            (c@.profiles[1].id, Seq::<char>::empty()),
            (c@.profiles[2].id, Seq::<char>::empty()),
            (c@.profiles[3].id, Seq::<char>::empty()),
        ],
{
    let mut config = AppConfig { multi_select: false, profiles: Vec::new(), active_profile_ids: Vec::new() };
    let snapshot = match system_hosts {
        Ok(text) => text,
        Err(_) => "# Backup failed".to_owned(),
    };
    proof {
        reveal_strlit("系统hosts备份");
        reveal_strlit("Dev");
        reveal_strlit("Test");
        reveal_strlit("Prod");
        lemma_first_index(config@.profiles, has_name("系统hosts备份"@));
    }
    let ghost c0 = config@;
    let ghost w0 = files_view(writes@);
    assert(config_wf(c0));
    let id0 = fresh_profile_id(&config);
    add_profile(&mut config, id0, "系统hosts备份".to_owned(), snapshot, writes);
    proof {
        lemma_create_keeps_wf(c0, config@.profiles[0].id, "系统hosts备份"@);
        lemma_first_index(config@.profiles, has_name("Dev"@));
        assert("Dev"@.len() == 3);
        assert("系统hosts备份"@.len() == 9);
        assert(config@.profiles[0].name != "Dev"@);
    }
    let ghost c1 = config@;
    let id1 = fresh_profile_id(&config);
    add_profile(&mut config, id1, "Dev".to_owned(), String::new(), writes);
    proof {
        lemma_create_keeps_wf(c1, config@.profiles[1].id, "Dev"@);
        lemma_first_index(config@.profiles, has_name("Test"@));
        assert(config@.profiles[0].name != "Test"@);
        assert(config@.profiles[1].name != "Test"@);
    }
    let ghost c2 = config@;
    let id2 = fresh_profile_id(&config);
    add_profile(&mut config, id2, "Test".to_owned(), String::new(), writes);
    proof {
        lemma_create_keeps_wf(c2, config@.profiles[2].id, "Test"@);
        lemma_first_index(config@.profiles, has_name("Prod"@));
        assert(config@.profiles[0].name != "Prod"@);
        assert(config@.profiles[1].name != "Prod"@);
        assert("Test"@[0] == 'T' && "Prod"@[0] == 'P');
        assert(config@.profiles[2].name != "Prod"@);
    }
    let ghost c3 = config@;
    let id3 = fresh_profile_id(&config);
    add_profile(&mut config, id3, "Prod".to_owned(), String::new(), writes);
    proof {
        lemma_create_keeps_wf(c3, config@.profiles[3].id, "Prod"@);
        assert(files_view(writes@) =~= w0 + seq![
            (config@.profiles[0].id, snapshot_text(system_hosts)),
            (config@.profiles[1].id, Seq::<char>::empty()),
            (config@.profiles[2].id, Seq::<char>::empty()),
            (config@.profiles[3].id, Seq::<char>::empty()),
        ]);
    }
    config
}

/// Upserts of `leaves` (title, content) one after the other, the i-th new
/// profile, if any, receiving `ids[i]`.
pub open spec fn upsert_all(
    c: ConfigView,
    writes: Seq<(Seq<char>, Seq<char>)>,
    leaves: Seq<(Seq<char>, Seq<char>)>,
    ids: Seq<Seq<char>>,
) -> (ConfigView, Seq<(Seq<char>, Seq<char>)>)
    decreases leaves.len(),
{
    if leaves.len() == 0 {
        (c, writes)
    } else {
        let (c1, w1) = upsert_all(c, writes, leaves.drop_last(), ids.drop_last());
        upserted(c1, w1, leaves.last().0, leaves.last().1, ids.last())
    }
}

/// Each id used for a new profile along `upsert_all` was not in use.
pub open spec fn fresh_along(
    c: ConfigView,
    writes: Seq<(Seq<char>, Seq<char>)>,
    leaves: Seq<(Seq<char>, Seq<char>)>,
    ids: Seq<Seq<char>>,
) -> bool
    decreases leaves.len(),
{
    if leaves.len() == 0 {
        true
    } else {
        let (c1, w1) = upsert_all(c, writes, leaves.drop_last(), ids.drop_last());
        &&& fresh_along(c, writes, leaves.drop_last(), ids.drop_last())
        &&& (first_index(c1.profiles, has_name(leaves.last().0)) == -1
            ==> first_index(c1.profiles, has_id(ids.last())) == -1)
    }
}

/// `(c1, w1)` is what upserting all of `leaves` into `(c0, w0)` gives, for
/// some choice of fresh ids.
pub open spec fn upserts_done(
    c0: ConfigView,
    w0: Seq<(Seq<char>, Seq<char>)>,
    leaves: Seq<(Seq<char>, Seq<char>)>,
    c1: ConfigView,
    w1: Seq<(Seq<char>, Seq<char>)>,
) -> bool {
    exists|ids: Seq<Seq<char>>|
        ids.len() == leaves.len() && #[trigger] fresh_along(c0, w0, leaves, ids)
            && (c1, w1) == upsert_all(c0, w0, leaves, ids)
}

/// The content of the last leaf titled `title`.
pub open spec fn last_content(leaves: Seq<(Seq<char>, Seq<char>)>, title: Seq<char>) -> Seq<char>
    decreases leaves.len(),
{
    if leaves.len() == 0 {
        Seq::empty()
    } else if leaves.last().0 == title {
        leaves.last().1
    } else {
        last_content(leaves.drop_last(), title)
    }
}

pub open spec fn leaves_view(v: Seq<(String, String)>) -> Seq<(Seq<char>, Seq<char>)> {
    v.map_values(|p: (String, String)| (p.0@, p.1@))
}

/// Upserts each (title, content) of `leaves` in order; returns how many were
/// upserted.
pub fn upsert_profiles(config: &mut AppConfig, writes: &mut Vec<ProfileFile>, leaves: &Vec<(String, String)>) -> (n:
    usize)
    ensures
        n == leaves.len(),
        upserts_done(
            old(config)@,
            files_view(old(writes)@),
            leaves_view(leaves@),
            final(config)@,
            files_view(final(writes)@),
        ),
{
    let ghost c0 = config@;
    let ghost w0 = files_view(writes@);
    let ghost lv = leaves_view(leaves@);
    let ghost mut ids: Seq<Seq<char>> = Seq::empty();
    assert(lv.take(0) =~= Seq::<(Seq<char>, Seq<char>)>::empty());
    let mut i: usize = 0;
    while i < leaves.len()
        invariant
            i <= leaves.len(),
            lv == leaves_view(leaves@),
            c0 == old(config)@,
            w0 == files_view(old(writes)@),
            ids.len() == i,
            fresh_along(c0, w0, lv.take(i as int), ids),
            (config@, files_view(writes@)) == upsert_all(c0, w0, lv.take(i as int), ids),
        decreases leaves.len() - i,
    {
        let title = leaves[i].0.clone();
        let content = leaves[i].1.clone();
        let id = upsert_profile_internal(config, title, content, writes);
        proof {
            let next = ids.push(id@);
            assert(lv.take(i + 1).drop_last() =~= lv.take(i as int));
            assert(next.drop_last() =~= ids);
            assert(lv.take(i + 1).last() == lv[i as int]);
            ids = next;
        }
        i = i + 1;
    }
    proof {
        assert(lv.take(leaves.len() as int) =~= lv);
        assert(upserts_done(c0, w0, lv, config@, files_view(writes@)));
    }
    i
}

/// Bulk upserts keep a well-formed configuration well-formed and leave
/// earlier profiles as they were; afterwards each title names a profile
/// whose content is that of the last leaf with the title.
pub proof fn lemma_upsert_all(
    c: ConfigView,
    writes: Seq<(Seq<char>, Seq<char>)>,
    leaves: Seq<(Seq<char>, Seq<char>)>,
    ids: Seq<Seq<char>>,
)
    requires
        config_wf(c),
        fresh_along(c, writes, leaves, ids),
    ensures
        ({
            let (c1, w1) = upsert_all(c, writes, leaves, ids);
            &&& config_wf(c1)
            &&& c1.multi_select == c.multi_select
            &&& c1.profiles.len() >= c.profiles.len()
            &&& c1.profiles.take(c.profiles.len() as int) == c.profiles
            &&& forall|i: int| 0 <= i < leaves.len() ==> {
                let k = #[trigger] first_index(c1.profiles, has_name(leaves[i].0));
                &&& 0 <= k < c1.profiles.len()
                &&& content_of(files_map(w1), c1.profiles[k].id) == last_content(leaves, leaves[i].0)
            }
        }),
    decreases leaves.len(),
{
    if leaves.len() > 0 {
        let pre = leaves.drop_last();
        let (t, x) = leaves.last();
        let id = ids.last();
        lemma_upsert_all(c, writes, pre, ids.drop_last());
        let (c1, w1) = upsert_all(c, writes, pre, ids.drop_last());
        let (c2, w2) = upserted(c1, w1, t, x, id);
        lemma_upsert_keeps_wf(c1, w1, t, x, id);
        lemma_first_index(c1.profiles, has_name(t));
        lemma_first_index(c1.profiles, has_id(id));
        let kt = first_index(c1.profiles, has_name(t));
        let new_meta = MetaView { id: id, name: t, active: false };
        let wid = if kt >= 0 { c1.profiles[kt].id } else { id };
        assert(w2 == w1.push((wid, x)));
        assert(w2.drop_last() =~= w1);
        assert(c2.profiles.take(c.profiles.len() as int) =~= c.profiles) by {
            if kt < 0 {
                assert(c2.profiles.take(c.profiles.len() as int) =~= c1.profiles.take(c.profiles.len() as int));
            }
        }
        assert forall|i: int| 0 <= i < leaves.len() implies {
            let k = #[trigger] first_index(c2.profiles, has_name(leaves[i].0));
            &&& 0 <= k < c2.profiles.len()
            &&& content_of(files_map(w2), c2.profiles[k].id) == last_content(leaves, leaves[i].0)
        } by {
            let ti = leaves[i].0;
            if kt < 0 {
                lemma_first_index_push(c1.profiles, new_meta, has_name(ti));
            }
            lemma_first_index(c2.profiles, has_name(ti));
            if ti == t {
                if kt < 0 {
                    assert(has_name(t)(new_meta));
                }
            } else {
                assert(i < leaves.len() - 1);
                assert(pre[i] == leaves[i]);
                let k1 = first_index(c1.profiles, has_name(ti));
                assert(first_index(c2.profiles, has_name(ti)) == k1);
                assert(c2.profiles[k1] == c1.profiles[k1]);
                if kt >= 0 {
                    assert(c1.profiles[kt].name == t);
                    assert(c1.profiles[k1].name == ti);
                    assert(c1.profiles[k1].id != wid);
                } else {
                    assert(c1.profiles[k1].id != id);
                }
            }
        }
    }
}

} // verus!
