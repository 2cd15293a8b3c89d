//! Backup documents: export of the whole store and its restoration.
use vstd::prelude::*;
use crate::error::StoreError;
use crate::model::{
    check_config, config_wf, content_of, datas_view, files_map, files_view, AppConfig, BackupView, ConfigView, DataView,
    FullBackup, ProfileData, ProfileFile,
};
use crate::profiles::{list_profiles_internal, listed};

verus! {

/// Schema version written by `export_data_internal`.
pub const BACKUP_VERSION: i32 = 2;

/// The backup of configuration `c` and profile contents `files`, stamped `ts`.
pub open spec fn backup_of(c: ConfigView, files: Map<Seq<char>, Seq<char>>, ts: Seq<char>) -> BackupView {
    BackupView {
        version: 2,
        timestamp: ts,
        config: c,
        profiles: Some(listed(c, files)),
        profiles_content: None,
    }
}

pub open spec fn record_file(d: DataView) -> (Seq<char>, Seq<char>) {
    (d.id, d.content)
}

/// The content documents that restoring `b` writes, in order: from the
/// records when present, else from the id-to-content table, else none.
pub open spec fn imported_files(b: BackupView) -> Seq<(Seq<char>, Seq<char>)> {
    match b.profiles {
        Some(records) => records.map_values(|d: DataView| record_file(d)),
        None => match b.profiles_content {
            Some(table) => table,
            None => Seq::empty(),
        },
    }
}

/// Relies on chrono::Local::now and DateTime::to_rfc3339: the current local
/// time as RFC 3339 text.
#[verifier::external_body]
fn now_rfc3339() -> (r: String) {
    chrono::Local::now().to_rfc3339()
}

/// The backup of `config` and the content documents `files`, stamped with
/// `timestamp`.
pub fn build_backup(config: &AppConfig, files: &Vec<ProfileFile>, timestamp: String) -> (r: FullBackup)
    ensures
        r@ == backup_of(config@, files_map(files_view(files@)), timestamp@),
{
    let records = list_profiles_internal(config, files);
    FullBackup {
        version: BACKUP_VERSION,
        timestamp,
        config: config.duplicate(),
        profiles: Some(records),
        profiles_content: None,
    }
}

/// The backup of the store, stamped with the current time.
pub fn export_data_internal(config: &AppConfig, files: &Vec<ProfileFile>) -> (r: FullBackup)
    ensures
        r@ == backup_of(config@, files_map(files_view(files@)), r@.timestamp),
{
    build_backup(config, files, now_rfc3339())
}

/// Restores a backup: returns the configuration that replaces the stored
/// one wholesale, and appends to `writes` the content documents to write.
/// A backup whose configuration is not well-formed (an id or a name used
/// twice, or two active profiles in single-select mode) is refused with
/// `MalformedBackup` and nothing is written.
pub fn import_data_internal(backup: FullBackup, writes: &mut Vec<ProfileFile>) -> (r: Result<AppConfig, StoreError>)
    ensures
        r is Ok <==> config_wf(backup@.config),
        match r {
            Ok(c) => c@ == backup@.config && files_view(final(writes)@) == files_view(old(writes)@) + imported_files(
                backup@,
            ),
            Err(e) => e is MalformedBackup && *final(writes) == *old(writes),
        },
{
    if !check_config(&backup.config) {
        return Err(
            StoreError::MalformedBackup("profile ids and names must be unique, with at most one active profile in single-select mode".to_owned()),
        );
    }
    let ghost b = backup@;
    let FullBackup { config, profiles, profiles_content, .. } = backup;
    match profiles {
        Some(records) => {
            let ghost rs = datas_view(records@);
            let mut i: usize = 0;
            while i < records.len()
                invariant
                    i <= records.len(),
                    rs == datas_view(records@),
                    files_view(writes@) =~= files_view(old(writes)@) + rs.map_values(|d: DataView| record_file(d)).take(i as int),
                decreases records.len() - i,
            {
                let ghost prev = files_view(writes@);
                let d = &records[i];
                writes.push(ProfileFile { id: d.id.clone(), content: d.content.clone() });
                assert(files_view(writes@) =~= prev.push((d.id@, d.content@)));
                assert(rs.map_values(|d: DataView| record_file(d)).take(i + 1)
                    =~= rs.map_values(|d: DataView| record_file(d)).take(i as int).push((d.id@, d.content@)));
                i = i + 1;
            }
            assert(rs.map_values(|d: DataView| record_file(d)).take(records.len() as int)
                =~= rs.map_values(|d: DataView| record_file(d)));
        },
        None => {
            if let Some(table) = profiles_content {
                let ghost ts = files_view(table@);
                let mut i: usize = 0;
                while i < table.len()
                    invariant
                        i <= table.len(),
                        ts == files_view(table@),
                        files_view(writes@) =~= files_view(old(writes)@) + ts.take(i as int),
                    decreases table.len() - i,
                {
                    let ghost prev = files_view(writes@);
                    let f = &table[i];
                    writes.push(ProfileFile { id: f.id.clone(), content: f.content.clone() });
                    assert(files_view(writes@) =~= prev.push((f.id@, f.content@)));
                    assert(ts.take(i + 1) =~= ts.take(i as int).push((f.id@, f.content@)));
                    i = i + 1;
                }
                assert(ts.take(table.len() as int) =~= ts);
            }
        },
    }
    Ok(config)
}

/// Reading `a` then `b` holds what `a` holds, overridden by what `b` holds.
pub proof fn lemma_files_map_concat(a: Seq<(Seq<char>, Seq<char>)>, b: Seq<(Seq<char>, Seq<char>)>)
    ensures
        files_map(a + b) == files_map(a).union_prefer_right(files_map(b)),
    decreases b.len(),
{
    if b.len() == 0 {
        assert(a + b =~= a);
        assert(files_map(a).union_prefer_right(files_map(b)) =~= files_map(a));
    } else {
        assert((a + b).drop_last() =~= a + b.drop_last());
        lemma_files_map_concat(a, b.drop_last());
        assert(files_map(a + b) =~= files_map(a).union_prefer_right(files_map(b)));
    }
}

/// When every document of `xs` holds `f` of its id, what `xs` holds by id
/// agrees with `f`, and every id of `xs` is held.
pub proof fn lemma_files_map_agrees(xs: Seq<(Seq<char>, Seq<char>)>, f: spec_fn(Seq<char>) -> Seq<char>)
    requires
        forall|i: int| 0 <= i < xs.len() ==> (#[trigger] xs[i]).1 == f(xs[i].0),
    ensures
        forall|k: Seq<char>| #[trigger] files_map(xs).contains_key(k) ==> files_map(xs)[k] == f(k),
        forall|i: int| 0 <= i < xs.len() ==> files_map(xs).contains_key(#[trigger] xs[i].0),
    decreases xs.len(),
{
    if xs.len() > 0 {
        let rest = xs.drop_last();
        assert forall|i: int| 0 <= i < rest.len() implies (#[trigger] rest[i]).1 == f(rest[i].0) by {
            assert(rest[i] == xs[i]);
        }
        lemma_files_map_agrees(rest, f);
        let last = xs[xs.len() - 1];
        assert(last.1 == f(last.0));
        assert forall|k: Seq<char>| #[trigger] files_map(xs).contains_key(k) implies files_map(xs)[k] == f(k) by {
            if k != last.0 {
                assert(files_map(rest).contains_key(k));
            }
        }
        assert forall|i: int| 0 <= i < xs.len() implies files_map(xs).contains_key(#[trigger] xs[i].0) by {
            if i < xs.len() - 1 {
                assert(rest[i] == xs[i]);
            }
        }
    }
}

/// Restoring an exported backup gives back the configuration, and every
/// profile's content by id, whatever documents were stored before.
pub proof fn lemma_backup_round_trip(
    c: ConfigView,
    files: Map<Seq<char>, Seq<char>>,
    ts: Seq<char>,
    disk: Seq<(Seq<char>, Seq<char>)>,
)
    ensures
        backup_of(c, files, ts).config == c,
        forall|i: int| 0 <= i < c.profiles.len() ==>
            content_of(files_map(disk + imported_files(backup_of(c, files, ts))), (#[trigger] c.profiles[i]).id)
                == content_of(files, c.profiles[i].id),
{
    let xs = imported_files(backup_of(c, files, ts));
    let f = |id: Seq<char>| content_of(files, id);
    assert forall|i: int| 0 <= i < xs.len() implies (#[trigger] xs[i]).1 == f(xs[i].0) by {}
    lemma_files_map_agrees(xs, f);
    lemma_files_map_concat(disk, xs);
    assert forall|i: int| 0 <= i < c.profiles.len() implies
        content_of(files_map(disk + xs), (#[trigger] c.profiles[i]).id) == content_of(files, c.profiles[i].id) by {
        assert(xs[i].0 == c.profiles[i].id);
        assert(files_map(xs).contains_key(xs[i].0));
    }
}

/// A backup of the first schema, whose id-to-content table holds what the
/// records of a current backup hold, restores the same content by id.
pub proof fn lemma_legacy_table_matches_records(
    current: BackupView,
    legacy: BackupView,
    disk: Seq<(Seq<char>, Seq<char>)>,
)
    requires
        current.profiles is Some,
        legacy.profiles is None,
        legacy.profiles_content is Some,
        files_map(legacy.profiles_content->Some_0) == files_map(imported_files(current)),
    ensures
        files_map(disk + imported_files(legacy)) == files_map(disk + imported_files(current)),
{
    lemma_files_map_concat(disk, imported_files(legacy));
    lemma_files_map_concat(disk, imported_files(current));
}

} // verus!
