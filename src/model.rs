//! The persisted data model: profile metadata, the configuration document,
//! profile bodies, and the predicates that a well-formed store satisfies.
use vstd::prelude::*;

verus! {

/// Metadata of one profile, as held in the configuration document.
#[derive(Debug, Clone)]
pub struct ProfileMetadata {
    pub id: String,
    pub name: String,
    pub active: bool,
}

/// Mathematical value of a `ProfileMetadata`.
pub struct MetaView {
    pub id: Seq<char>,
    pub name: Seq<char>,
    pub active: bool,
}

impl View for ProfileMetadata {
    type V = MetaView;

    open spec fn view(&self) -> MetaView {
        MetaView { id: self.id@, name: self.name@, active: self.active }
    }
}

impl ProfileMetadata {
    /// A field-for-field copy.
    pub fn duplicate(&self) -> (r: ProfileMetadata)
        ensures
            r@ == self@,
    {
        ProfileMetadata { id: self.id.clone(), name: self.name.clone(), active: self.active }
    }
}

/// The configuration document: the selection mode and the ordered profiles.
#[derive(Debug, Clone)]
pub struct AppConfig {
    pub multi_select: bool,
    pub profiles: Vec<ProfileMetadata>,
    /// Kept for compatibility with existing documents; the `active` flag of
    /// each profile is what the store reads.
    pub active_profile_ids: Vec<String>,
}

/// Mathematical value of an `AppConfig`.
pub struct ConfigView {
    pub multi_select: bool,
    pub profiles: Seq<MetaView>,
    pub active_profile_ids: Seq<Seq<char>>,
}

pub open spec fn metas_view(ps: Seq<ProfileMetadata>) -> Seq<MetaView> {
    ps.map_values(|p: ProfileMetadata| p@)
}

pub open spec fn strings_view(ss: Seq<String>) -> Seq<Seq<char>> {
    ss.map_values(|s: String| s@)
}

impl View for AppConfig {
    type V = ConfigView;

    open spec fn view(&self) -> ConfigView {
        ConfigView {
            multi_select: self.multi_select,
            profiles: metas_view(self.profiles@),
            active_profile_ids: strings_view(self.active_profile_ids@),
        }
    }
}

impl Default for AppConfig {
    /// Single-select mode and no profiles.
    fn default() -> (r: AppConfig)
        ensures
            !r@.multi_select,
            r@.profiles.len() == 0,
            r@.active_profile_ids.len() == 0,
    {
        AppConfig { multi_select: false, profiles: Vec::new(), active_profile_ids: Vec::new() }
    }
}

impl AppConfig {
    /// A field-for-field copy.
    pub fn duplicate(&self) -> (r: AppConfig)
        ensures
            r@ == self@,
    {
        let mut profiles: Vec<ProfileMetadata> = Vec::new();
        let mut i: usize = 0;
        while i < self.profiles.len()
            invariant
                i <= self.profiles.len(),
                profiles@.len() == i,
                metas_view(profiles@) =~= metas_view(self.profiles@).take(i as int),
            decreases self.profiles.len() - i,
        {
            let ghost prev = profiles@;
            profiles.push(self.profiles[i].duplicate());
            assert forall|k: int| 0 <= k < i implies #[trigger] profiles@[k] == prev[k] by {}
            assert(metas_view(profiles@) =~= metas_view(self.profiles@).take(i + 1));
            i = i + 1;
        }
        let mut ids: Vec<String> = Vec::new();
        let mut j: usize = 0;
        while j < self.active_profile_ids.len()
            invariant
                j <= self.active_profile_ids.len(),
                ids@.len() == j,
                strings_view(ids@) =~= strings_view(self.active_profile_ids@).take(j as int),
            decreases self.active_profile_ids.len() - j,
        {
            let ghost prev = ids@;
            ids.push(self.active_profile_ids[j].clone());
            assert forall|k: int| 0 <= k < j implies #[trigger] ids@[k] == prev[k] by {}
            assert(strings_view(ids@) =~= strings_view(self.active_profile_ids@).take(j + 1));
            j = j + 1;
        }
        proof {
            assert(metas_view(self.profiles@).take(self.profiles.len() as int) =~= metas_view(self.profiles@));
            assert(strings_view(self.active_profile_ids@).take(self.active_profile_ids.len() as int)
                =~= strings_view(self.active_profile_ids@));
        }
        AppConfig { multi_select: self.multi_select, profiles, active_profile_ids: ids }
    }
}

/// A profile together with its content, as listed to callers and as held in
/// a backup document.
#[derive(Debug, Clone)]
pub struct ProfileData {
    pub id: String,
    pub name: String,
    pub content: String,
    pub active: bool,
}

/// Mathematical value of a `ProfileData`.
pub struct DataView {
    pub id: Seq<char>,
    pub name: Seq<char>,
    pub content: Seq<char>,
    pub active: bool,
}

impl View for ProfileData {
    type V = DataView;

    open spec fn view(&self) -> DataView {
        DataView { id: self.id@, name: self.name@, content: self.content@, active: self.active }
    }
}

pub open spec fn datas_view(ps: Seq<ProfileData>) -> Seq<DataView> {
    ps.map_values(|p: ProfileData| p@)
}

/// The content document of one profile: the text stored under its id. A
/// sequence of them is read in order, a later one replacing an earlier one
/// with the same id; this is both how a snapshot of the stored documents and
/// how a batch of pending writes is represented.
#[derive(Debug, Clone)]
pub struct ProfileFile {
    pub id: String,
    pub content: String,
}

impl View for ProfileFile {
    type V = (Seq<char>, Seq<char>);

    open spec fn view(&self) -> (Seq<char>, Seq<char>) {
        (self.id@, self.content@)
    }
}

pub open spec fn files_view(fs: Seq<ProfileFile>) -> Seq<(Seq<char>, Seq<char>)> {
    fs.map_values(|f: ProfileFile| f@)
}

/// What a sequence of content documents holds, by id.
pub open spec fn files_map(fs: Seq<(Seq<char>, Seq<char>)>) -> Map<Seq<char>, Seq<char>>
    decreases fs.len(),
{
    if fs.len() == 0 {
        Map::empty()
    } else {
        files_map(fs.drop_last()).insert(fs.last().0, fs.last().1)
    }
}

/// The content stored under `id`; an absent document reads as empty text.
pub open spec fn content_of(m: Map<Seq<char>, Seq<char>>, id: Seq<char>) -> Seq<char> {
    if m.contains_key(id) {
        m[id]
    } else {
        Seq::empty()
    }
}

/// A snapshot of the whole store. Profile bodies come either as records
/// (`profiles`) or, in documents of the first schema, as a table from id to
/// content (`profiles_content`).
#[derive(Debug, Clone)]
pub struct FullBackup {
    pub version: i32,
    pub timestamp: String,
    pub config: AppConfig,
    pub profiles: Option<Vec<ProfileData>>,
    pub profiles_content: Option<Vec<ProfileFile>>,
}

/// Mathematical value of a `FullBackup`.
pub struct BackupView {
    pub version: int,
    pub timestamp: Seq<char>,
    pub config: ConfigView,
    pub profiles: Option<Seq<DataView>>,
    pub profiles_content: Option<Seq<(Seq<char>, Seq<char>)>>,
}

impl View for FullBackup {
    type V = BackupView;

    open spec fn view(&self) -> BackupView {
        BackupView {
            version: self.version as int,
            timestamp: self.timestamp@,
            config: self.config@,
            profiles: match self.profiles {
                Some(ps) => Some(datas_view(ps@)),
                None => None,
            },
            profiles_content: match self.profiles_content {
                Some(fs) => Some(files_view(fs@)),
                None => None,
            },
        }
    }
}

/// No two profiles share a name.
pub open spec fn names_unique(ps: Seq<MetaView>) -> bool {
    forall|i: int, j: int|
        0 <= i < ps.len() && 0 <= j < ps.len() && i != j ==> #[trigger] ps[i].name != #[trigger] ps[j].name
}

/// No two profiles share an id.
pub open spec fn ids_unique(ps: Seq<MetaView>) -> bool {
    forall|i: int, j: int|
        0 <= i < ps.len() && 0 <= j < ps.len() && i != j ==> #[trigger] ps[i].id != #[trigger] ps[j].id
}

/// At most one profile is active.
pub open spec fn at_most_one_active(ps: Seq<MetaView>) -> bool {
    forall|i: int, j: int|
        0 <= i < ps.len() && 0 <= j < ps.len() && #[trigger] ps[i].active && #[trigger] ps[j].active ==> i == j
}

/// The invariant of a configuration at every save point.
pub open spec fn config_wf(c: ConfigView) -> bool {
    &&& ids_unique(c.profiles)
    &&& names_unique(c.profiles)
    &&& (!c.multi_select ==> at_most_one_active(c.profiles))
}

/// Whether profiles `a` and `b` may stand side by side in a configuration
/// whose mode is `multi`.
pub open spec fn compatible(a: MetaView, b: MetaView, multi: bool) -> bool {
    a.id != b.id && a.name != b.name && (multi || !(a.active && b.active))
}

/// Whether `config` is well-formed: ids unique, names unique, and at most one
/// active profile in single-select mode.
pub fn check_config(config: &AppConfig) -> (r: bool)
    ensures
        r == config_wf(config@),
{
    let ghost ps = config@.profiles;
    let multi = config.multi_select;
    let n = config.profiles.len();
    let mut i: usize = 0;
    while i < n
        invariant
            ps == config@.profiles,
            n == ps.len(),
            multi == config@.multi_select,
            i <= n,
            forall|a: int, b: int| 0 <= a < i && 0 <= b < n && a != b ==> compatible(#[trigger] ps[a], #[trigger] ps[b], multi),
        decreases n - i,
    {
        let mut j: usize = 0;
        while j < n
            invariant
                ps == config@.profiles,
                n == ps.len(),
                multi == config@.multi_select,
                i < n,
                j <= n,
                forall|a: int, b: int| 0 <= a < i && 0 <= b < n && a != b ==> compatible(#[trigger] ps[a], #[trigger] ps[b], multi),
                forall|b: int| 0 <= b < j && b != i ==> compatible(ps[i as int], #[trigger] ps[b], multi),
            decreases n - j,
        {
            if i != j {
                let p = &config.profiles[i];
                let q = &config.profiles[j];
                assert(ps[i as int] == p@ && ps[j as int] == q@);
                if p.id == q.id || p.name == q.name || (!multi && p.active && q.active) {
                    assert(!compatible(ps[i as int], ps[j as int], multi));
                    assert(!config_wf(config@)) by {
                        if ps[i as int].id == ps[j as int].id {
                            assert(!ids_unique(ps));
                        } else if ps[i as int].name == ps[j as int].name {
                            assert(!names_unique(ps));
                        } else {
                            assert(!at_most_one_active(ps));
                        }
                    }
                    return false;
                }
            }
            j = j + 1;
        }
        i = i + 1;
    }
    assert(config_wf(config@)) by {
        assert forall|a: int, b: int| 0 <= a < n && 0 <= b < n && a != b implies #[trigger] ps[a].id != #[trigger] ps[b].id
            && ps[a].name != ps[b].name by {
            assert(compatible(ps[a], ps[b], multi));
        }
        assert forall|a: int, b: int| 0 <= a < n && 0 <= b < n && #[trigger] ps[a].active && #[trigger] ps[b].active
            && !multi implies a == b by {
            if a != b {
                assert(compatible(ps[a], ps[b], multi));
            }
        }
    }
    true
}

/// Index of the first profile that satisfies `f`, or -1 when none does.
pub open spec fn first_index(ps: Seq<MetaView>, f: spec_fn(MetaView) -> bool) -> int
    decreases ps.len(),
{
    if ps.len() == 0 {
        -1
    } else if f(ps[0]) {
        0
    } else {
        let k = first_index(ps.drop_first(), f);
        if k < 0 { -1 } else { k + 1 }
    }
}

pub open spec fn has_id(id: Seq<char>) -> spec_fn(MetaView) -> bool {
    |p: MetaView| p.id == id
}

pub open spec fn has_name(name: Seq<char>) -> spec_fn(MetaView) -> bool {
    |p: MetaView| p.name == name
}

pub open spec fn is_active() -> spec_fn(MetaView) -> bool {
    |p: MetaView| p.active
}

/// `first_index` is -1 exactly when no profile satisfies `f`, and otherwise
/// the smallest index that does.
pub proof fn lemma_first_index(ps: Seq<MetaView>, f: spec_fn(MetaView) -> bool)
    ensures
        -1 <= first_index(ps, f) < ps.len(),
        first_index(ps, f) == -1 <==> forall|i: int| 0 <= i < ps.len() ==> !f(#[trigger] ps[i]),
        first_index(ps, f) >= 0 ==> f(ps[first_index(ps, f)]),
        forall|i: int| 0 <= i < first_index(ps, f) ==> !f(#[trigger] ps[i]),
    decreases ps.len(),
{
    if ps.len() > 0 && !f(ps[0]) {
        let rest = ps.drop_first();
        lemma_first_index(rest, f);
        assert forall|i: int| 1 <= i < ps.len() implies ps[i] == rest[i - 1] by {}
        if first_index(rest, f) == -1 {
            assert forall|i: int| 0 <= i < ps.len() implies !f(#[trigger] ps[i]) by {
                if i > 0 {
                    assert(ps[i] == rest[i - 1]);
                }
            }
        } else {
            assert forall|i: int| 0 <= i < first_index(ps, f) implies !f(#[trigger] ps[i]) by {
                if i > 0 {
                    assert(ps[i] == rest[i - 1]);
                }
            }
        }
    }
}

/// When index `k` satisfies `f` and no earlier index does, `k` is the first.
pub proof fn lemma_first_index_at(ps: Seq<MetaView>, f: spec_fn(MetaView) -> bool, k: int)
    requires
        0 <= k < ps.len(),
        f(ps[k]),
        forall|i: int| 0 <= i < k ==> !f(#[trigger] ps[i]),
    ensures
        first_index(ps, f) == k,
{
    lemma_first_index(ps, f);
}

/// How `first_index` changes when a profile is appended.
pub proof fn lemma_first_index_push(ps: Seq<MetaView>, x: MetaView, f: spec_fn(MetaView) -> bool)
    ensures
        first_index(ps, f) >= 0 ==> first_index(ps.push(x), f) == first_index(ps, f),
        first_index(ps, f) == -1 && f(x) ==> first_index(ps.push(x), f) == ps.len(),
        first_index(ps, f) == -1 && !f(x) ==> first_index(ps.push(x), f) == -1,
{
    let qs = ps.push(x);
    lemma_first_index(ps, f);
    lemma_first_index(qs, f);
    assert forall|i: int| 0 <= i < ps.len() implies #[trigger] qs[i] == ps[i] by {}
    let k = first_index(ps, f);
    if k >= 0 {
        assert(qs[k] == ps[k]);
        lemma_first_index_at(qs, f, k);
    } else if f(x) {
        assert(qs[ps.len() as int] == x);
        assert forall|i: int| 0 <= i < ps.len() implies !f(#[trigger] qs[i]) by {
            assert(qs[i] == ps[i]);
        }
        lemma_first_index_at(qs, f, ps.len() as int);
    } else {
        assert forall|i: int| 0 <= i < qs.len() implies !f(#[trigger] qs[i]) by {
            if i < ps.len() {
                assert(qs[i] == ps[i]);
            }
        }
    }
}

} // verus!
