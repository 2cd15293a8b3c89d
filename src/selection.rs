//! The selection state machine: single-select and multi-select activation.
use vstd::prelude::*;
use crate::model::{
    at_most_one_active, config_wf, first_index, has_id, ids_unique, names_unique, has_name, is_active, lemma_first_index, lemma_first_index_at, metas_view,
    AppConfig, ConfigView, MetaView, ProfileMetadata,
};

verus! {

/// Profiles with the `active` flag of index `k` flipped.
pub open spec fn flip_at(ps: Seq<MetaView>, k: int) -> Seq<MetaView> {
    ps.update(k, MetaView { active: !ps[k].active, ..ps[k] })
}

/// Profiles where only index `k` may be active (none when `k` is -1).
pub open spec fn only_at(ps: Seq<MetaView>, k: int) -> Seq<MetaView> {
    Seq::new(ps.len(), |i: int| MetaView { active: i == k, ..ps[i] })
}

/// Profiles where only the first active one stays active.
pub open spec fn keep_first_active(ps: Seq<MetaView>) -> Seq<MetaView> {
    let k = first_index(ps, is_active());
    Seq::new(ps.len(), |i: int| MetaView { active: ps[i].active && i == k, ..ps[i] })
}

/// The configuration after a click on the profile with id `id`.
pub open spec fn toggled(c: ConfigView, id: Seq<char>) -> ConfigView {
    let k = first_index(c.profiles, has_id(id));
    if c.multi_select {
        if k < 0 { c } else { ConfigView { profiles: flip_at(c.profiles, k), ..c } }
    } else {
        let was_active = k >= 0 && c.profiles[k].active;
        ConfigView { profiles: only_at(c.profiles, if was_active { -1 } else { k }), ..c }
    }
}

/// The configuration after switching the selection mode.
pub open spec fn with_mode(c: ConfigView, enable_multi: bool) -> ConfigView {
    if enable_multi {
        ConfigView { multi_select: true, ..c }
    } else {
        ConfigView { multi_select: false, profiles: keep_first_active(c.profiles), ..c }
    }
}

/// Position of the first profile whose id is `id`.
pub fn position_of_id(ps: &Vec<ProfileMetadata>, id: &String) -> (r: Option<usize>)
    ensures
        match r {
            Some(k) => k < ps.len() && k as int == first_index(metas_view(ps@), has_id(id@)),
            None => first_index(metas_view(ps@), has_id(id@)) == -1,
        },
{
    let ghost v = metas_view(ps@);
    proof {
        lemma_first_index(v, has_id(id@));
    }
    let mut i: usize = 0;
    while i < ps.len()
        invariant
            v == metas_view(ps@),
            i <= ps.len(),
            forall|j: int| 0 <= j < i ==> !has_id(id@)(#[trigger] v[j]),
        decreases ps.len() - i,
    {
        if ps[i].id == *id {
            proof {
                lemma_first_index_at(v, has_id(id@), i as int);
            }
            return Some(i);
        }
        i = i + 1;
    }
    None
}

/// Position of the first profile whose name is `name`.
pub fn position_of_name(ps: &Vec<ProfileMetadata>, name: &String) -> (r: Option<usize>)
    ensures
        match r {
            Some(k) => k < ps.len() && k as int == first_index(metas_view(ps@), has_name(name@)),
            None => first_index(metas_view(ps@), has_name(name@)) == -1,
        },
{
    let ghost v = metas_view(ps@);
    proof {
        lemma_first_index(v, has_name(name@));
    }
    let mut i: usize = 0;
    while i < ps.len()
        invariant
            v == metas_view(ps@),
            i <= ps.len(),
            forall|j: int| 0 <= j < i ==> !has_name(name@)(#[trigger] v[j]),
        decreases ps.len() - i,
    {
        if ps[i].name == *name {
            proof {
                lemma_first_index_at(v, has_name(name@), i as int);
            }
            return Some(i);
        }
        i = i + 1;
    }
    None
}

/// Sets the `active` flag of the profile at index `k`.
fn set_active_at(ps: &mut Vec<ProfileMetadata>, k: usize, active: bool)
    requires
        k < old(ps).len(),
    ensures
        final(ps)@.len() == old(ps)@.len(),
        metas_view(final(ps)@) == metas_view(old(ps)@).update(
            k as int,
            MetaView { active: active, ..metas_view(old(ps)@)[k as int] },
        ),
{
    let mut p = ps[k].duplicate();
    p.active = active;
    ps.set(k, p);
    proof {
        assert(metas_view(ps@) =~= metas_view(old(ps)@).update(
            k as int,
            MetaView { active: active, ..metas_view(old(ps)@)[k as int] },
        ));
    }
}

/// Click on a profile. In multi-select mode the profile's flag is flipped and
/// the others are left alone; in single-select mode every profile is switched
/// off and the clicked one is switched on unless it was on. An unknown id
/// changes nothing in multi-select mode and switches everything off otherwise.
pub fn toggle_profile_active_internal(config: &mut AppConfig, id: &str)
    ensures
        final(config)@ == toggled(old(config)@, id@),
{
    let id = id.to_owned();
    let pos = position_of_id(&config.profiles, &id);
    let ghost v0 = old(config)@.profiles;
    if config.multi_select {
        if let Some(k) = pos {
            let a = config.profiles[k].active;
            set_active_at(&mut config.profiles, k, !a);
        }
        proof {
            assert(config@.profiles =~= toggled(old(config)@, id@).profiles);
        }
    } else {
        let was_active = match pos {
            Some(k) => config.profiles[k].active,
            None => false,
        };
        let ghost target: int = if was_active { -1 } else { first_index(v0, has_id(id@)) };
        let n = config.profiles.len();
        let mut i: usize = 0;
        while i < n
            invariant
                n == config.profiles.len(),
                v0.len() == n,
                i <= n,
                config.multi_select == old(config).multi_select,
                config.active_profile_ids == old(config).active_profile_ids,
                target == (if was_active { -1 } else { first_index(v0, has_id(id@)) }),
                match pos {
                    Some(k) => k as int == first_index(v0, has_id(id@)),
                    None => first_index(v0, has_id(id@)) == -1,
                },
                forall|j: int| 0 <= j < i ==> #[trigger] metas_view(config.profiles@)[j] == only_at(v0, target)[j],
                forall|j: int| i <= j < n ==> #[trigger] metas_view(config.profiles@)[j] == v0[j],
            decreases n - i,
        {
            let on = !was_active && match pos {
                Some(k) => k == i,
                None => false,
            };
            set_active_at(&mut config.profiles, i, on);
            i = i + 1;
        }
        proof {
            assert(config@.profiles =~= toggled(old(config)@, id@).profiles);
        }
    }
}

/// Switch the selection mode. Leaving multi-select mode keeps only the first
/// active profile (in stored order) active.
pub fn set_multi_select_internal(config: &mut AppConfig, enable: bool)
    ensures
        final(config)@ == with_mode(old(config)@, enable),
{
    let ghost v0 = old(config)@.profiles;
    config.multi_select = enable;
    if !enable {
        let ghost k = first_index(v0, is_active());
        proof {
            lemma_first_index(v0, is_active());
        }
        let n = config.profiles.len();
        let mut found = false;
        let mut i: usize = 0;
        while i < n
            invariant
                n == config.profiles.len(),
                v0.len() == n,
                i <= n,
                config.multi_select == enable,
                !enable,
                config.active_profile_ids == old(config).active_profile_ids,
                k == first_index(v0, is_active()),
                -1 <= k < n,
                k >= 0 ==> v0[k].active,
                forall|j: int| 0 <= j < k ==> !(#[trigger] v0[j]).active,
                k == -1 ==> forall|j: int| 0 <= j < n ==> !(#[trigger] v0[j]).active,
                found <==> (0 <= k < i),
                forall|j: int| 0 <= j < i ==> #[trigger] metas_view(config.profiles@)[j] == keep_first_active(v0)[j],
                forall|j: int| i <= j < n ==> #[trigger] metas_view(config.profiles@)[j] == v0[j],
            decreases n - i,
        {
            assert(metas_view(config.profiles@)[i as int] == v0[i as int]);
            if config.profiles[i].active {
                if found {
                    set_active_at(&mut config.profiles, i, false);
                } else {
                    found = true;
                }
            }
            i = i + 1;
        }
    }
    proof {
        assert(config@.profiles =~= with_mode(old(config)@, enable).profiles);
    }
}

/// In single-select mode, a click leaves at most one profile active.
pub proof fn lemma_toggle_single_select(c: ConfigView, id: Seq<char>)
    requires
        !c.multi_select,
    ensures
        at_most_one_active(toggled(c, id).profiles),
{
}

/// Leaving multi-select mode leaves at most one profile active.
pub proof fn lemma_leave_multi_select(c: ConfigView)
    ensures
        at_most_one_active(with_mode(c, false).profiles),
{
}

/// Clicks and mode switches keep a well-formed configuration well-formed:
/// ids and names are untouched and single-select mode keeps at most one
/// profile active.
pub proof fn lemma_selection_preserves_wf(c: ConfigView, id: Seq<char>, enable_multi: bool)
    requires
        config_wf(c),
    ensures
        config_wf(toggled(c, id)),
        config_wf(with_mode(c, enable_multi)),
{
    let t = toggled(c, id);
    let m = with_mode(c, enable_multi);
    lemma_first_index(c.profiles, has_id(id));
    lemma_first_index(c.profiles, is_active());
    assert forall|i: int| 0 <= i < c.profiles.len() implies
        #[trigger] t.profiles[i].id == c.profiles[i].id && t.profiles[i].name == c.profiles[i].name
        && m.profiles[i].id == c.profiles[i].id && m.profiles[i].name == c.profiles[i].name by {}
    assert(t.profiles.len() == c.profiles.len());
    assert(m.profiles.len() == c.profiles.len());
    assert(ids_unique(t.profiles) && names_unique(t.profiles)) by {
        assert forall|i: int, j: int| 0 <= i < t.profiles.len() && 0 <= j < t.profiles.len() && i != j
            implies #[trigger] t.profiles[i].id != #[trigger] t.profiles[j].id by {
            assert(t.profiles[i].id == c.profiles[i].id);
            assert(t.profiles[j].id == c.profiles[j].id);
        }
        assert forall|i: int, j: int| 0 <= i < t.profiles.len() && 0 <= j < t.profiles.len() && i != j
            implies #[trigger] t.profiles[i].name != #[trigger] t.profiles[j].name by {
            assert(t.profiles[i].name == c.profiles[i].name);
            assert(t.profiles[j].name == c.profiles[j].name);
        }
    }
    assert(ids_unique(m.profiles) && names_unique(m.profiles)) by {
        assert forall|i: int, j: int| 0 <= i < m.profiles.len() && 0 <= j < m.profiles.len() && i != j
            implies #[trigger] m.profiles[i].id != #[trigger] m.profiles[j].id by {
            assert(m.profiles[i].id == c.profiles[i].id);
            assert(m.profiles[j].id == c.profiles[j].id);
        }
        assert forall|i: int, j: int| 0 <= i < m.profiles.len() && 0 <= j < m.profiles.len() && i != j
            implies #[trigger] m.profiles[i].name != #[trigger] m.profiles[j].name by {
            assert(m.profiles[i].name == c.profiles[i].name);
            assert(m.profiles[j].name == c.profiles[j].name);
        }
    }
}

} // verus!
