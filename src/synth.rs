//! Rendering of the system hosts file from the common text and the active
//! profiles.
use vstd::prelude::*;
use crate::model::{content_of, files_map, files_view, metas_view, AppConfig, ConfigView, MetaView, ProfileFile};
use crate::profiles::read_profile_content;

verus! {

/// Fixed text that opens every rendered hosts file, up to the common text.
pub open spec fn hosts_preamble() -> Seq<char> {
    "# Generated by Hostly\n\n"@ + "### Common Config ###\n"@
}

/// The section that an active profile contributes.
pub open spec fn profile_section(p: MetaView, files: Map<Seq<char>, Seq<char>>) -> Seq<char> {
    "### Profile: "@ + p.name + " ###\n"@ + content_of(files, p.id) + "\n\n"@
}

/// The sections of the active profiles among `ps`, in their order.
pub open spec fn profile_sections(ps: Seq<MetaView>, files: Map<Seq<char>, Seq<char>>) -> Seq<char>
    decreases ps.len(),
{
    if ps.len() == 0 {
        Seq::empty()
    } else {
        profile_sections(ps.drop_last(), files) + if ps.last().active {
            profile_section(ps.last(), files)
        } else {
            Seq::empty()
        }
    }
}

/// The hosts file for the common text `common`, the configuration `c` and
/// the profile contents `files`.
pub open spec fn synthesized(common: Seq<char>, c: ConfigView, files: Map<Seq<char>, Seq<char>>) -> Seq<char> {
    hosts_preamble() + common + "\n\n"@ + profile_sections(c.profiles, files)
}

/// Renders the hosts file: a header, the common section, then a section per
/// active profile in configuration order. A profile without a content
/// document contributes an empty body.
pub fn synthesize(config: &AppConfig, common: &str, files: &Vec<ProfileFile>) -> (r: String)
    ensures
        r@ == synthesized(common@, config@, files_map(files_view(files@))),
{
    let ghost fm = files_map(files_view(files@));
    let ghost ps = config@.profiles;
    let mut out = "# Generated by Hostly\n\n".to_owned();
    out.append("### Common Config ###\n");
    out.append(common);
    out.append("\n\n");
    let mut i: usize = 0;
    while i < config.profiles.len()
        invariant
            fm == files_map(files_view(files@)),
            ps == config@.profiles,
            i <= config.profiles.len(),
            out@ == hosts_preamble() + common@ + "\n\n"@ + profile_sections(ps.take(i as int), fm),
        decreases config.profiles.len() - i,
    {
        let p = &config.profiles[i];
        assert(ps[i as int] == p@);
        assert(ps.take(i + 1).drop_last() =~= ps.take(i as int));
        if p.active {
            let body = read_profile_content(files, &p.id);
            out.append("### Profile: ");
            out.append(p.name.as_str());
            out.append(" ###\n");
            out.append(body.as_str());
            out.append("\n\n");
            assert(out@ =~= hosts_preamble() + common@ + "\n\n"@ + profile_sections(ps.take(i + 1), fm));
        } else {
            assert(out@ =~= hosts_preamble() + common@ + "\n\n"@ + profile_sections(ps.take(i + 1), fm));
        }
        i = i + 1;
    }
    assert(ps.take(config.profiles.len() as int) =~= ps);
    out
}

/// Rendering depends on nothing but its inputs' values: two renderings from
/// the same common text, the same configuration and snapshots that hold the
/// same content by id are identical, however the snapshots were ordered.
pub proof fn lemma_synthesize_idempotent(
    common: Seq<char>,
    c: ConfigView,
    first: Seq<(Seq<char>, Seq<char>)>,
    second: Seq<(Seq<char>, Seq<char>)>,
)
    requires
        files_map(first) == files_map(second),
    ensures
        synthesized(common, c, files_map(first)) == synthesized(common, c, files_map(second)),
{
}

/// Profiles of which none is active contribute no section.
pub proof fn lemma_no_active_sections(ps: Seq<MetaView>, files: Map<Seq<char>, Seq<char>>)
    requires
        forall|i: int| 0 <= i < ps.len() ==> !(#[trigger] ps[i]).active,
    ensures
        profile_sections(ps, files) == Seq::<char>::empty(),
    decreases ps.len(),
{
    if ps.len() > 0 {
        let pre = ps.drop_last();
        assert forall|i: int| 0 <= i < pre.len() implies !(#[trigger] pre[i]).active by {
            assert(pre[i] == ps[i]);
        }
        lemma_no_active_sections(pre, files);
        assert(!ps[ps.len() - 1].active);
    }
}

/// Profiles of which exactly the one at `k` is active contribute that
/// profile's section alone.
pub proof fn lemma_single_active_sections(ps: Seq<MetaView>, files: Map<Seq<char>, Seq<char>>, k: int)
    requires
        0 <= k < ps.len(),
        ps[k].active,
        forall|i: int| 0 <= i < ps.len() && i != k ==> !(#[trigger] ps[i]).active,
    ensures
        profile_sections(ps, files) == profile_section(ps[k], files),
    decreases ps.len(),
{
    let pre = ps.drop_last();
    if k == ps.len() - 1 {
        assert forall|i: int| 0 <= i < pre.len() implies !(#[trigger] pre[i]).active by {
            assert(pre[i] == ps[i]);
        }
        lemma_no_active_sections(pre, files);
        assert(Seq::<char>::empty() + profile_section(ps[k], files) =~= profile_section(ps[k], files));
    } else {
        assert forall|i: int| 0 <= i < pre.len() && i != k implies !(#[trigger] pre[i]).active by {
            assert(pre[i] == ps[i]);
        }
        assert(pre[k] == ps[k]);
        lemma_single_active_sections(pre, files, k);
        assert(!ps[ps.len() - 1].active);
        assert(profile_sections(ps, files) =~= profile_sections(pre, files));
    }
}

/// With exactly one active profile, the hosts file is the fixed preamble,
/// the common text and its separator, then that profile's section: the
/// common section comes first and the profile's section follows it.
pub proof fn lemma_single_active_layout(common: Seq<char>, c: ConfigView, files: Map<Seq<char>, Seq<char>>, k: int)
    requires
        0 <= k < c.profiles.len(),
        c.profiles[k].active,
        forall|i: int| 0 <= i < c.profiles.len() && i != k ==> !(#[trigger] c.profiles[i]).active,
    ensures
        synthesized(common, c, files) == hosts_preamble() + common + "\n\n"@ + "### Profile: "@ + c.profiles[k].name
            + " ###\n"@ + content_of(files, c.profiles[k].id) + "\n\n"@,
{
    lemma_single_active_sections(c.profiles, files, k);
    assert(synthesized(common, c, files) =~= hosts_preamble() + common + "\n\n"@ + "### Profile: "@
        + c.profiles[k].name + " ###\n"@ + content_of(files, c.profiles[k].id) + "\n\n"@);
}

} // verus!
