//! Decisions of the command-line front end: what each command does to the
//! store, given the names and flags it was called with.
use vstd::prelude::*;
use crate::model::{first_index, has_id, has_name, lemma_first_index, AppConfig, ProfileData};
use crate::selection::{position_of_id, position_of_name};

verus! {

/// The diagnostic line for the outcome of the elevation probe: whether the
/// probe command succeeded, or `None` when it could not be run.
pub open spec fn elevation_message(probe: Option<bool>) -> Seq<char> {
    match probe {
        Some(true) => "[DIAGNOSTIC] Running as ADMIN"@,
        Some(false) => "[DIAGNOSTIC] Running as STANDARD USER"@,
        None => "[DIAGNOSTIC] Failed to check elevation"@,
    }
}

/// The diagnostic line for the outcome of the elevation probe.
pub fn check_elevation(probe: Option<bool>) -> (r: String)
    ensures
        r@ == elevation_message(probe),
{
    match probe {
        Some(true) => "[DIAGNOSTIC] Running as ADMIN".to_owned(),
        Some(false) => "[DIAGNOSTIC] Running as STANDARD USER".to_owned(),
        None => "[DIAGNOSTIC] Failed to check elevation".to_owned(),
    }
}

/// What opening or closing a profile by name comes to.
#[derive(Debug)]
pub enum ActivationStep {
    /// No profile has the name.
    NotFound,
    /// The profile is already in the requested state.
    Unchanged,
    /// The profile with this id is to be clicked.
    Toggle(String),
}

/// Whether opening (`want_active`) or closing the profile named `name`
/// needs a click on it: the profile is found by name and its state read by
/// id, as a click addresses it.
pub fn activation_step(config: &AppConfig, name: &str, want_active: bool) -> (r: ActivationStep)
    ensures
        ({
            let ps = config@.profiles;
            let k = first_index(ps, has_name(name@));
            if k < 0 {
                r is NotFound
            } else {
                let j = first_index(ps, has_id(ps[k].id));
                if ps[j].active == want_active {
                    r is Unchanged
                } else {
                    r matches ActivationStep::Toggle(id) && id@ == ps[k].id
                }
            }
        }),
{
    let key = name.to_owned();
    match position_of_name(&config.profiles, &key) {
        None => ActivationStep::NotFound,
        Some(k) => {
            let id = config.profiles[k].id.clone();
            proof {
                lemma_first_index(config@.profiles, has_id(id@));
                assert(config@.profiles[k as int] == config.profiles@[k as int]@);
                assert(has_id(id@)(config@.profiles[k as int]));
            }
            match position_of_id(&config.profiles, &id) {
                Some(j) => {
                    assert(config@.profiles[j as int] == config.profiles@[j as int]@);
                    if config.profiles[j].active == want_active {
                        ActivationStep::Unchanged
                    } else {
                        ActivationStep::Toggle(id)
                    }
                },
                None => ActivationStep::NotFound,
            }
        },
    }
}

/// The profiles to open after an import: those listed with `--open`, or the
/// imported profile when `--open` lists none.
pub fn profiles_to_open(name: Option<String>, open: Option<Vec<String>>) -> (r: Vec<String>)
    ensures
        r@ == match open {
            None => Seq::<String>::empty(),
            Some(args) => if args@.len() == 0 {
                match name {
                    Some(n) => seq![n],
                    None => Seq::<String>::empty(),
                }
            } else {
                args@
            },
        },
{
    match open {
        None => Vec::new(),
        Some(args) => {
            if args.len() == 0 {
                match name {
                    Some(n) => {
                        let mut v: Vec<String> = Vec::new();
                        v.push(n);
                        assert(v@ =~= seq![n]);
                        v
                    },
                    None => Vec::new(),
                }
            } else {
                args
            }
        },
    }
}

/// Whether an import switches to multi-select mode: when asked to, or when
/// more than one profile is to be opened.
pub fn needs_multi_select(to_open: usize, multi: bool) -> (r: bool)
    ensures
        r == (to_open > 1 || multi),
{
    to_open > 1 || multi
}

/// Whether opening `requested` profiles in the current mode deserves the
/// warning that only the first will stay active.
pub fn warns_single_select(config: &AppConfig, requested: usize) -> (r: bool)
    ensures
        r == (!config.multi_select && requested > 1),
{
    !config.multi_select && requested > 1
}

/// The line that lists a profile: its name and its state.
pub fn list_line(p: &ProfileData) -> (r: String)
    ensures
        r@ == p.name@ + " ["@ + (if p.active { "ACTIVE"@ } else { "OFF"@ }) + "]"@,
{
    let mut out = p.name.clone();
    out.append(" [");
    if p.active {
        out.append("ACTIVE");
    } else {
        out.append("OFF");
    }
    out.append("]");
    out
}

/// What a file given to `import` without a profile name is taken for.
#[derive(Debug, PartialEq, Eq, Structural)]
pub enum ImportKind {
    /// A whole-store backup document.
    Backup,
    /// The common text.
    Common,
}

/// What `str::to_lowercase` makes of `s`.
pub uninterp spec fn lower_of(s: Seq<char>) -> Seq<char>;

/// Relies on str::to_lowercase: the lower-case mapping of each character,
/// which depends on the text alone.
#[verifier::external_body]
fn lowercase(s: &str) -> (r: String)
    ensures
        r@ == lower_of(s@),
{
    s.to_lowercase()
}

/// Whether `s` ends with `suffix`.
pub fn ends_with_text(s: &str, suffix: &str) -> (r: bool)
    ensures
        r == (suffix@.len() <= s@.len() && s@.subrange(s@.len() - suffix@.len(), s@.len() as int) == suffix@),
{
    let n = s.unicode_len();
    let m = suffix.unicode_len();
    if m > n {
        return false;
    }
    let mut i: usize = 0;
    while i < m
        invariant
            n == s@.len(),
            m == suffix@.len(),
            m <= n,
            i <= m,
            forall|j: int| 0 <= j < i ==> s@[n - m + j] == suffix@[j],
        decreases m - i,
    {
        if s.get_char(n - m + i) != suffix.get_char(i) {
            assert(s@.subrange(n - m, n as int)[i as int] != suffix@[i as int]);
            return false;
        }
        i = i + 1;
    }
    assert(s@.subrange(n - m, n as int) =~= suffix@);
    true
}

/// A file name ending in ".json", in any case, is a backup; anything else is
/// the common text.
pub fn import_kind(target: &str) -> (r: ImportKind)
    ensures
        ({
            let low = lower_of(target@);
            let json = ".json"@;
            r == if json.len() <= low.len() && low.subrange(low.len() - json.len(), low.len() as int) == json {
                ImportKind::Backup
            } else {
                ImportKind::Common
            }
        }),
{
    let low = lowercase(target);
    if ends_with_text(low.as_str(), ".json") {
        ImportKind::Backup
    } else {
        ImportKind::Common
    }
}

/// `a`, in `quote` marks when it holds a space.
pub open spec fn quoted(a: Seq<char>, quote: Seq<char>) -> Seq<char> {
    if a.contains(' ') {
        quote + a + quote
    } else {
        a
    }
}

/// The arguments quoted and joined by single spaces.
pub open spec fn joined_arguments(args: Seq<Seq<char>>, quote: Seq<char>) -> Seq<char>
    decreases args.len(),
{
    if args.len() == 0 {
        Seq::empty()
    } else if args.len() == 1 {
        quoted(args[0], quote)
    } else {
        joined_arguments(args.drop_last(), quote) + " "@ + quoted(args.last(), quote)
    }
}

/// Whether `s` holds the character `c`.
fn holds_char(s: &str, c: char) -> (r: bool)
    ensures
        r == s@.contains(c),
{
    let n = s.unicode_len();
    let mut i: usize = 0;
    while i < n
        invariant
            n == s@.len(),
            i <= n,
            forall|j: int| 0 <= j < i ==> s@[j] != c,
        decreases n - i,
    {
        if s.get_char(i) == c {
            return true;
        }
        i = i + 1;
    }
    false
}

/// The argument line for relaunching with elevated rights: each argument
/// that holds a space is put between two copies of `quote`, and they are
/// joined by spaces.
pub fn relaunch_arguments(args: &Vec<String>, quote: &str) -> (r: String)
    ensures
        r@ == joined_arguments(args@.map_values(|a: String| a@), quote@),
{
    let ghost av = args@.map_values(|a: String| a@);
    let mut out = String::new();
    let mut i: usize = 0;
    while i < args.len()
        invariant
            i <= args.len(),
            av == args@.map_values(|a: String| a@),
            out@ == joined_arguments(av.take(i as int), quote@),
        decreases args.len() - i,
    {
        let a = &args[i];
        assert(av.take(i + 1).drop_last() =~= av.take(i as int));
        assert(av[i as int] == a@);
        if i > 0 {
            out.append(" ");
        }
        if holds_char(a.as_str(), ' ') {
            out.append(quote);
            out.append(a.as_str());
            out.append(quote);
        } else {
            out.append(a.as_str());
        }
        if i == 0 {
            assert(av.take(1) =~= seq![a@]);
        }
        assert(out@ =~= joined_arguments(av.take(i + 1), quote@));
        i = i + 1;
    }
    assert(av.take(args.len() as int) =~= av);
    out
}

} // verus!
