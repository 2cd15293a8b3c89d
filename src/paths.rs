//! Where the store lives: the application data directory of each execution
//! context, the documents inside it, and the system hosts file.
use vstd::prelude::*;
use crate::model::strings_view;

verus! {

/// The operating systems the store knows the conventions of.
#[derive(Debug, Clone, Copy, PartialEq, Eq, Structural)]
pub enum Platform {
    Windows,
    MacOs,
    Linux,
}

/// The environment values that the headless context resolves its directory
/// from.
#[derive(Debug, Clone)]
pub struct HeadlessEnv {
    pub platform: Platform,
    /// `APPDATA`, when set.
    pub appdata: Option<String>,
    /// `HOME`, when set.
    pub home: Option<String>,
    /// `XDG_DATA_HOME`, when set.
    pub xdg_data_home: Option<String>,
}

/// How the store is reached: from the interactive shell, which provides its
/// data directory, or headless, which rebuilds the same directory from the
/// platform's conventions.
#[derive(Debug, Clone)]
pub enum Context {
    Tauri(String),
    Headless(HeadlessEnv),
}

/// Path segments of the application data directory, or why it is unknown.
pub open spec fn app_dir_of(ctx: Context) -> Result<Seq<Seq<char>>, Seq<char>> {
    match ctx {
        Context::Tauri(dir) => Ok(seq![dir@]),
        Context::Headless(env) => match env.platform {
            Platform::Windows => match env.appdata {
                Some(base) => Ok(seq![base@, "com.hostly.switcher"@]),
                None => Err("APPDATA env var not found"@),
            },
            Platform::MacOs => match env.home {
                Some(home) => Ok(seq![home@, "Library/Application Support/com.hostly.switcher"@]),
                None => Err("HOME env var not found"@),
            },
            Platform::Linux => match env.xdg_data_home {
                Some(base) => Ok(seq![base@, "com.hostly.switcher"@]),
                None => match env.home {
                    Some(home) => Ok(seq![home@, ".local/share/com.hostly.switcher"@]),
                    None => Err("HOME env var not found"@),
                },
            },
        },
    }
}

fn segments2(a: &String, b: &str) -> (r: Vec<String>)
    ensures
        strings_view(r@) == seq![a@, b@],
{
    let mut v: Vec<String> = Vec::new();
    v.push(a.clone());
    v.push(b.to_owned());
    assert(strings_view(v@) =~= seq![a@, b@]);
    v
}

impl Context {
    /// The application data directory as path segments, to be joined in
    /// order.
    pub fn get_app_dir(&self) -> (r: Result<Vec<String>, String>)
        ensures
            match r {
                Ok(v) => app_dir_of(*self) == Ok::<_, Seq<char>>(strings_view(v@)),
                Err(e) => app_dir_of(*self) == Err::<Seq<Seq<char>>, _>(e@),
            },
    {
        match self {
            Context::Tauri(dir) => {
                let mut v: Vec<String> = Vec::new();
                v.push(dir.clone());
                assert(strings_view(v@) =~= seq![dir@]);
                Ok(v)
            },
            Context::Headless(env) => match env.platform {
                Platform::Windows => match &env.appdata {
                    Some(base) => Ok(segments2(base, "com.hostly.switcher")),
                    None => Err("APPDATA env var not found".to_owned()),
                },
                Platform::MacOs => match &env.home {
                    Some(home) => Ok(segments2(home, "Library/Application Support/com.hostly.switcher")),
                    None => Err("HOME env var not found".to_owned()),
                },
                Platform::Linux => match &env.xdg_data_home {
                    Some(base) => Ok(segments2(base, "com.hostly.switcher")),
                    None => match &env.home {
                        Some(home) => Ok(segments2(home, ".local/share/com.hostly.switcher")),
                        None => Err("HOME env var not found".to_owned()),
                    },
                },
            },
        }
    }
}

/// `dir` followed by the segment `name`.
fn child(dir: &Vec<String>, name: String) -> (r: Vec<String>)
    ensures
        strings_view(r@) == strings_view(dir@).push(name@),
{
    let mut v: Vec<String> = Vec::new();
    let mut i: usize = 0;
    while i < dir.len()
        invariant
            i <= dir.len(),
            v@.len() == i,
            strings_view(v@) =~= strings_view(dir@).take(i as int),
        decreases dir.len() - i,
    {
        let ghost prev = v@;
        v.push(dir[i].clone());
        assert forall|k: int| 0 <= k < i implies #[trigger] v@[k] == prev[k] by {}
        assert(strings_view(v@) =~= strings_view(dir@).take(i + 1));
        i = i + 1;
    }
    assert(strings_view(dir@).take(dir.len() as int) =~= strings_view(dir@));
    let ghost prev = v@;
    v.push(name);
    assert forall|k: int| 0 <= k < dir.len() implies #[trigger] v@[k] == prev[k] by {}
    assert(strings_view(v@) =~= strings_view(dir@).push(name@));
    v
}

/// The configuration document of the store in `dir`.
pub fn get_config_path(dir: &Vec<String>) -> (r: Vec<String>)
    ensures
        strings_view(r@) == strings_view(dir@).push("config.json"@),
{
    child(dir, "config.json".to_owned())
}

/// The common document of the store in `dir`.
pub fn get_common_path(dir: &Vec<String>) -> (r: Vec<String>)
    ensures
        strings_view(r@) == strings_view(dir@).push("common.txt"@),
{
    child(dir, "common.txt".to_owned())
}

/// The directory of the profile content documents of the store in `dir`.
pub fn get_profiles_dir(dir: &Vec<String>) -> (r: Vec<String>)
    ensures
        strings_view(r@) == strings_view(dir@).push("profiles"@),
{
    child(dir, "profiles".to_owned())
}

/// The content document of profile `id` in the store in `dir`.
pub fn get_profile_path(dir: &Vec<String>, id: &str) -> (r: Vec<String>)
    ensures
        strings_view(r@) == strings_view(dir@).push("profiles"@).push(id@ + ".txt"@),
{
    let profiles = get_profiles_dir(dir);
    child(&profiles, id.to_owned().concat(".txt"))
}

/// The system hosts file of `platform`.
pub fn get_hosts_path(platform: Platform) -> (r: String)
    ensures
        r@ == (if platform == Platform::Windows {
            "C:\\Windows\\System32\\drivers\\etc\\hosts"@
        } else {
            "/etc/hosts"@
        }),
{
    match platform {
        Platform::Windows => "C:\\Windows\\System32\\drivers\\etc\\hosts".to_owned(),
        _ => "/etc/hosts".to_owned(),
    }
}

} // verus!
