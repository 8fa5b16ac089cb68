//! Application settings and session state: host normalization, the default
//! host, and the generated session cookie. Reading and writing the settings
//! file is the caller's business; the rules about the values live here.

use vstd::prelude::*;
use crate::text::{trim_ws, trim_ws_exec, is_ws};

verus! {

/// The default content host.
pub open spec fn default_host_spec() -> Seq<char> {
    "https://animepahe.si"@
}

/// The default content host as an owned string.
pub fn default_host_url() -> (r: String)
    ensures
        r@ == default_host_spec(),
{
    String::from_str("https://animepahe.si")
}

/// Trailing slashes removed.
pub open spec fn trim_end_slashes(s: Seq<char>) -> Seq<char>
    decreases s.len(),
{
    if s.len() > 0 && s.last() == '/' {
        trim_end_slashes(s.drop_last())
    } else {
        s
    }
}

/// A host entry, normalized: surrounding whitespace and trailing slashes
/// dropped, an empty entry replaced by the default host.
pub open spec fn normalize_host_spec(s: Seq<char>) -> Seq<char> {
    let t = trim_ws(s);
    if t.len() == 0 {
        default_host_spec()
    } else {
        trim_end_slashes(t)
    }
}

/// Normalizes a host entry, as `normalize_host_spec` describes.
#[verifier::loop_isolation(false)]
pub fn normalize_host(input: &str) -> (r: String)
    ensures
        r@ == normalize_host_spec(input@),
{
    let trimmed = trim_ws_exec(input);
    let n: usize = trimmed.unicode_len();
    if n == 0 {
        return default_host_url();
    }
    proof {
        assert(trimmed@.subrange(0, n as int) =~= trimmed@);
    }
    let mut b: usize = n;
    while b > 0 && trimmed.get_char(b - 1) == '/'
        invariant
            0 <= b <= n,
            n == trimmed@.len(),
            trim_end_slashes(trimmed@) == trim_end_slashes(trimmed@.subrange(0, b as int)),
        decreases b,
    {
        proof {
            assert(trimmed@.subrange(0, b as int).drop_last() =~= trimmed@.subrange(0, b - 1));
        }
        b -= 1;
    }
    proof {
        let t = trimmed@.subrange(0, b as int);
        if t.len() > 0 {
            assert(t.last() != '/');
        }
        assert(trim_end_slashes(t) == t);
    }
    if b == 0 {
        proof {
            assert(trimmed@.subrange(0, 0) =~= Seq::<char>::empty());
        }
        return String::new();
    }
    trimmed.substring_char(0, b).to_owned()
}

/// An ASCII alphanumeric character.
pub open spec fn is_alnum(c: char) -> bool {
    ('0' <= c && c <= '9') || ('a' <= c && c <= 'z') || ('A' <= c && c <= 'Z')
}

/// Relies on rand::rng with rand::distr::Alphanumeric (SampleString): the
/// sampled string has exactly the requested length and holds only ASCII
/// alphanumeric characters; the choice itself is random and unnamed.
#[verifier::external_body]
fn random_alphanumeric(len: usize) -> (r: String)
    ensures
        r@.len() == len,
        forall|i: int| 0 <= i < r@.len() ==> is_alnum(#[trigger] r@[i]),
{
    rand::distr::SampleString::sample_string(&rand::distr::Alphanumeric, &mut rand::rng(), len)
}

/// A freshly generated session cookie value: the fixed cookie name and a
/// sixteen-character alphanumeric token.
pub open spec fn cookie_wf(s: Seq<char>) -> bool {
    &&& s.len() == "__ddg2_="@.len() + 16
    &&& s.subrange(0, "__ddg2_="@.len() as int) == "__ddg2_="@
    &&& forall|i: int|
        "__ddg2_="@.len() <= i < s.len() ==> is_alnum(#[trigger] s[i])
}

/// Generates a session cookie, as `cookie_wf` describes.
pub fn gen_cookie() -> (r: String)
    ensures
        cookie_wf(r@),
{
    let mut out = String::from_str("__ddg2_=");
    let token = random_alphanumeric(16);
    let ghost prefix = out@;
    out.append(token.as_str());
    proof {
        assert(out@.subrange(0, prefix.len() as int) =~= prefix);
        assert forall|i: int| prefix.len() <= i < out@.len() implies is_alnum(
            #[trigger] out@[i],
        ) by {
            assert(out@[i] == token@[i - prefix.len()]);
        }
    }
    out
}

/// The persisted application settings.
pub struct AppSettings {
    pub download_dir: Option<String>,
    pub theme_dark: bool,
    pub host_url: String,
    pub tour_completed: bool,
}

/// The defaults the application starts from.
impl Default for AppSettings {
    fn default() -> (r: Self)
        ensures
            r.download_dir is None,
            r.theme_dark,
            r.host_url@ == default_host_spec(),
            !r.tour_completed,
    {
        AppSettings {
            download_dir: None,
            theme_dark: true,
            host_url: default_host_url(),
            tour_completed: false,
        }
    }
}

/// The per-session application state: current settings and the session
/// cookie the pipeline sends with every request.
pub struct AppState {
    pub settings: AppSettings,
    pub cookie_value: String,
}

impl AppState {
    /// Starts a session from loaded settings: the host entry is normalized
    /// and a fresh cookie is generated.
    pub fn init(settings: AppSettings) -> (r: AppState)
        ensures
            r.settings.host_url@ == normalize_host_spec(settings.host_url@),
            r.settings.download_dir == settings.download_dir,
            r.settings.theme_dark == settings.theme_dark,
            r.settings.tour_completed == settings.tour_completed,
            cookie_wf(r.cookie_view()),
    {
        let host_url = normalize_host(settings.host_url.as_str());
        AppState {
            settings: AppSettings {
                download_dir: settings.download_dir,
                theme_dark: settings.theme_dark,
                host_url,
                tour_completed: settings.tour_completed,
            },
            cookie_value: gen_cookie(),
        }
    }

    /// The session cookie's characters.
    pub open spec fn cookie_view(&self) -> Seq<char> {
        self.cookie_value@
    }

    /// The session cookie to send with requests.
    pub fn cookie(&self) -> (r: &String)
        ensures
            r@ == self.cookie_view(),
    {
        &self.cookie_value
    }

    /// Replaces the settings, normalizing the host entry, and hands back
    /// what the caller should write to disk.
    pub fn persist(&mut self, settings: AppSettings) -> (r: &AppSettings)
        ensures
            r == &final(self).settings,
            final(self).settings.host_url@ == normalize_host_spec(settings.host_url@),
            final(self).settings.download_dir == settings.download_dir,
            final(self).settings.theme_dark == settings.theme_dark,
            final(self).settings.tour_completed == settings.tour_completed,
            final(self).cookie_view() == old(self).cookie_view(),
    {
        let host_url = normalize_host(settings.host_url.as_str());
        self.settings = AppSettings {
            download_dir: settings.download_dir,
            theme_dark: settings.theme_dark,
            host_url,
            tour_completed: settings.tour_completed,
        };
        &self.settings
    }
}

} // verus!
