//! The "is there a newer release?" check: its decisions, with the single request it makes left to
//! the caller. Opt-in, once a day, and it only ever reports — equal or behind is silence, because
//! a build from a checkout is usually ahead of the last tag.

use vstd::prelude::*;
use crate::json::{as_bool, as_i64, as_str, as_u64, lookup, JsonValue};
use crate::json_text::{
    as_bool_of, as_str_of, as_u64_of, bool_value, member, null_value, object_value, parse_json, parse_json_text,
    pretty_text, string_value, u64_value,
};
use crate::text::{
    after_last, before_first, chars_of, has_prefix, contains_seq, split_on, split_chars, owned,
    push_str, push_u64, dec, starts_with, contains, trim_end, string_of, path_join, join_path, lemma_before_first,
};

verus! {

/// The version of this build.
pub const CURRENT: &'static str = "0.5.0";

/// How long a result is trusted before the automatic check asks again, in seconds.
pub const CHECK_INTERVAL_SECS: u64 = 86400;

/// Why an update check failed.
pub enum UpdateError {
    /// The request itself failed (no network, DNS, TLS, timeout), with the transport's message.
    Http(String),
    /// The server answered with something other than a redirect — a 404 when the repository has
    /// no release yet, a 200 from a captive portal.
    NotRedirected(u16),
    /// The redirect's target carries no version.
    BadLocation(String),
    /// The preference file could not be written, with the I/O error's message.
    Io(String),
}

/// An update-check failure as it is reported.
pub open spec fn update_error_message(e: UpdateError) -> Seq<char> {
    match e {
        UpdateError::Http(m) => "update check failed: "@ + m@,
        UpdateError::NotRedirected(code) => "update check: expected a redirect to the latest release, got HTTP "@
            + dec(code as nat),
        UpdateError::BadLocation(l) => "update check: cannot read a version out of the redirect target `"@ + l@ + "`"@,
        UpdateError::Io(m) => "update check: "@ + m@,
    }
}

impl UpdateError {
    /// The failure as it is reported to the user.
    pub fn message(&self) -> (m: String)
        ensures
            m@ == update_error_message(*self),
    {
        match self {
            UpdateError::Http(e) => {
                let mut m = owned("update check failed: ");
                push_str(&mut m, e.as_str());
                m
            },
            UpdateError::NotRedirected(code) => {
                let mut m = owned("update check: expected a redirect to the latest release, got HTTP ");
                push_u64(&mut m, *code as u64);
                m
            },
            UpdateError::BadLocation(l) => {
                let mut m = owned("update check: cannot read a version out of the redirect target `");
                push_str(&mut m, l.as_str());
                push_str(&mut m, "`");
                m
            },
            UpdateError::Io(e) => {
                let mut m = owned("update check: ");
                push_str(&mut m, e.as_str());
                m
            },
        }
    }
}

/// How this binary got onto the machine — which decides what "update" means for the user.
#[derive(Clone, Copy, PartialEq, Eq, Debug, Structural)]
pub enum InstallKind {
    /// Running out of an AppImage.
    AppImage,
    /// Installed by the system package manager.
    Package,
    /// `cargo install`.
    Cargo,
    /// Running from a build directory — a checkout.
    Source,
    Unknown,
}

/// The install kind a path names: under `/usr/bin/`, `/usr/lib/` or `/opt/` is a system package,
/// anywhere under a `/.cargo/bin/` is `cargo install`, and a path with a `target` component is a
/// checkout's build directory.
pub open spec fn install_kind_of(path: Seq<char>) -> InstallKind {
    if has_prefix(path, "/usr/bin/"@) || has_prefix(path, "/usr/lib/"@) || has_prefix(path, "/opt/"@) {
        InstallKind::Package
    } else if contains_seq(path, "/.cargo/bin/"@) {
        InstallKind::Cargo
    } else if split_on(path, '/').contains("target"@) {
        InstallKind::Source
    } else {
        InstallKind::Unknown
    }
}

/// The path rule alone: classify an executable by where it sits, given its path as text.
fn kind_of_path(exe: &str) -> (k: InstallKind)
    ensures
        k == install_kind_of(exe@),
{
    let s = chars_of(exe);
    if starts_with(&s, &chars_of("/usr/bin/")) || starts_with(&s, &chars_of("/usr/lib/"))
        || starts_with(&s, &chars_of("/opt/")) {
        return InstallKind::Package;
    }
    if contains(&s, &chars_of("/.cargo/bin/")) {
        return InstallKind::Cargo;
    }
    let parts = split_chars(&s, '/');
    let target = chars_of("target");
    let mut i: usize = 0;
    while i < parts.len()
        invariant
            i <= parts@.len(),
            s@ == exe@,
            !has_prefix(s@, "/usr/bin/"@),
            !has_prefix(s@, "/usr/lib/"@),
            !has_prefix(s@, "/opt/"@),
            !contains_seq(s@, "/.cargo/bin/"@),
            target@ == "target"@,
            parts@.len() == split_on(s@, '/').len(),
            forall|k: int| 0 <= k < parts@.len() ==> #[trigger] parts@[k]@ == split_on(s@, '/')[k],
            forall|k: int| 0 <= k < i ==> split_on(s@, '/')[k] != "target"@,
        decreases parts.len() - i,
    {
        if crate::text::chars_eq(&parts[i], &target) {
            assert(split_on(s@, '/')[i as int] == "target"@);
            assert(split_on(s@, '/').contains("target"@));
            return InstallKind::Source;
        }
        i = i + 1;
    }
    InstallKind::Unknown
}

impl InstallKind {
    /// The path rule alone, so it can be tested without an executable to run. `exe` is the
    /// executable's path as text.
    pub fn classify(exe: &str) -> (k: InstallKind)
        ensures
            k == install_kind_of(exe@),
    {
        kind_of_path(exe)
    }

    /// A stable slug for the wire / the CLI.
    pub fn as_str(&self) -> (s: &'static str)
        ensures
            s@ == match *self {
                InstallKind::AppImage => "appimage"@,
                InstallKind::Package => "package"@,
                InstallKind::Cargo => "cargo"@,
                InstallKind::Source => "source"@,
                InstallKind::Unknown => "unknown"@,
            },
    {
        match self {
            InstallKind::AppImage => "appimage",
            InstallKind::Package => "package",
            InstallKind::Cargo => "cargo",
            InstallKind::Source => "source",
            InstallKind::Unknown => "unknown",
        }
    }

    /// How the user sees it.
    pub fn label(&self) -> (s: &'static str)
        ensures
            s@ == match *self {
                InstallKind::AppImage => "AppImage"@,
                InstallKind::Package => "system package"@,
                InstallKind::Cargo => "cargo install"@,
                InstallKind::Source => "built from a checkout"@,
                InstallKind::Unknown => "unknown install"@,
            },
    {
        match self {
            InstallKind::AppImage => "AppImage",
            InstallKind::Package => "system package",
            InstallKind::Cargo => "cargo install",
            InstallKind::Source => "built from a checkout",
            InstallKind::Unknown => "unknown install",
        }
    }

    /// What to do about a newer release, for this kind of install.
    pub fn instruction(&self) -> (s: &'static str)
        ensures
            s@ == match *self {
                InstallKind::AppImage => "Download the new AppImage from the release page and replace this one."@,
                InstallKind::Package => "Download the new .deb or .rpm from the release page and install it with apt or dnf (on Arch, update the AUR package)."@,
                InstallKind::Cargo => "Run the same `cargo install` again to pick up the new version."@,
                InstallKind::Source => "Pull the repository and rebuild."@,
                InstallKind::Unknown => "See the release page."@,
            },
    {
        match self {
            InstallKind::AppImage => "Download the new AppImage from the release page and replace this one.",
            InstallKind::Package => "Download the new .deb or .rpm from the release page and install it with apt or dnf (on Arch, update the AUR package).",
            InstallKind::Cargo => "Run the same `cargo install` again to pick up the new version.",
            InstallKind::Source => "Pull the repository and rebuild.",
            InstallKind::Unknown => "See the release page.",
        }
    }
}

/// The decimal value of a run of ASCII digits.
pub open spec fn digits_value(s: Seq<char>) -> nat
    decreases s.len(),
{
    if s.len() == 0 {
        0
    } else {
        digits_value(s.drop_last()) * 10 + ((s.last() as int - 48) as nat)
    }
}

/// Whether every character of `s` is an ASCII digit.
pub open spec fn all_digits(s: Seq<char>) -> bool {
    forall|i: int| 0 <= i < s.len() ==> '0' <= #[trigger] s[i] && s[i] <= '9'
}

/// What Rust's `str::parse::<u64>` gives for `s`: an optional `+`, then at least one digit, and a
/// value that fits.
pub open spec fn parse_u64_spec(s: Seq<char>) -> Option<u64> {
    let d = if s.len() > 0 && s[0] == '+' { s.drop_first() } else { s };
    if d.len() > 0 && all_digits(d) && digits_value(d) <= u64::MAX {
        Some(digits_value(d) as u64)
    } else {
        None
    }
}

proof fn lemma_digits_grow(s: Seq<char>, i: int, k: int)
    requires
        0 <= i <= k <= s.len(),
        all_digits(s),
    ensures
        digits_value(s.take(i)) <= digits_value(s.take(k)),
    decreases k - i,
{
    if i < k {
        lemma_digits_grow(s, i, k - 1);
        assert(s.take(k).drop_last() =~= s.take(k - 1));
    }
}

/// `str::parse::<u64>` on characters.
pub fn parse_u64(s: &Vec<char>) -> (r: Option<u64>)
    ensures
        r == parse_u64_spec(s@),
{
    let start: usize = if s.len() > 0 && s[0] == '+' { 1 } else { 0 };
    let ghost d = if s@.len() > 0 && s@[0] == '+' { s@.drop_first() } else { s@ };
    assert(d =~= s@.skip(start as int));
    if start >= s.len() {
        return None;
    }
    let mut v: u64 = 0;
    let mut i: usize = start;
    while i < s.len()
        invariant
            start <= i <= s.len(),
            d == s@.skip(start as int),
            d == (if s@.len() > 0 && s@[0] == '+' { s@.drop_first() } else { s@ }),
            d.len() > 0,
            forall|k: int| 0 <= k < i - start ==> '0' <= #[trigger] d[k] && d[k] <= '9',
            v == digits_value(d.take(i - start)),
        decreases s.len() - i,
    {
        let c = s[i];
        if !('0' <= c && c <= '9') {
            assert(d[i - start] == c);
            assert(!all_digits(d));
            return None;
        }
        let dig = (c as u8 - 48u8) as u64;
        proof {
            assert(d.take(i - start + 1).drop_last() =~= d.take(i - start));
        }
        if v > (u64::MAX - dig) / 10 {
            proof {
                assert(v * 10 + dig > u64::MAX) by (nonlinear_arith)
                    requires v > (u64::MAX - dig) / 10, dig <= 9;
                let j = i - start + 1;
                assert(d.take(j).last() == c);
                assert(digits_value(d.take(j)) == v * 10 + dig);
                if all_digits(d) {
                    lemma_digits_grow(d, j, d.len() as int);
                    assert(d.take(d.len() as int) =~= d);
                }
            }
            return None;
        }
        v = v * 10 + dig;
        i = i + 1;
    }
    assert(d.take(d.len() as int) =~= d);
    Some(v)
}

/// A `MAJOR.MINOR.PATCH` version as three numbers.
pub type Version = (u64, u64, u64);

/// The version a string denotes: its part before any `-` or `+` must be exactly three
/// dot-separated numbers; anything after a `-` or `+` is ignored.
pub open spec fn parse_version_spec(v: Seq<char>) -> Option<(u64, u64, u64)> {
    let core = before_first(v, |c: char| c == '-' || c == '+');
    let parts = split_on(core, '.');
    if parts.len() == 3 && parse_u64_spec(parts[0]) is Some && parse_u64_spec(parts[1]) is Some
        && parse_u64_spec(parts[2]) is Some {
        Some((parse_u64_spec(parts[0])->0, parse_u64_spec(parts[1])->0, parse_u64_spec(parts[2])->0))
    } else {
        None
    }
}

/// The characters of `s` before the first one that is `a` or `b`.
pub fn prefix_before(s: &Vec<char>, a: char, b: char) -> (out: Vec<char>)
    ensures
        out@ == before_first(s@, |c: char| c == a || c == b),
{
    let mut j: usize = 0;
    while j < s.len() && s[j] != a && s[j] != b
        invariant
            j <= s.len(),
            forall|k: int| 0 <= k < j ==> #[trigger] s@[k] != a && s@[k] != b,
        decreases s.len() - j,
    {
        j = j + 1;
    }
    let mut out: Vec<char> = Vec::new();
    let mut i: usize = 0;
    while i < j
        invariant
            j <= s.len(),
            i <= j,
            out@ == s@.take(i as int),
        decreases j - i,
    {
        out.push(s[i]);
        i = i + 1;
        assert(out@ =~= s@.take(i as int));
    }
    proof {
        lemma_before_first(s@, |c: char| c == a || c == b, j as int);
    }
    out
}

/// `MAJOR.MINOR.PATCH`, with anything after a `-` or `+` ignored. `None` if that is not what the
/// string is.
pub fn parse_version(v: &str) -> (r: Option<(u64, u64, u64)>)
    ensures
        r == parse_version_spec(v@),
{
    let cs = chars_of(v);
    let core = prefix_before(&cs, '-', '+');
    let parts = split_chars(&core, '.');
    if parts.len() != 3 {
        return None;
    }
    let a = parse_u64(&parts[0]);
    let b = parse_u64(&parts[1]);
    let c = parse_u64(&parts[2]);
    match (a, b, c) {
        (Some(x), Some(y), Some(z)) => Some((x, y, z)),
        _ => None,
    }
}

/// Whether version `l` is strictly greater than `c`, comparing major, then minor, then patch.
pub open spec fn version_gt(l: (u64, u64, u64), c: (u64, u64, u64)) -> bool {
    l.0 > c.0 || (l.0 == c.0 && (l.1 > c.1 || (l.1 == c.1 && l.2 > c.2)))
}

/// Whether `latest` names a strictly newer version than `current`; unparseable on either side
/// is "not newer".
pub open spec fn is_newer_spec(latest: Seq<char>, current: Seq<char>) -> bool {
    match (parse_version_spec(latest), parse_version_spec(current)) {
        (Some(l), Some(c)) => version_gt(l, c),
        _ => false,
    }
}

/// Strictly newer. Unparseable on either side is "not newer" — a notice should never rest on a
/// string we could not read.
pub fn is_newer(latest: &str, current: &str) -> (b: bool)
    ensures
        b == is_newer_spec(latest@, current@),
{
    match (parse_version(latest), parse_version(current)) {
        (Some(l), Some(c)) => l.0 > c.0 || (l.0 == c.0 && (l.1 > c.1 || (l.1 == c.1 && l.2
            > c.2))),
        _ => false,
    }
}

/// A version is never newer than itself, and of two distinct parseable versions exactly one is
/// newer than the other: "newer" is a strict total order on what parses.
pub proof fn newer_is_strict(a: Seq<char>, b: Seq<char>)
    ensures
        !is_newer_spec(a, a),
        is_newer_spec(a, b) ==> !is_newer_spec(b, a),
        parse_version_spec(a) is Some && parse_version_spec(b) is Some && parse_version_spec(a)
            != parse_version_spec(b) ==> is_newer_spec(a, b) || is_newer_spec(b, a),
{
}

/// The version a release page's location names: the path's last segment (query string, fragment
/// and trailing slashes dropped), without a leading `v`, when that parses as a version.
pub open spec fn version_from_location_spec(location: Seq<char>) -> Option<Seq<char>> {
    let path = before_first(location, |c: char| c == '?' || c == '#');
    let last = after_last(trim_end(path, '/'), '/');
    let v = if last.len() > 0 && last[0] == 'v' { last.drop_first() } else { last };
    if parse_version_spec(v) is Some {
        Some(v)
    } else {
        None
    }
}

proof fn lemma_trim_end(s: Seq<char>, c: char, j: int)
    requires
        0 <= j <= s.len(),
        forall|k: int| j <= k < s.len() ==> #[trigger] s[k] == c,
        j == 0 || s[j - 1] != c,
    ensures
        trim_end(s, c) == s.take(j),
    decreases s.len(),
{
    if s.len() > j {
        assert forall|k: int| j <= k < s.drop_last().len() implies #[trigger] s.drop_last()[k] == c by {
            assert(s.drop_last()[k] == s[k]);
        }
        lemma_trim_end(s.drop_last(), c, j);
        assert(s.drop_last().take(j) =~= s.take(j));
    } else {
        assert(s.take(j) =~= s);
    }
}

proof fn lemma_after_last(s: Seq<char>, c: char, j: int)
    requires
        0 <= j <= s.len(),
        forall|k: int| j <= k < s.len() ==> #[trigger] s[k] != c,
        j == 0 || s[j - 1] == c,
    ensures
        after_last(s, c) == s.skip(j),
    decreases s.len(),
{
    if s.len() > j {
        assert forall|k: int| j <= k < s.drop_last().len() implies #[trigger] s.drop_last()[k] != c by {
            assert(s.drop_last()[k] == s[k]);
        }
        lemma_after_last(s.drop_last(), c, j);
        assert(s.drop_last().skip(j).push(s.last()) =~= s.skip(j));
    } else if s.len() > 0 {
        assert(s.skip(j) =~= Seq::<char>::empty());
    }
}

/// `…/releases/tag/v0.5.0` → `0.5.0`. The `v` is optional; a query string or fragment is dropped.
pub fn version_from_location(location: &str) -> (r: Option<String>)
    ensures
        match version_from_location_spec(location@) {
            Some(v) => r matches Some(s) && s@ == v,
            None => r is None,
        },
{
    let cs = chars_of(location);
    let path = prefix_before(&cs, '?', '#');
    let mut end: usize = path.len();
    while end > 0 && path[end - 1] == '/'
        invariant
            end <= path.len(),
            forall|k: int| end <= k < path@.len() ==> #[trigger] path@[k] == '/',
        decreases end,
    {
        end = end - 1;
    }
    proof {
        lemma_trim_end(path@, '/', end as int);
    }
    let ghost trimmed = path@.take(end as int);
    let mut start: usize = end;
    while start > 0 && path[start - 1] != '/'
        invariant
            start <= end <= path.len(),
            forall|k: int| start <= k < end ==> #[trigger] path@[k] != '/',
        decreases start,
    {
        start = start - 1;
    }
    proof {
        assert forall|k: int| start <= k < trimmed.len() implies #[trigger] trimmed[k] != '/' by {
            assert(trimmed[k] == path@[k]);
        }
        lemma_after_last(trimmed, '/', start as int);
    }
    let mut from: usize = start;
    if start < end && path[start] == 'v' {
        from = start + 1;
    }
    let mut v: Vec<char> = Vec::new();
    let mut i: usize = from;
    while i < end
        invariant
            from <= i <= end <= path.len(),
            v@ == path@.subrange(from as int, i as int),
        decreases end - i,
    {
        v.push(path[i]);
        i = i + 1;
        assert(v@ =~= path@.subrange(from as int, i as int));
    }
    proof {
        let last = trimmed.skip(start as int);
        let want = if last.len() > 0 && last[0] == 'v' { last.drop_first() } else { last };
        assert(v@ =~= want);
    }
    let vs = string_of(&v);
    match parse_version(vs.as_str()) {
        Some(_) => Some(vs),
        None => None,
    }
}

/// The release page for a version.
pub open spec fn release_url_spec(version: Seq<char>) -> Seq<char> {
    "https://github.com/john-baxter-dev/fretwire/releases/tag/v"@ + version
}

/// The release page built for a version reads back as that version: a version with no `/`,
/// `?` or `#` in it survives [`release_url`] then [`version_from_location`].
pub proof fn release_url_reads_back(v: Seq<char>)
    requires
        parse_version_spec(v) is Some,
        forall|k: int| 0 <= k < v.len() ==> #[trigger] v[k] != '/' && v[k] != '?' && v[k] != '#',
    ensures
        version_from_location_spec(release_url_spec(v)) == Some(v),
{
    let pre = "https://github.com/john-baxter-dev/fretwire/releases/tag/v"@;
    reveal_strlit("https://github.com/john-baxter-dev/fretwire/releases/tag/v");
    let url = pre + v;
    assert(url == release_url_spec(v));
    assert forall|k: int| 0 <= k < url.len() implies !((|c: char| c == '?' || c == '#')(#[trigger] url[k])) by {
        if k >= pre.len() {
            assert(url[k] == v[k - pre.len()]);
        }
    }
    lemma_before_first(url, |c: char| c == '?' || c == '#', url.len() as int);
    assert(url.take(url.len() as int) =~= url);
    if v.len() == 0 {
        assert(before_first(v, |c: char| c == '-' || c == '+') == v);
        assert(split_on(v, '.').len() == 1);
    }
    assert(url.last() == v.last());
    lemma_trim_end(url, '/', url.len() as int);
    let j = pre.len() - 1;
    assert(url[j - 1] == '/');
    assert forall|k: int| j <= k < url.len() implies #[trigger] url[k] != '/' by {
        if k >= pre.len() {
            assert(url[k] == v[k - pre.len()]);
        } else {
            assert(k == pre.len() - 1);
        }
    }
    lemma_after_last(url, '/', j);
    let last = url.skip(j);
    assert(last[0] == 'v');
    assert(last.drop_first() =~= v);
}

/// The release page for a version.
pub fn release_url(version: &str) -> (s: String)
    ensures
        s@ == release_url_spec(version@),
{
    let mut s = owned("https://github.com/john-baxter-dev/fretwire/releases/tag/v");
    push_str(&mut s, version);
    s
}

/// What the preference file holds.
#[derive(Clone, PartialEq, Eq, Debug, Default)]
pub struct Prefs {
    /// `None` until the user has answered — the front ends ask while it is unset.
    pub enabled: Option<bool>,
    /// Unix seconds of the last completed probe.
    pub checked_at: Option<u64>,
    /// What that probe found, so the notice survives a relaunch within the day.
    pub latest: Option<String>,
}

/// Everything a front end needs to show: what we run, what is out there, and the preference.
pub struct Status {
    pub current: String,
    /// The newest release known — from this probe or the cached one.
    pub latest: Option<String>,
    /// `latest` is strictly newer than `current`.
    pub available: bool,
    /// The release page for `latest`, when it is newer.
    pub url: Option<String>,
    /// The user's answer; `None` = not asked yet. Always `Some(false)` when `locked`.
    pub enabled: Option<bool>,
    /// The environment pins the check off; the preference cannot turn it on.
    pub locked: bool,
    pub checked_at: Option<u64>,
    pub install: InstallKind,
}

fn clone_opt_string(s: &Option<String>) -> (r: Option<String>)
    ensures
        r == *s,
{
    match s {
        Some(t) => Some(t.clone()),
        None => None,
    }
}

impl Status {
    /// The status the preferences imply, for a build of version `current`, with the environment
    /// lock `locked` and the install kind `install` as the caller found them.
    pub fn from_prefs(prefs: &Prefs, current: &str, locked: bool, install: InstallKind) -> (s: Status)
        ensures
            s.current@ == current@,
            s.latest == prefs.latest,
            s.available == (prefs.latest matches Some(l) && is_newer_spec(l@, current@)),
            s.available ==> (s.url matches Some(u) && u@ == release_url_spec(prefs.latest->0@)),
            !s.available ==> s.url is None,
            s.enabled == (if locked { Some(false) } else { prefs.enabled }),
            s.locked == locked,
            s.checked_at == prefs.checked_at,
            s.install == install,
    {
        let available = match &prefs.latest {
            Some(l) => is_newer(l.as_str(), current),
            None => false,
        };
        let url = if available {
            match &prefs.latest {
                Some(l) => Some(release_url(l.as_str())),
                None => None,
            }
        } else {
            None
        };
        Status {
            current: owned(current),
            latest: clone_opt_string(&prefs.latest),
            available,
            url,
            enabled: if locked { Some(false) } else { prefs.enabled },
            locked,
            checked_at: prefs.checked_at,
            install,
        }
    }
}

/// Whether an automatic check is due at Unix time `now`: never checked, or at least
/// [`CHECK_INTERVAL_SECS`] since the last one (a clock that went backwards counts as no time).
pub open spec fn due_spec(checked_at: Option<u64>, now: u64) -> bool {
    match checked_at {
        None => true,
        Some(t) => (if now >= t { now - t } else { 0 }) >= CHECK_INTERVAL_SECS,
    }
}

/// Whether a check should reach out: always when the user asked (`force`); otherwise only when
/// the environment does not pin it off, the user has said yes, and the daily interval has passed.
pub fn should_probe(prefs: &Prefs, force: bool, locked: bool, now: u64) -> (b: bool)
    ensures
        b == (force || (!locked && prefs.enabled == Some(true) && due_spec(prefs.checked_at, now))),
{
    if force {
        return true;
    }
    let due = match prefs.checked_at {
        None => true,
        Some(t) => now.saturating_sub(t) >= CHECK_INTERVAL_SECS,
    };
    let yes = match prefs.enabled {
        Some(e) => e,
        None => false,
    };
    !locked && yes && due
}

/// The preferences after a completed probe that found `latest` at Unix time `now`.
pub fn record_probe(prefs: Prefs, latest: String, now: u64) -> (p: Prefs)
    ensures
        p.enabled == prefs.enabled,
        p.checked_at == Some(now),
        p.latest == Some(latest),
{
    Prefs { enabled: prefs.enabled, checked_at: Some(now), latest: Some(latest) }
}

/// What the single `HEAD` request's answer means: a redirect (3xx) whose `location` names a
/// version gives that version; any other status, or a target with no version, is an error.
pub fn read_redirect(code: u16, location: &str) -> (r: Result<String, UpdateError>)
    ensures
        !(300 <= code < 400) ==> r == Err::<String, UpdateError>(UpdateError::NotRedirected(code)),
        300 <= code < 400 ==> match version_from_location_spec(location@) {
            Some(v) => r matches Ok(s) && s@ == v,
            None => r matches Err(UpdateError::BadLocation(l)) && l@ == location@,
        },
{
    if !(300 <= code && code < 400) {
        return Err(UpdateError::NotRedirected(code));
    }
    match version_from_location(location) {
        Some(v) => Ok(v),
        None => Err(UpdateError::BadLocation(owned(location))),
    }
}

/// The status a front end shows for the stored preferences `prefs`, for a build of version
/// `current`, with the environment lock and the install kind as the caller found them.
pub fn status(prefs: &Prefs, current: &str, locked: bool, install: InstallKind) -> (s: Status)
    ensures
        s.current@ == current@,
        s.latest == prefs.latest,
        s.available == (prefs.latest matches Some(l) && is_newer_spec(l@, current@)),
        s.available ==> (s.url matches Some(u) && u@ == release_url_spec(prefs.latest->0@)),
        !s.available ==> s.url is None,
        s.enabled == (if locked { Some(false) } else { prefs.enabled }),
        s.locked == locked,
        s.checked_at == prefs.checked_at,
        s.install == install,
{
    Status::from_prefs(prefs, current, locked, install)
}

/// The preferences after the user answered `enabled`: only the answer changes.
pub fn set_enabled(prefs: Prefs, enabled: bool) -> (p: Prefs)
    ensures
        p.enabled == Some(enabled),
        p.checked_at == prefs.checked_at,
        p.latest == prefs.latest,
{
    Prefs { enabled: Some(enabled), checked_at: prefs.checked_at, latest: prefs.latest }
}

/// The parent of `path` as `std::path::Path::parent` reads it.
pub uninterp spec fn path_parent(path: Seq<char>) -> Option<Seq<char>>;

/// `std::path::Path::parent` on a path given as text: the path without its last component, or
/// `None` for a root or an empty path. Its result is named [`path_parent`].
#[verifier::external_body]
fn parent_of(path: &str) -> (r: Option<String>)
    ensures
        r matches Some(p) ==> path_parent(path@) == Some(p@),
        r is None ==> path_parent(path@) is None,
{
    match std::path::Path::new(path).parent() {
        Some(p) => Some(p.to_string_lossy().into_owned()),
        None => None,
    }
}

/// Where the preference file lives: beside the data directory, in its parent (in the data
/// directory's place when it has no parent).
pub open spec fn prefs_path_spec(data_dir: Seq<char>) -> Seq<char> {
    path_join(
        match path_parent(data_dir) {
            Some(p) => p,
            None => data_dir,
        },
        "update-check.json"@,
    )
}

/// The preference file's path for the data directory `data_dir`.
pub fn prefs_path(data_dir: &str) -> (p: String)
    ensures
        p@ == prefs_path_spec(data_dir@),
{
    let base = match parent_of(data_dir) {
        Some(p) => p,
        None => owned(data_dir),
    };
    join_path(base.as_str(), "update-check.json")
}

/// A preference file's contents as values.
pub open spec fn prefs_view(p: Prefs) -> (Option<bool>, Option<u64>, Option<Seq<char>>) {
    (p.enabled, p.checked_at, match p.latest {
        Some(l) => Some(l@),
        None => None,
    })
}

/// A member read with an accessor: `None` when it is absent.
pub open spec fn read_member<T>(doc: JsonValue, key: Seq<char>, read: spec_fn(JsonValue) -> Option<T>) -> Option<T> {
    match lookup(doc, key) {
        Some(x) => read(x),
        None => None,
    }
}

/// What the preference file's text says: `enabled` as a boolean, `checked_at` as a `u64` and
/// `latest` as a string, each `None` when absent or of another type; all three `None` when the
/// text is missing or not JSON ("never asked").
pub open spec fn prefs_read(text: Option<Seq<char>>) -> (Option<bool>, Option<u64>, Option<Seq<char>>) {
    match text {
        None => (None, None, None),
        Some(t) => match parse_json_text(t) {
            None => (None, None, None),
            Some(d) => (
                read_member(d, "enabled"@, |x: JsonValue| as_bool(x)),
                read_member(d, "checked_at"@, |x: JsonValue| as_u64(x)),
                read_member(d, "latest"@, |x: JsonValue| as_str(x)),
            ),
        },
    }
}

/// Read the preference file from its text (`None` when there is no file). A missing or
/// unparseable file reads as "never asked"; a member of the wrong type reads as unset.
pub fn load_prefs(text: Option<&str>) -> (p: Prefs)
    ensures
        prefs_view(p) == prefs_read(match text {
            Some(t) => Some(t@),
            None => None,
        }),
{
    let t = match text {
        Some(t) => t,
        None => {
            return Prefs { enabled: None, checked_at: None, latest: None };
        },
    };
    let doc = match parse_json(t) {
        Some(d) => d,
        None => {
            return Prefs { enabled: None, checked_at: None, latest: None };
        },
    };
    let enabled = match member(&doc, "enabled") {
        Some(x) => as_bool_of(x),
        None => None,
    };
    let checked_at = match member(&doc, "checked_at") {
        Some(x) => as_u64_of(x),
        None => None,
    };
    let latest = match member(&doc, "latest") {
        Some(x) => match as_str_of(x) {
            Some(l) => Some(owned(l)),
            None => None,
        },
        None => None,
    };
    Prefs { enabled, checked_at, latest }
}

/// The text of `t` as the file for the preferences `p`: a JSON object whose `enabled`,
/// `checked_at` and `latest` members hold them (`null` for unset), and no other member.
pub open spec fn prefs_written(t: Seq<char>, p: Prefs) -> bool {
    &&& parse_json_text(t) is Some
    &&& ({
        let d = parse_json_text(t)->0;
        &&& d is Object
        &&& lookup(d, "enabled"@) == Some(match p.enabled {
            Some(b) => JsonValue::Bool(b),
            None => JsonValue::Null,
        })
        &&& (lookup(d, "checked_at"@) matches Some(x) && match p.checked_at {
            Some(n) => as_u64(x) == Some(n) && as_i64(x) == (if n <= i64::MAX { Some(n as i64) } else { None }),
            None => x == JsonValue::Null,
        })
        &&& (lookup(d, "latest"@) matches Some(x) && match p.latest {
            Some(l) => as_str(x) == Some(l@),
            None => x == JsonValue::Null,
        })
        &&& forall|k: Seq<char>| k != "enabled"@ && k != "checked_at"@ && k != "latest"@
            ==> #[trigger] lookup(d, k) is None
    })
}

/// The preference file's text for `p` (the file adds a final newline).
pub fn prefs_text(p: &Prefs) -> (t: String)
    ensures
        prefs_written(t@, *p),
{
    let enabled = match p.enabled {
        Some(b) => bool_value(b),
        None => null_value(),
    };
    let checked_at = match p.checked_at {
        Some(n) => u64_value(n),
        None => null_value(),
    };
    let latest = match &p.latest {
        Some(l) => string_value(l.clone()),
        None => null_value(),
    };
    let mut members: Vec<(String, serde_json::Value)> = Vec::new();
    members.push((owned("enabled"), enabled));
    members.push((owned("checked_at"), checked_at));
    members.push((owned("latest"), latest));
    proof {
        reveal_strlit("enabled");
        reveal_strlit("checked_at");
        reveal_strlit("latest");
        assert forall|i: int| 0 <= i < members@.len() implies crate::json::integral(crate::json_text::json_content(#[trigger] members@[i].1)) by {
            assert(members@[0].1 == enabled && members@[1].1 == checked_at && members@[2].1 == latest);
        }
        assert forall|i: int| 0 <= i < members@.len() implies crate::json::json_depth(crate::json_text::json_content(#[trigger] members@[i].1)) == 0 by {
            assert(members@[0].1 == enabled && members@[1].1 == checked_at && members@[2].1 == latest);
        }
    }
    let ghost ms = members@;
    let doc = object_value(members);
    let text = match pretty_text(&doc) {
        Some(t) => t,
        None => String::new(),
    };
    proof {
        let d = crate::json_text::json_content(doc);
        reveal_with_fuel(crate::json_text::last_member, 4);
        assert(ms.len() == 3);
        assert(ms.drop_last().len() == 2 && ms.drop_last().last() == ms[1]);
        assert(ms.drop_last().drop_last().len() == 1 && ms.drop_last().drop_last().last() == ms[0]);
        assert(ms.drop_last().drop_last().drop_last().len() == 0);
        assert(ms[0].0@ == "enabled"@ && ms[1].0@ == "checked_at"@ && ms[2].0@ == "latest"@);
        assert forall|k: Seq<char>| #![auto] crate::json_text::key_at_most_once(ms, k) by {
            assert forall|i: int, j: int| 0 <= i < j < ms.len() && #[trigger] ms[i].0@ == k implies #[trigger] ms[j].0@ != k by {
                assert(ms[0].0@ != ms[1].0@ && ms[0].0@ != ms[2].0@ && ms[1].0@ != ms[2].0@);
            }
        }
        assert(lookup(d, "latest"@) == Some(crate::json_text::json_content(latest)));
        assert(lookup(d, "checked_at"@) == Some(crate::json_text::json_content(checked_at)));
        assert(lookup(d, "enabled"@) == Some(crate::json_text::json_content(enabled)));
        assert forall|k: Seq<char>| k != "enabled"@ && k != "checked_at"@ && k != "latest"@
            implies #[trigger] lookup(d, k) is None by {
            assert(crate::json_text::last_member(ms, k) is None);
        }
    }
    text
}

/// What the preference file is written with reads back as the preferences written: saving then
/// loading gives the same answer, check time and release.
pub proof fn prefs_round_trip(p: Prefs, t: Seq<char>)
    requires
        prefs_written(t, p),
    ensures
        prefs_read(Some(t)) == prefs_view(p),
{
    let d = parse_json_text(t)->0;
    if p.enabled is None {
        assert(read_member(d, "enabled"@, |x: JsonValue| as_bool(x)) is None);
    }
    if p.checked_at is None {
        assert(read_member(d, "checked_at"@, |x: JsonValue| as_u64(x)) is None);
    }
    if p.latest is None {
        assert(read_member(d, "latest"@, |x: JsonValue| as_str(x)) is None);
    }
}

/// `FRETWIRE_NO_UPDATE_CHECK`'s value pins the check off when it is set to anything but empty or
/// `0`.
pub fn env_pins_off(value: Option<&str>) -> (r: bool)
    ensures
        r == (value matches Some(v) && v@.len() > 0 && v@ != "0"@),
{
    match value {
        Some(v) => chars_of(v).len() > 0 && !crate::text::str_is(v, "0"),
        None => false,
    }
}

} // verus!
