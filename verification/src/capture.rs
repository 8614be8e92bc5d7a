//! What is made of the foreground window: which browser it is, the tab's title, the
//! open address and its icon's address, and what the interface shows of it.
use vstd::prelude::*;
use crate::categories::{occurs, occurs_in};
use crate::format::append;
use crate::models::{opt_view, ObservationView, WindowObservation};
use crate::names::{friendly_app_name, friendly_name, opt_str_view};
use crate::text::{blank, chars_of, ends_with, is_blank, lowercase, matches_at, owned, slice_chars, starts_with, string_of, to_lowercase, trim, trim_chars, trim_str};
use crate::tracking::opt_as_str;

verus! {

// ---------------------------------------------------------------- browsers

/// The browser a process is, by what its lower-cased name contains.
pub open spec fn browser_of(process_name: Seq<char>) -> Option<Seq<char>> {
    let lower = lowercase(process_name);
    if occurs_in(lower, "chrome"@) {
        Some("Google Chrome"@)
    } else if occurs_in(lower, "msedge"@) || occurs_in(lower, "edge"@) {
        Some("Microsoft Edge"@)
    } else if occurs_in(lower, "firefox"@) {
        Some("Mozilla Firefox"@)
    } else if occurs_in(lower, "brave"@) {
        Some("Brave"@)
    } else if occurs_in(lower, "opera"@) {
        Some("Opera"@)
    } else {
        None
    }
}

fn has(hay: &Vec<char>, needle: &str) -> (res: bool)
    ensures
        res == occurs_in(hay@, needle@),
{
    let n = chars_of(needle);
    occurs(hay.as_slice(), n.as_slice())
}

/// The browser a process is (see `browser_of`).
pub fn classify_browser(process_name: &str) -> (res: Option<String>)
    ensures
        opt_view(res) == browser_of(process_name@),
{
    let l = to_lowercase(process_name);
    let lower = chars_of(l.as_str());
    if has(&lower, "chrome") {
        Some(owned("Google Chrome"))
    } else if has(&lower, "msedge") || has(&lower, "edge") {
        Some(owned("Microsoft Edge"))
    } else if has(&lower, "firefox") {
        Some(owned("Mozilla Firefox"))
    } else if has(&lower, "brave") {
        Some(owned("Brave"))
    } else if has(&lower, "opera") {
        Some(owned("Opera"))
    } else {
        None
    }
}

/// A browser window's title without the ` - <browser>` that ends it, trimmed.
pub open spec fn title_without_browser(title: Seq<char>, browser: Seq<char>) -> Seq<char> {
    let suffix = " - "@ + browser;
    trim(if ends_with(title, suffix) { title.take(title.len() - suffix.len()) } else { title })
}

/// A browser window's title as the tab's title (see `title_without_browser`).
pub fn strip_browser_suffix(title: &str, browser: &str) -> (res: String)
    ensures
        res@ == title_without_browser(title@, browser@),
{
    let mut suffix: Vec<char> = Vec::new();
    append(&mut suffix, " - ");
    append(&mut suffix, browser);
    let t = chars_of(title);
    let kept = if suffix.len() <= t.len() && matches_at(t.as_slice(), t.len() - suffix.len(), suffix.as_slice()) {
        proof {
            assert(t@.skip(t@.len() - suffix@.len()).take(suffix@.len() as int) =~= t@.skip(t@.len() - suffix@.len()));
        }
        slice_chars(t.as_slice(), 0, t.len() - suffix.len())
    } else {
        proof {
            if suffix@.len() <= t@.len() {
                assert(t@.skip(t@.len() - suffix@.len()).take(suffix@.len() as int) =~= t@.skip(t@.len() - suffix@.len()));
            }
        }
        t
    };
    assert(kept@ =~= (if ends_with(title@, " - "@ + browser@) { title@.take(title@.len() - (" - "@ + browser@).len()) } else { title@ }));
    string_of(trim_chars(kept.as_slice()).as_slice())
}

// ---------------------------------------------------------------- addresses

/// Whether an address is a web or file address.
pub open spec fn is_url(v: Seq<char>) -> bool {
    starts_with(v, "http://"@) || starts_with(v, "https://"@) || starts_with(v, "file://"@)
}

fn begins(v: &Vec<char>, pat: &str) -> (res: bool)
    ensures
        res == starts_with(v@, pat@),
{
    let p = chars_of(pat);
    assert(v@.skip(0) =~= v@);
    matches_at(v.as_slice(), 0, p.as_slice())
}

/// Whether a value is a web or file address (see `is_url`).
pub fn looks_like_url(value: &str) -> (res: bool)
    ensures
        res == is_url(value@),
{
    let v = chars_of(value);
    begins(&v, "http://") || begins(&v, "https://") || begins(&v, "file://")
}

/// The address read from a browser's address bar: trimmed; kept as it is when it is a
/// web or file address, given `https://` when it has a dot and no space, else none.
pub open spec fn address_of(value: Seq<char>) -> Option<Seq<char>> {
    let t = trim(value);
    if t.len() == 0 {
        None
    } else if is_url(t) {
        Some(t)
    } else if t.contains('.') && !t.contains(' ') {
        Some("https://"@ + t)
    } else {
        None
    }
}

fn holds(v: &Vec<char>, c: char) -> (res: bool)
    ensures
        res == v@.contains(c),
{
    let mut k: usize = 0;
    while k < v.len()
        invariant
            k <= v.len(),
            forall|m: int| 0 <= m < k ==> v@[m] != c,
        decreases v.len() - k,
    {
        if v[k] == c {
            assert(v@[k as int] == c);
            return true;
        }
        k = k + 1;
    }
    false
}

/// The address read from a browser's address bar (see `address_of`).
pub fn normalize_url_value(value: &str) -> (res: Option<String>)
    ensures
        opt_view(res) == address_of(value@),
{
    let t = chars_of(value);
    let tv = trim_chars(t.as_slice());
    if tv.len() == 0 {
        return None;
    }
    let ts = string_of(tv.as_slice());
    if begins(&tv, "http://") || begins(&tv, "https://") || begins(&tv, "file://") {
        return Some(ts);
    }
    if holds(&tv, '.') && !holds(&tv, ' ') {
        let mut out: Vec<char> = Vec::new();
        append(&mut out, "https://");
        append(&mut out, ts.as_str());
        return Some(string_of(out.as_slice()));
    }
    None
}

/// The hexadecimal digit for `d` (upper case).
pub open spec fn hex_char(d: int) -> char {
    if d < 10 {
        crate::format::digit_char(d)
    } else if d == 10 {
        'A'
    } else if d == 11 {
        'B'
    } else if d == 12 {
        'C'
    } else if d == 13 {
        'D'
    } else if d == 14 {
        'E'
    } else {
        'F'
    }
}

/// Whether a byte is left as it is in an address (`A`–`Z`, `a`–`z`, `0`–`9`, `-`, `_`,
/// `.`, `~`).
pub open spec fn unreserved(b: u8) -> bool {
    (65 <= b <= 90) || (97 <= b <= 122) || (48 <= b <= 57) || b == 45 || b == 95 || b == 46 || b == 126
}

/// One byte of an address, encoded: itself when unreserved, else `%` and two hex digits.
pub open spec fn encoded_byte(b: u8) -> Seq<char> {
    if unreserved(b) {
        seq![b as char]
    } else {
        seq!['%', hex_char((b / 16) as int), hex_char((b % 16) as int)]
    }
}

/// The bytes of a text (UTF-8), each encoded (see `encoded_byte`).
pub open spec fn percent_encoded(bytes: Seq<u8>) -> Seq<char>
    decreases bytes.len(),
{
    if bytes.len() == 0 {
        Seq::empty()
    } else {
        percent_encoded(bytes.drop_last()) + encoded_byte(bytes.last())
    }
}

fn hex_digit(d: u8) -> (c: char)
    requires
        d < 16,
    ensures
        c == hex_char(d as int),
{
    match d {
        0 => '0',
        1 => '1',
        2 => '2',
        3 => '3',
        4 => '4',
        5 => '5',
        6 => '6',
        7 => '7',
        8 => '8',
        9 => '9',
        10 => 'A',
        11 => 'B',
        12 => 'C',
        13 => 'D',
        14 => 'E',
        _ => 'F',
    }
}

/// A text encoded for use inside an address (see `percent_encoded`), over its UTF-8
/// bytes.
pub fn percent_encode(value: &str) -> (res: String)
    ensures
        res@ == percent_encoded(vstd::utf8::encode_utf8(value@)),
{
    let bytes = value.as_bytes();
    let ghost bs = bytes@;
    let mut out: Vec<char> = Vec::new();
    let mut k: usize = 0;
    while k < bytes.len()
        invariant
            k <= bytes.len(),
            bs == bytes@,
            out@ == percent_encoded(bs.take(k as int)),
        decreases bytes.len() - k,
    {
        let b = bytes[k];
        assert(bs.take(k + 1).drop_last() =~= bs.take(k as int));
        if (65 <= b && b <= 90) || (97 <= b && b <= 122) || (48 <= b && b <= 57) || b == 45 || b == 95 || b == 46 || b == 126 {
            out.push(b as char);
        } else {
            out.push('%');
            out.push(hex_digit(b / 16));
            out.push(hex_digit(b % 16));
        }
        assert(out@ =~= percent_encoded(bs.take(k + 1)));
        k = k + 1;
    }
    assert(bs.take(k as int) =~= bs);
    string_of(out.as_slice())
}

/// The address of the icon of a web page: a favicon service asked for the page's
/// address; none for an address that is not a web address.
pub open spec fn favicon_of(url: Seq<char>) -> Option<Seq<char>> {
    if !starts_with(url, "http://"@) && !starts_with(url, "https://"@) {
        None
    } else {
        Some("https://www.google.com/s2/favicons?sz=32&domain_url="@ + percent_encoded(vstd::utf8::encode_utf8(url)))
    }
}

/// The address of the icon of a web page (see `favicon_of`).
pub fn favicon_url(url: &str) -> (res: Option<String>)
    ensures
        opt_view(res) == favicon_of(url@),
{
    let v = chars_of(url);
    if !begins(&v, "http://") && !begins(&v, "https://") {
        return None;
    }
    let mut out: Vec<char> = Vec::new();
    append(&mut out, "https://www.google.com/s2/favicons?sz=32&domain_url=");
    let enc = percent_encode(url);
    append(&mut out, enc.as_str());
    Some(string_of(out.as_slice()))
}

/// Whether a link may be opened outside the application: its trimmed text is a web
/// address (`http://` or `https://`).
pub open spec fn openable(url: Seq<char>) -> bool {
    starts_with(trim(url), "http://"@) || starts_with(trim(url), "https://"@)
}

/// The trimmed link to open in the system's browser, or the refusal for one that is not
/// a web address.
pub fn external_url(url: &str) -> (res: Result<String, String>)
    ensures
        match res {
            Ok(u) => openable(url@) && u@ == trim(url@),
            Err(e) => !openable(url@) && e@ == "URL недоступен."@,
        },
{
    let t = trim_str(url);
    let v = chars_of(t.as_str());
    if begins(&v, "http://") || begins(&v, "https://") {
        Ok(t)
    } else {
        Err(owned("URL недоступен."))
    }
}

// ---------------------------------------------------------------- observations

/// What is observed of a window: its browser, when it is one; the address read from the
/// browser when it is a web or file address; that page's icon; the tab's title (the
/// window's title, without the browser's name for a browser).
pub open spec fn observation_of(
    process_name: Seq<char>,
    process_path: Seq<char>,
    window_title: Seq<char>,
    browser_address: Option<Seq<char>>,
    icon: Option<Seq<char>>,
) -> ObservationView {
    let browser = browser_of(process_name);
    let url = match browser {
        Some(_) => match browser_address {
            Some(a) => if is_url(a) { Some(a) } else { None },
            None => None,
        },
        None => None,
    };
    ObservationView {
        process_name: process_name,
        process_path: process_path,
        icon_data_url: icon,
        window_title: window_title,
        browser_name: browser,
        tab_title: match browser {
            Some(b) => Some(title_without_browser(window_title, b)),
            None => Some(window_title),
        },
        url: url,
        favicon_url: match url {
            Some(u) => favicon_of(u),
            None => None,
        },
    }
}

/// std `Path::file_name` of a path, as a string: the last component of the path when
/// it is a name, `None` when the path ends in `..` or has no name. A component never
/// is empty and never holds `/`; the rest (which characters separate components, how
/// a trailing separator or `.` is read) is the platform's and is not stated.
#[verifier::external_body]
fn path_file_name(path: &str) -> (res: Option<String>)
    ensures
        res matches Some(n) ==> n@.len() > 0 && forall|i: int| 0 <= i < n@.len() ==> n@[i] != '/',
{
    match std::path::Path::new(path).file_name() {
        Some(name) => match name.to_str() {
            Some(text) => Some(text.to_string()),
            None => None,
        },
        None => None,
    }
}

/// The process name recorded for a window: `unknown` when its executable's path could
/// not be read (is empty), else the path's file name, else the whole path.
pub open spec fn process_name_from(path: Seq<char>, file_name: Option<Seq<char>>) -> Seq<char> {
    if path.len() == 0 {
        "unknown"@
    } else {
        match file_name {
            Some(n) => n,
            None => path,
        }
    }
}

/// The process name for an executable's path and that path's file name (see
/// `process_name_from`).
pub fn process_name_with(path: &str, file_name: Option<String>) -> (res: String)
    ensures
        res@ == process_name_from(path@, opt_view(file_name)),
{
    if chars_of(path).len() == 0 {
        proof {
            reveal_strlit("unknown");
        }
        owned("unknown")
    } else {
        match file_name {
            Some(n) => n,
            None => owned(path),
        }
    }
}

/// The process name for an executable's path: `unknown` for an empty path, else its
/// file name as the platform reads it (never empty, no `/`), or the whole path where
/// it has none.
pub fn process_name_of(path: &str) -> (res: String)
    ensures
        path@.len() == 0 ==> res@ == "unknown"@,
        path@.len() > 0 ==> res@.len() > 0 && (res@ == path@ || forall|i: int|
            0 <= i < res@.len() ==> res@[i] != '/'),
{
    if chars_of(path).len() == 0 {
        owned("unknown")
    } else {
        let name = path_file_name(path);
        process_name_with(path, name)
    }
}

/// The observation of a window (see `observation_of`). `browser_address` is what the
/// browser's address bar holds (it is only asked of browsers), and `icon` the
/// application's icon.
pub fn build_observation(
    process_name: &str,
    process_path: &str,
    window_title: String,
    browser_address: Option<String>,
    icon: Option<String>,
) -> (res: WindowObservation)
    ensures
        res@ == observation_of(process_name@, process_path@, window_title@, opt_view(browser_address), opt_view(icon)),
{
    let browser_name = classify_browser(process_name);
    let url = match &browser_name {
        Some(_) => match browser_address {
            Some(a) => if looks_like_url(a.as_str()) {
                Some(a)
            } else {
                None
            },
            None => None,
        },
        None => None,
    };
    let favicon = match &url {
        Some(u) => favicon_url(u.as_str()),
        None => None,
    };
    let tab_title = match &browser_name {
        Some(b) => Some(strip_browser_suffix(window_title.as_str(), b.as_str())),
        None => Some(window_title.clone()),
    };
    let res = WindowObservation {
        process_name: owned(process_name),
        process_path: owned(process_path),
        icon_data_url: icon,
        window_title: window_title,
        browser_name: browser_name,
        tab_title: tab_title,
        url: url,
        favicon_url: favicon,
    };
    assert(res@ =~= observation_of(process_name@, process_path@, res.window_title@, opt_view(browser_address), opt_view(res.icon_data_url)));
    res
}

/// What the interface shows of the foreground window.
#[derive(Debug, Default)]
pub struct ActiveWindowInfo {
    pub name: String,
    pub process_name: String,
    pub title: String,
    pub url: Option<String>,
    pub kind: String,
}

/// The title shown: the tab's title when it is not blank, else the window's.
pub open spec fn shown_title(o: ObservationView) -> Seq<char> {
    match o.tab_title {
        Some(t) => if !is_blank(t) { t } else { o.window_title },
        None => o.window_title,
    }
}

/// What the interface shows of an observed window: the application's display name, its
/// process, the title (see `shown_title`), the address, and `browser` or `app`.
pub fn active_window_info(o: &WindowObservation) -> (res: ActiveWindowInfo)
    ensures
        res.name@ == friendly_name(o@.process_name, o@.browser_name),
        res.process_name@ == o@.process_name,
        res.title@ == shown_title(o@),
        opt_view(res.url) == o@.url,
        res.kind@ == (if o@.browser_name is Some { "browser"@ } else { "app"@ }),
{
    let title = match &o.tab_title {
        Some(t) => if !blank(t.as_str()) {
            t.clone()
        } else {
            o.window_title.clone()
        },
        None => o.window_title.clone(),
    };
    ActiveWindowInfo {
        name: friendly_app_name(o.process_name.as_str(), o.process_path.as_str(), opt_as_str(&o.browser_name)),
        process_name: o.process_name.clone(),
        title: title,
        url: crate::models::clone_opt(&o.url),
        kind: if o.browser_name.is_some() { owned("browser") } else { owned("app") },
    }
}

} // verus!
