//! Names derived from what the tracker observes: display names of applications,
//! file names of projects, domains of links.
use vstd::prelude::*;
use crate::models::ProjectRecord;
use crate::seqs::{first_index, lemma_first_index, lemma_first_index_bounds};
use crate::text::{
    char_to_uppercase, chars_of, chars_views, is_ws, join_chars, join_words, lowercase,
    slice_chars, split_chars, split_words, str_eq, string_of, strip, strip_bounds, to_lowercase,
    trim, trim_bounds, trim_chars, trim_end_matches, trim_end_matches_chars, trim_start_matches,
    trim_start_matches_chars, uppercase_char, Separators, Trimmed, starts_with, matches_at,
    split_state, is_sep, strip_start, strip_end, trims, lemma_trim_start_skip, lemma_trim_end_take,
};

verus! {

// ---------------------------------------------------------------- applications

/// The process name without surrounding white space and trailing `.exe`.
pub open spec fn exe_stem(process_name: Seq<char>) -> Seq<char> {
    trim_end_matches(trim(process_name), ".exe"@)
}

/// The display names of well-known programs, by lower-cased executable name.
pub open spec fn known_app_name(n: Seq<char>) -> Option<Seq<char>> {
    if n == "afterfx"@ || n == "afterfx64"@ {
        Some("Adobe After Effects"@)
    } else if n == "premiere pro"@ || n == "premierepro"@ || n == "prproj"@ || n == "adobe premiere pro"@ {
        Some("Adobe Premiere Pro"@)
    } else if n == "code"@ {
        Some("Visual Studio Code"@)
    } else if n == "devenv"@ {
        Some("Visual Studio"@)
    } else if n == "msedge"@ || n == "edge"@ {
        Some("Microsoft Edge"@)
    } else if n == "chrome"@ {
        Some("Google Chrome"@)
    } else if n == "firefox"@ {
        Some("Mozilla Firefox"@)
    } else if n == "explorer"@ {
        Some("File Explorer"@)
    } else if n == "notepad"@ {
        Some("Notepad"@)
    } else {
        None
    }
}

/// A word with its first character upper-cased.
pub open spec fn capitalize(w: Seq<char>) -> Seq<char> {
    if w.len() == 0 {
        w
    } else {
        uppercase_char(w[0]) + w.drop_first()
    }
}

pub open spec fn capitalized(ws: Seq<Seq<char>>) -> Seq<Seq<char>> {
    ws.map_values(|w: Seq<char>| capitalize(w))
}

/// The words of the name (split on `-`, `_`, `.`), each capitalised, joined by spaces.
pub open spec fn title_case_name(stem: Seq<char>) -> Seq<char> {
    join_words(capitalized(split_words(stem, Separators::NamePunctuation)), " "@)
}

/// The display name of an application, from the executable name and its lower-cased form.
pub open spec fn app_name_from(stem: Seq<char>, lowered: Seq<char>) -> Seq<char> {
    match known_app_name(lowered) {
        Some(n) => n,
        None => title_case_name(stem),
    }
}

pub open spec fn opt_str_view(o: Option<&str>) -> Option<Seq<char>> {
    match o {
        Some(s) => Some(s@),
        None => None,
    }
}

/// The display name of the application behind a process: the browser's name when it is
/// a browser, else a known program's name, else the executable's words capitalised.
pub open spec fn friendly_name(process_name: Seq<char>, browser_name: Option<Seq<char>>) -> Seq<char> {
    match browser_name {
        Some(b) => b,
        None => app_name_from(exe_stem(process_name), lowercase(exe_stem(process_name))),
    }
}

fn literal(s: &str) -> (res: String)
    ensures
        res@ == s@,
{
    string_of(&chars_of(s))
}

fn known_app_name_exec(n: &str) -> (res: Option<String>)
    ensures
        match res {
            Some(r) => known_app_name(n@) == Some(r@),
            None => known_app_name(n@).is_none(),
        },
{
    if str_eq(n, "afterfx") || str_eq(n, "afterfx64") {
        Some(literal("Adobe After Effects"))
    } else if str_eq(n, "premiere pro") || str_eq(n, "premierepro") || str_eq(n, "prproj")
        || str_eq(n, "adobe premiere pro") {
        Some(literal("Adobe Premiere Pro"))
    } else if str_eq(n, "code") {
        Some(literal("Visual Studio Code"))
    } else if str_eq(n, "devenv") {
        Some(literal("Visual Studio"))
    } else if str_eq(n, "msedge") || str_eq(n, "edge") {
        Some(literal("Microsoft Edge"))
    } else if str_eq(n, "chrome") {
        Some(literal("Google Chrome"))
    } else if str_eq(n, "firefox") {
        Some(literal("Mozilla Firefox"))
    } else if str_eq(n, "explorer") {
        Some(literal("File Explorer"))
    } else if str_eq(n, "notepad") {
        Some(literal("Notepad"))
    } else {
        None
    }
}

fn capitalize_chars(w: &Vec<char>) -> (res: Vec<char>)
    ensures
        res@ == capitalize(w@),
{
    if w.len() == 0 {
        return Vec::new();
    }
    let upper = char_to_uppercase(w[0]);
    let mut out = chars_of(upper.as_str());
    let rest = slice_chars(w.as_slice(), 1, w.len());
    out.extend_from_slice(rest.as_slice());
    assert(w@.subrange(1, w@.len() as int) =~= w@.drop_first());
    out
}

/// The words of `stem`, each capitalised, joined by spaces (see `title_case_name`).
pub fn title_case_chars(stem: &[char]) -> (res: Vec<char>)
    ensures
        res@ == title_case_name(stem@),
{
    let words = split_chars(stem, Separators::NamePunctuation);
    let ghost ws = chars_views(words@);
    let mut caps: Vec<Vec<char>> = Vec::new();
    let mut i: usize = 0;
    while i < words.len()
        invariant
            i <= words.len(),
            ws == chars_views(words@),
            chars_views(caps@) == capitalized(ws.take(i as int)),
        decreases words.len() - i,
    {
        let c = capitalize_chars(&words[i]);
        let ghost prev = chars_views(caps@);
        let ghost old_caps = caps@;
        caps.push(c);
        assert(ws[i as int] == words@[i as int]@);
        assert(prev.len() == i);
        assert forall|k: int| 0 <= k < i implies #[trigger] chars_views(caps@)[k] == prev[k] by {
            assert(caps@[k] == old_caps[k]);
        }
        assert(capitalized(ws.take(i + 1)) =~= capitalized(ws.take(i as int)).push(capitalize(ws[i as int])));
        assert(chars_views(caps@) =~= capitalized(ws.take(i + 1)));
        i = i + 1;
    }
    assert(ws.take(i as int) =~= ws);
    let sep = chars_of(" ");
    join_chars(&caps, sep.as_slice())
}

/// The display name of an application whose executable name is `stem`, given its
/// lower-cased form `lowered` (see `app_name_from`).
pub fn app_name_from_stem(stem: &str, lowered: &str) -> (res: String)
    ensures
        res@ == app_name_from(stem@, lowered@),
{
    match known_app_name_exec(lowered) {
        Some(n) => n,
        None => {
            let v = chars_of(stem);
            string_of(title_case_chars(v.as_slice()).as_slice())
        },
    }
}

/// The executable name: trimmed, without trailing `.exe`.
pub fn exe_stem_of(process_name: &str) -> (res: String)
    ensures
        res@ == exe_stem(process_name@),
{
    let v = chars_of(process_name);
    let t = trim_chars(v.as_slice());
    let exe = chars_of(".exe");
    string_of(trim_end_matches_chars(t.as_slice(), exe.as_slice()).as_slice())
}

/// The display name of the application behind a process (see `friendly_name`).
pub fn friendly_app_name(process_name: &str, _process_path: &str, browser_name: Option<&str>) -> (res: String)
    ensures
        res@ == friendly_name(process_name@, opt_str_view(browser_name)),
{
    if let Some(browser) = browser_name {
        return string_of(chars_of(browser).as_slice());
    }
    let stem = exe_stem_of(process_name);
    let lowered = to_lowercase(stem.as_str());
    app_name_from_stem(stem.as_str(), lowered.as_str())
}

/// The lower-cased executable name with `_` and ` ` turned into `-`.
pub open spec fn dashed(s: Seq<char>) -> Seq<char> {
    s.map_values(|c: char| if c == '_' || c == ' ' { '-' } else { c })
}

/// Whether the lower-cased executable name (see `dashed`) is this application's own.
pub open spec fn own_app_name(lowered: Seq<char>) -> bool {
    dashed(lowered) == "project-time-manager"@ || dashed(lowered) == "projecttimemanager"@
}

/// Whether a process is this time tracker itself.
pub open spec fn is_own_app(process_name: Seq<char>) -> bool {
    own_app_name(lowercase(exe_stem(process_name)))
}

/// Whether a lower-cased executable name names this application (see `own_app_name`).
pub fn own_app_name_exec(lowered: &str) -> (res: bool)
    ensures
        res == own_app_name(lowered@),
{
    let v = chars_of(lowered);
    let mut out: Vec<char> = Vec::new();
    let mut i: usize = 0;
    while i < v.len()
        invariant
            i <= v.len(),
            v@ == lowered@,
            out@ == dashed(v@.take(i as int)),
        decreases v.len() - i,
    {
        let c = v[i];
        out.push(if c == '_' || c == ' ' { '-' } else { c });
        assert(out@ =~= dashed(v@.take(i + 1)));
        i = i + 1;
    }
    assert(v@.take(i as int) =~= v@);
    let d = string_of(out.as_slice());
    str_eq(d.as_str(), "project-time-manager") || str_eq(d.as_str(), "projecttimemanager")
}

/// Whether a process is this time tracker itself (see `is_own_app`).
pub fn is_own_app_process(process_name: &str) -> (res: bool)
    ensures
        res == is_own_app(process_name@),
{
    let stem = exe_stem_of(process_name);
    let lowered = to_lowercase(stem.as_str());
    own_app_name_exec(lowered.as_str())
}

// ---------------------------------------------------------------- file names

/// Characters that file names cannot hold.
pub open spec fn is_forbidden(c: char) -> bool {
    c == '<' || c == '>' || c == ':' || c == '"' || c == '/' || c == '\\' || c == '|' || c == '?'
        || c == '*'
}

/// Control characters (`char::is_control`, general category Cc).
pub open spec fn is_control(c: char) -> bool {
    (c as u32) <= 0x1f || (0x7f <= (c as u32) && (c as u32) <= 0x9f)
}

/// Each forbidden or control character turned into `_`.
pub open spec fn replace_unsafe(s: Seq<char>) -> Seq<char> {
    s.map_values(|c: char| if is_forbidden(c) || is_control(c) { '_' } else { c })
}

/// A safe file name for a project name: trimmed, unsafe characters replaced by `_`,
/// runs of white space collapsed to one space, leading and trailing dots and spaces
/// removed, and `project` when nothing is left.
pub open spec fn sanitized(name: Seq<char>) -> Seq<char> {
    let cleaned = strip(
        join_words(split_words(replace_unsafe(trim(name)), Separators::WhiteSpace), " "@),
        Trimmed::DotsAndSpaces,
    );
    if cleaned.len() == 0 {
        "project"@
    } else {
        cleaned
    }
}

/// A safe file name for a project name (see `sanitized`).
pub fn sanitize_file_name(name: &str) -> (res: String)
    ensures
        res@ == sanitized(name@),
{
    let v = chars_of(name);
    let t = trim_chars(v.as_slice());
    let mut out: Vec<char> = Vec::new();
    let mut i: usize = 0;
    while i < t.len()
        invariant
            i <= t.len(),
            out@ == replace_unsafe(t@.take(i as int)),
        decreases t.len() - i,
    {
        let c = t[i];
        let u = c as u32;
        let bad = c == '<' || c == '>' || c == ':' || c == '"' || c == '/' || c == '\\' || c == '|'
            || c == '?' || c == '*' || u <= 0x1f || (0x7f <= u && u <= 0x9f);
        out.push(if bad { '_' } else { c });
        assert(out@ =~= replace_unsafe(t@.take(i + 1)));
        i = i + 1;
    }
    assert(t@.take(i as int) =~= t@);
    let words = split_chars(out.as_slice(), Separators::WhiteSpace);
    let sep = chars_of(" ");
    let joined = join_chars(&words, sep.as_slice());
    let (lo, hi) = strip_bounds(joined.as_slice(), Trimmed::DotsAndSpaces);
    if lo == hi {
        literal("project")
    } else {
        string_of(slice_chars(joined.as_slice(), lo, hi).as_slice())
    }
}

/// The file name of a project: its sanitised name, or its id when that is empty.
pub open spec fn file_stem(name: Seq<char>, id: Seq<char>) -> Seq<char> {
    if sanitized(name).len() == 0 {
        id
    } else {
        sanitized(name)
    }
}

/// The file name of a project (see `file_stem`).
pub fn project_file_stem(project: &ProjectRecord) -> (res: String)
    ensures
        res@ == file_stem(project.name@, project.id@),
{
    let name = sanitize_file_name(project.name.as_str());
    if name.as_str().unicode_len() == 0 {
        project.id.clone()
    } else {
        name
    }
}

/// Whether `s` holds no character that file names cannot hold.
pub open spec fn path_safe(s: Seq<char>) -> bool {
    forall|i: int| 0 <= i < s.len() ==> !is_forbidden(#[trigger] s[i])
}

proof fn lemma_split_safe(s: Seq<char>, kind: Separators)
    requires
        path_safe(s),
    ensures
        forall|k: int| 0 <= k < split_state(s, kind).0.len() ==> path_safe(#[trigger] split_state(s, kind).0[k]),
        path_safe(split_state(s, kind).1),
    decreases s.len(),
{
    if s.len() > 0 {
        let t = s.drop_last();
        assert forall|i: int| 0 <= i < t.len() implies !is_forbidden(#[trigger] t[i]) by {
            assert(t[i] == s[i]);
        }
        lemma_split_safe(t, kind);
        let (ws, cur) = split_state(t, kind);
        assert(!is_forbidden(s[s.len() - 1]));
        if !is_sep(kind, s.last()) {
            let c2 = cur.push(s.last());
            assert forall|i: int| 0 <= i < c2.len() implies !is_forbidden(#[trigger] c2[i]) by {
                if i < cur.len() {
                    assert(c2[i] == cur[i]);
                }
            }
        }
    }
}

proof fn lemma_join_safe(ws: Seq<Seq<char>>, sep: Seq<char>)
    requires
        forall|k: int| 0 <= k < ws.len() ==> path_safe(#[trigger] ws[k]),
        path_safe(sep),
    ensures
        path_safe(join_words(ws, sep)),
    decreases ws.len(),
{
    if ws.len() > 1 {
        let t = ws.drop_last();
        assert forall|k: int| 0 <= k < t.len() implies path_safe(#[trigger] t[k]) by {
            assert(t[k] == ws[k]);
        }
        lemma_join_safe(t, sep);
        let a = join_words(t, sep);
        let b = ws.last();
        assert(path_safe(b));
        let r = a + sep + b;
        assert forall|i: int| 0 <= i < r.len() implies !is_forbidden(#[trigger] r[i]) by {
            if i < a.len() {
                assert(r[i] == a[i]);
            } else if i < a.len() + sep.len() {
                assert(r[i] == sep[i - a.len()]);
            } else {
                assert(r[i] == b[i - a.len() - sep.len()]);
            }
        }
    } else if ws.len() == 1 {
        assert(path_safe(ws[0]));
    }
}

proof fn lemma_strip_safe(s: Seq<char>, kind: Trimmed)
    requires
        path_safe(s),
    ensures
        path_safe(strip_start(s, kind)),
        path_safe(strip_end(s, kind)),
    decreases s.len(),
{
    if s.len() > 0 {
        let a = s.drop_first();
        let b = s.drop_last();
        assert forall|i: int| 0 <= i < a.len() implies !is_forbidden(#[trigger] a[i]) by {
            assert(a[i] == s[i + 1]);
        }
        assert forall|i: int| 0 <= i < b.len() implies !is_forbidden(#[trigger] b[i]) by {
            assert(b[i] == s[i]);
        }
        lemma_strip_safe(a, kind);
        lemma_strip_safe(b, kind);
    }
}

/// A sanitised file name is never empty and holds no character that file names cannot
/// hold (no separator, no `:`).
pub proof fn law_sanitized_is_safe(name: Seq<char>)
    ensures
        path_safe(sanitized(name)),
        sanitized(name).len() > 0,
        file_stem(name, Seq::empty()) == sanitized(name),
{
    reveal_strlit("project");
    reveal_strlit(" ");
    let r = replace_unsafe(trim(name));
    assert forall|i: int| 0 <= i < r.len() implies !is_forbidden(#[trigger] r[i]) by {}
    lemma_split_safe(r, Separators::WhiteSpace);
    let ws = split_words(r, Separators::WhiteSpace);
    assert forall|k: int| 0 <= k < ws.len() implies path_safe(#[trigger] ws[k]) by {
        let (w0, cur) = split_state(r, Separators::WhiteSpace);
        if k < w0.len() {
            assert(ws[k] == w0[k]);
        }
    }
    let sp = " "@;
    assert(path_safe(sp)) by {
        assert forall|i: int| 0 <= i < sp.len() implies !is_forbidden(#[trigger] sp[i]) by {
            assert(sp[0] == ' ');
        }
    }
    lemma_join_safe(ws, sp);
    let j = join_words(ws, sp);
    lemma_strip_safe(j, Trimmed::DotsAndSpaces);
    lemma_strip_safe(strip_start(j, Trimmed::DotsAndSpaces), Trimmed::DotsAndSpaces);
    let pr = "project"@;
    assert forall|i: int| 0 <= i < pr.len() implies !is_forbidden(#[trigger] pr[i]) by {}
}

// ---------------------------------------------------------------- sanitising twice

/// A character a sanitised name may hold: nothing forbidden, no control character, and
/// no white space but the plain space.
pub open spec fn tidy_char(c: char) -> bool {
    !is_forbidden(c) && !is_control(c) && (is_ws(c) ==> c == ' ')
}

/// A name in the form that sanitising gives: tidy characters, never two spaces in a
/// row, and neither a space nor a dot at either end.
pub open spec fn tidy(s: Seq<char>) -> bool {
    &&& forall|i: int| 0 <= i < s.len() ==> tidy_char(#[trigger] s[i])
    &&& forall|i: int, j: int| #![trigger s[i], s[j]] 0 <= i && j == i + 1 && j < s.len() ==> !(s[i] == ' ' && s[j] == ' ')
    &&& s.len() > 0 ==> s[0] != ' ' && s[0] != '.' && s.last() != ' ' && s.last() != '.'
}

/// A word of a split name: not empty, with tidy characters that are not white space.
pub open spec fn tidy_word(w: Seq<char>) -> bool {
    w.len() > 0 && forall|i: int| 0 <= i < w.len() ==> tidy_char(#[trigger] w[i]) && !is_ws(w[i])
}

proof fn lemma_split_tidy(s: Seq<char>)
    requires
        forall|i: int| 0 <= i < s.len() ==> !is_forbidden(#[trigger] s[i]) && !is_control(s[i]),
    ensures
        forall|k: int| 0 <= k < split_state(s, Separators::WhiteSpace).0.len() ==> tidy_word(
            #[trigger] split_state(s, Separators::WhiteSpace).0[k],
        ),
        forall|i: int| 0 <= i < split_state(s, Separators::WhiteSpace).1.len() ==> tidy_char(
            #[trigger] split_state(s, Separators::WhiteSpace).1[i],
        ) && !is_ws(split_state(s, Separators::WhiteSpace).1[i]),
    decreases s.len(),
{
    if s.len() > 0 {
        let t = s.drop_last();
        assert forall|i: int| 0 <= i < t.len() implies !is_forbidden(#[trigger] t[i]) && !is_control(t[i]) by {
            assert(t[i] == s[i]);
        }
        lemma_split_tidy(t);
        let (ws, cur) = split_state(t, Separators::WhiteSpace);
        let c = s.last();
        assert(!is_forbidden(c) && !is_control(c));
        if !is_sep(Separators::WhiteSpace, c) {
            let c2 = cur.push(c);
            assert forall|i: int| 0 <= i < c2.len() implies tidy_char(#[trigger] c2[i]) && !is_ws(c2[i]) by {
                if i < cur.len() {
                    assert(c2[i] == cur[i]);
                }
            }
        } else if cur.len() > 0 {
            let w2 = ws.push(cur);
            assert forall|k: int| 0 <= k < w2.len() implies tidy_word(#[trigger] w2[k]) by {
                if k < ws.len() {
                    assert(w2[k] == ws[k]);
                }
            }
        }
    }
}

proof fn lemma_join_tidy(ws: Seq<Seq<char>>)
    requires
        forall|k: int| 0 <= k < ws.len() ==> tidy_word(#[trigger] ws[k]),
    ensures
        ({
            let j = join_words(ws, " "@);
            &&& forall|i: int| 0 <= i < j.len() ==> tidy_char(#[trigger] j[i])
            &&& forall|i: int, m: int| #![trigger j[i], j[m]] 0 <= i && m == i + 1 && m < j.len() ==> !(j[i] == ' ' && j[m] == ' ')
            &&& j.len() > 0 ==> j[0] != ' ' && j.last() != ' '
        }),
    decreases ws.len(),
{
    reveal_strlit(" ");
    if ws.len() == 1 {
        assert(tidy_word(ws[0]));
    } else if ws.len() > 1 {
        let t = ws.drop_last();
        assert forall|k: int| 0 <= k < t.len() implies tidy_word(#[trigger] t[k]) by {
            assert(t[k] == ws[k]);
        }
        lemma_join_tidy(t);
        let a = join_words(t, " "@);
        let b = ws.last();
        assert(tidy_word(b));
        assert(a.len() > 0) by {
            assert(tidy_word(t[0]));
            if t.len() == 1 {
            } else {
                lemma_join_len(t);
            }
        }
        let r = a + " "@ + b;
        assert(r == join_words(ws, " "@));
        assert forall|i: int| 0 <= i < r.len() implies tidy_char(#[trigger] r[i]) by {
            if i < a.len() {
                assert(r[i] == a[i]);
            } else if i == a.len() {
                assert(r[i] == ' ');
            } else {
                assert(r[i] == b[i - a.len() - 1]);
            }
        }
        assert forall|i: int, m: int| #![trigger r[i], r[m]] 0 <= i && m == i + 1 && m < r.len() implies !(r[i] == ' '
            && r[m] == ' ') by {
            if m < a.len() {
                assert(r[i] == a[i] && r[m] == a[m]);
            } else if m == a.len() {
                assert(r[i] == a[a.len() - 1]);
            } else if i == a.len() {
                assert(r[m] == b[0]);
                assert(!is_ws(b[0]));
            } else {
                assert(r[m] == b[m - a.len() - 1]);
                assert(!is_ws(b[m - a.len() - 1]));
            }
        }
        assert(r[0] == a[0]);
        assert(r.last() == b[b.len() - 1]);
        assert(!is_ws(b[b.len() - 1]));
    }
}

proof fn lemma_join_len(ws: Seq<Seq<char>>)
    requires
        ws.len() > 1,
    ensures
        join_words(ws, " "@).len() > 0,
    decreases ws.len(),
{
    reveal_strlit(" ");
}

proof fn lemma_strip_start_at(s: Seq<char>, kind: Trimmed) -> (i: int)
    ensures
        0 <= i <= s.len(),
        strip_start(s, kind) == s.skip(i),
        i < s.len() ==> !trims(kind, s[i]),
    decreases s.len(),
{
    if s.len() > 0 && trims(kind, s[0]) {
        let k = lemma_strip_start_at(s.drop_first(), kind);
        assert(s.drop_first().skip(k) =~= s.skip(k + 1));
        k + 1
    } else {
        assert(s.skip(0) =~= s);
        0
    }
}

proof fn lemma_strip_end_at(s: Seq<char>, kind: Trimmed) -> (j: int)
    ensures
        0 <= j <= s.len(),
        strip_end(s, kind) == s.take(j),
        j > 0 ==> !trims(kind, s[j - 1]),
    decreases s.len(),
{
    if s.len() > 0 && trims(kind, s.last()) {
        let k = lemma_strip_end_at(s.drop_last(), kind);
        assert(s.drop_last().take(k) =~= s.take(k));
        k
    } else {
        assert(s.take(s.len() as int) =~= s);
        s.len() as int
    }
}

/// Splitting a tidy name at white space and joining the words with single spaces gives
/// it back: the split state after the first `k` characters.
proof fn lemma_split_prefix(s: Seq<char>, k: int)
    requires
        0 <= k <= s.len(),
        forall|i: int| 0 <= i < s.len() ==> tidy_char(#[trigger] s[i]),
        forall|i: int, j: int| #![trigger s[i], s[j]] 0 <= i && j == i + 1 && j < s.len() ==> !(s[i] == ' ' && s[j] == ' '),
        s.len() > 0 ==> s[0] != ' ',
    ensures
        ({
            let (ws, cur) = split_state(s.take(k), Separators::WhiteSpace);
            &&& k == 0 ==> ws.len() == 0 && cur.len() == 0
            &&& k > 0 && s[k - 1] == ' ' ==> cur.len() == 0 && ws.len() > 0 && s.take(k) == join_words(ws, " "@) + " "@
            &&& k > 0 && s[k - 1] != ' ' ==> cur.len() > 0 && s.take(k) == join_words(ws.push(cur), " "@)
        }),
    decreases k,
{
    reveal_strlit(" ");
    if k > 0 {
        lemma_split_prefix(s, k - 1);
        let t = s.take(k - 1);
        assert(s.take(k).drop_last() =~= t);
        assert(s.take(k).last() == s[k - 1]);
        let (ws, cur) = split_state(t, Separators::WhiteSpace);
        let c = s[k - 1];
        assert(tidy_char(c));
        assert(s.take(k) =~= t.push(c));
        if c == ' ' {
            assert(is_ws(c));
            assert(k - 1 > 0);
            assert(!(s[k - 2] == ' ' && s[k - 1] == ' '));
            let w2 = ws.push(cur);
            assert(s.take(k) =~= join_words(w2, " "@) + " "@);
        } else {
            assert(!is_ws(c));
            if k - 1 == 0 {
                let w2 = ws.push(cur.push(c));
                assert(w2 =~= seq![seq![c]]);
                assert(s.take(k) =~= seq![c]);
            } else if s[k - 2] == ' ' {
                let w2 = ws.push(cur.push(c));
                assert(cur.push(c) =~= seq![c]);
                assert(w2.drop_last() =~= ws);
                assert(s.take(k) =~= join_words(ws, " "@) + " "@ + seq![c]);
            } else {
                let w1 = ws.push(cur);
                let w2 = ws.push(cur.push(c));
                if ws.len() == 0 {
                    assert(w2 =~= seq![cur.push(c)]);
                    assert(w1 =~= seq![cur]);
                } else {
                    assert(w1.drop_last() =~= ws);
                    assert(w2.drop_last() =~= ws);
                    assert(join_words(w2, " "@) =~= join_words(ws, " "@) + " "@ + cur.push(c));
                }
            }
        }
    }
}

proof fn lemma_tidy_fixed(s: Seq<char>)
    requires
        tidy(s),
        s.len() > 0,
    ensures
        sanitized(s) == s,
{
    reveal_strlit(" ");
    assert(!is_ws(s[0]) && !is_ws(s.last())) by {
        assert(tidy_char(s[0]));
        assert(tidy_char(s[s.len() - 1]));
    }
    lemma_trim_start_skip(s, 0, Trimmed::WhiteSpace);
    assert(s.skip(0) =~= s);
    lemma_trim_end_take(s, s.len() as int, Trimmed::WhiteSpace);
    assert(s.take(s.len() as int) =~= s);
    assert(trim(s) == s);
    assert forall|i: int| 0 <= i < s.len() implies !is_forbidden(#[trigger] s[i]) && !is_control(s[i]) by {
        assert(tidy_char(s[i]));
    }
    assert(replace_unsafe(s) =~= s);
    lemma_split_prefix(s, s.len() as int);
    let (ws, cur) = split_state(s, Separators::WhiteSpace);
    assert(s.take(s.len() as int) =~= s);
    assert(join_words(split_words(s, Separators::WhiteSpace), " "@) == s);
    lemma_trim_start_skip(s, 0, Trimmed::DotsAndSpaces);
    lemma_trim_end_take(s, s.len() as int, Trimmed::DotsAndSpaces);
}

proof fn lemma_sanitized_tidy(name: Seq<char>)
    ensures
        tidy(sanitized(name)),
{
    reveal_strlit("project");
    reveal_strlit(" ");
    let r = replace_unsafe(trim(name));
    assert forall|i: int| 0 <= i < r.len() implies !is_forbidden(#[trigger] r[i]) && !is_control(r[i]) by {
        let c = trim(name)[i];
        assert(r[i] == (if is_forbidden(c) || is_control(c) { '_' } else { c }));
    }
    lemma_split_tidy(r);
    let ws = split_words(r, Separators::WhiteSpace);
    assert forall|k: int| 0 <= k < ws.len() implies tidy_word(#[trigger] ws[k]) by {
        let (w0, cur) = split_state(r, Separators::WhiteSpace);
        if k < w0.len() {
            assert(ws[k] == w0[k]);
        } else {
            assert(ws[k] == cur);
        }
    }
    lemma_join_tidy(ws);
    let j = join_words(ws, " "@);
    let a = lemma_strip_start_at(j, Trimmed::DotsAndSpaces);
    let t = j.skip(a);
    let b = lemma_strip_end_at(t, Trimmed::DotsAndSpaces);
    let c = t.take(b);
    assert(c == strip(j, Trimmed::DotsAndSpaces));
    assert forall|i: int| 0 <= i < c.len() implies tidy_char(#[trigger] c[i]) by {
        assert(c[i] == j[i + a]);
    }
    assert forall|i: int, m: int| #![trigger c[i], c[m]] 0 <= i && m == i + 1 && m < c.len() implies !(c[i] == ' '
        && c[m] == ' ') by {
        assert(c[i] == j[i + a] && c[m] == j[m + a]);
    }
    if c.len() > 0 {
        assert(c[0] == t[0]);
        assert(c.last() == t[b - 1]);
    } else {
        let pr = "project"@;
        assert forall|i: int| 0 <= i < pr.len() implies tidy_char(#[trigger] pr[i]) by {}
    }
}

/// Sanitising a sanitised name changes nothing.
pub proof fn law_sanitize_idempotent(name: Seq<char>)
    ensures
        sanitized(sanitized(name)) == sanitized(name),
{
    lemma_sanitized_tidy(name);
    law_sanitized_is_safe(name);
    lemma_tidy_fixed(sanitized(name));
}

// ---------------------------------------------------------------- domains

pub open spec fn ends_host(c: char) -> bool {
    c == '/' || c == '?' || c == '#'
}

pub open spec fn host_end() -> spec_fn(char) -> bool {
    |c: char| ends_host(c)
}

pub open spec fn is_colon() -> spec_fn(char) -> bool {
    |c: char| c == ':'
}

/// The index of the last `@` of `s`, or -1.
pub open spec fn last_at(s: Seq<char>) -> int
    decreases s.len(),
{
    if s.len() == 0 {
        -1
    } else if s.last() == '@' {
        s.len() - 1
    } else {
        last_at(s.drop_last())
    }
}

/// `s` without a leading `https://`, `http://` or `file://` (the first that matches).
pub open spec fn without_scheme(s: Seq<char>) -> Seq<char> {
    if starts_with(s, "https://"@) {
        s.skip(8)
    } else if starts_with(s, "http://"@) {
        s.skip(7)
    } else if starts_with(s, "file://"@) {
        s.skip(7)
    } else {
        s
    }
}

/// The host of a link: after the scheme, before the first `/`, `?` or `#`, after the last
/// `@`, before the first `:`, trimmed and without leading `www.`; none when that is empty.
pub open spec fn domain_of(url: Seq<char>) -> Option<Seq<char>> {
    let t = trim(url);
    if t.len() == 0 {
        None
    } else {
        let rest = without_scheme(t);
        let authority = rest.take(first_index(rest, host_end()));
        let after_user = authority.skip(last_at(authority) + 1);
        let hostport = after_user.take(first_index(after_user, is_colon()));
        let host = trim_start_matches(trim(hostport), "www."@);
        if host.len() == 0 {
            None
        } else {
            Some(host)
        }
    }
}

proof fn lemma_last_at(s: Seq<char>, j: int)
    requires
        -1 <= j < s.len(),
        j >= 0 ==> s[j] == '@',
        forall|k: int| j < k < s.len() ==> s[k] != '@',
    ensures
        last_at(s) == j,
    decreases s.len(),
{
    if s.len() > 0 && j < s.len() - 1 {
        let t = s.drop_last();
        assert forall|k: int| j < k < t.len() implies t[k] != '@' by {
            assert(t[k] == s[k]);
        }
        if j >= 0 {
            assert(t[j] == s[j]);
        }
        lemma_last_at(t, j);
    }
}

fn scheme_len(v: &[char]) -> (res: usize)
    ensures
        res <= v@.len(),
        v@.skip(res as int) == without_scheme(v@),
{
    let https = chars_of("https://");
    let http = chars_of("http://");
    let file = chars_of("file://");
    assert("https://"@.len() == 8) by {
        reveal_strlit("https://");
    }
    assert("http://"@.len() == 7) by {
        reveal_strlit("http://");
    }
    assert("file://"@.len() == 7) by {
        reveal_strlit("file://");
    }
    assert(v@.skip(0) =~= v@);
    if matches_at(v, 0, https.as_slice()) {
        8
    } else if matches_at(v, 0, http.as_slice()) {
        7
    } else if matches_at(v, 0, file.as_slice()) {
        7
    } else {
        0
    }
}

/// The host of a link (see `domain_of`).
pub fn extract_domain(url: &str) -> (res: Option<String>)
    ensures
        match res {
            Some(h) => domain_of(url@) == Some(h@),
            None => domain_of(url@).is_none(),
        },
{
    let v = chars_of(url);
    let t = trim_chars(v.as_slice());
    if t.len() == 0 {
        return None;
    }
    let s0 = scheme_len(t.as_slice());
    let rest = slice_chars(t.as_slice(), s0, t.len());
    // before the first '/', '?' or '#'
    let mut e: usize = 0;
    while e < rest.len() && !(rest[e] == '/' || rest[e] == '?' || rest[e] == '#')
        invariant
            e <= rest.len(),
            forall|k: int| 0 <= k < e ==> !host_end()(#[trigger] rest@[k]),
        decreases rest.len() - e,
    {
        e = e + 1;
    }
    proof {
        lemma_first_index(rest@, host_end(), e as int);
    }
    let authority = slice_chars(rest.as_slice(), 0, e);
    // after the last '@'
    let mut a: usize = authority.len();
    while a > 0 && authority[a - 1] != '@'
        invariant
            a <= authority.len(),
            forall|k: int| a <= k < authority.len() ==> authority@[k] != '@',
        decreases a,
    {
        a = a - 1;
    }
    proof {
        lemma_last_at(authority@, a - 1);
    }
    let after_user = slice_chars(authority.as_slice(), a, authority.len());
    // before the first ':'
    let mut c: usize = 0;
    while c < after_user.len() && after_user[c] != ':'
        invariant
            c <= after_user.len(),
            forall|k: int| 0 <= k < c ==> !is_colon()(#[trigger] after_user@[k]),
        decreases after_user.len() - c,
    {
        c = c + 1;
    }
    proof {
        lemma_first_index(after_user@, is_colon(), c as int);
    }
    let hostport = slice_chars(after_user.as_slice(), 0, c);
    let trimmed = trim_chars(hostport.as_slice());
    let www = chars_of("www.");
    let host = trim_start_matches_chars(trimmed.as_slice(), www.as_slice());
    if host.len() == 0 {
        None
    } else {
        Some(string_of(host.as_slice()))
    }
}

// ---------------------------------------------------------------- language

/// The interface language: English when asked for, Russian otherwise.
pub open spec fn language_of(lowered: Seq<char>) -> Seq<char> {
    if lowered == "en"@ {
        "en"@
    } else {
        "ru"@
    }
}

/// The interface language for a setting (see `language_of`); the setting is trimmed and
/// lower-cased first.
pub fn normalized_language(language: &str) -> (res: String)
    ensures
        res@ == language_of(lowercase(trim(language@))),
{
    let t = string_of(trim_chars(chars_of(language).as_slice()).as_slice());
    let lowered = to_lowercase(t.as_str());
    if str_eq(lowered.as_str(), "en") {
        literal("en")
    } else {
        literal("ru")
    }
}

} // verus!
