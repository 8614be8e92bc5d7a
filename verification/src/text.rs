//! Character-level text helpers shared by the naming, tracking and report code.
use vstd::prelude::*;

verus! {

/// Appends one character (std `String::push`).
#[verifier::external_body]
pub(crate) fn push_char(s: &mut String, c: char)
    ensures
        final(s)@ == old(s)@.push(c),
{
    s.push(c);
}

/// Whether two string slices hold the same characters (std `str == str`).
#[verifier::external_body]
pub(crate) fn str_eq(a: &str, b: &str) -> (res: bool)
    ensures
        res == (a@ == b@),
{
    a == b
}

/// An owned copy of a string slice.
pub fn owned(s: &str) -> (res: String)
    ensures
        res@ == s@,
{
    string_of(chars_of(s).as_slice())
}

/// The characters of a string slice, in order.
pub fn chars_of(s: &str) -> (v: Vec<char>)
    ensures
        v@ == s@,
{
    let mut v: Vec<char> = Vec::new();
    for c in it: s.chars()
        invariant
            v@ == it.seq().take(it.index() as int),
    {
        v.push(c);
    }
    v
}

/// A string holding the given characters.
pub fn string_of(v: &[char]) -> (s: String)
    ensures
        s@ == v@,
{
    let mut s = String::new();
    let mut i: usize = 0;
    while i < v.len()
        invariant
            i <= v.len(),
            s@ == v@.take(i as int),
        decreases v.len() - i,
    {
        push_char(&mut s, v[i]);
        assert(v@.take(i as int).push(v@[i as int]) =~= v@.take(i + 1));
        i = i + 1;
    }
    assert(v@.take(v.len() as int) =~= v@);
    s
}


/// Unicode `White_Space`, the set that `char::is_whitespace` tests.
pub open spec fn is_ws(c: char) -> bool {
    let u = c as u32;
    (0x9 <= u <= 0xd) || u == 0x20 || u == 0x85 || u == 0xa0 || u == 0x1680
        || (0x2000 <= u <= 0x200a) || u == 0x2028 || u == 0x2029 || u == 0x202f
        || u == 0x205f || u == 0x3000
}

pub fn is_whitespace(c: char) -> (res: bool)
    ensures
        res == is_ws(c),
{
    let u = c as u32;
    (0x9 <= u && u <= 0xd) || u == 0x20 || u == 0x85 || u == 0xa0 || u == 0x1680
        || (0x2000 <= u && u <= 0x200a) || u == 0x2028 || u == 0x2029 || u == 0x202f
        || u == 0x205f || u == 0x3000
}

/// The characters that a trim removes.
pub enum Trimmed {
    /// White space (`str::trim`).
    WhiteSpace,
    /// `.` and ` ` (`trim_matches(['.', ' '])`).
    DotsAndSpaces,
}

pub open spec fn trims(kind: Trimmed, c: char) -> bool {
    match kind {
        Trimmed::WhiteSpace => is_ws(c),
        Trimmed::DotsAndSpaces => c == '.' || c == ' ',
    }
}

fn trims_exec(kind: &Trimmed, c: char) -> (res: bool)
    ensures
        res == trims(*kind, c),
{
    match kind {
        Trimmed::WhiteSpace => is_whitespace(c),
        Trimmed::DotsAndSpaces => c == '.' || c == ' ',
    }
}

/// `s` without its leading characters of the class.
pub open spec fn strip_start(s: Seq<char>, kind: Trimmed) -> Seq<char>
    decreases s.len(),
{
    if s.len() > 0 && trims(kind, s[0]) {
        strip_start(s.drop_first(), kind)
    } else {
        s
    }
}

/// `s` without its trailing characters of the class.
pub open spec fn strip_end(s: Seq<char>, kind: Trimmed) -> Seq<char>
    decreases s.len(),
{
    if s.len() > 0 && trims(kind, s.last()) {
        strip_end(s.drop_last(), kind)
    } else {
        s
    }
}

/// `s` without leading and trailing characters of the class.
pub open spec fn strip(s: Seq<char>, kind: Trimmed) -> Seq<char> {
    strip_end(strip_start(s, kind), kind)
}

/// `s` without leading and trailing white space (`str::trim`).
pub open spec fn trim(s: Seq<char>) -> Seq<char> {
    strip(s, Trimmed::WhiteSpace)
}

/// Whether `s` holds only white space (`s.trim().is_empty()`).
pub open spec fn is_blank(s: Seq<char>) -> bool {
    trim(s).len() == 0
}

pub proof fn lemma_trim_start_skip(s: Seq<char>, i: int, kind: Trimmed)
    requires
        0 <= i <= s.len(),
        forall|k: int| 0 <= k < i ==> trims(kind, #[trigger] s[k]),
        i == s.len() || !trims(kind, s[i]),
    ensures
        strip_start(s, kind) == s.skip(i),
    decreases i,
{
    if i == 0 {
        assert(s.skip(0) =~= s);
    } else {
        let t = s.drop_first();
        assert forall|k: int| 0 <= k < i - 1 implies trims(kind, #[trigger] t[k]) by {
            assert(t[k] == s[k + 1]);
        }
        lemma_trim_start_skip(t, i - 1, kind);
        assert(t.skip(i - 1) =~= s.skip(i));
    }
}

pub proof fn lemma_trim_end_take(s: Seq<char>, j: int, kind: Trimmed)
    requires
        0 <= j <= s.len(),
        forall|k: int| j <= k < s.len() ==> trims(kind, #[trigger] s[k]),
        j == 0 || !trims(kind, s[j - 1]),
    ensures
        strip_end(s, kind) == s.take(j),
    decreases s.len() - j,
{
    if j == s.len() {
        assert(s.take(j) =~= s);
    } else {
        let t = s.drop_last();
        assert forall|k: int| j <= k < t.len() implies trims(kind, #[trigger] t[k]) by {
            assert(t[k] == s[k]);
        }
        lemma_trim_end_take(t, j, kind);
        assert(t.take(j) =~= s.take(j));
    }
}

/// The bounds `lo..hi` of `strip(v, kind)` inside `v`.
pub fn strip_bounds(v: &[char], kind: Trimmed) -> (res: (usize, usize))
    ensures
        res.0 <= res.1 <= v@.len(),
        strip(v@, kind) == v@.subrange(res.0 as int, res.1 as int),
{
    let mut lo: usize = 0;
    while lo < v.len() && trims_exec(&kind, v[lo])
        invariant
            lo <= v.len(),
            forall|k: int| 0 <= k < lo ==> trims(kind, #[trigger] v@[k]),
        decreases v.len() - lo,
    {
        lo = lo + 1;
    }
    proof {
        lemma_trim_start_skip(v@, lo as int, kind);
    }
    let mut hi: usize = v.len();
    while hi > lo && trims_exec(&kind, v[hi - 1])
        invariant
            lo <= hi <= v.len(),
            forall|k: int| hi <= k < v.len() ==> trims(kind, #[trigger] v@[k]),
        decreases hi,
    {
        hi = hi - 1;
    }
    proof {
        let t = v@.skip(lo as int);
        let j = hi - lo;
        assert forall|k: int| j <= k < t.len() implies trims(kind, #[trigger] t[k]) by {
            assert(t[k] == v@[k + lo]);
        }
        if j > 0 {
            assert(t[j - 1] == v@[hi - 1]);
        }
        lemma_trim_end_take(t, j, kind);
        assert(t.take(j) =~= v@.subrange(lo as int, hi as int));
    }
    (lo, hi)
}

/// The bounds `lo..hi` of `trim(v)` inside `v`.
pub fn trim_bounds(v: &[char]) -> (res: (usize, usize))
    ensures
        res.0 <= res.1 <= v@.len(),
        trim(v@) == v@.subrange(res.0 as int, res.1 as int),
{
    strip_bounds(v, Trimmed::WhiteSpace)
}

/// The characters of `trim(v)`.
pub fn trim_chars(v: &[char]) -> (res: Vec<char>)
    ensures
        res@ == trim(v@),
{
    let (lo, hi) = trim_bounds(v);
    let mut out: Vec<char> = Vec::new();
    let mut i = lo;
    while i < hi
        invariant
            lo <= i <= hi <= v.len(),
            out@ == v@.subrange(lo as int, i as int),
        decreases hi - i,
    {
        out.push(v[i]);
        assert(v@.subrange(lo as int, i as int).push(v@[i as int]) =~= v@.subrange(lo as int, i + 1));
        i = i + 1;
    }
    out
}

/// `str::trim`, as an owned string.
pub fn trim_str(s: &str) -> (res: String)
    ensures
        res@ == trim(s@),
{
    let v = chars_of(s);
    let t = trim_chars(&v);
    string_of(&t)
}

/// Whether `s.trim().is_empty()`.
pub fn blank(s: &str) -> (res: bool)
    ensures
        res == is_blank(s@),
{
    let v = chars_of(s);
    let (lo, hi) = trim_bounds(&v);
    lo == hi
}


/// Whether `s` begins with `pat`.
pub open spec fn starts_with(s: Seq<char>, pat: Seq<char>) -> bool {
    pat.len() <= s.len() && s.take(pat.len() as int) == pat
}

/// Whether `s` ends with `pat`.
pub open spec fn ends_with(s: Seq<char>, pat: Seq<char>) -> bool {
    pat.len() <= s.len() && s.skip(s.len() - pat.len()) == pat
}

/// `str::trim_end_matches` with a non-empty string pattern: every trailing copy of `pat` removed.
pub open spec fn trim_end_matches(s: Seq<char>, pat: Seq<char>) -> Seq<char>
    decreases s.len(),
{
    if pat.len() > 0 && ends_with(s, pat) {
        trim_end_matches(s.take(s.len() - pat.len()), pat)
    } else {
        s
    }
}

/// `str::trim_start_matches` with a non-empty string pattern: every leading copy of `pat` removed.
pub open spec fn trim_start_matches(s: Seq<char>, pat: Seq<char>) -> Seq<char>
    decreases s.len(),
{
    if pat.len() > 0 && starts_with(s, pat) {
        trim_start_matches(s.skip(pat.len() as int), pat)
    } else {
        s
    }
}

/// Whether `v[at..]` begins with `pat`.
pub fn matches_at(v: &[char], at: usize, pat: &[char]) -> (res: bool)
    requires
        at <= v@.len(),
    ensures
        res == starts_with(v@.skip(at as int), pat@),
{
    if pat.len() > v.len() - at {
        return false;
    }
    let mut k: usize = 0;
    while k < pat.len()
        invariant
            at + pat.len() <= v.len(),
            k <= pat.len(),
            forall|m: int| 0 <= m < k ==> v@[at + m] == pat@[m],
        decreases pat.len() - k,
    {
        if v[at + k] != pat[k] {
            assert(v@.skip(at as int).take(pat@.len() as int)[k as int] != pat@[k as int]);
            return false;
        }
        k = k + 1;
    }
    assert(v@.skip(at as int).take(pat@.len() as int) =~= pat@);
    true
}

/// The characters `v[lo..hi]`.
pub fn slice_chars(v: &[char], lo: usize, hi: usize) -> (res: Vec<char>)
    requires
        lo <= hi <= v@.len(),
    ensures
        res@ == v@.subrange(lo as int, hi as int),
{
    let mut out: Vec<char> = Vec::new();
    let mut i = lo;
    while i < hi
        invariant
            lo <= i <= hi <= v.len(),
            out@ == v@.subrange(lo as int, i as int),
        decreases hi - i,
    {
        out.push(v[i]);
        assert(v@.subrange(lo as int, i as int).push(v@[i as int]) =~= v@.subrange(lo as int, i + 1));
        i = i + 1;
    }
    out
}

/// `trim_end_matches` on characters.
pub fn trim_end_matches_chars(v: &[char], pat: &[char]) -> (res: Vec<char>)
    ensures
        res@ == trim_end_matches(v@, pat@),
{
    let mut end: usize = v.len();
    assert(v@.take(end as int) =~= v@);
    while pat.len() > 0 && pat.len() <= end && matches_at(v, end - pat.len(), pat)
        invariant
            end <= v.len(),
            trim_end_matches(v@, pat@) == trim_end_matches(v@.take(end as int), pat@),
        decreases end,
    {
        proof {
            let t = v@.take(end as int);
            assert(t.skip(t.len() - pat@.len()) =~= v@.skip(end - pat@.len()).take(pat@.len() as int));
            assert(t.take(t.len() - pat@.len()) =~= v@.take(end - pat@.len()));
        }
        end = end - pat.len();
    }
    proof {
        let t = v@.take(end as int);
        if pat@.len() > 0 && pat@.len() <= end {
            assert(t.skip(t.len() - pat@.len()) =~= v@.skip(end - pat@.len()).take(pat@.len() as int));
        }
    }
    slice_chars(v, 0, end)
}

/// `trim_start_matches` on characters.
pub fn trim_start_matches_chars(v: &[char], pat: &[char]) -> (res: Vec<char>)
    ensures
        res@ == trim_start_matches(v@, pat@),
{
    let mut start: usize = 0;
    assert(v@.skip(0) =~= v@);
    while pat.len() > 0 && start <= v.len() && matches_at(v, start, pat)
        invariant
            start <= v.len(),
            trim_start_matches(v@, pat@) == trim_start_matches(v@.skip(start as int), pat@),
        decreases v.len() - start,
    {
        proof {
            let t = v@.skip(start as int);
            assert(t.skip(pat@.len() as int) =~= v@.skip(start + pat@.len()));
        }
        start = start + pat.len();
    }
    slice_chars(v, start, v.len())
}

/// `str::to_lowercase`: Unicode lower-case mapping of a whole string.
pub uninterp spec fn lowercase(s: Seq<char>) -> Seq<char>;

/// `str::to_lowercase` (std); its result is named `lowercase`.
#[verifier::external_body]
pub(crate) fn to_lowercase(s: &str) -> (res: String)
    ensures
        res@ == lowercase(s@),
{
    s.to_lowercase()
}

/// `char::to_uppercase`: the Unicode upper-case mapping of one character (possibly several characters).
pub uninterp spec fn uppercase_char(c: char) -> Seq<char>;

/// `char::to_uppercase` (std), collected into a string; its result is named `uppercase_char`.
#[verifier::external_body]
pub(crate) fn char_to_uppercase(c: char) -> (res: String)
    ensures
        res@ == uppercase_char(c),
{
    c.to_uppercase().collect::<String>()
}


/// Lexicographic order of character sequences by code point; for strings it is the order
/// that `String`'s `Ord` gives, since UTF-8 keeps the order of code points.
pub open spec fn seq_lt(a: Seq<char>, b: Seq<char>) -> bool
    decreases a.len(),
{
    if a.len() == 0 {
        b.len() > 0
    } else if b.len() == 0 {
        false
    } else if a[0] != b[0] {
        (a[0] as u32) < (b[0] as u32)
    } else {
        seq_lt(a.drop_first(), b.drop_first())
    }
}

proof fn lemma_seq_lt_skip(a: Seq<char>, b: Seq<char>, i: int)
    requires
        0 <= i <= a.len(),
        i <= b.len(),
        a.take(i) == b.take(i),
    ensures
        seq_lt(a, b) == seq_lt(a.skip(i), b.skip(i)),
    decreases i,
{
    if i > 0 {
        assert(a[0] == a.take(i)[0]);
        assert(b[0] == b.take(i)[0]);
        assert(a.drop_first().take(i - 1) =~= a.take(i).drop_first());
        assert(b.drop_first().take(i - 1) =~= b.take(i).drop_first());
        lemma_seq_lt_skip(a.drop_first(), b.drop_first(), i - 1);
        assert(a.drop_first().skip(i - 1) =~= a.skip(i));
        assert(b.drop_first().skip(i - 1) =~= b.skip(i));
    } else {
        assert(a.skip(0) =~= a);
        assert(b.skip(0) =~= b);
    }
}

/// `seq_lt` is a strict total order.
pub proof fn lemma_seq_lt_order(a: Seq<char>, b: Seq<char>, c: Seq<char>)
    ensures
        !seq_lt(a, a),
        seq_lt(a, b) ==> !seq_lt(b, a),
        seq_lt(a, b) && seq_lt(b, c) ==> seq_lt(a, c),
        a != b ==> seq_lt(a, b) || seq_lt(b, a),
    decreases a.len(),
{
    if a.len() > 0 && b.len() > 0 {
        if c.len() > 0 {
            lemma_seq_lt_order(a.drop_first(), b.drop_first(), c.drop_first());
        } else {
            lemma_seq_lt_order(a.drop_first(), b.drop_first(), b.drop_first());
        }
        if a != b && a[0] == b[0] {
            assert(a =~= seq![a[0]] + a.drop_first());
            assert(b =~= seq![b[0]] + b.drop_first());
        }
        vstd::utf8::char_u32_cast(a[0], a[0] as u32);
        vstd::utf8::char_u32_cast(b[0], b[0] as u32);
    } else if a.len() > 0 {
        lemma_seq_lt_order(a.drop_first(), a.drop_first(), a.drop_first());
    }
    if a.len() == 0 && b.len() == 0 {
        assert(a =~= b);
    }
}

/// Whether `a` comes before `b` (`a < b` on strings).
pub fn str_lt(a: &str, b: &str) -> (res: bool)
    ensures
        res == seq_lt(a@, b@),
{
    let va = chars_of(a);
    let vb = chars_of(b);
    let mut i: usize = 0;
    assert(va@.take(0) =~= vb@.take(0));
    while i < va.len() && i < vb.len() && va[i] == vb[i]
        invariant
            i <= va.len(),
            i <= vb.len(),
            va@ == a@,
            vb@ == b@,
            va@.take(i as int) == vb@.take(i as int),
        decreases va.len() - i,
    {
        assert(va@.take(i + 1) =~= va@.take(i as int).push(va@[i as int]));
        assert(vb@.take(i + 1) =~= vb@.take(i as int).push(vb@[i as int]));
        i = i + 1;
    }
    proof {
        lemma_seq_lt_skip(a@, b@, i as int);
        if i < va.len() {
            assert(a@.skip(i as int)[0] == va@[i as int]);
        }
        if i < vb.len() {
            assert(b@.skip(i as int)[0] == vb@[i as int]);
        }
    }
    if i == va.len() {
        i < vb.len()
    } else if i == vb.len() {
        false
    } else {
        (va[i] as u32) < (vb[i] as u32)
    }
}


/// The separators that words are split on.
pub enum Separators {
    /// `-`, `_` and `.`, as in process names.
    NamePunctuation,
    /// White space (`str::split_whitespace`).
    WhiteSpace,
}

pub open spec fn is_sep(kind: Separators, c: char) -> bool {
    match kind {
        Separators::NamePunctuation => c == '-' || c == '_' || c == '.',
        Separators::WhiteSpace => is_ws(c),
    }
}

fn is_sep_exec(kind: &Separators, c: char) -> (res: bool)
    ensures
        res == is_sep(*kind, c),
{
    match kind {
        Separators::NamePunctuation => c == '-' || c == '_' || c == '.',
        Separators::WhiteSpace => is_whitespace(c),
    }
}

/// The words found so far, and the word being read, after reading `s`.
pub open spec fn split_state(s: Seq<char>, kind: Separators) -> (Seq<Seq<char>>, Seq<char>)
    decreases s.len(),
{
    if s.len() == 0 {
        (Seq::empty(), Seq::empty())
    } else {
        let (ws, cur) = split_state(s.drop_last(), kind);
        if is_sep(kind, s.last()) {
            if cur.len() > 0 {
                (ws.push(cur), Seq::empty())
            } else {
                (ws, Seq::empty())
            }
        } else {
            (ws, cur.push(s.last()))
        }
    }
}

/// The maximal non-empty runs of non-separator characters of `s`, in order
/// (`split(..)` with the empty pieces filtered out, or `split_whitespace`).
pub open spec fn split_words(s: Seq<char>, kind: Separators) -> Seq<Seq<char>> {
    let (ws, cur) = split_state(s, kind);
    if cur.len() > 0 {
        ws.push(cur)
    } else {
        ws
    }
}

/// The words joined with `sep` between each two (`join`).
pub open spec fn join_words(ws: Seq<Seq<char>>, sep: Seq<char>) -> Seq<char>
    decreases ws.len(),
{
    if ws.len() == 0 {
        Seq::empty()
    } else if ws.len() == 1 {
        ws[0]
    } else {
        join_words(ws.drop_last(), sep) + sep + ws.last()
    }
}

pub open spec fn chars_views(v: Seq<Vec<char>>) -> Seq<Seq<char>> {
    v.map_values(|w: Vec<char>| w@)
}

/// The words of `v` (see `split_words`).
pub fn split_chars(v: &[char], kind: Separators) -> (res: Vec<Vec<char>>)
    ensures
        chars_views(res@) == split_words(v@, kind),
{
    let mut words: Vec<Vec<char>> = Vec::new();
    let mut cur: Vec<char> = Vec::new();
    let mut i: usize = 0;
    assert(v@.take(0) =~= Seq::<char>::empty());
    assert(chars_views(words@) =~= Seq::<Seq<char>>::empty());
    while i < v.len()
        invariant
            i <= v.len(),
            (chars_views(words@), cur@) == split_state(v@.take(i as int), kind),
        decreases v.len() - i,
    {
        let c = v[i];
        proof {
            assert(v@.take(i + 1).drop_last() =~= v@.take(i as int));
            assert(v@.take(i + 1).last() == c);
        }
        if is_sep_exec(&kind, c) {
            if cur.len() > 0 {
                let w = cur;
                cur = Vec::new();
                words.push(w);
                assert(chars_views(words@) =~= split_state(v@.take(i + 1), kind).0);
            } else {
                cur = Vec::new();
            }
            assert(cur@ =~= Seq::<char>::empty());
        } else {
            cur.push(c);
        }
        i = i + 1;
    }
    assert(v@.take(i as int) =~= v@);
    if cur.len() > 0 {
        words.push(cur);
        assert(chars_views(words@) =~= split_words(v@, kind));
    }
    words
}

/// The words joined with `sep` (see `join_words`).
pub fn join_chars(ws: &Vec<Vec<char>>, sep: &[char]) -> (res: Vec<char>)
    ensures
        res@ == join_words(chars_views(ws@), sep@),
{
    let ghost views = chars_views(ws@);
    let mut out: Vec<char> = Vec::new();
    if ws.len() == 0 {
        return out;
    }
    out.extend_from_slice(ws[0].as_slice());
    assert(views.take(1).drop_last() =~= Seq::<Seq<char>>::empty());
    assert(out@ == join_words(views.take(1), sep@));
    let mut i: usize = 1;
    while i < ws.len()
        invariant
            1 <= i <= ws.len(),
            views == chars_views(ws@),
            out@ == join_words(views.take(i as int), sep@),
        decreases ws.len() - i,
    {
        out.extend_from_slice(sep);
        out.extend_from_slice(ws[i].as_slice());
        assert(views.take(i + 1).drop_last() =~= views.take(i as int));
        assert(views.take(i + 1).last() == ws@[i as int]@);
        i = i + 1;
    }
    assert(views.take(i as int) =~= views);
    out
}

} // verus!
