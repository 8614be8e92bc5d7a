//! How reports write numbers, durations and text: decimal numbers, `HH:MM:SS` clocks
//! with a day count in front when there are days, and text escaped for HTML.
use vstd::prelude::*;
use crate::text::{chars_of, string_of, str_eq};

verus! {

/// Appends the characters of `s`.
pub fn append(out: &mut Vec<char>, s: &str)
    ensures
        final(out)@ == old(out)@ + s@,
{
    let v = chars_of(s);
    let mut k: usize = 0;
    let ghost start = out@;
    while k < v.len()
        invariant
            k <= v.len(),
            v@ == s@,
            out@ == start + v@.take(k as int),
        decreases v.len() - k,
    {
        out.push(v[k]);
        assert(v@.take(k + 1) =~= v@.take(k as int).push(v@[k as int]));
        k = k + 1;
    }
    assert(v@.take(k as int) =~= v@);
}

/// The decimal digit for `d`.
pub open spec fn digit_char(d: int) -> char {
    if d == 0 { '0' }
    else if d == 1 { '1' }
    else if d == 2 { '2' }
    else if d == 3 { '3' }
    else if d == 4 { '4' }
    else if d == 5 { '5' }
    else if d == 6 { '6' }
    else if d == 7 { '7' }
    else if d == 8 { '8' }
    else { '9' }
}

/// `n` written in decimal, without leading zeros.
pub open spec fn decimal(n: nat) -> Seq<char>
    decreases n,
{
    if n < 10 {
        seq![digit_char(n as int)]
    } else {
        decimal(n / 10).push(digit_char((n % 10) as int))
    }
}

/// `n` written with at least two digits (`{:02}`).
pub open spec fn two_digits(n: nat) -> Seq<char> {
    if n < 10 {
        seq!['0'] + decimal(n)
    } else {
        decimal(n)
    }
}

fn digit(d: u64) -> (c: char)
    requires
        d < 10,
    ensures
        c == digit_char(d as int),
{
    match d {
        0 => '0',
        1 => '1',
        2 => '2',
        3 => '3',
        4 => '4',
        5 => '5',
        6 => '6',
        7 => '7',
        8 => '8',
        _ => '9',
    }
}

/// Appends `n` in decimal.
pub fn push_decimal(out: &mut Vec<char>, n: u64)
    ensures
        final(out)@ == old(out)@ + decimal(n as nat),
    decreases n,
{
    if n >= 10 {
        push_decimal(out, n / 10);
    }
    out.push(digit(n % 10));
    proof {
        if n >= 10 {
            assert(decimal(n as nat) == decimal((n / 10) as nat).push(digit_char((n % 10) as int)));
        }
    }
    assert(final(out)@ =~= old(out)@ + decimal(n as nat));
}

/// `n` in decimal (`to_string`).
pub fn decimal_string(n: u64) -> (res: String)
    ensures
        res@ == decimal(n as nat),
{
    let mut v: Vec<char> = Vec::new();
    push_decimal(&mut v, n);
    assert(v@ =~= decimal(n as nat));
    string_of(v.as_slice())
}

fn push_two_digits(out: &mut Vec<char>, n: u64)
    ensures
        final(out)@ == old(out)@ + two_digits(n as nat),
{
    if n < 10 {
        out.push('0');
    }
    push_decimal(out, n);
    assert(final(out)@ =~= old(out)@ + two_digits(n as nat));
}

/// A duration as a clock, `HH:MM:SS`, with `N д ` in front when it is a day or longer.
pub open spec fn duration_text(seconds: u64) -> Seq<char> {
    let days = seconds / 86400;
    let hours = (seconds % 86400) / 3600;
    let minutes = (seconds % 3600) / 60;
    let secs = seconds % 60;
    let clock = two_digits(hours as nat) + seq![':'] + two_digits(minutes as nat) + seq![':'] + two_digits(secs as nat);
    if days > 0 {
        decimal(days as nat) + " д "@ + clock
    } else {
        clock
    }
}

/// A duration as a report writes it (see `duration_text`).
pub fn format_duration(seconds: u64) -> (res: String)
    ensures
        res@ == duration_text(seconds),
{
    let days = seconds / 86_400;
    let hours = (seconds % 86_400) / 3_600;
    let minutes = (seconds % 3_600) / 60;
    let secs = seconds % 60;
    let mut v: Vec<char> = Vec::new();
    if days > 0 {
        push_decimal(&mut v, days);
        append(&mut v, " д ");
    }
    let ghost lead = v@;
    push_two_digits(&mut v, hours);
    v.push(':');
    push_two_digits(&mut v, minutes);
    v.push(':');
    push_two_digits(&mut v, secs);
    assert(v@ =~= lead + (two_digits(hours as nat) + seq![':'] + two_digits(minutes as nat) + seq![':'] + two_digits(secs as nat)));
    assert(v@ =~= duration_text(seconds));
    string_of(v.as_slice())
}

/// `Браузер` for a browser, `Приложение` for anything else.
pub open spec fn kind_label(kind: Seq<char>) -> Seq<char> {
    if kind == "browser"@ {
        "Браузер"@
    } else {
        "Приложение"@
    }
}

/// How a report names the kind of an application (see `kind_label`).
pub fn app_kind_label(kind: &str) -> (res: &'static str)
    ensures
        res@ == kind_label(kind@),
{
    if str_eq(kind, "browser") {
        "Браузер"
    } else {
        "Приложение"
    }
}

/// One character as HTML text: `&`, `<`, `>`, `"` and `'` become entities.
pub open spec fn escape_char(c: char) -> Seq<char> {
    if c == '&' {
        "&amp;"@
    } else if c == '<' {
        "&lt;"@
    } else if c == '>' {
        "&gt;"@
    } else if c == '"' {
        "&quot;"@
    } else if c == '\'' {
        "&#39;"@
    } else {
        seq![c]
    }
}

/// Text made safe to place in HTML, character by character.
pub open spec fn escaped(s: Seq<char>) -> Seq<char>
    decreases s.len(),
{
    if s.len() == 0 {
        Seq::empty()
    } else {
        escaped(s.drop_last()) + escape_char(s.last())
    }
}

/// Appends `s` made safe to place in HTML (see `escaped`).
pub fn push_escaped(out: &mut Vec<char>, s: &str)
    ensures
        final(out)@ == old(out)@ + escaped(s@),
{
    let v = chars_of(s);
    let ghost start = out@;
    let mut k: usize = 0;
    while k < v.len()
        invariant
            k <= v.len(),
            v@ == s@,
            out@ == start + escaped(v@.take(k as int)),
        decreases v.len() - k,
    {
        let c = v[k];
        assert(v@.take(k + 1).drop_last() =~= v@.take(k as int));
        if c == '&' {
            append(out, "&amp;");
        } else if c == '<' {
            append(out, "&lt;");
        } else if c == '>' {
            append(out, "&gt;");
        } else if c == '"' {
            append(out, "&quot;");
        } else if c == '\'' {
            append(out, "&#39;");
        } else {
            out.push(c);
        }
        assert(out@ =~= start + escaped(v@.take(k + 1)));
        k = k + 1;
    }
    assert(v@.take(k as int) =~= v@);
}

/// Text made safe to place in HTML (see `escaped`).
pub fn escape_html(value: &str) -> (res: String)
    ensures
        res@ == escaped(value@),
{
    let mut v: Vec<char> = Vec::new();
    push_escaped(&mut v, value);
    assert(v@ =~= escaped(value@));
    string_of(v.as_slice())
}

/// Text escaped for HTML holds no `<`, `>`, `"` or `'`, so it cannot open or close a tag
/// or an attribute.
pub proof fn law_escaped_has_no_markup(s: Seq<char>)
    ensures
        forall|i: int|
            0 <= i < escaped(s).len() ==> {
                let c = #[trigger] escaped(s)[i];
                c != '<' && c != '>' && c != '"' && c != '\''
            },
    decreases s.len(),
{
    reveal_strlit("&amp;");
    reveal_strlit("&lt;");
    reveal_strlit("&gt;");
    reveal_strlit("&quot;");
    reveal_strlit("&#39;");
    if s.len() > 0 {
        law_escaped_has_no_markup(s.drop_last());
        let a = escaped(s.drop_last());
        let b = escape_char(s.last());
        assert forall|i: int| 0 <= i < escaped(s).len() implies {
            let c = #[trigger] escaped(s)[i];
            c != '<' && c != '>' && c != '"' && c != '\''
        } by {
            if i < a.len() {
                assert(escaped(s)[i] == a[i]);
            } else {
                assert(escaped(s)[i] == b[i - a.len()]);
            }
        }
    }
}

/// The clock of a duration gives the duration back: days, hours, minutes and seconds
/// add up to it, and hours, minutes and seconds stay within their ranges.
pub proof fn law_duration_parts(seconds: u64)
    ensures
        (seconds / 86400) * 86400 + ((seconds % 86400) / 3600) * 3600 + ((seconds % 3600) / 60) * 60 + seconds % 60
            == seconds,
        (seconds % 86400) / 3600 < 24,
        (seconds % 3600) / 60 < 60,
        seconds % 60 < 60,
{
    let s = seconds as int;
    assert((s / 86400) * 86400 + ((s % 86400) / 3600) * 3600 + ((s % 3600) / 60) * 60 + s % 60 == s) by (nonlinear_arith)
        requires
            s >= 0,
    {
        vstd::arithmetic::div_mod::lemma_fundamental_div_mod(s, 86400);
        vstd::arithmetic::div_mod::lemma_fundamental_div_mod(s % 86400, 3600);
        vstd::arithmetic::div_mod::lemma_mod_mod(s, 3600, 24);
        vstd::arithmetic::div_mod::lemma_fundamental_div_mod(s % 3600, 60);
        vstd::arithmetic::div_mod::lemma_mod_mod(s, 60, 60);
    }
}

} // verus!
