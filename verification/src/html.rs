//! The printable report as HTML: pages with a title, tables split over pages, cards and
//! tiles. All text taken from a project is escaped.
use vstd::prelude::*;
use crate::format::{append, duration_text, escape_html, escaped, format_duration, kind_label, app_kind_label, push_escaped, decimal, decimal_string};
use crate::models::{ProjectRecord, ProjectView, SessionView, session_views};
use crate::report::{IncludedApp, IncludedAppView, IncludedTab, IncludedTabView, included_app_views, included_tab_views};
use crate::text::{chars_of, owned, string_of};

verus! {

/// The strings joined, in order.
pub open spec fn concat(ss: Seq<Seq<char>>) -> Seq<char>
    decreases ss.len(),
{
    if ss.len() == 0 {
        Seq::empty()
    } else {
        concat(ss.drop_last()) + ss.last()
    }
}

pub open spec fn string_views(v: Seq<String>) -> Seq<Seq<char>> {
    v.map_values(|s: String| s@)
}

/// A page: its escaped title as a heading, then the body.
pub open spec fn page_html(title: Seq<char>, body: Seq<char>) -> Seq<char> {
    "<section class=\"page\"><h1 class=\"page-title\">"@ + escaped(title) + "</h1>"@ + body + "</section>"@
}

/// A report page (see `page_html`).
pub fn page(title: &str, body: &str) -> (res: String)
    ensures
        res@ == page_html(title@, body@),
{
    let mut v: Vec<char> = Vec::new();
    append(&mut v, "<section class=\"page\"><h1 class=\"page-title\">");
    push_escaped(&mut v, title);
    append(&mut v, "</h1>");
    append(&mut v, body);
    append(&mut v, "</section>");
    assert(v@ =~= page_html(title@, body@));
    string_of(v.as_slice())
}

/// What a report shows where there is nothing to list.
pub open spec fn empty_text() -> Seq<char> {
    "<p class=\"empty\">Данных пока нет.</p>"@
}

/// The note for an empty list (see `empty_text`).
pub fn empty_html() -> (res: String)
    ensures
        res@ == empty_text(),
{
    owned("<p class=\"empty\">Данных пока нет.</p>")
}

/// A card with a label and a value, both escaped.
pub open spec fn card_html(class: Seq<char>, label: Seq<char>, value: Seq<char>) -> Seq<char> {
    "<div class=\""@ + class + "\"><span>"@ + escaped(label) + "</span><strong>"@ + escaped(value) + "</strong></div>"@
}

fn card(class: &str, label: &str, value: &str) -> (res: String)
    ensures
        res@ == card_html(class@, label@, value@),
{
    let mut v: Vec<char> = Vec::new();
    append(&mut v, "<div class=\"");
    append(&mut v, class);
    append(&mut v, "\"><span>");
    push_escaped(&mut v, label);
    append(&mut v, "</span><strong>");
    push_escaped(&mut v, value);
    append(&mut v, "</strong></div>");
    assert(v@ =~= card_html(class@, label@, value@));
    string_of(v.as_slice())
}

/// A metric of the overview (see `card_html`, class `metric`).
pub fn metric_card(label: &str, value: &str) -> (res: String)
    ensures
        res@ == card_html("metric"@, label@, value@),
{
    card("metric", label, value)
}

/// A tile of general information (see `card_html`, class `info`).
pub fn info_tile(label: &str, value: &str) -> (res: String)
    ensures
        res@ == card_html("info"@, label@, value@),
{
    card("info", label, value)
}

/// A header cell of the given width.
pub open spec fn th_html(label: Seq<char>, width: Seq<char>) -> Seq<char> {
    "<th style=\"width:"@ + escaped(width) + "\">"@ + escaped(label) + "</th>"@
}

/// The header cells, in order.
pub open spec fn header_cells(labels: Seq<Seq<char>>, widths: Seq<Seq<char>>) -> Seq<char>
    decreases labels.len(),
{
    if labels.len() == 0 {
        Seq::empty()
    } else {
        header_cells(labels.drop_last(), widths.drop_last()) + th_html(labels.last(), widths.last())
    }
}

/// A body cell; its value is placed as it is (callers escape what needs it).
pub open spec fn td_html(value: Seq<char>) -> Seq<char> {
    "<td><div class=\"truncate\">"@ + value + "</div></td>"@
}

pub open spec fn cells_html(values: Seq<Seq<char>>) -> Seq<char>
    decreases values.len(),
{
    if values.len() == 0 {
        Seq::empty()
    } else {
        cells_html(values.drop_last()) + td_html(values.last())
    }
}

pub open spec fn row_html(values: Seq<Seq<char>>) -> Seq<char> {
    "<tr>"@ + cells_html(values) + "</tr>"@
}

pub open spec fn rows_html(rows: Seq<Seq<Seq<char>>>) -> Seq<char>
    decreases rows.len(),
{
    if rows.len() == 0 {
        Seq::empty()
    } else {
        rows_html(rows.drop_last()) + row_html(rows.last())
    }
}

/// A table with a header row and a row per entry; the empty note when there is no row.
pub open spec fn table_html(labels: Seq<Seq<char>>, widths: Seq<Seq<char>>, rows: Seq<Seq<Seq<char>>>) -> Seq<char> {
    if rows.len() == 0 {
        empty_text()
    } else {
        "<table><tbody><tr>"@ + header_cells(labels, widths) + "</tr>"@ + rows_html(rows) + "</tbody></table>"@
    }
}

pub open spec fn table_rows_view(rows: Seq<Vec<String>>) -> Seq<Seq<Seq<char>>> {
    rows.map_values(|r: Vec<String>| string_views(r@))
}

/// A table (see `table_html`); `labels` and `widths` give the columns.
pub fn simple_table(labels: &[&str], widths: &[&str], rows: &[Vec<String>]) -> (res: String)
    requires
        labels.len() == widths.len(),
    ensures
        res@ == table_html(labels@.map_values(|s: &str| s@), widths@.map_values(|s: &str| s@), table_rows_view(rows@)),
{
    assert(rows@.subrange(0, rows@.len() as int) =~= rows@);
    table_of_range(labels, widths, rows, 0, rows.len())
}

/// The table of the rows `lo..hi` (see `table_html`).
fn table_of_range(labels: &[&str], widths: &[&str], all_rows: &[Vec<String>], lo: usize, hi: usize) -> (res: String)
    requires
        labels.len() == widths.len(),
        lo <= hi <= all_rows.len(),
    ensures
        res@ == table_html(labels@.map_values(|s: &str| s@), widths@.map_values(|s: &str| s@), table_rows_view(all_rows@.subrange(lo as int, hi as int))),
{
    let ghost ls = labels@.map_values(|s: &str| s@);
    let ghost ws = widths@.map_values(|s: &str| s@);
    let ghost rv = table_rows_view(all_rows@.subrange(lo as int, hi as int));
    if lo == hi {
        return empty_html();
    }
    let mut v: Vec<char> = Vec::new();
    append(&mut v, "<table><tbody><tr>");
    let ghost start = v@;
    let mut k: usize = 0;
    while k < labels.len()
        invariant
            k <= labels.len(),
            labels.len() == widths.len(),
            ls == labels@.map_values(|s: &str| s@),
            ws == widths@.map_values(|s: &str| s@),
            v@ == start + header_cells(ls.take(k as int), ws.take(k as int)),
        decreases labels.len() - k,
    {
        assert(ls.take(k + 1).drop_last() =~= ls.take(k as int));
        assert(ws.take(k + 1).drop_last() =~= ws.take(k as int));
        append(&mut v, "<th style=\"width:");
        push_escaped(&mut v, widths[k]);
        append(&mut v, "\">");
        push_escaped(&mut v, labels[k]);
        append(&mut v, "</th>");
        assert(v@ =~= start + header_cells(ls.take(k + 1), ws.take(k + 1)));
        k = k + 1;
    }
    assert(ls.take(k as int) =~= ls);
    assert(ws.take(k as int) =~= ws);
    append(&mut v, "</tr>");
    let ghost mid = v@;
    let mut r: usize = 0;
    while r < hi - lo
        invariant
            lo <= hi <= all_rows.len(),
            r <= hi - lo,
            rv == table_rows_view(all_rows@.subrange(lo as int, hi as int)),
            rv.len() == hi - lo,
            v@ == mid + rows_html(rv.take(r as int)),
        decreases hi - lo - r,
    {
        assert(rv.take(r + 1).drop_last() =~= rv.take(r as int));
        let ghost before = v@;
        append(&mut v, "<tr>");
        let row = &all_rows[lo + r];
        let ghost cv = string_views(row@);
        assert(cv == rv[r as int]);
        let ghost rs = v@;
        let mut c: usize = 0;
        while c < row.len()
            invariant
                c <= row.len(),
                cv == string_views(row@),
                v@ == rs + cells_html(cv.take(c as int)),
            decreases row.len() - c,
        {
            assert(cv.take(c + 1).drop_last() =~= cv.take(c as int));
            append(&mut v, "<td><div class=\"truncate\">");
            append(&mut v, row[c].as_str());
            append(&mut v, "</div></td>");
            assert(v@ =~= rs + cells_html(cv.take(c + 1)));
            c = c + 1;
        }
        assert(cv.take(c as int) =~= cv);
        append(&mut v, "</tr>");
        assert(v@ =~= before + row_html(rv[r as int]));
        assert(v@ =~= mid + rows_html(rv.take(r + 1)));
        r = r + 1;
    }
    assert(rv.take(r as int) =~= rv);
    append(&mut v, "</tbody></table>");
    assert(v@ =~= table_html(ls, ws, rv));
    string_of(v.as_slice())
}

// ---------------------------------------------------------------- lists over pages

/// The title of the `i`-th page of a list: the later ones are marked as continued.
pub open spec fn page_title(title: Seq<char>, i: int) -> Seq<char> {
    if i == 0 {
        title
    } else {
        title + " продолжение"@
    }
}

/// The rows split into runs of `n`, the last run holding what is left.
pub open spec fn chunked(rows: Seq<Seq<Seq<char>>>, n: nat) -> Seq<Seq<Seq<Seq<char>>>>
    decreases rows.len(),
{
    if rows.len() == 0 || n == 0 {
        Seq::empty()
    } else if rows.len() <= n {
        seq![rows]
    } else {
        seq![rows.take(n as int)] + chunked(rows.skip(n as int), n)
    }
}

/// The pages of a list: a table of at most `n` rows on each; one page with the empty
/// note when there is no row.
pub open spec fn list_pages(
    title: Seq<char>,
    labels: Seq<Seq<char>>,
    widths: Seq<Seq<char>>,
    rows: Seq<Seq<Seq<char>>>,
    n: nat,
) -> Seq<Seq<char>> {
    if rows.len() == 0 {
        seq![page_html(title, empty_text())]
    } else {
        let cs = chunked(rows, n);
        Seq::new(cs.len(), |i: int| page_html(page_title(title, i), table_html(labels, widths, cs[i])))
    }
}

pub(crate) fn titled(title: &str, i: usize) -> (res: String)
    ensures
        res@ == page_title(title@, i as int),
{
    let mut v = chars_of(title);
    if i > 0 {
        append(&mut v, " продолжение");
    }
    string_of(v.as_slice())
}

/// The pages of a list (see `list_pages`).
pub fn list_pages_of(title: &str, labels: &[&str], widths: &[&str], rows: &Vec<Vec<String>>, n: usize) -> (res: Vec<String>)
    requires
        labels.len() == widths.len(),
        n > 0,
    ensures
        string_views(res@) == list_pages(
            title@,
            labels@.map_values(|s: &str| s@),
            widths@.map_values(|s: &str| s@),
            table_rows_view(rows@),
            n as nat,
        ),
{
    let ghost ls = labels@.map_values(|s: &str| s@);
    let ghost ws = widths@.map_values(|s: &str| s@);
    let ghost rv = table_rows_view(rows@);
    let mut out: Vec<String> = Vec::new();
    if rows.len() == 0 {
        let e = empty_html();
        out.push(page(title, e.as_str()));
        assert(string_views(out@) =~= list_pages(title@, ls, ws, rv, n as nat));
        return out;
    }
    let ghost all = chunked(rv, n as nat);
    let mut start: usize = 0;
    let mut i: usize = 0;
    assert(rv.skip(0) =~= rv);
    while start < rows.len()
        invariant
            n > 0,
            labels.len() == widths.len(),
            start <= rows.len(),
            rv == table_rows_view(rows@),
            rv.len() == rows.len(),
            ls == labels@.map_values(|s: &str| s@),
            ws == widths@.map_values(|s: &str| s@),
            all == chunked(rv, n as nat),
            out.len() == i,
            i <= all.len(),
            all == all.take(i as int) + chunked(rv.skip(start as int), n as nat),
            forall|k: int| 0 <= k < i ==> #[trigger] string_views(out@)[k] == page_html(page_title(title@, k), table_html(ls, ws, all[k])),
        decreases rows.len() - start,
    {
        let left = rows.len() - start;
        let end = if left <= n { rows.len() } else { start + n };
        let ghost rest = rv.skip(start as int);
        proof {
            assert(rest.len() > 0);
            if rest.len() <= n {
                assert(chunked(rest, n as nat) == seq![rest]);
                assert(rv.subrange(start as int, end as int) =~= rest);
                assert(rv.skip(end as int) =~= Seq::<Seq<Seq<char>>>::empty());
                assert(chunked(rv.skip(end as int), n as nat) =~= Seq::<Seq<Seq<Seq<char>>>>::empty());
            } else {
                assert(chunked(rest, n as nat) == seq![rest.take(n as int)] + chunked(rest.skip(n as int), n as nat));
                assert(rv.subrange(start as int, end as int) =~= rest.take(n as int));
                assert(rest.skip(n as int) =~= rv.skip(end as int));
            }
            assert(all[i as int] == rv.subrange(start as int, end as int));
            assert(table_rows_view(rows@.subrange(start as int, end as int)) =~= rv.subrange(start as int, end as int));
        }
        let t = titled(title, i);
        let body = table_of_range(labels, widths, rows.as_slice(), start, end);
        let pg = page(t.as_str(), body.as_str());
        let ghost before = out@;
        out.push(pg);
        proof {
            assert forall|k: int| 0 <= k < i + 1 implies #[trigger] string_views(out@)[k] == page_html(page_title(title@, k), table_html(ls, ws, all[k])) by {
                if k < i {
                    assert(out@[k] == before[k]);
                    assert(string_views(before)[k] == page_html(page_title(title@, k), table_html(ls, ws, all[k])));
                }
            }
            assert(all.take(i + 1) =~= all.take(i as int).push(all[i as int]));
            assert(all == all.take(i + 1) + chunked(rv.skip(end as int), n as nat));
        }
        start = end;
        assert(out.len() == i + 1);
        i = i + 1;
    }
    proof {
        assert(rv.skip(start as int) =~= Seq::<Seq<Seq<char>>>::empty());
        assert(all =~= all.take(i as int));
        assert(string_views(out@) =~= list_pages(title@, ls, ws, rv, n as nat));
    }
    out
}

// ---------------------------------------------------------------- the report's lists

pub open spec fn app_labels() -> Seq<Seq<char>> {
    seq!["Название"@, "Тип"@, "Время"@, "%"@]
}

pub open spec fn app_widths() -> Seq<Seq<char>> {
    seq!["44%"@, "18%"@, "20%"@, "18%"@]
}

/// The row of an application: its escaped name, its kind, its time and its share.
pub open spec fn app_cells(a: IncludedAppView, percent: Seq<char>) -> Seq<Seq<char>> {
    seq![escaped(a.name), "<span class=\"pill\">"@ + kind_label(a.kind) + "</span>"@, duration_text(a.seconds), percent]
}

/// The pages listing the applications, twenty to a page; `percents` holds each one's
/// share of the total, as written in the report.
pub open spec fn app_pages_html(apps: Seq<IncludedAppView>, percents: Seq<Seq<char>>) -> Seq<Seq<char>> {
    list_pages(
        "Приложения"@,
        app_labels(),
        app_widths(),
        Seq::new(apps.len(), |i: int| app_cells(apps[i], percents[i])),
        20,
    )
}

fn push_str_of(out: &mut Vec<String>, v: &Vec<char>)
    ensures
        string_views(final(out)@) == string_views(old(out)@).push(v@),
{
    let ghost before = string_views(out@);
    out.push(string_of(v.as_slice()));
    assert(string_views(out@) =~= before.push(v@));
}

/// The pages listing the applications (see `app_pages_html`).
pub fn app_pages(apps: &Vec<IncludedApp>, percents: &Vec<String>) -> (res: Vec<String>)
    requires
        percents.len() == apps.len(),
    ensures
        string_views(res@) == app_pages_html(included_app_views(apps@), string_views(percents@)),
{
    let ghost av = included_app_views(apps@);
    let ghost pv = string_views(percents@);
    let ghost want = Seq::new(av.len(), |i: int| app_cells(av[i], pv[i]));
    let mut rows: Vec<Vec<String>> = Vec::new();
    let mut k: usize = 0;
    while k < apps.len()
        invariant
            k <= apps.len(),
            percents.len() == apps.len(),
            av == included_app_views(apps@),
            pv == string_views(percents@),
            want == Seq::new(av.len(), |i: int| app_cells(av[i], pv[i])),
            table_rows_view(rows@) == want.take(k as int),
        decreases apps.len() - k,
    {
        let a = &apps[k];
        let mut row: Vec<String> = Vec::new();
        row.push(escape_html(a.name.as_str()));
        let mut pill: Vec<char> = Vec::new();
        append(&mut pill, "<span class=\"pill\">");
        append(&mut pill, app_kind_label(a.kind.as_str()));
        append(&mut pill, "</span>");
        row.push(string_of(pill.as_slice()));
        row.push(format_duration(a.seconds));
        row.push(percents[k].clone());
        proof {
            assert(av[k as int] == a@);
            assert(string_views(row@) =~= app_cells(av[k as int], pv[k as int]));
        }
        let ghost before = table_rows_view(rows@);
        rows.push(row);
        assert(table_rows_view(rows@) =~= before.push(want[k as int]));
        assert(want.take(k + 1) =~= want.take(k as int).push(want[k as int]));
        k = k + 1;
    }
    assert(want.take(k as int) =~= want);
    let labels: Vec<&str> = vec!["Название", "Тип", "Время", "%"];
    let widths: Vec<&str> = vec!["44%", "18%", "20%", "18%"];
    assert(labels@.map_values(|s: &str| s@) =~= app_labels());
    assert(widths@.map_values(|s: &str| s@) =~= app_widths());
    list_pages_of("Приложения", labels.as_slice(), widths.as_slice(), &rows, 20)
}

pub open spec fn tab_labels() -> Seq<Seq<char>> {
    seq!["Браузер"@, "Сайт"@, "Ссылок"@, "Время"@, "%"@]
}

pub open spec fn tab_widths() -> Seq<Seq<char>> {
    seq!["24%"@, "34%"@, "14%"@, "16%"@, "12%"@]
}

/// The row of a site: its browser and title escaped, its number of links, its time and
/// its share.
pub open spec fn tab_cells(t: IncludedTabView, percent: Seq<char>) -> Seq<Seq<char>> {
    seq![escaped(t.browser), escaped(t.title), decimal(t.url_count as nat), duration_text(t.seconds), percent]
}

/// The pages listing the sites, eighteen to a page; `percents` holds each one's share.
pub open spec fn tab_pages_html(tabs: Seq<IncludedTabView>, percents: Seq<Seq<char>>) -> Seq<Seq<char>> {
    list_pages(
        "Сайты и ссылки"@,
        tab_labels(),
        tab_widths(),
        Seq::new(tabs.len(), |i: int| tab_cells(tabs[i], percents[i])),
        18,
    )
}

/// The pages listing the sites (see `tab_pages_html`).
pub fn tab_pages(tabs: &Vec<IncludedTab>, percents: &Vec<String>) -> (res: Vec<String>)
    requires
        percents.len() == tabs.len(),
    ensures
        string_views(res@) == tab_pages_html(included_tab_views(tabs@), string_views(percents@)),
{
    let ghost tv = included_tab_views(tabs@);
    let ghost pv = string_views(percents@);
    let ghost want = Seq::new(tv.len(), |i: int| tab_cells(tv[i], pv[i]));
    let mut rows: Vec<Vec<String>> = Vec::new();
    let mut k: usize = 0;
    while k < tabs.len()
        invariant
            k <= tabs.len(),
            percents.len() == tabs.len(),
            tv == included_tab_views(tabs@),
            pv == string_views(percents@),
            want == Seq::new(tv.len(), |i: int| tab_cells(tv[i], pv[i])),
            table_rows_view(rows@) == want.take(k as int),
        decreases tabs.len() - k,
    {
        let t = &tabs[k];
        let mut row: Vec<String> = Vec::new();
        row.push(escape_html(t.browser.as_str()));
        row.push(escape_html(t.title.as_str()));
        row.push(decimal_string(t.url_count as u64));
        row.push(format_duration(t.seconds));
        row.push(percents[k].clone());
        proof {
            assert(tv[k as int] == t@);
            assert(string_views(row@) =~= tab_cells(tv[k as int], pv[k as int]));
        }
        let ghost before = table_rows_view(rows@);
        rows.push(row);
        assert(table_rows_view(rows@) =~= before.push(want[k as int]));
        assert(want.take(k + 1) =~= want.take(k as int).push(want[k as int]));
        k = k + 1;
    }
    assert(want.take(k as int) =~= want);
    let labels: Vec<&str> = vec!["Браузер", "Сайт", "Ссылок", "Время", "%"];
    let widths: Vec<&str> = vec!["24%", "34%", "14%", "16%", "12%"];
    assert(labels@.map_values(|s: &str| s@) =~= tab_labels());
    assert(widths@.map_values(|s: &str| s@) =~= tab_widths());
    list_pages_of("Сайты и ссылки", labels.as_slice(), widths.as_slice(), &rows, 18)
}

pub open spec fn session_labels() -> Seq<Seq<char>> {
    seq!["Начало"@, "Окончание"@, "Длительность"@, "Приложения"@, "Браузеры"@]
}

pub open spec fn session_widths() -> Seq<Seq<char>> {
    seq!["24%"@, "24%"@, "18%"@, "17%"@, "17%"@]
}

/// The row of a session: its start and stop escaped (`-` when it has none), its time and
/// its counts.
pub open spec fn session_cells(s: SessionView) -> Seq<Seq<char>> {
    seq![
        escaped(s.started_at),
        escaped(match s.stopped_at { Some(t) => t, None => "-"@ }),
        duration_text(s.duration_seconds),
        decimal(s.app_count as nat),
        decimal(s.browser_count as nat),
    ]
}

/// The pages listing the sessions, twenty-two to a page.
pub open spec fn session_pages_html(sessions: Seq<SessionView>) -> Seq<Seq<char>> {
    list_pages(
        "Сеансы"@,
        session_labels(),
        session_widths(),
        Seq::new(sessions.len(), |i: int| session_cells(sessions[i])),
        22,
    )
}

/// The pages listing the project's sessions (see `session_pages_html`).
pub fn session_pages(project: &ProjectRecord) -> (res: Vec<String>)
    ensures
        string_views(res@) == session_pages_html(project@.sessions),
{
    let ghost sv = project@.sessions;
    let ghost want = Seq::new(sv.len(), |i: int| session_cells(sv[i]));
    let mut rows: Vec<Vec<String>> = Vec::new();
    let mut k: usize = 0;
    while k < project.sessions.len()
        invariant
            k <= project.sessions.len(),
            sv == project@.sessions,
            sv.len() == project.sessions.len(),
            want == Seq::new(sv.len(), |i: int| session_cells(sv[i])),
            table_rows_view(rows@) == want.take(k as int),
        decreases project.sessions.len() - k,
    {
        let s = &project.sessions[k];
        let mut row: Vec<String> = Vec::new();
        row.push(escape_html(s.started_at.as_str()));
        match &s.stopped_at {
            Some(t) => row.push(escape_html(t.as_str())),
            None => row.push(escape_html("-")),
        }
        row.push(format_duration(s.duration_seconds));
        row.push(decimal_string(s.app_count as u64));
        row.push(decimal_string(s.browser_count as u64));
        proof {
            assert(sv[k as int] == s@);
            assert(string_views(row@) =~= session_cells(sv[k as int]));
        }
        let ghost before = table_rows_view(rows@);
        rows.push(row);
        assert(table_rows_view(rows@) =~= before.push(want[k as int]));
        assert(want.take(k + 1) =~= want.take(k as int).push(want[k as int]));
        k = k + 1;
    }
    assert(want.take(k as int) =~= want);
    let labels: Vec<&str> = vec!["Начало", "Окончание", "Длительность", "Приложения", "Браузеры"];
    let widths: Vec<&str> = vec!["24%", "24%", "18%", "17%", "17%"];
    assert(labels@.map_values(|s: &str| s@) =~= session_labels());
    assert(widths@.map_values(|s: &str| s@) =~= session_widths());
    list_pages_of("Сеансы", labels.as_slice(), widths.as_slice(), &rows, 22)
}

// ---------------------------------------------------------------- the overview

/// The first page's content: the project's name, four metrics (total time, number of
/// sessions, top application, top site) and four tiles (start, last session, number of
/// applications, number of sites).
pub open spec fn overview_body(p: ProjectView, apps: Seq<IncludedAppView>, tabs: Seq<IncludedTabView>, total: u64) -> Seq<char> {
    let top_app = if apps.len() > 0 { apps[0].name } else { "-"@ };
    let top_tab = if tabs.len() > 0 { tabs[0].title } else { "-"@ };
    let first = if p.sessions.len() > 0 { p.sessions[0].started_at } else { p.created_at };
    let last = if p.sessions.len() > 0 && p.sessions.last().stopped_at is Some {
        p.sessions.last().stopped_at.unwrap()
    } else {
        "-"@
    };
    "<div class=\"hero\">\n  <span class=\"eyebrow\">Project Time Manager</span>\n  <h1>"@ + escaped(p.name)
        + "</h1>\n    <div>Учитываются только включенные приложения, сайты и ссылки.</div>\n</div>\n<div class=\"metrics\">\n  "@
        + card_html("metric"@, "Всего по проекту"@, duration_text(total)) + "\n  "@
        + card_html("metric"@, "Всего сеансов"@, decimal(p.sessions.len())) + "\n  "@
        + card_html("metric"@, "Топ приложение"@, top_app) + "\n  "@
        + card_html("metric"@, "Топ сайт"@, top_tab)
        + "\n</div>\n<div class=\"panel\">\n  <h2>Общая информация</h2>\n  <div class=\"info-grid\">\n    "@
        + card_html("info"@, "Дата начала"@, first) + "\n    "@
        + card_html("info"@, "Последняя сессия"@, last) + "\n    "@
        + card_html("info"@, "Приложений"@, decimal(apps.len())) + "\n    "@
        + card_html("info"@, "Сайтов"@, decimal(tabs.len()))
        + "\n  </div>\n</div>"@
}

/// Whether `piece` stands in `text` at place `k`.
pub open spec fn holds_at(text: Seq<char>, piece: Seq<char>, k: int) -> bool {
    0 <= k && k + piece.len() <= text.len() && text.subrange(k, k + piece.len()) == piece
}

/// The overview's top site is the first listed site (the one with the most time, as the
/// report lists them longest first): its `Топ сайт` card holds the first site's title,
/// and `-` when there is no site.
#[verifier::rlimit(80)]
pub proof fn law_overview_top_site(p: ProjectView, apps: Seq<IncludedAppView>, tabs: Seq<IncludedTabView>, total: u64)
    ensures
        tabs.len() > 0 ==> exists|k: int|
            #[trigger] holds_at(overview_body(p, apps, tabs, total), card_html("metric"@, "Топ сайт"@, tabs[0].title), k),
        tabs.len() == 0 ==> exists|k: int|
            #[trigger] holds_at(overview_body(p, apps, tabs, total), card_html("metric"@, "Топ сайт"@, "-"@), k),
{
    let top_app = if apps.len() > 0 { apps[0].name } else { "-"@ };
    let top_tab = if tabs.len() > 0 { tabs[0].title } else { "-"@ };
    let first = if p.sessions.len() > 0 { p.sessions[0].started_at } else { p.created_at };
    let last = if p.sessions.len() > 0 && p.sessions.last().stopped_at is Some {
        p.sessions.last().stopped_at.unwrap()
    } else {
        "-"@
    };
    let a = "<div class=\"hero\">\n  <span class=\"eyebrow\">Project Time Manager</span>\n  <h1>"@ + escaped(p.name)
        + "</h1>\n    <div>Учитываются только включенные приложения, сайты и ссылки.</div>\n</div>\n<div class=\"metrics\">\n  "@
        + card_html("metric"@, "Всего по проекту"@, duration_text(total)) + "\n  "@
        + card_html("metric"@, "Всего сеансов"@, decimal(p.sessions.len())) + "\n  "@
        + card_html("metric"@, "Топ приложение"@, top_app) + "\n  "@;
    let b = "\n</div>\n<div class=\"panel\">\n  <h2>Общая информация</h2>\n  <div class=\"info-grid\">\n    "@
        + card_html("info"@, "Дата начала"@, first) + "\n    "@
        + card_html("info"@, "Последняя сессия"@, last) + "\n    "@
        + card_html("info"@, "Приложений"@, decimal(apps.len())) + "\n    "@
        + card_html("info"@, "Сайтов"@, decimal(tabs.len()))
        + "\n  </div>\n</div>"@;
    let c = card_html("metric"@, "Топ сайт"@, top_tab);
    let body = overview_body(p, apps, tabs, total);
    assert(body =~= a + c + b);
    assert(body.subrange(a.len() as int, (a.len() + c.len()) as int) =~= c);
    assert(holds_at(body, c, a.len() as int));
}

/// The overview's top application is the first listed one (the one with the most time,
/// as the report lists them longest first): its `Топ приложение` card holds the first
/// application's name, and `-` when there is none.
#[verifier::rlimit(80)]
pub proof fn law_overview_top_app(p: ProjectView, apps: Seq<IncludedAppView>, tabs: Seq<IncludedTabView>, total: u64)
    ensures
        apps.len() > 0 ==> exists|k: int|
            #[trigger] holds_at(overview_body(p, apps, tabs, total), card_html("metric"@, "Топ приложение"@, apps[0].name), k),
        apps.len() == 0 ==> exists|k: int|
            #[trigger] holds_at(overview_body(p, apps, tabs, total), card_html("metric"@, "Топ приложение"@, "-"@), k),
{
    let top_app = if apps.len() > 0 { apps[0].name } else { "-"@ };
    let top_tab = if tabs.len() > 0 { tabs[0].title } else { "-"@ };
    let first = if p.sessions.len() > 0 { p.sessions[0].started_at } else { p.created_at };
    let last = if p.sessions.len() > 0 && p.sessions.last().stopped_at is Some {
        p.sessions.last().stopped_at.unwrap()
    } else {
        "-"@
    };
    let a = "<div class=\"hero\">\n  <span class=\"eyebrow\">Project Time Manager</span>\n  <h1>"@ + escaped(p.name)
        + "</h1>\n    <div>Учитываются только включенные приложения, сайты и ссылки.</div>\n</div>\n<div class=\"metrics\">\n  "@
        + card_html("metric"@, "Всего по проекту"@, duration_text(total)) + "\n  "@
        + card_html("metric"@, "Всего сеансов"@, decimal(p.sessions.len())) + "\n  "@;
    let b = "\n  "@ + card_html("metric"@, "Топ сайт"@, top_tab)
        + "\n</div>\n<div class=\"panel\">\n  <h2>Общая информация</h2>\n  <div class=\"info-grid\">\n    "@
        + card_html("info"@, "Дата начала"@, first) + "\n    "@
        + card_html("info"@, "Последняя сессия"@, last) + "\n    "@
        + card_html("info"@, "Приложений"@, decimal(apps.len())) + "\n    "@
        + card_html("info"@, "Сайтов"@, decimal(tabs.len()))
        + "\n  </div>\n</div>"@;
    let c = card_html("metric"@, "Топ приложение"@, top_app);
    let body = overview_body(p, apps, tabs, total);
    assert(body =~= a + c + b);
    assert(body.subrange(a.len() as int, (a.len() + c.len()) as int) =~= c);
    assert(holds_at(body, c, a.len() as int));
}

fn append_string(out: &mut Vec<char>, s: String)
    ensures
        final(out)@ == old(out)@ + s@,
{
    append(out, s.as_str());
}

/// The first page of the report (see `overview_body`), titled `Отчет по проекту`.
pub fn overview_page(project: &ProjectRecord, apps: &Vec<IncludedApp>, tabs: &Vec<IncludedTab>, total_seconds: u64) -> (res: String)
    ensures
        res@ == page_html("Отчет по проекту"@, overview_body(project@, included_app_views(apps@), included_tab_views(tabs@), total_seconds)),
{
    let ghost av = included_app_views(apps@);
    let ghost tv = included_tab_views(tabs@);
    let top_app: &str = if apps.len() > 0 { apps[0].name.as_str() } else { "-" };
    let top_tab: &str = if tabs.len() > 0 { tabs[0].title.as_str() } else { "-" };
    let first: &str = if project.sessions.len() > 0 {
        project.sessions[0].started_at.as_str()
    } else {
        project.created_at.as_str()
    };
    let n = project.sessions.len();
    let last: &str = if n > 0 {
        match &project.sessions[n - 1].stopped_at {
            Some(t) => t.as_str(),
            None => "-",
        }
    } else {
        "-"
    };
    proof {
        if apps.len() > 0 {
            assert(av[0] == apps@[0]@);
        }
        if tabs.len() > 0 {
            assert(tv[0] == tabs@[0]@);
        }
        if n > 0 {
            assert(project@.sessions[0] == project.sessions@[0]@);
            assert(project@.sessions.last() == project.sessions@[n - 1]@);
        }
    }
    let mut v: Vec<char> = Vec::new();
    append(&mut v, "<div class=\"hero\">\n  <span class=\"eyebrow\">Project Time Manager</span>\n  <h1>");
    push_escaped(&mut v, project.name.as_str());
    append(&mut v, "</h1>\n    <div>Учитываются только включенные приложения, сайты и ссылки.</div>\n</div>\n<div class=\"metrics\">\n  ");
    let total_text = format_duration(total_seconds);
    append_string(&mut v, metric_card("Всего по проекту", total_text.as_str()));
    append(&mut v, "\n  ");
    let count = decimal_string(n as u64);
    append_string(&mut v, metric_card("Всего сеансов", count.as_str()));
    append(&mut v, "\n  ");
    append_string(&mut v, metric_card("Топ приложение", top_app));
    append(&mut v, "\n  ");
    append_string(&mut v, metric_card("Топ сайт", top_tab));
    append(&mut v, "\n</div>\n<div class=\"panel\">\n  <h2>Общая информация</h2>\n  <div class=\"info-grid\">\n    ");
    append_string(&mut v, info_tile("Дата начала", first));
    append(&mut v, "\n    ");
    append_string(&mut v, info_tile("Последняя сессия", last));
    append(&mut v, "\n    ");
    let apps_count = decimal_string(apps.len() as u64);
    append_string(&mut v, info_tile("Приложений", apps_count.as_str()));
    append(&mut v, "\n    ");
    let tabs_count = decimal_string(tabs.len() as u64);
    append_string(&mut v, info_tile("Сайтов", tabs_count.as_str()));
    append(&mut v, "\n  </div>\n</div>");
    assert(v@ =~= overview_body(project@, av, tv, total_seconds));
    let body = string_of(v.as_slice());
    page("Отчет по проекту", body.as_str())
}

} // verus!
