//! The spreadsheet report as a plan of what goes where: four sheets (the report with its
//! metrics, top lists and charts; the applications; the sites; the sessions), each a
//! list of column widths, merged titles, cells and charts.
use vstd::prelude::*;
use crate::format::{append, decimal, decimal_string, duration_text, format_duration, kind_label, app_kind_label};
use crate::models::{opt_view, ProjectRecord, ProjectView, SessionView};
use crate::report::{
    apps_total, included_app_views, included_apps, included_tab_views, included_tabs, included_total, law_listed_total,
    report_apps, report_fits, report_tabs, IncludedApp, IncludedAppView, IncludedTab, IncludedTabView, TimeBasis,
};
use crate::text::{blank, is_blank, owned, string_of};

verus! {

/// How a cell looks.
#[derive(Debug, Clone, Copy, PartialEq, Eq, Structural)]
pub enum CellStyle {
    Title,
    Subtitle,
    Section,
    MetricLabel,
    MetricValue,
    Header,
    Text,
    Number,
    Percent,
}

/// What a cell holds: text, a count, a time in hours (given in seconds), a share of a
/// total (given as part and total), or a link.
#[derive(Debug)]
pub enum CellValue {
    Text(String),
    Count(u64),
    Hours(u64),
    Ratio(u64, u64),
    Link(String),
}

pub enum CellValueView {
    Text(Seq<char>),
    Count(u64),
    Hours(u64),
    Ratio(u64, u64),
    Link(Seq<char>),
}

impl View for CellValue {
    type V = CellValueView;

    open spec fn view(&self) -> CellValueView {
        match self {
            CellValue::Text(s) => CellValueView::Text(s@),
            CellValue::Count(n) => CellValueView::Count(*n),
            CellValue::Hours(s) => CellValueView::Hours(*s),
            CellValue::Ratio(a, b) => CellValueView::Ratio(*a, *b),
            CellValue::Link(u) => CellValueView::Link(u@),
        }
    }
}

/// A cell to write; with no style it is written plain.
#[derive(Debug)]
pub struct Cell {
    pub row: u32,
    pub col: u16,
    pub value: CellValue,
    pub style: Option<CellStyle>,
}

pub struct CellView {
    pub row: u32,
    pub col: u16,
    pub value: CellValueView,
    pub style: Option<CellStyle>,
}

impl View for Cell {
    type V = CellView;

    open spec fn view(&self) -> CellView {
        CellView { row: self.row, col: self.col, value: self.value@, style: self.style }
    }
}

pub open spec fn cell_views(s: Seq<Cell>) -> Seq<CellView> {
    s.map_values(|c: Cell| c@)
}

/// Cells of a row merged under one text.
#[derive(Debug)]
pub struct Merge {
    pub row: u32,
    pub first_col: u16,
    pub last_col: u16,
    pub text: String,
    pub style: CellStyle,
}

pub struct MergeView {
    pub row: u32,
    pub first_col: u16,
    pub last_col: u16,
    pub text: Seq<char>,
    pub style: CellStyle,
}

impl View for Merge {
    type V = MergeView;

    open spec fn view(&self) -> MergeView {
        MergeView { row: self.row, first_col: self.first_col, last_col: self.last_col, text: self.text@, style: self.style }
    }
}

pub open spec fn merge_views(s: Seq<Merge>) -> Seq<MergeView> {
    s.map_values(|m: Merge| m@)
}

/// The kinds of chart.
#[derive(Debug, Clone, Copy, PartialEq, Eq, Structural)]
pub enum ChartKind {
    Pie,
    Column,
}

/// A chart of one series, placed at a cell.
#[derive(Debug)]
pub struct ChartPlan {
    pub kind: ChartKind,
    pub title: String,
    pub style: u8,
    pub series_name: String,
    pub categories: String,
    pub values: String,
    pub row: u32,
    pub col: u16,
}

pub struct ChartView {
    pub kind: ChartKind,
    pub title: Seq<char>,
    pub style: u8,
    pub series_name: Seq<char>,
    pub categories: Seq<char>,
    pub values: Seq<char>,
    pub row: u32,
    pub col: u16,
}

impl View for ChartPlan {
    type V = ChartView;

    open spec fn view(&self) -> ChartView {
        ChartView {
            kind: self.kind,
            title: self.title@,
            style: self.style,
            series_name: self.series_name@,
            categories: self.categories@,
            values: self.values@,
            row: self.row,
            col: self.col,
        }
    }
}

pub open spec fn chart_views(s: Seq<ChartPlan>) -> Seq<ChartView> {
    s.map_values(|c: ChartPlan| c@)
}

/// One sheet: its name, tab colour, column widths, hidden columns, merged titles, cells,
/// charts, and the range its filter covers.
#[derive(Debug)]
pub struct SheetPlan {
    pub name: String,
    pub tab_color: Option<u32>,
    pub widths: Vec<(u16, u16)>,
    pub hidden: Vec<u16>,
    pub merges: Vec<Merge>,
    pub cells: Vec<Cell>,
    pub charts: Vec<ChartPlan>,
    pub autofilter: Option<(u32, u16, u32, u16)>,
}

pub struct SheetView {
    pub name: Seq<char>,
    pub tab_color: Option<u32>,
    pub widths: Seq<(u16, u16)>,
    pub hidden: Seq<u16>,
    pub merges: Seq<MergeView>,
    pub cells: Seq<CellView>,
    pub charts: Seq<ChartView>,
    pub autofilter: Option<(u32, u16, u32, u16)>,
}

impl View for SheetPlan {
    type V = SheetView;

    open spec fn view(&self) -> SheetView {
        SheetView {
            name: self.name@,
            tab_color: self.tab_color,
            widths: self.widths@,
            hidden: self.hidden@,
            merges: merge_views(self.merges@),
            cells: cell_views(self.cells@),
            charts: chart_views(self.charts@),
            autofilter: self.autofilter,
        }
    }
}

pub open spec fn text_cell(row: u32, col: u16, text: Seq<char>, style: CellStyle) -> CellView {
    CellView { row: row, col: col, value: CellValueView::Text(text), style: Some(style) }
}

/// A header row of labels starting at a column.
pub open spec fn header_row(row: u32, start: u16, labels: Seq<Seq<char>>) -> Seq<CellView>
    decreases labels.len(),
{
    if labels.len() == 0 {
        Seq::empty()
    } else {
        header_row(row, start, labels.drop_last()) + seq![
            text_cell(row, (start + labels.len() - 1) as u16, labels.last(), CellStyle::Header),
        ]
    }
}

/// The cells of a list of rows, one after the other.
pub open spec fn flatten(rows: Seq<Seq<CellView>>) -> Seq<CellView>
    decreases rows.len(),
{
    if rows.len() == 0 {
        Seq::empty()
    } else {
        flatten(rows.drop_last()) + rows.last()
    }
}

fn push_cell(cells: &mut Vec<Cell>, row: u32, col: u16, value: CellValue, style: Option<CellStyle>)
    ensures
        cell_views(final(cells)@) == cell_views(old(cells)@).push(CellView { row: row, col: col, value: value@, style: style }),
{
    let ghost v = value@;
    let ghost before = cell_views(cells@);
    cells.push(Cell { row: row, col: col, value: value, style: style });
    assert(cell_views(cells@) =~= before.push(CellView { row: row, col: col, value: v, style: style }));
}

fn push_header(cells: &mut Vec<Cell>, row: u32, start: u16, labels: &Vec<&str>)
    requires
        start + labels.len() <= u16::MAX,
    ensures
        cell_views(final(cells)@) == cell_views(old(cells)@) + header_row(row, start, labels@.map_values(|s: &str| s@)),
{
    let ghost ls = labels@.map_values(|s: &str| s@);
    let ghost base = cell_views(cells@);
    let mut k: usize = 0;
    while k < labels.len()
        invariant
            k <= labels.len(),
            start + labels.len() <= u16::MAX,
            ls == labels@.map_values(|s: &str| s@),
            cell_views(cells@) == base + header_row(row, start, ls.take(k as int)),
        decreases labels.len() - k,
    {
        assert(ls.take(k + 1).drop_last() =~= ls.take(k as int));
        push_cell(cells, row, start + k as u16, CellValue::Text(owned(labels[k])), Some(CellStyle::Header));
        assert(cell_views(cells@) =~= base + header_row(row, start, ls.take(k + 1)));
        k = k + 1;
    }
    assert(ls.take(k as int) =~= ls);
}

// ---------------------------------------------------------------- the report sheet

pub open spec fn report_widths() -> Seq<(u16, u16)> {
    seq![(0u16, 22u16), (1, 18), (2, 18), (3, 18), (4, 22), (5, 16), (6, 16)]
}

/// The rows shown in the top lists: at most eight.
pub open spec fn top_count(n: nat) -> nat {
    if n < 8 { n } else { 8 }
}

/// The row of an application in the top list: name, time, share, and its hours in the
/// hidden column the chart reads.
pub open spec fn top_app_cells(i: int, a: IncludedAppView, total: u64) -> Seq<CellView> {
    let row = (8 + i) as u32;
    seq![
        text_cell(row, 0, a.name, CellStyle::Text),
        text_cell(row, 1, duration_text(a.seconds), CellStyle::Text),
        CellView { row: row, col: 2, value: CellValueView::Ratio(a.seconds, total), style: Some(CellStyle::Percent) },
        CellView { row: row, col: 7, value: CellValueView::Hours(a.seconds), style: None },
    ]
}

/// The row of a site in the top list: title, time, share, and its hours in the hidden
/// column the chart reads.
pub open spec fn top_tab_cells(i: int, t: IncludedTabView, total: u64) -> Seq<CellView> {
    let row = (8 + i) as u32;
    seq![
        text_cell(row, 4, t.title, CellStyle::Text),
        text_cell(row, 5, duration_text(t.seconds), CellStyle::Text),
        CellView { row: row, col: 6, value: CellValueView::Ratio(t.seconds, total), style: Some(CellStyle::Percent) },
        CellView { row: row, col: 8, value: CellValueView::Hours(t.seconds), style: None },
    ]
}

/// The cells of the report sheet: three metrics (total time, number of applications,
/// number of sessions), the headers of the two top lists, and the top eight applications
/// and sites.
pub open spec fn report_cells(p: ProjectView, apps: Seq<IncludedAppView>, tabs: Seq<IncludedTabView>, total: u64) -> Seq<CellView> {
    seq![
        text_cell(3, 0, "Всего времени"@, CellStyle::MetricLabel),
        text_cell(4, 0, duration_text(total), CellStyle::MetricValue),
        text_cell(3, 2, "Приложений"@, CellStyle::MetricLabel),
        CellView { row: 4, col: 2, value: CellValueView::Count(apps.len() as u64), style: Some(CellStyle::MetricValue) },
        text_cell(3, 4, "Сеансов"@, CellStyle::MetricLabel),
        CellView { row: 4, col: 4, value: CellValueView::Count(p.sessions.len() as u64), style: Some(CellStyle::MetricValue) },
    ] + header_row(7, 0, seq!["Приложение"@, "Длительность"@, "%"@]) + header_row(7, 4, seq!["Вкладка"@, "Длительность"@, "%"@])
        + flatten(Seq::new(top_count(apps.len()), |i: int| top_app_cells(i, apps[i], total)))
        + flatten(Seq::new(top_count(tabs.len()), |i: int| top_tab_cells(i, tabs[i], total)))
}

/// A cell range of a column of the report sheet, rows 9 to `last` (as the sheet numbers
/// them).
pub open spec fn column_range(column: char, last: nat) -> Seq<char> {
    "'Dashboard'!$"@ + seq![column] + "$9:$"@ + seq![column] + "$"@ + decimal(last)
}

/// The charts of the report sheet: a pie of the applications' hours and a column chart
/// of the sites' hours, each only when its list is not empty.
pub open spec fn report_charts(apps: Seq<IncludedAppView>, tabs: Seq<IncludedTabView>) -> Seq<ChartView> {
    let a = if apps.len() > 0 {
        let last = 8 + top_count(apps.len());
        seq![ChartView {
            kind: ChartKind::Pie,
            title: "Распределение по приложениям"@,
            style: 10,
            series_name: "Приложения"@,
            categories: column_range('A', last),
            values: column_range('H', last),
            row: 18,
            col: 0,
        }]
    } else {
        Seq::empty()
    };
    let t = if tabs.len() > 0 {
        let last = 8 + top_count(tabs.len());
        seq![ChartView {
            kind: ChartKind::Column,
            title: "Время по вкладкам"@,
            style: 11,
            series_name: "Вкладки"@,
            categories: column_range('E', last),
            values: column_range('I', last),
            row: 18,
            col: 4,
        }]
    } else {
        Seq::empty()
    };
    a + t
}

/// The report sheet: named `Dashboard`, green tab, seven visible columns and two hidden ones
/// that the charts read, the project's title and a note merged over the top, the
/// section titles of the two top lists, its cells (see `report_cells`) and charts (see
/// `report_charts`).
pub open spec fn report_sheet_view(p: ProjectView, apps: Seq<IncludedAppView>, tabs: Seq<IncludedTabView>, total: u64) -> SheetView {
    SheetView {
        name: "Dashboard"@,
        tab_color: Some(0x059669),
        widths: report_widths(),
        hidden: seq![7u16, 8],
        merges: seq![
            MergeView { row: 0, first_col: 0, last_col: 6, text: "Отчет по проекту: "@ + p.name, style: CellStyle::Title },
            MergeView {
                row: 1,
                first_col: 0,
                last_col: 6,
                text: "Учитываются только включенные приложения и вкладки."@,
                style: CellStyle::Subtitle,
            },
            MergeView { row: 6, first_col: 0, last_col: 2, text: "Топ приложений"@, style: CellStyle::Section },
            MergeView { row: 6, first_col: 4, last_col: 6, text: "Топ вкладок"@, style: CellStyle::Section },
        ],
        cells: report_cells(p, apps, tabs, total),
        charts: report_charts(apps, tabs),
        autofilter: None,
    }
}

fn merge(row: u32, first_col: u16, last_col: u16, text: String, style: CellStyle) -> (res: Merge)
    ensures
        res@ == (MergeView { row: row, first_col: first_col, last_col: last_col, text: text@, style: style }),
{
    Merge { row: row, first_col: first_col, last_col: last_col, text: text, style: style }
}

fn range_text(column: char, last: u64) -> (res: String)
    ensures
        res@ == column_range(column, last as nat),
{
    let mut v: Vec<char> = Vec::new();
    append(&mut v, "'Dashboard'!$");
    v.push(column);
    append(&mut v, "$9:$");
    v.push(column);
    append(&mut v, "$");
    let d = decimal_string(last);
    append(&mut v, d.as_str());
    assert(v@ =~= column_range(column, last as nat));
    string_of(v.as_slice())
}

/// The report sheet (see `report_sheet_view`); `total_seconds` is the time of the listed
/// applications.
pub fn report_sheet(project: &ProjectRecord, apps: &Vec<IncludedApp>, tabs: &Vec<IncludedTab>, total_seconds: u64) -> (res: SheetPlan)
    ensures
        res@ == report_sheet_view(project@, included_app_views(apps@), included_tab_views(tabs@), total_seconds),
{
    let ghost av = included_app_views(apps@);
    let ghost tv = included_tab_views(tabs@);
    let mut widths: Vec<(u16, u16)> = Vec::new();
    widths.push((0, 22));
    widths.push((1, 18));
    widths.push((2, 18));
    widths.push((3, 18));
    widths.push((4, 22));
    widths.push((5, 16));
    widths.push((6, 16));
    let mut hidden: Vec<u16> = Vec::new();
    hidden.push(7);
    hidden.push(8);
    let mut title: Vec<char> = Vec::new();
    append(&mut title, "Отчет по проекту: ");
    append(&mut title, project.name.as_str());
    let mut merges: Vec<Merge> = Vec::new();
    merges.push(merge(0, 0, 6, string_of(title.as_slice()), CellStyle::Title));
    merges.push(merge(1, 0, 6, owned("Учитываются только включенные приложения и вкладки."), CellStyle::Subtitle));
    merges.push(merge(6, 0, 2, owned("Топ приложений"), CellStyle::Section));
    merges.push(merge(6, 4, 6, owned("Топ вкладок"), CellStyle::Section));
    let mut cells: Vec<Cell> = Vec::new();
    push_cell(&mut cells, 3, 0, CellValue::Text(owned("Всего времени")), Some(CellStyle::MetricLabel));
    push_cell(&mut cells, 4, 0, CellValue::Text(format_duration(total_seconds)), Some(CellStyle::MetricValue));
    push_cell(&mut cells, 3, 2, CellValue::Text(owned("Приложений")), Some(CellStyle::MetricLabel));
    push_cell(&mut cells, 4, 2, CellValue::Count(apps.len() as u64), Some(CellStyle::MetricValue));
    push_cell(&mut cells, 3, 4, CellValue::Text(owned("Сеансов")), Some(CellStyle::MetricLabel));
    push_cell(&mut cells, 4, 4, CellValue::Count(project.sessions.len() as u64), Some(CellStyle::MetricValue));
    let h1: Vec<&str> = vec!["Приложение", "Длительность", "%"];
    let h2: Vec<&str> = vec!["Вкладка", "Длительность", "%"];
    assert(h1@.map_values(|s: &str| s@) =~= seq!["Приложение"@, "Длительность"@, "%"@]);
    assert(h2@.map_values(|s: &str| s@) =~= seq!["Вкладка"@, "Длительность"@, "%"@]);
    push_header(&mut cells, 7, 0, &h1);
    push_header(&mut cells, 7, 4, &h2);
    let ghost lead = cell_views(cells@);
    let na: usize = if apps.len() < 8 { apps.len() } else { 8 };
    let ghost arows = Seq::new(top_count(av.len()), |i: int| top_app_cells(i, av[i], total_seconds));
    let mut i: usize = 0;
    while i < na
        invariant
            i <= na,
            na == top_count(av.len()),
            av == included_app_views(apps@),
            av.len() == apps.len(),
            arows == Seq::new(top_count(av.len()), |i: int| top_app_cells(i, av[i], total_seconds)),
            cell_views(cells@) == lead + flatten(arows.take(i as int)),
        decreases na - i,
    {
        let a = &apps[i];
        let row: u32 = 8 + i as u32;
        assert(av[i as int] == a@);
        assert(arows.take(i + 1).drop_last() =~= arows.take(i as int));
        push_cell(&mut cells, row, 0, CellValue::Text(a.name.clone()), Some(CellStyle::Text));
        push_cell(&mut cells, row, 1, CellValue::Text(format_duration(a.seconds)), Some(CellStyle::Text));
        push_cell(&mut cells, row, 2, CellValue::Ratio(a.seconds, total_seconds), Some(CellStyle::Percent));
        push_cell(&mut cells, row, 7, CellValue::Hours(a.seconds), None);
        assert(cell_views(cells@) =~= lead + flatten(arows.take(i + 1)));
        i = i + 1;
    }
    assert(arows.take(i as int) =~= arows);
    let ghost mid = cell_views(cells@);
    let nt: usize = if tabs.len() < 8 { tabs.len() } else { 8 };
    let ghost trows = Seq::new(top_count(tv.len()), |i: int| top_tab_cells(i, tv[i], total_seconds));
    let mut j: usize = 0;
    while j < nt
        invariant
            j <= nt,
            nt == top_count(tv.len()),
            tv == included_tab_views(tabs@),
            tv.len() == tabs.len(),
            trows == Seq::new(top_count(tv.len()), |i: int| top_tab_cells(i, tv[i], total_seconds)),
            cell_views(cells@) == mid + flatten(trows.take(j as int)),
        decreases nt - j,
    {
        let t = &tabs[j];
        let row: u32 = 8 + j as u32;
        assert(tv[j as int] == t@);
        assert(trows.take(j + 1).drop_last() =~= trows.take(j as int));
        push_cell(&mut cells, row, 4, CellValue::Text(t.title.clone()), Some(CellStyle::Text));
        push_cell(&mut cells, row, 5, CellValue::Text(format_duration(t.seconds)), Some(CellStyle::Text));
        push_cell(&mut cells, row, 6, CellValue::Ratio(t.seconds, total_seconds), Some(CellStyle::Percent));
        push_cell(&mut cells, row, 8, CellValue::Hours(t.seconds), None);
        assert(cell_views(cells@) =~= mid + flatten(trows.take(j + 1)));
        j = j + 1;
    }
    assert(trows.take(j as int) =~= trows);
    let mut charts: Vec<ChartPlan> = Vec::new();
    if apps.len() > 0 {
        let last = 8 + na as u64;
        charts.push(ChartPlan {
            kind: ChartKind::Pie,
            title: owned("Распределение по приложениям"),
            style: 10,
            series_name: owned("Приложения"),
            categories: range_text('A', last),
            values: range_text('H', last),
            row: 18,
            col: 0,
        });
    }
    if tabs.len() > 0 {
        let last = 8 + nt as u64;
        charts.push(ChartPlan {
            kind: ChartKind::Column,
            title: owned("Время по вкладкам"),
            style: 11,
            series_name: owned("Вкладки"),
            categories: range_text('E', last),
            values: range_text('I', last),
            row: 18,
            col: 4,
        });
    }
    let res = SheetPlan {
        name: owned("Dashboard"),
        tab_color: Some(0x059669),
        widths: widths,
        hidden: hidden,
        merges: merges,
        cells: cells,
        charts: charts,
        autofilter: None,
    };
    assert(res@.widths =~= report_widths());
    assert(res@.hidden =~= seq![7u16, 8]);
    assert(res@.merges =~= report_sheet_view(project@, av, tv, total_seconds).merges);
    assert(res@.cells =~= report_cells(project@, av, tv, total_seconds));
    assert(res@.charts =~= report_charts(av, tv));
    res
}

// ---------------------------------------------------------------- the list sheets

pub open spec fn app_sheet_row(i: int, a: IncludedAppView) -> Seq<CellView> {
    let row = (i + 1) as u32;
    seq![
        text_cell(row, 0, a.name, CellStyle::Text),
        text_cell(row, 1, a.process_name, CellStyle::Text),
        text_cell(row, 2, kind_label(a.kind), CellStyle::Text),
        text_cell(row, 3, duration_text(a.seconds), CellStyle::Text),
        CellView { row: row, col: 4, value: CellValueView::Hours(a.seconds), style: Some(CellStyle::Number) },
    ]
}

/// The sheet of applications: a header, then a row per application (name, process,
/// kind, time, hours), with a filter over them when there is any.
pub open spec fn apps_sheet_view(apps: Seq<IncludedAppView>) -> SheetView {
    SheetView {
        name: "Apps"@,
        tab_color: None,
        widths: seq![(0u16, 32u16), (1, 24), (2, 14), (3, 12), (4, 12)],
        hidden: Seq::empty(),
        merges: Seq::empty(),
        cells: header_row(0, 0, seq!["Название"@, "Процесс"@, "Тип"@, "Длительность"@, "Часы"@])
            + flatten(Seq::new(apps.len(), |i: int| app_sheet_row(i, apps[i]))),
        charts: Seq::empty(),
        autofilter: if apps.len() > 0 { Some((0, 0, apps.len() as u32, 4)) } else { None },
    }
}

/// The sheet of applications (see `apps_sheet_view`).
pub fn apps_sheet(apps: &Vec<IncludedApp>) -> (res: SheetPlan)
    ensures
        res@ == apps_sheet_view(included_app_views(apps@)),
{
    let ghost av = included_app_views(apps@);
    let mut widths: Vec<(u16, u16)> = Vec::new();
    widths.push((0, 32));
    widths.push((1, 24));
    widths.push((2, 14));
    widths.push((3, 12));
    widths.push((4, 12));
    let mut cells: Vec<Cell> = Vec::new();
    let h: Vec<&str> = vec!["Название", "Процесс", "Тип", "Длительность", "Часы"];
    assert(h@.map_values(|s: &str| s@) =~= seq!["Название"@, "Процесс"@, "Тип"@, "Длительность"@, "Часы"@]);
    push_header(&mut cells, 0, 0, &h);
    let ghost lead = cell_views(cells@);
    let ghost rows = Seq::new(av.len(), |i: int| app_sheet_row(i, av[i]));
    let mut i: usize = 0;
    while i < apps.len()
        invariant
            i <= apps.len(),
            av == included_app_views(apps@),
            rows == Seq::new(av.len(), |i: int| app_sheet_row(i, av[i])),
            cell_views(cells@) == lead + flatten(rows.take(i as int)),
        decreases apps.len() - i,
    {
        let a = &apps[i];
        let row: u32 = (i + 1) as u32;
        assert(av[i as int] == a@);
        assert(rows.take(i + 1).drop_last() =~= rows.take(i as int));
        push_cell(&mut cells, row, 0, CellValue::Text(a.name.clone()), Some(CellStyle::Text));
        push_cell(&mut cells, row, 1, CellValue::Text(a.process_name.clone()), Some(CellStyle::Text));
        push_cell(&mut cells, row, 2, CellValue::Text(owned(app_kind_label(a.kind.as_str()))), Some(CellStyle::Text));
        push_cell(&mut cells, row, 3, CellValue::Text(format_duration(a.seconds)), Some(CellStyle::Text));
        push_cell(&mut cells, row, 4, CellValue::Hours(a.seconds), Some(CellStyle::Number));
        assert(cell_views(cells@) =~= lead + flatten(rows.take(i + 1)));
        i = i + 1;
    }
    assert(rows.take(i as int) =~= rows);
    let res = SheetPlan {
        name: owned("Apps"),
        tab_color: None,
        widths: widths,
        hidden: Vec::new(),
        merges: Vec::new(),
        cells: cells,
        charts: Vec::new(),
        autofilter: if apps.len() > 0 { Some((0, 0, apps.len() as u32, 4)) } else { None },
    };
    assert(res@.widths =~= seq![(0u16, 32u16), (1, 24), (2, 14), (3, 12), (4, 12)]);
    assert(res@.hidden =~= Seq::<u16>::empty());
    assert(res@.merges =~= Seq::<MergeView>::empty());
    assert(res@.charts =~= Seq::<ChartView>::empty());
    res
}

/// The link cell of a site: the address as a link when it is there and not blank, else
/// empty text.
pub open spec fn url_cell(row: u32, url: Option<Seq<char>>) -> CellView {
    match url {
        Some(u) => if !is_blank(u) {
            CellView { row: row, col: 2, value: CellValueView::Link(u), style: None }
        } else {
            text_cell(row, 2, Seq::empty(), CellStyle::Text)
        },
        None => text_cell(row, 2, Seq::empty(), CellStyle::Text),
    }
}

pub open spec fn tab_sheet_row(i: int, t: IncludedTabView) -> Seq<CellView> {
    let row = (i + 1) as u32;
    seq![
        text_cell(row, 0, t.browser, CellStyle::Text),
        text_cell(row, 1, t.title, CellStyle::Text),
        url_cell(row, t.url),
        text_cell(row, 3, duration_text(t.seconds), CellStyle::Text),
        CellView { row: row, col: 4, value: CellValueView::Hours(t.seconds), style: Some(CellStyle::Number) },
    ]
}

/// The sheet of sites: a header, then a row per site (browser, title, link, time,
/// hours), with a filter over them when there is any.
pub open spec fn tabs_sheet_view(tabs: Seq<IncludedTabView>) -> SheetView {
    SheetView {
        name: "BrowserTabs"@,
        tab_color: None,
        widths: seq![(0u16, 22u16), (1, 42), (2, 48), (3, 12), (4, 12)],
        hidden: Seq::empty(),
        merges: Seq::empty(),
        cells: header_row(0, 0, seq!["Браузер"@, "Вкладка"@, "URL"@, "Длительность"@, "Часы"@])
            + flatten(Seq::new(tabs.len(), |i: int| tab_sheet_row(i, tabs[i]))),
        charts: Seq::empty(),
        autofilter: if tabs.len() > 0 { Some((0, 0, tabs.len() as u32, 4)) } else { None },
    }
}

fn push_tab_row(cells: &mut Vec<Cell>, row: u32, t: &IncludedTab)
    ensures
        cell_views(final(cells)@) == cell_views(old(cells)@) + seq![
            text_cell(row, 0, t@.browser, CellStyle::Text),
            text_cell(row, 1, t@.title, CellStyle::Text),
            url_cell(row, t@.url),
            text_cell(row, 3, duration_text(t@.seconds), CellStyle::Text),
            CellView { row: row, col: 4, value: CellValueView::Hours(t@.seconds), style: Some(CellStyle::Number) },
        ],
{
    let ghost base = cell_views(cells@);
    push_cell(cells, row, 0, CellValue::Text(t.browser.clone()), Some(CellStyle::Text));
    push_cell(cells, row, 1, CellValue::Text(t.title.clone()), Some(CellStyle::Text));
    proof {
        reveal_strlit("");
        assert(""@ =~= Seq::<char>::empty());
    }
    match &t.url {
        Some(u) => {
            if !blank(u.as_str()) {
                push_cell(cells, row, 2, CellValue::Link(u.clone()), None);
            } else {
                push_cell(cells, row, 2, CellValue::Text(owned("")), Some(CellStyle::Text));
            }
        },
        None => {
            push_cell(cells, row, 2, CellValue::Text(owned("")), Some(CellStyle::Text));
        },
    }
    assert(cell_views(cells@).last() == url_cell(row, t@.url));
    push_cell(cells, row, 3, CellValue::Text(format_duration(t.seconds)), Some(CellStyle::Text));
    push_cell(cells, row, 4, CellValue::Hours(t.seconds), Some(CellStyle::Number));
    assert(cell_views(cells@) =~= base + seq![
        text_cell(row, 0, t@.browser, CellStyle::Text),
        text_cell(row, 1, t@.title, CellStyle::Text),
        url_cell(row, t@.url),
        text_cell(row, 3, duration_text(t@.seconds), CellStyle::Text),
        CellView { row: row, col: 4, value: CellValueView::Hours(t@.seconds), style: Some(CellStyle::Number) },
    ]);
}

fn push_session_row(cells: &mut Vec<Cell>, row: u32, s: &crate::models::SessionRecord)
    ensures
        cell_views(final(cells)@) == cell_views(old(cells)@) + seq![
            text_cell(row, 0, s@.started_at, CellStyle::Text),
            text_cell(row, 1, match s@.stopped_at { Some(t) => t, None => Seq::empty() }, CellStyle::Text),
            text_cell(row, 2, duration_text(s@.duration_seconds), CellStyle::Text),
            CellView { row: row, col: 3, value: CellValueView::Hours(s@.duration_seconds), style: Some(CellStyle::Number) },
            CellView { row: row, col: 4, value: CellValueView::Count(s@.app_count as u64), style: Some(CellStyle::Number) },
            CellView { row: row, col: 5, value: CellValueView::Count(s@.browser_count as u64), style: Some(CellStyle::Number) },
        ],
{
    let ghost base = cell_views(cells@);
    proof {
        reveal_strlit("");
        assert(""@ =~= Seq::<char>::empty());
    }
    push_cell(cells, row, 0, CellValue::Text(s.started_at.clone()), Some(CellStyle::Text));
    let stopped = match &s.stopped_at {
        Some(t) => t.clone(),
        None => owned(""),
    };
    push_cell(cells, row, 1, CellValue::Text(stopped), Some(CellStyle::Text));
    push_cell(cells, row, 2, CellValue::Text(format_duration(s.duration_seconds)), Some(CellStyle::Text));
    push_cell(cells, row, 3, CellValue::Hours(s.duration_seconds), Some(CellStyle::Number));
    push_cell(cells, row, 4, CellValue::Count(s.app_count as u64), Some(CellStyle::Number));
    push_cell(cells, row, 5, CellValue::Count(s.browser_count as u64), Some(CellStyle::Number));
    assert(cell_views(cells@) =~= base + seq![
        text_cell(row, 0, s@.started_at, CellStyle::Text),
        text_cell(row, 1, match s@.stopped_at { Some(t) => t, None => Seq::empty() }, CellStyle::Text),
        text_cell(row, 2, duration_text(s@.duration_seconds), CellStyle::Text),
        CellView { row: row, col: 3, value: CellValueView::Hours(s@.duration_seconds), style: Some(CellStyle::Number) },
        CellView { row: row, col: 4, value: CellValueView::Count(s@.app_count as u64), style: Some(CellStyle::Number) },
        CellView { row: row, col: 5, value: CellValueView::Count(s@.browser_count as u64), style: Some(CellStyle::Number) },
    ]);
}

/// The sheet of sites (see `tabs_sheet_view`).
pub fn tabs_sheet(tabs: &Vec<IncludedTab>) -> (res: SheetPlan)
    ensures
        res@ == tabs_sheet_view(included_tab_views(tabs@)),
{
    let ghost tv = included_tab_views(tabs@);
    let mut widths: Vec<(u16, u16)> = Vec::new();
    widths.push((0, 22));
    widths.push((1, 42));
    widths.push((2, 48));
    widths.push((3, 12));
    widths.push((4, 12));
    let mut cells: Vec<Cell> = Vec::new();
    let h: Vec<&str> = vec!["Браузер", "Вкладка", "URL", "Длительность", "Часы"];
    assert(h@.map_values(|s: &str| s@) =~= seq!["Браузер"@, "Вкладка"@, "URL"@, "Длительность"@, "Часы"@]);
    push_header(&mut cells, 0, 0, &h);
    let ghost lead = cell_views(cells@);
    let ghost rows = Seq::new(tv.len(), |i: int| tab_sheet_row(i, tv[i]));
    let mut i: usize = 0;
    while i < tabs.len()
        invariant
            i <= tabs.len(),
            tv == included_tab_views(tabs@),
            rows == Seq::new(tv.len(), |i: int| tab_sheet_row(i, tv[i])),
            cell_views(cells@) == lead + flatten(rows.take(i as int)),
        decreases tabs.len() - i,
    {
        let t = &tabs[i];
        let row: u32 = (i + 1) as u32;
        assert(tv[i as int] == t@);
        assert(rows.take(i + 1).drop_last() =~= rows.take(i as int));
        push_tab_row(&mut cells, row, t);
        assert(cell_views(cells@) =~= lead + flatten(rows.take(i + 1)));
        i = i + 1;
    }
    assert(rows.take(i as int) =~= rows);
    let res = SheetPlan {
        name: owned("BrowserTabs"),
        tab_color: None,
        widths: widths,
        hidden: Vec::new(),
        merges: Vec::new(),
        cells: cells,
        charts: Vec::new(),
        autofilter: if tabs.len() > 0 { Some((0, 0, tabs.len() as u32, 4)) } else { None },
    };
    assert(res@.widths =~= seq![(0u16, 22u16), (1, 42), (2, 48), (3, 12), (4, 12)]);
    assert(res@.hidden =~= Seq::<u16>::empty());
    assert(res@.merges =~= Seq::<MergeView>::empty());
    assert(res@.charts =~= Seq::<ChartView>::empty());
    res
}

pub open spec fn session_sheet_row(i: int, s: SessionView) -> Seq<CellView> {
    let row = (i + 1) as u32;
    seq![
        text_cell(row, 0, s.started_at, CellStyle::Text),
        text_cell(row, 1, match s.stopped_at { Some(t) => t, None => Seq::empty() }, CellStyle::Text),
        text_cell(row, 2, duration_text(s.duration_seconds), CellStyle::Text),
        CellView { row: row, col: 3, value: CellValueView::Hours(s.duration_seconds), style: Some(CellStyle::Number) },
        CellView { row: row, col: 4, value: CellValueView::Count(s.app_count as u64), style: Some(CellStyle::Number) },
        CellView { row: row, col: 5, value: CellValueView::Count(s.browser_count as u64), style: Some(CellStyle::Number) },
    ]
}

/// The sheet of sessions: a header, then a row per session (start, stop, time, hours,
/// application and browser counts), with a filter over them when there is any.
pub open spec fn sessions_sheet_view(sessions: Seq<SessionView>) -> SheetView {
    SheetView {
        name: "Sessions"@,
        tab_color: None,
        widths: seq![(0u16, 28u16), (1, 28), (2, 14), (3, 14), (4, 14), (5, 14)],
        hidden: Seq::empty(),
        merges: Seq::empty(),
        cells: header_row(0, 0, seq!["Начало"@, "Окончание"@, "Длительность"@, "Часы"@, "Приложения"@, "Браузер"@])
            + flatten(Seq::new(sessions.len(), |i: int| session_sheet_row(i, sessions[i]))),
        charts: Seq::empty(),
        autofilter: if sessions.len() > 0 { Some((0, 0, sessions.len() as u32, 5)) } else { None },
    }
}

/// The sheet of the project's sessions (see `sessions_sheet_view`).
pub fn sessions_sheet(project: &ProjectRecord) -> (res: SheetPlan)
    ensures
        res@ == sessions_sheet_view(project@.sessions),
{
    let ghost sv = project@.sessions;
    let mut widths: Vec<(u16, u16)> = Vec::new();
    widths.push((0, 28));
    widths.push((1, 28));
    widths.push((2, 14));
    widths.push((3, 14));
    widths.push((4, 14));
    widths.push((5, 14));
    let mut cells: Vec<Cell> = Vec::new();
    let h: Vec<&str> = vec!["Начало", "Окончание", "Длительность", "Часы", "Приложения", "Браузер"];
    assert(h@.map_values(|s: &str| s@) =~= seq!["Начало"@, "Окончание"@, "Длительность"@, "Часы"@, "Приложения"@, "Браузер"@]);
    push_header(&mut cells, 0, 0, &h);
    let ghost lead = cell_views(cells@);
    let ghost rows = Seq::new(sv.len(), |i: int| session_sheet_row(i, sv[i]));
    let mut i: usize = 0;
    while i < project.sessions.len()
        invariant
            i <= project.sessions.len(),
            sv == project@.sessions,
            sv.len() == project.sessions.len(),
            rows == Seq::new(sv.len(), |i: int| session_sheet_row(i, sv[i])),
            cell_views(cells@) == lead + flatten(rows.take(i as int)),
        decreases project.sessions.len() - i,
    {
        let s = &project.sessions[i];
        let row: u32 = (i + 1) as u32;
        assert(sv[i as int] == s@);
        assert(rows.take(i + 1).drop_last() =~= rows.take(i as int));
        push_session_row(&mut cells, row, s);
        assert(cell_views(cells@) =~= lead + flatten(rows.take(i + 1)));
        i = i + 1;
    }
    assert(rows.take(i as int) =~= rows);
    let res = SheetPlan {
        name: owned("Sessions"),
        tab_color: None,
        widths: widths,
        hidden: Vec::new(),
        merges: Vec::new(),
        cells: cells,
        charts: Vec::new(),
        autofilter: if project.sessions.len() > 0 { Some((0, 0, project.sessions.len() as u32, 5)) } else { None },
    };
    assert(res@.widths =~= seq![(0u16, 28u16), (1, 28), (2, 14), (3, 14), (4, 14), (5, 14)]);
    assert(res@.hidden =~= Seq::<u16>::empty());
    assert(res@.merges =~= Seq::<MergeView>::empty());
    assert(res@.charts =~= Seq::<ChartView>::empty());
    res
}

// ---------------------------------------------------------------- the workbook

/// The sheets of the spreadsheet report, in order: the report, the applications, the
/// sites and the sessions, over the included applications and sites (site times as
/// the sites hold them).
pub open spec fn workbook_view(p: ProjectView) -> Seq<SheetView> {
    let apps = report_apps(p.apps, TimeBasis::SiteTimes);
    let tabs = report_tabs(p.apps, TimeBasis::SiteTimes);
    seq![
        report_sheet_view(p, apps, tabs, apps_total(p.apps, TimeBasis::SiteTimes) as u64),
        apps_sheet_view(apps),
        tabs_sheet_view(tabs),
        sessions_sheet_view(p.sessions),
    ]
}

pub open spec fn sheet_views(s: Seq<SheetPlan>) -> Seq<SheetView> {
    s.map_values(|x: SheetPlan| x@)
}

/// The plan of the spreadsheet report of a project (see `workbook_view`).
pub fn workbook_plan(project: &ProjectRecord) -> (res: Vec<SheetPlan>)
    requires
        report_fits(project@.apps, TimeBasis::SiteTimes),
    ensures
        sheet_views(res@) == workbook_view(project@),
{
    let apps = included_apps(project, TimeBasis::SiteTimes);
    let tabs = included_tabs(project, TimeBasis::SiteTimes);
    proof {
        law_listed_total(project@.apps, TimeBasis::SiteTimes);
    }
    let total = included_total(&apps);
    let mut out: Vec<SheetPlan> = Vec::new();
    out.push(report_sheet(project, &apps, &tabs, total));
    out.push(apps_sheet(&apps));
    out.push(tabs_sheet(&tabs));
    out.push(sessions_sheet(project));
    assert(sheet_views(out@) =~= workbook_view(project@));
    out
}

} // verus!
