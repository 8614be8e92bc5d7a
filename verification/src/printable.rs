//! The printable report as one HTML document: the overview, the applications, the
//! sites, the sessions and, when stages were recorded, the stages and their timeline.
use vstd::prelude::*;
use crate::format::append;
use crate::html::{
    app_pages, app_pages_html, concat, overview_body, overview_page, page_html, session_pages,
    session_pages_html, string_views, tab_pages, tab_pages_html,
};
use crate::models::{ProjectRecord, ProjectView};
use crate::report::{included_app_views, included_tab_views, IncludedApp, IncludedAppView, IncludedTab, IncludedTabView};
use crate::stages::{included_stage_views, stage_pages, stage_pages_html, IncludedStage, IncludedStageView};
use crate::text::string_of;

verus! {

/// The document's head: the page layout and styles, up to the opening of the body.
pub fn report_head() -> (res: &'static str)
    ensures
        res@ == report_head_text(),
{
    r#"<!DOCTYPE html>
<html>
<head>
  <meta charset="utf-8" />
  <style>
    body {
      margin: 0;
      padding: 0;
      background: #f4faf6;
      color: #0f172a;
      font-family: ReportFont, Arial, sans-serif;
      font-size: 10.5px;
    }
    .page {
      width: 210mm;
      height: 297mm;
      box-sizing: border-box;
      padding: 13mm 12mm;
      page-break-after: always;
      overflow: hidden;
      background: #f8fbf8;
    }
    .page-title {
      margin: 0 0 12px;
      padding: 11px 16px;
      border-radius: 18px 18px 18px 5px;
      background: #059669;
      color: #ffffff;
      text-align: center;
      font-size: 18px;
      line-height: 1.15;
      font-weight: 800;
    }
    .hero {
      margin-bottom: 12px;
      padding: 18px 20px;
      border-radius: 24px;
      background: linear-gradient(135deg, #047857 0%, #10b981 58%, #a7f3d0 100%);
      color: #ffffff;
    }
    .eyebrow {
      display: inline-block;
      padding: 5px 10px;
      border-radius: 999px;
      background: rgba(255,255,255,0.22);
      font-size: 9px;
      font-weight: 800;
      letter-spacing: 0.9px;
      text-transform: uppercase;
    }
    h1 {
      margin: 11px 0 6px;
      font-size: 27px;
      line-height: 1.12;
    }
    .muted { color: #64748b; }
    .metrics {
      display: grid;
      grid-template-columns: repeat(4, 1fr);
      gap: 8px;
      margin-bottom: 12px;
    }
    .metric {
      min-height: 55px;
      padding: 10px;
      border: 1px solid #d1fae5;
      border-radius: 16px;
      background: #ffffff;
    }
    .metric span {
      display: block;
      color: #64748b;
      font-size: 8.5px;
      font-weight: 800;
      letter-spacing: 0.65px;
      text-transform: uppercase;
    }
    .metric strong {
      display: block;
      margin-top: 7px;
      color: #064e3b;
      font-size: 13.5px;
      line-height: 1.15;
    }
    .panel {
      margin-top: 10px;
      padding: 12px;
      border: 1px solid #d1fae5;
      border-radius: 20px;
      background: #ffffff;
    }
    .panel h2 {
      margin: 0 0 9px;
      color: #065f46;
      font-size: 13px;
    }
    .info-grid {
      display: grid;
      grid-template-columns: repeat(2, 1fr);
      gap: 7px;
    }
    .info {
      padding: 8px 10px;
      border-radius: 13px;
      background: #f8fafc;
    }
    .info span {
      display: block;
      color: #64748b;
      font-size: 9px;
    }
    .info strong {
      display: block;
      margin-top: 4px;
      color: #0f172a;
      font-size: 11px;
    }
    .bar-row {
      display: grid;
      grid-template-columns: 118px 1fr 62px;
      gap: 8px;
      align-items: center;
      margin-top: 8px;
      font-size: 9.5px;
    }
    .bar-label {
      overflow: hidden;
      white-space: nowrap;
      text-overflow: ellipsis;
      color: #0f172a;
      font-weight: 700;
    }
    .bar-track {
      height: 9px;
      border-radius: 999px;
      background: #ecfdf5;
      overflow: hidden;
    }
    .bar-fill {
      height: 9px;
      background: linear-gradient(90deg, #10b981, #84cc16);
    }
    table {
      width: 100%;
      border-collapse: collapse;
      table-layout: fixed;
      font-size: 9.5px;
    }
    th {
      padding: 7px 8px;
      background: #d1fae5;
      color: #064e3b;
      border: 1px solid #bbf7d0;
      text-align: left;
      font-weight: 800;
    }
    td {
      padding: 7px 8px;
      border: 1px solid #e2e8f0;
      background: #ffffff;
      vertical-align: top;
    }
    .truncate {
      overflow: hidden;
      white-space: nowrap;
      text-overflow: ellipsis;
    }
    .pill {
      display: inline-block;
      padding: 3px 7px;
      border-radius: 999px;
      background: #ecfdf5;
      color: #047857;
      font-weight: 800;
    }
    .empty {
      margin: 0;
      padding: 14px;
      border: 1px dashed #cbd5e1;
      border-radius: 16px;
      background: #f8fafc;
      color: #64748b;
    }
        .timeline-meta {
            margin: 0 0 10px;
            color: #475569;
            font-size: 9.5px;
        }
        .timeline-axis {
            position: relative;
            height: 24px;
            margin-bottom: 8px;
            border-bottom: 1px solid #cbd5e1;
        }
        .timeline-axis span {
            position: absolute;
            top: 0;
            transform: translateX(-50%);
            color: #64748b;
            font-size: 8px;
            white-space: nowrap;
        }
        .timeline-axis span:first-child {
            transform: none;
        }
        .timeline-axis span:last-child {
            transform: translateX(-100%);
        }
        .timeline-row {
            display: grid;
            grid-template-columns: 124px 1fr;
            gap: 10px;
            align-items: center;
            margin-bottom: 10px;
        }
        .timeline-name {
            font-size: 9px;
            font-weight: 700;
            color: #0f172a;
        }
        .timeline-summary {
            display: block;
            margin-top: 2px;
            color: #64748b;
            font-size: 8px;
            font-weight: 400;
        }
        .timeline-track {
            position: relative;
            height: 24px;
            border-radius: 999px;
            background: #ecfdf5;
            overflow: hidden;
            border: 1px solid #d1fae5;
        }
        .timeline-block {
            position: absolute;
            top: 3px;
            bottom: 3px;
            border-radius: 999px;
            background: linear-gradient(90deg, #059669 0%, #10b981 100%);
        }
  </style>
</head>
<body>"#
}

/// The document's head as text.
pub open spec fn report_head_text() -> Seq<char> {
    r#"<!DOCTYPE html>
<html>
<head>
  <meta charset="utf-8" />
  <style>
    body {
      margin: 0;
      padding: 0;
      background: #f4faf6;
      color: #0f172a;
      font-family: ReportFont, Arial, sans-serif;
      font-size: 10.5px;
    }
    .page {
      width: 210mm;
      height: 297mm;
      box-sizing: border-box;
      padding: 13mm 12mm;
      page-break-after: always;
      overflow: hidden;
      background: #f8fbf8;
    }
    .page-title {
      margin: 0 0 12px;
      padding: 11px 16px;
      border-radius: 18px 18px 18px 5px;
      background: #059669;
      color: #ffffff;
      text-align: center;
      font-size: 18px;
      line-height: 1.15;
      font-weight: 800;
    }
    .hero {
      margin-bottom: 12px;
      padding: 18px 20px;
      border-radius: 24px;
      background: linear-gradient(135deg, #047857 0%, #10b981 58%, #a7f3d0 100%);
      color: #ffffff;
    }
    .eyebrow {
      display: inline-block;
      padding: 5px 10px;
      border-radius: 999px;
      background: rgba(255,255,255,0.22);
      font-size: 9px;
      font-weight: 800;
      letter-spacing: 0.9px;
      text-transform: uppercase;
    }
    h1 {
      margin: 11px 0 6px;
      font-size: 27px;
      line-height: 1.12;
    }
    .muted { color: #64748b; }
    .metrics {
      display: grid;
      grid-template-columns: repeat(4, 1fr);
      gap: 8px;
      margin-bottom: 12px;
    }
    .metric {
      min-height: 55px;
      padding: 10px;
      border: 1px solid #d1fae5;
      border-radius: 16px;
      background: #ffffff;
    }
    .metric span {
      display: block;
      color: #64748b;
      font-size: 8.5px;
      font-weight: 800;
      letter-spacing: 0.65px;
      text-transform: uppercase;
    }
    .metric strong {
      display: block;
      margin-top: 7px;
      color: #064e3b;
      font-size: 13.5px;
      line-height: 1.15;
    }
    .panel {
      margin-top: 10px;
      padding: 12px;
      border: 1px solid #d1fae5;
      border-radius: 20px;
      background: #ffffff;
    }
    .panel h2 {
      margin: 0 0 9px;
      color: #065f46;
      font-size: 13px;
    }
    .info-grid {
      display: grid;
      grid-template-columns: repeat(2, 1fr);
      gap: 7px;
    }
    .info {
      padding: 8px 10px;
      border-radius: 13px;
      background: #f8fafc;
    }
    .info span {
      display: block;
      color: #64748b;
      font-size: 9px;
    }
    .info strong {
      display: block;
      margin-top: 4px;
      color: #0f172a;
      font-size: 11px;
    }
    .bar-row {
      display: grid;
      grid-template-columns: 118px 1fr 62px;
      gap: 8px;
      align-items: center;
      margin-top: 8px;
      font-size: 9.5px;
    }
    .bar-label {
      overflow: hidden;
      white-space: nowrap;
      text-overflow: ellipsis;
      color: #0f172a;
      font-weight: 700;
    }
    .bar-track {
      height: 9px;
      border-radius: 999px;
      background: #ecfdf5;
      overflow: hidden;
    }
    .bar-fill {
      height: 9px;
      background: linear-gradient(90deg, #10b981, #84cc16);
    }
    table {
      width: 100%;
      border-collapse: collapse;
      table-layout: fixed;
      font-size: 9.5px;
    }
    th {
      padding: 7px 8px;
      background: #d1fae5;
      color: #064e3b;
      border: 1px solid #bbf7d0;
      text-align: left;
      font-weight: 800;
    }
    td {
      padding: 7px 8px;
      border: 1px solid #e2e8f0;
      background: #ffffff;
      vertical-align: top;
    }
    .truncate {
      overflow: hidden;
      white-space: nowrap;
      text-overflow: ellipsis;
    }
    .pill {
      display: inline-block;
      padding: 3px 7px;
      border-radius: 999px;
      background: #ecfdf5;
      color: #047857;
      font-weight: 800;
    }
    .empty {
      margin: 0;
      padding: 14px;
      border: 1px dashed #cbd5e1;
      border-radius: 16px;
      background: #f8fafc;
      color: #64748b;
    }
        .timeline-meta {
            margin: 0 0 10px;
            color: #475569;
            font-size: 9.5px;
        }
        .timeline-axis {
            position: relative;
            height: 24px;
            margin-bottom: 8px;
            border-bottom: 1px solid #cbd5e1;
        }
        .timeline-axis span {
            position: absolute;
            top: 0;
            transform: translateX(-50%);
            color: #64748b;
            font-size: 8px;
            white-space: nowrap;
        }
        .timeline-axis span:first-child {
            transform: none;
        }
        .timeline-axis span:last-child {
            transform: translateX(-100%);
        }
        .timeline-row {
            display: grid;
            grid-template-columns: 124px 1fr;
            gap: 10px;
            align-items: center;
            margin-bottom: 10px;
        }
        .timeline-name {
            font-size: 9px;
            font-weight: 700;
            color: #0f172a;
        }
        .timeline-summary {
            display: block;
            margin-top: 2px;
            color: #64748b;
            font-size: 8px;
            font-weight: 400;
        }
        .timeline-track {
            position: relative;
            height: 24px;
            border-radius: 999px;
            background: #ecfdf5;
            overflow: hidden;
            border: 1px solid #d1fae5;
        }
        .timeline-block {
            position: absolute;
            top: 3px;
            bottom: 3px;
            border-radius: 999px;
            background: linear-gradient(90deg, #059669 0%, #10b981 100%);
        }
  </style>
</head>
<body>"#@
}

/// The pages of the report, in order: the overview, the applications, the sites, the
/// sessions, then, when stages were recorded, the stages and the timeline pages.
pub open spec fn report_pages(
    project: ProjectView,
    apps: Seq<IncludedAppView>,
    tabs: Seq<IncludedTabView>,
    stages: Seq<IncludedStageView>,
    total: u64,
    app_percents: Seq<Seq<char>>,
    tab_percents: Seq<Seq<char>>,
    timeline: Seq<Seq<char>>,
) -> Seq<Seq<char>> {
    seq![page_html("Отчет по проекту"@, overview_body(project, apps, tabs, total))]
        + app_pages_html(apps, app_percents)
        + tab_pages_html(tabs, tab_percents)
        + session_pages_html(project.sessions)
        + if stages.len() > 0 { stage_pages_html(stages) + timeline } else { Seq::empty() }
}

fn push_all(out: &mut Vec<String>, more: Vec<String>)
    ensures
        string_views(final(out)@) == string_views(old(out)@) + string_views(more@),
{
    let mut more = more;
    let ghost start = string_views(out@);
    let ghost m = string_views(more@);
    let ghost mut k: int = 0;
    while more.len() > 0
        invariant
            0 <= k <= m.len(),
            string_views(more@) == m.skip(k),
            string_views(out@) == start + m.take(k),
        decreases more.len(),
    {
        let ghost rest = string_views(more@);
        let s = more.remove(0);
        proof {
            assert(s@ == rest[0]);
            assert(rest.len() == m.len() - k);
            assert(m.skip(k)[0] == m[k]);
            assert(rest[0] == m[k]);
            assert(string_views(more@) =~= rest.drop_first());
            assert(m.skip(k + 1) =~= m.skip(k).drop_first());
        }
        let ghost before = string_views(out@);
        out.push(s);
        proof {
            assert(string_views(out@) =~= before.push(m[k]));
            assert(m.take(k + 1) =~= m.take(k).push(m[k]));
            k = k + 1;
        }
    }
    assert(m.take(k) =~= m);
}

/// The whole printable report (see `report_pages`): the head, the pages one after the
/// other, and the end of the document. `app_percents` and `tab_percents` hold each
/// application's and site's share of the total, and `timeline` the timeline pages.
pub fn build_report_html(
    project: &ProjectRecord,
    apps: &Vec<IncludedApp>,
    tabs: &Vec<IncludedTab>,
    stages: &Vec<IncludedStage>,
    total_seconds: u64,
    app_percents: &Vec<String>,
    tab_percents: &Vec<String>,
    timeline: Vec<String>,
) -> (res: String)
    requires
        app_percents.len() == apps.len(),
        tab_percents.len() == tabs.len(),
    ensures
        res@ == report_head_text() + concat(report_pages(
            project@,
            included_app_views(apps@),
            included_tab_views(tabs@),
            included_stage_views(stages@),
            total_seconds,
            string_views(app_percents@),
            string_views(tab_percents@),
            string_views(timeline@),
        )) + "</body>\n</html>"@,
{
    let ghost tl = string_views(timeline@);
    let mut pages: Vec<String> = Vec::new();
    pages.push(overview_page(project, apps, tabs, total_seconds));
    push_all(&mut pages, app_pages(apps, app_percents));
    push_all(&mut pages, tab_pages(tabs, tab_percents));
    push_all(&mut pages, session_pages(project));
    if stages.len() > 0 {
        push_all(&mut pages, stage_pages(stages));
        push_all(&mut pages, timeline);
    }
    let ghost pv = string_views(pages@);
    assert(pv =~= report_pages(
        project@,
        included_app_views(apps@),
        included_tab_views(tabs@),
        included_stage_views(stages@),
        total_seconds,
        string_views(app_percents@),
        string_views(tab_percents@),
        tl,
    ));
    let mut v: Vec<char> = Vec::new();
    append(&mut v, report_head());
    let ghost lead = v@;
    let mut k: usize = 0;
    while k < pages.len()
        invariant
            k <= pages.len(),
            pv == string_views(pages@),
            v@ == lead + concat(pv.take(k as int)),
        decreases pages.len() - k,
    {
        assert(pv.take(k + 1).drop_last() =~= pv.take(k as int));
        append(&mut v, pages[k].as_str());
        assert(v@ =~= lead + concat(pv.take(k + 1)));
        k = k + 1;
    }
    assert(pv.take(k as int) =~= pv);
    append(&mut v, "</body>\n</html>");
    string_of(v.as_slice())
}

} // verus!
