//! Where a project's files are kept: a folder named after the project, holding the
//! project file and its reports.
use vstd::prelude::*;
use crate::models::ProjectRecord;
use crate::names::{file_stem, law_sanitized_is_safe, path_safe, project_file_stem, sanitized};
use crate::text::{chars_of, owned, string_of};

verus! {

/// The files of the application's data.
#[derive(Debug)]
pub struct StoragePaths {
    pub projects_dir: String,
    pub workspace_file: String,
    pub db_file: String,
}

/// Whether `res` is `part` joined to `base`, with the platform's separator between
/// them where `base` does not already end with one.
pub open spec fn joined_as(base: Seq<char>, part: Seq<char>, res: Seq<char>) -> bool {
    ||| res == base + part
    ||| res == base + seq!['/'] + part
    ||| res == base + seq!['\\'] + part
}

/// Whether a path begins with a verbatim prefix (`\\?\`, either separator accepted).
/// Joining onto such a path rebuilds it from its components on Windows, which drops
/// empty components and resolves `.` and `..`.
pub open spec fn verbatim(p: Seq<char>) -> bool {
    &&& p.len() >= 4
    &&& (p[0] == '/' || p[0] == '\\')
    &&& (p[1] == '/' || p[1] == '\\')
    &&& p[2] == '?'
    &&& (p[3] == '/' || p[3] == '\\')
}

/// `std::path::Path::join` with a relative part, as a string: `part` added to `base`,
/// after a separator where one is needed. Which separator (`/` or `\`) is the
/// platform's, so the contract allows either; a part with no separator and no `:` is
/// relative on every platform and never replaces `base`. Where `base` has a verbatim
/// prefix, Windows normalizes the whole path while joining; the contract says nothing
/// of the result then.
#[verifier::external_body]
fn join_path(base: &str, part: &str) -> (res: String)
    requires
        path_safe(part@),
    ensures
        !verbatim(base@) ==> joined_as(base@, part@, res@),
{
    std::path::Path::new(base).join(part).to_string_lossy().into_owned()
}

/// The folder of a project: its file name under the projects folder.
pub fn project_dir(paths: &StoragePaths, project: &ProjectRecord) -> (res: String)
    ensures
        !verbatim(paths.projects_dir@) ==> joined_as(paths.projects_dir@, sanitized(project.name@), res@),
{
    proof {
        law_sanitized_is_safe(project.name@);
    }
    let stem = project_file_stem(project);
    join_path(paths.projects_dir.as_str(), stem.as_str())
}

/// The project file: `project.json` in the project's folder.
pub fn project_path(paths: &StoragePaths, project: &ProjectRecord) -> (res: String)
    ensures
        !verbatim(paths.projects_dir@) ==> exists|dir: Seq<char>|
            #[trigger] joined_as(paths.projects_dir@, sanitized(project.name@), dir) && (!verbatim(dir)
                ==> joined_as(dir, "project.json"@, res@)),
{
    let dir = project_dir(paths, project);
    let name = owned("project.json");
    proof {
        reveal_strlit("project.json");
        assert forall|i: int| 0 <= i < name@.len() implies !crate::names::is_forbidden(#[trigger] name@[i]) by {}
    }
    let res = join_path(dir.as_str(), name.as_str());
    proof {
        if !verbatim(paths.projects_dir@) {
            assert(joined_as(paths.projects_dir@, sanitized(project.name@), dir@));
        }
    }
    res
}

/// The file name of a report: the project's file name and the extension.
pub fn report_file_name(project: &ProjectRecord, extension: &str) -> (res: String)
    requires
        path_safe(extension@),
    ensures
        res@ == sanitized(project.name@) + seq!['.'] + extension@,
        path_safe(res@),
{
    proof {
        law_sanitized_is_safe(project.name@);
    }
    let stem = project_file_stem(project);
    let mut v = chars_of(stem.as_str());
    v.push('.');
    let ext = chars_of(extension);
    let mut k: usize = 0;
    let ghost base = v@;
    while k < ext.len()
        invariant
            k <= ext.len(),
            v@ == base + ext@.take(k as int),
        decreases ext.len() - k,
    {
        v.push(ext[k]);
        assert(ext@.take(k + 1) =~= ext@.take(k as int).push(ext@[k as int]));
        k = k + 1;
    }
    assert(ext@.take(k as int) =~= ext@);
    let name = string_of(v.as_slice());
    proof {
        assert(name@ =~= sanitized(project.name@) + seq!['.'] + extension@);
        let r = name@;
        assert forall|i: int| 0 <= i < r.len() implies !crate::names::is_forbidden(#[trigger] r[i]) by {
            let a = sanitized(project.name@);
            if i < a.len() {
                assert(r[i] == a[i]);
            } else if i == a.len() {
                assert(r[i] == '.');
            } else {
                assert(r[i] == extension@[i - a.len() - 1]);
            }
        }
    }
    name
}

/// The spreadsheet report: `<file name>.xlsx` in the project's folder.
pub fn project_report_path(paths: &StoragePaths, project: &ProjectRecord) -> (res: String)
    ensures
        !verbatim(paths.projects_dir@) ==> exists|dir: Seq<char>|
            #[trigger] joined_as(paths.projects_dir@, sanitized(project.name@), dir) && (!verbatim(dir)
                ==> joined_as(dir, sanitized(project.name@) + seq!['.'] + "xlsx"@, res@)),
{
    let dir = project_dir(paths, project);
    let ext = owned("xlsx");
    proof {
        reveal_strlit("xlsx");
        assert forall|i: int| 0 <= i < ext@.len() implies !crate::names::is_forbidden(#[trigger] ext@[i]) by {}
    }
    let name = report_file_name(project, ext.as_str());
    let res = join_path(dir.as_str(), name.as_str());
    proof {
        if !verbatim(paths.projects_dir@) {
            assert(joined_as(paths.projects_dir@, sanitized(project.name@), dir@));
        }
    }
    res
}

/// The printable report: `<file name>.pdf` in the project's folder.
pub fn project_report_pdf_path(paths: &StoragePaths, project: &ProjectRecord) -> (res: String)
    ensures
        !verbatim(paths.projects_dir@) ==> exists|dir: Seq<char>|
            #[trigger] joined_as(paths.projects_dir@, sanitized(project.name@), dir) && (!verbatim(dir)
                ==> joined_as(dir, sanitized(project.name@) + seq!['.'] + "pdf"@, res@)),
{
    let dir = project_dir(paths, project);
    let ext = owned("pdf");
    proof {
        reveal_strlit("pdf");
        assert forall|i: int| 0 <= i < ext@.len() implies !crate::names::is_forbidden(#[trigger] ext@[i]) by {}
    }
    let name = report_file_name(project, ext.as_str());
    let res = join_path(dir.as_str(), name.as_str());
    proof {
        if !verbatim(paths.projects_dir@) {
            assert(joined_as(paths.projects_dir@, sanitized(project.name@), dir@));
        }
    }
    res
}

} // verus!
