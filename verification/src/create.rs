//! Creating projects, stages and categories. New records get a random id (UUID v4);
//! names are trimmed and must not be blank.
use vstd::prelude::*;
use crate::edits::{require_name, required_name};
use crate::models::{
    app_views, category_views, session_views, stage_views, strings_view, stage_app_views,
    Category, CategoryView, ProjectRecord, ProjectStageRecord, ProjectView, StageView,
};
use crate::normalize::{normalize_project_structure, normalized};
use crate::text::{blank, is_blank, owned, trim};

verus! {

/// A lower-case hexadecimal digit.
pub open spec fn is_hex_digit(c: char) -> bool {
    ('0' <= c && c <= '9') || ('a' <= c && c <= 'f')
}

/// The hyphenated lower-case form of a UUID: 36 characters, hyphens at places 8, 13, 18
/// and 23, hexadecimal digits elsewhere.
pub open spec fn uuid_text(s: Seq<char>) -> bool {
    &&& s.len() == 36
    &&& forall|i: int|
        0 <= i < 36 ==> if i == 8 || i == 13 || i == 18 || i == 23 {
            #[trigger] s[i] == '-'
        } else {
            is_hex_digit(s[i])
        }
}

/// A random id (`uuid::Uuid::new_v4().to_string()`): the hyphenated lower-case form of
/// a UUID. Which id comes out is chance.
#[verifier::external_body]
pub(crate) fn new_id() -> (res: String)
    ensures
        uuid_text(res@),
{
    uuid::Uuid::new_v4().to_string()
}

/// A new, empty project.
pub open spec fn fresh_project(id: Seq<char>, name: Seq<char>, now: Seq<char>) -> ProjectView {
    ProjectView {
        id: id,
        name: trim(name),
        client: Seq::empty(),
        note: Seq::empty(),
        created_at: now,
        updated_at: now,
        sessions: Seq::empty(),
        apps: Seq::empty(),
        selected_stage_ids: Seq::empty(),
        stages: Seq::empty(),
        category_id: None,
        color: None,
    }
}

/// A new, empty project with the given id and trimmed name, created at `now`.
pub fn new_project(id: &str, name: &str, now: &str) -> (res: ProjectRecord)
    ensures
        res@ == normalized(fresh_project(id@, name@, now@)),
{
    let mut project = ProjectRecord {
        id: owned(id),
        name: crate::text::trim_str(name),
        client: String::new(),
        note: String::new(),
        created_at: owned(now),
        updated_at: owned(now),
        sessions: Vec::new(),
        apps: Vec::new(),
        selected_stage_ids: Vec::new(),
        stages: Vec::new(),
        category_id: None,
        color: None,
    };
    assert(project@ =~= fresh_project(id@, name@, now@));
    normalize_project_structure(&mut project);
    project
}

/// A new, empty project with a random id (see `new_project`). The client is not kept.
pub fn create_project(name: &str, _client: &str, now: &str) -> (res: ProjectRecord)
    ensures
        uuid_text(res@.id),
        res@ == normalized(fresh_project(res@.id, name@, now@)),
{
    let id = new_id();
    new_project(id.as_str(), name, now)
}

/// The project with a new stage, last in order and without any layout yet.
pub open spec fn stage_added(p: ProjectView, id: Seq<char>, name: Seq<char>, now: Seq<char>) -> ProjectView {
    ProjectView {
        stages: p.stages.push(StageView {
            id: id,
            name: trim(name),
            order: p.stages.len() as usize,
            created_at: now,
            updated_at: now,
            apps: Seq::empty(),
        }),
        updated_at: now,
        ..p
    }
}

/// Adds a stage with the given id and trimmed name; a blank name is refused.
pub fn add_stage(project: &mut ProjectRecord, id: &str, name: &str, now: &str) -> (res: Result<(), String>)
    ensures
        match res {
            Ok(()) => !is_blank(name@) && final(project)@ == normalized(stage_added(old(project)@, id@, name@, now@)),
            Err(e) => is_blank(name@) && e@ == "Название этапа не может быть пустым."@ && final(project)@ == old(project)@,
        },
{
    let trimmed = match require_name(name, "Название этапа не может быть пустым.") {
        Ok(n) => n,
        Err(e) => return Err(e),
    };
    let ghost p0 = project@;
    let order = project.stages.len();
    project.stages.push(ProjectStageRecord {
        id: owned(id),
        name: trimmed,
        order: order,
        created_at: owned(now),
        updated_at: owned(now),
        apps: Vec::new(),
    });
    project.updated_at = owned(now);
    assert(stage_app_views(project.stages@[order as int].apps@) =~= Seq::empty());
    assert(project@ =~= stage_added(p0, id@, name@, now@));
    normalize_project_structure(project);
    Ok(())
}

/// Adds a stage with a random id (see `add_stage`).
pub fn create_stage(project: &mut ProjectRecord, name: &str, now: &str) -> (res: Result<(), String>)
    ensures
        match res {
            Ok(()) => !is_blank(name@) && exists|id: Seq<char>|
                uuid_text(id) && final(project)@ == #[trigger] normalized(stage_added(old(project)@, id, name@, now@)),
            Err(e) => is_blank(name@) && e@ == "Название этапа не может быть пустым."@ && final(project)@ == old(project)@,
        },
{
    let id = new_id();
    add_stage(project, id.as_str(), name, now)
}

/// An imported project: a blank id replaced by `fresh_id`, a blank creation time by `now`,
/// and stamped at `now`.
pub open spec fn imported(p: ProjectView, fresh_id: Seq<char>, now: Seq<char>) -> ProjectView {
    ProjectView {
        id: if is_blank(p.id) { fresh_id } else { p.id },
        created_at: if is_blank(p.created_at) { now } else { p.created_at },
        updated_at: now,
        ..p
    }
}

/// Prepares a project read from an exported file for saving (see `imported`); a project
/// without an id gets a random one.
pub fn prepare_imported_project(project: &mut ProjectRecord, now: &str)
    ensures
        exists|fresh: Seq<char>|
            uuid_text(fresh) && final(project)@ == #[trigger] normalized(imported(old(project)@, fresh, now@)),
{
    let ghost p0 = project@;
    let fresh = new_id();
    if blank(project.id.as_str()) {
        project.id = owned(fresh.as_str());
    }
    if blank(project.created_at.as_str()) {
        project.created_at = owned(now);
    }
    project.updated_at = owned(now);
    assert(project@ =~= imported(p0, fresh@, now@));
    normalize_project_structure(project);
}

/// The trimmed name of a category, or the error for a blank one.
pub fn category_name(name: &str) -> (res: Result<String, String>)
    ensures
        match res {
            Ok(n) => required_name(name@, "Название категории не может быть пустым."@) == Ok::<Seq<char>, Seq<char>>(n@),
            Err(e) => required_name(name@, "Название категории не может быть пустым."@) == Err::<Seq<char>, Seq<char>>(e@),
        },
{
    require_name(name, "Название категории не может быть пустым.")
}

/// A new category with a random id and the trimmed name; a blank name is refused.
pub fn create_category(name: &str, color: &str, icon: &str, order: usize, now: &str) -> (res: Result<Category, String>)
    ensures
        match res {
            Ok(c) => !is_blank(name@) && uuid_text(c@.id) && c@ == (CategoryView {
                id: c@.id,
                name: trim(name@),
                color: color@,
                icon: icon@,
                order: order,
                created_at: now@,
                updated_at: now@,
            }),
            Err(e) => is_blank(name@) && e@ == "Название категории не может быть пустым."@,
        },
{
    let trimmed = match category_name(name) {
        Ok(n) => n,
        Err(e) => return Err(e),
    };
    Ok(Category {
        id: new_id(),
        name: trimmed,
        color: owned(color),
        icon: owned(icon),
        order: order,
        created_at: owned(now),
        updated_at: owned(now),
    })
}

} // verus!
