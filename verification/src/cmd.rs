use crate::config::{Config, ConfigView};
use crate::model::drs::{Dr, DrView};
use crate::model::oid::{hex_text, object_id_hex};
use crate::model::projects::{time_pattern, utc_time, utc_time_text, Project, ProjectView};
use crate::plugin::PluginKind;
use vstd::prelude::*;
use vstd::string::*;

verus! {

/// Why a command could not be carried out.
#[derive(Debug, Clone, Copy, PartialEq, Eq, Structural)]
pub enum CmdError {
    /// Neither a project identifier nor a project name was given.
    NotEnoughArguments,
    /// No project has the given identifier.
    NoSuchProject,
    /// The language is none of those for which a dependency reader exists.
    WrongArguments,
    /// The settings name no project.
    NoProjectIdSet,
}

impl CmdError {
    /// The error in words.
    pub fn message(&self) -> (text: String)
        ensures
            text@ == match *self {
                CmdError::NotEnoughArguments => "Not enough arguments"@,
                CmdError::NoSuchProject => "No such project"@,
                CmdError::WrongArguments => "Wrong arguments"@,
                CmdError::NoProjectIdSet => "No project ID is set"@,
            },
    {
        match self {
            CmdError::NotEnoughArguments => "Not enough arguments".to_owned(),
            CmdError::NoSuchProject => "No such project".to_owned(),
            CmdError::WrongArguments => "Wrong arguments".to_owned(),
            CmdError::NoProjectIdSet => "No project ID is set".to_owned(),
        }
    }
}

/// Tells whether two texts are the same.
fn same_text(one: &str, other: &str) -> (same: bool)
    ensures
        same == (one@ == other@),
{
    one.to_owned() == other.to_owned()
}

/// The dependency reader for a language name: `java`, `go` or `js`. Any other
/// name fails with `WrongArguments`.
pub fn plugin_kind(lang: &str) -> (kind: Result<PluginKind, CmdError>)
    ensures
        kind == if lang@ == "java"@ {
            Ok::<PluginKind, CmdError>(PluginKind::Java)
        } else if lang@ == "go"@ {
            Ok::<PluginKind, CmdError>(PluginKind::Go)
        } else if lang@ == "js"@ {
            Ok::<PluginKind, CmdError>(PluginKind::JavaScript)
        } else {
            Err::<PluginKind, CmdError>(CmdError::WrongArguments)
        },
{
    if same_text(lang, "java") {
        Ok(PluginKind::Java)
    } else if same_text(lang, "go") {
        Ok(PluginKind::Go)
    } else if same_text(lang, "js") {
        Ok(PluginKind::JavaScript)
    } else {
        Err(CmdError::WrongArguments)
    }
}

/// Calls `str::starts_with` with a text as the pattern: whether `prefix` is
/// how `item` begins.
#[verifier::external_body]
fn starts_with(item: &str, prefix: &str) -> (begins: bool)
    ensures
        begins == prefix@.is_prefix_of(item@),
{
    item.starts_with(prefix)
}

/// One of the sources is how `item` begins.
pub open spec fn begins_with_any(item: Seq<char>, sources: Seq<Seq<char>>) -> bool {
    exists|i: int| 0 <= i < sources.len() && (#[trigger] sources[i]).is_prefix_of(item)
}

/// The texts of a list of string slices, in order.
pub open spec fn slice_views(sources: Seq<&str>) -> Seq<Seq<char>> {
    sources.map_values(|source: &str| source@)
}

/// Tells whether `item` begins with one of `sources`.
pub fn is_start_with(item: &str, sources: &Vec<&str>) -> (begins: bool)
    ensures
        begins == begins_with_any(item@, slice_views(sources@)),
{
    let n = sources.len();
    let mut i: usize = 0;
    while i < n
        invariant
            i <= n,
            n == sources.len(),
            forall|j: int| 0 <= j < i ==> !(#[trigger] slice_views(sources@)[j]).is_prefix_of(item@),
        decreases n - i,
    {
        if starts_with(item, sources[i]) {
            assert(slice_views(sources@)[i as int].is_prefix_of(item@));
            return true;
        }
        i += 1;
    }
    false
}

/// `i` is the position of the first comma of `text`.
pub open spec fn is_first_comma(text: Seq<char>, i: int) -> bool {
    &&& 0 <= i < text.len()
    &&& text[i] == ','
    &&& forall|j: int| 0 <= j < i ==> text[j] != ','
}

/// The parts that the commas of a text separate, in order. A text without a
/// comma is one part; between two commas that touch stands an empty part.
pub open spec fn comma_parts(text: Seq<char>) -> Seq<Seq<char>>
    decreases text.len(),
{
    if exists|i: int| is_first_comma(text, i) {
        let i = choose|i: int| is_first_comma(text, i);
        seq![text.subrange(0, i)] + comma_parts(text.subrange(i + 1, text.len() as int))
    } else {
        seq![text]
    }
}

/// The parts of a text whose first comma stands at `i`.
proof fn lemma_comma_parts_at(text: Seq<char>, i: int)
    requires
        is_first_comma(text, i),
    ensures
        comma_parts(text) == seq![text.subrange(0, i)] + comma_parts(
            text.subrange(i + 1, text.len() as int),
        ),
{
    let j = choose|j: int| is_first_comma(text, j);
    assert(is_first_comma(text, j));
    assert(i == j) by {
        if i < j {
            assert(text[i] != ',');
        }
        if j < i {
            assert(text[j] != ',');
        }
    }
}

/// A text without a comma is its own single part.
proof fn lemma_comma_parts_whole(text: Seq<char>)
    requires
        forall|j: int| 0 <= j < text.len() ==> text[j] != ',',
    ensures
        comma_parts(text) == seq![text],
{
    if exists|i: int| is_first_comma(text, i) {
        let i = choose|i: int| is_first_comma(text, i);
        assert(text[i] != ',');
    }
}

/// Splits a text at its commas.
pub fn split_sources(sources: &str) -> (parts: Vec<&str>)
    ensures
        slice_views(parts@) == comma_parts(sources@),
{
    let n = sources.unicode_len();
    let ghost text = sources@;
    let mut parts: Vec<&str> = Vec::new();
    let mut start: usize = 0;
    let mut i: usize = 0;
    proof {
        assert(text.subrange(0, n as int) =~= text);
        assert(slice_views(parts@) + comma_parts(text) =~= comma_parts(text));
    }
    while i < n
        invariant
            start <= i <= n,
            n == text.len(),
            text == sources@,
            forall|j: int| start <= j < i ==> text[j] != ',',
            slice_views(parts@) + comma_parts(text.subrange(start as int, n as int)) == comma_parts(text),
        decreases n - i,
    {
        if sources.get_char(i) == ',' {
            let part = sources.substring_char(start, i);
            proof {
                let rest = text.subrange(start as int, n as int);
                assert(is_first_comma(rest, i - start));
                lemma_comma_parts_at(rest, i - start);
                assert(rest.subrange(0, i - start) =~= part@);
                assert(rest.subrange(i - start + 1, rest.len() as int) =~= text.subrange(i + 1, n as int));
                assert(slice_views(parts@.push(part)) =~= slice_views(parts@) + seq![part@]);
                assert(slice_views(parts@.push(part)) + comma_parts(text.subrange(i + 1, n as int))
                    =~= slice_views(parts@) + comma_parts(rest));
            }
            parts.push(part);
            start = i + 1;
        }
        i += 1;
    }
    let part = sources.substring_char(start, n);
    proof {
        lemma_comma_parts_whole(text.subrange(start as int, n as int));
        assert(slice_views(parts@.push(part)) =~= slice_views(parts@) + seq![part@]);
    }
    parts.push(part);
    parts
}

/// The views of a list of dependency relations, in order.
pub open spec fn dr_views(drs: Seq<Dr>) -> Seq<DrView> {
    drs.map_values(|dr: Dr| dr@)
}

/// The views of a list of borrowed dependency relations, in order.
pub open spec fn dr_ref_views(drs: Seq<&Dr>) -> Seq<DrView> {
    drs.map_values(|dr: &Dr| dr@)
}

/// The relation leaves the sources: its source begins with one of them and
/// its target with none.
pub open spec fn leaves_sources(dr: DrView, sources: Seq<Seq<char>>) -> bool {
    !begins_with_any(dr.target, sources) && begins_with_any(dr.source, sources)
}

/// Keeps, in order, the dependency relations that lead from the given
/// sources to somewhere else: those whose source begins with one of the
/// sources and whose target begins with none of them.
pub fn filter_drs<'a>(all_drs: &'a Vec<Dr>, sources: &Vec<&str>) -> (kept: Vec<&'a Dr>)
    ensures
        dr_ref_views(kept@) == dr_views(all_drs@).filter(
            |dr: DrView| leaves_sources(dr, slice_views(sources@)),
        ),
{
    let n = all_drs.len();
    let ghost views = dr_views(all_drs@);
    let ghost pred = |dr: DrView| leaves_sources(dr, slice_views(sources@));
    let mut kept: Vec<&Dr> = Vec::new();
    let mut i: usize = 0;
    proof {
        reveal(Seq::filter);
        assert(views.take(0).filter(pred) =~= Seq::<DrView>::empty());
    }
    while i < n
        invariant
            i <= n,
            n == all_drs.len(),
            views == dr_views(all_drs@),
            pred == |dr: DrView| leaves_sources(dr, slice_views(sources@)),
            dr_ref_views(kept@) == views.take(i as int).filter(pred),
        decreases n - i,
    {
        let dr = &all_drs[i];
        let keep = !is_start_with(dr.target.as_str(), sources) && is_start_with(
            dr.source.as_str(),
            sources,
        );
        proof {
            reveal(Seq::filter);
            assert(views.take(i + 1).drop_last() =~= views.take(i as int));
            assert(views.take(i + 1).last() == dr@);
            assert(keep == pred(dr@));
            if keep {
                assert(dr_ref_views(kept@.push(dr)) =~= dr_ref_views(kept@).push(dr@));
            }
        }
        if keep {
            kept.push(dr);
        }
        i += 1;
    }
    assert(views.take(n as int) =~= views);
    kept
}

/// What a request to set the project asks of the project store.
#[derive(Debug)]
pub enum ProjectRequest {
    /// Give the project with this identifier a new name, and select it.
    Rename { id: String, name: String },
    /// Select the project with this identifier, if there is one.
    Select { id: String },
    /// Create a project with this name, and select it.
    Create { name: String },
}

/// Decides what a request to set the project asks for, from the identifier
/// and the name that were given. With neither it fails with
/// `NotEnoughArguments`.
pub fn project_request(project_id: Option<String>, name: Option<String>) -> (request: Result<
    ProjectRequest,
    CmdError,
>)
    ensures
        match (project_id, name) {
            (Some(id), Some(name)) => request == Ok::<ProjectRequest, CmdError>(
                ProjectRequest::Rename { id, name },
            ),
            (Some(id), None) => request == Ok::<ProjectRequest, CmdError>(ProjectRequest::Select { id }),
            (None, Some(name)) => request == Ok::<ProjectRequest, CmdError>(
                ProjectRequest::Create { name },
            ),
            (None, None) => request == Err::<ProjectRequest, CmdError>(CmdError::NotEnoughArguments),
        },
{
    match (project_id, name) {
        (Some(id), Some(name)) => Ok(ProjectRequest::Rename { id, name }),
        (Some(id), None) => Ok(ProjectRequest::Select { id }),
        (None, Some(name)) => Ok(ProjectRequest::Create { name }),
        (None, None) => Err(CmdError::NotEnoughArguments),
    }
}

/// The identifier of a project as text: its bytes in hexadecimal, or nothing
/// where the project has none.
pub open spec fn project_id_text(project: ProjectView) -> Seq<char> {
    match project.id {
        Some(bytes) => hex_text(bytes),
        None => Seq::empty(),
    }
}

/// The line that lists a project with the given identifier, name and time of
/// creation, all as text: a mark that tells whether it is the selected one,
/// then the three texts.
pub open spec fn project_line_text(
    selected: Seq<char>,
    id: Seq<char>,
    name: Seq<char>,
    created_at: Seq<char>,
) -> Seq<char> {
    "    "@ + (if selected == id {
        "V"@
    } else {
        "-"@
    }) + " "@ + id + ": "@ + name + ", "@ + created_at + "\n"@
}

/// The line that lists one project.
pub open spec fn project_line(selected: Seq<char>, project: ProjectView) -> Seq<char> {
    project_line_text(
        selected,
        project_id_text(project),
        project.name,
        utc_time_text(project.created_at, time_pattern()),
    )
}

/// The lines that list the projects, in order.
pub open spec fn project_lines(selected: Seq<char>, projects: Seq<ProjectView>) -> Seq<char>
    decreases projects.len(),
{
    if projects.len() == 0 {
        Seq::empty()
    } else {
        project_lines(selected, projects.drop_last()) + project_line(selected, projects.last())
    }
}

/// The identifier of the selected project as text, or nothing where none is
/// selected.
pub open spec fn selected_project(config: ConfigView) -> Seq<char> {
    match config.project_id {
        Some(id) => id,
        None => Seq::empty(),
    }
}

/// The first two lines of the report: the database and the selected project.
pub open spec fn settings_lines(config: ConfigView) -> Seq<char> {
    (if config.db_url.len() > 0 {
        "db_url: "@ + config.db_url + "\n"@
    } else {
        "db_url: <NOT SET>\n"@
    }) + "project_id: "@ + selected_project(config) + "\n"@
}

/// The report on the settings and the projects of the database. Projects are
/// listed only where a database is set.
pub open spec fn db_report_text(config: ConfigView, projects: Seq<ProjectView>) -> Seq<char> {
    if config.db_url.len() > 0 {
        settings_lines(config) + "projects:\n"@ + project_lines(selected_project(config), projects)
    } else {
        settings_lines(config)
    }
}

/// The views of a list of projects, in order.
pub open spec fn project_views(projects: Seq<Project>) -> Seq<ProjectView> {
    projects.map_values(|project: Project| project@)
}

/// Writes the line that lists a project: four spaces, `V` where the project
/// is the selected one and `-` where it is not, then its identifier, its name
/// and the time of its creation.
pub fn write_project_line(selected: &str, id: &str, name: &str, created_at: &str) -> (line: String)
    ensures
        line@ == project_line_text(selected@, id@, name@, created_at@),
{
    let checked = if same_text(selected, id) {
        "V"
    } else {
        "-"
    };
    let mut line = "    ".to_owned();
    line.append(checked);
    line.append(" ");
    line.append(id);
    line.append(": ");
    line.append(name);
    line.append(", ");
    line.append(created_at);
    line.append("\n");
    line
}

/// Writes the report on the settings: the database, the selected project,
/// and, where a database is set, one line for each of its projects, with a
/// `V` before the selected one and a `-` before the others.
pub fn db_report(config: &Config, projects: &Vec<Project>) -> (report: String)
    ensures
        report@ == db_report_text(config@, project_views(projects@)),
{
    let mut s = String::new();
    if !config.db_url.as_str().is_empty() {
        s.append("db_url: ");
        s.append(config.db_url.as_str());
        s.append("\n");
    } else {
        s.append("db_url: <NOT SET>\n");
    }
    let project_id = match &config.project_id {
        Some(id) => id.clone(),
        None => String::new(),
    };
    s.append("project_id: ");
    s.append(project_id.as_str());
    s.append("\n");
    assert(s@ =~= settings_lines(config@));
    if !config.db_url.as_str().is_empty() {
        s.append("projects:\n");
        let ghost head = s@;
        let ghost views = project_views(projects@);
        let n = projects.len();
        let mut i: usize = 0;
        assert(views.take(0) =~= Seq::<ProjectView>::empty());
        while i < n
            invariant
                i <= n,
                n == projects.len(),
                views == project_views(projects@),
                project_id@ == selected_project(config@),
                s@ == head + project_lines(project_id@, views.take(i as int)),
            decreases n - i,
        {
            let project = &projects[i];
            let id = match &project.id {
                Some(bytes) => object_id_hex(bytes),
                None => String::new(),
            };
            let created_at = utc_time(project.created_at, "%Y-%m-%d %H:%M:%S");
            let line = write_project_line(
                project_id.as_str(),
                id.as_str(),
                project.name.as_str(),
                created_at.as_str(),
            );
            let ghost before = s@;
            s.append(line.as_str());
            proof {
                assert(views.take(i + 1).drop_last() =~= views.take(i as int));
                assert(views.take(i + 1).last() == project@);
                assert(s@ =~= before + project_line(project_id@, project@));
                assert(s@ =~= head + project_lines(project_id@, views.take(i + 1)));
            }
            i += 1;
        }
        assert(views.take(n as int) =~= views);
    }
    s
}

} // verus!
