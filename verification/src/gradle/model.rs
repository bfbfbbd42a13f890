//! The build model, and the commands by which the Gradle language server learns of it.

use crate::json::{Json, JsonView};
use crate::json;
use crate::text;
use crate::windows_path;
use vstd::prelude::*;
use vstd::string::*;

verus! {

/// A method that a plugin offers in its closure.
#[derive(Debug, Default)]
pub struct GradleMethod {
    pub name: String,
    pub parameter_types: Vec<String>,
    pub deprecated: bool,
}

/// A field that a plugin offers in its closure.
#[derive(Debug, Default)]
pub struct GradleField {
    pub name: String,
    pub deprecated: bool,
}

/// A closure that a plugin offers.
#[derive(Debug, Default)]
pub struct GradleClosure {
    pub name: String,
    pub methods: Vec<GradleMethod>,
    pub fields: Vec<GradleField>,
}

/// A project of a build, with its subprojects.
#[derive(Debug, Default)]
pub struct GradleProject {
    pub project_path: String,
    pub projects: Vec<GradleProject>,
    pub plugins: Vec<String>,
    pub plugin_closures: Vec<GradleClosure>,
    pub script_classpaths: Vec<String>,
}

/// The segments that are left of the first `n` of `segments` once those that stand for the same
/// directory are dropped, and those that stand for the parent directory are dropped together with
/// the one before.
pub open spec fn kept_segments(segments: Seq<Seq<char>>, n: int) -> Seq<Seq<char>>
    decreases n,
{
    if n <= 0 || n > segments.len() {
        Seq::empty()
    } else {
        let earlier = kept_segments(segments, n - 1);
        let segment = segments[n - 1];
        if segment.len() == 0 || segment == "."@ {
            earlier
        } else if segment == ".."@ {
            if earlier.len() > 0 {
                earlier.drop_last()
            } else {
                earlier
            }
        } else {
            earlier.push(segment)
        }
    }
}

/// The Unix path `path` without the segments that stand for the same or the parent directory.
pub open spec fn unix_normalized(path: Seq<char>) -> Seq<char> {
    let segments = text::split(path, '/');
    let kept = text::join(kept_segments(segments, segments.len() as int), '/');
    if path.len() > 0 && path[0] == '/' {
        seq!['/'] + kept
    } else {
        kept
    }
}

/// `path`, a Windows path or not, without the segments that stand for the same or the parent
/// directory.
pub open spec fn normalized_path(path: Seq<char>, windows: bool) -> Seq<char> {
    if windows {
        windows_path::normalized(path)
    } else {
        unix_normalized(path)
    }
}

/// `path`, a Windows path or not, without the segments that stand for the same or the parent
/// directory. Links are not followed.
pub fn normalize_project_path(path: &str, windows: bool) -> (r: String)
    ensures
        r@ == normalized_path(path@, windows),
{
    if windows {
        return windows_path::normalize(path);
    }
    let chars = text::chars_of(path);
    let segments = text::split_text(&chars, '/');
    let same = text::chars_of(".");
    let parent = text::chars_of("..");
    let ghost all = text::char_texts(segments@);
    let mut kept: Vec<Vec<char>> = Vec::new();
    let mut i: usize = 0;
    assert(text::char_texts(kept@) =~= Seq::empty());
    while i < segments.len()
        invariant
            i <= segments@.len(),
            all == text::char_texts(segments@),
            same@ == "."@,
            parent@ == ".."@,
            text::char_texts(kept@) == kept_segments(all, i as int),
        decreases segments@.len() - i,
    {
        let ghost before = text::char_texts(kept@);
        if segments[i].len() == 0 || text::same_chars(&segments[i], &same) {
        } else if text::same_chars(&segments[i], &parent) {
            if kept.len() > 0 {
                kept.pop();
                assert(text::char_texts(kept@) =~= before.drop_last());
            }
        } else {
            let mut segment: Vec<char> = Vec::new();
            text::push_all(&mut segment, &segments[i]);
            kept.push(segment);
            assert(segment@ =~= all[i as int]);
            assert(text::char_texts(kept@) =~= before.push(segment@));
        }
        i += 1;
    }
    let joined = text::join_text(&kept, '/');
    let mut r: Vec<char> = Vec::new();
    if chars.len() > 0 && chars[0] == '/' {
        r.push('/');
    }
    text::push_all(&mut r, &joined);
    assert(r@ =~= unix_normalized(path@));
    text::string_of(&r)
}

/// A segment that is none of those that normalising drops.
pub open spec fn plain_segment(segment: Seq<char>) -> bool {
    segment.len() > 0 && segment != "."@ && segment != ".."@ && !segment.contains('/')
}

proof fn lemma_kept_segments(segments: Seq<Seq<char>>, n: int)
    requires
        forall|i: int| 0 <= i < segments.len() ==> !(#[trigger] segments[i]).contains('/'),
    ensures
        forall|i: int|
            0 <= i < kept_segments(segments, n).len() ==> plain_segment(
                #[trigger] kept_segments(segments, n)[i],
            ),
    decreases n,
{
    if 0 < n <= segments.len() {
        lemma_kept_segments(segments, n - 1);
        assert(!segments[n - 1].contains('/'));
        let earlier = kept_segments(segments, n - 1);
        assert forall|i: int| 0 <= i < kept_segments(segments, n).len() implies plain_segment(
            #[trigger] kept_segments(segments, n)[i],
        ) by {
            if i < earlier.len() {
                assert(plain_segment(earlier[i]));
                assert(kept_segments(segments, n)[i] == earlier[i]);
            }
        }
    }
}

proof fn lemma_plain_segments_kept(segments: Seq<Seq<char>>, n: int)
    requires
        0 <= n <= segments.len(),
        forall|i: int| 0 <= i < segments.len() ==> plain_segment(#[trigger] segments[i]),
    ensures
        kept_segments(segments, n) == segments.take(n),
    decreases n,
{
    if n > 0 {
        lemma_plain_segments_kept(segments, n - 1);
        assert(plain_segment(segments[n - 1]));
        assert(segments.take(n) =~= segments.take(n - 1).push(segments[n - 1]));
    } else {
        assert(segments.take(0) =~= Seq::empty());
    }
}

proof fn lemma_leading_empty(segments: Seq<Seq<char>>, n: int)
    requires
        0 <= n <= segments.len(),
    ensures
        kept_segments(seq![Seq::empty()] + segments, n + 1) == kept_segments(segments, n),
    decreases n,
{
    let longer = seq![Seq::<char>::empty()] + segments;
    if n > 0 {
        lemma_leading_empty(segments, n - 1);
        assert(longer[n] == segments[n - 1]);
    } else {
        assert(longer[0].len() == 0);
        assert(kept_segments(longer, 0) =~= Seq::empty());
    }
}

/// A normalised Unix path stays as it is: normalising leaves nothing to drop.
pub proof fn lemma_normalized_once(path: Seq<char>)
    ensures
        normalized_path(normalized_path(path, false), false) == normalized_path(path, false),
{
    let segments = text::split(path, '/');
    text::lemma_split(path, '/');
    lemma_kept_segments(segments, segments.len() as int);
    let kept = kept_segments(segments, segments.len() as int);
    let once = unix_normalized(path);
    let absolute = path.len() > 0 && path[0] == '/';
    lemma_plain_segments_kept(kept, kept.len() as int);
    assert(kept.take(kept.len() as int) =~= kept);
    if absolute {
        let longer = seq![Seq::<char>::empty()] + kept;
        assert forall|i: int| 0 <= i < longer.len() implies !(#[trigger] longer[i]).contains(
            '/',
        ) by {
            if i > 0 {
                assert(plain_segment(kept[i - 1]));
            }
        }
        lemma_join_leading_empty(kept);
        if kept.len() == 0 {
            assert(once =~= seq!['/']);
            assert(text::split(seq!['/'], '/') =~= seq![Seq::empty(), Seq::empty()]) by {
                assert(seq!['/'].drop_last() =~= Seq::empty());
                assert(text::split(Seq::<char>::empty(), '/') =~= seq![Seq::empty()]);
            }
            let twice = text::split(once, '/');
            assert(kept_segments(twice, 0) =~= Seq::empty());
            assert(kept_segments(twice, 1) =~= Seq::empty());
            assert(kept_segments(twice, 2) =~= Seq::empty());
            assert(kept =~= Seq::empty());
        } else {
            text::lemma_split_join(longer, '/');
            assert(text::join(longer, '/') == once);
            lemma_leading_empty(kept, kept.len() as int);
        }
    } else if kept.len() == 0 {
        assert(once =~= Seq::empty());
        let twice = text::split(once, '/');
        assert(twice =~= seq![Seq::empty()]);
        assert(kept_segments(twice, 0) =~= Seq::empty());
        assert(kept_segments(twice, 1) =~= Seq::empty());
        assert(kept =~= Seq::empty());
    } else {
        assert forall|i: int| 0 <= i < kept.len() implies !(#[trigger] kept[i]).contains('/') by {
            assert(plain_segment(kept[i]));
        }
        text::lemma_split_join(kept, '/');
        lemma_join_first(kept);
        assert(once[0] != '/') by {
            assert(plain_segment(kept[0]));
            assert(kept[0].contains(kept[0][0]));
        }
    }
}

proof fn lemma_join_first(parts: Seq<Seq<char>>)
    requires
        parts.len() > 0,
        parts[0].len() > 0,
    ensures
        text::join(parts, '/').len() > 0,
        text::join(parts, '/')[0] == parts[0][0],
    decreases parts.len(),
{
    if parts.len() > 1 {
        lemma_join_first(parts.drop_last());
    }
}

proof fn lemma_join_leading_empty(parts: Seq<Seq<char>>)
    ensures
        parts.len() > 0 ==> text::join(seq![Seq::empty()] + parts, '/') == seq!['/'] + text::join(
            parts,
            '/',
        ),
    decreases parts.len(),
{
    let longer = seq![Seq::<char>::empty()] + parts;
    if parts.len() == 1 {
        let head = longer.drop_last();
        assert(head.len() == 1 && head[0] == Seq::<char>::empty());
        assert(text::join(head, '/') =~= Seq::empty());
        assert(longer.last() == parts[0]);
        assert(text::join(longer, '/') =~= seq!['/'] + parts[0]);
    } else if parts.len() > 1 {
        assert(longer.drop_last() =~= seq![Seq::empty()] + parts.drop_last());
        lemma_join_leading_empty(parts.drop_last());
        assert(text::join(longer, '/') =~= seq!['/'] + text::join(parts, '/'));
    }
}

/// The texts `strings` as JSON.
pub open spec fn strings_json(strings: Seq<String>) -> JsonView {
    JsonView::Array(Seq::new(strings.len(), |i: int| JsonView::Str(strings[i]@)))
}

fn json_strings(strings: &Vec<String>) -> (r: Json)
    ensures
        r@ == strings_json(strings@),
{
    broadcast use json::group_json_views;

    let mut items: Vec<Json> = Vec::new();
    let mut i: usize = 0;
    while i < strings.len()
        invariant
            i <= strings@.len(),
            items@.len() == i,
            forall|j: int| 0 <= j < i ==> (#[trigger] items@[j])@ == JsonView::Str(strings@[j]@),
        decreases strings@.len() - i,
    {
        items.push(Json::Str(strings[i].clone()));
        i += 1;
    }
    assert(json::items_view(items@) =~= strings_json(strings@)->Array_0);
    Json::Array(items)
}

/// The method as JSON.
pub open spec fn method_json(method: GradleMethod) -> JsonView {
    JsonView::empty_object().set("name"@, JsonView::Str(method.name@)).set(
        "parameterTypes"@,
        strings_json(method.parameter_types@),
    ).set("deprecated"@, JsonView::Bool(method.deprecated))
}

/// The field as JSON.
pub open spec fn field_json(field: GradleField) -> JsonView {
    JsonView::empty_object().set("name"@, JsonView::Str(field.name@)).set(
        "deprecated"@,
        JsonView::Bool(field.deprecated),
    )
}

/// The closure as JSON.
pub open spec fn closure_json(closure: GradleClosure) -> JsonView {
    JsonView::empty_object().set("name"@, JsonView::Str(closure.name@)).set(
        "methods"@,
        JsonView::Array(
            Seq::new(closure.methods@.len(), |i: int| method_json(closure.methods@[i])),
        ),
    ).set(
        "fields"@,
        JsonView::Array(Seq::new(closure.fields@.len(), |i: int| field_json(closure.fields@[i]))),
    )
}

/// The closures as JSON.
pub open spec fn closures_json(closures: Seq<GradleClosure>) -> JsonView {
    JsonView::Array(Seq::new(closures.len(), |i: int| closure_json(closures[i])))
}

fn json_methods(methods: &Vec<GradleMethod>) -> (r: Json)
    ensures
        r@ == JsonView::Array(Seq::new(methods@.len(), |i: int| method_json(methods@[i]))),
{
    broadcast use json::group_json_views;

    let mut items: Vec<Json> = Vec::new();
    let mut i: usize = 0;
    while i < methods.len()
        invariant
            i <= methods@.len(),
            items@.len() == i,
            forall|j: int| 0 <= j < i ==> (#[trigger] items@[j])@ == method_json(methods@[j]),
        decreases methods@.len() - i,
    {
        let method = &methods[i];
        items.push(
            Json::empty_object().setting("name", Json::Str(method.name.clone())).setting(
                "parameterTypes",
                json_strings(&method.parameter_types),
            ).setting("deprecated", Json::Bool(method.deprecated)),
        );
        i += 1;
    }
    assert(json::items_view(items@) =~= Seq::new(
        methods@.len(),
        |i: int| method_json(methods@[i]),
    ));
    Json::Array(items)
}

fn json_fields(fields: &Vec<GradleField>) -> (r: Json)
    ensures
        r@ == JsonView::Array(Seq::new(fields@.len(), |i: int| field_json(fields@[i]))),
{
    broadcast use json::group_json_views;

    let mut items: Vec<Json> = Vec::new();
    let mut i: usize = 0;
    while i < fields.len()
        invariant
            i <= fields@.len(),
            items@.len() == i,
            forall|j: int| 0 <= j < i ==> (#[trigger] items@[j])@ == field_json(fields@[j]),
        decreases fields@.len() - i,
    {
        let field = &fields[i];
        items.push(
            Json::empty_object().setting("name", Json::Str(field.name.clone())).setting(
                "deprecated",
                Json::Bool(field.deprecated),
            ),
        );
        i += 1;
    }
    assert(json::items_view(items@) =~= Seq::new(fields@.len(), |i: int| field_json(fields@[i])));
    Json::Array(items)
}

fn json_closures(closures: &Vec<GradleClosure>) -> (r: Json)
    ensures
        r@ == closures_json(closures@),
{
    broadcast use json::group_json_views;

    let mut items: Vec<Json> = Vec::new();
    let mut i: usize = 0;
    while i < closures.len()
        invariant
            i <= closures@.len(),
            items@.len() == i,
            forall|j: int| 0 <= j < i ==> (#[trigger] items@[j])@ == closure_json(closures@[j]),
        decreases closures@.len() - i,
    {
        let closure = &closures[i];
        items.push(
            Json::empty_object().setting("name", Json::Str(closure.name.clone())).setting(
                "methods",
                json_methods(&closure.methods),
            ).setting("fields", json_fields(&closure.fields)),
        );
        i += 1;
    }
    assert(json::items_view(items@) =~= closures_json(closures@)->Array_0);
    Json::Array(items)
}

/// The arguments of a command for the project at `path`.
pub open spec fn arguments(path: Seq<char>, windows: bool, value: JsonView) -> JsonView {
    JsonView::Array(seq![JsonView::Str(normalized_path(path, windows)), value])
}

/// The commands for the project itself.
pub open spec fn own_commands(project: GradleProject, windows: bool) -> Seq<(Seq<char>, JsonView)> {
    let path = project.project_path@;
    seq![
        ("gradle.setPlugins"@, arguments(path, windows, strings_json(project.plugins@))),
        ("gradle.setClosures"@, arguments(path, windows, closures_json(project.plugin_closures@))),
        (
            "gradle.setScriptClasspaths"@,
            arguments(path, windows, strings_json(project.script_classpaths@)),
        ),
    ]
}

/// The commands for the project and, after it, its subprojects.
pub open spec fn project_commands(project: GradleProject, windows: bool) -> Seq<(Seq<char>, JsonView)>
    decreases project, 0int,
{
    own_commands(project, windows) + commands_of(
        project.projects@,
        windows,
        project.projects@.len() as int,
    )
}

/// The commands for the first `n` of `projects`.
pub open spec fn commands_of(projects: Seq<GradleProject>, windows: bool, n: int) -> Seq<
    (Seq<char>, JsonView),
>
    decreases projects, n,
{
    if n <= 0 || n > projects.len() {
        Seq::empty()
    } else {
        commands_of(projects, windows, n - 1) + project_commands(projects[n - 1], windows)
    }
}

/// What the commands hold.
pub open spec fn command_views(commands: Seq<(&'static str, Json)>) -> Seq<(Seq<char>, JsonView)> {
    Seq::new(commands.len(), |i: int| (commands[i].0@, commands[i].1@))
}

fn push_command(
    commands: &mut Vec<(&'static str, Json)>,
    name: &'static str,
    path: &String,
    value: Json,
)
    ensures
        command_views(final(commands)@) == command_views(old(commands)@).push(
            (name@, JsonView::Array(seq![JsonView::Str(path@), value@])),
        ),
{
    broadcast use json::group_json_views;

    let ghost before = command_views(commands@);
    let ghost held = value@;
    let mut items: Vec<Json> = Vec::new();
    items.push(Json::Str(path.clone()));
    items.push(value);
    assert(json::items_view(items@) =~= seq![JsonView::Str(path@), held]);
    let arguments = Json::Array(items);
    commands.push((name, arguments));
    assert(command_views(commands@) =~= before.push((name@, arguments@)));
}

fn collect_commands(project: &GradleProject, windows: bool, out: &mut Vec<(&'static str, Json)>)
    ensures
        command_views(final(out)@) == command_views(old(out)@) + project_commands(*project, windows),
    decreases project,
{
    let ghost before = command_views(out@);
    let path = normalize_project_path(project.project_path.as_str(), windows);
    push_command(out, "gradle.setPlugins", &path, json_strings(&project.plugins));
    push_command(out, "gradle.setClosures", &path, json_closures(&project.plugin_closures));
    push_command(
        out,
        "gradle.setScriptClasspaths",
        &path,
        json_strings(&project.script_classpaths),
    );
    assert(command_views(out@) =~= before + own_commands(*project, windows));
    let ghost own = command_views(out@);
    let mut i: usize = 0;
    assert(own + commands_of(project.projects@, windows, 0) =~= own);
    while i < project.projects.len()
        invariant
            i <= project.projects@.len(),
            decreases_to!(project => project.projects),
            command_views(out@) == own + commands_of(project.projects@, windows, i as int),
        decreases project.projects@.len() - i,
    {
        let ghost earlier = command_views(out@);
        collect_commands(&project.projects[i], windows, out);
        i += 1;
        assert(command_views(out@) =~= own + commands_of(project.projects@, windows, i as int));
    }
    assert(command_views(out@) =~= before + project_commands(*project, windows));
}

/// The commands by which the language server learns of the build with the root project `root`:
/// three for each project, in the order in which the projects are nested. Their paths are Windows
/// paths or not.
pub fn model_to_commands(root: &GradleProject, windows: bool) -> (r: Vec<(&'static str, Json)>)
    ensures
        command_views(r@) == project_commands(*root, windows),
{
    let mut commands: Vec<(&'static str, Json)> = Vec::new();
    assert(command_views(commands@) =~= Seq::empty());
    collect_commands(root, windows, &mut commands);
    assert(Seq::<(Seq<char>, JsonView)>::empty() + project_commands(*root, windows)
        =~= project_commands(*root, windows));
    commands
}

/// How many projects there are at and below `project`.
pub open spec fn project_count(project: GradleProject) -> nat
    decreases project, 0int,
{
    1 + count_of(project.projects@, project.projects@.len() as int)
}

/// How many projects there are at and below the first `n` of `projects`.
pub open spec fn count_of(projects: Seq<GradleProject>, n: int) -> nat
    decreases projects, n,
{
    if n <= 0 || n > projects.len() {
        0
    } else {
        count_of(projects, n - 1) + project_count(projects[n - 1])
    }
}

/// There are three commands for each project.
pub proof fn lemma_three_commands_each(project: GradleProject, windows: bool)
    ensures
        project_commands(project, windows).len() == 3 * project_count(project),
    decreases project, 1int,
{
    lemma_three_commands_of(project.projects@, windows, project.projects@.len() as int);
}

proof fn lemma_three_commands_of(projects: Seq<GradleProject>, windows: bool, n: int)
    ensures
        commands_of(projects, windows, n).len() == 3 * count_of(projects, n),
    decreases projects, n,
{
    if 0 < n <= projects.len() {
        lemma_three_commands_of(projects, windows, n - 1);
        lemma_three_commands_each(projects[n - 1], windows);
    }
}

/// The project to which `path` leads from `root`: each step is the place of a subproject.
pub open spec fn project_at(root: GradleProject, path: Seq<int>) -> Option<GradleProject>
    decreases path.len(),
{
    if path.len() == 0 {
        Some(root)
    } else if 0 <= path[0] < root.projects@.len() {
        project_at(root.projects@[path[0]], path.drop_first())
    } else {
        None
    }
}

/// `value` is an array of the texts `strings`, one for one.
pub open spec fn lists_texts(value: JsonView, strings: Seq<String>) -> bool {
    &&& value matches JsonView::Array(items)
    &&& items.len() == strings.len()
    &&& forall|i: int|
        0 <= i < strings.len() ==> #[trigger] items[i] == JsonView::Str(strings[i]@)
}

/// `value` is an object that shows the method.
pub open spec fn shows_method(value: JsonView, method: GradleMethod) -> bool {
    &&& value.get("name"@) == Some(JsonView::Str(method.name@))
    &&& value.get("parameterTypes"@) matches Some(types) && lists_texts(
        types,
        method.parameter_types@,
    )
    &&& value.get("deprecated"@) == Some(JsonView::Bool(method.deprecated))
}

/// `value` is an object that shows the field.
pub open spec fn shows_field(value: JsonView, field: GradleField) -> bool {
    &&& value.get("name"@) == Some(JsonView::Str(field.name@))
    &&& value.get("deprecated"@) == Some(JsonView::Bool(field.deprecated))
}

/// `value` is an object that shows the closure with all its methods and fields.
pub open spec fn shows_closure(value: JsonView, closure: GradleClosure) -> bool {
    &&& value.get("name"@) == Some(JsonView::Str(closure.name@))
    &&& value.get("methods"@) matches Some(JsonView::Array(methods)) && methods.len()
        == closure.methods@.len() && forall|i: int|
        0 <= i < methods.len() ==> shows_method(#[trigger] methods[i], closure.methods@[i])
    &&& value.get("fields"@) matches Some(JsonView::Array(fields)) && fields.len()
        == closure.fields@.len() && forall|i: int|
        0 <= i < fields.len() ==> shows_field(#[trigger] fields[i], closure.fields@[i])
}

/// `value` is an array that shows the closures, one for one.
pub open spec fn shows_closures(value: JsonView, closures: Seq<GradleClosure>) -> bool {
    &&& value matches JsonView::Array(items)
    &&& items.len() == closures.len()
    &&& forall|i: int| 0 <= i < items.len() ==> shows_closure(#[trigger] items[i], closures[i])
}

/// The command is called `name`, and has the path of the project and one thing more as its arguments,
/// which is `value`.
pub open spec fn command_carries(
    command: (Seq<char>, JsonView),
    name: Seq<char>,
    project: GradleProject,
    windows: bool,
    value: JsonView,
) -> bool {
    &&& command.0 == name
    &&& command.1 matches JsonView::Array(arguments)
    &&& arguments.len() == 2
    &&& arguments[0] == JsonView::Str(normalized_path(project.project_path@, windows))
    &&& arguments[1] == value
}

/// The commands from the place `k` on tell of the plugins, the closures and the script classpath of
/// the project.
pub open spec fn tells(
    commands: Seq<(Seq<char>, JsonView)>,
    k: int,
    project: GradleProject,
    windows: bool,
) -> bool {
    &&& 0 <= k && k + 3 <= commands.len()
    &&& exists|plugins: JsonView|
        lists_texts(plugins, project.plugins@) && #[trigger] command_carries(
            commands[k],
            "gradle.setPlugins"@,
            project,
            windows,
            plugins,
        )
    &&& exists|closures: JsonView|
        shows_closures(closures, project.plugin_closures@) && #[trigger] command_carries(
            commands[k + 1],
            "gradle.setClosures"@,
            project,
            windows,
            closures,
        )
    &&& exists|classpath: JsonView|
        lists_texts(classpath, project.script_classpaths@) && #[trigger] command_carries(
            commands[k + 2],
            "gradle.setScriptClasspaths"@,
            project,
            windows,
            classpath,
        )
}

proof fn lemma_method_shown(method: GradleMethod)
    ensures
        shows_method(method_json(method), method),
{
    reveal_strlit("name");
    reveal_strlit("parameterTypes");
    reveal_strlit("deprecated");
    assert("name"@.len() == 4 && "parameterTypes"@.len() == 14 && "deprecated"@.len() == 10);
    let none = JsonView::empty_object();
    let name = JsonView::Str(method.name@);
    let types = strings_json(method.parameter_types@);
    let deprecated = JsonView::Bool(method.deprecated);
    let once = none.set("name"@, name);
    let twice = once.set("parameterTypes"@, types);
    json::lemma_get_after_set(none, "name"@, name, "name"@);
    json::lemma_get_after_set(once, "parameterTypes"@, types, "name"@);
    json::lemma_get_after_set(twice, "deprecated"@, deprecated, "name"@);
    json::lemma_get_after_set(twice, "deprecated"@, deprecated, "parameterTypes"@);
}

proof fn lemma_field_shown(field: GradleField)
    ensures
        shows_field(field_json(field), field),
{
    reveal_strlit("name");
    reveal_strlit("deprecated");
    assert("name"@.len() == 4 && "deprecated"@.len() == 10);
    let none = JsonView::empty_object();
    let name = JsonView::Str(field.name@);
    let deprecated = JsonView::Bool(field.deprecated);
    json::lemma_get_after_set(none, "name"@, name, "name"@);
    json::lemma_get_after_set(none.set("name"@, name), "deprecated"@, deprecated, "name"@);
}

proof fn lemma_closure_shown(closure: GradleClosure)
    ensures
        shows_closure(closure_json(closure), closure),
{
    reveal_strlit("name");
    reveal_strlit("methods");
    reveal_strlit("fields");
    assert("name"@.len() == 4 && "methods"@.len() == 7 && "fields"@.len() == 6);
    let methods = Seq::new(closure.methods@.len(), |i: int| method_json(closure.methods@[i]));
    let fields = Seq::new(closure.fields@.len(), |i: int| field_json(closure.fields@[i]));
    let none = JsonView::empty_object();
    let name = JsonView::Str(closure.name@);
    let once = none.set("name"@, name);
    let twice = once.set("methods"@, JsonView::Array(methods));
    json::lemma_get_after_set(none, "name"@, name, "name"@);
    json::lemma_get_after_set(once, "methods"@, JsonView::Array(methods), "name"@);
    json::lemma_get_after_set(twice, "fields"@, JsonView::Array(fields), "name"@);
    json::lemma_get_after_set(twice, "fields"@, JsonView::Array(fields), "methods"@);
    assert forall|i: int| 0 <= i < methods.len() implies shows_method(
        #[trigger] methods[i],
        closure.methods@[i],
    ) by {
        lemma_method_shown(closure.methods@[i]);
    }
    assert forall|i: int| 0 <= i < fields.len() implies shows_field(
        #[trigger] fields[i],
        closure.fields@[i],
    ) by {
        lemma_field_shown(closure.fields@[i]);
    }
}

proof fn lemma_own_commands_tell(project: GradleProject, windows: bool)
    ensures
        tells(own_commands(project, windows), 0, project, windows),
{
    let commands = own_commands(project, windows);
    let closures = closures_json(project.plugin_closures@);
    assert forall|i: int| 0 <= i < closures->Array_0.len() implies shows_closure(
        #[trigger] closures->Array_0[i],
        project.plugin_closures@[i],
    ) by {
        lemma_closure_shown(project.plugin_closures@[i]);
    }
    let plugins = strings_json(project.plugins@);
    let classpath = strings_json(project.script_classpaths@);
    assert(lists_texts(plugins, project.plugins@));
    assert(lists_texts(classpath, project.script_classpaths@));
    assert(shows_closures(closures, project.plugin_closures@));
    assert(command_carries(
        commands[0],
        "gradle.setPlugins"@,
        project,
        windows,
        strings_json(project.plugins@),
    ));
    let k: int = 0;
    assert(command_carries(commands[k + 1], "gradle.setClosures"@, project, windows, closures));
    assert(command_carries(
        commands[k + 2],
        "gradle.setScriptClasspaths"@,
        project,
        windows,
        strings_json(project.script_classpaths@),
    ));
}

proof fn lemma_tells_within(
    start: Seq<(Seq<char>, JsonView)>,
    commands: Seq<(Seq<char>, JsonView)>,
    end: Seq<(Seq<char>, JsonView)>,
    k: int,
    project: GradleProject,
    windows: bool,
)
    requires
        tells(commands, k, project, windows),
    ensures
        tells(start + commands + end, start.len() + k, project, windows),
{
    let all = start + commands + end;
    let at = start.len() + k;
    assert(all[at] == commands[k] && all[at + 1] == commands[k + 1] && all[at + 2] == commands[k
        + 2]);
}

/// Every project of a build is told of with its own data, wherever it is nested, and the root project
/// is told of first.
pub proof fn lemma_projects_told_of(
    root: GradleProject,
    windows: bool,
    path: Seq<int>,
    project: GradleProject,
)
    requires
        project_at(root, path) == Some(project),
    ensures
        tells(project_commands(root, windows), 0, root, windows),
        exists|k: int| #[trigger] tells(project_commands(root, windows), k, project, windows),
    decreases path.len(),
{
    let none = Seq::<(Seq<char>, JsonView)>::empty();
    let own = own_commands(root, windows);
    let projects = root.projects@;
    let commands = project_commands(root, windows);
    lemma_own_commands_tell(root, windows);
    let below = commands_of(projects, windows, projects.len() as int);
    lemma_tells_within(none, own, below, 0, root, windows);
    assert(none + own + below =~= commands);
    assert(tells(commands, 0, root, windows));
    if path.len() > 0 {
        let i = path[0];
        lemma_projects_told_of(projects[i], windows, path.drop_first(), project);
        let inner = project_commands(projects[i], windows);
        let k = choose|k: int| #[trigger] tells(inner, k, project, windows);
        let (start, end) = lemma_commands_within(projects, windows, i, projects.len() as int);
        lemma_tells_within(own + start, inner, end, k, project, windows);
        assert((own + start) + inner + end =~= commands);
        assert(tells(commands, (own + start).len() + k, project, windows));
    }
}

proof fn lemma_commands_within(
    projects: Seq<GradleProject>,
    windows: bool,
    i: int,
    n: int,
) -> (r: (Seq<(Seq<char>, JsonView)>, Seq<(Seq<char>, JsonView)>))
    requires
        0 <= i < n <= projects.len(),
    ensures
        commands_of(projects, windows, n) == r.0 + project_commands(projects[i], windows) + r.1,
    decreases n,
{
    let last = project_commands(projects[n - 1], windows);
    if i == n - 1 {
        let start = commands_of(projects, windows, n - 1);
        assert(commands_of(projects, windows, n) =~= start + last + Seq::empty());
        (start, Seq::empty())
    } else {
        let (start, end) = lemma_commands_within(projects, windows, i, n - 1);
        assert(commands_of(projects, windows, n) =~= start + project_commands(
            projects[i],
            windows,
        ) + (end + last));
        (start, end + last)
    }
}

/// After the commands for a project itself come those for its subprojects, one subproject after the
/// other and each with all that is below it, and no others.
pub proof fn lemma_subprojects_in_order(root: GradleProject, windows: bool)
    ensures
        project_commands(root, windows).len() >= 3,
        project_commands(root, windows).skip(3) == root.projects@.map_values(
            |project: GradleProject| project_commands(project, windows),
        ).flatten(),
{
    let projects = root.projects@;
    let each = projects.map_values(|project: GradleProject| project_commands(project, windows));
    lemma_flattened(projects, windows, projects.len() as int);
    assert(each.take(projects.len() as int) =~= each);
    assert(project_commands(root, windows).skip(3) =~= commands_of(
        projects,
        windows,
        projects.len() as int,
    ));
}

proof fn lemma_flattened(projects: Seq<GradleProject>, windows: bool, n: int)
    requires
        0 <= n <= projects.len(),
    ensures
        commands_of(projects, windows, n) == projects.map_values(
            |project: GradleProject| project_commands(project, windows),
        ).take(n).flatten(),
    decreases n,
{
    let each = projects.map_values(|project: GradleProject| project_commands(project, windows));
    if n > 0 {
        lemma_flattened(projects, windows, n - 1);
        assert(each.take(n) =~= each.take(n - 1).push(each[n - 1]));
        each.take(n - 1).lemma_flatten_push(each[n - 1]);
        assert(each[n - 1] == project_commands(projects[n - 1], windows));
    } else {
        assert(each.take(0) =~= Seq::empty());
    }
}

/// A Unix path stays absolute or relative when it is normalised, and what is left of it are segments
/// that name something: none is empty, `.` or `..`.
pub proof fn lemma_normalized_shape(path: Seq<char>)
    ensures
        ({
            let once = normalized_path(path, false);
            &&& path.len() > 0 && path[0] == '/' <==> once.len() > 0 && once[0] == '/'
            &&& forall|i: int|
                0 < i < text::split(once, '/').len() && once.len() > 1 ==> plain_segment(
                    #[trigger] text::split(once, '/')[i],
                )
            &&& once.len() > 0 && once[0] != '/' ==> plain_segment(text::split(once, '/')[0])
        }),
{
    let segments = text::split(path, '/');
    text::lemma_split(path, '/');
    lemma_kept_segments(segments, segments.len() as int);
    let kept = kept_segments(segments, segments.len() as int);
    let once = normalized_path(path, false);
    if kept.len() == 0 {
        assert(text::join(kept, '/') =~= Seq::empty());
    } else {
        assert(plain_segment(kept[0]));
        lemma_join_first(kept);
        assert(kept[0].contains(kept[0][0]));
        if path.len() > 0 && path[0] == '/' {
            let longer = seq![Seq::<char>::empty()] + kept;
            assert forall|i: int| 0 <= i < longer.len() implies !(#[trigger] longer[i]).contains(
                '/',
            ) by {
                if i > 0 {
                    assert(plain_segment(kept[i - 1]));
                }
            }
            lemma_join_leading_empty(kept);
            text::lemma_split_join(longer, '/');
            assert(text::split(once, '/') == longer);
            assert forall|i: int| 0 < i < longer.len() implies plain_segment(
                #[trigger] longer[i],
            ) by {
                assert(longer[i] == kept[i - 1]);
            }
        } else {
            assert forall|i: int| 0 <= i < kept.len() implies !(#[trigger] kept[i]).contains(
                '/',
            ) by {
                assert(plain_segment(kept[i]));
            }
            text::lemma_split_join(kept, '/');
        }
    }
}

/// How the segments at the end of a Unix path are taken: `.` and an empty one stand for where it has
/// come to, `..` undoes the segment before it, and any other is added.
pub proof fn lemma_last_segments(path: Seq<char>, segment: Seq<char>)
    requires
        path.len() > 0,
        plain_segment(segment),
    ensures
        ({
            let once = normalized_path(path, false);
            &&& normalized_path(path + seq!['/'], false) == once
            &&& normalized_path(path + seq!['/', '.'], false) == once
            &&& normalized_path(path + seq!['/'] + segment + seq!['/', '.', '.'], false) == once
            &&& normalized_path(path + seq!['/'] + segment, false) == if once.len() == 0 || once
                == seq!['/'] {
                once + segment
            } else {
                once + seq!['/'] + segment
            }
        }),
{
    reveal_strlit(".");
    reveal_strlit("..");
    let none = Seq::<char>::empty();
    let dot = seq!['.'];
    let dots = seq!['.', '.'];
    assert(dot =~= "."@ && dots =~= ".."@);
    let segments = text::split(path, '/');
    text::lemma_split(path, '/');
    let kept = kept_segments(segments, segments.len() as int);
    let longer = path.push('/') + segment;
    text::lemma_split_last(path, '/', none);
    text::lemma_split_last(path, '/', dot);
    text::lemma_split_last(path, '/', segment);
    text::lemma_split_last(longer, '/', dots);
    assert(path + seq!['/'] =~= path.push('/') + none);
    assert(path + seq!['/', '.'] =~= path.push('/') + dot);
    assert(path + seq!['/'] + segment =~= longer);
    assert(path + seq!['/'] + segment + seq!['/', '.', '.'] =~= longer.push('/') + dots);
    lemma_one_more(segments, none);
    lemma_one_more(segments, dot);
    lemma_one_more(segments, segment);
    lemma_one_more(segments.push(segment), dots);
    assert(kept.push(segment).drop_last() =~= kept);
    lemma_kept_segments(segments, segments.len() as int);
    assert(kept.push(segment).drop_last() =~= kept);
    if kept.len() == 0 {
        assert(text::join(kept, '/') =~= none);
        assert(text::join(kept.push(segment), '/') =~= segment);
        assert(normalized_path(path + seq!['/'] + segment, false) =~= normalized_path(path, false)
            + segment);
    } else {
        assert(plain_segment(kept[0]));
        lemma_join_first(kept);
        assert(kept[0].contains(kept[0][0]));
        assert(text::join(kept.push(segment), '/') =~= text::join(kept, '/') + seq!['/']
            + segment);
        assert(normalized_path(path + seq!['/'] + segment, false) =~= normalized_path(path, false)
            + seq!['/'] + segment);
        assert(normalized_path(path, false) != seq!['/']) by {
            if path[0] == '/' {
                assert(normalized_path(path, false).len() > 1);
            } else {
                assert(normalized_path(path, false)[0] != '/');
            }
        }
    }
}

proof fn lemma_one_more(segments: Seq<Seq<char>>, segment: Seq<char>)
    ensures
        ({
            let kept = kept_segments(segments, segments.len() as int);
            let more = segments.push(segment);
            kept_segments(more, more.len() as int) == if segment.len() == 0 || segment == "."@ {
                kept
            } else if segment == ".."@ {
                if kept.len() > 0 {
                    kept.drop_last()
                } else {
                    kept
                }
            } else {
                kept.push(segment)
            }
        }),
{
    lemma_kept_prefix(segments, segment, segments.len() as int);
}

proof fn lemma_kept_prefix(segments: Seq<Seq<char>>, segment: Seq<char>, n: int)
    requires
        0 <= n <= segments.len(),
    ensures
        kept_segments(segments.push(segment), n) == kept_segments(segments, n),
    decreases n,
{
    if n > 0 {
        lemma_kept_prefix(segments, segment, n - 1);
        assert(segments.push(segment)[n - 1] == segments[n - 1]);
    }
}

} // verus!
