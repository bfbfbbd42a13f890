//! The bundles that teach the Java language server to build with Bazel.

use crate::extension::util;
use crate::json::{Json, JsonView};
use crate::json;
use crate::lsp_proxy::requests;
use crate::path;
use crate::text;
use vstd::prelude::*;
use vstd::string::*;

verus! {

broadcast use text::lemma_texts_push;

/// How the names of the required bundles begin.
pub open spec fn required_bundles() -> Seq<Seq<char>> {
    seq![
        "com.salesforce.bazel.eclipse.jdtls"@,
        "com.salesforce.bazel.eclipse.core"@,
        "com.salesforce.bazel.sdk"@,
        "com.salesforce.bazel.importedsource"@,
        "org.fusesource.jansi"@,
        "com.google.protobuf"@,
        "com.github.ben-manes.caffeine"@,
        "org.jsr-305"@,
        "org.eclipse.equinox.event"@,
    ]
}

fn required_list() -> (r: Vec<String>)
    ensures
        text::texts(r@) == required_bundles(),
{
    let mut r: Vec<String> = Vec::new();
    r.push("com.salesforce.bazel.eclipse.jdtls".to_owned());
    r.push("com.salesforce.bazel.eclipse.core".to_owned());
    r.push("com.salesforce.bazel.sdk".to_owned());
    r.push("com.salesforce.bazel.importedsource".to_owned());
    r.push("org.fusesource.jansi".to_owned());
    r.push("com.google.protobuf".to_owned());
    r.push("com.github.ben-manes.caffeine".to_owned());
    r.push("org.jsr-305".to_owned());
    r.push("org.eclipse.equinox.event".to_owned());
    assert(text::texts(r@) =~= required_bundles());
    r
}

/// The file `name` is the bundle whose name begins with `prefix`, and not its sources.
pub open spec fn is_bundle(name: Seq<char>, prefix: Seq<char>) -> bool {
    text::starts_with(name, prefix) && !text::contains_text(name, ".source_"@) && text::ends_with(
        name,
        ".jar"@,
    )
}

/// The first of `names` that is the bundle whose name begins with `prefix`, or their number.
pub open spec fn bundle_index(names: Seq<Seq<char>>, prefix: Seq<char>) -> int
    decreases names.len(),
{
    if names.len() == 0 || is_bundle(names[0], prefix) {
        0
    } else {
        1 + bundle_index(names.drop_first(), prefix)
    }
}

/// The bundles that belong to the first `n` of `prefixes`, of the files `names` in `directory`;
/// none where one is missing.
pub open spec fn bundles_in(
    directory: Seq<char>,
    names: Seq<Seq<char>>,
    prefixes: Seq<Seq<char>>,
    n: int,
) -> Option<Seq<Seq<char>>>
    decreases n,
{
    if n <= 0 || n > prefixes.len() {
        Some(Seq::empty())
    } else {
        match bundles_in(directory, names, prefixes, n - 1) {
            Some(earlier) => {
                let at = bundle_index(names, prefixes[n - 1]);
                if at < names.len() {
                    Some(earlier.push(path::joined(directory, names[at])))
                } else {
                    None
                }
            },
            None => None,
        }
    }
}

/// The required bundles, of the files `names` in `directory`; none where one is missing.
pub open spec fn all_bundles(directory: Seq<char>, names: Seq<Seq<char>>) -> Option<Seq<Seq<char>>> {
    bundles_in(directory, names, required_bundles(), required_bundles().len() as int)
}

/// What the bundles are.
pub open spec fn bundle_views(bundles: Option<Vec<String>>) -> Option<Seq<Seq<char>>> {
    match bundles {
        Some(bundles) => Some(text::texts(bundles@)),
        None => None,
    }
}

fn find_bundle(names: &Vec<String>, prefix: &str) -> (r: usize)
    ensures
        r == bundle_index(text::texts(names@), prefix@),
        r <= names@.len(),
{
    let ghost all = text::texts(names@);
    let start = text::chars_of(prefix);
    let source = text::chars_of(".source_");
    let end = text::chars_of(".jar");
    let mut i: usize = 0;
    assert(all.skip(0) =~= all);
    while i < names.len()
        invariant
            i <= names@.len(),
            all == text::texts(names@),
            start@ == prefix@,
            source@ == ".source_"@,
            end@ == ".jar"@,
            bundle_index(all, prefix@) == i + bundle_index(all.skip(i as int), prefix@),
        decreases names@.len() - i,
    {
        let ghost rest = all.skip(i as int);
        assert(rest[0] == names@[i as int]@);
        assert(rest.drop_first() =~= all.skip(i + 1));
        let chars = text::chars_of(names[i].as_str());
        if text::has_prefix(&chars, &start) && !text::has_text(&chars, &source) && text::has_suffix(
            &chars,
            &end,
        ) {
            return i;
        }
        i += 1;
    }
    i
}

/// The bundles for Bazel.
pub struct Bazel {
    /// The files that the language server is to load, once they are known.
    pub bundles: Option<Vec<String>>,
}

/// `items` with `path` among them, once.
pub open spec fn with_bundle(items: Seq<JsonView>, path: JsonView) -> Seq<JsonView> {
    if exists|i: int| 0 <= i < items.len() && (#[trigger] items[i]).same(path) {
        items
    } else {
        items.push(path)
    }
}

/// `items` with the first `n` of `paths` among them, each once.
pub open spec fn with_bundles(items: Seq<JsonView>, paths: Seq<JsonView>, n: int) -> Seq<JsonView>
    decreases n,
{
    if n <= 0 || n > paths.len() {
        items
    } else {
        with_bundle(with_bundles(items, paths, n - 1), paths[n - 1])
    }
}

/// The files `bundles` as seen from `current`.
pub open spec fn bundle_paths(current: Seq<char>, bundles: Seq<Seq<char>>) -> Seq<JsonView> {
    bundles.map_values(|bundle: Seq<char>| JsonView::Str(path::joined(current, bundle)))
}

/// `options` with the files `paths` among their bundles.
pub open spec fn with_options(options: Option<JsonView>, paths: Seq<JsonView>) -> JsonView {
    match options {
        None => JsonView::empty_object().set("bundles"@, JsonView::Array(paths)),
        Some(options) => match options.get("bundles"@) {
            Some(JsonView::Array(items)) => options.with(
                "bundles"@,
                JsonView::Array(with_bundles(items, paths, paths.len() as int)),
            ),
            _ => options.set("bundles"@, JsonView::Array(paths)),
        },
    }
}

impl Bazel {
    /// The bundles are not known.
    pub fn new() -> (r: Self)
        ensures
            r.bundles is None,
    {
        Bazel { bundles: None }
    }

    /// Whether the bundles are known.
    pub fn loaded(&self) -> (r: bool)
        ensures
            r == self.bundles is Some,
    {
        self.bundles.is_some()
    }

    /// The required bundles, of the files `names` in `directory`; none where one is missing.
    pub fn find_bundles(directory: &str, names: &Vec<String>) -> (r: Option<Vec<String>>)
        ensures
            bundle_views(r) == all_bundles(directory@, text::texts(names@)),
    {
        let prefixes = required_list();
        let ghost all = text::texts(names@);
        let mut bundles: Vec<String> = Vec::new();
        let mut i: usize = 0;
        assert(text::texts(bundles@) =~= Seq::empty());
        while i < prefixes.len()
            invariant
                i <= prefixes@.len(),
                all == text::texts(names@),
                text::texts(prefixes@) == required_bundles(),
                bundles_in(directory@, all, required_bundles(), i as int) == Some(
                    text::texts(bundles@),
                ),
            decreases prefixes@.len() - i,
        {
            assert(text::texts(prefixes@)[i as int] == prefixes@[i as int]@);
            let at = find_bundle(names, prefixes[i].as_str());
            if at == names.len() {
                proof {
                    lemma_missing(
                        directory@,
                        all,
                        required_bundles(),
                        i + 1,
                        required_bundles().len() as int,
                    );
                }
                return None;
            }
            assert(all[at as int] == names@[at as int]@);
            bundles.push(path::join_path(directory, names[at].as_str()));
            i += 1;
        }
        Some(bundles)
    }

    /// The required bundles below `directory`: those in its directory for plugins, where that is
    /// there and holds them all, or else those in `directory` itself. The names are those of the
    /// files in each, where they could be read.
    pub fn resolve_bundles(
        directory: &str,
        plugin_names: &Option<Vec<String>>,
        names: &Option<Vec<String>>,
    ) -> (r: Option<Vec<String>>)
        ensures
            ({
                let plugins = match *plugin_names {
                    Some(found) => all_bundles(
                        path::joined(directory@, "plugins"@),
                        text::texts(found@),
                    ),
                    None => None,
                };
                bundle_views(r) == match plugins {
                    Some(bundles) => Some(bundles),
                    None => match *names {
                        Some(found) => all_bundles(directory@, text::texts(found@)),
                        None => None,
                    },
                }
            }),
    {
        if let Some(found) = plugin_names {
            let plugins = path::join_path(directory, "plugins");
            if let Some(bundles) = Self::find_bundles(plugins.as_str(), found) {
                return Some(bundles);
            }
        }
        match names {
            Some(found) => Self::find_bundles(directory, found),
            None => None,
        }
    }

    /// `options` with the bundles among those that the language server is to load, each once, as
    /// seen from the directory `current`, or why that is not known.
    pub fn inject_bundles_into_options(
        &self,
        current: Result<String, String>,
        options: Option<Json>,
    ) -> (r: Result<Json, String>)
        requires
            current is Ok && self.bundles is Some && options is Some ==> options->Some_0@ is Object
                || options->Some_0@ is Null,
        ensures
            (match (current, self.bundles) {
                (Err(error), _) => r matches Err(reason) && reason@ == error@,
                (Ok(_), None) => r matches Err(reason) && reason@ == "Bazel bundles not loaded"@,
                (Ok(here), Some(bundles)) => r matches Ok(result) && result@ == with_options(
                    requests::optional(options),
                    bundle_paths(here@, text::texts(bundles@)),
                ),
            }),
    {
        broadcast use json::group_json_views;

        let here = match current {
            Ok(here) => here,
            Err(error) => return Err(error),
        };
        let bundles = match &self.bundles {
            Some(bundles) => bundles,
            None => return Err("Bazel bundles not loaded".to_owned()),
        };
        let ghost wanted = bundle_paths(here@, text::texts(bundles@));
        let mut paths: Vec<Json> = Vec::new();
        let mut i: usize = 0;
        while i < bundles.len()
            invariant
                i <= bundles@.len(),
                wanted == bundle_paths(here@, text::texts(bundles@)),
                paths@.len() == i,
                forall|j: int| 0 <= j < i ==> (#[trigger] paths@[j])@ == wanted[j],
            decreases bundles@.len() - i,
        {
            paths.push(Json::Str(path::join_path(here.as_str(), bundles[i].as_str())));
            i += 1;
        }
        assert(json::items_view(paths@) =~= wanted);
        match options {
            None => Ok(Json::empty_object().setting("bundles", Json::Array(paths))),
            Some(options) => {
                let mut options = options;
                let ghost before = options@;
                let listed = match options.get("bundles") {
                    Some(Json::Array(_)) => true,
                    _ => false,
                };
                if listed {
                    if let Some(Json::Array(items)) = options.get_mut("bundles") {
                        add_bundles(items, paths);
                    }
                } else {
                    options.set("bundles", Json::Array(paths));
                }
                Ok(options)
            },
        }
    }
}

proof fn lemma_missing(
    directory: Seq<char>,
    names: Seq<Seq<char>>,
    prefixes: Seq<Seq<char>>,
    n: int,
    all: int,
)
    requires
        0 < n <= all <= prefixes.len(),
        bundles_in(directory, names, prefixes, n) is None,
    ensures
        bundles_in(directory, names, prefixes, all) is None,
    decreases all - n,
{
    if n < all {
        lemma_missing(directory, names, prefixes, n + 1, all);
    }
}

fn add_bundles(items: &mut Vec<Json>, paths: Vec<Json>)
    ensures
        json::items_view(final(items)@) == with_bundles(
            json::items_view(old(items)@),
            json::items_view(paths@),
            paths@.len() as int,
        ),
{
    broadcast use json::group_json_views;

    let ghost start = json::items_view(items@);
    let mut i: usize = 0;
    while i < paths.len()
        invariant
            i <= paths@.len(),
            json::items_view(items@) == with_bundles(
                start,
                json::items_view(paths@),
                i as int,
            ),
        decreases paths@.len() - i,
    {
        let ghost before = json::items_view(items@);
        assert(json::items_view(paths@)[i as int] == paths@[i as int]@);
        let mut found = false;
        let mut j: usize = 0;
        while j < items.len()
            invariant
                j <= items@.len(),
                i < paths@.len(),
                before == json::items_view(items@),
                found == exists|k: int|
                    0 <= k < j && (#[trigger] before[k]).same(paths@[i as int]@),
            decreases items@.len() - j,
        {
            assert(before[j as int] == items@[j as int]@);
            if items[j].same(&paths[i]) {
                found = true;
            }
            j += 1;
        }
        if !found {
            items.push(paths[i].clone());
        }
        i += 1;
    }
}

/// What to do first for the bundles.
pub enum BazelStep {
    /// They are known already.
    Loaded,
    /// Use those in the directory that the settings name.
    Configured(String),
    /// Use the installed ones, which are in this directory.
    Local(String),
    Download,
    Fail(String),
}

impl Bazel {
    /// What to do first for the bundles: nothing where they are known, or else to use those in the
    /// directory that the settings name, or those that are installed, or to download them.
    pub fn first_step(
        &self,
        configuration: &Option<Json>,
        configured: Option<String>,
        local: Option<String>,
        checked_once: bool,
    ) -> (r: BazelStep)
        ensures
            r is Loaded <==> self.bundles is Some,
            self.bundles is None ==> match configured {
                Some(directory) => r == BazelStep::Configured(directory),
                None => match util::policy(
                    requests::optional(*configuration),
                    local,
                    "bazel"@,
                    checked_once,
                ) {
                    Ok(Some(directory)) => r == BazelStep::Local(directory),
                    Ok(None) => r is Download,
                    Err(error) => (r matches BazelStep::Fail(reason) && reason@ == error),
                },
            },
    {
        if self.bundles.is_some() {
            return BazelStep::Loaded;
        }
        if let Some(directory) = configured {
            return BazelStep::Configured(directory);
        }
        match util::should_use_local_or_download(configuration, local, "bazel", checked_once) {
            Ok(Some(directory)) => BazelStep::Local(directory),
            Ok(None) => BazelStep::Download,
            Err(error) => BazelStep::Fail(error),
        }
    }
}

/// Why a step for the bundles fails where they are not found after it.
pub open spec fn missing_bundles(step: BazelStep) -> Seq<char> {
    match step {
        BazelStep::Configured(directory) =>
            "No Bazel bundles found at configured bazel_path: "@ + directory@,
        BazelStep::Local(_) => "Bazel bundles missing from local installation"@,
        _ => "Failed to find Bazel bundles after extraction"@,
    }
}

/// Where the bundles are once a step for them is taken.
pub open spec fn bundle_directory(step: BazelStep) -> Seq<char> {
    match step {
        BazelStep::Configured(directory) => directory@,
        BazelStep::Local(directory) => directory@,
        _ => path::joined("bazel"@, "plugins"@),
    }
}

impl Bazel {
    /// The step `step` is taken, after which the bundles `found` were found where it points: they
    /// are the ones to load from now on. Says which directory they are in, or why there are none.
    pub fn settle(&mut self, step: &BazelStep, found: Option<Vec<String>>) -> (r: Result<
        String,
        String,
    >)
        ensures
            (match step {
                BazelStep::Loaded => *final(self) == *old(self) && (r matches Ok(directory)
                    && directory@ == bundle_directory(*step)),
                BazelStep::Fail(error) => *final(self) == *old(self) && (r matches Err(reason)
                    && reason@ == error@),
                _ => match found {
                    Some(_) => final(self).bundles == found && (r matches Ok(directory)
                        && directory@ == bundle_directory(*step)),
                    None => *final(self) == *old(self) && (r matches Err(reason) && reason@
                        == missing_bundles(*step)),
                },
            }),
    {
        match step {
            BazelStep::Loaded => Ok(path::join_path("bazel", "plugins")),
            BazelStep::Fail(error) => Err(error.clone()),
            BazelStep::Configured(directory) => {
                if found.is_none() {
                    let mut reason = "No Bazel bundles found at configured bazel_path: ".to_owned();
                    reason.append(directory.as_str());
                    return Err(reason);
                }
                self.bundles = found;
                Ok(directory.clone())
            },
            BazelStep::Local(directory) => {
                if found.is_none() {
                    return Err("Bazel bundles missing from local installation".to_owned());
                }
                self.bundles = found;
                Ok(directory.clone())
            },
            BazelStep::Download => {
                if found.is_none() {
                    return Err("Failed to find Bazel bundles after extraction".to_owned());
                }
                self.bundles = found;
                Ok(path::join_path("bazel", "plugins"))
            },
        }
    }
}

/// The first file that is the bundle is found, where there is one.
proof fn lemma_bundle_index(names: Seq<Seq<char>>, prefix: Seq<char>)
    ensures
        0 <= bundle_index(names, prefix) <= names.len(),
        bundle_index(names, prefix) < names.len() ==> is_bundle(
            names[bundle_index(names, prefix)],
            prefix,
        ),
        forall|j: int|
            0 <= j < bundle_index(names, prefix) ==> !is_bundle(#[trigger] names[j], prefix),
    decreases names.len(),
{
    if names.len() > 0 && !is_bundle(names[0], prefix) {
        let rest = names.drop_first();
        lemma_bundle_index(rest, prefix);
        assert forall|j: int| 0 <= j < bundle_index(names, prefix) implies !is_bundle(
            #[trigger] names[j],
            prefix,
        ) by {
            if j > 0 {
                assert(names[j] == rest[j - 1]);
            }
        }
    }
}

/// Some file among `names` is the bundle whose name begins with `prefix`.
pub open spec fn has_bundle(names: Seq<Seq<char>>, prefix: Seq<char>) -> bool {
    exists|j: int| 0 <= j < names.len() && is_bundle(#[trigger] names[j], prefix)
}

/// `bundle` is a file among `names` in `directory`, and the bundle whose name begins with `prefix`.
pub open spec fn bundle_from(
    directory: Seq<char>,
    names: Seq<Seq<char>>,
    prefix: Seq<char>,
    bundle: Seq<char>,
) -> bool {
    exists|j: int|
        0 <= j < names.len() && is_bundle(#[trigger] names[j], prefix) && bundle == path::joined(
            directory,
            names[j],
        )
}

proof fn lemma_bundles_in(
    directory: Seq<char>,
    names: Seq<Seq<char>>,
    prefixes: Seq<Seq<char>>,
    n: int,
)
    requires
        0 <= n <= prefixes.len(),
    ensures
        bundles_in(directory, names, prefixes, n) is Some <==> (forall|i: int|
            0 <= i < n ==> has_bundle(names, #[trigger] prefixes[i])),
        bundles_in(directory, names, prefixes, n) matches Some(bundles) ==> bundles.len() == n && (
        forall|i: int|
            0 <= i < n ==> bundle_from(directory, names, prefixes[i], #[trigger] bundles[i])),
    decreases n,
{
    if n > 0 {
        lemma_bundles_in(directory, names, prefixes, n - 1);
        lemma_bundle_index(names, prefixes[n - 1]);
        if bundle_index(names, prefixes[n - 1]) < names.len() {
            assert(is_bundle(names[bundle_index(names, prefixes[n - 1])], prefixes[n - 1]));
        }
    }
}

/// The bundles are found just where each of the required ones is there, and they are those, in the
/// order in which they are required.
pub proof fn lemma_bundles_complete(directory: Seq<char>, names: Seq<Seq<char>>)
    ensures
        all_bundles(directory, names) is Some <==> (forall|i: int|
            0 <= i < required_bundles().len() ==> has_bundle(
                names,
                #[trigger] required_bundles()[i],
            )),
        all_bundles(directory, names) matches Some(bundles) ==> bundles.len()
            == required_bundles().len() && (forall|i: int|
            0 <= i < bundles.len() ==> bundle_from(
                directory,
                names,
                required_bundles()[i],
                #[trigger] bundles[i],
            )),
{
    lemma_bundles_in(directory, names, required_bundles(), required_bundles().len() as int);
}

/// `path` is among `items`.
pub open spec fn listed(items: Seq<JsonView>, path: JsonView) -> bool {
    exists|i: int| 0 <= i < items.len() && (#[trigger] items[i]).same(path)
}

proof fn lemma_bundles_listed(items: Seq<JsonView>, paths: Seq<JsonView>, n: int)
    requires
        0 <= n <= paths.len(),
    ensures
        forall|path: JsonView| #[trigger]
            listed(items, path) ==> listed(with_bundles(items, paths, n), path),
        forall|i: int| 0 <= i < n ==> listed(with_bundles(items, paths, n), #[trigger] paths[i]),
    decreases n,
{
    if n > 0 {
        lemma_bundles_listed(items, paths, n - 1);
        let earlier = with_bundles(items, paths, n - 1);
        let all = with_bundles(items, paths, n);
        assert forall|path: JsonView| listed(earlier, path) implies #[trigger] listed(all, path) by {
            let i = choose|i: int| 0 <= i < earlier.len() && (#[trigger] earlier[i]).same(path);
            assert(all[i] == earlier[i]);
        }
        assert(listed(all, paths[n - 1])) by {
            if !listed(earlier, paths[n - 1]) {
                assert(all[earlier.len() as int].same(paths[n - 1]));
            }
        }
    }
}

proof fn lemma_listed_bundles_stay(items: Seq<JsonView>, paths: Seq<JsonView>, n: int)
    requires
        0 <= n <= paths.len(),
        forall|i: int| 0 <= i < n ==> listed(items, #[trigger] paths[i]),
    ensures
        with_bundles(items, paths, n) == items,
    decreases n,
{
    if n > 0 {
        lemma_listed_bundles_stay(items, paths, n - 1);
        assert(listed(items, paths[n - 1]));
    }
}

/// Once the bundles are among those to load, adding them again changes nothing.
pub proof fn lemma_bundles_added_once(options: Option<JsonView>, paths: Seq<JsonView>)
    requires
        options matches Some(options) ==> options is Object || options is Null,
    ensures
        with_options(Some(with_options(options, paths)), paths) == with_options(options, paths),
{
    let key = "bundles"@;
    let n = paths.len() as int;
    let once = with_options(options, paths);
    let before = match options {
        Some(options) => options,
        None => JsonView::empty_object(),
    };
    let items = match before.get(key) {
        Some(JsonView::Array(items)) if options is Some => with_bundles(items, paths, n),
        _ => paths,
    };
    match before.get(key) {
        Some(JsonView::Array(held)) if options is Some => {
            json::lemma_get_replaced(before, key, JsonView::Array(items));
            lemma_bundles_listed(held, paths, n);
        },
        _ => {
            json::lemma_get_after_set(before, key, JsonView::Array(paths), key);
            assert forall|i: int| 0 <= i < n implies listed(paths, #[trigger] paths[i]) by {
                assert(paths[i].same(paths[i]));
            }
        },
    }
    assert(once.get(key) == Some(JsonView::Array(items)));
    lemma_listed_bundles_stay(items, paths, n);
    json::lemma_replaced_by_itself(once, key);
}

/// The bundles are found only where there is a file for each of those that are required: one whose name
/// begins with that of the bundle, ends in `.jar`, and is not that of its sources. They come in the order
/// in which they are required, each below the directory.
pub proof fn lemma_required_bundles(directory: Seq<char>, names: Seq<Seq<char>>, i: int)
    requires
        0 <= i < 9,
    ensures
        required_bundles().len() == 9,
        all_bundles(directory, names) matches Some(found) ==> found.len() == 9 && exists|k: int|
            0 <= k < names.len() && found[i] == path::joined(directory, #[trigger] names[k])
                && names_bundle(names[k], required_bundles()[i]),
        all_bundles(directory, names) is None ==> exists|j: int|
            0 <= j < 9 && forall|k: int|
                0 <= k < names.len() ==> !names_bundle(
                    #[trigger] names[k],
                    #[trigger] required_bundles()[j],
                ),
{
    lemma_found_bundles(directory, names, 9, i);
}

/// `name` is `prefix`, something and `.jar`, and does not hold `.source_`.
pub open spec fn names_bundle(name: Seq<char>, prefix: Seq<char>) -> bool {
    &&& prefix.is_prefix_of(name)
    &&& ".jar"@.is_suffix_of(name)
    &&& !text::contains_text(name, ".source_"@)
}

proof fn lemma_names_bundle(name: Seq<char>, prefix: Seq<char>)
    ensures
        names_bundle(name, prefix) == is_bundle(name, prefix),
{
    if prefix.len() <= name.len() {
        assert(name.subrange(0, prefix.len() as int) == name.take(prefix.len() as int));
    }
    let n = name.len() as int;
    let end = ".jar"@;
    if end.len() <= n {
        assert(name.subrange(n - end.len(), n) == name.skip(n - end.len()));
    }
}

proof fn lemma_found_bundles(directory: Seq<char>, names: Seq<Seq<char>>, n: int, i: int)
    requires
        0 <= n <= 9,
    ensures
        (match bundles_in(directory, names, required_bundles(), n) {
            Some(found) => found.len() == n && (0 <= i < n ==> exists|k: int|
                0 <= k < names.len() && found[i] == path::joined(directory, #[trigger] names[k])
                    && names_bundle(names[k], required_bundles()[i])),
            None => exists|j: int|
                0 <= j < n && forall|k: int|
                    0 <= k < names.len() ==> !names_bundle(
                        #[trigger] names[k],
                        #[trigger] required_bundles()[j],
                    ),
        }),
    decreases n,
{
    if n > 0 {
        lemma_found_bundles(directory, names, n - 1, i);
        let prefix = required_bundles()[n - 1];
        let at = bundle_index(names, prefix);
        lemma_bundle_index(names, prefix);
        assert forall|k: int| 0 <= k < names.len() implies names_bundle(
            #[trigger] names[k],
            prefix,
        ) == is_bundle(names[k], prefix) by {
            lemma_names_bundle(names[k], prefix);
        }
    }
}

/// `options` name `path` among the bundles that the language server is to load.
pub open spec fn loads(options: JsonView, path: JsonView) -> bool {
    options.get("bundles"@) matches Some(JsonView::Array(items)) && listed(items, path)
}

proof fn lemma_loads(options: JsonView, items: Seq<JsonView>, k: int, path: JsonView)
    requires
        options.get("bundles"@) == Some(JsonView::Array(items)),
        0 <= k < items.len(),
        items[k].same(path),
    ensures
        loads(options, path),
{
    assert(listed(items, path));
}

/// The language server gets the bundles as seen from the current directory, besides those that the
/// options name already, which stay and come first; and what else the options hold stays.
pub proof fn lemma_bundles_injected(
    options: JsonView,
    current: Seq<char>,
    bundles: Seq<Seq<char>>,
    i: int,
    key: Seq<char>,
)
    requires
        options is Object || options is Null,
    ensures
        ({
            let paths = bundle_paths(current, bundles);
            let after = with_options(Some(options), paths);
            let alone = with_options(None, paths);
            &&& key != "bundles"@ ==> after.get(key) == options.get(key)
            &&& 0 <= i < bundles.len() ==> loads(
                after,
                JsonView::Str(path::joined(current, bundles[i])),
            )
            &&& options.get("bundles"@) matches Some(JsonView::Array(before)) ==> (after.get(
                "bundles"@,
            ) matches Some(JsonView::Array(items)) && before.is_prefix_of(items))
            &&& alone.get("bundles"@) matches Some(JsonView::Array(items)) && items.len()
                == bundles.len() && (0 <= i < bundles.len() ==> items[i] == JsonView::Str(
                path::joined(current, bundles[i]),
            ))
        }),
{
    let paths = bundle_paths(current, bundles);
    let none = JsonView::empty_object();
    json::lemma_get_after_set(none, "bundles"@, JsonView::Array(paths), key);
    if 0 <= i < bundles.len() {
        assert(paths[i] == JsonView::Str(path::joined(current, bundles[i])));
    }
    match options.get("bundles"@) {
        Some(JsonView::Array(items)) => {
            let after = with_bundles(items, paths, paths.len() as int);
            json::lemma_get_replaced(options, "bundles"@, JsonView::Array(after));
            json::lemma_get_kept(options, "bundles"@, key);
            lemma_bundles_stay_first(items, paths, paths.len() as int);
            if 0 <= i < bundles.len() {
                lemma_bundle_there(items, paths, i, paths.len() as int);
                let k = choose|k: int|
                    0 <= k < after.len() && (#[trigger] after[k]).same(paths[i]);
                lemma_loads(with_options(Some(options), paths), after, k, paths[i]);
            }
        },
        _ => {
            json::lemma_get_after_set(options, "bundles"@, JsonView::Array(paths), key);
            if 0 <= i < bundles.len() {
                assert(paths[i].same(paths[i]));
                assert(loads(with_options(Some(options), paths), paths[i]));
            }
        },
    }
}

proof fn lemma_bundles_stay_first(items: Seq<JsonView>, paths: Seq<JsonView>, n: int)
    ensures
        items.is_prefix_of(with_bundles(items, paths, n)),
    decreases n,
{
    if 0 < n <= paths.len() {
        lemma_bundles_stay_first(items, paths, n - 1);
        let earlier = with_bundles(items, paths, n - 1);
        let after = with_bundles(items, paths, n);
        assert(after.take(items.len() as int) =~= earlier.take(items.len() as int));
    }
}

proof fn lemma_bundle_there(items: Seq<JsonView>, paths: Seq<JsonView>, i: int, n: int)
    requires
        0 <= i < n <= paths.len(),
    ensures
        exists|k: int|
            0 <= k < with_bundles(items, paths, n).len() && (#[trigger] with_bundles(
                items,
                paths,
                n,
            )[k]).same(paths[i]),
    decreases n,
{
    let earlier = with_bundles(items, paths, n - 1);
    let after = with_bundles(items, paths, n);
    if i < n - 1 {
        lemma_bundle_there(items, paths, i, n - 1);
        let k = choose|k: int| 0 <= k < earlier.len() && (#[trigger] earlier[k]).same(paths[i]);
        assert(after[k] == earlier[k]);
    } else if exists|k: int| 0 <= k < earlier.len() && (#[trigger] earlier[k]).same(paths[i]) {
        let k = choose|k: int| 0 <= k < earlier.len() && (#[trigger] earlier[k]).same(paths[i]);
        assert(after[k].same(paths[i]));
    } else {
        assert(after[after.len() - 1] == paths[i]);
        assert(after[after.len() - 1].same(paths[i]));
    }
}

/// The bundles are in the directory that a step names, or where a download is unpacked; where they are
/// not found there, the reason says which it was.
pub proof fn lemma_bundle_places(directory: String)
    ensures
        bundle_directory(BazelStep::Configured(directory)) == directory@,
        bundle_directory(BazelStep::Local(directory)) == directory@,
        bundle_directory(BazelStep::Download) == "bazel/plugins"@,
        bundle_directory(BazelStep::Loaded) == "bazel/plugins"@,
        missing_bundles(BazelStep::Configured(directory))
            == "No Bazel bundles found at configured bazel_path: "@ + directory@,
        missing_bundles(BazelStep::Local(directory))
            == "Bazel bundles missing from local installation"@,
        missing_bundles(BazelStep::Download) == "Failed to find Bazel bundles after extraction"@,
{
    reveal_strlit("bazel");
    reveal_strlit("plugins");
    reveal_strlit("bazel/plugins");
    path::lemma_joined("bazel"@, "plugins"@);
    assert("bazel"@ + seq!['/'] + "plugins"@ =~= "bazel/plugins"@);
}

} // verus!
