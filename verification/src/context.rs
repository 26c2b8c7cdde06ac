//! What the plugin was invoked for.

use crate::json;
use crate::json::{as_text, children, get, maybe_tree, parse_text, text_of, tree_of, Entry, Tree};
use crate::path::FilePath;
use crate::tasks::{copy_text, maybe_text};
use serde_json::Value;
use vstd::prelude::*;
use vstd::string::*;
use vstd::utf8::*;

verus! {

/// The invoking pane, its workspace and its working directory, as far as they are known.
#[derive(Debug)]
pub struct PluginContext {
    pub pane_id: Option<String>,
    pub workspace_id: Option<String>,
    pub cwd: Option<FilePath>,
}

#[verifier::ext_equal]
pub struct ContextModel {
    pub pane_id: Option<Seq<char>>,
    pub workspace_id: Option<Seq<char>>,
    pub cwd: Option<Seq<u8>>,
}

impl DeepView for PluginContext {
    type V = ContextModel;

    open spec fn deep_view(&self) -> ContextModel {
        ContextModel {
            pane_id: maybe_text(self.pane_id),
            workspace_id: maybe_text(self.workspace_id),
            cwd: match self.cwd {
                Some(cwd) => Some(cwd@),
                None => None,
            },
        }
    }
}

/// The environment variables that describe the invocation. Variables that are not set, or
/// are not text, are left out.
#[derive(Debug)]
pub struct Environment {
    /// `HERDR_PLUGIN_CONTEXT_JSON`
    pub context_json: Option<String>,
    /// `HERDR_PLUGIN_EVENT_JSON`
    pub event_json: Option<String>,
    /// `HERDR_PANE_ID`
    pub pane_id: Option<String>,
    /// `HERDR_WORKSPACE_ID`
    pub workspace_id: Option<String>,
    /// `HERDR_ACTIVE_PANE_CWD`
    pub active_pane_cwd: Option<String>,
}

/// The value of a key in an object or, walking it in order, in the objects inside it.
pub open spec fn found(tree: Tree, key: Seq<char>) -> Option<Tree>
    decreases tree,
{
    match json::member(tree, key) {
        Some(value) => Some(value),
        None => match tree {
            Tree::Object(entries) => found_among(entries, key, entries.len() as int),
            _ => None,
        },
    }
}

/// The value of a key in the first `n` entries of an object, as far as they are objects.
pub open spec fn found_among(entries: Seq<Entry>, key: Seq<char>, n: int) -> Option<Tree>
    decreases entries, n,
{
    if n <= 0 || n > entries.len() {
        None
    } else {
        match found_among(entries, key, n - 1) {
            Some(value) => Some(value),
            None => if entries[n - 1].value is Object {
                found(entries[n - 1].value, key)
            } else {
                None
            },
        }
    }
}

/// Looks for a key in an object and in the objects inside it.
pub fn find_value<'a>(value: &'a Value, key: &str) -> (r: Option<&'a Value>)
    ensures
        maybe_tree(r) == found(tree_of(*value), key@),
    decreases tree_of(*value),
{
    if let Some(found) = get(value, key) {
        return Some(found);
    }
    let all = match children(value) {
        Some(all) => all,
        None => {
            return None;
        },
    };
    let ghost entries = tree_of(*value)->Object_0;
    let mut i: usize = 0;
    while i < all.len()
        invariant
            i <= all@.len(),
            tree_of(*value) == Tree::Object(entries),
            all@.len() == entries.len(),
            json::member(tree_of(*value), key@) is None,
            forall|j: int|
                0 <= j < entries.len() ==> tree_of(*#[trigger] all@[j]) == entries[j].value,
            found_among(entries, key@, i as int) is None,
        decreases all@.len() - i,
    {
        let child: &Value = all[i];
        assert(tree_of(*child) == entries[i as int].value);
        if children(child).is_some() {
            assert(decreases_to!(tree_of(*value) => entries));
            assert(decreases_to!(entries => entries[i as int]));
            if let Some(found) = find_value(child, key) {
                proof {
                    lemma_found_first(entries, key@, i + 1);
                }
                return Some(found);
            }
        }
        i = i + 1;
    }
    None
}

proof fn lemma_found_first(entries: Seq<Entry>, key: Seq<char>, n: int)
    requires
        0 <= n <= entries.len(),
        found_among(entries, key, n) is Some,
    ensures
        found_among(entries, key, entries.len() as int) == found_among(entries, key, n),
    decreases entries.len() - n,
{
    if n < entries.len() {
        assert(found_among(entries, key, n + 1) == found_among(entries, key, n));
        lemma_found_first(entries, key, n + 1);
    }
}

/// The text that a value has for the first of some keys under which there is one.
pub open spec fn text_for(tree: Tree, keys: Seq<Seq<char>>) -> Option<Seq<char>>
    decreases keys.len(),
{
    if keys.len() == 0 {
        None
    } else {
        let first = match found(tree, keys[0]) {
            Some(value) => text_of(value),
            None => None,
        };
        match first {
            Some(text) => Some(text),
            None => text_for(tree, keys.skip(1)),
        }
    }
}

/// The text that the first of some values that has one has for some keys.
pub open spec fn text_among(values: Seq<Option<Tree>>, keys: Seq<Seq<char>>) -> Option<Seq<char>>
    decreases values.len(),
{
    if values.len() == 0 {
        None
    } else {
        let first = match values[0] {
            Some(tree) => text_for(tree, keys),
            None => None,
        };
        match first {
            Some(text) => Some(text),
            None => text_among(values.skip(1), keys),
        }
    }
}

/// What values hold.
pub open spec fn trees(values: Seq<Option<&Value>>) -> Seq<Option<Tree>> {
    values.map_values(|value: Option<&Value>| maybe_tree(value))
}

/// The characters of several words.
pub open spec fn words(keys: Seq<&str>) -> Seq<Seq<char>> {
    keys.map_values(|key: &str| key@)
}

fn find_text(value: &Value, keys: &[&str]) -> (r: Option<String>)
    ensures
        maybe_text(r) == text_for(tree_of(*value), words(keys@)),
{
    let ghost all = words(keys@);
    let mut i: usize = 0;
    assert(all.skip(0) =~= all);
    while i < keys.len()
        invariant
            i <= keys@.len(),
            all == words(keys@),
            text_for(tree_of(*value), all) == text_for(tree_of(*value), all.skip(i as int)),
        decreases keys@.len() - i,
    {
        assert(all.skip(i as int)[0] == keys@[i as int]@);
        assert(all.skip(i as int).skip(1) =~= all.skip(i + 1));
        if let Some(found) = find_value(value, keys[i]) {
            if let Some(text) = as_text(found) {
                return Some(text.to_owned());
            }
        }
        i = i + 1;
    }
    None
}

/// Looks for a text under some keys, value by value.
pub fn find_string(values: &[Option<&Value>], keys: &[&str]) -> (r: Option<String>)
    ensures
        maybe_text(r) == text_among(trees(values@), words(keys@)),
{
    let ghost all = trees(values@);
    let mut i: usize = 0;
    assert(all.skip(0) =~= all);
    while i < values.len()
        invariant
            i <= values@.len(),
            all == trees(values@),
            text_among(all, words(keys@)) == text_among(all.skip(i as int), words(keys@)),
        decreases values@.len() - i,
    {
        assert(all.skip(i as int)[0] == maybe_tree(values@[i as int]));
        assert(all.skip(i as int).skip(1) =~= all.skip(i + 1));
        if let Some(value) = values[i] {
            if let Some(text) = find_text(value, keys) {
                return Some(text);
            }
        }
        i = i + 1;
    }
    None
}

/// What a variable with JSON holds, if it is set and is JSON.
pub open spec fn parsed(variable: Option<Seq<char>>) -> Option<Tree> {
    match variable {
        Some(text) => json::json_of_text(text),
        None => None,
    }
}

/// A text, or else another.
pub open spec fn or_else(first: Option<Seq<char>>, second: Option<Seq<char>>) -> Option<
    Seq<char>,
> {
    match first {
        Some(text) => Some(text),
        None => second,
    }
}

/// What is known of the invocation: the event goes before the context, and both before
/// the plain variables.
pub open spec fn context_of(
    values: Seq<Option<Tree>>,
    pane_id: Option<Seq<char>>,
    workspace_id: Option<Seq<char>>,
    active_pane_cwd: Option<Seq<char>>,
) -> ContextModel {
    ContextModel {
        pane_id: or_else(
            text_among(values, seq!["pane_id"@, "target_pane_id"@, "focused_pane_id"@]),
            pane_id,
        ),
        workspace_id: or_else(text_among(values, seq!["workspace_id"@]), workspace_id),
        cwd: match or_else(
            text_among(values, seq!["foreground_cwd"@, "cwd"@, "focused_pane_cwd"@]),
            active_pane_cwd,
        ) {
            Some(cwd) => Some(encode_utf8(cwd)),
            None => None,
        },
    }
}

fn parse_variable(variable: &Option<String>) -> (r: Option<Value>)
    ensures
        match r {
            Some(value) => parsed(maybe_text(*variable)) == Some(tree_of(value)),
            None => parsed(maybe_text(*variable)) is None,
        },
{
    match variable {
        Some(text) => parse_text(text.as_str()),
        None => None,
    }
}

fn either(first: Option<String>, second: &Option<String>) -> (r: Option<String>)
    ensures
        maybe_text(r) == or_else(maybe_text(first), maybe_text(*second)),
{
    match first {
        Some(text) => Some(text),
        None => copy_text(second),
    }
}

impl PluginContext {
    /// What is known of the invocation, from the values of the event and the context.
    pub fn from_values(values: &[Option<&Value>], environment: &Environment) -> (r: PluginContext)
        ensures
            r.deep_view() == context_of(
                trees(values@),
                maybe_text(environment.pane_id),
                maybe_text(environment.workspace_id),
                maybe_text(environment.active_pane_cwd),
            ),
    {
        let pane_keys = ["pane_id", "target_pane_id", "focused_pane_id"];
        let workspace_keys = ["workspace_id"];
        let cwd_keys = ["foreground_cwd", "cwd", "focused_pane_cwd"];
        proof {
            assert(words(pane_keys@) =~= seq![
                "pane_id"@,
                "target_pane_id"@,
                "focused_pane_id"@,
            ]);
            assert(words(workspace_keys@) =~= seq!["workspace_id"@]);
            assert(words(cwd_keys@) =~= seq!["foreground_cwd"@, "cwd"@, "focused_pane_cwd"@]);
        }
        let cwd = match either(
            find_string(values, cwd_keys.as_slice()),
            &environment.active_pane_cwd,
        ) {
            Some(cwd) => Some(FilePath::from_text(cwd.as_str())),
            None => None,
        };
        PluginContext {
            pane_id: either(find_string(values, pane_keys.as_slice()), &environment.pane_id),
            workspace_id: either(
                find_string(values, workspace_keys.as_slice()),
                &environment.workspace_id,
            ),
            cwd,
        }
    }

    /// What is known of the invocation.
    pub fn from_env(environment: &Environment) -> (r: PluginContext)
        ensures
            r.deep_view() == context_of(
                seq![
                    parsed(maybe_text(environment.event_json)),
                    parsed(maybe_text(environment.context_json)),
                ],
                maybe_text(environment.pane_id),
                maybe_text(environment.workspace_id),
                maybe_text(environment.active_pane_cwd),
            ),
    {
        let context = parse_variable(&environment.context_json);
        let event = parse_variable(&environment.event_json);
        let values: [Option<&Value>; 2] = [event.as_ref(), context.as_ref()];
        assert(trees(values@) =~= seq![
            parsed(maybe_text(environment.event_json)),
            parsed(maybe_text(environment.context_json)),
        ]);
        PluginContext::from_values(values.as_slice(), environment)
    }
}

} // verus!
