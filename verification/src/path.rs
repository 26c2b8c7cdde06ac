//! File paths as byte strings, compared component by component.

use crate::text;
use crate::text::{lossy_text, utf8_text};
use vstd::prelude::*;
use vstd::string::*;
use vstd::utf8::*;

verus! {

/// A file path in the form in which the system gives it: any bytes but zero,
/// with slashes between components.
#[derive(Debug)]
pub struct FilePath {
    pub bytes: Vec<u8>,
}

impl View for FilePath {
    type V = Seq<u8>;

    open spec fn view(&self) -> Seq<u8> {
        self.bytes@
    }
}

impl DeepView for FilePath {
    type V = Seq<u8>;

    open spec fn deep_view(&self) -> Seq<u8> {
        self@
    }
}

/// One component of a path.
#[verifier::ext_equal]
pub enum Component {
    Root,
    Current,
    Parent,
    Normal(Seq<u8>),
}

/// A component together with the end of its text in the path.
#[verifier::ext_equal]
pub struct Mark {
    pub component: Component,
    pub end: int,
}

/// The position of the first slash at or after `at`, or the length.
pub open spec fn next_slash(path: Seq<u8>, at: int) -> int
    decreases path.len() - at,
{
    if at < 0 || at >= path.len() {
        path.len() as int
    } else if path[at] == 47 {
        at
    } else {
        next_slash(path, at + 1)
    }
}

/// The component that the text between two slashes stands for, if any: nothing
/// stands for none, and a dot only counts at the beginning of the path.
pub open spec fn component_of(part: Seq<u8>, first: bool) -> Option<Component> {
    if part.len() == 0 {
        None
    } else if part == seq![46u8] {
        if first {
            Some(Component::Current)
        } else {
            None
        }
    } else if part == seq![46u8, 46u8] {
        Some(Component::Parent)
    } else {
        Some(Component::Normal(part))
    }
}

/// The components from position `at` on, where a part begins.
pub open spec fn marks_from(path: Seq<u8>, at: int) -> Seq<Mark>
    decreases path.len() - at,
    via marks_from_decreases
{
    if at < 0 || at > path.len() {
        Seq::empty()
    } else {
        let end = next_slash(path, at);
        let rest = if end >= path.len() {
            Seq::empty()
        } else {
            marks_from(path, end + 1)
        };
        match component_of(path.subrange(at, end), at == 0) {
            Some(component) => seq![Mark { component, end }] + rest,
            None => rest,
        }
    }
}

#[via_fn]
proof fn marks_from_decreases(path: Seq<u8>, at: int) {
    lemma_next_slash(path, at);
}

proof fn lemma_next_slash(path: Seq<u8>, at: int)
    ensures
        0 <= at <= path.len() ==> at <= next_slash(path, at) <= path.len(),
    decreases path.len() - at,
{
    if 0 <= at < path.len() && path[at] != 47 {
        lemma_next_slash(path, at + 1);
    }
}

/// The path begins with a slash.
pub open spec fn absolute(path: Seq<u8>) -> bool {
    path.len() > 0 && path[0] == 47
}

/// The components of a path with the ends of their texts.
pub open spec fn marks(path: Seq<u8>) -> Seq<Mark> {
    if absolute(path) {
        seq![Mark { component: Component::Root, end: 1 }] + marks_from(path, 0)
    } else {
        marks_from(path, 0)
    }
}

/// The components of a path.
pub open spec fn components(path: Seq<u8>) -> Seq<Component> {
    marks(path).map_values(|mark: Mark| mark.component)
}

/// Two paths have the same components.
pub open spec fn same(a: Seq<u8>, b: Seq<u8>) -> bool {
    components(a) == components(b)
}

/// The path without its last component, if that is not the root.
pub open spec fn parent(path: Seq<u8>) -> Option<Seq<u8>> {
    let all = marks(path);
    if all.len() == 0 || all.last().component is Root {
        None
    } else if all.len() == 1 {
        Some(path.take(0))
    } else {
        Some(path.take(all[all.len() - 2].end))
    }
}

/// The path without its last components, as many as are said.
pub open spec fn ancestor(path: Seq<u8>, count: nat) -> Option<Seq<u8>>
    decreases count,
{
    if count == 0 {
        Some(path)
    } else {
        match ancestor(path, (count - 1) as nat) {
            Some(above) => parent(above),
            None => None,
        }
    }
}

/// The text of a component.
pub open spec fn component_bytes(component: Component) -> Seq<u8> {
    match component {
        Component::Root => seq![47u8],
        Component::Current => seq![46u8],
        Component::Parent => seq![46u8, 46u8],
        Component::Normal(name) => name,
    }
}

/// The path of several components.
pub open spec fn path_through(all: Seq<Component>) -> Seq<u8>
    decreases all.len(),
{
    if all.len() == 0 {
        Seq::empty()
    } else {
        joined(path_through(all.drop_last()), component_bytes(all.last()))
    }
}

/// The path of the last components, as many as are said or as there are.
pub open spec fn tail(path: Seq<u8>, count: nat) -> Seq<u8> {
    let all = components(path);
    path_through(
        if count <= all.len() {
            all.skip(all.len() - count)
        } else {
            all
        },
    )
}

/// The last component, if it is a name.
pub open spec fn file_name(path: Seq<u8>) -> Option<Seq<u8>> {
    let all = marks(path);
    if all.len() == 0 {
        None
    } else {
        match all.last().component {
            Component::Normal(name) => Some(name),
            _ => None,
        }
    }
}

/// The position of the last dot, or -1.
pub open spec fn last_dot(name: Seq<u8>) -> int
    decreases name.len(),
{
    if name.len() == 0 {
        -1
    } else if name.last() == 46 {
        name.len() - 1
    } else {
        last_dot(name.drop_last())
    }
}

/// What follows the last dot of the file name, if the name does not begin there.
pub open spec fn extension(path: Seq<u8>) -> Option<Seq<u8>> {
    match file_name(path) {
        Some(name) => {
            let dot = last_dot(name);
            if dot <= 0 {
                None
            } else {
                Some(name.skip(dot + 1))
            }
        },
        None => None,
    }
}

/// A path followed by another one; an absolute path replaces what is before it.
pub open spec fn joined(base: Seq<u8>, other: Seq<u8>) -> Seq<u8> {
    if absolute(other) {
        other
    } else if base.len() > 0 && base.last() != 47 {
        base.push(47) + other
    } else {
        base + other
    }
}

/// The place of a component in the order of components of different kinds.
pub open spec fn rank(component: Component) -> int {
    match component {
        Component::Root => 0,
        Component::Current => 1,
        Component::Parent => 2,
        Component::Normal(_) => 3,
    }
}

/// Lexicographic order of byte strings: -1, 0 or 1.
pub open spec fn bytes_order(a: Seq<u8>, b: Seq<u8>) -> int
    decreases a.len(),
{
    if a.len() == 0 {
        if b.len() == 0 {
            0
        } else {
            -1
        }
    } else if b.len() == 0 {
        1
    } else if a[0] < b[0] {
        -1
    } else if a[0] > b[0] {
        1
    } else {
        bytes_order(a.skip(1), b.skip(1))
    }
}

/// The order of two components: -1, 0 or 1.
pub open spec fn component_order(a: Component, b: Component) -> int {
    if rank(a) < rank(b) {
        -1
    } else if rank(a) > rank(b) {
        1
    } else {
        match (a, b) {
            (Component::Normal(x), Component::Normal(y)) => bytes_order(x, y),
            _ => 0,
        }
    }
}

/// Lexicographic order of component sequences: -1, 0 or 1.
pub open spec fn components_order(a: Seq<Component>, b: Seq<Component>) -> int
    decreases a.len(),
{
    if a.len() == 0 {
        if b.len() == 0 {
            0
        } else {
            -1
        }
    } else if b.len() == 0 {
        1
    } else {
        let first = component_order(a[0], b[0]);
        if first != 0 {
            first
        } else {
            components_order(a.skip(1), b.skip(1))
        }
    }
}

/// The order of two paths by their components: -1, 0 or 1.
pub open spec fn path_order(a: Seq<u8>, b: Seq<u8>) -> int {
    components_order(components(a), components(b))
}

/// The text of a path, with replacement characters where it is not UTF-8.
pub open spec fn shown(path: Seq<u8>) -> Seq<char> {
    text::utf8_lossy(path)
}

/// The name that a path ends in, or the whole path where there is none.
pub open spec fn short_name(path: Seq<u8>) -> Seq<char> {
    match file_name(path) {
        Some(name) => text::utf8_lossy(name),
        None => shown(path),
    }
}

// ---------------------------------------------------------------------------
// Laws of joining
// ---------------------------------------------------------------------------

/// The components from a position on.
spec fn components_from(path: Seq<u8>, at: int) -> Seq<Component> {
    marks_from(path, at).map_values(|mark: Mark| mark.component)
}

/// The components without a dot in front.
spec fn without_current(all: Seq<Component>) -> Seq<Component> {
    if all.len() > 0 && all[0] is Current {
        all.skip(1)
    } else {
        all
    }
}

proof fn lemma_components_step(path: Seq<u8>, at: int)
    requires
        0 <= at <= path.len(),
    ensures
        ({
            let end = next_slash(path, at);
            let rest = if end >= path.len() {
                Seq::empty()
            } else {
                components_from(path, end + 1)
            };
            components_from(path, at) == match component_of(path.subrange(at, end), at == 0) {
                Some(component) => seq![component] + rest,
                None => rest,
            }
        }),
{
    let end = next_slash(path, at);
    let rest = if end >= path.len() {
        Seq::empty()
    } else {
        marks_from(path, end + 1)
    };
    if let Some(component) = component_of(path.subrange(at, end), at == 0) {
        assert(components_from(path, at) =~= seq![component] + rest.map_values(
            |mark: Mark| mark.component,
        ));
        assert(end >= path.len() ==> rest.map_values(|mark: Mark| mark.component)
            =~= Seq::<Component>::empty());
    } else {
        assert(components_from(path, at) =~= rest.map_values(|mark: Mark| mark.component));
        assert(end >= path.len() ==> rest.map_values(|mark: Mark| mark.component)
            =~= Seq::<Component>::empty());
    }
}

proof fn lemma_slash_behind(front: Seq<u8>, rest: Seq<u8>, at: int)
    requires
        0 <= at <= rest.len(),
    ensures
        next_slash(front + rest, front.len() + at) == front.len() + next_slash(rest, at),
    decreases rest.len() - at,
{
    if at < rest.len() {
        assert((front + rest)[front.len() + at] == rest[at]);
        if rest[at] != 47 {
            lemma_slash_behind(front, rest, at + 1);
        }
    }
}

/// Behind a prefix the parts of a path stand for the same, but for a dot in front.
proof fn lemma_components_behind(front: Seq<u8>, rest: Seq<u8>, at: int)
    requires
        0 <= at <= rest.len(),
        front.len() > 0,
        !absolute(rest),
    ensures
        components_from(front + rest, front.len() + at) == if at == 0 {
            without_current(components_from(rest, 0))
        } else {
            components_from(rest, at)
        },
    decreases rest.len() - at,
{
    let whole = front + rest;
    let end = next_slash(rest, at);
    lemma_next_slash(rest, at);
    lemma_slash_behind(front, rest, at);
    lemma_components_step(rest, at);
    lemma_components_step(whole, front.len() + at);
    assert(whole.subrange(front.len() + at, front.len() + end) =~= rest.subrange(at, end));
    if end < rest.len() {
        lemma_components_behind(front, rest, end + 1);
    }
    if at == 0 {
        let part = rest.subrange(0, end);
        let later = if end >= rest.len() {
            Seq::empty()
        } else {
            components_from(rest, end + 1)
        };
        if part.len() == 0 {
            if rest.len() > 0 {
                lemma_next_slash(rest, 1);
            }
            assert(rest.len() == 0);
        } else if part == seq![46u8] {
            assert((seq![Component::Current] + later).skip(1) =~= later);
        } else {
            let component = component_of(part, true)->0;
            assert((seq![component] + later)[0] == component);
        }
    }
}

proof fn lemma_slash_before(base: Seq<u8>, rest: Seq<u8>, at: int)
    requires
        0 <= at <= base.len(),
    ensures
        next_slash(base.push(47) + rest, at) == next_slash(base, at),
    decreases base.len() - at,
{
    let whole = base.push(47) + rest;
    if at < base.len() {
        assert(whole[at] == base[at]);
        if base[at] != 47 {
            lemma_slash_before(base, rest, at + 1);
        }
    } else {
        assert(whole[at] == 47);
    }
}

/// The components of two paths with a slash between them come one after the other.
proof fn lemma_components_before(base: Seq<u8>, rest: Seq<u8>, at: int)
    requires
        0 <= at <= base.len(),
    ensures
        components_from(base.push(47) + rest, at) == components_from(base, at) + components_from(
            base.push(47) + rest,
            base.len() as int + 1,
        ),
    decreases base.len() - at,
{
    let whole = base.push(47) + rest;
    let tail = components_from(whole, base.len() as int + 1);
    let end = next_slash(base, at);
    lemma_next_slash(base, at);
    lemma_slash_before(base, rest, at);
    lemma_components_step(base, at);
    lemma_components_step(whole, at);
    assert(whole.subrange(at, end) =~= base.subrange(at, end));
    if end < base.len() {
        lemma_components_before(base, rest, end + 1);
        let later = components_from(base, end + 1);
        if let Some(component) = component_of(base.subrange(at, end), at == 0) {
            assert(seq![component] + (later + tail) =~= (seq![component] + later) + tail);
        }
    } else if let Some(component) = component_of(base.subrange(at, end), at == 0) {
        assert(seq![component] + tail =~= (seq![component] + Seq::empty()) + tail);
    } else {
        assert(tail =~= Seq::<Component>::empty() + tail);
    }
}

proof fn lemma_no_root(path: Seq<u8>, at: int)
    requires
        0 <= at <= path.len(),
    ensures
        forall|i: int|
            0 <= i < components_from(path, at).len() ==> !((#[trigger] components_from(
                path,
                at,
            )[i]) is Root),
    decreases path.len() - at,
{
    let end = next_slash(path, at);
    lemma_next_slash(path, at);
    lemma_components_step(path, at);
    if end < path.len() {
        lemma_no_root(path, end + 1);
    }
}

/// Same paths joined to a directory are the same.
pub proof fn joining_same_paths(base: Seq<u8>, a: Seq<u8>, b: Seq<u8>)
    requires
        base.len() > 0,
        base.last() != 47,
        same(a, b),
    ensures
        same(joined(base, a), joined(base, b)),
{
    lemma_no_root(a, 0);
    lemma_no_root(b, 0);
    let root = seq![Component::Root];
    if absolute(a) {
        assert(components(a) =~= root + components_from(a, 0));
    } else {
        assert(components(a) =~= components_from(a, 0));
    }
    if absolute(b) {
        assert(components(b) =~= root + components_from(b, 0));
    } else {
        assert(components(b) =~= components_from(b, 0));
    }
    if absolute(a) {
        assert(components(a)[0] is Root);
        assert(absolute(b));
    } else if absolute(b) {
        assert(components(b)[0] is Root);
        assert(false);
    } else {
        let front = base.push(47);
        lemma_components_before(base, a, 0);
        lemma_components_before(base, b, 0);
        lemma_components_behind(front, a, 0);
        lemma_components_behind(front, b, 0);
        assert(components_from(front + a, 0) == components_from(front + b, 0));
        assert((front + a)[0] == base[0]);
        assert((front + b)[0] == base[0]);
        if absolute(base) {
            assert(components(front + a) =~= root + components_from(front + a, 0));
            assert(components(front + b) =~= root + components_from(front + b, 0));
        } else {
            assert(components(front + a) =~= components_from(front + a, 0));
            assert(components(front + b) =~= components_from(front + b, 0));
        }
    }
}

/// The name of a file or directory: not empty, without a slash, and no dots that lead
/// elsewhere.
pub open spec fn plain_name(name: Seq<u8>) -> bool {
    &&& name.len() > 0
    &&& !name.contains(47)
    &&& name != seq![46u8]
    &&& name != seq![46u8, 46u8]
}

proof fn lemma_marks_before(base: Seq<u8>, rest: Seq<u8>, at: int)
    requires
        0 <= at <= base.len(),
    ensures
        marks_from(base.push(47) + rest, at) == marks_from(base, at) + marks_from(
            base.push(47) + rest,
            base.len() as int + 1,
        ),
    decreases base.len() - at,
{
    let whole = base.push(47) + rest;
    let tail = marks_from(whole, base.len() as int + 1);
    let end = next_slash(base, at);
    lemma_next_slash(base, at);
    lemma_slash_before(base, rest, at);
    assert(whole.subrange(at, end) =~= base.subrange(at, end));
    if end < base.len() {
        lemma_marks_before(base, rest, end + 1);
        let later = marks_from(base, end + 1);
        if let Some(component) = component_of(base.subrange(at, end), at == 0) {
            let first = seq![Mark { component, end }];
            assert(first + (later + tail) =~= (first + later) + tail);
        }
    } else if let Some(component) = component_of(base.subrange(at, end), at == 0) {
        let first = seq![Mark { component, end }];
        assert(first + tail =~= (first + Seq::empty()) + tail);
    } else {
        assert(tail =~= Seq::<Mark>::empty() + tail);
    }
}

proof fn lemma_no_slash(path: Seq<u8>, at: int)
    requires
        0 <= at <= path.len(),
        forall|i: int| at <= i < path.len() ==> path[i] != 47,
    ensures
        next_slash(path, at) == path.len(),
    decreases path.len() - at,
{
    if at < path.len() {
        lemma_no_slash(path, at + 1);
    }
}

/// A name behind a slash is the last component.
proof fn lemma_marks_of_name(front: Seq<u8>, name: Seq<u8>)
    requires
        plain_name(name),
    ensures
        marks_from(front + name, front.len() as int) == seq![
            Mark { component: Component::Normal(name), end: (front + name).len() as int },
        ],
{
    let whole = front + name;
    assert forall|i: int| front.len() <= i < whole.len() implies whole[i] != 47 by {
        assert(whole[i] == name[i - front.len()]);
        assert(name.contains(name[i - front.len()]));
    }
    lemma_no_slash(whole, front.len() as int);
    assert(whole.subrange(front.len() as int, whole.len() as int) =~= name);
    assert(marks_from(whole, front.len() as int) =~= seq![
        Mark { component: Component::Normal(name), end: whole.len() as int },
    ]);
}

/// A name that is joined to a directory is the last component, and those of the directory
/// come before it.
proof fn lemma_joined_marks(base: Seq<u8>, name: Seq<u8>)
    requires
        plain_name(name),
    ensures
        ({
            let whole = joined(base, name);
            let last = Mark { component: Component::Normal(name), end: whole.len() as int };
            &&& marks(whole).len() > 0
            &&& marks(whole).last() == last
            &&& base.len() > 0 && base.last() != 47 ==> marks(whole) == marks(base).push(last)
        }),
{
    assert(name.contains(name[0]));
    let whole = joined(base, name);
    if base.len() == 0 {
        assert(base + name =~= name);
        lemma_marks_of_name(base, name);
    } else {
        let stem = if base.last() == 47 {
            base.drop_last()
        } else {
            base
        };
        let front = stem.push(47);
        assert(base.last() == 47 ==> front =~= base);
        assert(whole == front + name);
        lemma_marks_before(stem, name, 0);
        lemma_marks_of_name(front, name);
        let last = Mark { component: Component::Normal(name), end: whole.len() as int };
        assert(marks_from(whole, 0) == marks_from(stem, 0) + seq![last]);
        if stem.len() > 0 {
            assert(whole[0] == stem[0]);
        }
        if absolute(stem) {
            assert(marks(whole) =~= marks(stem).push(last));
        } else if stem.len() > 0 {
            assert(marks(whole) =~= marks(stem).push(last));
        } else {
            assert(marks(whole).last() == last);
        }
    }
}

/// A file that is joined by its name to a directory lies directly in it, under that name.
pub proof fn names_lie_in_their_directory(base: Seq<u8>, outer: Seq<u8>, name: Seq<u8>)
    requires
        plain_name(outer),
        plain_name(name),
    ensures
        parent(joined(joined(base, outer), name)) == Some(joined(base, outer)),
        file_name(joined(joined(base, outer), name)) == Some(name),
{
    let directory = joined(base, outer);
    lemma_joined_marks(base, outer);
    assert(outer.contains(outer[0]));
    assert(outer.contains(outer.last()));
    assert(directory.last() == outer.last());
    lemma_joined_marks(directory, name);
    let whole = joined(directory, name);
    assert(name.contains(name[0]));
    assert(marks(whole)[marks(whole).len() - 2] == marks(directory).last());
    assert(whole.take(directory.len() as int) =~= directory);
}

/// The components of a file in a directory are those of the directory and its name; a name
/// alone is one component, and a slash at the end of a directory adds none.
pub proof fn directories_come_before_their_names(directory: Seq<u8>, name: Seq<u8>)
    requires
        plain_name(name),
        directory.len() > 0,
    ensures
        directory.last() != 47 ==> components(joined(directory, name)) == components(
            directory,
        ).push(Component::Normal(name)),
        components(name) == seq![Component::Normal(name)],
        file_name(joined(directory, name)) == Some(name),
        components(directory.push(47)) == components(directory),
        components(Seq::empty()).len() == 0,
{
    lemma_joined_marks(directory, name);
    let all = marks(joined(directory, name));
    if directory.last() != 47 {
        assert(components(joined(directory, name)) =~= components(directory).push(
            Component::Normal(name),
        ));
    }
    assert(name.contains(name[0]));
    let none = Seq::<u8>::empty();
    lemma_marks_of_name(none, name);
    assert(none + name =~= name);
    assert(components(name) =~= seq![Component::Normal(name)]);
    let closed = directory.push(47);
    lemma_marks_before(directory, none, 0);
    assert(closed + none =~= closed);
    assert(marks_from(closed, closed.len() as int).len() == 0) by {
        assert(closed.subrange(closed.len() as int, closed.len() as int).len() == 0);
    }
    assert(marks_from(closed, 0) =~= marks_from(directory, 0));
    assert(closed[0] == directory[0]);
    assert(marks(closed) =~= marks(directory));
    assert(none.subrange(0, 0).len() == 0);
}

/// Within a path `.` stands for the directory before it, and `..` is a component of its
/// own.
pub proof fn dots_stand_for_places(directory: Seq<u8>)
    requires
        directory.len() > 0,
        directory.last() != 47,
    ensures
        components(joined(directory, seq![46u8])) == components(directory),
        components(joined(directory, seq![46u8, 46u8])) == components(directory).push(
            Component::Parent,
        ),
        components(seq![46u8]) == seq![Component::Current],
        components(seq![47u8]) == seq![Component::Root],
{
    let front = directory.push(47);
    let n = front.len() as int;
    let one = seq![46u8];
    let here = front + one;
    lemma_marks_before(directory, one, 0);
    assert forall|i: int| n <= i < here.len() implies here[i] != 47 by {
        assert(here[i] == one[i - n]);
    }
    lemma_no_slash(here, n);
    assert(here.subrange(n, here.len() as int) =~= one);
    assert(marks_from(here, n).len() == 0);
    assert(marks_from(here, 0) =~= marks_from(directory, 0));
    assert(here[0] == directory[0]);
    assert(marks(here) =~= marks(directory));
    let two = seq![46u8, 46u8];
    let above = front + two;
    lemma_marks_before(directory, two, 0);
    assert forall|i: int| n <= i < above.len() implies above[i] != 47 by {
        assert(above[i] == two[i - n]);
    }
    lemma_no_slash(above, n);
    assert(above.subrange(n, above.len() as int) =~= two);
    assert(two.len() == 2 && one.len() == 1);
    let last = Mark { component: Component::Parent, end: above.len() as int };
    assert(marks_from(above, n) =~= seq![last]);
    assert(above[0] == directory[0]);
    assert(marks(above) =~= marks(directory).push(last));
    assert(components(above) =~= components(directory).push(Component::Parent));
    lemma_no_slash(one, 0);
    assert(one.subrange(0, 1) =~= one);
    assert(marks(one) =~= seq![Mark { component: Component::Current, end: 1 }]);
    assert(components(one) =~= seq![Component::Current]);
    let root = seq![47u8];
    assert(root[0] == 47);
    assert(next_slash(root, 0) == 0);
    assert(root.subrange(0, 0).len() == 0);
    assert(marks_from(root, 1).len() == 0) by {
        assert(root.subrange(1, 1).len() == 0);
    }
    assert(marks_from(root, 0).len() == 0);
    assert(components(root) =~= seq![Component::Root]);
}

// ---------------------------------------------------------------------------
// Laws of the order
// ---------------------------------------------------------------------------

pub proof fn lemma_bytes_order(a: Seq<u8>, b: Seq<u8>)
    ensures
        bytes_order(a, b) == -bytes_order(b, a),
        bytes_order(a, b) == 0 <==> a == b,
        -1 <= bytes_order(a, b) <= 1,
    decreases a.len(),
{
    if a.len() > 0 && b.len() > 0 {
        lemma_bytes_order(a.skip(1), b.skip(1));
        if a[0] == b[0] && a.skip(1) == b.skip(1) {
            assert(a =~= seq![a[0]] + a.skip(1));
            assert(b =~= seq![b[0]] + b.skip(1));
        }
    } else if a.len() == 0 && b.len() == 0 {
        assert(a =~= b);
    }
}

proof fn lemma_component_order(a: Component, b: Component)
    ensures
        component_order(a, b) == -component_order(b, a),
        component_order(a, b) == 0 <==> a == b,
        -1 <= component_order(a, b) <= 1,
{
    match (a, b) {
        (Component::Normal(x), Component::Normal(y)) => lemma_bytes_order(x, y),
        _ => {},
    }
}

/// The order of component sequences is antisymmetric, and only equal sequences
/// are in the same place.
pub proof fn lemma_components_order(a: Seq<Component>, b: Seq<Component>)
    ensures
        components_order(a, b) == -components_order(b, a),
        components_order(a, b) == 0 <==> a == b,
        -1 <= components_order(a, b) <= 1,
    decreases a.len(),
{
    if a.len() > 0 && b.len() > 0 {
        lemma_component_order(a[0], b[0]);
        lemma_components_order(a.skip(1), b.skip(1));
        if a[0] == b[0] && a.skip(1) == b.skip(1) {
            assert(a =~= seq![a[0]] + a.skip(1));
            assert(b =~= seq![b[0]] + b.skip(1));
        }
    } else if a.len() == 0 && b.len() == 0 {
        assert(a =~= b);
    }
}

proof fn lemma_bytes_order_transitive(a: Seq<u8>, b: Seq<u8>, c: Seq<u8>)
    requires
        bytes_order(a, b) <= 0,
        bytes_order(b, c) <= 0,
    ensures
        bytes_order(a, c) <= 0,
    decreases a.len(),
{
    if a.len() > 0 && b.len() > 0 && c.len() > 0 && a[0] == b[0] && b[0] == c[0] {
        lemma_bytes_order_transitive(a.skip(1), b.skip(1), c.skip(1));
    }
}

/// The order of component sequences is transitive.
pub proof fn lemma_components_order_transitive(
    a: Seq<Component>,
    b: Seq<Component>,
    c: Seq<Component>,
)
    requires
        components_order(a, b) <= 0,
        components_order(b, c) <= 0,
    ensures
        components_order(a, c) <= 0,
    decreases a.len(),
{
    if a.len() > 0 && b.len() > 0 && c.len() > 0 {
        let (x, y, z) = (a[0], b[0], c[0]);
        lemma_component_order(x, y);
        lemma_component_order(y, z);
        lemma_component_order(x, z);
        match (x, y, z) {
            (Component::Normal(p), Component::Normal(q), Component::Normal(r)) => {
                lemma_bytes_order_transitive(p, q, r);
                lemma_bytes_order(p, q);
                lemma_bytes_order(q, r);
                lemma_bytes_order(p, r);
            },
            _ => {},
        }
        if x == y && y == z {
            lemma_components_order_transitive(a.skip(1), b.skip(1), c.skip(1));
        }
    }
}

// ---------------------------------------------------------------------------
// Executable functions
// ---------------------------------------------------------------------------

#[derive(Clone, Copy, PartialEq, Eq, Structural)]
enum PartKind {
    Root,
    Current,
    Parent,
    Normal,
}

#[derive(Clone, Copy)]
struct Part {
    kind: PartKind,
    start: usize,
    end: usize,
}

spec fn part_mark(path: Seq<u8>, part: Part) -> Mark {
    Mark {
        component: match part.kind {
            PartKind::Root => Component::Root,
            PartKind::Current => Component::Current,
            PartKind::Parent => Component::Parent,
            PartKind::Normal => Component::Normal(
                path.subrange(part.start as int, part.end as int),
            ),
        },
        end: part.end as int,
    }
}

spec fn part_marks(path: Seq<u8>, parts: Seq<Part>) -> Seq<Mark> {
    parts.map_values(|part: Part| part_mark(path, part))
}

spec fn parts_inside(path: Seq<u8>, parts: Seq<Part>) -> bool {
    forall|i: int|
        0 <= i < parts.len() ==> (#[trigger] parts[i]).start <= parts[i].end <= path.len()
}

fn path_parts(bytes: &Vec<u8>) -> (r: Vec<Part>)
    ensures
        part_marks(bytes@, r@) == marks(bytes@),
        parts_inside(bytes@, r@),
{
    let mut parts: Vec<Part> = Vec::new();
    let ghost head = Seq::<Mark>::empty();
    if bytes.len() > 0 && bytes[0] == 47 {
        parts.push(Part { kind: PartKind::Root, start: 0, end: 1 });
        proof {
            head = seq![Mark { component: Component::Root, end: 1 }];
        }
    }
    assert(part_marks(bytes@, parts@) =~= head);
    let mut at: usize = 0;
    let mut more: bool = true;
    while more
        invariant
            at <= bytes@.len(),
            parts_inside(bytes@, parts@),
            more ==> part_marks(bytes@, parts@) + marks_from(bytes@, at as int) == marks(bytes@),
            !more ==> part_marks(bytes@, parts@) == marks(bytes@),
        decreases (if more { bytes@.len() + 1 - at } else { 0 }),
    {
        let ghost before = part_marks(bytes@, parts@);
        let mut end: usize = at;
        while end < bytes.len() && bytes[end] != 47
            invariant
                at <= end <= bytes@.len(),
                next_slash(bytes@, at as int) == next_slash(bytes@, end as int),
            decreases bytes@.len() - end,
        {
            end = end + 1;
        }
        let ghost part = bytes@.subrange(at as int, end as int);
        assert(next_slash(bytes@, at as int) == end);
        let length: usize = end - at;
        let dot: bool = length == 1 && bytes[at] == 46;
        let dots: bool = length == 2 && bytes[at] == 46 && bytes[at + 1] == 46;
        proof {
            if dot {
                assert(part =~= seq![46u8]);
            }
            if dots {
                assert(part =~= seq![46u8, 46u8]);
            }
            assert(!dot ==> part != seq![46u8]) by {
                if part == seq![46u8] {
                    assert(part.len() == 1);
                    assert(part[0] == 46);
                }
            }
            assert(!dots ==> part != seq![46u8, 46u8]) by {
                if part == seq![46u8, 46u8] {
                    assert(part.len() == 2);
                    assert(part[0] == 46 && part[1] == 46);
                }
            }
        }
        if length == 0 {
        } else if dot {
            if at == 0 {
                parts.push(Part { kind: PartKind::Current, start: at, end });
            }
        } else if dots {
            parts.push(Part { kind: PartKind::Parent, start: at, end });
        } else {
            parts.push(Part { kind: PartKind::Normal, start: at, end });
        }
        let ghost own = match component_of(part, at == 0) {
            Some(component) => seq![Mark { component, end: end as int }],
            None => Seq::empty(),
        };
        assert(part_marks(bytes@, parts@) =~= before + own);
        if end >= bytes.len() {
            more = false;
            assert(before + marks_from(bytes@, at as int) =~= before + own);
        } else {
            assert(before + marks_from(bytes@, at as int) =~= (before + own) + marks_from(
                bytes@,
                end + 1,
            ));
            at = end + 1;
        }
    }
    parts
}

fn copy_bytes(bytes: &Vec<u8>, from: usize, to: usize) -> (r: Vec<u8>)
    requires
        from <= to <= bytes@.len(),
    ensures
        r@ == bytes@.subrange(from as int, to as int),
{
    let mut r: Vec<u8> = Vec::new();
    let mut i: usize = from;
    while i < to
        invariant
            from <= i <= to <= bytes@.len(),
            r@ == bytes@.subrange(from as int, i as int),
        decreases to - i,
    {
        r.push(bytes[i]);
        i = i + 1;
        assert(r@ =~= bytes@.subrange(from as int, i as int));
    }
    r
}

/// The order of two byte ranges.
fn order_of_bytes(a: &Vec<u8>, a_from: usize, a_to: usize, b: &Vec<u8>, b_from: usize, b_to: usize)
    -> (r: i8)
    requires
        a_from <= a_to <= a@.len(),
        b_from <= b_to <= b@.len(),
    ensures
        r == bytes_order(
            a@.subrange(a_from as int, a_to as int),
            b@.subrange(b_from as int, b_to as int),
        ),
{
    let mut i: usize = a_from;
    let mut j: usize = b_from;
    while i < a_to && j < b_to
        invariant
            a_from <= i <= a_to <= a@.len(),
            b_from <= j <= b_to <= b@.len(),
            bytes_order(
                a@.subrange(i as int, a_to as int),
                b@.subrange(j as int, b_to as int),
            ) == bytes_order(
                a@.subrange(a_from as int, a_to as int),
                b@.subrange(b_from as int, b_to as int),
            ),
        decreases a_to - i,
    {
        let ghost x = a@.subrange(i as int, a_to as int);
        let ghost y = b@.subrange(j as int, b_to as int);
        if a[i] < b[j] {
            return -1;
        }
        if a[i] > b[j] {
            return 1;
        }
        assert(x.skip(1) =~= a@.subrange(i + 1, a_to as int));
        assert(y.skip(1) =~= b@.subrange(j + 1, b_to as int));
        i = i + 1;
        j = j + 1;
    }
    if i < a_to {
        1
    } else if j < b_to {
        -1
    } else {
        0
    }
}

fn kind_rank(kind: PartKind) -> (r: u8)
    ensures
        r == match kind {
            PartKind::Root => 0int,
            PartKind::Current => 1,
            PartKind::Parent => 2,
            PartKind::Normal => 3,
        },
{
    match kind {
        PartKind::Root => 0,
        PartKind::Current => 1,
        PartKind::Parent => 2,
        PartKind::Normal => 3,
    }
}

/// Puts two paths in order by their components: -1, 0 or 1.
pub fn order_paths(a: &FilePath, b: &FilePath) -> (r: i8)
    ensures
        r == path_order(a@, b@),
{
    let left = path_parts(&a.bytes);
    let right = path_parts(&b.bytes);
    let ghost xs = components(a@);
    let ghost ys = components(b@);
    assert(xs.len() == left@.len() && ys.len() == right@.len());
    let mut i: usize = 0;
    assert(xs.skip(0) =~= xs);
    assert(ys.skip(0) =~= ys);
    while i < left.len() && i < right.len()
        invariant
            i <= left@.len(),
            i <= right@.len(),
            xs == components(a@),
            ys == components(b@),
            part_marks(a.bytes@, left@) == marks(a@),
            part_marks(b.bytes@, right@) == marks(b@),
            parts_inside(a.bytes@, left@),
            parts_inside(b.bytes@, right@),
            xs.len() == left@.len(),
            ys.len() == right@.len(),
            components_order(xs.skip(i as int), ys.skip(i as int)) == components_order(xs, ys),
        decreases left@.len() - i,
    {
        let x = left[i];
        let y = right[i];
        proof {
            assert(part_marks(a.bytes@, left@)[i as int] == part_mark(a.bytes@, x));
            assert(part_marks(b.bytes@, right@)[i as int] == part_mark(b.bytes@, y));
            assert(xs.skip(i as int)[0] == part_mark(a.bytes@, x).component);
            assert(ys.skip(i as int)[0] == part_mark(b.bytes@, y).component);
            assert(xs.skip(i as int).skip(1) =~= xs.skip(i + 1));
            assert(ys.skip(i as int).skip(1) =~= ys.skip(i + 1));
            lemma_component_order(xs.skip(i as int)[0], ys.skip(i as int)[0]);
        }
        let p: u8 = kind_rank(x.kind);
        let q: u8 = kind_rank(y.kind);
        if p < q {
            return -1;
        }
        if p > q {
            return 1;
        }
        if p == 3 {
            let order: i8 = order_of_bytes(&a.bytes, x.start, x.end, &b.bytes, y.start, y.end);
            if order != 0 {
                return order;
            }
        }
        i = i + 1;
    }
    if i < left.len() {
        1
    } else if i < right.len() {
        -1
    } else {
        0
    }
}

/// Whether two paths have the same components.
pub fn same_path(a: &FilePath, b: &FilePath) -> (r: bool)
    ensures
        r == same(a@, b@),
{
    proof {
        lemma_components_order(components(a@), components(b@));
    }
    order_paths(a, b) == 0
}

/// Whether the components of a path begin with those of another.
pub fn begins_with(a: &FilePath, b: &FilePath) -> (r: bool)
    ensures
        r == (components(b@).len() <= components(a@).len() && components(a@).take(
            components(b@).len() as int,
        ) == components(b@)),
{
    let left = path_parts(&a.bytes);
    let right = path_parts(&b.bytes);
    let ghost xs = components(a@);
    let ghost ys = components(b@);
    assert(xs.len() == left@.len() && ys.len() == right@.len());
    if right.len() > left.len() {
        return false;
    }
    let mut i: usize = 0;
    while i < right.len()
        invariant
            i <= right@.len() <= left@.len(),
            xs == components(a@),
            ys == components(b@),
            part_marks(a.bytes@, left@) == marks(a@),
            part_marks(b.bytes@, right@) == marks(b@),
            parts_inside(a.bytes@, left@),
            parts_inside(b.bytes@, right@),
            xs.len() == left@.len(),
            ys.len() == right@.len(),
            forall|j: int| 0 <= j < i ==> xs[j] == ys[j],
        decreases right@.len() - i,
    {
        let x = left[i];
        let y = right[i];
        proof {
            assert(part_marks(a.bytes@, left@)[i as int] == part_mark(a.bytes@, x));
            assert(part_marks(b.bytes@, right@)[i as int] == part_mark(b.bytes@, y));
            assert(xs[i as int] == part_mark(a.bytes@, x).component);
            assert(ys[i as int] == part_mark(b.bytes@, y).component);
            lemma_bytes_order(
                a@.subrange(x.start as int, x.end as int),
                b@.subrange(y.start as int, y.end as int),
            );
        }
        if x.kind != y.kind || (x.kind == PartKind::Normal && order_of_bytes(
            &a.bytes,
            x.start,
            x.end,
            &b.bytes,
            y.start,
            y.end,
        ) != 0) {
            proof {
                assert(xs[i as int] != ys[i as int]);
                assert(xs.take(ys.len() as int)[i as int] == xs[i as int]);
            }
            return false;
        }
        i = i + 1;
    }
    assert(xs.take(ys.len() as int) =~= ys);
    true
}

impl PartialEq for FilePath {
    fn eq(&self, other: &FilePath) -> (r: bool) {
        same_path(self, other)
    }
}

impl vstd::std_specs::cmp::PartialEqSpecImpl for FilePath {
    open spec fn obeys_eq_spec() -> bool {
        true
    }

    open spec fn eq_spec(&self, other: &FilePath) -> bool {
        same(self@, other@)
    }
}

impl Eq for FilePath {

}

impl Clone for FilePath {
    fn clone(&self) -> (r: FilePath)
        ensures
            r@ == self@,
    {
        let bytes = copy_bytes(&self.bytes, 0, self.bytes.len());
        assert(bytes@ =~= self.bytes@);
        FilePath { bytes }
    }
}

impl FilePath {
    /// The empty path.
    pub fn empty() -> (r: FilePath)
        ensures
            r@ == Seq::<u8>::empty(),
    {
        FilePath { bytes: Vec::new() }
    }

    /// The path that a text spells.
    pub fn from_text(text: &str) -> (r: FilePath)
        ensures
            r@ == encode_utf8(text@),
    {
        let bytes = text.as_bytes();
        let mut copy: Vec<u8> = Vec::new();
        let mut i: usize = 0;
        while i < bytes.len()
            invariant
                i <= bytes@.len(),
                copy@ == bytes@.take(i as int),
            decreases bytes@.len() - i,
        {
            copy.push(bytes[i]);
            i = i + 1;
            assert(copy@ =~= bytes@.take(i as int));
        }
        assert(bytes@.take(i as int) =~= bytes@);
        FilePath { bytes: copy }
    }

    /// Whether the path begins with a slash.
    pub fn is_absolute(&self) -> (r: bool)
        ensures
            r == absolute(self@),
    {
        self.bytes.len() > 0 && self.bytes[0] == 47
    }

    /// Whether the path holds no bytes.
    pub fn is_empty(&self) -> (r: bool)
        ensures
            r == (self@.len() == 0),
    {
        self.bytes.len() == 0
    }

    /// The path without its last component.
    pub fn parent(&self) -> (r: Option<FilePath>)
        ensures
            match r {
                Some(path) => parent(self@) == Some(path@),
                None => parent(self@) is None,
            },
    {
        let parts = path_parts(&self.bytes);
        let n: usize = parts.len();
        assert(marks(self@).len() == n);
        if n == 0 {
            return None;
        }
        assert(part_marks(self@, parts@)[n - 1] == part_mark(self@, parts@[n - 1]));
        if parts[n - 1].kind == PartKind::Root {
            return None;
        }
        let end: usize = if n == 1 {
            0
        } else {
            assert(part_marks(self@, parts@)[n - 2] == part_mark(self@, parts@[n - 2]));
            parts[n - 2].end
        };
        let bytes = copy_bytes(&self.bytes, 0, end);
        assert(bytes@ =~= self@.take(end as int));
        Some(FilePath { bytes })
    }

    /// The path of the last components.
    pub fn tail(&self, count: usize) -> (r: FilePath)
        ensures
            r@ == tail(self@, count as nat),
    {
        let parts = path_parts(&self.bytes);
        let n: usize = parts.len();
        let from: usize = if count <= n {
            n - count
        } else {
            0
        };
        let ghost all = components(self@);
        let ghost chosen = all.skip(from as int);
        assert(all.len() == n);
        assert(from == 0 ==> chosen =~= all);
        let mut r = FilePath::empty();
        let mut i: usize = from;
        while i < n
            invariant
                from <= i <= n,
                n == parts@.len(),
                n == all.len(),
                chosen == all.skip(from as int),
                all == components(self@),
                part_marks(self@, parts@) == marks(self@),
                parts_inside(self@, parts@),
                r@ == path_through(chosen.take(i - from)),
            decreases n - i,
        {
            let part = parts[i];
            assert(part_marks(self@, parts@)[i as int] == part_mark(self@, part));
            assert(all[i as int] == part_mark(self@, part).component);
            let bytes: Vec<u8> = match part.kind {
                PartKind::Root => vec![47],
                PartKind::Current => vec![46],
                PartKind::Parent => vec![46, 46],
                PartKind::Normal => copy_bytes(&self.bytes, part.start, part.end),
            };
            assert(bytes@ =~= component_bytes(all[i as int]));
            r = r.join(&FilePath { bytes });
            assert(chosen.take(i + 1 - from).drop_last() =~= chosen.take(i - from));
            assert(chosen.take(i + 1 - from).last() == all[i as int]);
            i = i + 1;
        }
        assert(chosen.take(n - from) =~= chosen);
        r
    }

    /// The bytes of the last component, if it is a name.
    pub fn file_name(&self) -> (r: Option<Vec<u8>>)
        ensures
            match r {
                Some(name) => file_name(self@) == Some(name@),
                None => file_name(self@) is None,
            },
    {
        let parts = path_parts(&self.bytes);
        let n: usize = parts.len();
        assert(marks(self@).len() == n);
        if n == 0 {
            return None;
        }
        assert(part_marks(self@, parts@)[n - 1] == part_mark(self@, parts@[n - 1]));
        let last = parts[n - 1];
        if last.kind != PartKind::Normal {
            return None;
        }
        Some(copy_bytes(&self.bytes, last.start, last.end))
    }

    /// What follows the last dot of the file name.
    pub fn extension(&self) -> (r: Option<Vec<u8>>)
        ensures
            match r {
                Some(name) => extension(self@) == Some(name@),
                None => extension(self@) is None,
            },
    {
        let name = match self.file_name() {
            Some(name) => name,
            None => {
                return None;
            },
        };
        let mut at: usize = name.len();
        assert(name@.take(at as int) =~= name@);
        while at > 0 && name[at - 1] != 46
            invariant
                at <= name@.len(),
                last_dot(name@.take(at as int)) == last_dot(name@),
            decreases at,
        {
            assert(name@.take(at as int).drop_last() =~= name@.take(at - 1));
            at = at - 1;
        }
        if at <= 1 {
            return None;
        }
        let after = copy_bytes(&name, at, name.len());
        assert(after@ =~= name@.skip(at as int));
        Some(after)
    }

    /// The path followed by another one.
    pub fn join(&self, other: &FilePath) -> (r: FilePath)
        ensures
            r@ == joined(self@, other@),
    {
        if other.is_absolute() {
            return other.clone();
        }
        let mut bytes = copy_bytes(&self.bytes, 0, self.bytes.len());
        assert(bytes@ =~= self@);
        if bytes.len() > 0 && bytes[bytes.len() - 1] != 47 {
            bytes.push(47);
        }
        let mut tail = copy_bytes(&other.bytes, 0, other.bytes.len());
        assert(tail@ =~= other@);
        bytes.append(&mut tail);
        FilePath { bytes }
    }

    /// The text of the path for display.
    pub fn display(&self) -> (r: String)
        ensures
            r@ == shown(self@),
    {
        lossy_text(self.bytes.as_slice())
    }

    /// The name that the path ends in, or the whole path where there is none.
    pub fn short_name(&self) -> (r: String)
        ensures
            r@ == short_name(self@),
    {
        match self.file_name() {
            Some(name) => lossy_text(name.as_slice()),
            None => self.display(),
        }
    }

    /// The file name as text, if it is UTF-8.
    pub fn file_name_text(&self) -> (r: Option<String>)
        ensures
            match (r, file_name(self@)) {
                (Some(text), Some(name)) => valid_utf8(name) && text@ == decode_utf8(name),
                (None, Some(name)) => !valid_utf8(name),
                (Some(_), None) => false,
                (None, None) => true,
            },
    {
        match self.file_name() {
            Some(name) => utf8_text(name.as_slice()),
            None => None,
        }
    }

    /// The extension as text, if it is UTF-8.
    pub fn extension_text(&self) -> (r: Option<String>)
        ensures
            match (r, extension(self@)) {
                (Some(text), Some(name)) => valid_utf8(name) && text@ == decode_utf8(name),
                (None, Some(name)) => !valid_utf8(name),
                (Some(_), None) => false,
                (None, None) => true,
            },
    {
        match self.extension() {
            Some(name) => utf8_text(name.as_slice()),
            None => None,
        }
    }
}

} // verus!
