//! What the rows of the sidebar say.

use crate::changes::{ChangeModel, GitFileState};
use crate::model::CurrentFileModel;
use crate::navigation;
use crate::navigation::{GroupKey, NavigationGroupKind, RowModel, Tab};
use crate::path;
use vstd::prelude::*;

verus! {

/// The folder of a file is the directory that it lies in; a file of the root has none.
pub proof fn folders_are_directories(base: Seq<u8>, outer: Seq<u8>, name: Seq<u8>)
    requires
        path::plain_name(outer),
        path::plain_name(name),
    ensures
        navigation::folder_of(path::joined(path::joined(base, outer), name)) == Some(
            path::joined(base, outer),
        ),
        navigation::folder_of(name) is None,
{
    path::names_lie_in_their_directory(base, outer, name);
    assert(outer.contains(outer[0]));
    assert(path::joined(base, outer).len() > 0);
    path::directories_come_before_their_names(name, name);
    let all = path::marks(name);
    assert(path::components(name).len() == all.len());
    assert(path::components(name)[0] == all[0].component);
    assert(name.take(0).len() == 0);
}

/// A row of a file in the Files tab: its name, set in below its folder, whose header is the
/// nearest one above it; a file of the root is not set in.
pub open spec fn file_row_stands(
    above: Seq<RowModel>,
    file: CurrentFileModel,
    label: Seq<char>,
    depth: usize,
) -> bool {
    &&& label == path::short_name(file.relative)
    &&& match navigation::folder_of(file.relative) {
        None => depth == 0,
        Some(folder) => {
            &&& depth == 1
            &&& navigation::header_above(above) matches Some(RowModel::Group { path, .. })
            &&& path::same(path, folder)
        },
    }
}

/// A header of the Files tab: a folder, named by its path.
pub open spec fn folder_header(row: RowModel) -> bool {
    row matches RowModel::Group { path, label, depth, kind } ==> {
        &&& label == path::shown(path) + seq!['/']
        &&& depth == 0
        &&& kind == NavigationGroupKind::Folder
    }
}

/// Every row of the Files tab says what it stands for.
pub open spec fn file_rows_stand(rows: Seq<RowModel>, files: Seq<CurrentFileModel>) -> bool {
    forall|r: int|
        0 <= r < rows.len() ==> {
            &&& folder_header(#[trigger] rows[r])
            &&& rows[r] matches RowModel::File { index, label, depth } ==> file_row_stands(
                rows.take(r),
                files[index as int],
                label,
                depth,
            )
        }
}

proof fn lemma_stand_pushed(rows: Seq<RowModel>, files: Seq<CurrentFileModel>, row: RowModel)
    requires
        file_rows_stand(rows, files),
        folder_header(row),
        row matches RowModel::File { index, label, depth } ==> file_row_stands(
            rows,
            files[index as int],
            label,
            depth,
        ),
    ensures
        file_rows_stand(rows.push(row), files),
{
    let next = rows.push(row);
    assert forall|r: int| 0 <= r < next.len() implies {
        &&& folder_header(#[trigger] next[r])
        &&& next[r] matches RowModel::File { index, label, depth } ==> file_row_stands(
            next.take(r),
            files[index as int],
            label,
            depth,
        )
    } by {
        assert(next.take(r) =~= rows.take(r));
        if r < rows.len() {
            assert(next[r] == rows[r]);
        } else {
            assert(rows.take(r) =~= rows);
        }
    }
}

proof fn lemma_file_rows(
    files: Seq<CurrentFileModel>,
    indices: Seq<usize>,
    collapsed: Set<GroupKey>,
)
    ensures
        file_rows_stand(navigation::file_rows(files, indices, collapsed).0, files),
        navigation::file_rows(files, indices, collapsed).1 matches Some(folder) ==> (
        navigation::header_above(navigation::file_rows(files, indices, collapsed).0) matches Some(
            RowModel::Group { path, .. },
        ) && path::same(path, folder)),
        indices.len() > 0 ==> navigation::same_folder(
            navigation::folder_of(files[indices.last() as int].relative),
            navigation::file_rows(files, indices, collapsed).1,
        ),
    decreases indices.len(),
{
    reveal_strlit("/");
    if indices.len() > 0 {
        let front = indices.drop_last();
        lemma_file_rows(files, front, collapsed);
        let (before, current) = navigation::file_rows(files, front, collapsed);
        let p = files[indices.last() as int].relative;
        let folder = navigation::folder_of(p);
        let fresh = !navigation::same_folder(folder, current);
        let headed = match folder {
            Some(name) if fresh => before.push(
                RowModel::Group {
                    path: name,
                    label: navigation::folder_label(name),
                    depth: 0,
                    kind: NavigationGroupKind::Folder,
                },
            ),
            _ => before,
        };
        let group = if fresh {
            folder
        } else {
            current
        };
        if folder is Some && fresh {
            let row = RowModel::Group {
                path: folder->0,
                label: navigation::folder_label(folder->0),
                depth: 0,
                kind: NavigationGroupKind::Folder,
            };
            assert("/"@ =~= seq!['/']);
            lemma_stand_pushed(before, files, row);
            assert(headed.last() == row);
            assert(navigation::header_above(headed) == Some(row));
        }
        assert(file_rows_stand(headed, files));
        assert(folder is Some <==> group is Some);
        if !navigation::folder_collapsed(collapsed, folder) {
            let row = RowModel::File {
                index: indices.last(),
                label: path::short_name(p),
                depth: if group is Some { 1 } else { 0 },
            };
            lemma_stand_pushed(headed, files, row);
            assert(headed.push(row).drop_last() =~= headed);
            assert(headed.push(row).last() == row);
        }
    }
}

/// Every file of the Files tab is listed by its name below the header of its folder, and
/// every header names its folder.
pub proof fn files_stand_under_their_folders(
    files: Seq<CurrentFileModel>,
    indices: Seq<usize>,
    collapsed: Set<GroupKey>,
)
    ensures
        file_rows_stand(navigation::file_rows(files, indices, collapsed).0, files),
{
    lemma_file_rows(files, indices, collapsed);
}

/// A file adds its own row unless its folder is collapsed, and a header before it if and
/// only if it lies in a folder and the file before it does not lie in the same one.
pub proof fn headers_stand_where_folders_change(
    files: Seq<CurrentFileModel>,
    indices: Seq<usize>,
    index: usize,
    collapsed: Set<GroupKey>,
)
    ensures
        ({
            let before = navigation::file_rows(files, indices, collapsed).0;
            let after = navigation::file_rows(files, indices.push(index), collapsed).0;
            let folder = navigation::folder_of(files[index as int].relative);
            let previous = if indices.len() > 0 {
                navigation::folder_of(files[indices.last() as int].relative)
            } else {
                None
            };
            let header = folder is Some && !(previous is Some && path::same(
                previous->0,
                folder->0,
            ));
            let hidden = folder is Some && collapsed.contains(
                (Tab::Files, path::components(folder->0)),
            );
            &&& after.take(before.len() as int) == before
            &&& after.len() - before.len() == (if header { 1int } else { 0 }) + (if hidden {
                0int
            } else {
                1
            })
            &&& header ==> after[before.len() as int] is Group
            &&& !hidden ==> (after.last() matches RowModel::File { index: i, .. } && i == index)
        }),
{
    let before = navigation::file_rows(files, indices, collapsed).0;
    let after = navigation::file_rows(files, indices.push(index), collapsed).0;
    lemma_file_rows(files, indices, collapsed);
    assert(indices.push(index).drop_last() =~= indices);
    assert(indices.push(index).last() == index);
    if indices.len() == 0 {
        assert(navigation::file_rows(files, indices, collapsed).1 is None);
    }
    assert(after.take(before.len() as int) =~= before);
}

/// The groups of changes are named staged, unstaged, mixed, untracked and committed. A
/// folder is named by its path and set in below its state.
pub proof fn groups_of_changes_are_named(state: GitFileState, folder: Seq<u8>)
    ensures
        navigation::status_row(state) matches RowModel::Group { label, depth, kind, .. } && {
            &&& label == match state {
                GitFileState::Staged => "staged"@,
                GitFileState::Unstaged => "unstaged"@,
                GitFileState::StagedAndUnstaged => "mixed"@,
                GitFileState::Untracked => "untracked"@,
                GitFileState::Committed => "committed"@,
            } + seq!['/']
            &&& depth == 0
            &&& kind == NavigationGroupKind::Status
        },
        navigation::folder_row(state, folder) matches RowModel::Group { label, depth, kind, .. } && {
            &&& label == path::shown(folder) + seq!['/']
            &&& depth == 1
            &&& kind == NavigationGroupKind::Folder
        },
{
    reveal_strlit("/");
    assert("/"@ =~= seq!['/']);
}

/// A change is listed by the name of its file, set in below its folder or below its state.
pub open spec fn change_row_says(row: RowModel, changes: Seq<ChangeModel>) -> bool {
    row matches RowModel::File { index, label, depth } ==> {
        &&& label == path::short_name(changes[index as int].path)
        &&& depth == if navigation::folder_of(changes[index as int].path) is Some {
            2usize
        } else {
            1usize
        }
    }
}

/// Every change in the list is named by its file and set in by its folder.
pub proof fn changes_are_named_by_their_files(
    changes: Seq<ChangeModel>,
    indices: Seq<usize>,
    collapsed: Set<GroupKey>,
)
    ensures
        forall|r: int|
            0 <= r < navigation::change_rows(changes, indices, collapsed).rows.len()
                ==> change_row_says(
                #[trigger] navigation::change_rows(changes, indices, collapsed).rows[r],
                changes,
            ),
    decreases indices.len(),
{
    if indices.len() > 0 {
        changes_are_named_by_their_files(changes, indices.drop_last(), collapsed);
    }
}

/// A change adds its own row unless its state or its folder is collapsed, behind a header
/// for its state if and only if the change before it has another state.
pub proof fn states_head_their_changes(
    changes: Seq<ChangeModel>,
    indices: Seq<usize>,
    index: usize,
    collapsed: Set<GroupKey>,
)
    ensures
        ({
            let before = navigation::change_rows(changes, indices, collapsed).rows;
            let after = navigation::change_rows(changes, indices.push(index), collapsed).rows;
            let change = changes[index as int];
            let same_state = indices.len() > 0 && changes[indices.last() as int].state
                == change.state;
            &&& after.len() >= before.len()
            &&& after.take(before.len() as int) == before
            &&& !same_state ==> after.len() > before.len() && after[before.len() as int]
                == navigation::status_row(change.state)
            &&& same_state ==> forall|r: int|
                before.len() <= r < after.len() ==> !(#[trigger] after[r] matches RowModel::Group {
                    kind: NavigationGroupKind::Status,
                    ..
                })
        }),
{
    lemma_last_state(changes, indices, collapsed);
    assert(indices.push(index).drop_last() =~= indices);
    assert(indices.push(index).last() == index);
    let before = navigation::change_rows(changes, indices, collapsed).rows;
    let after = navigation::change_rows(changes, indices.push(index), collapsed).rows;
    assert(after.take(before.len() as int) =~= before);
}

proof fn lemma_last_state(
    changes: Seq<ChangeModel>,
    indices: Seq<usize>,
    collapsed: Set<GroupKey>,
)
    ensures
        navigation::change_rows(changes, indices, collapsed).state == if indices.len() > 0 {
            Some(changes[indices.last() as int].state)
        } else {
            None
        },
{
}

} // verus!
