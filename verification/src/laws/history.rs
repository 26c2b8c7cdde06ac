//! What Git's answers about commits, trees and scans become.

use crate::changes;
use crate::changes::{ChangeModel, ComparisonModel};
use crate::command::{OutputModel, ReplyModel, StepModel};
use crate::diff;
use crate::git;
use crate::git::{CommitModel, ParentModel, RangeModel};
use crate::laws::texts;
use crate::lines;
use crate::model::{CurrentFileModel, TextEligibility};
use crate::path;
use crate::project::ScopeModel;
use crate::session::ModeModel;
use crate::text;
use vstd::prelude::*;
use vstd::utf8::*;

verus! {

/// A reply of a command that succeeded, within the limit on output.
pub open spec fn good(stdout: Seq<u8>) -> ReplyModel {
    ReplyModel::Output(
        OutputModel { success: true, code: Some(0i32), stdout, stderr: Seq::empty() },
    )
}

// ---------------------------------------------------------------------------
// Lines of a text
// ---------------------------------------------------------------------------

proof fn lemma_pieces_of_line(line: Seq<char>)
    requires
        line.len() > 0,
        forall|i: int| 0 <= i < line.len() - 1 ==> #[trigger] line[i] != '\n',
    ensures
        lines::line_pieces(line) == seq![line],
    decreases line.len(),
{
    if line.len() == 1 {
        assert(line.drop_last() =~= Seq::empty());
        assert(lines::line_pieces(line.drop_last()) == Seq::<Seq<char>>::empty());
        assert(seq![line.last()] =~= line);
        assert(lines::line_pieces(line) =~= seq![line]);
    } else {
        let front = line.drop_last();
        assert forall|i: int| 0 <= i < front.len() - 1 implies #[trigger] front[i] != '\n' by {
            assert(front[i] == line[i]);
        }
        lemma_pieces_of_line(front);
        let before = lines::line_pieces(front);
        assert(before.last() == front);
        assert(front.push(line.last()) =~= line);
        assert(before.drop_last() =~= Seq::empty());
        assert(lines::line_pieces(line) =~= seq![line]);
    }
}

proof fn lemma_pieces_nonempty(s: Seq<char>)
    ensures
        s.len() > 0 <==> lines::line_pieces(s).len() > 0,
    decreases s.len(),
{
    if s.len() > 0 {
        lemma_pieces_nonempty(s.drop_last());
    }
}

proof fn lemma_pieces_around(a: Seq<char>, b: Seq<char>)
    requires
        a.len() > 0,
        a.last() == '\n',
    ensures
        lines::line_pieces(a + b) == lines::line_pieces(a) + lines::line_pieces(b),
    decreases b.len(),
{
    if b.len() == 0 {
        assert(a + b =~= a);
        assert(lines::line_pieces(a) + lines::line_pieces(b) =~= lines::line_pieces(a));
    } else {
        let s = a + b;
        lemma_pieces_around(a, b.drop_last());
        lemma_pieces_nonempty(b.drop_last());
        assert(s.drop_last() =~= a + b.drop_last());
        assert(s.last() == b.last());
        let head = lines::line_pieces(a);
        let front = lines::line_pieces(b.drop_last());
        if b.len() == 1 {
            assert(s[s.len() - 2] == a.last());
            assert(front =~= Seq::empty());
            assert(lines::line_pieces(s) =~= head + lines::line_pieces(b));
        } else {
            assert(s[s.len() - 2] == b[b.len() - 2]);
            assert((head + front).last() == front.last());
            assert((head + front).drop_last() =~= head + front.drop_last());
            assert(lines::line_pieces(s) =~= head + lines::line_pieces(b));
        }
    }
}

/// The first line of a text is what stands before its first line feed, without a carriage
/// return at its end, and the other lines are those of what follows.
pub proof fn lines_are_cut_at_line_feeds(line: Seq<char>, rest: Seq<char>)
    requires
        !line.contains('\n'),
    ensures
        lines::bare_lines(line.push('\n') + rest) == seq![
            if line.len() > 0 && line.last() == '\r' {
                line.drop_last()
            } else {
                line
            },
        ] + lines::bare_lines(rest),
        line.len() > 0 ==> lines::bare_lines(line) == seq![line],
        lines::bare_lines(Seq::empty()).len() == 0,
{
    let first = line.push('\n');
    assert forall|i: int| 0 <= i < first.len() - 1 implies #[trigger] first[i] != '\n' by {
        assert(first[i] == line[i]);
    }
    lemma_pieces_of_line(first);
    lemma_pieces_around(first, rest);
    assert(first.drop_last() =~= line);
    let bare = lines::bare_line(first);
    assert(lines::bare_lines(first + rest) =~= seq![bare] + lines::bare_lines(rest));
    if line.len() > 0 {
        assert forall|i: int| 0 <= i < line.len() - 1 implies #[trigger] line[i] != '\n' by {
            assert(line.contains(line[i]));
        }
        lemma_pieces_of_line(line);
        assert(line.contains(line[line.len() - 1]));
        assert(lines::bare_lines(line) =~= seq![line]);
    }
}

// ---------------------------------------------------------------------------
// Parents
// ---------------------------------------------------------------------------

/// The parent of a commit object is what its first `parent` line names, as long as that
/// line stands before the first empty one; other lines before it do not matter.
pub proof fn parents_are_named_in_the_header(
    before: Seq<Seq<char>>,
    parent: Seq<char>,
    rest: Seq<Seq<char>>,
)
    requires
        forall|i: int|
            0 <= i < before.len() ==> (#[trigger] before[i]).len() > 0 && !lines::starts_with(
                before[i],
                "parent "@,
            ),
    ensures
        git::header_parent(before + seq!["parent "@ + parent] + rest) == Some(parent),
        git::header_parent(before + seq![Seq::empty()] + rest) is None,
        git::header_parent(before) is None,
    decreases before.len(),
{
    reveal_strlit("parent ");
    let named = "parent "@ + parent;
    let all = before + seq![named] + rest;
    let ended = before + seq![Seq::<char>::empty()] + rest;
    if before.len() == 0 {
        assert(all[0] == named);
        assert(named.take("parent "@.len() as int) =~= "parent "@);
        assert(named.skip("parent "@.len() as int) =~= parent);
        assert(ended[0] == Seq::<char>::empty());
    } else {
        let tail = before.skip(1);
        assert forall|i: int| 0 <= i < tail.len() implies (#[trigger] tail[i]).len() > 0
            && !lines::starts_with(tail[i], "parent "@) by {
            assert(tail[i] == before[i + 1]);
        }
        parents_are_named_in_the_header(tail, parent, rest);
        assert(all[0] == before[0] && ended[0] == before[0]);
        assert(all.skip(1) =~= tail + seq![named] + rest);
        assert(ended.skip(1) =~= tail + seq![Seq::<char>::empty()] + rest);
    }
}

/// Where the log names parents, the first of them counts and Git is asked nothing more;
/// where it names none, the commit object is asked, and where that names none either, the
/// commit is compared with the empty tree.
pub proof fn first_parents_count(
    oid: Seq<char>,
    parents: Seq<char>,
    replies: Seq<ReplyModel>,
    object: Seq<u8>,
    tree: Seq<u8>,
)
    ensures
        lines::words(parents).len() > 0 ==> git::parent_step(oid, parents, replies)
            == ParentModel::Found(lines::words(parents)[0], 0),
        lines::words(parents).len() == 0 && git::header_parent(
            lines::bare_lines(text::utf8_lossy(object)),
        ) is None ==> {
            &&& git::parent_step(oid, parents, seq![good(object)]) == ParentModel::Run(
                git::empty_tree_line(),
            )
            &&& git::parent_step(oid, parents, seq![good(object), good(tree)])
                == ParentModel::Found(lines::trimmed(text::utf8_lossy(tree)), 2)
        },
{
    let two = seq![good(object), good(tree)];
    assert(two[0] == good(object));
    assert(two[1] == good(tree));
}

/// A reviewed commit is compared with its parent, and a reviewed range with the parent of
/// its oldest commit; both show the files of the newest commit.
pub proof fn reviews_compare_with_the_parent(commit: CommitModel, range: RangeModel)
    ensures
        ModeModel::Commit(commit).compared() == (ComparisonModel::Commit {
            base: commit.parent,
            tip: commit.oid,
        }),
        ModeModel::Commit(commit).shown_revision() == Some(commit.oid),
        ModeModel::CommitRange(range).compared() == (ComparisonModel::Commit {
            base: range.oldest.parent,
            tip: range.newest.oid,
        }),
        ModeModel::CommitRange(range).shown_revision() == Some(range.newest.oid),
        ModeModel::Git.compared() == ComparisonModel::WorkingTree,
        ModeModel::Unpushed.compared() == ComparisonModel::Unpushed,
        ModeModel::Git.shown_revision() is None,
        ModeModel::Unpushed.shown_revision() is None,
{
}

/// Commits make a range if and only if there is one and each is the first parent of the one
/// before it; the range counts them all.
pub proof fn ranges_are_unbroken(commits: Seq<CommitModel>)
    requires
        commits.len() <= usize::MAX,
    ensures
        git::range_of(commits) is Ok <==> commits.len() > 0 && forall|i: int|
            0 <= i && i + 1 < commits.len() ==> (#[trigger] commits[i]).parent
                == commits[i + 1].oid,
        git::range_of(commits) matches Ok(range) ==> {
            &&& range.newest == commits[0]
            &&& range.oldest == commits[commits.len() - 1]
            &&& range.count == commits.len()
        },
{
}

// ---------------------------------------------------------------------------
// Trees
// ---------------------------------------------------------------------------

proof fn lemma_tab(head: Seq<u8>, rest: Seq<u8>)
    requires
        !head.contains(9u8),
    ensures
        git::tab_position(head + seq![9u8] + rest) == head.len(),
    decreases head.len(),
{
    let s = head + seq![9u8] + rest;
    if head.len() > 0 {
        assert(head.contains(head[0]));
        assert(s[0] == head[0]);
        assert forall|x: u8| head.skip(1).contains(x) implies head.contains(x) by {
            let i = choose|i: int| 0 <= i < head.skip(1).len() && head.skip(1)[i] == x;
            assert(head[i + 1] == x);
        }
        lemma_tab(head.skip(1), rest);
        assert(s.skip(1) =~= head.skip(1) + seq![9u8] + rest);
    } else {
        assert(s[0] == 9u8);
    }
}

/// A record `mode type object size TAB path` of a tree lists the file at the path, with its
/// size, if it is a regular file that the scope selects; other records list nothing.
pub proof fn tree_records_list_their_files(
    root: Seq<u8>,
    head: Seq<u8>,
    relative: Seq<u8>,
    mode: Seq<char>,
    kind: Seq<char>,
    object: Seq<char>,
    size: u64,
    scope: Option<ScopeModel>,
)
    requires
        !head.contains(9u8),
        lines::words(text::utf8_lossy(head)) == seq![
            mode,
            kind,
            object,
            text::decimal(size as nat),
        ],
    ensures
        ({
            let regular = mode == "100644"@ || mode == "100755"@;
            let chosen = scope matches Some(scope) ==> scope.selects(relative);
            git::record_file(root, head + seq![9u8] + relative, scope) == if regular && chosen {
                Ok::<Option<CurrentFileModel>, Seq<char>>(
                    Some(
                        CurrentFileModel {
                            relative,
                            absolute: path::joined(root, relative),
                            size,
                            modified_unix_ns: None,
                            text: if size > 2 * 1024 * 1024 {
                                TextEligibility::Oversized
                            } else {
                                TextEligibility::Text
                            },
                        },
                    ),
                )
            } else {
                Ok(None)
            }
        }),
{
    let record = head + seq![9u8] + relative;
    lemma_tab(head, relative);
    assert(record.take(head.len() as int) =~= head);
    assert(record.skip((head.len() + 1) as int) =~= relative);
    texts::written_numbers_are_read_back(size as nat, u64::MAX as nat);
}

/// The files of a tree are those of its records, one after the other; one bad record spoils
/// the list.
pub proof fn trees_are_read_record_by_record(
    root: Seq<u8>,
    a: Seq<Seq<u8>>,
    b: Seq<Seq<u8>>,
    record: Seq<u8>,
    scope: Option<ScopeModel>,
)
    ensures
        git::tree_files(root, a, scope) is Ok && git::tree_files(root, b, scope) is Ok
            ==> git::tree_files(root, a + b, scope) == Ok::<Seq<CurrentFileModel>, Seq<char>>(
            git::tree_files(root, a, scope)->Ok_0 + git::tree_files(root, b, scope)->Ok_0,
        ),
        git::tree_files(root, a, scope) is Err ==> git::tree_files(root, a + b, scope) is Err,
        git::tree_files(root, b, scope) is Err ==> git::tree_files(root, a + b, scope) is Err,
        git::tree_files(root, seq![record], scope) == match git::record_file(root, record, scope) {
            Err(error) => Err::<Seq<CurrentFileModel>, Seq<char>>(error),
            Ok(None) => Ok(Seq::empty()),
            Ok(Some(file)) => Ok(seq![file]),
        },
    decreases a.len(),
{
    let one = seq![record];
    assert(one.skip(1) =~= Seq::empty());
    assert(one[0] == record);
    assert(git::tree_files(root, one.skip(1), scope) == Ok::<Seq<CurrentFileModel>, Seq<char>>(
        Seq::empty(),
    ));
    if let Ok(Some(file)) = git::record_file(root, record, scope) {
        assert(seq![file] + Seq::<CurrentFileModel>::empty() =~= seq![file]);
    }
    if a.len() == 0 {
        assert(a + b =~= b);
        if git::tree_files(root, b, scope) is Ok {
            let list = git::tree_files(root, b, scope)->Ok_0;
            assert(Seq::<CurrentFileModel>::empty() + list =~= list);
        }
    } else {
        trees_are_read_record_by_record(root, a.skip(1), b, record, scope);
        assert((a + b)[0] == a[0]);
        assert((a + b).skip(1) =~= a.skip(1) + b);
        if git::tree_files(root, a, scope) is Ok && git::tree_files(root, b, scope) is Ok {
            if let Ok(Some(file)) = git::record_file(root, a[0], scope) {
                let tail = git::tree_files(root, a.skip(1), scope)->Ok_0;
                let list = git::tree_files(root, b, scope)->Ok_0;
                assert(seq![file] + (tail + list) =~= (seq![file] + tail) + list);
            }
        }
    }
}

// ---------------------------------------------------------------------------
// Courses of questions
// ---------------------------------------------------------------------------

/// A scan of the working tree asks for the head, the changed names, the prefix, the states
/// and the untracked files, in this order, and then lists the changes with their states.
#[verifier::spinoff_prover]
#[verifier::rlimit(60)]
pub proof fn working_tree_scans_ask_in_order(
    head: Seq<u8>,
    names: Seq<u8>,
    prefix: Seq<u8>,
    status: Seq<u8>,
    untracked: Seq<u8>,
    list: Seq<ChangeModel>,
    states: Seq<changes::PathStateModel>,
    scope: Option<ScopeModel>,
)
    requires
        names.len() <= git::MAX_GIT_OUTPUT_BYTES,
        prefix.len() < git::MAX_GIT_OUTPUT_BYTES,
        status.len() <= git::MAX_GIT_OUTPUT_BYTES,
        untracked.len() <= git::MAX_GIT_OUTPUT_BYTES,
        changes::name_status(lines::fields(names, 0), ComparisonModel::WorkingTree) == Ok::<
            Seq<ChangeModel>,
            Seq<char>,
        >(list),
        changes::porcelain(lines::fields(status, 0)) == Ok::<
            Seq<changes::PathStateModel>,
            Seq<char>,
        >(states),
    ensures
        ({
            let tree = ComparisonModel::WorkingTree;
            let all = seq![
                good(head),
                good(names),
                good(prefix.push(10)),
                good(status),
                good(untracked),
            ];
            &&& git::scan_step(tree, all.take(0), scope) == StepModel::<Seq<ChangeModel>>::Run(
                git::head_line(),
            )
            &&& git::scan_step(tree, all.take(1), scope) == StepModel::<Seq<ChangeModel>>::Run(
                git::names_line(tree),
            )
            &&& git::scan_step(tree, all.take(2), scope) == StepModel::<Seq<ChangeModel>>::Run(
                git::prefix_line(),
            )
            &&& git::scan_step(tree, all.take(3), scope) == StepModel::<Seq<ChangeModel>>::Run(
                git::status_line(),
            )
            &&& git::scan_step(tree, all.take(4), scope) == StepModel::<Seq<ChangeModel>>::Run(
                git::untracked_line(),
            )
            &&& git::scan_step(tree, all, scope) == StepModel::Done(
                Ok(
                    changes::sorted_by_path(
                        changes::in_scope(
                            scope,
                            changes::with_untracked(
                                changes::with_states(list, states, prefix),
                                lines::fields(untracked, 0),
                                tree,
                            ),
                        ),
                    ),
                ),
            )
        }),
{
    let all = seq![good(head), good(names), good(prefix.push(10)), good(status), good(untracked)];
    assert(git::without_line_feed(prefix.push(10)) =~= prefix);
    assert(all.take(1)[0] == good(head));
    assert(all.take(1).skip(1) =~= Seq::empty());
    assert(all.take(2).skip(1) =~= seq![good(names)]);
    assert(all.take(2).skip(1).skip(1) =~= Seq::empty());
    assert(all.take(3).skip(1) =~= seq![good(names), good(prefix.push(10))]);
    assert(all.take(3).skip(1).skip(1) =~= seq![good(prefix.push(10))]);
    assert(all.take(3).skip(1).skip(1).skip(1) =~= Seq::empty());
    assert(all.take(4).skip(1).skip(1) =~= seq![good(prefix.push(10)), good(status)]);
    assert(all.take(4).skip(1).skip(1).skip(1) =~= seq![good(status)]);
    assert(all.skip(1).skip(1).skip(1) =~= seq![good(status), good(untracked)]);
}

/// The count of unpushed commits that Git prints is read back; where the branch has no
/// upstream or a command fails there is none.
pub proof fn printed_counts_are_read(n: usize, upstream: Seq<u8>, reply: ReplyModel)
    ensures
        git::count_step(seq![good(upstream), good(encode_utf8(text::decimal(n as nat).push('\n')))])
            == StepModel::Done(Ok::<Option<usize>, Seq<char>>(Some(n))),
        reply matches ReplyModel::Output(output) ==> !output.success ==> git::count_step(
            seq![reply],
        ) == StepModel::Done(Ok::<Option<usize>, Seq<char>>(None)),
        reply is Failed ==> git::count_step(seq![reply]) == StepModel::Done(
            Ok::<Option<usize>, Seq<char>>(None),
        ),
{
    let digits = text::decimal(n as nat);
    let printed = digits.push('\n');
    encode_utf8_valid_utf8(printed);
    encode_utf8_decode_utf8(printed);
    texts::numbers_are_written_in_digits(n as nat);
    texts::written_numbers_are_read_back(n as nat, usize::MAX as nat);
    assert(printed =~= Seq::<char>::empty() + digits + seq!['\n']);
    assert('0' <= digits[0] && digits[0] <= '9');
    assert('0' <= digits[digits.len() - 1] && digits[digits.len() - 1] <= '9');
    texts::trimming_takes_the_outer_spaces(Seq::empty(), digits, seq!['\n']);
    assert(git::printed_count(encode_utf8(printed)) == Some(n));
    let two = seq![good(upstream), good(encode_utf8(printed))];
    assert(two[0] == good(upstream) && two[1] == good(encode_utf8(printed)));
}

/// A diff is shown also where Git reports by its exit code one that there are differences;
/// output beyond the limit, other exit codes and bytes that are no text are errors.
pub proof fn diffs_are_shown_where_git_gives_them(
    root: Seq<u8>,
    change: ChangeModel,
    output: OutputModel,
)
    ensures
        ({
            let step = git::diff_step(root, change, seq![ReplyModel::Output(output)]);
            let sound = output.stdout.len() <= 32 * 1024 * 1024 && (output.success || output.code
                == Some(1i32)) && valid_utf8(output.stdout);
            &&& sound ==> step == StepModel::Done(
                Ok::<Seq<diff::DiffLineModel>, Seq<char>>(
                    diff::unified_diff(decode_utf8(output.stdout)),
                ),
            )
            &&& !sound ==> (step matches StepModel::Done(Err(_)))
        }),
{
    let one = seq![ReplyModel::Output(output)];
    assert(one[0] == ReplyModel::Output(output));
}

/// The source of a committed file is the text that Git prints, unless it is too large,
/// holds a zero byte or is no text.
pub proof fn committed_sources_are_read_back(
    revision: Seq<char>,
    file: CurrentFileModel,
    source: Seq<char>,
)
    requires
        file.size <= 2 * 1024 * 1024,
    ensures
        ({
            let bytes = encode_utf8(source);
            let step = git::source_step(revision, file, seq![good(bytes)]);
            let sound = bytes.len() <= 2 * 1024 * 1024 && !bytes.contains(0u8);
            &&& sound ==> step == StepModel::Done(Ok::<Seq<char>, Seq<char>>(source))
            &&& !sound ==> (step matches StepModel::Done(Err(_)))
        }),
{
    encode_utf8_valid_utf8(source);
    encode_utf8_decode_utf8(source);
    let one = seq![good(encode_utf8(source))];
    assert(one[0] == good(encode_utf8(source)));
}

/// A scan between commits asks for the head and the changed names alone, that of the
/// unpushed commits for the upstream between them; the changes are listed as Git names them.
#[verifier::spinoff_prover]
#[verifier::rlimit(40)]
pub proof fn committed_scans_ask_in_order(
    comparison: ComparisonModel,
    head: Seq<u8>,
    upstream: Seq<u8>,
    names: Seq<u8>,
    list: Seq<ChangeModel>,
    scope: Option<ScopeModel>,
)
    requires
        !(comparison is WorkingTree),
        names.len() <= git::MAX_GIT_OUTPUT_BYTES,
        changes::name_status(lines::fields(names, 0), comparison) == Ok::<
            Seq<ChangeModel>,
            Seq<char>,
        >(list),
    ensures
        ({
            let done = StepModel::Done(
                Ok::<Seq<ChangeModel>, Seq<char>>(
                    changes::sorted_by_path(changes::in_scope(scope, list)),
                ),
            );
            &&& comparison is Commit ==> {
                &&& git::scan_step(comparison, seq![good(head)], scope) == StepModel::<
                    Seq<ChangeModel>,
                >::Run(git::names_line(comparison))
                &&& git::scan_step(comparison, seq![good(head), good(names)], scope) == done
            }
            &&& comparison is Unpushed ==> {
                &&& git::scan_step(comparison, seq![good(head)], scope) == StepModel::<
                    Seq<ChangeModel>,
                >::Run(git::upstream_line())
                &&& git::scan_step(comparison, seq![good(head), good(upstream)], scope)
                    == StepModel::<Seq<ChangeModel>>::Run(git::names_line(comparison))
                &&& git::scan_step(
                    comparison,
                    seq![good(head), good(upstream), good(names)],
                    scope,
                ) == done
            }
        }),
{
    let one = seq![good(head)];
    let two = seq![good(head), good(names)];
    let pair = seq![good(head), good(upstream)];
    let three = seq![good(head), good(upstream), good(names)];
    assert(one.skip(1) =~= Seq::empty());
    assert(two.skip(1) =~= seq![good(names)]);
    assert(pair.skip(2) =~= Seq::empty());
    assert(three.skip(2) =~= seq![good(names)]);
    assert(two.skip(1)[0] == good(names));
    assert(three.skip(2)[0] == good(names));
    assert(one[0] == good(head) && two[0] == good(head) && pair[0] == good(head) && three[0]
        == good(head));
    assert(pair[1] == good(upstream) && three[1] == good(upstream));
}

/// The files of a commit are those of the records of its tree, each with a zero byte behind
/// it.
pub proof fn trees_are_read_as_printed(
    root: Seq<u8>,
    revision: Seq<char>,
    records: Seq<Seq<u8>>,
    scope: Option<ScopeModel>,
)
    requires
        forall|i: int| 0 <= i < records.len() ==> !(#[trigger] records[i]).contains(0u8),
        lines::terminated(records, 0u8).len() <= git::MAX_GIT_OUTPUT_BYTES,
    ensures
        git::files_step(root, revision, seq![good(lines::terminated(records, 0u8))], scope)
            == StepModel::Done(git::tree_files(root, records, scope)),
{
    let printed = lines::terminated(records, 0u8);
    lines::fields_are_cut_as_they_were_written(records, 0u8);
    let none = Seq::<u8>::empty();
    assert(records.push(none) =~= records + seq![none]);
    trees_are_read_record_by_record(root, records, seq![none], none, scope);
    assert(git::tree_files(root, seq![none], scope) == Ok::<Seq<CurrentFileModel>, Seq<char>>(
        Seq::empty(),
    ));
    if git::tree_files(root, records, scope) is Ok {
        let list = git::tree_files(root, records, scope)->Ok_0;
        assert(list + Seq::<CurrentFileModel>::empty() =~= list);
    } else {
        lemma_first_error(root, records, seq![none], scope);
    }
    let one = seq![good(printed)];
    assert(one[0] == good(printed));
}

proof fn lemma_first_error(
    root: Seq<u8>,
    a: Seq<Seq<u8>>,
    b: Seq<Seq<u8>>,
    scope: Option<ScopeModel>,
)
    requires
        git::tree_files(root, a, scope) is Err,
        git::tree_files(root, b, scope) is Ok,
    ensures
        git::tree_files(root, a + b, scope) == git::tree_files(root, a, scope),
    decreases a.len(),
{
    if a.len() > 0 {
        assert((a + b)[0] == a[0]);
        assert((a + b).skip(1) =~= a.skip(1) + b);
        if git::tree_files(root, a.skip(1), scope) is Err {
            lemma_first_error(root, a.skip(1), b, scope);
        }
    }
}

} // verus!
