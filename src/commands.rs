//! The commands of the board: each works on a `BoardAccess` and returns the
//! text it prints.

use vstd::prelude::*;
use vstd::string::StringExecFns;
use colored::Colorize;
use crate::board::{
    opt_tag, reindex_post, remove_post, shown, tag_members, top_post, update_post,
    BoardAccess, BoardModel, NotFoundInIndex,
};
use crate::opts::{Opts, SubCommand};
use crate::task::{label_of, tags_of, Column, Task, TaskModel};
use crate::text::{copy_opt, has_text, join, join_strings, not_blank, views};

verus! {

/// The names of the tasks `get_column(label, tag)` returns.
pub open spec fn column_names(m: BoardModel, label: Seq<char>, tag: Option<String>) -> Seq<Seq<char>> {
    shown(m.column_list(label), tag_members(m, tag), m.tasks).map_values(|k: Seq<char>| m.tasks[k].name)
}

/// The names of a list of tasks.
pub fn get_task_labels(list: Vec<Task>) -> (r: Vec<String>)
    ensures
        views(r@) == list.deep_view().map_values(|t: TaskModel| t.name),
{
    let mut r: Vec<String> = Vec::new();
    let mut i: usize = 0;
    while i < list.len()
        invariant
            0 <= i <= list@.len(),
            r@.len() == i,
            forall|j: int| 0 <= j < i ==> r@[j]@ == list@[j].name@,
        decreases list@.len() - i,
    {
        r.push(list[i].name.clone());
        i = i + 1;
    }
    assert(views(r@) =~= list.deep_view().map_values(|t: TaskModel| t.name));
    r
}

/// The names of the tasks `get_column(label, tag)` returns, read from the board.
fn column_labels<B: BoardAccess>(board: &B, label: &str, tag: Option<String>) -> (r: Vec<String>)
    ensures
        views(r@) == column_names(board.model(), label@, tag),
{
    let tasks = board.get_column(label, tag);
    let names = get_task_labels(tasks);
    let ghost m = board.model();
    assert(views(names@) =~= column_names(m, label@, tag));
    names
}

/// What `now` prints for the names of the tasks in progress.
pub open spec fn now_text(names: Seq<Seq<char>>, no_newlines: bool) -> Seq<char> {
    let delimiter = if no_newlines {
        ","@
    } else {
        "\n"@
    };
    let joined = join(names, delimiter);
    if joined.len() == 0 {
        Seq::empty()
    } else if no_newlines {
        joined
    } else {
        joined + delimiter
    }
}

/// The names of the tasks in progress, one per line, or separated by commas.
pub fn now<B: BoardAccess>(board: &B, no_newlines: bool, tag: Option<String>) -> (r: String)
    ensures
        r@ == now_text(column_names(board.model(), label_of(Column::Doing), tag), no_newlines),
{
    let delimiter = if no_newlines {
        ","
    } else {
        "\n"
    };
    let label = Column::Doing.label();
    let names = column_labels(board, label.as_str(), tag);
    let joined = join_strings(&names, delimiter);
    if joined.as_str().unicode_len() == 0 {
        String::new()
    } else if no_newlines {
        joined
    } else {
        joined.concat(delimiter)
    }
}

/// The number of tabs that pad a cell whose text is `len` bytes long.
pub open spec fn tab_count(len: nat) -> nat {
    if len >= 24 {
        0
    } else {
        ((24 - len + 7) / 8) as nat
    }
}

/// The length of a text in UTF-8 bytes, as `str::len` reports it.
pub open spec fn byte_len(s: Seq<char>) -> nat {
    (vstd::utf8::encode_utf8(s).len() as usize) as nat
}

/// A cell of the board: the label, padded with tabs by its length in UTF-8 bytes.
pub open spec fn cell_text(label: Seq<char>) -> Seq<char> {
    label + Seq::new(tab_count(byte_len(label)), |i: int| '\t')
}

/// The `n`th name of a column, or nothing.
pub open spec fn entry(names: Seq<Seq<char>>, n: int) -> Seq<char> {
    if 0 <= n < names.len() {
        names[n]
    } else {
        Seq::empty()
    }
}

/// The `n`th row of the board.
pub open spec fn row_text(
    todo: Seq<Seq<char>>,
    doing: Seq<Seq<char>>,
    done: Seq<Seq<char>>,
    n: int,
) -> Seq<char> {
    cell_text(entry(todo, n)) + cell_text(entry(doing, n)) + entry(done, n) + "\n"@
}

/// The first `count` rows of the board.
pub open spec fn rows_text(
    todo: Seq<Seq<char>>,
    doing: Seq<Seq<char>>,
    done: Seq<Seq<char>>,
    count: nat,
) -> Seq<char>
    decreases count,
{
    if count == 0 {
        Seq::empty()
    } else {
        rows_text(todo, doing, done, (count - 1) as nat) + row_text(todo, doing, done, count - 1)
    }
}

/// The largest of three numbers.
pub open spec fn max3(a: nat, b: nat, c: nat) -> nat {
    if a >= b && a >= c {
        a
    } else if b >= c {
        b
    } else {
        c
    }
}

/// The board as `list_tasks` prints it.
pub open spec fn board_text(todo: Seq<Seq<char>>, doing: Seq<Seq<char>>, done: Seq<Seq<char>>) -> Seq<
    char,
> {
    "TODO:\t\t\tDOING:\t\t\tDONE:\n"@ + rows_text(
        todo,
        doing,
        done,
        max3(todo.len(), doing.len(), done.len()),
    ) + "\n"@
}

/// A cell of the board: the label (or nothing), padded with tabs to the next column.
pub fn col_text(label: Option<&String>) -> (r: String)
    ensures
        r@ == cell_text(
            match label {
                Some(s) => s@,
                None => Seq::empty(),
            },
        ),
{
    let mut output = String::new();
    if let Some(l) = label {
        output.append(l.as_str());
    }
    let ghost base = output@;
    let len = output.as_str().len();
    assert(len == byte_len(base));
    let tabs: usize = if len >= 24 {
        0
    } else {
        (24 - len + 7) / 8
    };
    let mut i: usize = 0;
    while i < tabs
        invariant
            0 <= i <= tabs,
            output@ == base + Seq::new(i as nat, |j: int| '\t'),
        decreases tabs - i,
    {
        let ghost before = output@;
        output.append("\t");
        proof {
            reveal_strlit("\t");
        }
        assert("\t"@ =~= seq!['\t']);
        i = i + 1;
        assert(output@ =~= base + Seq::new(i as nat, |j: int| '\t'));
    }
    output
}

/// The largest of a non-empty list of numbers.
pub fn find_col_max(cols: Vec<usize>) -> (r: usize)
    requires
        cols@.len() > 0,
    ensures
        forall|i: int| 0 <= i < cols@.len() ==> cols@[i] <= r,
        exists|i: int| 0 <= i < cols@.len() && cols@[i] == r,
{
    let mut r = cols[0];
    let mut i: usize = 1;
    while i < cols.len()
        invariant
            1 <= i <= cols@.len(),
            forall|j: int| 0 <= j < i ==> cols@[j] <= r,
            exists|j: int| 0 <= j < i && cols@[j] == r,
        decreases cols@.len() - i,
    {
        if cols[i] > r {
            r = cols[i];
        }
        i = i + 1;
    }
    r
}

/// The `n`th string of a list, if there is one.
fn nth(list: &Vec<String>, n: usize) -> (r: Option<&String>)
    ensures
        match r {
            Some(s) => n < list@.len() && s@ == list@[n as int]@,
            None => n >= list@.len(),
        },
{
    if n < list.len() {
        Some(&list[n])
    } else {
        None
    }
}

/// The three columns side by side, one task per row, under a header.
pub fn list_tasks<B: BoardAccess>(tag: Option<String>, board: &B) -> (r: String)
    ensures
        r@ == board_text(
            column_names(board.model(), label_of(Column::Todo), tag),
            column_names(board.model(), label_of(Column::Doing), tag),
            column_names(board.model(), label_of(Column::Done), tag),
        ),
{
    let todo_label = Column::Todo.label();
    let doing_label = Column::Doing.label();
    let done_label = Column::Done.label();
    let todo = column_labels(board, todo_label.as_str(), copy_opt(&tag));
    let doing = column_labels(board, doing_label.as_str(), copy_opt(&tag));
    let done = column_labels(board, done_label.as_str(), tag);
    let ghost (t, d, e) = (views(todo@), views(doing@), views(done@));
    let col_max = find_col_max(vec![todo.len(), doing.len(), done.len()]);
    assert(col_max == max3(t.len(), d.len(), e.len()));
    let mut output = "TODO:\t\t\tDOING:\t\t\tDONE:\n".to_owned();
    let mut n: usize = 0;
    while n < col_max
        invariant
            0 <= n <= col_max,
            t == views(todo@),
            d == views(doing@),
            e == views(done@),
            output@ == "TODO:\t\t\tDOING:\t\t\tDONE:\n"@ + rows_text(t, d, e, n as nat),
        decreases col_max - n,
    {
        let a = col_text(nth(&todo, n));
        let b = col_text(nth(&doing, n));
        output.append(a.as_str());
        output.append(b.as_str());
        if let Some(x) = nth(&done, n) {
            output.append(x.as_str());
        }
        output.append("\n");
        assert(output@ =~= "TODO:\t\t\tDOING:\t\t\tDONE:\n"@ + rows_text(t, d, e, (n + 1) as nat));
        n = n + 1;
    }
    output.append("\n");
    output
}


/// Whether a task name holds something other than white space.
pub fn is_valid_key(name: &str) -> (r: bool)
    ensures
        r == has_text(name@),
{
    not_blank(name)
}

/// Creates the task `name` in `Todo` (tagged `tag` if given), unless the name is blank.
pub fn add_item<B: BoardAccess>(name: String, tag: Option<String>, board: &mut B)
    ensures
        has_text(name@) ==> crate::board::create_post(
            old(board).model(),
            name@,
            opt_tag(tag),
            final(board).model(),
        ),
        !has_text(name@) ==> final(board).model() == old(board).model(),
{
    if is_valid_key(name.as_str()) {
        board.create_task(name.as_str(), tag);
    }
}

/// `t` moved to column `c`.
pub open spec fn with_column(t: TaskModel, c: Column) -> TaskModel {
    TaskModel { name: t.name, column: c, description: t.description, tags: t.tags }
}

/// What moving task `name` to column `c` does: nothing when there is no such
/// task, else an update with the column changed.
pub open spec fn move_post(
    pre: BoardModel,
    name: Seq<char>,
    c: Column,
    r: Result<(), NotFoundInIndex>,
    post: BoardModel,
) -> bool {
    if pre.tasks.contains_key(name) {
        update_post(pre, name, with_column(pre.tasks[name], c), r, post)
    } else {
        r is Ok && post == pre
    }
}

/// Moves the task `name` into `Doing`.
pub fn start_item<B: BoardAccess>(name: String, board: &mut B) -> (r: Result<(), NotFoundInIndex>)
    ensures
        move_post(old(board).model(), name@, Column::Doing, r, final(board).model()),
{
    move_item(name, board, Column::Doing)
}

/// Moves the task `name` into `Done`.
pub fn complete_item<B: BoardAccess>(name: String, board: &mut B) -> (r: Result<
    (),
    NotFoundInIndex,
>)
    ensures
        move_post(old(board).model(), name@, Column::Done, r, final(board).model()),
{
    move_item(name, board, Column::Done)
}

/// Moves the task `name` into `column`.
pub fn move_item<B: BoardAccess>(name: String, board: &mut B, column: Column) -> (r: Result<
    (),
    NotFoundInIndex,
>)
    ensures
        move_post(old(board).model(), name@, column, r, final(board).model()),
{
    match board.get(name.as_str()) {
        Some(item) => {
            let mut item = item;
            item.column = column;
            board.update(name.as_str(), item)
        },
        None => Ok(()),
    }
}

/// Deletes the task `name`.
pub fn delete_item<B: BoardAccess>(name: String, board: &mut B) -> (r: Result<(), NotFoundInIndex>)
    ensures
        remove_post(old(board).model(), name@, r, final(board).model()),
{
    board.remove(name.as_str())
}

/// Moves the task `name` to the top of its column.
pub fn top<B: BoardAccess>(name: String, board: &mut B) -> (r: Result<(), NotFoundInIndex>)
    ensures
        top_post(old(board).model(), name@, r, final(board).model()),
{
    board.top_priority(name.as_str())
}

/// Rebuilds the column index from the record store.
pub fn reindex<B: BoardAccess>(board: &mut B) -> (r: Result<usize, ()>)
    ensures
        reindex_post(old(board).model(), r, final(board).model()),
{
    board.reindex_columns()
}

/// The names of the tasks in `Done`, in the order of `ts`.
pub open spec fn done_names(ts: Seq<TaskModel>) -> Seq<Seq<char>>
    decreases ts.len(),
{
    if ts.len() == 0 {
        Seq::empty()
    } else {
        let prev = done_names(ts.drop_last());
        if ts.last().column == Column::Done {
            prev.push(ts.last().name)
        } else {
            prev
        }
    }
}

/// The records and column index after `remove(k)` on a board holding
/// `tasks` and `columns`, with whether it succeeded.
pub open spec fn remove_step(
    tasks: Map<Seq<char>, TaskModel>,
    columns: Map<Seq<char>, Seq<Seq<char>>>,
    k: Seq<char>,
) -> (Map<Seq<char>, TaskModel>, Map<Seq<char>, Seq<Seq<char>>>, bool) {
    if !tasks.contains_key(k) {
        (tasks, columns, true)
    } else {
        let label = label_of(tasks[k].column);
        let list = crate::index::list_of(columns, label);
        if !list.contains(k) {
            (tasks, columns, false)
        } else {
            (tasks.remove(k), columns.insert(label, crate::index::remove_first(list, k)), true)
        }
    }
}

/// The records and column index after removing each of `keys` in turn,
/// stopping at the first removal that fails, with whether all succeeded.
pub open spec fn removals(
    tasks: Map<Seq<char>, TaskModel>,
    columns: Map<Seq<char>, Seq<Seq<char>>>,
    keys: Seq<Seq<char>>,
) -> (Map<Seq<char>, TaskModel>, Map<Seq<char>, Seq<Seq<char>>>, bool)
    decreases keys.len(),
{
    if keys.len() == 0 {
        (tasks, columns, true)
    } else {
        let prev = removals(tasks, columns, keys.drop_last());
        if !prev.2 {
            prev
        } else {
            remove_step(prev.0, prev.1, keys.last())
        }
    }
}

/// What `clear_done()` does: it removes the tasks in `Done`, by name, in the
/// store's order, and stops at the first removal that fails.
pub open spec fn clear_post(pre: BoardModel, r: Result<(), NotFoundInIndex>, post: BoardModel) -> bool {
    let result = removals(
        pre.tasks,
        pre.columns,
        done_names(pre.order.map_values(|k: Seq<char>| pre.tasks[k])),
    );
    &&& pre.order.no_duplicates()
    &&& pre.order.to_set() == pre.tasks.dom()
    &&& r is Ok <==> result.2
    &&& post.tasks == result.0
    &&& post.columns == result.1
    &&& post.tags == pre.tags
}

/// The names of the tasks in `Done` split where the tasks are split.
proof fn lemma_done_names_append(a: Seq<TaskModel>, b: Seq<TaskModel>)
    ensures
        done_names(a + b) == done_names(a) + done_names(b),
    decreases b.len(),
{
    if b.len() == 0 {
        assert(a + b =~= a);
        assert(done_names(a) + done_names(b) =~= done_names(a));
    } else {
        assert((a + b).drop_last() =~= a + b.drop_last());
        lemma_done_names_append(a, b.drop_last());
        if b.last().column == Column::Done {
            assert(done_names(a) + done_names(b.drop_last()).push(b.last().name) =~= (done_names(a)
                + done_names(b.drop_last())).push(b.last().name));
        }
    }
}

/// Once a removal fails, the later keys change nothing.
proof fn lemma_removals_stop(
    tasks: Map<Seq<char>, TaskModel>,
    columns: Map<Seq<char>, Seq<Seq<char>>>,
    a: Seq<Seq<char>>,
    b: Seq<Seq<char>>,
)
    requires
        !removals(tasks, columns, a).2,
    ensures
        removals(tasks, columns, a + b) == removals(tasks, columns, a),
    decreases b.len(),
{
    if b.len() == 0 {
        assert(a + b =~= a);
    } else {
        assert((a + b).drop_last() =~= a + b.drop_last());
        lemma_removals_stop(tasks, columns, a, b.drop_last());
    }
}

/// Removes every task in `Done`.
pub fn clear_done<B: BoardAccess>(board: &mut B) -> (r: Result<(), NotFoundInIndex>)
    ensures
        clear_post(old(board).model(), r, final(board).model()),
{
    let tasks = board.get_all_tasks();
    let ghost pre = board.model();
    let ghost models = pre.order.map_values(|k: Seq<char>| pre.tasks[k]);
    let mut i: usize = 0;
    while i < tasks.len()
        invariant
            0 <= i <= tasks@.len(),
            pre == old(board).model(),
            pre.order.no_duplicates(),
            pre.order.to_set() == pre.tasks.dom(),
            models == pre.order.map_values(|k: Seq<char>| pre.tasks[k]),
            tasks.deep_view() == models,
            ({
                let res = removals(pre.tasks, pre.columns, done_names(models.take(i as int)));
                &&& res.2
                &&& board.model().tasks == res.0
                &&& board.model().columns == res.1
                &&& board.model().tags == pre.tags
            }),
        decreases tasks@.len() - i,
    {
        let t = &tasks[i];
        assert(tasks.deep_view()[i as int] == t.deep_view());
        assert(models.take(i + 1).drop_last() =~= models.take(i as int));
        assert(models.take(i + 1).last() == t.deep_view());
        let ghost ds = done_names(models.take(i as int));
        if t.column == Column::Done {
            assert(ds.push(t.name@).drop_last() =~= ds);
            let res = board.remove(t.name.as_str());
            if res.is_err() {
                proof {
                    let head = models.take(i + 1);
                    let tail = models.subrange(i + 1, models.len() as int);
                    assert(head + tail =~= models);
                    lemma_done_names_append(head, tail);
                    lemma_removals_stop(pre.tasks, pre.columns, done_names(head), done_names(tail));
                }
                return res;
            }
        }
        i = i + 1;
    }
    assert(models.take(tasks@.len() as int) =~= models);
    Ok(())
}

/// How `tag` shows the tags of a task.
pub open spec fn tags_text(t: TaskModel) -> Seq<char> {
    match t.tags {
        Some(g) => join(g, ", "@) + "\n"@,
        None => "[No tags]\n"@,
    }
}

/// `t` with one more tag.
pub open spec fn with_tag(t: TaskModel, g: Seq<char>) -> TaskModel {
    TaskModel { name: t.name, column: t.column, description: t.description, tags: Some(tags_of(t).push(g)) }
}

/// The message for a task that is not there.
pub open spec fn no_task_text(key: Seq<char>) -> Seq<char> {
    "No task called '"@ + key + "' found.\n"@
}

/// The result of an update, with the output text set aside.
pub open spec fn outcome(r: Result<String, NotFoundInIndex>) -> Result<(), NotFoundInIndex> {
    match r {
        Ok(_) => Ok(()),
        Err(e) => Err(e),
    }
}

/// What `tag(key, label)` does.
pub open spec fn tag_post(
    pre: BoardModel,
    key: Seq<char>,
    label: Option<Seq<char>>,
    r: Result<String, NotFoundInIndex>,
    post: BoardModel,
) -> bool {
    if !pre.tasks.contains_key(key) {
        post == pre && (r matches Ok(s) && s@ == no_task_text(key))
    } else {
        let t = pre.tasks[key];
        match label {
            None => post == pre && (r matches Ok(s) && s@ == tags_text(t)),
            Some(g) => update_post(pre, t.name, with_tag(t, g), outcome(r), post) && (r matches Ok(
                s,
            ) ==> s@ == Seq::<char>::empty()),
        }
    }
}

/// Shows the tags of task `key`, or, given `tag_label`, adds that tag to it.
pub fn tag<B: BoardAccess>(key: &str, tag_label: Option<String>, board: &mut B) -> (r: Result<
    String,
    NotFoundInIndex,
>)
    ensures
        tag_post(old(board).model(), key@, opt_tag(tag_label), r, final(board).model()),
{
    match board.get(key) {
        None => {
            let mut out = "No task called '".to_owned();
            out.append(key);
            out.append("' found.\n");
            Ok(out)
        },
        Some(task) => match tag_label {
            None => Ok(view_tags(task)),
            Some(t) => match add_tag(task, t, board) {
                Ok(()) => Ok(String::new()),
                Err(e) => Err(e),
            },
        },
    }
}

/// The tags of a task joined by commas, or a note that it has none.
pub fn view_tags(task: Task) -> (r: String)
    ensures
        r@ == tags_text(task.deep_view()),
{
    match task.tags {
        Some(t) => join_strings(&t, ", ").concat("\n"),
        None => "[No tags]\n".to_owned(),
    }
}

/// Adds `tag` to `task` and stores it under the task's name.
pub fn add_tag<B: BoardAccess>(task: Task, tag: String, board: &mut B) -> (r: Result<
    (),
    NotFoundInIndex,
>)
    ensures
        update_post(
            old(board).model(),
            task.name@,
            with_tag(task.deep_view(), tag@),
            r,
            final(board).model(),
        ),
{
    let ghost tm = task.deep_view();
    let name = task.name.clone();
    let mut tag_list = match task.tags {
        Some(g) => g,
        None => Vec::new(),
    };
    let ghost before = views(tag_list@);
    assert(before =~= tags_of(tm));
    tag_list.push(tag);
    assert(views(tag_list@) =~= before.push(tag@));
    let new_task = Task {
        name: task.name,
        column: task.column,
        description: task.description,
        tags: Some(tag_list),
    };
    board.update(name.as_str(), new_task)
}

/// Opens and creates the files that hold task descriptions.
pub trait Editor {
    /// Opens the file at `path` for editing.
    fn open(&mut self, path: &str);

    /// Creates a file for task `key`, opens it, and returns its path.
    fn create(&mut self, key: &str) -> Result<String, ()>;
}

/// `t` with its description set to `d`.
pub open spec fn with_description(t: TaskModel, d: Seq<char>) -> TaskModel {
    TaskModel { name: t.name, column: t.column, description: Some(d), tags: t.tags }
}

/// The description of `t` names a file.
pub open spec fn has_description(t: TaskModel) -> bool {
    t.description matches Some(d) && has_text(d)
}

/// What recording the outcome `created` of creating a description file for
/// task `key` does: on a path, the task's description becomes that path;
/// otherwise, or when there is no such task, nothing changes.
pub open spec fn record_post(
    pre: BoardModel,
    key: Seq<char>,
    created: Result<Seq<char>, ()>,
    post: BoardModel,
) -> bool {
    match created {
        Ok(p) => if pre.tasks.contains_key(key) {
            update_post(pre, key, with_description(pre.tasks[key], p), Ok(()), post)
        } else {
            post == pre
        },
        Err(_) => post == pre,
    }
}

/// The view of the editor's outcome.
pub open spec fn created_view(c: Result<String, ()>) -> Result<Seq<char>, ()> {
    match c {
        Ok(p) => Ok(p@),
        Err(u) => Err(u),
    }
}

/// Records the path of a newly created description file as the description
/// of task `key`.
pub fn record_description<B: BoardAccess>(key: &str, created: Result<String, ()>, board: &mut B)
    ensures
        record_post(old(board).model(), key@, created_view(created), final(board).model()),
{
    if let Ok(path) = created {
        if let Some(task) = board.get(key) {
            let ghost pre = board.model();
            let ghost p = path@;
            let mut updated = task;
            updated.description = Some(path);
            let res = board.update(key, updated);
            proof {
                let t = pre.tasks[key@];
                assert(!crate::board::tag_drift(pre, key@, with_description(t, p)));
                assert(res is Ok);
                assert(update_post(pre, key@, with_description(t, p), Ok(()), board.model()));
            }
        }
    }
}

/// What `edit_item(key)` does: the editor's outcome decides whether a new
/// description is recorded.
pub open spec fn edit_post(pre: BoardModel, key: Seq<char>, r: Seq<char>, post: BoardModel) -> bool {
    if !pre.tasks.contains_key(key) {
        r == "No item named '"@ + key + "' found.\n"@ && post == pre
    } else if has_description(pre.tasks[key]) {
        r == Seq::<char>::empty() && post == pre
    } else {
        r == Seq::<char>::empty() && exists|c: Result<Seq<char>, ()>| record_post(pre, key, c, post)
    }
}

/// Opens the description of task `key` in the editor, creating a file for it
/// (and recording its path) when it has none. When the editor cannot create
/// the file, nothing is recorded.
pub fn edit_item<B: BoardAccess, E: Editor>(key: String, board: &mut B, editor: &mut E) -> (r: String)
    ensures
        edit_post(old(board).model(), key@, r@, final(board).model()),
{
    let task = match board.get(key.as_str()) {
        None => {
            let mut out = "No item named '".to_owned();
            out.append(key.as_str());
            out.append("' found.\n");
            return out;
        },
        Some(t) => t,
    };
    if let Some(d) = &task.description {
        if not_blank(d.as_str()) {
            editor.open(d.as_str());
            return String::new();
        }
    }
    let created = editor.create(key.as_str());
    let ghost c = created_view(created);
    record_description(key.as_str(), created, board);
    assert(record_post(old(board).model(), key@, c, board.model()));
    String::new()
}

/// Reads the files that hold task descriptions.
pub trait Reader {
    /// The contents of the file at `path`, if it can be read.
    fn read(&self, path: &str) -> Option<String>;
}

/// Whether `s` holds the terminal's reset sequence `ESC [ 0 m`.
pub open spec fn has_reset(s: Seq<char>) -> bool {
    exists|i: int| 0 <= i && i + 4 <= s.len() && #[trigger] s.subrange(i, i + 4) == "\x1B[0m"@
}

/// Relies on colored's `Colorize::bold` for `&str` and the `Display` of its
/// `ColoredString`: when the environment allows colour, the text between the
/// bold code `ESC [ 1 m` and the reset code `ESC [ 0 m` (reset codes inside
/// the text are escaped); otherwise the text itself. Which one depends on the
/// environment.
#[verifier::external_body]
fn bold(s: &str) -> (r: String)
    ensures
        !has_reset(s@) ==> (r@ == s@ || r@ == "\x1B[1m"@ + s@ + "\x1B[0m"@),
{
    s.bold().to_string()
}

/// The line that shows a task's tags, before it is set in bold.
pub open spec fn tags_line(g: Seq<Seq<char>>) -> Seq<char> {
    "tags: "@ + join(g, ", "@) + "\n"@
}

/// What `view_item` shows after the tags, given what was read from the
/// description file.
pub open spec fn view_body(key: Seq<char>, description: Option<Seq<char>>, contents: Option<Seq<char>>) -> Seq<char> {
    match description {
        None => "Empty description\n"@,
        Some(_) => match contents {
            None => "Error loading file for '"@ + key + "'\n"@,
            Some(c) => c + "\n"@,
        },
    }
}

/// The view of task `key`: `prefix` (its tag line), then its description
/// file's `contents`, or why there are none.
pub fn view_output(key: &str, prefix: String, description: &Option<String>, contents: Option<String>) -> (r: String)
    ensures
        r@ == prefix@ + view_body(key@, crate::task::opt_view(*description), crate::task::opt_view(contents)),
{
    let rest = match description {
        None => "Empty description\n".to_owned(),
        Some(_) => match contents {
            None => {
                let mut out = "Error loading file for '".to_owned();
                out.append(key);
                out.append("'\n");
                out
            },
            Some(c) => c.concat("\n"),
        },
    };
    prefix.concat(rest.as_str())
}

/// What `view_item(key)` prints: the tag line (in bold when the environment
/// allows), then the description file's contents as the reader returned them.
pub open spec fn view_text(m: BoardModel, key: Seq<char>, r: Seq<char>) -> bool {
    if !m.tasks.contains_key(key) {
        r == "No task named '"@ + key + "' found.\n"@
    } else {
        let t = m.tasks[key];
        exists|prefix: Seq<char>, contents: Option<Seq<char>>|
            r == prefix + view_body(key, t.description, contents) && match t.tags {
                None => prefix.len() == 0,
                Some(g) => !has_reset(tags_line(g)) ==> (prefix == tags_line(g) || prefix == "\x1B[1m"@
                    + tags_line(g) + "\x1B[0m"@),
            }
    }
}

/// Shows the tags of task `key` in bold, then the contents of its description file.
pub fn view_item<B: BoardAccess, R: Reader>(key: String, board: &B, reader: &R) -> (r: String)
    ensures
        view_text(board.model(), key@, r@),
{
    let task = match board.get(key.as_str()) {
        None => {
            let mut out = "No task named '".to_owned();
            out.append(key.as_str());
            out.append("' found.\n");
            return out;
        },
        Some(t) => t,
    };
    let prefix = match &task.tags {
        Some(tags) => {
            let line = "tags: ".to_owned().concat(join_strings(tags, ", ").as_str()).concat("\n");
            bold(line.as_str())
        },
        None => String::new(),
    };
    let contents = match &task.description {
        None => None,
        Some(d) => reader.read(d.as_str()),
    };
    let ghost (p, c) = (prefix@, crate::task::opt_view(contents));
    let out = view_output(key.as_str(), prefix, &task.description, contents);
    assert(out@ == p + view_body(key@, task.deep_view().description, c));
    out
}

/// What `handle(opts)` does: the effect and output of the command `opts` names.
pub open spec fn handle_post(
    pre: BoardModel,
    opts: Opts,
    r: Result<String, NotFoundInIndex>,
    post: BoardModel,
) -> bool {
    let quiet = (r matches Ok(s) ==> s@ == Seq::<char>::empty());
    match opts.subcmd {
        None => post == pre && (r matches Ok(s) && s@ == board_text(
            column_names(pre, label_of(Column::Todo), opts.tag),
            column_names(pre, label_of(Column::Doing), opts.tag),
            column_names(pre, label_of(Column::Done), opts.tag),
        )),
        Some(SubCommand::Add(a)) => r is Ok && quiet && if has_text(a.title@) {
            crate::board::create_post(pre, a.title@, opt_tag(a.tag), post)
        } else {
            post == pre
        },
        Some(SubCommand::Start(a)) => quiet && move_post(pre, a.title@, Column::Doing, outcome(r), post),
        Some(SubCommand::Complete(a)) => quiet && move_post(
            pre,
            a.title@,
            Column::Done,
            outcome(r),
            post,
        ),
        Some(SubCommand::Delete(a)) => quiet && remove_post(pre, a.title@, outcome(r), post),
        Some(SubCommand::ClearDone) => quiet && clear_post(pre, outcome(r), post),
        Some(SubCommand::Edit(a)) => r matches Ok(s) && edit_post(pre, a.title@, s@, post),
        Some(SubCommand::View(a)) => post == pre && (r matches Ok(s) && view_text(pre, a.title@, s@)),
        Some(SubCommand::Now) => post == pre && (r matches Ok(s) && s@ == now_text(
            column_names(pre, label_of(Column::Doing), opts.tag),
            opts.no_newlines,
        )),
        Some(SubCommand::Reindex) => (r matches Ok(s) && s@ == Seq::<char>::empty()) && exists|
            n: Result<usize, ()>,
        | reindex_post(pre, n, post),
        Some(SubCommand::Top(a)) => quiet && top_post(pre, a.title@, outcome(r), post),
        Some(SubCommand::Tag(a)) => tag_post(pre, a.title@, opt_tag(a.tag), r, post),
    }
}

/// Turns a result with no output into one with empty output.
fn silent(r: Result<(), NotFoundInIndex>) -> (o: Result<String, NotFoundInIndex>)
    ensures
        outcome(o) == r,
        o matches Ok(s) ==> s@ == Seq::<char>::empty(),
{
    match r {
        Ok(u) => {
            assert(u == ());
            Ok(String::new())
        },
        Err(e) => Err(e),
    }
}

/// Runs the command that `opts` names on the board and returns what it prints.
pub fn handle<B: BoardAccess, E: Editor, R: Reader>(
    opts: Opts,
    board: &mut B,
    editor: &mut E,
    file_reader: &R,
) -> (r: Result<String, NotFoundInIndex>)
    ensures
        handle_post(old(board).model(), opts, r, final(board).model()),
{
    match opts.subcmd {
        None => Ok(list_tasks(opts.tag, board)),
        Some(SubCommand::Add(a)) => {
            add_item(a.title, a.tag, board);
            Ok(String::new())
        },
        Some(SubCommand::Start(a)) => silent(start_item(a.title, board)),
        Some(SubCommand::Complete(a)) => silent(complete_item(a.title, board)),
        Some(SubCommand::Delete(a)) => silent(delete_item(a.title, board)),
        Some(SubCommand::ClearDone) => silent(clear_done(board)),
        Some(SubCommand::Edit(a)) => Ok(edit_item(a.title, board, editor)),
        Some(SubCommand::View(a)) => Ok(view_item(a.title, board, file_reader)),
        Some(SubCommand::Now) => Ok(now(board, opts.no_newlines, opts.tag)),
        Some(SubCommand::Reindex) => {
            let _ = reindex(board);
            Ok(String::new())
        },
        Some(SubCommand::Top(a)) => silent(top(a.title, board)),
        Some(SubCommand::Tag(a)) => tag(a.title.as_str(), a.tag, board),
    }
}

} // verus!
