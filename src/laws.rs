//! Properties of the board operations, proved from their contracts.

use vstd::prelude::*;
use crate::board::{
    create_post, names_in, passes, reindex_post, shown, top_post, update_post, BoardModel,
    NotFoundInIndex,
};
use crate::index::{
    first_pos, lemma_add_member, lemma_first_pos_found, lemma_push_contains, lemma_remove_first,
    move_to_front, remove_first,
};
use crate::commands::{clear_post, done_names, removals};
use crate::task::{label_of, tags_of, Column, TaskModel};

verus! {

/// Each column list holds, once each, exactly the keys of the tasks in that column.
pub open spec fn columns_consistent(m: BoardModel) -> bool {
    &&& forall|c: Column| #[trigger] m.column_list(label_of(c)).no_duplicates()
    &&& forall|c: Column, k: Seq<char>| #[trigger]
        m.column_list(label_of(c)).contains(k) <==> (m.tasks.contains_key(k) && m.tasks[k].column
            == c)
}

/// Each stored task is listed under exactly its tags, and no tag list repeats a key.
pub open spec fn tags_consistent(m: BoardModel) -> bool {
    &&& forall|g: Seq<char>| #[trigger] m.tag_list(g).no_duplicates()
    &&& forall|g: Seq<char>, k: Seq<char>|
        m.tasks.contains_key(k) ==> (#[trigger] m.tag_list(g).contains(k) <==> tags_of(
            m.tasks[k],
        ).contains(g))
}

/// Each stored task is named by its key.
pub open spec fn named_by_key(m: BoardModel) -> bool {
    forall|k: Seq<char>| #[trigger] m.tasks.contains_key(k) ==> m.tasks[k].name == k
}

/// The records that are not in `Done`.
pub open spec fn without_done(tasks: Map<Seq<char>, TaskModel>) -> Map<Seq<char>, TaskModel> {
    Map::new(
        |k: Seq<char>| tasks.contains_key(k) && tasks[k].column != Column::Done,
        |k: Seq<char>| tasks[k],
    )
}

/// No index lists `key`.
pub open spec fn unlisted(m: BoardModel, key: Seq<char>) -> bool {
    &&& forall|l: Seq<char>| !(#[trigger] m.column_list(l).contains(key))
    &&& forall|g: Seq<char>| !(#[trigger] m.tag_list(g).contains(key))
}

/// The keys `get_column` shows are the listed keys that pass the filter and
/// have a record.
pub proof fn lemma_shown_contains(
    list: Seq<Seq<char>>,
    members: Option<Seq<Seq<char>>>,
    tasks: Map<Seq<char>, TaskModel>,
)
    ensures
        forall|k: Seq<char>| #[trigger]
            shown(list, members, tasks).contains(k) <==> (list.contains(k) && passes(members, k)
                && tasks.contains_key(k)),
    decreases list.len(),
{
    if list.len() > 0 {
        let prev = list.drop_last();
        lemma_shown_contains(prev, members, tasks);
        lemma_push_contains(prev, list.last());
        assert(prev.push(list.last()) =~= list);
        lemma_push_contains(shown(prev, members, tasks), list.last());
    }
}

/// With no filter and every listed key stored, `get_column` shows the list as it is.
pub proof fn lemma_shown_all(list: Seq<Seq<char>>, tasks: Map<Seq<char>, TaskModel>)
    requires
        forall|k: Seq<char>| list.contains(k) ==> #[trigger] tasks.contains_key(k),
    ensures
        shown(list, None, tasks) == list,
    decreases list.len(),
{
    if list.len() > 0 {
        let prev = list.drop_last();
        assert forall|k: Seq<char>| prev.contains(k) implies #[trigger] tasks.contains_key(k) by {
            let j = choose|j: int| 0 <= j < prev.len() && prev[j] == k;
            assert(list[j] == k);
        }
        lemma_shown_all(prev, tasks);
        assert(list.contains(list.last()));
        assert(prev.push(list.last()) =~= list);
    }
}

/// A created task is in `Todo`, at the end of that column.
pub proof fn created_task_ends_todo(
    pre: BoardModel,
    key: Seq<char>,
    tag: Option<Seq<char>>,
    post: BoardModel,
)
    requires
        create_post(pre, key, tag, post),
    ensures
        post.tasks[key].column == Column::Todo,
        post.column_list(label_of(Column::Todo)).last() == key,
{
    assert(post.column_list(label_of(Column::Todo)) == pre.column_list(label_of(Column::Todo)).push(
        key,
    ));
}

/// Creating a task under a key no index lists keeps the column index consistent.
pub proof fn create_keeps_columns(
    pre: BoardModel,
    key: Seq<char>,
    tag: Option<Seq<char>>,
    post: BoardModel,
)
    requires
        columns_consistent(pre),
        !pre.tasks.contains_key(key),
        create_post(pre, key, tag, post),
    ensures
        columns_consistent(post),
{
    let todo = label_of(Column::Todo);
    lemma_push_contains(pre.column_list(todo), key);
    assert forall|c: Column| #[trigger] post.column_list(label_of(c)).no_duplicates() by {
        if c != Column::Todo {
            crate::board::lemma_labels_distinct(c, Column::Todo);
        } else {
            assert(!pre.column_list(todo).contains(key));
            assert(pre.column_list(label_of(Column::Todo)).no_duplicates());
            lemma_add_member(pre.column_list(todo), key);
        }
    }
    assert forall|c: Column, k: Seq<char>| #[trigger] post.column_list(label_of(c)).contains(k) <==> (
    post.tasks.contains_key(k) && post.tasks[k].column == c) by {
        if c != Column::Todo {
            crate::board::lemma_labels_distinct(c, Column::Todo);
        }
    }
}

/// Creating a task under a key no index lists keeps the tag index consistent.
pub proof fn create_keeps_tags(
    pre: BoardModel,
    key: Seq<char>,
    tag: Option<Seq<char>>,
    post: BoardModel,
)
    requires
        tags_consistent(pre),
        !pre.tasks.contains_key(key),
        unlisted(pre, key),
        create_post(pre, key, tag, post),
    ensures
        tags_consistent(post),
{
    assert forall|g: Seq<char>| #[trigger] post.tag_list(g).no_duplicates() by {
        lemma_add_member(pre.tag_list(g), key);
    }
    assert forall|g: Seq<char>, k: Seq<char>| post.tasks.contains_key(k) implies (
    #[trigger] post.tag_list(g).contains(k) <==> tags_of(post.tasks[k]).contains(g)) by {
        lemma_add_member(pre.tag_list(g), key);
        if k == key {
            if let Some(t) = tag {
                lemma_push_contains(Seq::<Seq<char>>::empty(), t);
                assert(seq![t] =~= Seq::<Seq<char>>::empty().push(t));
            }
        }
    }
}

/// An update keeps the column index consistent; on a consistent board it
/// never fails on a column move.
pub proof fn update_keeps_columns(
    pre: BoardModel,
    key: Seq<char>,
    t: TaskModel,
    r: Result<(), NotFoundInIndex>,
    post: BoardModel,
)
    requires
        columns_consistent(pre),
        update_post(pre, key, t, r, post),
    ensures
        columns_consistent(post),
{
    if pre.tasks.contains_key(key) && r is Ok {
        let from = pre.tasks[key].column;
        let to = t.column;
        if from != to {
            crate::board::lemma_labels_distinct(from, to);
            assert(pre.column_list(label_of(from)).no_duplicates());
            lemma_remove_first(pre.column_list(label_of(from)), key);
            lemma_push_contains(pre.column_list(label_of(to)), key);
            assert forall|c: Column| #[trigger] post.column_list(label_of(c)).no_duplicates() by {
                if c == to {
                    assert(!pre.column_list(label_of(to)).contains(key));
                    assert(pre.column_list(label_of(to)).no_duplicates());
                    lemma_add_member(pre.column_list(label_of(to)), key);
                } else if c != from {
                    crate::board::lemma_labels_distinct(c, from);
                    crate::board::lemma_labels_distinct(c, to);
                }
            }
            assert forall|c: Column, k: Seq<char>| #[trigger] post.column_list(label_of(c)).contains(k)
                <==> (post.tasks.contains_key(k) && post.tasks[k].column == c) by {
                if c != from && c != to {
                    crate::board::lemma_labels_distinct(c, from);
                    crate::board::lemma_labels_distinct(c, to);
                }
            }
        } else {
            assert forall|c: Column, k: Seq<char>| #[trigger] post.column_list(label_of(c)).contains(k)
                <==> (post.tasks.contains_key(k) && post.tasks[k].column == c) by {}
            assert forall|c: Column| #[trigger] post.column_list(label_of(c)).no_duplicates() by {}
        }
    } else {
        assert forall|c: Column, k: Seq<char>| #[trigger] post.column_list(label_of(c)).contains(k)
            <==> (post.tasks.contains_key(k) && post.tasks[k].column == c) by {
            assert(post.column_list(label_of(c)) == pre.column_list(label_of(c)));
        }
        assert forall|c: Column| #[trigger] post.column_list(label_of(c)).no_duplicates() by {
            assert(post.column_list(label_of(c)) == pre.column_list(label_of(c)));
        }
    }
}

/// On a board whose column index is consistent, `get_column(c, None)` shows,
/// in the column's order and once each, exactly the tasks whose column is `c`.
pub proof fn column_shows_its_tasks(m: BoardModel, c: Column)
    requires
        columns_consistent(m),
    ensures
        shown(m.column_list(label_of(c)), None, m.tasks) == m.column_list(label_of(c)),
        m.column_list(label_of(c)).no_duplicates(),
        named_by_key(m) ==> shown(m.column_list(label_of(c)), None, m.tasks).map_values(
            |k: Seq<char>| m.tasks[k].name,
        ) == m.column_list(label_of(c)),
        forall|k: Seq<char>| #[trigger]
            shown(m.column_list(label_of(c)), None, m.tasks).contains(k) <==> (m.tasks.contains_key(k)
                && m.tasks[k].column == c),
{
    let list = m.column_list(label_of(c));
    assert forall|k: Seq<char>| list.contains(k) implies #[trigger] m.tasks.contains_key(k) by {
        assert(m.column_list(label_of(c)).contains(k));
    }
    lemma_shown_all(list, m.tasks);
    assert forall|k: Seq<char>| #[trigger] list.contains(k) <==> (m.tasks.contains_key(k)
        && m.tasks[k].column == c) by {
        assert(m.column_list(label_of(c)).contains(k) == list.contains(k));
    }
    if named_by_key(m) {
        assert forall|i: int| 0 <= i < list.len() implies #[trigger] m.tasks[list[i]].name == list[i] by {
            assert(list.contains(list[i]));
        }
        assert(list.map_values(|k: Seq<char>| m.tasks[k].name) =~= list);
    }
}

/// Filtering a list without duplicates gives a list without duplicates.
pub proof fn lemma_shown_no_dups(
    list: Seq<Seq<char>>,
    members: Option<Seq<Seq<char>>>,
    tasks: Map<Seq<char>, TaskModel>,
)
    requires
        list.no_duplicates(),
    ensures
        shown(list, members, tasks).no_duplicates(),
    decreases list.len(),
{
    if list.len() > 0 {
        let prev = list.drop_last();
        let last = list.last();
        assert(prev.no_duplicates());
        lemma_shown_no_dups(prev, members, tasks);
        lemma_shown_contains(prev, members, tasks);
        assert(!prev.contains(last)) by {
            if prev.contains(last) {
                let j = choose|j: int| 0 <= j < prev.len() && prev[j] == last;
                assert(list[j] == list[list.len() - 1]);
            }
        }
        lemma_add_member(shown(prev, members, tasks), last);
    }
}

/// On a board whose two indices are consistent, `get_column(c, Some(g))` shows
/// a stored task exactly when it is in column `c` and tagged `g`.
pub proof fn tag_filter_shows_tagged(m: BoardModel, c: Column, g: Seq<char>)
    requires
        columns_consistent(m),
        tags_consistent(m),
    ensures
        shown(m.column_list(label_of(c)), Some(m.tag_list(g)), m.tasks).no_duplicates(),
        forall|k: Seq<char>| #[trigger]
            m.tasks.contains_key(k) ==> (shown(m.column_list(label_of(c)), Some(m.tag_list(g)), m.tasks).contains(k)
                <==> (m.tasks[k].column == c && tags_of(m.tasks[k]).contains(g))),
{
    lemma_shown_contains(m.column_list(label_of(c)), Some(m.tag_list(g)), m.tasks);
    assert(m.column_list(label_of(c)).no_duplicates());
    lemma_shown_no_dups(m.column_list(label_of(c)), Some(m.tag_list(g)), m.tasks);
    assert forall|k: Seq<char>| #[trigger] m.tasks.contains_key(k) implies (shown(
        m.column_list(label_of(c)),
        Some(m.tag_list(g)),
        m.tasks,
    ).contains(k) <==> (m.tasks[k].column == c && tags_of(m.tasks[k]).contains(g))) by {
        assert(m.column_list(label_of(c)).contains(k) <==> m.tasks[k].column == c);
        assert(m.tag_list(g).contains(k) <==> tags_of(m.tasks[k]).contains(g));
    }
}

/// An update keeps the tag index consistent; on a board whose two indices
/// are consistent it succeeds whenever the key is stored.
pub proof fn update_keeps_tags(
    pre: BoardModel,
    key: Seq<char>,
    t: TaskModel,
    r: Result<(), NotFoundInIndex>,
    post: BoardModel,
)
    requires
        columns_consistent(pre),
        tags_consistent(pre),
        update_post(pre, key, t, r, post),
    ensures
        tags_consistent(post),
        r is Ok,
{
    if pre.tasks.contains_key(key) {
        let old_task = pre.tasks[key];
        assert(!crate::board::tag_drift(pre, key, t)) by {
            assert forall|g: Seq<char>|
                !(tags_of(old_task).contains(g) && !tags_of(t).contains(g) && !(#[trigger] pre.tag_list(
                    g,
                ).contains(key))) by {}
        }
        assert(!crate::board::column_drift(pre, key, t)) by {
            assert(pre.column_list(label_of(old_task.column)).contains(key));
        }
        assert forall|g: Seq<char>| #[trigger] post.tag_list(g).no_duplicates() by {
            assert(pre.tag_list(g).no_duplicates());
            lemma_add_member(pre.tag_list(g), key);
            lemma_remove_first(pre.tag_list(g), key);
        }
        assert forall|g: Seq<char>, k: Seq<char>| post.tasks.contains_key(k) implies (
        #[trigger] post.tag_list(g).contains(k) <==> tags_of(post.tasks[k]).contains(g)) by {
            assert(pre.tag_list(g).no_duplicates());
            lemma_add_member(pre.tag_list(g), key);
            lemma_remove_first(pre.tag_list(g), key);
            if k != key {
                assert(pre.tag_list(g).contains(k) <==> tags_of(pre.tasks[k]).contains(g));
            } else {
                assert(pre.tag_list(g).contains(key) <==> tags_of(old_task).contains(g));
            }
        }
    } else {
        assert forall|g: Seq<char>| #[trigger] post.tag_list(g).no_duplicates() by {
            assert(post.tag_list(g) == pre.tag_list(g));
        }
        assert forall|g: Seq<char>, k: Seq<char>| post.tasks.contains_key(k) implies (
        #[trigger] post.tag_list(g).contains(k) <==> tags_of(post.tasks[k]).contains(g)) by {
            assert(post.tag_list(g) == pre.tag_list(g));
        }
    }
}

/// Updating a key twice with the same task leaves the store and both indices
/// as updating it once did.
pub proof fn update_twice_is_update_once(
    b0: BoardModel,
    key: Seq<char>,
    t: TaskModel,
    r1: Result<(), NotFoundInIndex>,
    b1: BoardModel,
    r2: Result<(), NotFoundInIndex>,
    b2: BoardModel,
)
    requires
        update_post(b0, key, t, r1, b1),
        update_post(b1, key, t, r2, b2),
    ensures
        b2.tasks == b1.tasks,
        forall|l: Seq<char>| #[trigger] b2.column_list(l) == b1.column_list(l),
        forall|g: Seq<char>| #[trigger] b2.tag_list(g) == b1.tag_list(g),
{
    if b0.tasks.contains_key(key) && r1 is Ok {
        assert(b1.tasks[key] == t);
        assert(!crate::board::tag_drift(b1, key, t));
        assert(r2 is Ok);
        assert forall|g: Seq<char>| #[trigger] b2.tag_list(g) == b1.tag_list(g) by {}
        assert forall|l: Seq<char>| #[trigger] b2.column_list(l) == b1.column_list(l) by {}
    } else if b0.tasks.contains_key(key) {
        assert(b1.tasks == b0.tasks);
        assert forall|g: Seq<char>| #[trigger] b1.tag_list(g) == b0.tag_list(g) by {}
        assert forall|l: Seq<char>| #[trigger] b1.column_list(l) == b0.column_list(l) by {}
        assert(crate::board::tag_drift(b0, key, t) == crate::board::tag_drift(b1, key, t)) by {
            if crate::board::tag_drift(b0, key, t) {
                let g = choose|g: Seq<char>|
                    tags_of(b0.tasks[key]).contains(g) && !tags_of(t).contains(g) && !(#[trigger] b0.tag_list(
                        g,
                    ).contains(key));
                assert(b1.tag_list(g) == b0.tag_list(g));
            }
            if crate::board::tag_drift(b1, key, t) {
                let g = choose|g: Seq<char>|
                    tags_of(b1.tasks[key]).contains(g) && !tags_of(t).contains(g) && !(#[trigger] b1.tag_list(
                        g,
                    ).contains(key));
                assert(b1.tag_list(g) == b0.tag_list(g));
            }
        }
        assert(crate::board::column_drift(b0, key, t) == crate::board::column_drift(b1, key, t)) by {
            assert(b1.column_list(label_of(b0.tasks[key].column)) == b0.column_list(
                label_of(b0.tasks[key].column),
            ));
        }
        assert(r2 is Err);
    }
}

/// The names `reindex_columns` lists for a column, when each task is named by its key.
pub proof fn lemma_names_in(order: Seq<Seq<char>>, tasks: Map<Seq<char>, TaskModel>, c: Column)
    requires
        order.no_duplicates(),
        forall|k: Seq<char>| #[trigger] order.contains(k) ==> tasks.contains_key(k) && tasks[k].name == k,
    ensures
        names_in(order, tasks, c).no_duplicates(),
        forall|k: Seq<char>| #[trigger]
            names_in(order, tasks, c).contains(k) <==> (order.contains(k) && tasks[k].column == c),
    decreases order.len(),
{
    if order.len() > 0 {
        let prev = order.drop_last();
        let last = order.last();
        assert(prev.push(last) =~= order);
        lemma_push_contains(prev, last);
        assert forall|k: Seq<char>| #[trigger] prev.contains(k) implies tasks.contains_key(k)
            && tasks[k].name == k by {
            assert(prev.push(last).contains(k));
        }
        assert(!prev.contains(last)) by {
            if prev.contains(last) {
                let j = choose|j: int| 0 <= j < prev.len() && prev[j] == last;
                assert(order[j] == order[order.len() - 1]);
            }
        }
        lemma_names_in(prev, tasks, c);
        assert(order.contains(last));
        if tasks[last].column == c {
            lemma_add_member(names_in(prev, tasks, c), last);
        }
    }
}

/// `reindex_columns` run twice leaves what running it once did, and returns
/// the number of stored tasks both times.
pub proof fn reindex_is_idempotent(
    b0: BoardModel,
    r0: Result<usize, ()>,
    b1: BoardModel,
    r1: Result<usize, ()>,
    b2: BoardModel,
)
    requires
        reindex_post(b0, r0, b1),
        reindex_post(b1, r1, b2),
    ensures
        b2.tasks == b1.tasks,
        forall|l: Seq<char>| #[trigger] b2.column_list(l) == b1.column_list(l),
        forall|g: Seq<char>| #[trigger] b2.tag_list(g) == b1.tag_list(g),
        r0 matches Ok(n) && n == b0.tasks.dom().len(),
        r1 == r0,
{
    b0.order.unique_seq_to_set();
    assert forall|l: Seq<char>| #[trigger] b2.column_list(l) == b1.column_list(l) by {
        if l == label_of(Column::Todo) {
            assert(b2.column_list(label_of(Column::Todo)) == b1.column_list(label_of(Column::Todo)));
        } else if l == label_of(Column::Doing) {
            assert(b2.column_list(label_of(Column::Doing)) == b1.column_list(label_of(Column::Doing)));
        } else if l == label_of(Column::Done) {
            assert(b2.column_list(label_of(Column::Done)) == b1.column_list(label_of(Column::Done)));
        }
    }
}

/// After `reindex_columns`, the column index is consistent with the store,
/// whatever it held before, provided each task is named by its key.
pub proof fn reindex_restores_columns(b0: BoardModel, r: Result<usize, ()>, b1: BoardModel)
    requires
        reindex_post(b0, r, b1),
        forall|k: Seq<char>| #[trigger] b0.tasks.contains_key(k) ==> b0.tasks[k].name == k,
    ensures
        columns_consistent(b1),
{
    assert forall|k: Seq<char>| #[trigger] b0.order.contains(k) implies b0.tasks.contains_key(k)
        && b0.tasks[k].name == k by {
        assert(b0.order.to_set().contains(k));
    }
    assert forall|c: Column| #[trigger] b1.column_list(label_of(c)).no_duplicates() by {
        lemma_names_in(b0.order, b0.tasks, c);
    }
    assert forall|c: Column, k: Seq<char>| #[trigger] b1.column_list(label_of(c)).contains(k) <==> (
    b1.tasks.contains_key(k) && b1.tasks[k].column == c) by {
        lemma_names_in(b0.order, b0.tasks, c);
        assert(b0.order.contains(k) <==> b0.order.to_set().contains(k));
    }
}

/// Moving a listed key to the front of a list without duplicates keeps the
/// same keys, once each.
pub proof fn lemma_move_to_front(s: Seq<Seq<char>>, k: Seq<char>)
    requires
        s.no_duplicates(),
        s.contains(k),
    ensures
        move_to_front(s, k).no_duplicates(),
        move_to_front(s, k)[0] == k,
        forall|x: Seq<char>| #[trigger] move_to_front(s, k).contains(x) <==> s.contains(x),
        s[0] != k ==> move_to_front(s, k)[1] == s[0],
{
    lemma_remove_first(s, k);
    let rest = remove_first(s, k);
    let r = move_to_front(s, k);
    assert(r =~= seq![k] + rest);
    assert forall|x: Seq<char>| #[trigger] r.contains(x) <==> s.contains(x) by {
        if r.contains(x) {
            let j = choose|j: int| 0 <= j < r.len() && r[j] == x;
            if j > 0 {
                assert(rest[j - 1] == x);
                assert(rest.contains(x));
            }
        }
        if s.contains(x) && x != k {
            assert(rest.contains(x));
            let j = choose|j: int| 0 <= j < rest.len() && rest[j] == x;
            assert(r[j + 1] == x);
        }
        if x == k {
            assert(r[0] == x);
        }
    }
    assert forall|i: int, j: int| 0 <= i < j < r.len() implies r[i] != r[j] by {
        if i == 0 {
            assert(rest.contains(r[j]));
        } else {
            assert(r[i] == rest[i - 1] && r[j] == rest[j - 1]);
        }
    }
    if s[0] != k {
        lemma_first_pos_found(s, k);
        assert(first_pos(s, k) > 0);
        assert(rest[0] == s[0]);
    }
}

/// On a board whose column index is consistent, `top_priority(k)` succeeds,
/// keeps the index consistent, and `get_column` then shows `k` first.
pub proof fn top_priority_puts_first(
    b0: BoardModel,
    k: Seq<char>,
    r: Result<(), NotFoundInIndex>,
    b1: BoardModel,
)
    requires
        columns_consistent(b0),
        b0.tasks.contains_key(k),
        top_post(b0, k, r, b1),
    ensures
        r is Ok,
        columns_consistent(b1),
        shown(b1.column_list(label_of(b0.tasks[k].column)), None, b1.tasks)[0] == k,
{
    let c = b0.tasks[k].column;
    let label = label_of(c);
    assert(b0.column_list(label).contains(k));
    assert(b0.column_list(label).no_duplicates());
    lemma_move_to_front(b0.column_list(label), k);
    assert forall|d: Column| #[trigger] b1.column_list(label_of(d)).no_duplicates() by {
        if d != c {
            crate::board::lemma_labels_distinct(d, c);
        }
    }
    assert forall|d: Column, x: Seq<char>| #[trigger] b1.column_list(label_of(d)).contains(x) <==> (
    b1.tasks.contains_key(x) && b1.tasks[x].column == d) by {
        if d != c {
            crate::board::lemma_labels_distinct(d, c);
        }
    }
    column_shows_its_tasks(b1, c);
}

/// Prioritising a second task of the same column puts it first and the
/// earlier one second.
pub proof fn second_top_priority_shifts_first(
    b0: BoardModel,
    k1: Seq<char>,
    r1: Result<(), NotFoundInIndex>,
    b1: BoardModel,
    k2: Seq<char>,
    r2: Result<(), NotFoundInIndex>,
    b2: BoardModel,
)
    requires
        columns_consistent(b0),
        b0.tasks.contains_key(k1),
        b0.tasks.contains_key(k2),
        k1 != k2,
        b0.tasks[k1].column == b0.tasks[k2].column,
        top_post(b0, k1, r1, b1),
        top_post(b1, k2, r2, b2),
    ensures
        shown(b2.column_list(label_of(b0.tasks[k1].column)), None, b2.tasks)[0] == k2,
        shown(b2.column_list(label_of(b0.tasks[k1].column)), None, b2.tasks)[1] == k1,
{
    let c = b0.tasks[k1].column;
    let label = label_of(c);
    top_priority_puts_first(b0, k1, r1, b1);
    column_shows_its_tasks(b1, c);
    assert(b1.column_list(label)[0] == k1);
    assert(b1.column_list(label).contains(k2));
    lemma_move_to_front(b1.column_list(label), k2);
    top_priority_puts_first(b1, k2, r2, b2);
    column_shows_its_tasks(b2, c);
}

/// The board that `removals` leaves, with the store order and tags of `pre`.
pub open spec fn after_removals(pre: BoardModel, keys: Seq<Seq<char>>) -> BoardModel {
    let res = removals(pre.tasks, pre.columns, keys);
    BoardModel { tasks: res.0, order: pre.order, columns: res.1, tags: pre.tags }
}

/// Removing the `Done` tasks of the first `j` listed keys, one by one,
/// succeeds on a consistent board whose tasks are named by their keys, and
/// keeps the column index consistent.
pub proof fn lemma_clear_prefix(pre: BoardModel, j: int)
    requires
        columns_consistent(pre),
        named_by_key(pre),
        pre.order.no_duplicates(),
        pre.order.to_set() == pre.tasks.dom(),
        0 <= j <= pre.order.len(),
    ensures
        ({
            let models = pre.order.map_values(|k: Seq<char>| pre.tasks[k]);
            let keys = done_names(models.take(j));
            let m = after_removals(pre, keys);
            &&& removals(pre.tasks, pre.columns, keys).2
            &&& columns_consistent(m)
            &&& m.tasks == Map::new(
                |k: Seq<char>|
                    pre.tasks.contains_key(k) && !(pre.tasks[k].column == Column::Done
                        && pre.order.take(j).contains(k)),
                |k: Seq<char>| pre.tasks[k],
            )
        }),
    decreases j,
{
    let models = pre.order.map_values(|k: Seq<char>| pre.tasks[k]);
    if j == 0 {
        assert(models.take(0) =~= Seq::<TaskModel>::empty());
        let m = after_removals(pre, done_names(models.take(0)));
        assert(m.tasks =~= Map::new(
            |k: Seq<char>|
                pre.tasks.contains_key(k) && !(pre.tasks[k].column == Column::Done
                    && pre.order.take(0).contains(k)),
            |k: Seq<char>| pre.tasks[k],
        ));
    } else {
        lemma_clear_prefix(pre, j - 1);
        let k = pre.order[j - 1];
        assert(pre.order.to_set().contains(k));
        let t = pre.tasks[k];
        assert(models.take(j).drop_last() =~= models.take(j - 1));
        assert(models.take(j).last() == t);
        assert(pre.order.take(j) =~= pre.order.take(j - 1).push(k));
        lemma_push_contains(pre.order.take(j - 1), k);
        assert(!pre.order.take(j - 1).contains(k)) by {
            if pre.order.take(j - 1).contains(k) {
                let i = choose|i: int| 0 <= i < j - 1 && #[trigger] pre.order.take(j - 1)[i] == k;
                assert(pre.order[i] == pre.order[j - 1]);
            }
        }
        let prev_keys = done_names(models.take(j - 1));
        let m0 = after_removals(pre, prev_keys);
        if t.column == Column::Done {
            assert(t.name == k);
            let keys = done_names(models.take(j));
            assert(keys == prev_keys.push(k));
            assert(keys.drop_last() =~= prev_keys);
            let done = label_of(Column::Done);
            assert(m0.tasks.contains_key(k));
            assert(m0.column_list(done).contains(k));
            assert(m0.column_list(done).no_duplicates());
            lemma_remove_first(m0.column_list(done), k);
            let m = after_removals(pre, keys);
            assert(m.tasks =~= m0.tasks.remove(k));
            assert(m.tasks =~= Map::new(
                |x: Seq<char>|
                    pre.tasks.contains_key(x) && !(pre.tasks[x].column == Column::Done
                        && pre.order.take(j).contains(x)),
                |x: Seq<char>| pre.tasks[x],
            ));
            assert forall|c: Column| #[trigger] m.column_list(label_of(c)).no_duplicates() by {
                if c != Column::Done {
                    crate::board::lemma_labels_distinct(c, Column::Done);
                    assert(m.column_list(label_of(c)) == m0.column_list(label_of(c)));
                    assert(m0.column_list(label_of(c)).no_duplicates());
                }
            }
            assert forall|c: Column, x: Seq<char>| #[trigger] m.column_list(label_of(c)).contains(x)
                <==> (m.tasks.contains_key(x) && m.tasks[x].column == c) by {
                if c != Column::Done {
                    crate::board::lemma_labels_distinct(c, Column::Done);
                    assert(m.column_list(label_of(c)) == m0.column_list(label_of(c)));
                }
            }
        } else {
            assert(done_names(models.take(j)) == prev_keys);
            assert(after_removals(pre, done_names(models.take(j))).tasks =~= Map::new(
                |x: Seq<char>|
                    pre.tasks.contains_key(x) && !(pre.tasks[x].column == Column::Done
                        && pre.order.take(j).contains(x)),
                |x: Seq<char>| pre.tasks[x],
            ));
        }
    }
}

/// On a board whose column index is consistent and whose tasks are named by
/// their keys, `clear_done` succeeds, leaves exactly the tasks not in `Done`,
/// and keeps the column index consistent.
pub proof fn clear_done_removes_done(pre: BoardModel, r: Result<(), NotFoundInIndex>, post: BoardModel)
    requires
        columns_consistent(pre),
        named_by_key(pre),
        clear_post(pre, r, post),
    ensures
        r is Ok,
        post.tasks == without_done(pre.tasks),
        columns_consistent(post),
{
    lemma_clear_prefix(pre, pre.order.len() as int);
    assert(pre.order.take(pre.order.len() as int) =~= pre.order);
    assert forall|k: Seq<char>| pre.tasks.contains_key(k) implies #[trigger] pre.order.contains(k) by {
        assert(pre.order.to_set().contains(k));
    }
    let models = pre.order.map_values(|k: Seq<char>| pre.tasks[k]);
    assert(models.take(pre.order.len() as int) =~= models);
    assert(post.tasks =~= without_done(pre.tasks));
    let m = after_removals(pre, done_names(models));
    assert forall|c: Column| #[trigger] post.column_list(label_of(c)).no_duplicates() by {
        assert(post.column_list(label_of(c)) == m.column_list(label_of(c)));
    }
    assert forall|c: Column, x: Seq<char>| #[trigger] post.column_list(label_of(c)).contains(x) <==> (
    post.tasks.contains_key(x) && post.tasks[x].column == c) by {
        assert(post.column_list(label_of(c)) == m.column_list(label_of(c)));
    }
}

} // verus!
