//! The board coordinator: the operations on tasks, and how each keeps the
//! column index and the tag index in step with the record store.

use vstd::prelude::*;
use crate::index::{
    add_member, kept, lemma_add_member, lemma_add_member_twice, lemma_first_pos, lemma_push_contains,
    list_of, move_to_front, remove_first,
};
use crate::store::Store;
use crate::task::{label_of, opt_views, tags_of, Column, Task, TaskModel};
use crate::text::{copy_list, copy_opt, position_of, views};

verus! {

/// A key was expected in an index list and is not there: the indices have
/// drifted from the record store.
pub struct NotFoundInIndex {
    /// The key that was looked for.
    pub key: String,
    /// The label of the list it was looked for in.
    pub index: String,
}

/// The task that `create_task` makes.
pub open spec fn new_task_model(key: Seq<char>, tag: Option<Seq<char>>) -> TaskModel {
    TaskModel {
        name: key,
        column: Column::Todo,
        description: None,
        tags: match tag {
            Some(g) => Some(seq![g]),
            None => None,
        },
    }
}

/// Whether `k` passes an optional tag filter.
pub open spec fn passes(members: Option<Seq<Seq<char>>>, k: Seq<char>) -> bool {
    match members {
        Some(m) => m.contains(k),
        None => true,
    }
}

/// The keys of `list`, in order, that pass the tag filter and are in the store.
pub open spec fn shown(
    list: Seq<Seq<char>>,
    members: Option<Seq<Seq<char>>>,
    tasks: Map<Seq<char>, TaskModel>,
) -> Seq<Seq<char>>
    decreases list.len(),
{
    if list.len() == 0 {
        Seq::empty()
    } else {
        let prev = shown(list.drop_last(), members, tasks);
        let k = list.last();
        if passes(members, k) && tasks.contains_key(k) {
            prev.push(k)
        } else {
            prev
        }
    }
}

/// The names of the tasks in column `c`, taken in the order `order` lists their keys.
pub open spec fn names_in(order: Seq<Seq<char>>, tasks: Map<Seq<char>, TaskModel>, c: Column) -> Seq<
    Seq<char>,
>
    decreases order.len(),
{
    if order.len() == 0 {
        Seq::empty()
    } else {
        let prev = names_in(order.drop_last(), tasks, c);
        let t = tasks[order.last()];
        if t.column == c {
            prev.push(t.name)
        } else {
            prev
        }
    }
}

/// A tag list after an update whose old and new tags are `ot` and `nt`.
pub open spec fn retag(
    list: Seq<Seq<char>>,
    g: Seq<char>,
    ot: Seq<Seq<char>>,
    nt: Seq<Seq<char>>,
    k: Seq<char>,
) -> Seq<Seq<char>> {
    if nt.contains(g) && !ot.contains(g) {
        add_member(list, k)
    } else if ot.contains(g) && !nt.contains(g) {
        remove_first(list, k)
    } else {
        list
    }
}

/// A column list after `k` moves from column `from` to column `to`.
pub open spec fn moved(
    list: Seq<Seq<char>>,
    label: Seq<char>,
    from: Column,
    to: Column,
    k: Seq<char>,
) -> Seq<Seq<char>> {
    if from == to {
        list
    } else if label == label_of(from) {
        remove_first(list, k)
    } else if label == label_of(to) {
        list.push(k)
    } else {
        list
    }
}

/// The state of a board: the task records with the order the store lists
/// them in, and the two indices.
pub struct BoardModel {
    pub tasks: Map<Seq<char>, TaskModel>,
    pub order: Seq<Seq<char>>,
    pub columns: Map<Seq<char>, Seq<Seq<char>>>,
    pub tags: Map<Seq<char>, Seq<Seq<char>>>,
}

impl BoardModel {
    /// The key list of the column index under `label` (empty when absent).
    pub open spec fn column_list(self, label: Seq<char>) -> Seq<Seq<char>> {
        list_of(self.columns, label)
    }

    /// The key list of the tag index under `tag` (empty when absent).
    pub open spec fn tag_list(self, tag: Seq<char>) -> Seq<Seq<char>> {
        list_of(self.tags, tag)
    }
}

/// The operations on a board, and what each does to the record store and the
/// two indices.
pub trait BoardAccess: Sized {
    /// The records and indices the board holds.
    spec fn model(&self) -> BoardModel;

    /// Every task record, in the store's order.
    fn get_all_tasks(&self) -> (r: Vec<Task>)
        ensures
            self.model().order.no_duplicates(),
            self.model().order.to_set() == self.model().tasks.dom(),
            r.deep_view() == self.model().order.map_values(|k: Seq<char>| self.model().tasks[k]),
    ;

    /// The tasks listed under column label `col`, in the column's order, kept
    /// only when listed under `tag` (if given), skipping keys with no record.
    fn get_column(&self, col: &str, tag: Option<String>) -> (r: Vec<Task>)
        ensures
            r.deep_view() == shown(self.model().column_list(col@), tag_members(self.model(), tag), self.model().tasks).map_values(
                |k: Seq<char>| self.model().tasks[k],
            ),
    ;

    /// Creates a task in `Todo`, at the end of that column, tagged with `tag` if given.
    fn create_task(&mut self, key: &str, tag: Option<String>)
        ensures
            create_post(old(self).model(), key@, opt_tag(tag), final(self).model()),
    ;

    /// The task stored under `key`, if any.
    fn get(&self, key: &str) -> (r: Option<Task>)
        ensures
            match r {
                Some(t) => self.model().tasks.contains_key(key@) && t.deep_view() == self.model().tasks[key@],
                None => !self.model().tasks.contains_key(key@),
            },
    ;

    /// Replaces the task under `key`, re-tagging it and moving it to the end
    /// of its new column when the column changes; nothing happens when no task
    /// is stored under `key`.
    fn update(&mut self, key: &str, task: Task) -> (r: Result<(), NotFoundInIndex>)
        ensures
            update_post(old(self).model(), key@, task.deep_view(), r, final(self).model()),
    ;

    /// Removes the task under `key` from its column and from the store.
    fn remove(&mut self, key: &str) -> (r: Result<(), NotFoundInIndex>)
        ensures
            remove_post(old(self).model(), key@, r, final(self).model()),
    ;

    /// Rebuilds the three column lists from the record store; returns the
    /// number of tasks.
    fn reindex_columns(&mut self) -> (r: Result<usize, ()>)
        ensures
            reindex_post(old(self).model(), r, final(self).model()),
    ;

    /// Moves `key` to the front of its column.
    fn top_priority(&mut self, key: &str) -> (r: Result<(), NotFoundInIndex>)
        ensures
            top_post(old(self).model(), key@, r, final(self).model()),
    ;
}

/// The view of an optional tag.
pub open spec fn opt_tag(tag: Option<String>) -> Option<Seq<char>> {
    match tag {
        Some(g) => Some(g@),
        None => None,
    }
}

/// The tag filter that `get_column` applies.
pub open spec fn tag_members(b: BoardModel, tag: Option<String>) -> Option<Seq<Seq<char>>> {
    match tag {
        Some(g) => Some(b.tag_list(g@)),
        None => None,
    }
}

/// What `create_task(key, tag)` does.
pub open spec fn create_post(
    pre: BoardModel,
    key: Seq<char>,
    tag: Option<Seq<char>>,
    post: BoardModel,
) -> bool {
    &&& post.tasks == pre.tasks.insert(key, new_task_model(key, tag))
    &&& post.columns == pre.columns.insert(
        label_of(Column::Todo),
        pre.column_list(label_of(Column::Todo)).push(key),
    )
    &&& match tag {
        Some(g) => post.tags.dom() == pre.tags.dom().insert(g),
        None => post.tags == pre.tags,
    }
    &&& forall|l: Seq<char>| #[trigger]
        post.column_list(l) == if l == label_of(Column::Todo) {
            pre.column_list(l).push(key)
        } else {
            pre.column_list(l)
        }
    &&& forall|g: Seq<char>| #[trigger]
        post.tag_list(g) == if tag == Some(g) {
            add_member(pre.tag_list(g), key)
        } else {
            pre.tag_list(g)
        }
}

/// An update of `key` fails on a tag it drops whose list lacks the key.
pub open spec fn tag_drift(pre: BoardModel, key: Seq<char>, t: TaskModel) -> bool {
    exists|g: Seq<char>|
        tags_of(pre.tasks[key]).contains(g) && !tags_of(t).contains(g) && !(#[trigger] pre.tag_list(
            g,
        ).contains(key))
}

/// An update of `key` fails on a column move whose old list lacks the key.
pub open spec fn column_drift(pre: BoardModel, key: Seq<char>, t: TaskModel) -> bool {
    let c = pre.tasks[key].column;
    c != t.column && !pre.column_list(label_of(c)).contains(key)
}

/// What `update(key, t)` does.
pub open spec fn update_post(
    pre: BoardModel,
    key: Seq<char>,
    t: TaskModel,
    r: Result<(), NotFoundInIndex>,
    post: BoardModel,
) -> bool {
    if !pre.tasks.contains_key(key) {
        r is Ok && post == pre
    } else {
        let old_task = pre.tasks[key];
        &&& r is Err <==> (tag_drift(pre, key, t) || column_drift(pre, key, t))
        &&& r matches Err(e) ==> e.key@ == key && post == pre
        &&& r is Ok ==> {
            &&& post.tasks == pre.tasks.insert(key, t)
            &&& post.columns == if old_task.column == t.column {
                pre.columns
            } else {
                pre.columns.insert(
                    label_of(old_task.column),
                    remove_first(pre.column_list(label_of(old_task.column)), key),
                ).insert(label_of(t.column), pre.column_list(label_of(t.column)).push(key))
            }
            &&& post.tags.dom() == pre.tags.dom().union(
                Set::new(|g: Seq<char>| tags_of(t).contains(g) != tags_of(old_task).contains(g)),
            )
            &&& forall|g: Seq<char>| #[trigger]
                post.tag_list(g) == retag(
                    pre.tag_list(g),
                    g,
                    tags_of(old_task),
                    tags_of(t),
                    key,
                )
            &&& forall|l: Seq<char>| #[trigger]
                post.column_list(l) == moved(
                    pre.column_list(l),
                    l,
                    old_task.column,
                    t.column,
                    key,
                )
        }
    }
}

/// What `remove(key)` does.
pub open spec fn remove_post(
    pre: BoardModel,
    key: Seq<char>,
    r: Result<(), NotFoundInIndex>,
    post: BoardModel,
) -> bool {
    if !pre.tasks.contains_key(key) {
        r is Ok && post == pre
    } else {
        let label = label_of(pre.tasks[key].column);
        &&& r is Err <==> !pre.column_list(label).contains(key)
        &&& r matches Err(e) ==> e.key@ == key && post == pre
        &&& r is Ok ==> {
            &&& post.tasks == pre.tasks.remove(key)
            &&& post.columns == pre.columns.insert(label, remove_first(pre.column_list(label), key))
            &&& post.tags == pre.tags
            &&& forall|l: Seq<char>| #[trigger]
                post.column_list(l) == if l == label {
                    remove_first(pre.column_list(l), key)
                } else {
                    pre.column_list(l)
                }
            &&& forall|g: Seq<char>| #[trigger] post.tag_list(g) == pre.tag_list(g)
        }
    }
}

/// What `top_priority(key)` does.
pub open spec fn top_post(
    pre: BoardModel,
    key: Seq<char>,
    r: Result<(), NotFoundInIndex>,
    post: BoardModel,
) -> bool {
    if !pre.tasks.contains_key(key) {
        r is Ok && post == pre
    } else {
        let label = label_of(pre.tasks[key].column);
        &&& r is Err <==> !pre.column_list(label).contains(key)
        &&& r matches Err(e) ==> e.key@ == key && post == pre
        &&& r is Ok ==> {
            &&& post.tasks == pre.tasks
            &&& post.order == pre.order
            &&& post.columns == pre.columns.insert(label, move_to_front(pre.column_list(label), key))
            &&& post.tags == pre.tags
            &&& forall|l: Seq<char>| #[trigger]
                post.column_list(l) == if l == label {
                    move_to_front(pre.column_list(l), key)
                } else {
                    pre.column_list(l)
                }
            &&& forall|g: Seq<char>| #[trigger] post.tag_list(g) == pre.tag_list(g)
        }
    }
}

/// One of the three column labels.
pub open spec fn is_column_label(l: Seq<char>) -> bool {
    l == label_of(Column::Todo) || l == label_of(Column::Doing) || l == label_of(Column::Done)
}

/// What `reindex_columns()` does.
pub open spec fn reindex_post(pre: BoardModel, r: Result<usize, ()>, post: BoardModel) -> bool {
    &&& pre.order.no_duplicates()
    &&& pre.order.to_set() == pre.tasks.dom()
    &&& r matches Ok(n) && n == pre.order.len()
    &&& post.tasks == pre.tasks
    &&& post.order == pre.order
    &&& post.columns.dom() == pre.columns.dom().insert(label_of(Column::Todo)).insert(
        label_of(Column::Doing),
    ).insert(label_of(Column::Done))
    &&& post.tags == pre.tags
    &&& forall|c: Column| #[trigger]
        post.column_list(label_of(c)) == names_in(pre.order, pre.tasks, c)
    &&& forall|l: Seq<char>| !is_column_label(l) ==> #[trigger] post.column_list(l) == pre.column_list(l)
    &&& forall|g: Seq<char>| #[trigger] post.tag_list(g) == pre.tag_list(g)
}

/// The tags of an optional tag list, absent read as none.
pub open spec fn tag_seq(o: Option<Vec<String>>) -> Seq<Seq<char>> {
    match o {
        Some(g) => views(g@),
        None => Seq::empty(),
    }
}

/// The labels of the three columns differ.
pub proof fn lemma_labels_distinct(a: Column, b: Column)
    requires
        a != b,
    ensures
        label_of(a) != label_of(b),
{
    let (x, y) = (label_of(a), label_of(b));
    if x.len() == y.len() {
        assert(x[0] != y[0] || x[2] != y[2]);
    }
}

/// The list stored under `label`, or an empty list.
fn get_list<C: Store<Vec<String>>>(store: &C, label: &str) -> (r: Vec<String>)
    ensures
        views(r@) == list_of(store.contents(), label@),
{
    match store.get(label) {
        Some(v) => {
            assert(v.deep_view() =~= views(v@));
            v
        },
        None => {
            let r: Vec<String> = Vec::new();
            assert(views(r@) =~= Seq::<Seq<char>>::empty());
            r
        },
    }
}

/// Stores `list` under `label`.
fn put_list<C: Store<Vec<String>>>(store: &mut C, label: &str, list: Vec<String>)
    ensures
        final(store).contents() == old(store).contents().insert(label@, views(list@)),
{
    assert(list.deep_view() =~= views(list@));
    store.set(label, list);
}

/// The strings of `from` that are not in `other`, each once.
fn missing_from(from: &Vec<String>, other: &Vec<String>) -> (r: Vec<String>)
    ensures
        views(r@) == kept(views(from@), views(other@)),
        views(r@).no_duplicates(),
        forall|g: Seq<char>| #[trigger]
            views(r@).contains(g) <==> (views(from@).contains(g) && !views(other@).contains(g)),
{
    let mut r: Vec<String> = Vec::new();
    let mut i: usize = 0;
    while i < from.len()
        invariant
            0 <= i <= from@.len(),
            views(r@) == kept(views(from@).take(i as int), views(other@)),
            views(r@).no_duplicates(),
            forall|g: Seq<char>| #[trigger]
                views(r@).contains(g) <==> (views(from@).take(i as int).contains(g) && !views(
                    other@,
                ).contains(g)),
        decreases from@.len() - i,
    {
        let g = &from[i];
        let ghost before = views(r@);
        assert(views(from@).take(i + 1) =~= views(from@).take(i as int).push(g@));
        assert(views(from@).take(i + 1).drop_last() =~= views(from@).take(i as int));
        proof {
            lemma_push_contains(views(from@).take(i as int), g@);
        }
        if position_of(g.as_str(), other).is_none() && position_of(g.as_str(), &r).is_none() {
            r.push(g.clone());
            assert(views(r@) =~= before.push(g@));
            proof {
                lemma_add_member(before, g@);
            }
        }
        i = i + 1;
    }
    assert(views(from@).take(from@.len() as int) =~= views(from@));
    r
}

/// A board over a record store, a column index and a tag index.
pub struct Board<S: Store<Task>, C: Store<Vec<String>>> {
    store: S,
    column_store: C,
    tag_store: C,
}

impl<S: Store<Task>, C: Store<Vec<String>>> Board<S, C> {
    /// A board over the given stores.
    pub fn new(store: S, column_store: C, tag_store: C) -> (r: Self)
        ensures
            r.model() == (BoardModel {
                tasks: store.contents(),
                order: store.order(),
                columns: column_store.contents(),
                tags: tag_store.contents(),
            }),
    {
        Board { store, column_store, tag_store }
    }

    /// The record store.
    pub fn store(&self) -> (r: &S)
        ensures
            r.contents() == self.model().tasks,
            r.order() == self.model().order,
    {
        &self.store
    }

    /// The column index.
    pub fn column_store(&self) -> (r: &C)
        ensures
            r.contents() == self.model().columns,
    {
        &self.column_store
    }

    /// The tag index.
    pub fn tag_store(&self) -> (r: &C)
        ensures
            r.contents() == self.model().tags,
    {
        &self.tag_store
    }

    /// The list of column label `label`, or an empty list.
    fn get_column_list(&self, label: &str) -> (r: Vec<String>)
        ensures
            views(r@) == self.model().column_list(label@),
    {
        get_list(&self.column_store, label)
    }

    /// The tags to add and to remove when a task's tags go from `old_tags` to
    /// `new_tags` (absent read as none), each listed once.
    fn get_tag_diff(&self, old_tags: &Option<Vec<String>>, new_tags: &Option<Vec<String>>) -> (r: (
        Vec<String>,
        Vec<String>,
    ))
        ensures
            views(r.0@) == kept(tag_seq(*new_tags), tag_seq(*old_tags)),
            views(r.1@) == kept(tag_seq(*old_tags), tag_seq(*new_tags)),
            views(r.0@).no_duplicates(),
            views(r.1@).no_duplicates(),
            forall|g: Seq<char>| #[trigger]
                views(r.0@).contains(g) <==> (tag_seq(*new_tags).contains(g) && !tag_seq(
                    *old_tags,
                ).contains(g)),
            forall|g: Seq<char>| #[trigger]
                views(r.1@).contains(g) <==> (tag_seq(*old_tags).contains(g) && !tag_seq(
                    *new_tags,
                ).contains(g)),
    {
        let ot = match old_tags {
            Some(g) => copy_list(g),
            None => empty_list(),
        };
        let nt = match new_tags {
            Some(g) => copy_list(g),
            None => empty_list(),
        };
        (missing_from(&nt, &ot), missing_from(&ot, &nt))
    }

    /// Appends `key` to the list of `column`.
    fn add_to_column(&mut self, key: &str, column: Column)
        ensures
            final(self).store == old(self).store,
            final(self).tag_store == old(self).tag_store,
            final(self).column_store.contents() == old(self).column_store.contents().insert(
                label_of(column),
                old(self).model().column_list(label_of(column)).push(key@),
            ),
    {
        let label = column.label();
        let mut list = self.get_column_list(label.as_str());
        let ghost before = views(list@);
        list.push(key.to_owned());
        assert(views(list@) =~= before.push(key@));
        put_list(&mut self.column_store, label.as_str(), list);
    }

    /// Removes the first occurrence of `key` from the list of `column`.
    fn remove_from_column(&mut self, key: &str, column: Column)
        requires
            old(self).model().column_list(label_of(column)).contains(key@),
        ensures
            final(self).store == old(self).store,
            final(self).tag_store == old(self).tag_store,
            final(self).column_store.contents() == old(self).column_store.contents().insert(
                label_of(column),
                remove_first(old(self).model().column_list(label_of(column)), key@),
            ),
    {
        let label = column.label();
        let mut list = self.get_column_list(label.as_str());
        let ghost before = views(list@);
        if let Some(i) = position_of(key, &list) {
            proof {
                lemma_first_pos(before, key@, i as int);
            }
            list.remove(i);
            assert(views(list@) =~= before.remove(i as int));
        }
        put_list(&mut self.column_store, label.as_str(), list);
    }

    /// The task that `create_task` stores.
    fn get_new_task(&self, key: &str, tag: Option<String>) -> (r: Task)
        ensures
            r.deep_view() == new_task_model(key@, opt_tag(tag)),
    {
        let tags = match tag {
            None => None,
            Some(t) => {
                let v = vec![t];
                assert(views(v@) =~= seq![v@[0]@]);
                Some(v)
            },
        };
        Task { name: key.to_owned(), column: Column::Todo, description: None, tags }
    }

    /// Adds `key` to the list of each tag in `tags`.
    fn index_tags(&mut self, tags: Vec<String>, key: &str)
        ensures
            final(self).tag_store.contents().dom() == old(self).tag_store.contents().dom().union(
                Set::new(|g: Seq<char>| views(tags@).contains(g)),
            ),
            final(self).store == old(self).store,
            final(self).column_store == old(self).column_store,
            forall|g: Seq<char>| #[trigger]
                final(self).model().tag_list(g) == if views(tags@).contains(g) {
                    add_member(old(self).model().tag_list(g), key@)
                } else {
                    old(self).model().tag_list(g)
                },
    {
        let mut i: usize = 0;
        while i < tags.len()
            invariant
                self.tag_store.contents().dom() == old(self).tag_store.contents().dom().union(
                    Set::new(|g: Seq<char>| views(tags@).take(i as int).contains(g)),
                ),
                0 <= i <= tags@.len(),
                self.store == old(self).store,
                self.column_store == old(self).column_store,
                forall|g: Seq<char>| #[trigger]
                    self.model().tag_list(g) == if views(tags@).take(i as int).contains(g) {
                        add_member(old(self).model().tag_list(g), key@)
                    } else {
                        old(self).model().tag_list(g)
                    },
            decreases tags@.len() - i,
        {
            let tag = &tags[i];
            let ghost prev = self.model();
            let mut list = get_list(&self.tag_store, tag.as_str());
            let ghost before = views(list@);
            if position_of(key, &list).is_none() {
                list.push(key.to_owned());
                assert(views(list@) =~= before.push(key@));
            }
            assert(views(list@) == add_member(before, key@));
            put_list(&mut self.tag_store, tag.as_str(), list);
            assert(views(tags@).take(i + 1) =~= views(tags@).take(i as int).push(tag@));
            proof {
                lemma_push_contains(views(tags@).take(i as int), tag@);
                lemma_add_member_twice(old(self).model().tag_list(tag@), key@);
                assert(self.model().tag_list(tag@) == views(list@));
                assert forall|g: Seq<char>| g != tag@ implies #[trigger] self.model().tag_list(g)
                    == prev.tag_list(g) by {}
                assert forall|g: Seq<char>| #[trigger]
                    self.model().tag_list(g) == if views(tags@).take(i + 1).contains(g) {
                        add_member(old(self).model().tag_list(g), key@)
                    } else {
                        old(self).model().tag_list(g)
                    } by {
                    if g == tag@ {
                        assert(views(tags@).take(i + 1).contains(g));
                        assert(before == prev.tag_list(g));
                    } else {
                        assert(views(tags@).take(i + 1).contains(g) == views(tags@).take(
                            i as int,
                        ).contains(g));
                    }
                }
            }
            i = i + 1;
        }
        assert(views(tags@).take(tags@.len() as int) =~= views(tags@));
        assert(self.tag_store.contents().dom() =~= old(self).tag_store.contents().dom().union(
            Set::new(|g: Seq<char>| views(tags@).contains(g)),
        ));
    }

    /// Removes `key` from the list of each tag in `tags`.
    fn rm_tag_index(&mut self, tags: Vec<String>, key: &str)
        requires
            views(tags@).no_duplicates(),
            forall|g: Seq<char>| #[trigger]
                views(tags@).contains(g) ==> old(self).model().tag_list(g).contains(key@),
        ensures
            final(self).tag_store.contents().dom() == old(self).tag_store.contents().dom().union(
                Set::new(|g: Seq<char>| views(tags@).contains(g)),
            ),
            final(self).store == old(self).store,
            final(self).column_store == old(self).column_store,
            forall|g: Seq<char>| #[trigger]
                final(self).model().tag_list(g) == if views(tags@).contains(g) {
                    remove_first(old(self).model().tag_list(g), key@)
                } else {
                    old(self).model().tag_list(g)
                },
    {
        let mut i: usize = 0;
        while i < tags.len()
            invariant
                self.tag_store.contents().dom() == old(self).tag_store.contents().dom().union(
                    Set::new(|g: Seq<char>| views(tags@).take(i as int).contains(g)),
                ),
                0 <= i <= tags@.len(),
                views(tags@).no_duplicates(),
                forall|g: Seq<char>| #[trigger]
                    views(tags@).contains(g) ==> old(self).model().tag_list(g).contains(key@),
                self.store == old(self).store,
                self.column_store == old(self).column_store,
                forall|g: Seq<char>| #[trigger]
                    self.model().tag_list(g) == if views(tags@).take(i as int).contains(g) {
                        remove_first(old(self).model().tag_list(g), key@)
                    } else {
                        old(self).model().tag_list(g)
                    },
            decreases tags@.len() - i,
        {
            let tag = &tags[i];
            proof {
                assert(views(tags@)[i as int] == tag@);
                assert(views(tags@).contains(tag@));
                if views(tags@).take(i as int).contains(tag@) {
                    let j = choose|j: int| 0 <= j < i && views(tags@).take(i as int)[j] == tag@;
                    assert(views(tags@)[j] == views(tags@)[i as int]);
                }
            }
            let ghost prev = self.model();
            let mut list = get_list(&self.tag_store, tag.as_str());
            let ghost before = views(list@);
            if let Some(p) = position_of(key, &list) {
                proof {
                    lemma_first_pos(before, key@, p as int);
                }
                list.remove(p);
                assert(views(list@) =~= before.remove(p as int));
            }
            put_list(&mut self.tag_store, tag.as_str(), list);
            assert(views(tags@).take(i + 1) =~= views(tags@).take(i as int).push(tag@));
            proof {
                lemma_push_contains(views(tags@).take(i as int), tag@);
                assert forall|g: Seq<char>| #[trigger]
                    self.model().tag_list(g) == if views(tags@).take(i + 1).contains(g) {
                        remove_first(old(self).model().tag_list(g), key@)
                    } else {
                        old(self).model().tag_list(g)
                    } by {
                    if g == tag@ {
                        assert(views(tags@).take(i + 1).contains(g));
                        assert(before == prev.tag_list(g));
                        assert(before == old(self).model().tag_list(g));
                    } else {
                        assert(self.model().tag_list(g) == prev.tag_list(g));
                        assert(views(tags@).take(i + 1).contains(g) == views(tags@).take(
                            i as int,
                        ).contains(g));
                    }
                }
            }
            i = i + 1;
        }
        assert(views(tags@).take(tags@.len() as int) =~= views(tags@));
        assert(self.tag_store.contents().dom() =~= old(self).tag_store.contents().dom().union(
            Set::new(|g: Seq<char>| views(tags@).contains(g)),
        ));
    }
}

impl<S: Store<Task>, C: Store<Vec<String>>> BoardAccess for Board<S, C> {
    closed spec fn model(&self) -> BoardModel {
        BoardModel {
            tasks: self.store.contents(),
            order: self.store.order(),
            columns: self.column_store.contents(),
            tags: self.tag_store.contents(),
        }
    }

    fn get_all_tasks(&self) -> (r: Vec<Task>) {
        self.store.get_all()
    }

    fn get_column(&self, col: &str, tag: Option<String>) -> (r: Vec<Task>) {
        let list = self.get_column_list(col);
        let members: Option<Vec<String>> = match &tag {
            Some(g) => Some(get_list(&self.tag_store, g.as_str())),
            None => None,
        };
        let ghost tasks = self.model().tasks;
        let ghost filter = tag_members(self.model(), tag);
        assert(filter == opt_views(members));
        let mut r: Vec<Task> = Vec::new();
        let mut i: usize = 0;
        while i < list.len()
            invariant
                0 <= i <= list@.len(),
                tasks == self.model().tasks,
                filter == opt_views(members),
                r.deep_view() == shown(views(list@).take(i as int), filter, tasks).map_values(
                    |k: Seq<char>| tasks[k],
                ),
            decreases list@.len() - i,
        {
            let key = &list[i];
            let ghost before = shown(views(list@).take(i as int), filter, tasks);
            assert(views(list@).take(i + 1).drop_last() =~= views(list@).take(i as int));
            assert(views(list@).take(i + 1).last() == key@);
            let pass = match &members {
                Some(m) => position_of(key.as_str(), m).is_some(),
                None => true,
            };
            if pass {
                match self.store.get(key.as_str()) {
                    Some(t) => {
                        let ghost prev = r.deep_view();
                        r.push(t);
                        assert(r.deep_view() =~= prev.push(tasks[key@]));
                        assert(before.push(key@).map_values(|k: Seq<char>| tasks[k]) =~= before.map_values(
                            |k: Seq<char>| tasks[k],
                        ).push(tasks[key@]));
                    },
                    None => {},
                }
            }
            i = i + 1;
        }
        assert(views(list@).take(list@.len() as int) =~= views(list@));
        r
    }

    fn create_task(&mut self, key: &str, tag: Option<String>) {
        let task = self.get_new_task(key, copy_opt(&tag));
        self.store.set(key, task);
        self.add_to_column(key, Column::Todo);
        let ghost tag_v = opt_tag(tag);
        let ghost mid = self.model();
        if let Some(g) = tag {
            let tags = vec![g];
            assert(views(tags@) =~= seq![tags@[0]@]);
            proof {
                lemma_push_contains(Seq::<Seq<char>>::empty(), tags@[0]@);
                assert(seq![tags@[0]@] =~= Seq::<Seq<char>>::empty().push(tags@[0]@));
            }
            let ghost gv = tags@[0]@;
            let ghost tset = Set::new(|x: Seq<char>| views(tags@).contains(x));
            assert(tset =~= Set::empty().insert(gv));
            self.index_tags(tags, key);
            assert(self.model().tags.dom() =~= mid.tags.dom().insert(gv));
        }
        proof {
            let (pre, post) = (old(self).model(), self.model());
            assert forall|g: Seq<char>| #[trigger]
                post.tag_list(g) == if tag_v == Some(g) {
                    add_member(pre.tag_list(g), key@)
                } else {
                    pre.tag_list(g)
                } by {
                assert(mid.tag_list(g) == pre.tag_list(g));
            }
            assert forall|l: Seq<char>| #[trigger]
                post.column_list(l) == if l == label_of(Column::Todo) {
                    pre.column_list(l).push(key@)
                } else {
                    pre.column_list(l)
                } by {}
        }
    }

    fn get(&self, key: &str) -> (r: Option<Task>) {
        self.store.get(key)
    }

    fn update(&mut self, key: &str, task: Task) -> (r: Result<(), NotFoundInIndex>) {
        let old_task = match self.store.get(key) {
            Some(t) => t,
            None => {
                return Ok(());
            },
        };
        let ghost pre = self.model();
        let ghost tm = task.deep_view();
        assert(tag_seq(old_task.tags) =~= tags_of(pre.tasks[key@]));
        assert(tag_seq(task.tags) =~= tags_of(tm));
        let (add_tags, rm_tags) = self.get_tag_diff(&old_task.tags, &task.tags);
        let mut i: usize = 0;
        while i < rm_tags.len()
            invariant
                0 <= i <= rm_tags@.len(),
                self.model() == pre,
                pre == old(self).model(),
                tm == task.deep_view(),
                pre.tasks.contains_key(key@),
                forall|j: int| 0 <= j < i ==> #[trigger] pre.tag_list(rm_tags@[j]@).contains(key@),
                forall|g: Seq<char>| #[trigger]
                    views(rm_tags@).contains(g) <==> (tags_of(pre.tasks[key@]).contains(g)
                        && !tags_of(tm).contains(g)),
            decreases rm_tags@.len() - i,
        {
            let list = get_list(&self.tag_store, rm_tags[i].as_str());
            if position_of(key, &list).is_none() {
                proof {
                    let g = rm_tags@[i as int]@;
                    assert(views(rm_tags@)[i as int] == g);
                    assert(views(rm_tags@).contains(g));
                    assert(!pre.tag_list(g).contains(key@));
                    assert(tags_of(pre.tasks[key@]).contains(g));
                    assert(!tags_of(tm).contains(g));
                    assert(tag_drift(pre, key@, tm));
                }
                return Err(NotFoundInIndex { key: key.to_owned(), index: rm_tags[i].clone() });
            }
            assert(pre.tag_list(rm_tags@[i as int]@).contains(key@));
            i = i + 1;
        }
        proof {
            assert forall|g: Seq<char>| #[trigger]
                views(rm_tags@).contains(g) implies pre.tag_list(g).contains(key@) by {
                let j = choose|j: int| 0 <= j < views(rm_tags@).len() && views(rm_tags@)[j] == g;
                assert(rm_tags@[j]@ == g);
            }
            assert forall|g: Seq<char>|
                !(tags_of(pre.tasks[key@]).contains(g) && !tags_of(tm).contains(g) && !(#[trigger] pre.tag_list(
                    g,
                ).contains(key@))) by {
                if tags_of(pre.tasks[key@]).contains(g) && !tags_of(tm).contains(g) {
                    assert(views(rm_tags@).contains(g));
                }
            }
            assert(!tag_drift(pre, key@, tm));
        }
        let moving = old_task.column != task.column;
        if moving {
            let label = old_task.column.label();
            let list = self.get_column_list(label.as_str());
            if position_of(key, &list).is_none() {
                return Err(NotFoundInIndex { key: key.to_owned(), index: label });
            }
        }
        let ghost add_v = views(add_tags@);
        let ghost rm_v = views(rm_tags@);
        self.index_tags(add_tags, key);
        let ghost mid = self.model();
        assert forall|g: Seq<char>| #[trigger]
            views(rm_tags@).contains(g) implies mid.tag_list(g).contains(key@) by {
            assert(!views(add_tags@).contains(g));
        }
        self.rm_tag_index(rm_tags, key);
        let ghost after_tags = self.model();
        if moving {
            proof {
                lemma_labels_distinct(old_task.column, task.column);
            }
            self.remove_from_column(key, old_task.column);
            self.add_to_column(key, task.column);
        }
        self.store.set(key, task);
        proof {
            let post = self.model();
            let ot = tags_of(pre.tasks[key@]);
            let nt = tags_of(tm);
            assert(post.tags.dom() =~= pre.tags.dom().union(
                Set::new(|g: Seq<char>| nt.contains(g) != ot.contains(g)),
            )) by {
                assert forall|g: Seq<char>| add_v.contains(g) || rm_v.contains(g) <==> (nt.contains(g)
                    != ot.contains(g)) by {
                    assert(add_v.contains(g) == views(add_tags@).contains(g));
                }
            }
            if pre.tasks[key@].column != tm.column {
                lemma_labels_distinct(pre.tasks[key@].column, tm.column);
                assert(post.columns =~= pre.columns.insert(
                    label_of(pre.tasks[key@].column),
                    remove_first(pre.column_list(label_of(pre.tasks[key@].column)), key@),
                ).insert(label_of(tm.column), pre.column_list(label_of(tm.column)).push(key@)));
            }
            assert forall|g: Seq<char>| #[trigger]
                post.tag_list(g) == retag(pre.tag_list(g), g, tags_of(pre.tasks[key@]), tags_of(tm), key@) by {
                assert(post.tag_list(g) == after_tags.tag_list(g));
                assert(after_tags.tag_list(g) == if rm_v.contains(g) {
                    remove_first(mid.tag_list(g), key@)
                } else {
                    mid.tag_list(g)
                });
                assert(mid.tag_list(g) == if add_v.contains(g) {
                    add_member(pre.tag_list(g), key@)
                } else {
                    pre.tag_list(g)
                });
            }
            assert forall|l: Seq<char>| #[trigger]
                post.column_list(l) == moved(pre.column_list(l), l, pre.tasks[key@].column, tm.column, key@) by {}
        }
        Ok(())
    }

    fn remove(&mut self, key: &str) -> (r: Result<(), NotFoundInIndex>) {
        match self.store.get(key) {
            Some(task) => {
                let label = task.column.label();
                let list = self.get_column_list(label.as_str());
                if position_of(key, &list).is_none() {
                    return Err(NotFoundInIndex { key: key.to_owned(), index: label });
                }
                self.remove_from_column(key, task.column);
                self.store.rm(key);
                proof {
                    let (pre, post) = (old(self).model(), self.model());
                    assert forall|l: Seq<char>| #[trigger]
                        post.column_list(l) == if l == label@ {
                            remove_first(pre.column_list(l), key@)
                        } else {
                            pre.column_list(l)
                        } by {}
                }
                Ok(())
            },
            None => Ok(()),
        }
    }

    fn reindex_columns(&mut self) -> (r: Result<usize, ()>) {
        let todo = Column::Todo.label();
        let doing = Column::Doing.label();
        let done = Column::Done.label();
        put_list(&mut self.column_store, todo.as_str(), empty_list());
        put_list(&mut self.column_store, doing.as_str(), empty_list());
        put_list(&mut self.column_store, done.as_str(), empty_list());
        let tasks = self.store.get_all();
        let ghost pre = old(self).model();
        let ghost labels = pre.columns.dom().insert(label_of(Column::Todo)).insert(
            label_of(Column::Doing),
        ).insert(label_of(Column::Done));
        assert(self.model().columns.dom() =~= labels);
        let ghost order = pre.order;
        let ghost models = order.map_values(|k: Seq<char>| pre.tasks[k]);
        proof {
            assert forall|c: Column| #[trigger]
                self.model().column_list(label_of(c)) == names_in(order.take(0), pre.tasks, c) by {}
        }
        let mut i: usize = 0;
        while i < tasks.len()
            invariant
                0 <= i <= tasks@.len(),
                tasks.deep_view() == models,
                models.len() == order.len(),
                forall|j: int| 0 <= j < order.len() ==> #[trigger] models[j] == pre.tasks[order[j]],
                self.store == old(self).store,
                self.tag_store == old(self).tag_store,
                self.model().columns.dom() == labels,
                labels == pre.columns.dom().insert(label_of(Column::Todo)).insert(
                    label_of(Column::Doing),
                ).insert(label_of(Column::Done)),
                forall|c: Column| #[trigger]
                    self.model().column_list(label_of(c)) == names_in(order.take(i as int), pre.tasks, c),
                forall|l: Seq<char>| !is_column_label(l) ==> #[trigger] self.model().column_list(l)
                    == pre.column_list(l),
            decreases tasks@.len() - i,
        {
            let t = &tasks[i];
            assert(t.deep_view() == models[i as int]);
            assert(order.take(i + 1).drop_last() =~= order.take(i as int));
            assert(order.take(i + 1).last() == order[i as int]);
            assert(pre.tasks[order[i as int]] == models[i as int]);
            proof {
                assert forall|c: Column| c != t.column implies #[trigger] label_of(c) != label_of(t.column) by {
                    lemma_labels_distinct(c, t.column);
                }
            }
            let ghost prev = self.model();
            assert(labels.contains(label_of(t.column)));
            self.add_to_column(t.name.as_str(), t.column);
            assert(self.model().columns.dom() =~= labels);
            proof {
                assert forall|c: Column| #[trigger]
                    self.model().column_list(label_of(c)) == names_in(order.take(i + 1), pre.tasks, c) by {
                    if c == t.column {
                        assert(self.model().column_list(label_of(c)) == prev.column_list(label_of(c)).push(t.name@));
                    } else {
                        lemma_labels_distinct(c, t.column);
                        assert(self.model().column_list(label_of(c)) == prev.column_list(label_of(c)));
                    }
                }
                assert forall|l: Seq<char>| !is_column_label(l) implies #[trigger] self.model().column_list(l)
                    == pre.column_list(l) by {
                    assert(l != label_of(t.column));
                    assert(self.model().column_list(l) == prev.column_list(l));
                }
            }
            i = i + 1;
        }
        assert(order.take(order.len() as int) =~= order);
        Ok(tasks.len())
    }

    fn top_priority(&mut self, key: &str) -> (r: Result<(), NotFoundInIndex>) {
        match self.store.get(key) {
            Some(task) => {
                let label = task.column.label();
                let mut list = self.get_column_list(label.as_str());
                let ghost before = views(list@);
                match position_of(key, &list) {
                    None => Err(NotFoundInIndex { key: key.to_owned(), index: label }),
                    Some(i) => {
                        proof {
                            lemma_first_pos(before, key@, i as int);
                        }
                        list.remove(i);
                        list.insert(0, key.to_owned());
                        assert(views(list@) =~= move_to_front(before, key@));
                        put_list(&mut self.column_store, label.as_str(), list);
                        proof {
                            let (pre, post) = (old(self).model(), self.model());
                            assert forall|l: Seq<char>| #[trigger]
                                post.column_list(l) == if l == label@ {
                                    move_to_front(pre.column_list(l), key@)
                                } else {
                                    pre.column_list(l)
                                } by {}
                        }
                        Ok(())
                    },
                }
            },
            None => Ok(()),
        }
    }
}

/// An empty list of strings.
fn empty_list() -> (r: Vec<String>)
    ensures
        views(r@) == Seq::<Seq<char>>::empty(),
{
    let r: Vec<String> = Vec::new();
    assert(views(r@) =~= Seq::<Seq<char>>::empty());
    r
}

} // verus!
