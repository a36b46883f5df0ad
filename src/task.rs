//! Tasks and the workflow columns they move through.

use vstd::prelude::*;
use crate::text::{copy_list, str_eq, views};

verus! {

/// The three workflow stages a task can occupy.
#[derive(Clone, Copy, Debug, PartialEq, Eq, Structural)]
pub enum Column {
    Todo,
    Doing,
    Done,
}

/// The label under which a column's key list is stored.
pub open spec fn label_of(c: Column) -> Seq<char> {
    match c {
        Column::Todo => seq!['t', 'o', 'd', 'o'],
        Column::Doing => seq!['d', 'o', 'i', 'n', 'g'],
        Column::Done => seq!['d', 'o', 'n', 'e'],
    }
}

impl Column {
    /// The lower-cased name of the column.
    pub fn label(&self) -> (r: String)
        ensures
            r@ == label_of(*self),
    {
        match self {
            Column::Todo => {
                proof {
                    reveal_strlit("todo");
                }
                "todo".to_owned()
            },
            Column::Doing => {
                proof {
                    reveal_strlit("doing");
                }
                "doing".to_owned()
            },
            Column::Done => {
                proof {
                    reveal_strlit("done");
                }
                "done".to_owned()
            },
        }
    }
}

/// A task record: its unique name, its column, an optional description
/// (a path to a file) and optional tags.
#[derive(Debug)]
pub struct Task {
    pub name: String,
    pub column: Column,
    pub description: Option<String>,
    pub tags: Option<Vec<String>>,
}

/// The mathematical value of a task.
pub struct TaskModel {
    pub name: Seq<char>,
    pub column: Column,
    pub description: Option<Seq<char>>,
    pub tags: Option<Seq<Seq<char>>>,
}

/// The view of an optional string.
pub open spec fn opt_view(o: Option<String>) -> Option<Seq<char>> {
    match o {
        Some(d) => Some(d@),
        None => None,
    }
}

/// The views of an optional list of strings.
pub open spec fn opt_views(o: Option<Vec<String>>) -> Option<Seq<Seq<char>>> {
    match o {
        Some(g) => Some(views(g@)),
        None => None,
    }
}

/// The tags of a task, with absent tags read as no tags.
pub open spec fn tags_of(t: TaskModel) -> Seq<Seq<char>> {
    match t.tags {
        Some(g) => g,
        None => Seq::empty(),
    }
}

impl DeepView for Task {
    type V = TaskModel;

    open spec fn deep_view(&self) -> TaskModel {
        TaskModel {
            name: self.name@,
            column: self.column,
            description: opt_view(self.description),
            tags: opt_views(self.tags),
        }
    }
}

impl Clone for Task {
    fn clone(&self) -> (r: Self)
        ensures
            r.deep_view() == self.deep_view(),
    {
        let description = match &self.description {
            Some(d) => Some(d.clone()),
            None => None,
        };
        let tags = match &self.tags {
            Some(g) => Some(copy_list(g)),
            None => None,
        };
        Task { name: self.name.clone(), column: self.column, description, tags }
    }
}

impl PartialEq for Task {
    fn eq(&self, other: &Task) -> (r: bool) {
        str_eq(self.name.as_str(), other.name.as_str()) && self.column == other.column && opt_str_eq(
            &self.description,
            &other.description,
        ) && opt_list_eq(&self.tags, &other.tags)
    }
}

impl vstd::std_specs::cmp::PartialEqSpecImpl for Task {
    open spec fn obeys_eq_spec() -> bool {
        true
    }

    open spec fn eq_spec(&self, other: &Task) -> bool {
        self.deep_view() == other.deep_view()
    }
}

fn opt_str_eq(a: &Option<String>, b: &Option<String>) -> (r: bool)
    ensures
        r == (opt_view(*a) == opt_view(*b)),
{
    match a {
        Some(x) => match b {
            Some(y) => str_eq(x.as_str(), y.as_str()),
            None => false,
        },
        None => b.is_none(),
    }
}

/// Element-wise equality of two lists of strings.
pub fn list_eq(a: &Vec<String>, b: &Vec<String>) -> (r: bool)
    ensures
        r == (views(a@) == views(b@)),
{
    if a.len() != b.len() {
        assert(views(a@).len() != views(b@).len());
        return false;
    }
    let mut i: usize = 0;
    while i < a.len()
        invariant
            a@.len() == b@.len(),
            0 <= i <= a@.len(),
            forall|j: int| 0 <= j < i ==> a@[j]@ == b@[j]@,
        decreases a@.len() - i,
    {
        if !str_eq(a[i].as_str(), b[i].as_str()) {
            assert(views(a@)[i as int] != views(b@)[i as int]);
            return false;
        }
        i = i + 1;
    }
    assert(views(a@) =~= views(b@));
    true
}

fn opt_list_eq(a: &Option<Vec<String>>, b: &Option<Vec<String>>) -> (r: bool)
    ensures
        r == (opt_views(*a) == opt_views(*b)),
{
    match a {
        Some(x) => match b {
            Some(y) => list_eq(x, y),
            None => false,
        },
        None => b.is_none(),
    }
}

} // verus!
