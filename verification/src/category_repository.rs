//! Category assignments: the many-to-many relation between tasks and
//! category names, including batch rename and delete across all tasks.

use vstd::prelude::*;

use crate::models::{LinkVw, TaskCategory};
use crate::seqs::{lemma_filter_all, lemma_filter_pairs, lemma_filter_push};
use crate::store::{has_link, link_dup, links_wf, Store};
use crate::strings::{str_eq, string_eq};
use crate::Error;

verus! {

/// The assignment rows that pairing `task_id` with each of `cats` adds.
pub open spec fn link_pairs(task_id: i64, cats: Seq<Seq<char>>) -> Seq<LinkVw> {
    cats.map_values(|c: Seq<char>| LinkVw { task_id, category: c })
}

/// Whether the names in `cats` are pairwise distinct.
pub open spec fn cats_distinct(cats: Seq<Seq<char>>) -> bool {
    forall|i: int, j: int| 0 <= i < j < cats.len() ==> cats[i] != cats[j]
}

/// Whether assigning each of `cats` to `task_id` hits no existing pair and
/// no repeated name.
pub open spec fn batch_cats_ok(links: Seq<LinkVw>, task_id: i64, cats: Seq<Seq<char>>) -> bool {
    cats_distinct(cats) && (forall|i: int|
        0 <= i < cats.len() ==> !has_link(links, task_id, #[trigger] cats[i]))
}

/// The assignment table without the pair (`task_id`, `category`).
pub open spec fn remove_link(links: Seq<LinkVw>, task_id: i64, category: Seq<char>) -> Seq<
    LinkVw,
> {
    links.filter(|l: LinkVw| !(l.task_id == task_id && l.category == category))
}

/// The assignment table without any row of `task_id`.
pub open spec fn remove_task_links(links: Seq<LinkVw>, task_id: i64) -> Seq<LinkVw> {
    links.filter(|l: LinkVw| l.task_id != task_id)
}

/// The assignment table without any row naming `category`.
pub open spec fn remove_category_links(links: Seq<LinkVw>, category: Seq<char>) -> Seq<LinkVw> {
    links.filter(|l: LinkVw| l.category != category)
}

/// The categories assigned to `task_id`, in row order.
pub open spec fn categories_of(links: Seq<LinkVw>, task_id: i64) -> Seq<Seq<char>> {
    links.filter(|l: LinkVw| l.task_id == task_id).map_values(|l: LinkVw| l.category)
}

/// The ids of the tasks `category` is assigned to, in row order.
pub open spec fn task_ids_of(links: Seq<LinkVw>, category: Seq<char>) -> Seq<i64> {
    links.filter(|l: LinkVw| l.category == category).map_values(|l: LinkVw| l.task_id)
}

/// The number of assignment rows naming `category`.
pub open spec fn cat_count(links: Seq<LinkVw>, category: Seq<char>) -> int {
    links.filter(|l: LinkVw| l.category == category).len() as int
}

/// Whether some listed name reads as `category`.
pub open spec fn has_name(rs: Seq<(String, i64)>, category: Seq<char>) -> bool {
    exists|q: int| 0 <= q < rs.len() && (#[trigger] rs[q]).0@ == category
}

/// Whether the ids in `ids` are pairwise distinct.
pub open spec fn ids_distinct(ids: Seq<i64>) -> bool {
    forall|i: int, j: int| 0 <= i < j < ids.len() ==> ids[i] != ids[j]
}

/// Whether assigning `category` to each of `ids` hits no existing pair and
/// no repeated id.
pub open spec fn batch_ids_ok(links: Seq<LinkVw>, ids: Seq<i64>, category: Seq<char>) -> bool {
    ids_distinct(ids) && (forall|i: int|
        0 <= i < ids.len() ==> !has_link(links, #[trigger] ids[i], category))
}

/// The assignment rows that pairing `category` with each of `ids` adds.
pub open spec fn id_pairs(ids: Seq<i64>, category: Seq<char>) -> Seq<LinkVw> {
    ids.map_values(|id: i64| LinkVw { task_id: id, category })
}

/// The assignment table after renaming the pair (`task_id`, `old_cat`) to
/// `new_cat` (unchanged rows keep their place).
pub open spec fn rename_link(
    links: Seq<LinkVw>,
    task_id: i64,
    old_cat: Seq<char>,
    new_cat: Seq<char>,
) -> Seq<LinkVw> {
    links.map_values(
        |l: LinkVw|
            if l.task_id == task_id && l.category == old_cat {
                LinkVw { task_id: l.task_id, category: new_cat }
            } else {
                l
            },
    )
}

/// The assignment table after renaming `old_cat` to `new_cat` on every row.
pub open spec fn rename_all_links(links: Seq<LinkVw>, old_cat: Seq<char>, new_cat: Seq<char>) -> Seq<
    LinkVw,
> {
    links.map_values(
        |l: LinkVw|
            if l.category == old_cat {
                LinkVw { task_id: l.task_id, category: new_cat }
            } else {
                l
            },
    )
}

/// Whether renaming `old_cat` to `new_cat` on every row would give some
/// task the same category twice.
pub open spec fn batch_rename_conflict(
    links: Seq<LinkVw>,
    old_cat: Seq<char>,
    new_cat: Seq<char>,
) -> bool {
    old_cat != new_cat && exists|i: int|
        0 <= i < links.len() && (#[trigger] links[i]).category == old_cat && has_link(
            links,
            links[i].task_id,
            new_cat,
        )
}

impl Store {
    /// Whether `category` is assigned to `task_id`.
    pub fn link_exists(&self, task_id: i64, category: &str) -> (r: bool)
        ensures
            r == has_link(self@.links, task_id, category@),
    {
        let mut i: usize = 0;
        while i < self.links.len()
            invariant
                i <= self.links.len(),
                forall|k: int|
                    0 <= k < i ==> !((#[trigger] self@.links[k]).task_id == task_id
                        && self@.links[k].category == category@),
            decreases self.links.len() - i,
        {
            if self.links[i].task_id == task_id && str_eq(self.links[i].category.as_str(),
                category,
            ) {
                proof {
                    assert((#[trigger] self@.links[i as int]).task_id == task_id
                        && self@.links[i as int].category == category@);
                }
                return true;
            }
            i = i + 1;
        }
        false
    }

    /// Assigns `category` to `task_id`; refuses an already assigned pair.
    pub fn create_category(&mut self, task_id: i64, category: &str) -> (r: Result<(), Error>)
        requires
            old(self).wf(),
        ensures
            r is Err <==> has_link(old(self)@.links, task_id, category@),
            r matches Err(e) ==> (e matches Error::DuplicateCategory { task_id: t, category: c }
                && t == task_id && c@ == category@) && final(self)@ == old(self)@,
            r is Ok ==> final(self)@.links == old(self)@.links.push(
                LinkVw { task_id, category: category@ },
            ) && final(self)@.tasks == old(self)@.tasks && final(self)@.actions == old(
                self,
            )@.actions && final(self).wf(),
    {
        if self.link_exists(task_id, category) {
            return Err(Error::DuplicateCategory { task_id, category: category.to_owned() });
        }
        self.links.push(TaskCategory { task_id, category: category.to_owned() });
        proof {
            assert(self@.links =~= old(self)@.links.push(
                LinkVw { task_id, category: category@ },
            ));
            assert(links_wf(self@.links)) by {
                assert(forall|k: int|
                    0 <= k < old(self)@.links.len() ==> !((#[trigger] old(
                        self,
                    )@.links[k]).task_id == task_id && old(self)@.links[k].category
                        == category@));
            }
        }
        Ok(())
    }

    /// The categories assigned to `task_id`, in row order.
    pub fn fetch_task_categories(&self, task_id: i64) -> (r: Vec<String>)
        ensures
            r.deep_view() == categories_of(self@.links, task_id),
    {
        let ghost pred = |l: LinkVw| l.task_id == task_id;
        let mut r: Vec<String> = Vec::new();
        let mut i: usize = 0;
        while i < self.links.len()
            invariant
                i <= self.links.len(),
                pred == (|l: LinkVw| l.task_id == task_id),
                r.deep_view() == categories_of(self@.links.take(i as int), task_id),
            decreases self.links.len() - i,
        {
            proof {
                lemma_filter_push(self@.links, i as int, pred);
            }
            if self.links[i].task_id == task_id {
                let c = self.links[i].category.clone();
                proof {
                    assert(self@.links[i as int] == self.links@[i as int]@);
                    assert(c@ == self@.links[i as int].category);
                }
                let ghost rprev = r.deep_view();
                r.push(c);
                proof {
                    let fprev = self@.links.take(i as int).filter(pred);
                    let fnext = self@.links.take(i + 1).filter(pred);
                    assert(pred(self@.links[i as int]));
                    assert(fnext == fprev.push(self@.links[i as int]));
                    assert(categories_of(self@.links.take(i as int), task_id) == fprev.map_values(
                        |l: LinkVw| l.category,
                    ));
                    assert(categories_of(self@.links.take(i + 1), task_id) == fnext.map_values(
                        |l: LinkVw| l.category,
                    ));
                    let goal = categories_of(self@.links.take(i + 1), task_id);
                    assert(r.deep_view().len() == rprev.len() + 1);
                    assert(goal.len() == rprev.len() + 1);
                    assert forall|k: int| 0 <= k < r.deep_view().len() implies r.deep_view()[k]
                        == goal[k] by {
                        if k < rprev.len() {
                            assert(r.deep_view()[k] == rprev[k]);
                            assert(rprev[k] == fprev.map_values(|l: LinkVw| l.category)[k]);
                            assert(goal[k] == fnext.map_values(|l: LinkVw| l.category)[k]);
                        } else {
                            assert(r.deep_view()[k] == c@);
                            assert(goal[k] == self@.links[i as int].category);
                        }
                    }
                    assert(r.deep_view() =~= goal);
                }
            } else {
                proof {
                    assert(r.deep_view() =~= categories_of(self@.links.take(i + 1), task_id));
                }
            }
            i = i + 1;
        }
        proof {
            assert(self@.links.take(self.links@.len() as int) =~= self@.links);
        }
        r
    }

    /// The ids of the tasks `category` is assigned to, in row order.
    pub fn get_category_task_ids(&self, category: &str) -> (r: Vec<i64>)
        ensures
            r@ == task_ids_of(self@.links, category@),
    {
        let ghost pred = |l: LinkVw| l.category == category@;
        let mut r: Vec<i64> = Vec::new();
        let mut i: usize = 0;
        while i < self.links.len()
            invariant
                i <= self.links.len(),
                pred == (|l: LinkVw| l.category == category@),
                r@ == task_ids_of(self@.links.take(i as int), category@),
            decreases self.links.len() - i,
        {
            proof {
                lemma_filter_push(self@.links, i as int, pred);
            }
            if str_eq(self.links[i].category.as_str(), category) {
                r.push(self.links[i].task_id);
            }
            proof {
                assert(r@ =~= task_ids_of(self@.links.take(i + 1), category@));
            }
            i = i + 1;
        }
        proof {
            assert(self@.links.take(self.links@.len() as int) =~= self@.links);
        }
        r
    }

    /// Fetches the pair (`task_id`, `category`) if it is assigned.
    pub fn fetch_category(&self, task_id: i64, category: &str) -> (r: Option<String>)
        ensures
            r is Some <==> has_link(self@.links, task_id, category@),
            r matches Some(c) ==> c@ == category@,
    {
        let mut i: usize = 0;
        while i < self.links.len()
            invariant
                i <= self.links.len(),
                forall|k: int|
                    0 <= k < i ==> !((#[trigger] self@.links[k]).task_id == task_id
                        && self@.links[k].category == category@),
            decreases self.links.len() - i,
        {
            if self.links[i].task_id == task_id && str_eq(self.links[i].category.as_str(),
                category,
            ) {
                proof {
                    assert((#[trigger] self@.links[i as int]).task_id == task_id
                        && self@.links[i as int].category == category@);
                }
                return Some(self.links[i].category.clone());
            }
            i = i + 1;
        }
        None
    }

    /// Removes the pair (`task_id`, `category`); refuses an absent pair.
    pub fn delete_category(&mut self, task_id: i64, category: &str) -> (r: Result<(), Error>)
        requires
            old(self).wf(),
        ensures
            r is Err <==> !has_link(old(self)@.links, task_id, category@),
            r matches Err(e) ==> (e matches Error::CategoryNotFound { task_id: t, category: c }
                && t == task_id && c@ == category@) && final(self)@ == old(self)@,
            r is Ok ==> final(self)@.links == remove_link(old(self)@.links, task_id, category@)
                && final(self)@.tasks == old(self)@.tasks && final(self)@.actions == old(
                self,
            )@.actions && final(self).wf(),
    {
        if !self.link_exists(task_id, category) {
            return Err(Error::CategoryNotFound { task_id, category: category.to_owned() });
        }
        let ghost pred = |l: LinkVw| !(l.task_id == task_id && l.category == category@);
        let mut kept: Vec<TaskCategory> = Vec::new();
        let mut i: usize = 0;
        while i < self.links.len()
            invariant
                self == old(self),
                old(self).wf(),
                i <= self.links.len(),
                pred == (|l: LinkVw| !(l.task_id == task_id && l.category == category@)),
                kept.deep_view() == self@.links.take(i as int).filter(pred),
            decreases self.links.len() - i,
        {
            proof {
                lemma_filter_push(self@.links, i as int, pred);
            }
            if !(self.links[i].task_id == task_id && str_eq(self.links[i].category.as_str(),
                category,
            )) {
                kept.push(TaskCategory {
                    task_id: self.links[i].task_id,
                    category: self.links[i].category.clone(),
                });
            }
            proof {
                assert(kept.deep_view() =~= self@.links.take(i + 1).filter(pred));
            }
            i = i + 1;
        }
        proof {
            assert(self@.links.take(self.links@.len() as int) =~= self@.links);
            lemma_filter_pairs(self@.links, pred, |a: LinkVw, b: LinkVw| !link_dup(a, b));
        }
        self.links = kept;
        Ok(())
    }

    /// Removes every assignment row of `task_id`.
    pub fn delete_task_categories(&mut self, task_id: i64)
        requires
            old(self).wf(),
        ensures
            final(self)@.links == remove_task_links(old(self)@.links, task_id),
            final(self)@.tasks == old(self)@.tasks,
            final(self)@.actions == old(self)@.actions,
            final(self).wf(),
    {
        let ghost pred = |l: LinkVw| l.task_id != task_id;
        let mut kept: Vec<TaskCategory> = Vec::new();
        let mut i: usize = 0;
        while i < self.links.len()
            invariant
                self == old(self),
                old(self).wf(),
                i <= self.links.len(),
                pred == (|l: LinkVw| l.task_id != task_id),
                kept.deep_view() == self@.links.take(i as int).filter(pred),
            decreases self.links.len() - i,
        {
            proof {
                lemma_filter_push(self@.links, i as int, pred);
            }
            if self.links[i].task_id != task_id {
                kept.push(TaskCategory {
                    task_id: self.links[i].task_id,
                    category: self.links[i].category.clone(),
                });
            }
            proof {
                assert(kept.deep_view() =~= self@.links.take(i + 1).filter(pred));
            }
            i = i + 1;
        }
        proof {
            assert(self@.links.take(self.links@.len() as int) =~= self@.links);
            lemma_filter_pairs(self@.links, pred, |a: LinkVw, b: LinkVw| !link_dup(a, b));
        }
        self.links = kept;
    }

    /// Removes every assignment row naming `category`, across all tasks.
    pub fn batch_delete_category(&mut self, category: &str)
        requires
            old(self).wf(),
        ensures
            final(self)@.links == remove_category_links(old(self)@.links, category@),
            final(self)@.tasks == old(self)@.tasks,
            final(self)@.actions == old(self)@.actions,
            final(self).wf(),
    {
        let ghost pred = |l: LinkVw| l.category != category@;
        let mut kept: Vec<TaskCategory> = Vec::new();
        let mut i: usize = 0;
        while i < self.links.len()
            invariant
                self == old(self),
                old(self).wf(),
                i <= self.links.len(),
                pred == (|l: LinkVw| l.category != category@),
                kept.deep_view() == self@.links.take(i as int).filter(pred),
            decreases self.links.len() - i,
        {
            proof {
                lemma_filter_push(self@.links, i as int, pred);
            }
            if !str_eq(self.links[i].category.as_str(), category) {
                kept.push(TaskCategory {
                    task_id: self.links[i].task_id,
                    category: self.links[i].category.clone(),
                });
            }
            proof {
                assert(kept.deep_view() =~= self@.links.take(i + 1).filter(pred));
            }
            i = i + 1;
        }
        proof {
            assert(self@.links.take(self.links@.len() as int) =~= self@.links);
            lemma_filter_pairs(self@.links, pred, |a: LinkVw, b: LinkVw| !link_dup(a, b));
        }
        self.links = kept;
    }

    /// The distinct category names in use, each with the number of tasks
    /// carrying it. The order of the names is unspecified.
    pub fn all_categories(&self) -> (r: Vec<(String, i64)>)
        requires
            self@.links.len() <= i64::MAX,
        ensures
            forall|i: int, j: int| 0 <= i < j < r@.len() ==> (#[trigger] r@[i]).0@ != (
            #[trigger] r@[j]).0@,
            forall|i: int|
                0 <= i < r@.len() ==> (#[trigger] r@[i]).1 as int == cat_count(
                    self@.links,
                    r@[i].0@,
                ),
            forall|i: int|
                0 <= i < self@.links.len() ==> has_name(r@, (#[trigger] self@.links[i]).category),
    {
        let mut r: Vec<(String, i64)> = Vec::new();
        let mut i: usize = 0;
        while i < self.links.len()
            invariant
                self@.links.len() <= i64::MAX,
                i <= self.links.len(),
                forall|p: int, q: int| 0 <= p < q < r@.len() ==> (#[trigger] r@[p]).0@ != (
                #[trigger] r@[q]).0@,
                forall|p: int|
                    0 <= p < r@.len() ==> (#[trigger] r@[p]).1 as int == cat_count(
                        self@.links,
                        r@[p].0@,
                    ),
                forall|p: int|
                    0 <= p < i ==> has_name(r@, (#[trigger] self@.links[p]).category),
            decreases self.links.len() - i,
        {
            let name = &self.links[i].category;
            let mut seen = false;
            let mut j: usize = 0;
            while j < r.len()
                invariant
                    j <= r@.len(),
                    seen ==> has_name(r@, name@),
                    !seen ==> forall|q: int| 0 <= q < j ==> (#[trigger] r@[q]).0@ != name@,
                decreases r.len() - j,
            {
                if str_eq(r[j].0.as_str(), name.as_str()) {
                    seen = true;
                }
                j = j + 1;
            }
            if !seen {
                let ghost pred = |l: LinkVw| l.category == name@;
                let mut cnt: usize = 0;
                let mut k: usize = 0;
                while k < self.links.len()
                    invariant
                        self@.links.len() <= i64::MAX,
                        k <= self.links.len(),
                        pred == (|l: LinkVw| l.category == name@),
                        cnt as int == self@.links.take(k as int).filter(pred).len(),
                        cnt <= k,
                    decreases self.links.len() - k,
                {
                    proof {
                        lemma_filter_push(self@.links, k as int, pred);
                    }
                    if str_eq(self.links[k].category.as_str(), name.as_str()) {
                        cnt = cnt + 1;
                    }
                    k = k + 1;
                }
                proof {
                    assert(self@.links.take(self.links@.len() as int) =~= self@.links);
                }
                let ghost rprev = r@;
                r.push((name.clone(), cnt as i64));
                proof {
                    assert(r@.last().0@ == name@);
                    assert forall|p: int|
                        0 <= p < i + 1 implies has_name(
                        r@,
                        (#[trigger] self@.links[p]).category,
                    ) by {
                        if p < i {
                            let q = choose|q: int|
                                0 <= q < rprev.len() && (#[trigger] rprev[q]).0@
                                    == self@.links[p].category;
                            assert(r@[q].0@ == self@.links[p].category);
                        } else {
                            assert(r@[rprev.len() as int].0@ == self@.links[p].category);
                        }
                    }
                }
            } else {
                proof {
                    assert forall|p: int|
                        0 <= p < i + 1 implies has_name(
                        r@,
                        (#[trigger] self@.links[p]).category,
                    ) by {
                    }
                }
            }
            i = i + 1;
        }
        r
    }

    /// The first of `categories` that cannot be assigned to `task_id`:
    /// either already assigned, or repeated within the batch.
    pub fn find_batch_conflict(&self, task_id: i64, categories: &Vec<String>) -> (r: Option<
        String,
    >)
        ensures
            r is None <==> batch_cats_ok(self@.links, task_id, categories.deep_view()),
            r matches Some(c) ==> categories.deep_view().contains(c@),
    {
        let ghost cats = categories.deep_view();
        let mut i: usize = 0;
        while i < categories.len()
            invariant
                cats == categories.deep_view(),
                i <= categories.len(),
                forall|k: int| 0 <= k < i ==> !has_link(self@.links, task_id, #[trigger] cats[k]),
                forall|k1: int, k2: int| 0 <= k1 < k2 < i ==> cats[k1] != cats[k2],
            decreases categories.len() - i,
        {
            proof {
                assert(cats[i as int] == categories@[i as int]@);
            }
            if self.link_exists(task_id, categories[i].as_str()) {
                return Some(categories[i].clone());
            }
            let mut j: usize = 0;
            while j < i
                invariant
                    cats == categories.deep_view(),
                    j <= i < categories.len(),
                    forall|k: int| 0 <= k < j ==> cats[k] != cats[i as int],
                decreases i - j,
            {
                if string_eq(&categories[j], &categories[i]) {
                    proof {
                        assert(cats[i as int] == categories@[i as int]@);
                        assert(cats[j as int] == categories@[j as int]@);
                        assert(cats[j as int] == cats[i as int]);
                        assert(!cats_distinct(cats));
                    }
                    return Some(categories[i].clone());
                }
                j = j + 1;
            }
            i = i + 1;
        }
        None
    }

    /// Assigns each of `categories` to `task_id` in one step; refuses the
    /// whole batch when a name repeats or a pair already exists.
    pub fn batch_create_task_categories(&mut self, task_id: i64, categories: &Vec<String>) -> (r:
        Result<(), Error>)
        requires
            old(self).wf(),
        ensures
            r is Ok <==> batch_cats_ok(old(self)@.links, task_id, categories.deep_view()),
            r is Ok ==> final(self)@.links == old(self)@.links + link_pairs(
                task_id,
                categories.deep_view(),
            ) && final(self)@.tasks == old(self)@.tasks && final(self)@.actions == old(
                self,
            )@.actions && final(self).wf(),
            r matches Err(e) ==> final(self)@ == old(self)@ && (e matches Error::DuplicateCategory {
                task_id: t,
                category: c,
            } && t == task_id && categories.deep_view().contains(c@)),
    {
        let ghost cats = categories.deep_view();
        let mut i: usize = 0;
        while i < categories.len()
            invariant
                self == old(self),
                old(self).wf(),
                cats == categories.deep_view(),
                i <= categories.len(),
                forall|k: int| 0 <= k < i ==> !has_link(self@.links, task_id, #[trigger] cats[k]),
                forall|k1: int, k2: int| 0 <= k1 < k2 < i ==> cats[k1] != cats[k2],
            decreases categories.len() - i,
        {
            if self.link_exists(task_id, categories[i].as_str()) {
                proof {
                    assert(cats[i as int] == categories@[i as int]@);
                }
                return Err(
                    Error::DuplicateCategory { task_id, category: categories[i].clone() },
                );
            }
            let mut j: usize = 0;
            while j < i
                invariant
                    self == old(self),
                    cats == categories.deep_view(),
                    j <= i < categories.len(),
                    forall|k: int| 0 <= k < j ==> cats[k] != cats[i as int],
                decreases i - j,
            {
                if string_eq(&categories[j], &categories[i]) {
                    proof {
                        assert(cats[i as int] == categories@[i as int]@);
                        assert(cats[j as int] == categories@[j as int]@);
                        assert(cats[j as int] == cats[i as int]);
                        assert(!cats_distinct(cats));
                    }
                    return Err(
                        Error::DuplicateCategory { task_id, category: categories[i].clone() },
                    );
                }
                j = j + 1;
            }
            i = i + 1;
        }
        proof {
            assert(batch_cats_ok(self@.links, task_id, cats));
        }
        let mut i: usize = 0;
        while i < categories.len()
            invariant
                old(self).wf(),
                cats == categories.deep_view(),
                i <= categories.len(),
                batch_cats_ok(old(self)@.links, task_id, cats),
                self@.tasks == old(self)@.tasks,
                self@.actions == old(self)@.actions,
                self@.links == old(self)@.links + link_pairs(task_id, cats.take(i as int)),
                links_wf(self@.links),
            decreases categories.len() - i,
        {
            let ghost before = self@.links;
            self.links.push(TaskCategory { task_id, category: categories[i].clone() });
            proof {
                assert(self@.links =~= before.push(LinkVw { task_id, category: cats[i as int] }));
                assert(self@.links =~= old(self)@.links + link_pairs(
                    task_id,
                    cats.take(i + 1),
                ));
                assert(links_wf(self@.links)) by {
                    assert(!has_link(old(self)@.links, task_id, cats[i as int]));
                    assert forall|k: int| 0 <= k < before.len() implies !link_dup(
                        before[k],
                        LinkVw { task_id, category: cats[i as int] },
                    ) by {
                        if k < old(self)@.links.len() {
                            assert(before[k] == old(self)@.links[k]);
                        } else {
                            let p = k - old(self)@.links.len();
                            assert(before[k] == link_pairs(task_id, cats.take(i as int))[p]);
                            assert(before[k].category == cats[p]);
                        }
                    }
                }
            }
            i = i + 1;
        }
        proof {
            assert(cats.take(cats.len() as int) =~= cats);
            assert(self@.links =~= old(self)@.links + link_pairs(task_id, cats));
        }
        Ok(())
    }

    /// Assigns `category` to each of `task_ids` in one step; refuses the
    /// whole batch when an id repeats or a pair already exists.
    pub fn batch_create_category(&mut self, task_ids: &Vec<i64>, category: &str) -> (r: Result<
        (),
        Error,
    >)
        requires
            old(self).wf(),
        ensures
            r is Ok <==> batch_ids_ok(old(self)@.links, task_ids@, category@),
            r is Ok ==> final(self)@.links == old(self)@.links + id_pairs(task_ids@, category@)
                && final(self)@.tasks == old(self)@.tasks && final(self)@.actions == old(
                self,
            )@.actions && final(self).wf(),
            r matches Err(e) ==> final(self)@ == old(self)@ && (e matches Error::DuplicateCategory {
                task_id: t,
                category: c,
            } && c@ == category@ && task_ids@.contains(t)),
    {
        let mut i: usize = 0;
        while i < task_ids.len()
            invariant
                self == old(self),
                old(self).wf(),
                i <= task_ids.len(),
                forall|k: int|
                    0 <= k < i ==> !has_link(self@.links, #[trigger] task_ids@[k], category@),
                forall|k1: int, k2: int| 0 <= k1 < k2 < i ==> task_ids@[k1] != task_ids@[k2],
            decreases task_ids.len() - i,
        {
            if self.link_exists(task_ids[i], category) {
                return Err(
                    Error::DuplicateCategory { task_id: task_ids[i], category: category.to_owned() },
                );
            }
            let mut j: usize = 0;
            while j < i
                invariant
                    self == old(self),
                    j <= i < task_ids.len(),
                    forall|k: int| 0 <= k < j ==> task_ids@[k] != task_ids@[i as int],
                decreases i - j,
            {
                if task_ids[j] == task_ids[i] {
                    proof {
                        assert(!ids_distinct(task_ids@));
                    }
                    return Err(
                        Error::DuplicateCategory {
                            task_id: task_ids[i],
                            category: category.to_owned(),
                        },
                    );
                }
                j = j + 1;
            }
            i = i + 1;
        }
        proof {
            assert(batch_ids_ok(self@.links, task_ids@, category@));
        }
        let mut i: usize = 0;
        while i < task_ids.len()
            invariant
                old(self).wf(),
                i <= task_ids.len(),
                batch_ids_ok(old(self)@.links, task_ids@, category@),
                self@.tasks == old(self)@.tasks,
                self@.actions == old(self)@.actions,
                self@.links == old(self)@.links + id_pairs(task_ids@.take(i as int), category@),
                links_wf(self@.links),
            decreases task_ids.len() - i,
        {
            let ghost before = self@.links;
            self.links.push(TaskCategory { task_id: task_ids[i], category: category.to_owned() });
            proof {
                let newl = LinkVw { task_id: task_ids@[i as int], category: category@ };
                assert(self@.links =~= before.push(newl));
                assert(self@.links =~= old(self)@.links + id_pairs(
                    task_ids@.take(i + 1),
                    category@,
                ));
                assert(links_wf(self@.links)) by {
                    assert(!has_link(old(self)@.links, task_ids@[i as int], category@));
                    assert forall|k: int| 0 <= k < before.len() implies !link_dup(
                        before[k],
                        newl,
                    ) by {
                        if k < old(self)@.links.len() {
                            assert(before[k] == old(self)@.links[k]);
                        } else {
                            let p = k - old(self)@.links.len();
                            assert(before[k] == id_pairs(task_ids@.take(i as int), category@)[p]);
                            assert(before[k].task_id == task_ids@[p]);
                        }
                    }
                }
            }
            i = i + 1;
        }
        proof {
            assert(task_ids@.take(task_ids@.len() as int) =~= task_ids@);
            assert(self@.links =~= old(self)@.links + id_pairs(task_ids@, category@));
        }
        Ok(())
    }

    /// Renames the pair (`task_id`, `old_category`) to `new_category`;
    /// refuses an absent pair, and a rename onto a name the task already
    /// carries.
    pub fn rename_category(&mut self, task_id: i64, old_category: &str, new_category: &str) -> (r:
        Result<(), Error>)
        requires
            old(self).wf(),
        ensures
            !has_link(old(self)@.links, task_id, old_category@) ==> (r matches Err(e) && (
            e matches Error::CategoryNotFound { task_id: t, category: c } && t == task_id && c@
                == old_category@) && final(self)@ == old(self)@),
            has_link(old(self)@.links, task_id, old_category@) && old_category@ != new_category@
                && has_link(old(self)@.links, task_id, new_category@) ==> (r matches Err(e) && (
            e matches Error::DuplicateCategory { task_id: t, category: c } && t == task_id && c@
                == new_category@) && final(self)@ == old(self)@),
            has_link(old(self)@.links, task_id, old_category@) && (old_category@ == new_category@
                || !has_link(old(self)@.links, task_id, new_category@)) ==> (r is Ok && final(self)@.links == rename_link(old(self)@.links, task_id, old_category@, new_category@)
                && final(self)@.tasks == old(self)@.tasks && final(self)@.actions == old(
                self,
            )@.actions && final(self).wf()),
    {
        if !self.link_exists(task_id, old_category) {
            return Err(
                Error::CategoryNotFound { task_id, category: old_category.to_owned() },
            );
        }
        if !str_eq(old_category, new_category) && self.link_exists(task_id, new_category) {
            return Err(
                Error::DuplicateCategory { task_id, category: new_category.to_owned() },
            );
        }
        let ghost target = rename_link(old(self)@.links, task_id, old_category@, new_category@);
        let mut i: usize = 0;
        while i < self.links.len()
            invariant
                self == old(self),
                old(self).wf(),
                i <= self.links.len(),
                target == rename_link(old(self)@.links, task_id, old_category@, new_category@),
                has_link(old(self)@.links, task_id, old_category@),
                old_category@ == new_category@ || !has_link(
                    old(self)@.links,
                    task_id,
                    new_category@,
                ),
                forall|k: int|
                    0 <= k < i ==> !((#[trigger] old(self)@.links[k]).task_id == task_id && old(
                        self,
                    )@.links[k].category == old_category@),
            decreases self.links.len() - i,
        {
            if self.links[i].task_id == task_id && str_eq(self.links[i].category.as_str(),
                old_category,
            ) {
                self.links.set(i, TaskCategory { task_id, category: new_category.to_owned() });
                proof {
                    assert(target.len() == old(self)@.links.len());
                    assert forall|k: int| 0 <= k < target.len() implies self@.links[k]
                        == target[k] by {
                        if k != i {
                            assert(!link_dup(
                                old(self)@.links[if k < i {
                                    k
                                } else {
                                    i as int
                                }],
                                old(self)@.links[if k < i {
                                    i as int
                                } else {
                                    k
                                }],
                            ));
                        }
                    }
                    assert(self@.links =~= target);
                    assert(links_wf(self@.links)) by {
                        assert forall|k1: int, k2: int|
                            0 <= k1 < k2 < self@.links.len() implies !link_dup(
                            self@.links[k1],
                            self@.links[k2],
                        ) by {
                            assert(!link_dup(old(self)@.links[k1], old(self)@.links[k2]));
                            if k1 == i || k2 == i {
                                let o = if k1 == i {
                                    k2
                                } else {
                                    k1
                                };
                                if self@.links[o].category == new_category@ {
                                    assert(old(self)@.links[o].category == new_category@);
                                }
                            }
                        }
                    }
                }
                return Ok(());
            }
            i = i + 1;
        }
        proof {
            assert(false);
        }
        Ok(())
    }

    /// Renames `old_category` to `new_category` on every row; refuses the
    /// rename when some task already carries both names.
    pub fn batch_rename_category(&mut self, old_category: &str, new_category: &str) -> (r: Result<
        (),
        Error,
    >)
        requires
            old(self).wf(),
        ensures
            batch_rename_conflict(old(self)@.links, old_category@, new_category@) ==> (
            r matches Err(e) && (e matches Error::DuplicateCategory { task_id: t, category: c }
                && c@ == new_category@ && has_link(old(self)@.links, t, old_category@) && has_link(
                old(self)@.links,
                t,
                new_category@,
            )) && final(self)@ == old(self)@),
            !batch_rename_conflict(old(self)@.links, old_category@, new_category@) ==> (r is Ok
                && final(self)@.links == rename_all_links(
                old(self)@.links,
                old_category@,
                new_category@,
            ) && final(self)@.tasks == old(self)@.tasks && final(self)@.actions == old(
                self,
            )@.actions && final(self).wf()),
    {
        if !str_eq(old_category, new_category) {
            let mut i: usize = 0;
            while i < self.links.len()
                invariant
                    self == old(self),
                    old(self).wf(),
                    i <= self.links.len(),
                    old_category@ != new_category@,
                    forall|k: int|
                        0 <= k < i ==> !((#[trigger] self@.links[k]).category == old_category@
                            && has_link(self@.links, self@.links[k].task_id, new_category@)),
                decreases self.links.len() - i,
            {
                if str_eq(self.links[i].category.as_str(), old_category) && self.link_exists(
                    self.links[i].task_id,
                    new_category,
                ) {
                    proof {
                        assert((#[trigger] self@.links[i as int]).category == old_category@);
                        assert(batch_rename_conflict(
                            self@.links,
                            old_category@,
                            new_category@,
                        ));
                    }
                    return Err(
                        Error::DuplicateCategory {
                            task_id: self.links[i].task_id,
                            category: new_category.to_owned(),
                        },
                    );
                }
                i = i + 1;
            }
        }
        proof {
            assert(!batch_rename_conflict(self@.links, old_category@, new_category@));
        }
        let ghost target = rename_all_links(old(self)@.links, old_category@, new_category@);
        let mut out: Vec<TaskCategory> = Vec::new();
        let mut i: usize = 0;
        while i < self.links.len()
            invariant
                self == old(self),
                old(self).wf(),
                i <= self.links.len(),
                target == rename_all_links(old(self)@.links, old_category@, new_category@),
                out.deep_view() == target.take(i as int),
            decreases self.links.len() - i,
        {
            let ghost outprev = out.deep_view();
            proof {
                assert(self@.links[i as int] == self.links@[i as int]@);
            }
            if str_eq(self.links[i].category.as_str(), old_category) {
                out.push(TaskCategory {
                    task_id: self.links[i].task_id,
                    category: new_category.to_owned(),
                });
                proof {
                    assert(target[i as int] == (LinkVw {
                        task_id: self@.links[i as int].task_id,
                        category: new_category@,
                    }));
                }
            } else {
                out.push(TaskCategory {
                    task_id: self.links[i].task_id,
                    category: self.links[i].category.clone(),
                });
                proof {
                    assert(target[i as int] == self@.links[i as int]);
                }
            }
            proof {
                assert(target.len() == old(self)@.links.len());
                assert(out.deep_view().len() == out@.len());
                assert(outprev.len() == i as int);
                assert(out.deep_view().len() == i + 1);
                assert forall|k: int| 0 <= k < out.deep_view().len() implies out.deep_view()[k]
                    == target.take(i + 1)[k] by {
                    if k < outprev.len() {
                        assert(out.deep_view()[k] == outprev[k]);
                        assert(outprev[k] == target.take(i as int)[k]);
                    } else {
                        assert(out.deep_view()[k] == target[i as int]);
                    }
                }
                assert(out.deep_view() =~= target.take(i + 1));
            }
            i = i + 1;
        }
        proof {
            assert(target.take(target.len() as int) =~= target);
            let ghost conflictfree = !batch_rename_conflict(
                old(self)@.links,
                old_category@,
                new_category@,
            );
            assert(links_wf(target)) by {
                assert forall|k1: int, k2: int| 0 <= k1 < k2 < target.len() implies !link_dup(
                    target[k1],
                    target[k2],
                ) by {
                    let a = old(self)@.links[k1];
                    let b = old(self)@.links[k2];
                    assert(!link_dup(a, b));
                    if a.category == old_category@ && b.category == old_category@ {
                    } else if a.category == old_category@ && b.category != old_category@ {
                        if b.category == new_category@ && a.task_id == b.task_id {
                            assert(has_link(old(self)@.links, a.task_id, new_category@));
                            assert(batch_rename_conflict(
                                old(self)@.links,
                                old_category@,
                                new_category@,
                            ));
                        }
                    } else if a.category != old_category@ && b.category == old_category@ {
                        if a.category == new_category@ && a.task_id == b.task_id {
                            assert(has_link(old(self)@.links, b.task_id, new_category@));
                            assert((#[trigger] old(self)@.links[k2]).category == old_category@);
                            assert(batch_rename_conflict(
                                old(self)@.links,
                                old_category@,
                                new_category@,
                            ));
                        }
                    }
                }
            }
        }
        self.links = out;
        Ok(())
    }
}

} // verus!
