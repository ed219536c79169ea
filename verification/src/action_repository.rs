//! The action ledger: append-only reversible operation records with the
//! linear undo/redo cursor discipline.

use vstd::prelude::*;

use crate::date::Date;
use crate::models::{Action, ActionEnum, RecordVw};
use crate::seqs::{lemma_filter_all, lemma_filter_pairs, lemma_filter_push};
use crate::store::{
    actions_wf, lemma_next_action_id, next_action_id, redo_target_spec, replace_action,
    undo_target_spec, unrestored, Store,
};
use crate::Error;

verus! {

/// The newest `limit` records, ordered by id descending.
pub open spec fn actions_desc(actions: Seq<RecordVw>, limit: u64) -> Seq<RecordVw> {
    let n: int = if actions.len() <= limit {
        actions.len() as int
    } else {
        limit as int
    };
    Seq::new(n as nat, |k: int| actions[actions.len() - 1 - k])
}

/// Once every record above position `j` is restored, the undo target lies
/// in the first `j` records.
proof fn lemma_undo_target_high(actions: Seq<RecordVw>, j: int)
    requires
        0 <= j <= actions.len(),
        forall|k: int| j <= k < actions.len() ==> (#[trigger] actions[k]).restored,
    ensures
        undo_target_spec(actions) == undo_target_spec(actions.take(j)),
    decreases actions.len() - j,
{
    if j == actions.len() {
        assert(actions.take(j) =~= actions);
    } else {
        assert(actions.last().restored);
        assert(undo_target_spec(actions) == undo_target_spec(actions.drop_last()));
        assert(actions.drop_last() =~= actions.take(actions.len() - 1));
        lemma_undo_target_high(actions.take(actions.len() - 1), j);
        assert(actions.take(actions.len() - 1).take(j) =~= actions.take(j));
    }
}

/// Once every record below position `j` is unrestored, the redo target
/// lies at or above position `j`.
pub proof fn lemma_redo_target_low(actions: Seq<RecordVw>, j: int)
    requires
        0 <= j <= actions.len(),
        forall|k: int| 0 <= k < j ==> !(#[trigger] actions[k]).restored,
    ensures
        redo_target_spec(actions) == redo_target_spec(actions.skip(j)),
    decreases j,
{
    if j > 0 {
        assert(actions.len() > 0);
        assert(!actions[0].restored);
        assert(redo_target_spec(actions) == redo_target_spec(actions.skip(1)));
        assert(forall|k: int|
            0 <= k < j - 1 ==> !(#[trigger] actions.skip(1)[k]).restored);
        lemma_redo_target_low(actions.skip(1), j - 1);
        assert(actions.skip(1).skip(j - 1) =~= actions.skip(j));
    } else {
        assert(actions.skip(0) =~= actions);
    }
}

impl Store {
    /// Appends a new unrestored record carrying `action`, then discards
    /// every restored record: writing new history deletes the redo branch.
    pub fn create_action(&mut self, action: ActionEnum, now: Date) -> (r: i64)
        requires
            old(self).wf(),
            next_action_id(old(self)@.actions) <= i64::MAX,
        ensures
            r as int == next_action_id(old(self)@.actions),
            final(self)@.actions == unrestored(old(self)@.actions).push(
                RecordVw { id: r, action: action@, restored: false, created_at: now },
            ),
            final(self)@.tasks == old(self)@.tasks,
            final(self)@.links == old(self)@.links,
            final(self).wf(),
    {
        let ghost a = action@;
        let id: i64 = if self.actions.len() == 0 {
            1
        } else {
            self.actions[self.actions.len() - 1].id + 1
        };
        let ghost pred = |x: RecordVw| !x.restored;
        let mut kept: Vec<Action> = Vec::new();
        let mut i: usize = 0;
        while i < self.actions.len()
            invariant
                self == old(self),
                old(self).wf(),
                i <= self.actions.len(),
                id as int == next_action_id(old(self)@.actions),
                a == action@,
                pred == (|x: RecordVw| !x.restored),
                kept.deep_view() == self@.actions.take(i as int).filter(pred),
            decreases self.actions.len() - i,
        {
            let ghost kprev = kept.deep_view();
            proof {
                lemma_filter_push(self@.actions, i as int, pred);
                assert(self@.actions[i as int] == self.actions@[i as int]@);
            }
            if !self.actions[i].restored {
                kept.push(self.actions[i].duplicate());
                proof {
                    assert forall|k: int| 0 <= k < kept.deep_view().len() implies kept.deep_view()[k]
                        == self@.actions.take(i + 1).filter(pred)[k] by {
                        if k < kprev.len() {
                            assert(kept.deep_view()[k] == kprev[k]);
                        } else {
                            assert(kept.deep_view()[k] == self@.actions[i as int]);
                        }
                    }
                    assert(kept.deep_view() =~= self@.actions.take(i + 1).filter(pred));
                }
            } else {
                proof {
                    assert(kept.deep_view() =~= self@.actions.take(i + 1).filter(pred));
                }
            }
            i = i + 1;
        }
        proof {
            assert(self@.actions.take(self.actions@.len() as int) =~= self@.actions);
        }
        let ghost keptv = kept.deep_view();
        let rec = Action { id, action, restored: false, created_at: now };
        kept.push(rec);
        proof {
            assert forall|k: int| 0 <= k < kept.deep_view().len() implies kept.deep_view()[k]
                == unrestored(old(self)@.actions).push(
                RecordVw { id, action: a, restored: false, created_at: now },
            )[k] by {
            if k < keptv.len() {
                    assert(kept.deep_view()[k] == keptv[k]);
                }
            }
            assert(kept.deep_view() =~= unrestored(old(self)@.actions).push(
                RecordVw { id, action: a, restored: false, created_at: now },
            ));
            lemma_next_action_id(old(self)@.actions);
            lemma_filter_pairs(
                old(self)@.actions,
                pred,
                |x: RecordVw, y: RecordVw| x.id < y.id,
            );
            lemma_filter_all(old(self)@.actions, pred, |x: RecordVw| 1 <= x.id);
            lemma_filter_all(
                old(self)@.actions,
                pred,
                |x: RecordVw| x.id < next_action_id(old(self)@.actions),
            );
            assert(actions_wf(kept.deep_view()));
        }
        self.actions = kept;
        id
    }

    /// Overwrites the content and flag of the record carrying `id`; a
    /// missing id changes nothing.
    pub fn update_action(&mut self, id: i64, action: ActionEnum, restored: bool)
        requires
            old(self).wf(),
        ensures
            final(self)@.actions == replace_action(old(self)@.actions, id, action@, restored),
            final(self)@.tasks == old(self)@.tasks,
            final(self)@.links == old(self)@.links,
            final(self).wf(),
    {
        let ghost a = action@;
        let ghost target = replace_action(old(self)@.actions, id, a, restored);
        let mut i: usize = 0;
        while i < self.actions.len()
            invariant
                self == old(self),
                old(self).wf(),
                i <= self.actions.len(),
                a == action@,
                target == replace_action(old(self)@.actions, id, a, restored),
                forall|k: int| 0 <= k < i ==> (#[trigger] old(self)@.actions[k]).id != id,
            decreases self.actions.len() - i,
        {
            if self.actions[i].id == id {
                let created_at = self.actions[i].created_at;
                proof {
                    assert(created_at == old(self)@.actions[i as int].created_at);
                }
                self.actions.set(i, Action { id, action, restored, created_at });
                proof {
                    assert(target.len() == old(self)@.actions.len());
                    assert forall|k: int| 0 <= k < target.len() implies self@.actions[k]
                        == target[k] by {
                        if k != i {
                            assert(old(self)@.actions[i as int].id == id);
                            if k < i {
                                assert(old(self)@.actions[k].id != id);
                            } else {
                                assert(old(self)@.actions[i as int].id < old(
                                    self,
                                )@.actions[k].id);
                            }
                        }
                    }
                    assert(self@.actions =~= target);
                    assert(actions_wf(self@.actions)) by {
                        assert(forall|k: int|
                            0 <= k < self@.actions.len() ==> (#[trigger] self@.actions[k]).id
                                == old(self)@.actions[k].id);
                    }
                }
                return ;
            }
            i = i + 1;
        }
        proof {
            assert(self@.actions =~= target);
        }
    }

    /// The undo target: the unrestored record with the greatest id, or
    /// `NothingToUndo` when every record is restored.
    pub fn get_last_unrestored_action(&self) -> (r: Result<Action, Error>)
        requires
            self.wf(),
        ensures
            r matches Ok(a) ==> undo_target_spec(self@.actions) == Some(a@),
            r is Err <==> undo_target_spec(self@.actions) is None,
            r matches Err(e) ==> e == Error::NothingToUndo,
    {
        let mut i: usize = self.actions.len();
        while i > 0
            invariant
                self.wf(),
                i <= self.actions.len(),
                forall|k: int|
                    i <= k < self.actions@.len() ==> (#[trigger] self@.actions[k]).restored,
            decreases i,
        {
            if !self.actions[i - 1].restored {
                proof {
                    lemma_undo_target_high(self@.actions, i as int);
                    assert(self@.actions.take(i as int).last() == self@.actions[i - 1]);
                }
                return Ok(self.actions[i - 1].duplicate());
            }
            i = i - 1;
        }
        proof {
            lemma_undo_target_high(self@.actions, 0);
            assert(self@.actions.take(0) =~= Seq::<RecordVw>::empty());
        }
        Err(Error::NothingToUndo)
    }

    /// The redo target: the restored record with the least id, or
    /// `NothingToRedo` when no record is restored.
    pub fn get_first_restored_action(&self) -> (r: Result<Action, Error>)
        requires
            self.wf(),
        ensures
            r matches Ok(a) ==> redo_target_spec(self@.actions) == Some(a@),
            r is Err <==> redo_target_spec(self@.actions) is None,
            r matches Err(e) ==> e == Error::NothingToRedo,
    {
        let mut i: usize = 0;
        while i < self.actions.len()
            invariant
                self.wf(),
                i <= self.actions.len(),
                forall|k: int| 0 <= k < i ==> !(#[trigger] self@.actions[k]).restored,
            decreases self.actions.len() - i,
        {
            if self.actions[i].restored {
                proof {
                    lemma_redo_target_low(self@.actions, i as int);
                    assert(self@.actions.skip(i as int)[0] == self@.actions[i as int]);
                }
                return Ok(self.actions[i].duplicate());
            }
            i = i + 1;
        }
        proof {
            lemma_redo_target_low(self@.actions, self.actions@.len() as int);
            assert(self@.actions.skip(self.actions@.len() as int) =~= Seq::<RecordVw>::empty());
        }
        Err(Error::NothingToRedo)
    }

    /// The newest `limit` records, ordered by id descending.
    pub fn fetch_actions(&self, limit: u64) -> (r: Vec<Action>)
        ensures
            r.deep_view() == actions_desc(self@.actions, limit),
    {
        let mut r: Vec<Action> = Vec::new();
        let ghost goal = actions_desc(self@.actions, limit);
        let mut i: usize = self.actions.len();
        let mut taken: u64 = 0;
        while i > 0 && taken < limit
            invariant
                goal == actions_desc(self@.actions, limit),
                i <= self.actions.len(),
                taken as int == self.actions@.len() - i,
                taken <= limit,
                r.deep_view().len() == taken as int,
                forall|k: int|
                    0 <= k < taken as int ==> #[trigger] r.deep_view()[k] == self@.actions[
                        self.actions@.len() - 1 - k],
            decreases i,
        {
            let ghost rprev = r.deep_view();
            r.push(self.actions[i - 1].duplicate());
            proof {
                assert forall|k: int| 0 <= k < taken as int + 1 implies #[trigger] r.deep_view()[k]
                    == self@.actions[self.actions@.len() - 1 - k] by {
                    if k < rprev.len() {
                        assert(r.deep_view()[k] == rprev[k]);
                    }
                }
            }
            i = i - 1;
            taken = taken + 1;
        }
        proof {
            assert(r.deep_view() =~= goal);
        }
        r
    }

    /// Deletes every ledger record and reports how many there were.
    pub fn delete_all(&mut self) -> (r: i64)
        requires
            old(self).wf(),
            old(self)@.actions.len() <= i64::MAX,
        ensures
            r as int == old(self)@.actions.len(),
            final(self)@.actions.len() == 0,
            final(self)@.tasks == old(self)@.tasks,
            final(self)@.links == old(self)@.links,
            final(self).wf(),
    {
        let n = self.actions.len() as i64;
        self.actions = Vec::new();
        proof {
            assert(self@.actions =~= Seq::<RecordVw>::empty());
        }
        n
    }
}

} // verus!
