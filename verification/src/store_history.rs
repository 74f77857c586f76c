//! What has changed of late: the status log read backwards.

use crate::entities::{Place, PlaceView, Timestamp};
use crate::store::{
    entry_known, PlaceRevision, PlaceRevisionView, StatusLogEntryView, Store, StoreView,
};
use crate::store_places::{lemma_record_of, record_of};
use vstd::prelude::*;

verus! {

/// The span of time of which changes are wanted: from `since` on, and
/// before `until`, as far as the two are given.
#[derive(Clone, Copy, Debug, PartialEq, Eq, Structural)]
pub struct RecentlyChangedEntriesParams {
    pub since: Option<Timestamp>,
    pub until: Option<Timestamp>,
}

/// The part of a list that is wanted: `limit` items at most, after the
/// first `offset` ones.
#[derive(Clone, Copy, Debug, PartialEq, Eq, Structural)]
pub struct Pagination {
    pub offset: Option<u64>,
    pub limit: Option<u64>,
}

/// Whether a change lies in the span of time.
pub open spec fn in_window(entry: StatusLogEntryView, params: RecentlyChangedEntriesParams) -> bool {
    &&& params.since matches Some(since) ==> entry.activity.at >= since
    &&& params.until matches Some(until) ==> entry.activity.at < until
}

/// Whether the change at `a` of the status log is listed before the one at
/// `b`: the later change comes first, and of two changes of the same time
/// the one that was written first.
pub open spec fn listed_before(log: Seq<StatusLogEntryView>, a: int, b: int) -> bool {
    log[a].activity.at > log[b].activity.at || (log[a].activity.at == log[b].activity.at && a < b)
}

/// Whether `order` lists the changes of the span of time, each once, the
/// latest first.
pub open spec fn is_change_order(
    log: Seq<StatusLogEntryView>,
    params: RecentlyChangedEntriesParams,
    order: Seq<int>,
) -> bool {
    &&& forall|k: int|
        0 <= k < order.len() ==> 0 <= (#[trigger] order[k]) < log.len() && in_window(
            log[order[k]],
            params,
        )
    &&& forall|n: int|
        0 <= n < log.len() && in_window(#[trigger] log[n], params) ==> order.contains(n)
    &&& forall|p: int, q: int|
        0 <= p < q < order.len() ==> listed_before(log, #[trigger] order[p], #[trigger] order[q])
}

/// How many items of a list a page holds.
pub open spec fn page_len(len: nat, pagination: Pagination) -> nat {
    let offset = match pagination.offset {
        Some(offset) => offset as nat,
        None => 0,
    };
    let rest = if offset < len {
        (len - offset) as nat
    } else {
        0
    };
    match pagination.limit {
        Some(limit) if limit < rest => limit as nat,
        _ => rest,
    }
}

/// Where in a list a page begins.
pub open spec fn page_start(pagination: Pagination) -> nat {
    match pagination.offset {
        Some(offset) => offset as nat,
        None => 0,
    }
}

/// What is reported of a change: the revision whose status was changed,
/// with the status that it got, and with the time and the user of the
/// change in the stead of those of its creation.
pub open spec fn changed_revision(store: StoreView, n: int) -> PlaceRevisionView {
    let entry = store.status_log[n];
    let revision = record_of(store.places, entry.place_uid).revisions[entry.rev as int];
    PlaceRevisionView {
        place: PlaceView { created: entry.activity, ..revision.place },
        status: entry.status,
    }
}

impl Store {
    /// The places in the status log that lie in the span of time, the
    /// latest change first.
    fn change_order(&self, params: &RecentlyChangedEntriesParams) -> (order: Vec<usize>)
        ensures
            is_change_order(self@.status_log, *params, order@.map_values(|n: usize| n as int)),
    {
        let ghost log = self@.status_log;
        let mut order: Vec<usize> = Vec::new();
        let mut i: usize = 0;
        while i < self.status_log.len()
            invariant
                i <= self.status_log.len(),
                log == self@.status_log,
                forall|k: int|
                    0 <= k < order.len() ==> (#[trigger] order[k]) < i && in_window(
                        log[order[k] as int],
                        *params,
                    ),
                forall|n: int|
                    0 <= n < i && in_window(#[trigger] log[n], *params) ==> order@.contains(
                        n as usize,
                    ),
                forall|p: int, q: int|
                    0 <= p < q < order.len() ==> listed_before(
                        log,
                        (#[trigger] order[p]) as int,
                        (#[trigger] order[q]) as int,
                    ),
            decreases self.status_log.len() - i,
        {
            proof {
                assert(log[i as int] == self.status_log[i as int]@);
            }
            let at = self.status_log[i].activity.at;
            let late_enough = match params.since {
                Some(since) => at >= since,
                None => true,
            };
            let early_enough = match params.until {
                Some(until) => at < until,
                None => true,
            };
            if late_enough && early_enough {
                let mut pos: usize = 0;
                while pos < order.len() && self.status_log[order[pos]].activity.at >= at
                    invariant
                        pos <= order.len(),
                        i < self.status_log.len(),
                        log == self@.status_log,
                        at == log[i as int].activity.at,
                        forall|k: int| 0 <= k < order.len() ==> (#[trigger] order[k]) < i,
                        forall|k: int|
                            0 <= k < pos ==> log[(#[trigger] order[k]) as int].activity.at >= at,
                    decreases order.len() - pos,
                {
                    proof {
                        assert(log[order[pos as int] as int]
                            == self.status_log[order[pos as int] as int]@);
                    }
                    pos += 1;
                }
                proof {
                    if pos < order.len() {
                        assert(log[order[pos as int] as int]
                            == self.status_log[order[pos as int] as int]@);
                    }
                }
                let ghost before = order@;
                order.insert(pos, i);
                proof {
                    let after = order@;
                    assert forall|p: int, q: int| 0 <= p < q < after.len() implies listed_before(
                        log,
                        (#[trigger] after[p]) as int,
                        (#[trigger] after[q]) as int,
                    ) by {
                        if q < pos {
                            assert(after[p] == before[p] && after[q] == before[q]);
                        } else if q == pos {
                            assert(after[p] == before[p]);
                        } else if p == pos {
                            assert(after[q] == before[q - 1]);
                            if pos < q - 1 {
                                assert(listed_before(
                                    log,
                                    before[pos as int] as int,
                                    before[q - 1] as int,
                                ));
                            }
                        } else if p < pos {
                            assert(after[p] == before[p] && after[q] == before[q - 1]);
                        } else {
                            assert(after[p] == before[p - 1] && after[q] == before[q - 1]);
                        }
                    }
                    assert forall|n: int| 0 <= n < i + 1 && in_window(
                        #[trigger] log[n],
                        *params,
                    ) implies after.contains(n as usize) by {
                        if n < i {
                            let k = choose|k: int| 0 <= k < before.len() && before[k] == n as usize;
                            if k < pos {
                                assert(after[k] == before[k]);
                            } else {
                                assert(after[k + 1] == before[k]);
                            }
                        } else {
                            assert(after[pos as int] == i);
                        }
                    }
                    assert forall|k: int| 0 <= k < after.len() implies (#[trigger] after[k]) < i + 1
                        && in_window(log[after[k] as int], *params) by {
                        if k < pos {
                            assert(after[k] == before[k]);
                        } else if k > pos {
                            assert(after[k] == before[k - 1]);
                        }
                    }
                }
            }
            i += 1;
        }
        proof {
            let ints = order@.map_values(|n: usize| n as int);
            assert forall|n: int| 0 <= n < log.len() && in_window(
                #[trigger] log[n],
                *params,
            ) implies ints.contains(n) by {
                let k = choose|k: int| 0 <= k < order.len() && order[k] == n as usize;
                assert(ints[k] == n);
            }
        }
        order
    }

    /// What is reported of the change at `n` of the status log.
    fn changed_revision_at(&self, n: usize) -> (r: PlaceRevision)
        requires
            self.wf(),
            n < self.status_log.len(),
        ensures
            r@ == changed_revision(self@, n as int),
    {
        let entry = &self.status_log[n];
        proof {
            assert(self@.status_log[n as int] == entry@);
            assert(entry_known(self@.places, self@.status_log[n as int]));
        }
        let i = match self.find_place(entry.place_uid.as_str()) {
            Some(i) => i,
            None => {
                proof {
                    assert(false);
                }
                0
            },
        };
        proof {
            lemma_record_of(self@.places, entry@.place_uid, i as int);
            let k = choose|k: int|
                0 <= k < self@.places.len() && (#[trigger] self@.places[k]).uid
                    == entry@.place_uid && entry@.rev <= self@.places[k].current_rev;
            lemma_record_of(self@.places, entry@.place_uid, k);
            assert(self@.places[i as int].wf());
            assert(self@.places[i as int] == self.places[i as int]@);
            assert(self.places[i as int]@.revisions.len() == self.places[i as int].revisions.len());
            assert(self@.places[i as int].revisions[entry.rev as int]
                == self.places[i as int].revisions[entry.rev as int]@);
        }
        let revision = &self.places[i].revisions[entry.rev as usize];
        let Place {
            uid,
            license,
            rev,
            created: _,
            title,
            description,
            location,
            contact,
            homepage,
            image_url,
            image_link_url,
            tags,
        } = revision.place.clone();
        PlaceRevision {
            place: Place {
                uid,
                license,
                rev,
                created: entry.activity.clone(),
                title,
                description,
                location,
                contact,
                homepage,
                image_url,
                image_link_url,
                tags,
            },
            status: entry.status,
        }
    }

    /// The changes of status in a span of time, the latest first, and of
    /// these one page. Each change is reported as the revision whose status
    /// was changed, with the status that it got and the time and the user
    /// of the change.
    pub fn recently_changed_places(
        &self,
        params: &RecentlyChangedEntriesParams,
        pagination: &Pagination,
    ) -> (out: Vec<PlaceRevision>)
        requires
            self.wf(),
        ensures
            exists|order: Seq<int>|
                {
                    &&& is_change_order(self@.status_log, *params, order)
                    &&& out.len() == page_len(order.len(), *pagination)
                    &&& forall|k: int|
                        0 <= k < out.len() ==> (#[trigger] out[k])@ == changed_revision(
                            self@,
                            order[page_start(*pagination) + k],
                        )
                },
    {
        let order = self.change_order(params);
        let ghost ints = order@.map_values(|n: usize| n as int);
        let offset: usize = match pagination.offset {
            Some(offset) => if offset < order.len() as u64 {
                offset as usize
            } else {
                order.len()
            },
            None => 0,
        };
        let rest = order.len() - offset;
        let count: usize = match pagination.limit {
            Some(limit) => if limit < rest as u64 {
                limit as usize
            } else {
                rest
            },
            None => rest,
        };
        assert(count == page_len(ints.len(), *pagination));
        let mut out: Vec<PlaceRevision> = Vec::new();
        let mut k: usize = 0;
        while k < count
            invariant
                k <= count,
                offset + count <= order.len(),
                self.wf(),
                ints == order@.map_values(|n: usize| n as int),
                is_change_order(self@.status_log, *params, ints),
                out.len() == k,
                forall|j: int|
                    0 <= j < k ==> (#[trigger] out[j])@ == changed_revision(
                        self@,
                        ints[offset + j],
                    ),
            decreases count - k,
        {
            proof {
                assert(ints[offset + k] == order[offset + k] as int);
            }
            let item = self.changed_revision_at(order[offset + k]);
            out.push(item);
            k += 1;
        }
        proof {
            if count > 0 {
                assert(page_start(*pagination) == offset);
            }
        }
        out
    }
}

} // verus!
