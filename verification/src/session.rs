//! The session store model: opaque session records keyed by id, saved by
//! upsert, loaded only while unexpired, deleted by id.

use vstd::prelude::*;
use crate::strutil::str_eq_string;

verus! {

/// One persisted session: an id, the serialized data blob, and the expiry
/// instant as a Unix timestamp.
pub struct SessionRecord {
    pub id: String,
    pub data: String,
    pub expiry_unix: i64,
}

/// The session table.
pub struct SessionTable {
    pub records: Vec<SessionRecord>,
}

/// Session ids are unique.
pub open spec fn wf_session_ids(records: Seq<SessionRecord>) -> bool {
    forall|i: int, j: int|
        0 <= i < j < records.len() ==> #[trigger] records[i].id@ != #[trigger] records[j].id@
}

/// Whether a record with this id exists.
pub open spec fn has_session(records: Seq<SessionRecord>, id: Seq<char>) -> bool {
    exists|i: int| 0 <= i < records.len() && #[trigger] records[i].id@ == id
}

/// Whether this exact record stands somewhere in the table.
pub open spec fn appears_in(records: Seq<SessionRecord>, rec: SessionRecord) -> bool {
    exists|j: int| 0 <= j < records.len() && #[trigger] records[j] == rec
}

/// Whether `rec` already stood in `records` under an id other than `id`.
pub open spec fn record_survives_delete(
    records: Seq<SessionRecord>,
    rec: SessionRecord,
    id: Seq<char>,
) -> bool {
    exists|j: int| 0 <= j < records.len() && #[trigger] records[j] == rec && rec.id@ != id
}

impl SessionTable {
    pub open spec fn wf(self) -> bool {
        wf_session_ids(self.records@)
    }

    /// The empty store.
    pub fn new() -> (r: SessionTable)
        ensures
            r.wf(),
            r.records@.len() == 0,
    {
        SessionTable { records: Vec::new() }
    }

    fn find_index(&self, id: &str) -> (r: Option<usize>)
        ensures
            match r {
                Some(i) => i < self.records@.len() && self.records@[i as int].id@ == id@,
                None => !has_session(self.records@, id@),
            },
    {
        let n: usize = self.records.len();
        let mut i: usize = 0;
        while i < n
            invariant
                n == self.records@.len(),
                i <= n,
                forall|j: int| 0 <= j < i ==> #[trigger] self.records@[j].id@ != id@,
            decreases n - i,
        {
            if str_eq_string(id, &self.records[i].id) {
                return Some(i);
            }
            i = i + 1;
        }
        None
    }

    /// Saves a record: an upsert on its id.
    pub fn save(&mut self, record: SessionRecord)
        requires
            old(self).wf(),
        ensures
            final(self).wf(),
            has_session(final(self).records@, record.id@),
            // the record under that id is now exactly this one
            forall|i: int|
                0 <= i < final(self).records@.len() && #[trigger] final(self).records@[i].id@ == record.id@ ==> final(self).records@[i] == record,
            // every other id maps to what it mapped to before
            forall|i: int|
                0 <= i < final(self).records@.len() && #[trigger] final(self).records@[i].id@
                    != record.id@ ==> appears_in(old(self).records@, final(self).records@[i]),
            forall|j: int|
                0 <= j < old(self).records@.len() && #[trigger] old(self).records@[j].id@
                    != record.id@ ==> appears_in(final(self).records@, old(self).records@[j]),
    {
        let ghost pre = self.records@;
        match self.find_index(record.id.as_str()) {
            Some(i) => {
                self.records[i] = record;
                proof {
                    let cur = self.records@;
                    assert(cur[i as int] == record);
                    assert(cur[i as int].id@ == record.id@);
                    assert forall|a: int, b: int| 0 <= a < b < cur.len() implies
                        #[trigger] cur[a].id@ != #[trigger] cur[b].id@ by {
                        assert(cur[a].id@ == pre[a].id@ && cur[b].id@ == pre[b].id@);
                    }
                    assert forall|a: int|
                        0 <= a < cur.len() && #[trigger] cur[a].id@ == record.id@ implies cur[a]
                        == record by {
                        if a != i as int {
                            assert(cur[a] == pre[a]);
                            assert(pre[a].id@ == pre[i as int].id@);
                            assert(false);
                        }
                    }
                    assert forall|a: int|
                        0 <= a < cur.len() && #[trigger] cur[a].id@ != record.id@ implies
                        appears_in(pre, cur[a]) by {
                        assert(a != i as int);
                        assert(pre[a] == cur[a]);
                    }
                    assert forall|j: int|
                        0 <= j < pre.len() && #[trigger] pre[j].id@ != record.id@ implies
                        appears_in(cur, pre[j]) by {
                        assert(j != i as int);
                        assert(cur[j] == pre[j]);
                    }
                }
            },
            None => {
                self.records.push(record);
                proof {
                    let cur = self.records@;
                    assert(cur[cur.len() - 1] == record);
                    assert(cur[cur.len() - 1].id@ == record.id@);
                    assert forall|a: int, b: int| 0 <= a < b < cur.len() implies
                        #[trigger] cur[a].id@ != #[trigger] cur[b].id@ by {
                        if b < pre.len() {
                            assert(cur[a] == pre[a] && cur[b] == pre[b]);
                        } else {
                            assert(cur[a] == pre[a]);
                            assert(!has_session(pre, record.id@));
                            if pre[a].id@ == record.id@ {
                                assert(has_session(pre, record.id@));
                            }
                        }
                    }
                    assert forall|a: int|
                        0 <= a < cur.len() && #[trigger] cur[a].id@ == record.id@ implies cur[a]
                        == record by {
                        if a < pre.len() {
                            assert(cur[a] == pre[a]);
                            assert(has_session(pre, record.id@));
                            assert(false);
                        }
                    }
                    assert forall|a: int|
                        0 <= a < cur.len() && #[trigger] cur[a].id@ != record.id@ implies
                        appears_in(pre, cur[a]) by {
                        assert(a < pre.len());
                        assert(pre[a] == cur[a]);
                    }
                    assert forall|j: int|
                        0 <= j < pre.len() && #[trigger] pre[j].id@ != record.id@ implies
                        appears_in(cur, pre[j]) by {
                        assert(cur[j] == pre[j]);
                    }
                }
            },
        }
    }

    /// Loads the record under an id, invisible once expired: nothing comes
    /// back when the stored expiry lies before `now`. Expired records are
    /// not purged, only hidden.
    pub fn load(&self, id: &str, now: i64) -> (r: Option<&SessionRecord>)
        requires
            self.wf(),
        ensures
            match r {
                Some(rec) => exists|i: int|
                    0 <= i < self.records@.len() && #[trigger] self.records@[i] == *rec
                        && rec.id@ == id@ && rec.expiry_unix >= now,
                None => !exists|i: int|
                    0 <= i < self.records@.len() && #[trigger] self.records@[i].id@ == id@
                        && self.records@[i].expiry_unix >= now,
            },
    {
        match self.find_index(id) {
            Some(i) => {
                let rec = &self.records[i];
                if rec.expiry_unix < now {
                    proof {
                        assert forall|j: int|
                            0 <= j < self.records@.len() && #[trigger] self.records@[j].id@
                                == id@ implies !(self.records@[j].expiry_unix >= now) by {
                            if j != i as int {
                                assert(self.records@[j].id@ == self.records@[i as int].id@);
                                assert(false);
                            }
                        }
                    }
                    None
                } else {
                    Some(rec)
                }
            },
            None => None,
        }
    }

    /// Deletes the record under an id; deleting an absent id is harmless.
    pub fn delete(&mut self, id: &str)
        requires
            old(self).wf(),
        ensures
            final(self).wf(),
            !has_session(final(self).records@, id@),
            forall|j: int|
                0 <= j < old(self).records@.len() && #[trigger] old(self).records@[j].id@ != id@
                    ==> appears_in(final(self).records@, old(self).records@[j]),
            forall|i: int|
                0 <= i < final(self).records@.len() ==> record_survives_delete(
                    old(self).records@,
                    #[trigger] final(self).records@[i],
                    id@,
                ),
    {
        let ghost pre = self.records@;
        match self.find_index(id) {
            Some(i) => {
                self.records.remove(i);
                proof {
                    pre.remove_ensures(i as int);
                    let cur = self.records@;
                    assert forall|a: int, b: int| 0 <= a < b < cur.len() implies
                        #[trigger] cur[a].id@ != #[trigger] cur[b].id@ by {
                        let oa = if a < i as int {
                            a
                        } else {
                            a + 1
                        };
                        let ob = if b < i as int {
                            b
                        } else {
                            b + 1
                        };
                        assert(cur[a] == pre.remove(i as int)[a]);
                        assert(cur[b] == pre.remove(i as int)[b]);
                        assert(cur[a] == pre[oa] && cur[b] == pre[ob]);
                    }
                    assert(!has_session(cur, id@)) by {
                        if has_session(cur, id@) {
                            let a = choose|a: int|
                                0 <= a < cur.len() && #[trigger] cur[a].id@ == id@;
                            let oa = if a < i as int {
                                a
                            } else {
                                a + 1
                            };
                            assert(cur[a] == pre.remove(i as int)[a]);
                            assert(cur[a] == pre[oa]);
                            assert(oa != i as int);
                            if oa < i as int {
                                assert(pre[oa].id@ != pre[i as int].id@);
                            } else {
                                assert(pre[i as int].id@ != pre[oa].id@);
                            }
                        }
                    }
                    assert forall|j: int|
                        0 <= j < pre.len() && #[trigger] pre[j].id@ != id@ implies appears_in(
                        cur,
                        pre[j],
                    ) by {
                        assert(j != i as int);
                        if j < i as int {
                            assert(cur[j] == pre.remove(i as int)[j]);
                            assert(cur[j] == pre[j]);
                        } else {
                            assert(cur[j - 1] == pre.remove(i as int)[j - 1]);
                            assert(cur[j - 1] == pre[j]);
                        }
                    }
                    assert forall|a: int| 0 <= a < cur.len() implies record_survives_delete(
                        pre,
                        cur[a],
                        id@,
                    ) by {
                        let oa = if a < i as int {
                            a
                        } else {
                            a + 1
                        };
                        assert(cur[a] == pre.remove(i as int)[a]);
                        assert(cur[a] == pre[oa]);
                        assert(oa != i as int);
                        if oa < i as int {
                            assert(pre[oa].id@ != pre[i as int].id@);
                        } else {
                            assert(pre[i as int].id@ != pre[oa].id@);
                        }
                    }
                }
            },
            None => {},
        }
    }
}

} // verus!
