use vstd::prelude::*;
use crate::errors::TransferError;
use crate::roster::unique_seq;

verus! {

/// One persisted moderator-membership row.  The rank is stored as an
/// explicit integer, never re-derived from physical insertion order.
#[derive(Clone, Copy, Debug, PartialEq, Eq, Structural)]
pub struct MembershipRow {
    pub community_id: u64,
    pub person_id: u64,
    pub rank: usize,
}

/// The person ids of a row sequence, in row order.
pub open spec fn persons_of(rows: Seq<MembershipRow>) -> Seq<u64> {
    rows.map_values(|r: MembershipRow| r.person_id)
}

/// All rows one community owns, kept in rank order.
struct CommunityRoster {
    community_id: u64,
    rows: Vec<MembershipRow>,
}

impl CommunityRoster {
    /// Rows carry their own community id, their rank equals their
    /// position, and no person appears twice.
    spec fn wf(self) -> bool {
        &&& forall|i: int|
            0 <= i < self.rows@.len() ==> {
                &&& (#[trigger] self.rows@[i]).community_id == self.community_id
                &&& self.rows@[i].rank as int == i
            }
        &&& unique_seq(persons_of(self.rows@))
    }
}

/// The map a sequence of community entries denotes; the first entry for a
/// community id decides its roster.
spec fn entries_map(s: Seq<CommunityRoster>) -> Map<u64, Seq<u64>>
    decreases s.len(),
{
    if s.len() == 0 {
        Map::empty()
    } else {
        entries_map(s.drop_first()).insert(s[0].community_id, persons_of(s[0].rows@))
    }
}

/// Updating the first entry of a community id updates exactly that
/// community's roster in the denoted map.
proof fn lemma_entries_map_update(s: Seq<CommunityRoster>, i: int, e: CommunityRoster)
    requires
        0 <= i < s.len(),
        e.community_id == s[i].community_id,
        forall|j: int| 0 <= j < i ==> s[j].community_id != s[i].community_id,
    ensures
        entries_map(s.update(i, e)) == entries_map(s).insert(
            e.community_id,
            persons_of(e.rows@),
        ),
    decreases i,
{
    let cid = e.community_id;
    if i == 0 {
        assert(s.update(0, e).drop_first() =~= s.drop_first());
        assert(s.update(0, e)[0] == e);
        assert(entries_map(s.drop_first()).insert(cid, persons_of(s[0].rows@)).insert(
            cid,
            persons_of(e.rows@),
        ) =~= entries_map(s.drop_first()).insert(cid, persons_of(e.rows@)));
    } else {
        assert(s.update(i, e).drop_first() =~= s.drop_first().update(i - 1, e));
        assert(s.drop_first()[i - 1] == s[i]);
        assert forall|j: int| 0 <= j < i - 1 implies (#[trigger] s.drop_first()[j]).community_id
            != s.drop_first()[i - 1].community_id by {
            assert(s.drop_first()[j] == s[j + 1]);
        }
        lemma_entries_map_update(s.drop_first(), i - 1, e);
        let m = entries_map(s.drop_first());
        let k0 = s[0].community_id;
        let v0 = persons_of(s[0].rows@);
        assert(k0 != cid);
        assert(m.insert(cid, persons_of(e.rows@)).insert(k0, v0) =~= m.insert(k0, v0).insert(
            cid,
            persons_of(e.rows@),
        ));
    }
}

/// In-memory system of record for moderator rosters, viewed as a map from
/// community id to that community's ordered person ids.
pub struct RosterStore {
    entries: Vec<CommunityRoster>,
}

impl View for RosterStore {
    type V = Map<u64, Seq<u64>>;

    closed spec fn view(&self) -> Map<u64, Seq<u64>> {
        entries_map(self.entries@)
    }
}

impl RosterStore {
    /// Every roster the store holds is well formed: rows carry their own
    /// community id, ranks equal positions, and no person appears twice
    /// within one community's roster.
    pub closed spec fn wf(self) -> bool {
        forall|k: int| 0 <= k < self.entries@.len() ==> (#[trigger] self.entries@[k]).wf()
    }

    /// An empty store: no communities at all.
    pub fn new() -> (store: RosterStore)
        ensures
            store.wf(),
            store@ == Map::<u64, Seq<u64>>::empty(),
    {
        RosterStore { entries: Vec::new() }
    }

    /// The position of the first entry for `community_id`, with what the
    /// store's view says about it.
    fn find_community(&self, community_id: u64) -> (r: Option<usize>)
        ensures
            r matches Some(i) ==> {
                &&& i < self.entries@.len()
                &&& self.entries@[i as int].community_id == community_id
                &&& forall|j: int| 0 <= j < i ==> self.entries@[j].community_id != community_id
                &&& self@.contains_key(community_id)
                &&& self@[community_id] == persons_of(self.entries@[i as int].rows@)
            },
            r is None ==> !self@.contains_key(community_id),
    {
        let n = self.entries.len();
        proof {
            assert(self.entries@.skip(0) =~= self.entries@);
        }
        let mut i: usize = 0;
        while i < n
            invariant
                n == self.entries@.len(),
                i <= n,
                forall|j: int| 0 <= j < i ==> self.entries@[j].community_id != community_id,
                entries_map(self.entries@).contains_key(community_id) == entries_map(
                    self.entries@.skip(i as int),
                ).contains_key(community_id),
                entries_map(self.entries@).contains_key(community_id) ==> entries_map(
                    self.entries@,
                )[community_id] == entries_map(self.entries@.skip(i as int))[community_id],
            decreases n - i,
        {
            proof {
                let sk = self.entries@.skip(i as int);
                assert(sk[0] == self.entries@[i as int]);
                assert(sk.drop_first() =~= self.entries@.skip(i as int + 1));
            }
            if self.entries[i].community_id == community_id {
                return Some(i);
            }
            i += 1;
        }
        proof {
            assert(self.entries@.skip(n as int) =~= Seq::<CommunityRoster>::empty());
        }
        None
    }

    /// Registers a community with an empty roster; a no-op when it
    /// already exists.
    pub fn create_community(&mut self, community_id: u64) -> (created: bool)
        requires
            old(self).wf(),
        ensures
            final(self).wf(),
            created == !old(self)@.contains_key(community_id),
            created ==> final(self)@ == old(self)@.insert(community_id, Seq::<u64>::empty()),
            !created ==> final(self)@ == old(self)@,
    {
        match self.find_community(community_id) {
            Some(_) => false,
            None => {
                let entry = CommunityRoster { community_id, rows: Vec::new() };
                self.entries.insert(0, entry);
                proof {
                    assert(self.entries@.drop_first() =~= old(self).entries@);
                    assert(self.entries@[0] == entry);
                    assert(persons_of(entry.rows@) =~= Seq::<u64>::empty());
                    assert(entry.wf());
                    assert forall|k: int|
                        0 <= k < self.entries@.len() implies (#[trigger] self.entries@[k]).wf() by {
                        if k > 0 {
                            assert(self.entries@[k] == old(self).entries@[k - 1]);
                        }
                    }
                }
                true
            },
        }
    }

    /// Reads the ordered membership rows for a community: `NotFound`
    /// exactly when the community does not exist, which is distinct from
    /// an existing community with an empty roster.
    pub fn list_for_community(&self, community_id: u64) -> (r: Result<
        Vec<MembershipRow>,
        TransferError,
    >)
        requires
            self.wf(),
        ensures
            (r is Ok) <==> self@.contains_key(community_id),
            r matches Ok(rows) ==> {
                &&& rows@.len() == self@[community_id].len()
                &&& forall|i: int|
                    0 <= i < rows@.len() ==> (#[trigger] rows@[i]) == (MembershipRow {
                        community_id,
                        person_id: self@[community_id][i],
                        rank: i as usize,
                    })
                &&& unique_seq(self@[community_id])
            },
            r matches Err(e) ==> e == TransferError::NotFound,
    {
        match self.find_community(community_id) {
            None => Err(TransferError::NotFound),
            Some(i) => {
                let m = self.entries[i].rows.len();
                let mut rows: Vec<MembershipRow> = Vec::new();
                let mut k: usize = 0;
                while k < m
                    invariant
                        self.wf(),
                        i < self.entries@.len(),
                        m == self.entries@[i as int].rows@.len(),
                        k <= m,
                        rows@ == self.entries@[i as int].rows@.take(k as int),
                    decreases m - k,
                {
                    rows.push(self.entries[i].rows[k]);
                    proof {
                        let all = self.entries@[i as int].rows@;
                        assert(all.take(k as int).push(all[k as int]) =~= all.take(k as int + 1));
                    }
                    k += 1;
                }
                proof {
                    let entry = self.entries@[i as int];
                    assert(entry.wf());
                    assert(rows@ =~= entry.rows@);
                    assert forall|j: int| 0 <= j < rows@.len() implies (#[trigger] rows@[j])
                        == (MembershipRow {
                        community_id,
                        person_id: self@[community_id][j],
                        rank: j as usize,
                    }) by {
                        assert(persons_of(entry.rows@)[j] == entry.rows@[j].person_id);
                    }
                }
                Ok(rows)
            },
        }
    }

    /// Empties a community's roster, returning how many rows were
    /// deleted.  Idempotent: an already-empty roster yields `Ok(0)`.
    pub fn delete_all_for_community(&mut self, community_id: u64) -> (r: Result<
        usize,
        TransferError,
    >)
        requires
            old(self).wf(),
        ensures
            final(self).wf(),
            (r is Ok) <==> old(self)@.contains_key(community_id),
            r matches Ok(count) ==> {
                &&& final(self)@ == old(self)@.insert(community_id, Seq::<u64>::empty())
                &&& count as int == old(self)@[community_id].len()
            },
            r is Err ==> final(self)@ == old(self)@,
            r matches Err(e) ==> e == TransferError::NotFound,
    {
        match self.find_community(community_id) {
            None => Err(TransferError::NotFound),
            Some(i) => {
                let mut entry = self.entries.remove(i);
                let count = entry.rows.len();
                entry.rows = Vec::new();
                self.entries.insert(i, entry);
                proof {
                    let updated = old(self).entries@.update(i as int, entry);
                    assert(self.entries@ =~= updated);
                    lemma_entries_map_update(old(self).entries@, i as int, entry);
                    assert(persons_of(entry.rows@) =~= Seq::<u64>::empty());
                    assert(entry.wf());
                    assert forall|k: int|
                        0 <= k < self.entries@.len() implies (#[trigger] self.entries@[k]).wf() by {
                        if k != i as int {
                            assert(self.entries@[k] == old(self).entries@[k]);
                        }
                    }
                    let old_entry = old(self).entries@[i as int];
                    assert(old(self)@[community_id] == persons_of(old_entry.rows@));
                }
                Ok(count)
            },
        }
    }

    /// Inserts one membership row at the end of its community's roster.
    /// The row must carry the next free rank.  An unknown community gives
    /// `NotFound`, an already-present person `DuplicateMembership`, and a
    /// rank that does not equal the current roster length `Internal`.
    #[verifier::loop_isolation(false)]
    pub fn insert(&mut self, row: MembershipRow) -> (r: Result<(), TransferError>)
        requires
            old(self).wf(),
        ensures
            final(self).wf(),
            (r is Ok) <==> {
                &&& old(self)@.contains_key(row.community_id)
                &&& !old(self)@[row.community_id].contains(row.person_id)
                &&& row.rank as int == old(self)@[row.community_id].len()
            },
            r is Ok ==> final(self)@ == old(self)@.insert(
                row.community_id,
                old(self)@[row.community_id].push(row.person_id),
            ),
            r is Err ==> final(self)@ == old(self)@,
            !old(self)@.contains_key(row.community_id) ==> r == Err::<(), TransferError>(
                TransferError::NotFound,
            ),
            old(self)@.contains_key(row.community_id) && old(self)@[row.community_id].contains(
                row.person_id,
            ) ==> r == Err::<(), TransferError>(TransferError::DuplicateMembership),
            old(self)@.contains_key(row.community_id) && !old(self)@[row.community_id].contains(
                row.person_id,
            ) && row.rank as int != old(self)@[row.community_id].len() ==> r == Err::<
                (),
                TransferError,
            >(TransferError::Internal),
    {
        match self.find_community(row.community_id) {
            None => Err(TransferError::NotFound),
            Some(i) => {
                let m = self.entries[i].rows.len();
                let mut k: usize = 0;
                while k < m
                    invariant
                        self.wf(),
                        i < self.entries@.len(),
                        m == self.entries@[i as int].rows@.len(),
                        k <= m,
                        forall|j: int|
                            0 <= j < k ==> self.entries@[i as int].rows@[j].person_id
                                != row.person_id,
                    decreases m - k,
                {
                    if self.entries[i].rows[k].person_id == row.person_id {
                        proof {
                            let entry = self.entries@[i as int];
                            assert(persons_of(entry.rows@)[k as int] == row.person_id);
                            assert(self@[row.community_id].contains(row.person_id));
                        }
                        return Err(TransferError::DuplicateMembership);
                    }
                    k += 1;
                }
                proof {
                    let entry = self.entries@[i as int];
                    assert forall|j: int|
                        0 <= j < persons_of(entry.rows@).len() implies persons_of(entry.rows@)[j]
                        != row.person_id by {
                        assert(persons_of(entry.rows@)[j] == entry.rows@[j].person_id);
                    }
                    assert(!self@[row.community_id].contains(row.person_id));
                }
                if row.rank != m {
                    return Err(TransferError::Internal);
                }
                let mut entry = self.entries.remove(i);
                entry.rows.push(row);
                self.entries.insert(i, entry);
                proof {
                    let old_entry = old(self).entries@[i as int];
                    let updated = old(self).entries@.update(i as int, entry);
                    assert(self.entries@ =~= updated);
                    assert(entry.rows@ == old_entry.rows@.push(row));
                    lemma_entries_map_update(old(self).entries@, i as int, entry);
                    assert(persons_of(entry.rows@) =~= persons_of(old_entry.rows@).push(
                        row.person_id,
                    ));
                    assert(entry.wf()) by {
                        let ps = persons_of(entry.rows@);
                        assert(old_entry.wf());
                        assert forall|p: int, q: int| 0 <= p < q < ps.len() implies ps[p] != ps[q]
                            by {
                            assert(ps[p] == entry.rows@[p].person_id);
                            assert(ps[q] == entry.rows@[q].person_id);
                            if q < ps.len() - 1 {
                                assert(persons_of(old_entry.rows@)[p] == old_entry.rows@[
                                p].person_id);
                                assert(persons_of(old_entry.rows@)[q] == old_entry.rows@[
                                q].person_id);
                            } else {
                                assert(persons_of(old_entry.rows@)[p] == old_entry.rows@[
                                p].person_id);
                                assert(!persons_of(old_entry.rows@).contains(row.person_id));
                            }
                        }
                    }
                    assert forall|k2: int|
                        0 <= k2 < self.entries@.len() implies (#[trigger] self.entries@[k2]).wf()
                        by {
                        if k2 != i as int {
                            assert(self.entries@[k2] == old(self).entries@[k2]);
                        }
                    }
                    assert(old(self)@[row.community_id] == persons_of(old_entry.rows@));
                }
                Ok(())
            },
        }
    }
}

} // verus!
