use vstd::prelude::*;

verus! {

/// One immutable ownership-transfer fact: who moved ownership, to whom,
/// of which community, and when.  Every field is mandatory by
/// construction, so no malformed record can be built.
#[derive(Clone, Copy, Debug, PartialEq, Eq, Structural)]
pub struct AuditRecord {
    pub actor_person_id: u64,
    pub subject_person_id: u64,
    pub community_id: u64,
    pub removed: bool,
    pub timestamp: u64,
}

/// Append-only log of ownership-transfer events.  Records are never
/// mutated or deleted, and duplicates are valid history.
pub struct AuditLog {
    records: Vec<AuditRecord>,
}

impl View for AuditLog {
    type V = Seq<AuditRecord>;

    closed spec fn view(&self) -> Seq<AuditRecord> {
        self.records@
    }
}

impl AuditLog {
    /// An empty log.
    pub fn new() -> (log: AuditLog)
        ensures
            log@ == Seq::<AuditRecord>::empty(),
    {
        AuditLog { records: Vec::new() }
    }

    /// Appends one record; always succeeds, duplicates included.
    pub fn append(&mut self, record: AuditRecord)
        ensures
            final(self)@ == old(self)@.push(record),
    {
        self.records.push(record);
    }

    /// How many records the log holds.
    pub fn len(&self) -> (n: usize)
        ensures
            n == self@.len(),
    {
        self.records.len()
    }

    /// Reads one record.
    pub fn get(&self, i: usize) -> (record: AuditRecord)
        requires
            i < self@.len(),
        ensures
            record == self@[i as int],
    {
        self.records[i]
    }
}

} // verus!
