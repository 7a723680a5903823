//! Versioned capability vocabulary for external bearers and a deterministic
//! adapter registry.
use vstd::prelude::*;

use crate::text::{code_points, lemma_lex_lt_irreflexive, lemma_lex_lt_total, lemma_lex_lt_transitive, str_lt, text_lt};

verus! {

/// Adapter API version implemented by this crate.
pub const ADAPTER_API_VERSION: u32 = 1;

#[derive(Clone, Copy, Debug, PartialEq, Eq, Structural)]
pub enum AcknowledgementModel {
    Unacknowledged,
    Transport,
    Custody,
    Operator,
}

#[derive(Clone, Debug, PartialEq, Eq)]
pub struct AdapterCapability {
    pub adapter_id: String,
    pub api_version: u32,
    pub bearer: String,
    pub maximum_payload_bytes: usize,
    pub acknowledgement: AcknowledgementModel,
    pub can_transmit: bool,
}

/// The content of a capability record.
pub struct CapabilityView {
    pub adapter_id: Seq<char>,
    pub api_version: u32,
    pub bearer: Seq<char>,
    pub maximum_payload_bytes: usize,
    pub acknowledgement: AcknowledgementModel,
    pub can_transmit: bool,
}

impl View for AdapterCapability {
    type V = CapabilityView;

    open spec fn view(&self) -> CapabilityView {
        CapabilityView {
            adapter_id: self.adapter_id@,
            api_version: self.api_version,
            bearer: self.bearer@,
            maximum_payload_bytes: self.maximum_payload_bytes,
            acknowledgement: self.acknowledgement,
            can_transmit: self.can_transmit,
        }
    }
}

#[derive(Clone, Debug, PartialEq, Eq)]
pub enum AdapterError {
    Unavailable(String),
    InvalidRequest(String),
}

fn copy_capability(c: &AdapterCapability) -> (r: AdapterCapability)
    ensures
        r@ == c@,
{
    AdapterCapability {
        adapter_id: c.adapter_id.clone(),
        api_version: c.api_version,
        bearer: c.bearer.clone(),
        maximum_payload_bytes: c.maximum_payload_bytes,
        acknowledgement: c.acknowledgement,
        can_transmit: c.can_transmit,
    }
}

/// Capability records strictly ordered by adapter identifier.
pub open spec fn ordered_by_id(records: Seq<CapabilityView>) -> bool {
    forall|i: int, j: int| 0 <= i < j < records.len() ==> text_lt((#[trigger] records[i]).adapter_id, (#[trigger] records[j]).adapter_id)
}

/// The record with this identifier in a listing, if any.
pub open spec fn record_in(records: Seq<CapabilityView>, adapter_id: Seq<char>) -> Option<CapabilityView> {
    if exists|i: int| 0 <= i < records.len() && #[trigger] records[i].adapter_id == adapter_id {
        Some(records[choose|i: int| 0 <= i < records.len() && #[trigger] records[i].adapter_id == adapter_id])
    } else {
        None
    }
}

proof fn lemma_record_in_unique(records: Seq<CapabilityView>, i: int)
    requires
        ordered_by_id(records),
        0 <= i < records.len(),
    ensures
        record_in(records, records[i].adapter_id) == Some(records[i]),
{
    let id = records[i].adapter_id;
    let c = choose|k: int| 0 <= k < records.len() && #[trigger] records[k].adapter_id == id;
    if c != i {
        lemma_lex_lt_irreflexive(code_points(id));
        if c < i {
            assert(text_lt(records[c].adapter_id, records[i].adapter_id));
        } else {
            assert(text_lt(records[i].adapter_id, records[c].adapter_id));
        }
    }
}

/// Deterministic adapter registry: one capability per adapter identifier,
/// listed in identifier order.
#[derive(Debug)]
pub struct FakeAdapterSupervisor {
    adapters: Vec<AdapterCapability>,
}

impl FakeAdapterSupervisor {
    /// The records in listing order.
    pub closed spec fn records(&self) -> Seq<CapabilityView> {
        self.adapters@.map_values(|c: AdapterCapability| c@)
    }

    pub closed spec fn wf(&self) -> bool {
        ordered_by_id(self.records())
    }

    /// The record for an adapter identifier, if any.
    pub open spec fn record_for(&self, adapter_id: Seq<char>) -> Option<CapabilityView> {
        record_in(self.records(), adapter_id)
    }

    pub fn new() -> (r: Self)
        ensures
            r.wf(),
            r.records() == Seq::<CapabilityView>::empty(),
    {
        let r = FakeAdapterSupervisor { adapters: Vec::new() };
        assert(r.records() =~= Seq::<CapabilityView>::empty());
        r
    }

    /// Adds or replaces one adapter capability.
    pub fn upsert(&mut self, capability: AdapterCapability)
        requires
            old(self).wf(),
        ensures
            final(self).wf(),
            final(self).record_for(capability.adapter_id@) == Some(capability@),
            forall|id: Seq<char>| id != capability.adapter_id@ ==> #[trigger] final(self).record_for(id) == old(self).record_for(id),
    {
        let ghost before = self.records();
        let ghost id = capability.adapter_id@;
        let ghost cap = capability@;
        let mut p: usize = 0;
        while p < self.adapters.len() && str_lt(self.adapters[p].adapter_id.as_str(), capability.adapter_id.as_str())
            invariant
                p <= before.len(),
                before == self.records(),
                self.adapters@.len() == before.len(),
                id == capability.adapter_id@,
                forall|q: int| 0 <= q < p ==> text_lt(#[trigger] before[q].adapter_id, id),
            decreases before.len() - p,
        {
            assert(before[p as int] == self.adapters@[p as int]@);
            p = p + 1;
        }
        let replace = p < self.adapters.len() && self.adapters[p].adapter_id == capability.adapter_id;
        if replace {
            self.adapters.set(p, capability);
        } else {
            self.adapters.insert(p, capability);
        }
        proof {
            let after = self.records();
            if p < before.len() {
                assert(before[p as int] == old(self).adapters@[p as int]@);
            }
            if replace {
                assert(after =~= before.update(p as int, cap));
            } else {
                assert(after =~= before.take(p as int) + seq![cap] + before.skip(p as int));
                if p < before.len() {
                    lemma_lex_lt_total(code_points(id), code_points(before[p as int].adapter_id));
                    assert(code_points(id) != code_points(before[p as int].adapter_id)) by {
                        if code_points(id) == code_points(before[p as int].adapter_id) {
                            assert(id =~= before[p as int].adapter_id) by {
                                assert forall|k: int| 0 <= k < id.len() implies id[k] == before[p as int].adapter_id[k] by {
                                    assert(code_points(id)[k] == code_points(before[p as int].adapter_id)[k]);
                                }
                            }
                        }
                    }
                }
            }
            assert forall|i: int, j: int| 0 <= i < j < after.len() implies text_lt(
                (#[trigger] after[i]).adapter_id,
                (#[trigger] after[j]).adapter_id,
            ) by {
                if replace {
                    if i == p {
                        assert(after[j] == before[j]);
                        assert(text_lt(before[i].adapter_id, before[j].adapter_id));
                    } else if j == p {
                        assert(after[i] == before[i]);
                    } else {
                        assert(after[i] == before[i]);
                        assert(after[j] == before[j]);
                    }
                } else {
                    if j < p {
                        assert(after[i] == before[i] && after[j] == before[j]);
                    } else if j == p {
                        assert(after[i] == before[i]);
                    } else if i < p {
                        assert(after[i] == before[i] && after[j] == before[j - 1]);
                        if p < before.len() {
                            if j - 1 > p {
                                lemma_lex_lt_transitive(code_points(before[i].adapter_id), code_points(id), code_points(before[p as int].adapter_id));
                                lemma_lex_lt_transitive(code_points(before[i].adapter_id), code_points(before[p as int].adapter_id), code_points(before[j - 1].adapter_id));
                            } else {
                                lemma_lex_lt_transitive(code_points(before[i].adapter_id), code_points(id), code_points(before[p as int].adapter_id));
                            }
                        }
                    } else if i == p {
                        assert(after[j] == before[j - 1]);
                        if j - 1 > p {
                            lemma_lex_lt_transitive(code_points(id), code_points(before[p as int].adapter_id), code_points(before[j - 1].adapter_id));
                        }
                    } else {
                        assert(after[i] == before[i - 1] && after[j] == before[j - 1]);
                    }
                }
            }
            lemma_record_in_unique(after, p as int);
            assert forall|other: Seq<char>| other != id implies #[trigger] record_in(after, other) == record_in(before, other) by {
                if exists|i: int| 0 <= i < before.len() && #[trigger] before[i].adapter_id == other {
                    let i = choose|i: int| 0 <= i < before.len() && #[trigger] before[i].adapter_id == other;
                    lemma_record_in_unique(before, i);
                    let k = if replace || i < p { i } else { i + 1 };
                    assert(after[k] == before[i]);
                    lemma_record_in_unique(after, k);
                } else {
                    assert forall|k: int| 0 <= k < after.len() implies #[trigger] after[k].adapter_id != other by {
                        if replace {
                            if k != p {
                                assert(after[k] == before[k]);
                            }
                        } else if k < p {
                            assert(after[k] == before[k]);
                        } else if k > p {
                            assert(after[k] == before[k - 1]);
                        }
                    }
                }
            }
        }
    }

    /// Every registered capability, ordered by adapter identifier.
    pub fn capabilities(&self) -> (r: Result<Vec<AdapterCapability>, AdapterError>)
        requires
            self.wf(),
        ensures
            r matches Ok(list) && list@.map_values(|c: AdapterCapability| c@) == self.records(),
            ordered_by_id(self.records()),
    {
        let mut list: Vec<AdapterCapability> = Vec::new();
        let mut i: usize = 0;
        while i < self.adapters.len()
            invariant
                i <= self.adapters@.len(),
                list@.map_values(|c: AdapterCapability| c@) == self.records().take(i as int),
            decreases self.adapters@.len() - i,
        {
            let copy = copy_capability(&self.adapters[i]);
            assert(self.records()[i as int] == self.adapters@[i as int]@);
            let ghost before = list@;
            list.push(copy);
            assert(list@.map_values(|c: AdapterCapability| c@) =~= before.map_values(|c: AdapterCapability| c@).push(copy@));
            i = i + 1;
            assert(list@.map_values(|c: AdapterCapability| c@) =~= self.records().take(i as int));
        }
        assert(self.records().take(i as int) =~= self.records());
        Ok(list)
    }

    /// The capability of one adapter, or `Unavailable` naming it.
    pub fn capability(&self, adapter_id: &str) -> (r: Result<AdapterCapability, AdapterError>)
        requires
            self.wf(),
        ensures
            match self.record_for(adapter_id@) {
                Some(record) => r matches Ok(c) && c@ == record,
                None => r matches Err(AdapterError::Unavailable(name)) && name@ == adapter_id@,
            },
    {
        let key = String::from_str(adapter_id);
        let mut i: usize = 0;
        while i < self.adapters.len()
            invariant
                i <= self.adapters@.len(),
                key@ == adapter_id@,
                self.wf(),
                forall|k: int| 0 <= k < i ==> #[trigger] self.records()[k].adapter_id != adapter_id@,
            decreases self.adapters@.len() - i,
        {
            assert(self.records()[i as int] == self.adapters@[i as int]@);
            if self.adapters[i].adapter_id == key {
                proof {
                    lemma_record_in_unique(self.records(), i as int);
                }
                return Ok(copy_capability(&self.adapters[i]));
            }
            i = i + 1;
        }
        Err(AdapterError::Unavailable(key))
    }
}

impl Default for FakeAdapterSupervisor {
    fn default() -> (r: Self)
        ensures
            r.wf(),
            r.records() == Seq::<CapabilityView>::empty(),
    {
        FakeAdapterSupervisor::new()
    }
}

} // verus!
