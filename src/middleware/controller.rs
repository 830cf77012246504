//! The correlation store: in-flight requests by identifier, with the
//! overrides that application code set for them.
use vstd::prelude::*;
use crate::controller::{build_record, record_matches, ArchiveRecord};
use crate::generic_http::GenericRequest;
use crate::masking::Masking;
use crate::text::{chars_of, same_chars};
use crate::RequestConfig;
use super::messages::{ControllerMessage, MiddlewareMessage};
use super::request_id::RequestId;

verus! {

/// A request awaiting its response.
#[derive(Debug)]
pub struct CorrelationEntry {
    pub request: GenericRequest,
    pub masking: Option<Masking>,
    pub path_hint: Option<String>,
    pub customer_id: Option<String>,
    pub max_capture_size: Option<usize>,
}

/// Whether the identifiers of `entries` are pairwise distinct.
pub open spec fn keys_unique(entries: Seq<(RequestId, CorrelationEntry)>) -> bool {
    forall|i: int, j: int| 0 <= i < entries.len() && 0 <= j < entries.len() && i != j
        ==> (#[trigger] entries[i]).0.key() != (#[trigger] entries[j]).0.key()
}

/// Whether some entry has the identifier `key`.
pub open spec fn has_key(entries: Seq<(RequestId, CorrelationEntry)>, key: Seq<char>) -> bool {
    exists|i: int| 0 <= i < entries.len() && (#[trigger] entries[i]).0.key() == key
}

/// The entry of a request just captured: no override yet.
pub open spec fn fresh_entry(request: GenericRequest) -> CorrelationEntry {
    CorrelationEntry { request, masking: None, path_hint: None, customer_id: None, max_capture_size: None }
}

/// The entries once the capture of a request with identifier `id` arrived:
/// a fresh entry replaces one of the same identifier, or is appended.
pub open spec fn after_request(entries: Seq<(RequestId, CorrelationEntry)>, id: RequestId, request: GenericRequest) -> Seq<(RequestId, CorrelationEntry)> {
    if has_key(entries, id.key()) {
        let j = choose|j: int| 0 <= j < entries.len() && (#[trigger] entries[j]).0.key() == id.key();
        entries.update(j, (id, fresh_entry(request)))
    } else {
        entries.push((id, fresh_entry(request)))
    }
}

/// A request capture followed by the response capture of the same
/// identifier yields exactly one record: after the request an entry exists
/// for the identifier, so the response finds it; once the response removed
/// it, no later response of that identifier finds one. A response whose
/// identifier has no entry finds nothing.
pub proof fn lemma_correlation_lifecycle(entries: Seq<(RequestId, CorrelationEntry)>, id: RequestId, request: GenericRequest)
    requires
        keys_unique(entries),
    ensures
        has_key(after_request(entries, id, request), id.key()),
        keys_unique(after_request(entries, id, request)),
        forall|j: int| 0 <= j < after_request(entries, id, request).len()
            && (#[trigger] after_request(entries, id, request)[j]).0.key() == id.key()
            ==> !has_key(after_request(entries, id, request).remove(j), id.key()),
{
    let a = after_request(entries, id, request);
    if has_key(entries, id.key()) {
        let j = choose|j: int| 0 <= j < entries.len() && (#[trigger] entries[j]).0.key() == id.key();
        assert(a[j].0.key() == id.key());
    } else {
        assert(a[entries.len() as int].0.key() == id.key());
    }
    lemma_after_request_unique(entries, id, request);
    assert forall|j: int| 0 <= j < a.len() && (#[trigger] a[j]).0.key() == id.key() implies !has_key(a.remove(j), id.key()) by {
        lemma_remove_unique(a, j);
    }
}

proof fn lemma_after_request_unique(entries: Seq<(RequestId, CorrelationEntry)>, id: RequestId, request: GenericRequest)
    requires
        keys_unique(entries),
    ensures
        keys_unique(after_request(entries, id, request)),
{
    let a = after_request(entries, id, request);
    if has_key(entries, id.key()) {
        let j = choose|j: int| 0 <= j < entries.len() && (#[trigger] entries[j]).0.key() == id.key();
        assert forall|p: int, q: int| 0 <= p < a.len() && 0 <= q < a.len() && p != q implies (#[trigger] a[p]).0.key() != (#[trigger] a[q]).0.key() by {
            assert(entries[p].0.key() != entries[q].0.key());
        }
    } else {
        assert forall|p: int, q: int| 0 <= p < a.len() && 0 <= q < a.len() && p != q implies (#[trigger] a[p]).0.key() != (#[trigger] a[q]).0.key() by {
            if p < entries.len() && q < entries.len() {
                assert(entries[p].0.key() != entries[q].0.key());
            } else if p < entries.len() {
                assert(a[p] == entries[p]);
            } else {
                assert(a[q] == entries[q]);
            }
        }
    }
}

/// Removing the entry of a key leaves no entry of that key.
proof fn lemma_remove_unique(entries: Seq<(RequestId, CorrelationEntry)>, j: int)
    requires
        keys_unique(entries),
        0 <= j < entries.len(),
    ensures
        !has_key(entries.remove(j), entries[j].0.key()),
        keys_unique(entries.remove(j)),
{
    let r = entries.remove(j);
    assert forall|i: int| 0 <= i < r.len() implies (#[trigger] r[i]).0.key() != entries[j].0.key() by {
        if i < j {
            assert(r[i] == entries[i]);
        } else {
            assert(r[i] == entries[i + 1]);
        }
    }
    assert forall|p: int, q: int| 0 <= p < r.len() && 0 <= q < r.len() && p != q implies (#[trigger] r[p]).0.key() != (#[trigger] r[q]).0.key() by {
        let pp = if p < j { p } else { p + 1 };
        let qq = if q < j { q } else { q + 1 };
        assert(r[p] == entries[pp]);
        assert(r[q] == entries[qq]);
    }
}

/// The identifier that an override is for.
pub open spec fn override_target(m: ControllerMessage) -> RequestId {
    match m {
        ControllerMessage::SetMasking { request_id, .. } => request_id,
        ControllerMessage::SetPathHint { request_id, .. } => request_id,
        ControllerMessage::SetCustomerId { request_id, .. } => request_id,
        ControllerMessage::SetMaxCaptureSize { request_id, .. } => request_id,
    }
}

/// The entry once the override `m` is set on it.
pub open spec fn with_override(e: CorrelationEntry, m: ControllerMessage) -> CorrelationEntry {
    match m {
        ControllerMessage::SetMasking { masking, .. } => CorrelationEntry { masking: Some(masking), ..e },
        ControllerMessage::SetPathHint { path_hint, .. } => CorrelationEntry { path_hint: Some(path_hint), ..e },
        ControllerMessage::SetCustomerId { customer_id, .. } => CorrelationEntry { customer_id: Some(customer_id), ..e },
        ControllerMessage::SetMaxCaptureSize { capture_size, .. } => CorrelationEntry { max_capture_size: Some(capture_size), ..e },
    }
}

/// The correlation store, with the global policy and the identifiers of the
/// API.
#[derive(Debug)]
pub struct State {
    config: RequestConfig,
    masking: Masking,
    entries: Vec<(RequestId, CorrelationEntry)>,
}

/// The policy for an entry: its override, else the global one.
pub open spec fn effective_masking(entry: CorrelationEntry, global: Masking) -> Masking {
    match entry.masking {
        Some(m) => m,
        None => global,
    }
}

pub open spec fn entries_wf(entries: Seq<(RequestId, CorrelationEntry)>) -> bool {
    &&& keys_unique(entries)
    &&& forall|i: int| 0 <= i < entries.len() ==> ((#[trigger] entries[i]).1.masking matches Some(m) ==> m.wf())
}

impl State {
    pub closed spec fn entries(&self) -> Seq<(RequestId, CorrelationEntry)> {
        self.entries@
    }

    pub closed spec fn global_masking(&self) -> Masking {
        self.masking
    }

    pub closed spec fn config(&self) -> RequestConfig {
        self.config
    }

    pub open spec fn wf(&self) -> bool {
        &&& entries_wf(self.entries())
        &&& self.global_masking().wf()
    }

    /// An empty store.
    pub fn new(config: RequestConfig, masking: Masking) -> (r: State)
        requires
            masking.wf(),
        ensures
            r.wf(),
            r.entries().len() == 0,
            r.global_masking() == masking,
            r.config() == config,
    {
        State { config, masking, entries: Vec::new() }
    }

    fn position(&self, id: &RequestId) -> (r: Option<usize>)
        requires
            self.wf(),
        ensures
            r is None <==> !has_key(self.entries(), id.key()),
            r matches Some(j) ==> j < self.entries().len() && self.entries()[j as int].0.key() == id.key(),
    {
        let key = chars_of(id.as_str());
        let mut j: usize = 0;
        while j < self.entries.len()
            invariant
                j <= self.entries@.len(),
                key@ == id.key(),
                forall|i: int| 0 <= i < j ==> (#[trigger] self.entries@[i]).0.key() != key@,
            decreases self.entries@.len() - j,
        {
            let k = chars_of(self.entries[j].0.as_str());
            if same_chars(&k, &key) {
                return Some(j);
            }
            j = j + 1;
        }
        None
    }

    /// Takes one event. A request capture stores a fresh entry; a response
    /// capture removes the entry of its identifier and gives its record,
    /// built at `now_ms`, or gives nothing where no entry exists; an override
    /// updates the entry of its identifier, if any.
    pub fn handle_message(&mut self, msg: MiddlewareMessage, now_ms: i64) -> (r: Option<ArchiveRecord>)
        requires
            old(self).wf(),
            msg matches MiddlewareMessage::ControllerMessage(ControllerMessage::SetMasking { masking, .. }) ==> masking.wf(),
        ensures
            final(self).wf(),
            final(self).global_masking() == old(self).global_masking(),
            final(self).config() == old(self).config(),
            match msg {
                MiddlewareMessage::Request { request_id, request } => {
                    &&& r is None
                    &&& final(self).entries() == after_request(old(self).entries(), request_id, request)
                },
                MiddlewareMessage::Response { request_id, response } => {
                    &&& (r is Some <==> has_key(old(self).entries(), request_id.key()))
                    &&& (r is None ==> final(self).entries() == old(self).entries())
                    &&& (r matches Some(record) ==> exists|j: int| 0 <= j < old(self).entries().len()
                        && (#[trigger] old(self).entries()[j]).0.key() == request_id.key()
                        && final(self).entries() == old(self).entries().remove(j)
                        && record_matches(
                            record,
                            old(self).entries()[j].1.request,
                            response,
                            effective_masking(old(self).entries()[j].1, old(self).global_masking()),
                            old(self).entries()[j].1.path_hint,
                            old(self).entries()[j].1.customer_id,
                            old(self).entries()[j].1.max_capture_size,
                            old(self).config(),
                            now_ms,
                        ))
                },
                MiddlewareMessage::ControllerMessage(m) => {
                    &&& r is None
                    &&& final(self).entries().len() == old(self).entries().len()
                    &&& forall|j: int| 0 <= j < old(self).entries().len() ==> #[trigger] final(self).entries()[j] == {
                        let (id, e) = old(self).entries()[j];
                        if id.key() == override_target(m).key() { (id, with_override(e, m)) } else { (id, e) }
                    }
                },
            },
    {
        match msg {
            MiddlewareMessage::Request { request_id, request } => {
                let entry = CorrelationEntry { request, masking: None, path_hint: None, customer_id: None, max_capture_size: None };
                proof {
                    lemma_after_request_unique(self.entries@, request_id, request);
                }
                match self.position(&request_id) {
                    Some(j) => {
                        self.entries.set(j, (request_id, entry));
                    },
                    None => {
                        self.entries.push((request_id, entry));
                    },
                }
                None
            },
            MiddlewareMessage::Response { request_id, response } => {
                match self.position(&request_id) {
                    Some(j) => {
                        proof {
                            lemma_remove_unique(self.entries@, j as int);
                        }
                        let (_, entry) = self.entries.remove(j);
                        let record = match &entry.masking {
                            Some(m) => build_record(entry.request, response, m, &entry.path_hint, &entry.customer_id, entry.max_capture_size, &self.config, now_ms),
                            None => build_record(entry.request, response, &self.masking, &entry.path_hint, &entry.customer_id, entry.max_capture_size, &self.config, now_ms),
                        };
                        Some(record)
                    },
                    None => None,
                }
            },
            MiddlewareMessage::ControllerMessage(m) => {
                let target = match &m {
                    ControllerMessage::SetMasking { request_id, .. } => request_id,
                    ControllerMessage::SetPathHint { request_id, .. } => request_id,
                    ControllerMessage::SetCustomerId { request_id, .. } => request_id,
                    ControllerMessage::SetMaxCaptureSize { request_id, .. } => request_id,
                };
                match self.position(target) {
                    Some(j) => {
                        let ghost before = self.entries@;
                        let (id, e) = self.entries.remove(j);
                        let e = match m {
                            ControllerMessage::SetMasking { masking, .. } => CorrelationEntry { masking: Some(masking), ..e },
                            ControllerMessage::SetPathHint { path_hint, .. } => CorrelationEntry { path_hint: Some(path_hint), ..e },
                            ControllerMessage::SetCustomerId { customer_id, .. } => CorrelationEntry { customer_id: Some(customer_id), ..e },
                            ControllerMessage::SetMaxCaptureSize { capture_size, .. } => CorrelationEntry { max_capture_size: Some(capture_size), ..e },
                        };
                        self.entries.insert(j, (id, e));
                        proof {
                            assert forall|i: int| 0 <= i < before.len() implies #[trigger] self.entries@[i] == (if before[i].0.key() == override_target(m).key() { (before[i].0, with_override(before[i].1, m)) } else { before[i] }) by {
                                if i != j {
                                    assert(before[i].0.key() != before[j as int].0.key());
                                }
                            }
                        }
                    },
                    None => {},
                }
                None
            },
        }
    }
}

} // verus!
