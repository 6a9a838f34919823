//! File transfers: their states and progress as reported to the frontend,
//! and transfer ids.
use vstd::prelude::*;
use crate::clock::system_clock_nanos;
use crate::hex::{hex_char, nibble_char};
use crate::assoc::{assoc_find, assoc_insert, assoc_key_list, assoc_map, assoc_wf, lemma_assoc_dom, lemma_assoc_index};

verus! {

/// Direction of a transfer.
#[derive(Clone, Copy, Debug, PartialEq, Eq, Structural)]
pub enum TransferDirection {
    Upload,
    Download,
}

/// Status of a transfer.
#[derive(Clone, Copy, Debug, PartialEq, Eq, Structural)]
pub enum TransferStatus {
    Pending,
    InProgress,
    Completed,
    Failed,
    Cancelled,
}

/// The state of a transfer.
#[derive(Clone, Debug)]
pub struct TransferState {
    /// Unique transfer id.
    pub id: String,
    /// Drive of the transfer.
    pub drive_id: String,
    /// File path relative to the drive root.
    pub path: String,
    /// Direction.
    pub direction: TransferDirection,
    /// Current status.
    pub status: TransferStatus,
    /// Bytes transferred so far.
    pub bytes_transferred: u64,
    /// Bytes to transfer.
    pub total_bytes: u64,
    /// BLAKE3 hash of the content, if known.
    pub hash: Option<String>,
    /// Error message, if failed.
    pub error: Option<String>,
}

/// A progress report of a transfer.
#[derive(Clone, Debug)]
pub struct TransferProgress {
    pub transfer_id: String,
    pub drive_id: String,
    pub path: String,
    pub direction: TransferDirection,
    pub bytes_transferred: u64,
    pub total_bytes: u64,
    pub status: TransferStatus,
}

impl TransferProgress {
    /// The progress report of a transfer's state.
    pub fn of_state(s: &TransferState) -> (p: TransferProgress)
        ensures
            p.transfer_id@ == s.id@,
            p.drive_id@ == s.drive_id@,
            p.path@ == s.path@,
            p.direction == s.direction,
            p.bytes_transferred == s.bytes_transferred,
            p.total_bytes == s.total_bytes,
            p.status == s.status,
    {
        TransferProgress {
            transfer_id: s.id.clone(),
            drive_id: s.drive_id.clone(),
            path: s.path.clone(),
            direction: s.direction,
            bytes_transferred: s.bytes_transferred,
            total_bytes: s.total_bytes,
            status: s.status,
        }
    }
}

/// Lower-case hexadecimal digits of a number, without leading zeros.
pub open spec fn lower_hex(n: nat) -> Seq<char>
    decreases n,
{
    if n < 16 {
        seq![hex_char(n)]
    } else {
        lower_hex(n / 16).push(hex_char(n % 16))
    }
}

/// Lower-case hexadecimal rendering of a number.
pub fn lower_hex_string(n: u128) -> (s: String)
    ensures
        s@ == lower_hex(n as nat),
    decreases n,
{
    if n < 16 {
        let mut s = String::new();
        s.push(nibble_char(n as u8));
        assert(s@ =~= lower_hex(n as nat));
        s
    } else {
        let mut s = lower_hex_string(n / 16);
        s.push(nibble_char((n % 16) as u8));
        s
    }
}

/// The id of a transfer started at a time: `xfer_` and the time in Unix
/// nanoseconds, in lower-case hex.
pub open spec fn transfer_id(nanos: nat) -> Seq<char> {
    "xfer_"@ + lower_hex(nanos)
}

/// The id of a transfer started at `nanos` (Unix nanoseconds).
pub fn transfer_id_from_nanos(nanos: u128) -> (s: String)
    ensures
        s@ == transfer_id(nanos as nat),
{
    let mut s = String::from_str("xfer_");
    let h = lower_hex_string(nanos);
    s.append(h.as_str());
    proof {
        reveal_strlit("xfer_");
    }
    s
}

/// A new transfer id from the current time; a clock before the Unix epoch
/// counts as the epoch.
pub fn generate_transfer_id() -> (s: String)
    ensures
        exists|n: u128| s@ == transfer_id(n as nat),
        s@.subrange(0, 5) == "xfer_"@,
{
    let (after, nanos) = system_clock_nanos();
    let n = if after {
        nanos
    } else {
        0
    };
    let s = transfer_id_from_nanos(n);
    proof {
        reveal_strlit("xfer_");
        assert(s@.subrange(0, 5) =~= "xfer_"@);
    }
    s
}

impl TransferState {
    /// A transfer just started: in progress, nothing moved yet, no error.
    pub fn started(
        id: String,
        drive_id: String,
        path: String,
        direction: TransferDirection,
        total_bytes: u64,
        hash: Option<String>,
    ) -> (s: TransferState)
        ensures
            s == (TransferState {
                id,
                drive_id,
                path,
                direction,
                status: TransferStatus::InProgress,
                bytes_transferred: 0,
                total_bytes,
                hash,
                error: None,
            }),
    {
        TransferState {
            id,
            drive_id,
            path,
            direction,
            status: TransferStatus::InProgress,
            bytes_transferred: 0,
            total_bytes,
            hash,
            error: None,
        }
    }

    /// A copy of the state.
    pub fn copy(&self) -> (r: TransferState)
        ensures
            r == *self,
    {
        TransferState {
            id: self.id.clone(),
            drive_id: self.drive_id.clone(),
            path: self.path.clone(),
            direction: self.direction,
            status: self.status,
            bytes_transferred: self.bytes_transferred,
            total_bytes: self.total_bytes,
            hash: crate::access::clone_opt_string(&self.hash),
            error: crate::access::clone_opt_string(&self.error),
        }
    }
}

/// Whether a transfer is still under way (pending or in progress).
pub open spec fn active(s: TransferStatus) -> bool {
    s == TransferStatus::Pending || s == TransferStatus::InProgress
}

/// The transfers of this node, by transfer id.
#[derive(Debug)]
pub struct TransferTable {
    transfers: Vec<(String, TransferState)>,
}

impl TransferTable {
    /// One state per transfer id, kept under its own id.
    pub closed spec fn wf(&self) -> bool {
        &&& assoc_wf(self.transfers@)
        &&& forall|j: int|
            0 <= j < self.transfers@.len() ==> (#[trigger] self.transfers@[j]).1.id@
                == self.transfers@[j].0@
    }

    /// The transfers by id.
    pub closed spec fn transfers_view(&self) -> Map<Seq<char>, TransferState> {
        assoc_map(self.transfers@)
    }

    /// No transfers.
    pub fn new() -> (t: TransferTable)
        ensures
            t.wf(),
            t.transfers_view() == Map::<Seq<char>, TransferState>::empty(),
    {
        let t = TransferTable { transfers: Vec::new() };
        assert(t.transfers_view() =~= Map::<Seq<char>, TransferState>::empty());
        t
    }

    /// Record a transfer under its id.
    pub fn begin(&mut self, state: TransferState)
        requires
            old(self).wf(),
        ensures
            final(self).wf(),
            final(self).transfers_view() == old(self).transfers_view().insert(state.id@, state),
    {
        let key = state.id.clone();
        let ghost st = state;
        assoc_insert(&mut self.transfers, key.as_str(), state);
        proof {
            assert forall|j: int| 0 <= j < self.transfers@.len() implies (
            #[trigger] self.transfers@[j]).1.id@ == self.transfers@[j].0@ by {
                if old(self).transfers@.contains(self.transfers@[j]) {
                    let k = choose|k: int|
                        0 <= k < old(self).transfers@.len() && old(self).transfers@[k] == self.transfers@[j];
                    assert(old(self).transfers@[k].1.id@ == old(self).transfers@[k].0@);
                }
            }
        }
    }

    /// The state of a transfer.
    pub fn get_transfer(&self, id: &str) -> (r: Option<TransferState>)
        requires
            self.wf(),
        ensures
            self.transfers_view().dom().contains(id@) ==> r == Some(self.transfers_view()[id@]),
            !self.transfers_view().dom().contains(id@) ==> r is None,
    {
        match assoc_find(&self.transfers, id) {
            Some(i) => Some(self.transfers[i].1.copy()),
            None => None,
        }
    }

    fn update(&mut self, id: &str, status: TransferStatus, set_done: bool, hash: Option<String>, error: Option<String>)
        requires
            old(self).wf(),
        ensures
            final(self).wf(),
            old(self).transfers_view().dom().contains(id@) ==> final(self).transfers_view()
                == old(self).transfers_view().insert(
                id@,
                TransferState {
                    status,
                    bytes_transferred: if set_done {
                        old(self).transfers_view()[id@].total_bytes
                    } else {
                        old(self).transfers_view()[id@].bytes_transferred
                    },
                    hash: match hash {
                        Some(h) => Some(h),
                        None => old(self).transfers_view()[id@].hash,
                    },
                    error: match error {
                        Some(e) => Some(e),
                        None => old(self).transfers_view()[id@].error,
                    },
                    ..old(self).transfers_view()[id@]
                },
            ),
            !old(self).transfers_view().dom().contains(id@) ==> final(self).transfers_view()
                == old(self).transfers_view(),
    {
        match assoc_find(&self.transfers, id) {
            Some(i) => {
                let mut st = self.transfers[i].1.copy();
                st.status = status;
                if set_done {
                    st.bytes_transferred = st.total_bytes;
                }
                match hash {
                    Some(h) => {
                        st.hash = Some(h);
                    },
                    None => {},
                }
                match error {
                    Some(e) => {
                        st.error = Some(e);
                    },
                    None => {},
                }
                assert(st.id@ == id@) by {
                    assert(self.transfers@[i as int].1.id@ == self.transfers@[i as int].0@);
                }
                let ghost sv = st;
                assoc_insert(&mut self.transfers, id, st);
                proof {
                    assert forall|j: int| 0 <= j < self.transfers@.len() implies (
                    #[trigger] self.transfers@[j]).1.id@ == self.transfers@[j].0@ by {
                        if old(self).transfers@.contains(self.transfers@[j]) {
                            let k = choose|k: int|
                                0 <= k < old(self).transfers@.len() && old(self).transfers@[k]
                                    == self.transfers@[j];
                            assert(old(self).transfers@[k].1.id@ == old(self).transfers@[k].0@);
                        }
                    }
                }
            },
            None => {},
        }
    }

    /// An upload finished: completed, every byte sent, with the content hash.
    pub fn complete_upload(&mut self, id: &str, hash: String)
        requires
            old(self).wf(),
        ensures
            final(self).wf(),
            old(self).transfers_view().dom().contains(id@) ==> final(self).transfers_view()
                == old(self).transfers_view().insert(
                id@,
                TransferState {
                    status: TransferStatus::Completed,
                    bytes_transferred: old(self).transfers_view()[id@].total_bytes,
                    hash: Some(hash),
                    ..old(self).transfers_view()[id@]
                },
            ),
            !old(self).transfers_view().dom().contains(id@) ==> final(self).transfers_view()
                == old(self).transfers_view(),
    {
        self.update(id, TransferStatus::Completed, true, Some(hash), None);
    }

    /// A download finished: completed, every byte received.
    pub fn complete_download(&mut self, id: &str)
        requires
            old(self).wf(),
        ensures
            final(self).wf(),
            old(self).transfers_view().dom().contains(id@) ==> final(self).transfers_view()
                == old(self).transfers_view().insert(
                id@,
                TransferState {
                    status: TransferStatus::Completed,
                    bytes_transferred: old(self).transfers_view()[id@].total_bytes,
                    ..old(self).transfers_view()[id@]
                },
            ),
            !old(self).transfers_view().dom().contains(id@) ==> final(self).transfers_view()
                == old(self).transfers_view(),
    {
        self.update(id, TransferStatus::Completed, true, None, None);
    }

    /// A transfer failed, with an error message.
    pub fn fail(&mut self, id: &str, error: String)
        requires
            old(self).wf(),
        ensures
            final(self).wf(),
            old(self).transfers_view().dom().contains(id@) ==> final(self).transfers_view()
                == old(self).transfers_view().insert(
                id@,
                TransferState {
                    status: TransferStatus::Failed,
                    error: Some(error),
                    ..old(self).transfers_view()[id@]
                },
            ),
            !old(self).transfers_view().dom().contains(id@) ==> final(self).transfers_view()
                == old(self).transfers_view(),
    {
        self.update(id, TransferStatus::Failed, false, None, Some(error));
    }

    /// Cancel a transfer still under way; a finished or unknown one is left
    /// as it is.
    pub fn cancel_transfer(&mut self, id: &str)
        requires
            old(self).wf(),
        ensures
            final(self).wf(),
            old(self).transfers_view().dom().contains(id@) && active(
                old(self).transfers_view()[id@].status,
            ) ==> final(self).transfers_view() == old(self).transfers_view().insert(
                id@,
                TransferState { status: TransferStatus::Cancelled, ..old(self).transfers_view()[id@] },
            ),
            !(old(self).transfers_view().dom().contains(id@) && active(
                old(self).transfers_view()[id@].status,
            )) ==> final(self).transfers_view() == old(self).transfers_view(),
    {
        match assoc_find(&self.transfers, id) {
            Some(i) => {
                let st = self.transfers[i].1.status;
                if st == TransferStatus::Pending || st == TransferStatus::InProgress {
                    self.update(id, TransferStatus::Cancelled, false, None, None);
                }
            },
            None => {},
        }
    }

    /// All transfers.
    pub fn list_transfers(&self) -> (v: Vec<TransferState>)
        requires
            self.wf(),
        ensures
            v@.len() == self.transfers_view().len(),
            forall|i: int|
                0 <= i < v@.len() ==> self.transfers_view().dom().contains(#[trigger] v@[i].id@)
                    && self.transfers_view()[v@[i].id@] == v@[i],
            forall|i: int, j: int| 0 <= i < j < v@.len() ==> v@[i].id@ != v@[j].id@,
    {
        let mut v: Vec<TransferState> = Vec::new();
        let mut i: usize = 0;
        proof {
            crate::assoc::lemma_assoc_len(self.transfers@);
        }
        while i < self.transfers.len()
            invariant
                self.wf(),
                i <= self.transfers@.len(),
                v@.len() == i,
                forall|k: int| 0 <= k < i ==> #[trigger] v@[k] == self.transfers@[k].1,
            decreases self.transfers@.len() - i,
        {
            v.push(self.transfers[i].1.copy());
            i = i + 1;
        }
        proof {
            assert forall|k: int| 0 <= k < v@.len() implies self.transfers_view().dom().contains(
                #[trigger] v@[k].id@,
            ) && self.transfers_view()[v@[k].id@] == v@[k] by {
                crate::assoc::lemma_assoc_at(self.transfers@, k);
                assert(self.transfers@[k].1.id@ == self.transfers@[k].0@);
            }
            assert forall|a: int, b: int| 0 <= a < b < v@.len() implies v@[a].id@ != v@[b].id@ by {
                assert(self.transfers@[a].1.id@ == self.transfers@[a].0@);
                assert(self.transfers@[b].1.id@ == self.transfers@[b].0@);
                assert(crate::assoc::assoc_keys(self.transfers@)[a] == self.transfers@[a].0@);
                assert(crate::assoc::assoc_keys(self.transfers@)[b] == self.transfers@[b].0@);
            }
        }
        v
    }

    /// Forget the finished transfers (completed, failed or cancelled);
    /// transfers are not timed, so the age is not used.
    pub fn cleanup_old_transfers(&mut self, _max_age_ms: u64)
        requires
            old(self).wf(),
        ensures
            final(self).wf(),
            forall|id: Seq<char>|
                #[trigger] final(self).transfers_view().dom().contains(id) <==> (old(
                    self,
                ).transfers_view().dom().contains(id) && active(old(self).transfers_view()[id].status)),
            forall|id: Seq<char>|
                #[trigger] final(self).transfers_view().dom().contains(id) ==> final(self).transfers_view()[id]
                    == old(self).transfers_view()[id],
    {
        let keys = assoc_key_list(&self.transfers);
        let ghost names = keys@.map_values(|x: String| x@);
        let mut i: usize = 0;
        while i < keys.len()
            invariant
                self.wf(),
                names == keys@.map_values(|x: String| x@),
                names.no_duplicates(),
                forall|k: Seq<char>| names.contains(k) <==> old(self).transfers_view().dom().contains(k),
                i <= keys@.len(),
                forall|id: Seq<char>|
                    #[trigger] self.transfers_view().dom().contains(id) <==> (old(
                        self,
                    ).transfers_view().dom().contains(id) && (!names.subrange(0, i as int).contains(id)
                        || active(old(self).transfers_view()[id].status))),
                forall|id: Seq<char>|
                    #[trigger] self.transfers_view().dom().contains(id) ==> self.transfers_view()[id]
                        == old(self).transfers_view()[id],
            decreases keys@.len() - i,
        {
            let ghost k = names[i as int];
            assert(keys@[i as int]@ == k);
            assert(!names.subrange(0, i as int).contains(k)) by {
                if names.subrange(0, i as int).contains(k) {
                    let j = choose|j: int| 0 <= j < i && names.subrange(0, i as int)[j] == k;
                    assert(names[j] == names[i as int]);
                }
            }
            assert(names.contains(k));
            assert(names.subrange(0, i + 1) =~= names.subrange(0, i as int).push(k));
            let ghost before = self.transfers_view();
            assert(before.dom().contains(k));
            assert(before[k] == old(self).transfers_view()[k]);
            let ghost removed = false;
            match assoc_find(&self.transfers, keys[i].as_str()) {
                Some(j) => {
                    let st = self.transfers[j].1.status;
                    assert(st == before[k].status);
                    if !(st == TransferStatus::Pending || st == TransferStatus::InProgress) {
                        let ghost pre = self.transfers@;
                        let _ = crate::assoc::assoc_remove(&mut self.transfers, keys[i].as_str());
                        proof {
                            removed = true;
                            assert forall|q: int| 0 <= q < self.transfers@.len() implies (
                            #[trigger] self.transfers@[q]).1.id@ == self.transfers@[q].0@ by {
                                assert(pre.contains(self.transfers@[q]));
                                let k = choose|k: int| 0 <= k < pre.len() && pre[k] == self.transfers@[q];
                                assert(pre[k].1.id@ == pre[k].0@);
                            }
                        }
                    }
                },
                None => {},
            }
            assert(removed ==> self.transfers_view() == before.remove(k));
            assert(!removed ==> self.transfers_view() == before);
            assert(removed <==> !active(old(self).transfers_view()[k].status));
            proof {
                assert forall|id: Seq<char>|
                    #[trigger] self.transfers_view().dom().contains(id) implies self.transfers_view()[id]
                    == old(self).transfers_view()[id] by {
                    assert(before.dom().contains(id));
                }
                assert forall|id: Seq<char>|
                    #[trigger] self.transfers_view().dom().contains(id) <==> (old(
                        self,
                    ).transfers_view().dom().contains(id) && (!names.subrange(0, i + 1).contains(id)
                        || active(old(self).transfers_view()[id].status)) ) by {
                    crate::assoc::lemma_seq_push_contains(names.subrange(0, i as int), k, id);
                }
            }
            i = i + 1;
        }
        proof {
            assert(names.subrange(0, names.len() as int) =~= names);
        }
    }
}

} // verus!
