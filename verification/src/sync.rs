//! What synchronisation reports and decides: the status and diagnostics of
//! a drive's sync, the last error recorded per drive, the connection status
//! of the node, and the metadata change a file event makes.
use vstd::prelude::*;
use crate::assoc::{assoc_find, assoc_insert, assoc_map, assoc_remove, assoc_wf};
use crate::docs::FileMetadata;
use crate::events::DriveEvent;
use crate::primitives::opt_chars;
use crate::security::{rfc3339_or_empty, rfc3339_text};
use crate::text::{chars_of, string_from_chars};
use crate::validation::{components, path_components};
use crate::watcher::file_name;

verus! {

/// Status of the sync of a drive.
#[derive(Clone, Debug)]
pub struct SyncStatus {
    /// Whether the drive is being synced.
    pub is_syncing: bool,
    /// Number of connected peers.
    pub connected_peers: usize,
    /// Last successful sync (RFC 3339).
    pub last_sync: Option<String>,
}

/// The last error of a drive's sync.
#[derive(Clone, Debug)]
pub struct SyncErrorInfo {
    pub message: String,
    /// When it happened (RFC 3339).
    pub timestamp: String,
}

/// Diagnostics of the sync of a drive.
#[derive(Clone, Debug)]
pub struct SyncDiagnostics {
    /// Whether the drive is being synced (it has a document and a gossip
    /// subscription).
    pub is_syncing: bool,
    /// Whether a document replica exists for the drive.
    pub has_doc: bool,
    /// Whether the drive's gossip topic is subscribed.
    pub gossip_subscribed: bool,
    /// Document namespace id.
    pub doc_namespace: Option<String>,
    /// Number of peers the document sync reports.
    pub doc_peers: Option<usize>,
    /// The most recent error.
    pub last_error: Option<SyncErrorInfo>,
}

/// Connection status of this node, as the frontend sees it.
#[derive(Clone, Debug)]
pub struct ConnectionInfo {
    pub is_online: bool,
    pub node_id: Option<String>,
    pub relay_url: Option<String>,
    pub peer_count: usize,
}

/// The sync status of a drive: it syncs when it has a document and a gossip
/// subscription; it then counts the peers the document sync reports (0 when
/// that report is missing), and otherwise none.
pub fn sync_status(has_doc: bool, gossip_subscribed: bool, doc_peers: Option<usize>) -> (s: SyncStatus)
    ensures
        s.is_syncing == (has_doc && gossip_subscribed),
        s.connected_peers == if has_doc && gossip_subscribed {
            match doc_peers {
                Some(n) => n,
                None => 0,
            }
        } else {
            0
        },
        s.last_sync is None,
{
    let is_syncing = has_doc && gossip_subscribed;
    let connected_peers = if is_syncing {
        match doc_peers {
            Some(n) => n,
            None => 0,
        }
    } else {
        0
    };
    SyncStatus { is_syncing, connected_peers, last_sync: None }
}

/// The sync diagnostics of a drive from what the document and gossip layers
/// report and the last error recorded.
pub fn sync_diagnostics(
    has_doc: bool,
    gossip_subscribed: bool,
    doc_namespace: Option<String>,
    doc_peers: Option<usize>,
    last_error: Option<SyncErrorInfo>,
) -> (d: SyncDiagnostics)
    ensures
        d.is_syncing == (has_doc && gossip_subscribed),
        d.has_doc == has_doc,
        d.gossip_subscribed == gossip_subscribed,
        d.doc_namespace == doc_namespace,
        d.doc_peers == doc_peers,
        d.last_error == last_error,
{
    SyncDiagnostics {
        is_syncing: has_doc && gossip_subscribed,
        has_doc,
        gossip_subscribed,
        doc_namespace,
        doc_peers,
        last_error,
    }
}

/// The connection status of this node: online with its id and peer count
/// while its endpoint runs (no relay address is reported); offline with no
/// id and no peers otherwise.
pub fn connection_info(endpoint_node_id: Option<String>, peer_count: usize) -> (c: ConnectionInfo)
    ensures
        c.is_online == endpoint_node_id is Some,
        c.node_id == endpoint_node_id,
        c.relay_url is None,
        c.peer_count == if endpoint_node_id is Some {
            peer_count
        } else {
            0
        },
{
    match endpoint_node_id {
        Some(id) => ConnectionInfo { is_online: true, node_id: Some(id), relay_url: None, peer_count },
        None => ConnectionInfo { is_online: false, node_id: None, relay_url: None, peer_count: 0 },
    }
}

/// The last sync error of each drive, by drive id.
#[derive(Debug)]
pub struct SyncErrorLog {
    errors: Vec<(String, SyncErrorInfo)>,
}

impl SyncErrorLog {
    /// One error per drive.
    pub closed spec fn wf(&self) -> bool {
        assoc_wf(self.errors@)
    }

    /// The last error of each drive.
    pub closed spec fn errors_view(&self) -> Map<Seq<char>, SyncErrorInfo> {
        assoc_map(self.errors@)
    }

    /// No errors.
    pub fn new() -> (l: SyncErrorLog)
        ensures
            l.wf(),
            l.errors_view() == Map::<Seq<char>, SyncErrorInfo>::empty(),
    {
        let l = SyncErrorLog { errors: Vec::new() };
        assert(l.errors_view() =~= Map::<Seq<char>, SyncErrorInfo>::empty());
        l
    }

    /// Record an error of a drive at `now`, replacing the one before.
    pub fn record_at(&mut self, drive_id: &str, message: String, now: i64)
        requires
            old(self).wf(),
        ensures
            final(self).wf(),
            final(self).errors_view().dom() == old(self).errors_view().dom().insert(drive_id@),
            final(self).errors_view()[drive_id@].message == message,
            final(self).errors_view()[drive_id@].timestamp@ == rfc3339_text(now),
            forall|d: Seq<char>|
                d != drive_id@ && #[trigger] old(self).errors_view().dom().contains(d)
                    ==> final(self).errors_view()[d] == old(self).errors_view()[d],
    {
        let info = SyncErrorInfo { message, timestamp: rfc3339_or_empty(now) };
        assoc_insert(&mut self.errors, drive_id, info);
    }

    /// Forget the error of a drive.
    pub fn clear(&mut self, drive_id: &str)
        requires
            old(self).wf(),
        ensures
            final(self).wf(),
            final(self).errors_view() == old(self).errors_view().remove(drive_id@),
    {
        let _ = assoc_remove(&mut self.errors, drive_id);
    }

    /// The last error of a drive.
    pub fn last_error(&self, drive_id: &str) -> (r: Option<SyncErrorInfo>)
        requires
            self.wf(),
        ensures
            r is Some <==> self.errors_view().dom().contains(drive_id@),
            r matches Some(e) ==> e.message@ == self.errors_view()[drive_id@].message@
                && e.timestamp@ == self.errors_view()[drive_id@].timestamp@,
    {
        match assoc_find(&self.errors, drive_id) {
            Some(i) => {
                let e = &self.errors[i].1;
                Some(SyncErrorInfo { message: e.message.clone(), timestamp: e.timestamp.clone() })
            },
            None => None,
        }
    }
}

/// The change a file event makes to a drive's metadata.
#[derive(Debug)]
pub enum MetadataUpdate {
    /// Set the metadata of a file.
    Put(FileMetadata),
    /// Remove the metadata of a path.
    Delete(String),
    /// No change.
    Unchanged,
}

/// The last component of a path as text (see `file_name`).
pub fn file_name_of(path: &str) -> (r: Option<String>)
    ensures
        opt_chars(r) == file_name(path@),
{
    let comps = path_components(chars_of(path).as_slice());
    let ghost cv = comps@.map_values(|v: Vec<char>| v@);
    assert(cv == components(path@));
    if comps.len() == 0 {
        return None;
    }
    let last = &comps[comps.len() - 1];
    assert(cv.last() == last@);
    if last.len() == 2 && last[0] == '.' && last[1] == '.' {
        assert(last@ =~= seq!['.', '.']);
        return None;
    }
    assert(last@ != seq!['.', '.']) by {
        if last@ == seq!['.', '.'] {
            assert(last@.len() == 2 && last@[0] == '.' && last@[1] == '.');
        }
    }
    Some(string_from_chars(last.as_slice()))
}

/// The metadata change a file event makes: a changed file gets version-1
/// metadata (its name, not a directory, its size, hash and time); a deleted
/// file loses its metadata; other events change nothing.
pub fn metadata_update(event: &DriveEvent) -> (u: MetadataUpdate)
    ensures
        match *event {
            DriveEvent::FileChanged { path, hash, size, timestamp, .. } => u matches MetadataUpdate::Put(
                m,
            ) && m.name@ == (match file_name(path@) {
                Some(f) => f,
                None => Seq::empty(),
            }) && m.path@ == path@ && !m.is_dir && m.size == size && m.modified_at@ == rfc3339_text(
                timestamp,
            ) && opt_chars(m.content_hash) == Some(hash@) && m.version == 1,
            DriveEvent::FileDeleted { path, .. } => u matches MetadataUpdate::Delete(p) && p@
                == path@,
            _ => u is Unchanged,
        },
{
    match event {
        DriveEvent::FileChanged { path, hash, size, timestamp, .. } => {
            let name = match file_name_of(path.as_str()) {
                Some(n) => n,
                None => String::new(),
            };
            MetadataUpdate::Put(
                FileMetadata {
                    name,
                    path: path.clone(),
                    is_dir: false,
                    size: *size,
                    modified_at: rfc3339_or_empty(*timestamp),
                    content_hash: Some(hash.clone()),
                    version: 1,
                },
            )
        },
        DriveEvent::FileDeleted { path, .. } => MetadataUpdate::Delete(path.clone()),
        _ => MetadataUpdate::Unchanged,
    }
}

} // verus!
