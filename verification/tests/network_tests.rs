use gix_drive::channel::{
    is_under_pressure, record_send_outcome, send_with_backpressure, send_with_metrics,
    under_pressure, ChannelMetrics,
};
use gix_drive::docs::{directory_metadata, doc_entry_update, path_from_key, FileMetadata};
use gix_drive::drive::{parse_drive_id, DriveId};
use gix_drive::error::{AppError, ErrorResponse};
use gix_drive::keys::Identity;
use gix_drive::peers::PeerTable;
use gix_drive::sync::{connection_info, sync_status, SyncStatus};
use gix_drive::transfer::{
    generate_transfer_id, transfer_id_from_nanos, TransferDirection, TransferState,
    TransferStatus, TransferTable,
};
use gix_drive::validation::validate_drive_id;
use tokio::sync::broadcast;

#[test]
fn test_send_with_backpressure_normal() {
    let (tx, mut rx) = broadcast::channel::<i32>(16);

    let result = send_with_backpressure(&tx, 42, "test");
    assert!(result);

    let received = rx.try_recv().unwrap();
    assert_eq!(received, 42);
}

#[test]
fn test_send_no_receivers() {
    let (tx, _) = broadcast::channel::<i32>(16);
    let result = send_with_backpressure(&tx, 42, "test");
    assert!(result);
}

#[test]
fn test_is_under_pressure() {
    let (tx, _rx) = broadcast::channel::<i32>(256);

    for i in 0..100 {
        let _ = tx.send(i);
    }
    assert!(!is_under_pressure(&tx));

    for i in 100..200 {
        let _ = tx.send(i);
    }
    assert!(is_under_pressure(&tx));
}

#[test]
fn test_metrics_tracking() {
    let (tx, _rx) = broadcast::channel::<i32>(16);
    let mut metrics = ChannelMetrics::new();

    send_with_metrics(&tx, 1, "test", &mut metrics);
    send_with_metrics(&tx, 2, "test", &mut metrics);

    let snapshot = metrics.snapshot();
    assert_eq!(snapshot.messages_sent, 2);
    assert_eq!(snapshot.messages_dropped, 0);
}

#[test]
fn test_metrics_count_drop_without_receivers() {
    let (tx, _) = broadcast::channel::<i32>(16);
    let mut metrics = ChannelMetrics::new();
    send_with_metrics(&tx, 1, "test", &mut metrics);
    let snapshot = metrics.snapshot();
    assert_eq!(snapshot.messages_sent, 0);
    assert_eq!(snapshot.messages_dropped, 1);
}

#[test]
fn test_record_send_outcome_under_pressure() {
    let mut metrics = ChannelMetrics::new();
    assert!(!under_pressure(191));
    assert!(under_pressure(192));
    record_send_outcome(&mut metrics, 200, true);
    record_send_outcome(&mut metrics, 10, false);
    let s = metrics.snapshot();
    assert_eq!(s.backpressure_warnings, 1);
    assert_eq!(s.messages_sent, 1);
    assert_eq!(s.messages_dropped, 1);
}

#[test]
fn test_file_metadata_doc_key() {
    let meta = FileMetadata::new(
        "docs/readme.md",
        "readme.md",
        false,
        1024,
        "2024-01-01T00:00:00Z",
    );
    assert_eq!(meta.doc_key(), b"file:docs/readme.md".to_vec());
}

#[test]
fn test_doc_key_reads_back() {
    let meta = FileMetadata::new("a/b.txt", "b.txt", false, 1, "2024-01-01T00:00:00Z");
    assert_eq!(path_from_key(&meta.doc_key()), Some("a/b.txt".to_string()));
    assert_eq!(path_from_key(b"other:a"), None);
}

#[test]
fn test_sync_status_default_values() {
    let status = SyncStatus {
        is_syncing: false,
        connected_peers: 0,
        last_sync: None,
    };

    assert!(!status.is_syncing);
    assert_eq!(status.connected_peers, 0);
    assert!(status.last_sync.is_none());
}

#[test]
fn test_sync_status_with_last_sync() {
    let status = SyncStatus {
        is_syncing: true,
        connected_peers: 5,
        last_sync: Some("2024-12-25T10:30:00Z".to_string()),
    };

    assert!(status.is_syncing);
    assert_eq!(status.connected_peers, 5);
    assert_eq!(status.last_sync.as_deref(), Some("2024-12-25T10:30:00Z"));
}

#[test]
fn test_sync_status_clone() {
    let status = SyncStatus {
        is_syncing: true,
        connected_peers: 10,
        last_sync: Some("2024-01-01T00:00:00Z".to_string()),
    };

    let cloned = status.clone();

    assert_eq!(status.is_syncing, cloned.is_syncing);
    assert_eq!(status.connected_peers, cloned.connected_peers);
    assert_eq!(status.last_sync, cloned.last_sync);
}

#[test]
fn test_sync_status_debug() {
    let status = SyncStatus {
        is_syncing: true,
        connected_peers: 2,
        last_sync: None,
    };

    let debug_str = format!("{:?}", status);
    assert!(debug_str.contains("SyncStatus"));
    assert!(debug_str.contains("is_syncing"));
    assert!(debug_str.contains("connected_peers"));
}

#[test]
fn test_sync_status_of_drive_state() {
    let s = sync_status(true, true, Some(3));
    assert!(s.is_syncing);
    assert_eq!(s.connected_peers, 3);
    let s = sync_status(true, false, Some(3));
    assert!(!s.is_syncing);
    assert_eq!(s.connected_peers, 0);
    let c = connection_info(None, 4);
    assert!(!c.is_online);
}

#[test]
fn test_generate_transfer_id() {
    let id1 = generate_transfer_id();
    let id2 = generate_transfer_id();

    assert!(id1.starts_with("xfer_"));
    assert!(id2.starts_with("xfer_"));
}

#[test]
fn test_transfer_id_from_nanos() {
    assert_eq!(transfer_id_from_nanos(0), "xfer_0");
    assert_eq!(transfer_id_from_nanos(255), "xfer_ff");
    assert_eq!(transfer_id_from_nanos(4096), "xfer_1000");
}

#[test]
fn test_transfer_table_lifecycle() {
    let mut table = TransferTable::new();
    let s = TransferState::started(
        "xfer_1".to_string(),
        "d".to_string(),
        "a.txt".to_string(),
        TransferDirection::Upload,
        10,
        None,
    );
    table.begin(s);
    table.complete_upload("xfer_1", "h".to_string());
    let got = table.get_transfer("xfer_1").unwrap();
    assert_eq!(got.status, TransferStatus::Completed);
    assert_eq!(got.bytes_transferred, 10);
    assert_eq!(got.hash.as_deref(), Some("h"));
    table.cleanup_old_transfers(0);
    assert!(table.get_transfer("xfer_1").is_none());
    assert!(table.list_transfers().is_empty());
}

#[test]
fn test_drive_id_hex() {
    let identity = Identity::generate();
    let node_id = identity.node_id();

    let id = DriveId::generate(&node_id, "/test/path");
    let hex_str = id.to_hex();
    let restored = DriveId::from_hex(&hex_str).unwrap();

    assert_eq!(id.as_bytes(), restored.as_bytes());
}

#[test]
fn test_drive_id_generation_at_distinct_times() {
    let identity = Identity::generate();
    let node_id = identity.node_id();
    let id1 = DriveId::generate_at(&node_id, "/test/path", 1000);
    let id2 = DriveId::generate_at(&node_id, "/test/path", 1002);
    let id3 = DriveId::generate_at(&node_id, "/test/path", 1000);
    assert_ne!(id1.as_bytes(), id2.as_bytes());
    assert_eq!(id1.as_bytes(), id3.as_bytes());
}

#[test]
fn test_parse_drive_id_errors() {
    assert!(parse_drive_id("abc").is_err());
    assert_eq!(parse_drive_id(&"0".repeat(64)).unwrap(), [0u8; 32]);
}

#[test]
fn test_error_codes() {
    let err = AppError::DriveNotFound {
        drive_id: "abc123".to_string(),
    };
    assert_eq!(err.code(), "DRIVE_NOT_FOUND");
    assert!(!err.is_retryable());

    let err = AppError::RateLimited {
        retry_after_secs: 5,
    };
    assert_eq!(err.code(), "RATE_LIMITED");
    assert!(err.is_retryable());
}

#[test]
fn test_error_response_serialization() {
    let err = AppError::PathTraversal {
        path: "../etc/passwd".to_string(),
    };
    let response = ErrorResponse::from_error(&err);
    assert_eq!(response.code, "PATH_TRAVERSAL");
    assert!(!response.retryable);
}

#[test]
fn test_error_messages() {
    assert_eq!(AppError::NameEmpty.message(), "Name cannot be empty");
    assert_eq!(
        AppError::DriveNotFound { drive_id: "x".to_string() }.message(),
        "Drive not found: x"
    );
}

#[test]
fn test_validate_drive_id_valid() {
    let id = "a".repeat(64);
    let result = validate_drive_id(&id);
    assert!(result.is_ok());
}

#[test]
fn test_validate_drive_id_invalid() {
    let result = validate_drive_id("abc");
    assert!(result.is_err());

    let result = validate_drive_id(&"g".repeat(64));
    assert!(result.is_err());
}

fn meta(path: &str) -> FileMetadata {
    FileMetadata::new(path, path, false, 1, "2024-01-01T00:00:00Z")
}

#[test]
fn test_directory_metadata() {
    let all = vec![meta("a.txt"), meta("/b.txt"), meta("docs/c.txt"), meta("docs/sub/d.txt"), meta("docsX")];
    let root: Vec<String> = directory_metadata(all, "/").into_iter().map(|m| m.path).collect();
    assert_eq!(root, vec!["a.txt", "/b.txt", "docsX"]);
    let all = vec![meta("a.txt"), meta("docs/c.txt"), meta("docs/sub/d.txt"), meta("docsX"), meta("docs")];
    let docs: Vec<String> = directory_metadata(all, "//docs").into_iter().map(|m| m.path).collect();
    assert_eq!(docs, vec!["docs/c.txt", "docsX"]);
}

#[test]
fn test_doc_entry_update() {
    let key = b"file:a/b.txt";
    let m = meta("elsewhere.txt");
    let (p, got) = doc_entry_update(key, false, Some(m)).unwrap();
    assert_eq!(p, "a/b.txt");
    assert_eq!(got.unwrap().path, "a/b.txt");
    let (p, got) = doc_entry_update(key, true, None).unwrap();
    assert_eq!(p, "a/b.txt");
    assert!(got.is_none());
    assert!(doc_entry_update(key, false, None).is_none());
    assert!(doc_entry_update(b"meta:a", true, None).is_none());
}

#[test]
fn test_peer_table() {
    let mut peers = PeerTable::new();
    peers.add_peer_at("n1", 10);
    peers.add_peer_at("n2", 20);
    peers.add_peer_at("n1", 30);
    assert_eq!(peers.peer_count(), 2);
    assert!(peers.is_connected("n2"));
    let mut list = peers.get_peers();
    list.sort_by(|a, b| a.node_id.cmp(&b.node_id));
    assert_eq!(list[0].node_id, "n1");
    assert_eq!(list[0].connected_at, 30);
    peers.remove_peer("n2");
    assert!(!peers.is_connected("n2"));
    peers.add_peer("n3");
    assert_eq!(peers.peer_count(), 2);
    let info = connection_info(Some("me".to_string()), peers.peer_count());
    assert!(info.is_online);
    assert_eq!(info.peer_count, 2);
}
