use aisdb_s3::digest::calculate_md5;
use aisdb_s3::digest::digest_matches;
use aisdb_s3::digest::normalize_reference;
use aisdb_s3::extract::needs_extraction;
use aisdb_s3::pipeline::plan_run;
use aisdb_s3::pipeline::PipelinePlan;
use aisdb_s3::pipeline::ResolvedObject;
use aisdb_s3::transfer::base_name;
use aisdb_s3::transfer::is_not_modified;
use aisdb_s3::transfer::resolve_transfer;
use aisdb_s3::transfer::FetchEvent;
use aisdb_s3::transfer::RemoteObjectDescriptor;
use aisdb_s3::transfer::TransferError;
use aisdb_s3::transfer::TransferOutcome;

const HELLO_DIGEST: &str = "ZajifYh5KDgxtmS9i38K1A==";

#[test]
fn test_calculate_md5() {
    let bytes: Vec<u8> = "Hello, World!".as_bytes().to_vec();
    let digest = calculate_md5(&bytes);
    assert_eq!(digest, "ZajifYh5KDgxtmS9i38K1A==");
}

#[test]
fn digest_is_deterministic_across_calls() {
    let bytes: Vec<u8> = vec![0, 1, 2, 3, 255, 254];
    let first = calculate_md5(&bytes);
    let second = calculate_md5(&bytes);
    assert_eq!(first, second);
    let copy: Vec<u8> = bytes.clone();
    assert_eq!(calculate_md5(&copy), first);
}

#[test]
fn digest_depends_on_content() {
    let a = calculate_md5(&vec![1, 2, 3]);
    let b = calculate_md5(&vec![1, 2, 4]);
    assert_ne!(a, b);
}

#[test]
fn digest_of_empty_input() {
    let digest = calculate_md5(&Vec::new());
    assert_eq!(digest, "1B2M2Y8AsgTpgAmY7PhCfg==");
}

#[test]
fn normalize_strips_decorative_quotes() {
    assert_eq!(normalize_reference(&String::from("\"abc\"")), "abc");
    assert_eq!(normalize_reference(&String::from("abc")), "abc");
    assert_eq!(normalize_reference(&String::from("\"\"\"abc\"")), "abc");
    assert_eq!(normalize_reference(&String::from("\"\"")), "");
    assert_eq!(normalize_reference(&String::from("")), "");
    assert_eq!(normalize_reference(&String::from("a\"b")), "a\"b");
}

#[test]
fn digest_matches_normalizes_the_reference() {
    let digest = String::from(HELLO_DIGEST);
    assert!(digest_matches(&digest, &String::from(HELLO_DIGEST)));
    let quoted = format!("\"{}\"", HELLO_DIGEST);
    assert!(digest_matches(&digest, &quoted));
    assert!(!digest_matches(&digest, &String::from("\"abc\"")));
}

#[test]
fn not_modified_signal_is_recognized() {
    let msg = String::from("Unknown (HTTP status: 304 Not Modified)");
    assert!(is_not_modified(&msg));
    assert!(is_not_modified(&String::from("304 Not Modified")));
    assert!(!is_not_modified(&String::from("500 Internal Server Error")));
    assert!(!is_not_modified(&String::from("304 Not Mod")));
    assert!(!is_not_modified(&String::from("")));
}

#[test]
fn base_name_is_the_final_path_component() {
    assert_eq!(base_name(&String::from("a/f1.zip")), Some(String::from("f1.zip")));
    assert_eq!(base_name(&String::from("f1.zip")), Some(String::from("f1.zip")));
    assert_eq!(base_name(&String::from("a/b/c.zip")), Some(String::from("c.zip")));
    assert_eq!(base_name(&String::from("a/b/")), Some(String::from("b")));
    assert_eq!(base_name(&String::from("a/.")), Some(String::from("a")));
    assert_eq!(base_name(&String::from("../a")), Some(String::from("a")));
    assert_eq!(base_name(&String::from("a...")), Some(String::from("a...")));
    assert_eq!(base_name(&String::from("..")), None);
    assert_eq!(base_name(&String::from("a/..")), None);
    assert_eq!(base_name(&String::from(".")), None);
    assert_eq!(base_name(&String::from("./")), None);
    assert_eq!(base_name(&String::from("///")), None);
    assert_eq!(base_name(&String::from("")), None);
}

fn descriptor(key: &str, reference_value: &str) -> RemoteObjectDescriptor {
    RemoteObjectDescriptor {
        key: String::from(key),
        reference_value: String::from(reference_value),
    }
}

#[test]
fn unchanged_object_short_circuits() {
    let desc = descriptor("a/f1.zip", "abc");
    let event = FetchEvent::Refused {
        message: String::from("Unknown (HTTP status: 304 Not Modified)"),
    };
    let outcome = resolve_transfer(&desc, event, &String::from("/tmp/scratch"));
    assert!(matches!(outcome, Ok(TransferOutcome::Unchanged)));

    let log = vec![ResolvedObject {
        key: String::from("a/f1.zip"),
        outcome: TransferOutcome::Unchanged,
    }];
    let plan = plan_run(&log);
    assert!(plan.retire_keys.is_empty());
    assert!(plan.extraction_queue.is_empty());
}

#[test]
fn verified_object_is_promoted_retired_and_queued() {
    let desc = descriptor("a/f1.zip", &format!("\"{}\"", HELLO_DIGEST));
    let event = FetchEvent::Delivered {
        bytes: "Hello, World!".as_bytes().to_vec(),
        temp_path: String::from("/tmp/dl.tmp"),
    };
    let outcome = resolve_transfer(&desc, event, &String::from("/tmp/scratch"));
    let path = match outcome {
        Ok(TransferOutcome::Verified(path)) => path,
        other => panic!("expected a verified outcome, got {:?}", variant_name(&other)),
    };
    assert_eq!(path, "/tmp/scratch/f1.zip");

    let log = vec![ResolvedObject {
        key: String::from("a/f1.zip"),
        outcome: TransferOutcome::Verified(path.clone()),
    }];
    let plan = plan_run(&log);
    assert_eq!(plan.retire_keys, vec![String::from("a/f1.zip")]);
    assert_eq!(plan.extraction_queue, vec![path]);
}

fn variant_name(r: &Result<TransferOutcome, TransferError>) -> &'static str {
    match r {
        Ok(TransferOutcome::Unchanged) => "unchanged",
        Ok(TransferOutcome::Verified(_)) => "verified",
        Ok(TransferOutcome::Mismatched(_)) => "mismatched",
        Err(TransferError::InvalidKey) => "invalid key",
        Err(TransferError::Service(_)) => "service error",
    }
}

#[test]
fn mismatched_object_is_kept_but_never_retired() {
    let desc = descriptor("a/f1.zip", "abc");
    let event = FetchEvent::Delivered {
        bytes: "Hello, World!".as_bytes().to_vec(),
        temp_path: String::from("/tmp/dl.tmp"),
    };
    let outcome = resolve_transfer(&desc, event, &String::from("/tmp/scratch"));
    let path = match outcome {
        Ok(TransferOutcome::Mismatched(path)) => path,
        other => panic!("expected a mismatched outcome, got {:?}", variant_name(&other)),
    };
    assert_eq!(path, "/tmp/dl.tmp");

    let log = vec![ResolvedObject {
        key: String::from("a/f1.zip"),
        outcome: TransferOutcome::Mismatched(path),
    }];
    let plan = plan_run(&log);
    assert!(plan.retire_keys.is_empty());
    assert!(plan.extraction_queue.is_empty());
}

#[test]
fn key_without_base_name_is_rejected() {
    let desc = descriptor("a/..", &format!("\"{}\"", HELLO_DIGEST));
    let event = FetchEvent::Delivered {
        bytes: "Hello, World!".as_bytes().to_vec(),
        temp_path: String::from("/tmp/dl.tmp"),
    };
    let outcome = resolve_transfer(&desc, event, &String::from("/tmp/scratch"));
    assert!(matches!(outcome, Err(TransferError::InvalidKey)));
}

#[test]
fn key_with_trailing_separator_is_promoted_under_its_component() {
    let desc = descriptor("a/f1/", &format!("\"{}\"", HELLO_DIGEST));
    let event = FetchEvent::Delivered {
        bytes: "Hello, World!".as_bytes().to_vec(),
        temp_path: String::from("/tmp/dl.tmp"),
    };
    let outcome = resolve_transfer(&desc, event, &String::from("/tmp/scratch"));
    match outcome {
        Ok(TransferOutcome::Verified(path)) => assert_eq!(path, "/tmp/scratch/f1"),
        other => panic!("expected a verified outcome, got {:?}", variant_name(&other)),
    }
}

#[test]
fn other_service_refusals_are_transfer_errors() {
    let desc = descriptor("a/f1.zip", "abc");
    let event = FetchEvent::Refused {
        message: String::from("503 Service Unavailable"),
    };
    let outcome = resolve_transfer(&desc, event, &String::from("/tmp/scratch"));
    match outcome {
        Err(TransferError::Service(message)) => {
            assert_eq!(message, "503 Service Unavailable");
        }
        other => panic!("expected a service error, got {:?}", variant_name(&other)),
    }
}

#[test]
fn retired_keys_are_exactly_the_verified_keys() {
    let log = vec![
        ResolvedObject {
            key: String::from("a/one.zip"),
            outcome: TransferOutcome::Verified(String::from("/tmp/scratch/one.zip")),
        },
        ResolvedObject {
            key: String::from("a/two.zip"),
            outcome: TransferOutcome::Unchanged,
        },
        ResolvedObject {
            key: String::from("a/three.zip"),
            outcome: TransferOutcome::Mismatched(String::from("/tmp/dl3.tmp")),
        },
        ResolvedObject {
            key: String::from("a/four.zip"),
            outcome: TransferOutcome::Verified(String::from("/tmp/scratch/four.zip")),
        },
    ];
    let plan = plan_run(&log);
    assert_eq!(
        plan.retire_keys,
        vec![String::from("a/one.zip"), String::from("a/four.zip")]
    );
    assert_eq!(
        plan.extraction_queue,
        vec![
            String::from("/tmp/scratch/one.zip"),
            String::from("/tmp/scratch/four.zip")
        ]
    );
}

#[test]
fn record_outcome_accumulates_only_verified() {
    let mut plan = PipelinePlan::new();
    plan.record_outcome(
        &String::from("a/one.zip"),
        &TransferOutcome::Verified(String::from("/tmp/scratch/one.zip")),
    );
    plan.record_outcome(&String::from("a/two.zip"), &TransferOutcome::Unchanged);
    assert_eq!(plan.retire_keys, vec![String::from("a/one.zip")]);
    assert_eq!(plan.extraction_queue, vec![String::from("/tmp/scratch/one.zip")]);
}

fn names(items: &[&str]) -> Vec<String> {
    items.iter().map(|s| String::from(*s)).collect()
}

#[test]
fn archive_fully_present_is_skipped() {
    let existing = names(&["file0.txt"]);
    let entries = names(&["file0.txt"]);
    assert!(!needs_extraction(&existing, &entries));
}

#[test]
fn archive_with_any_new_entry_is_extracted() {
    let existing = names(&["file0.txt"]);
    let entries = names(&["file0.txt", "file1.txt"]);
    assert!(needs_extraction(&existing, &entries));
}

#[test]
fn empty_archive_is_skipped() {
    let existing = names(&[]);
    let entries = names(&[]);
    assert!(!needs_extraction(&existing, &entries));
}

#[test]
fn extraction_is_idempotent_across_runs() {
    let entries = names(&["a.txt", "b.txt"]);
    let mut destination = names(&[]);
    assert!(needs_extraction(&destination, &entries));
    for entry in &entries {
        if !destination.contains(entry) {
            destination.push(entry.clone());
        }
    }
    let after_first = destination.clone();
    assert!(!needs_extraction(&destination, &entries));
    assert_eq!(destination, after_first);
}
