use label_extract::batch::{is_skipped, BatchCollector, ItemErrorKind, ItemFailure};

fn failure(id: &str, kind: ItemErrorKind) -> ItemFailure {
    ItemFailure {
        identifier: id.to_string(),
        kind,
        detail: kind.describe(),
    }
}

#[test]
fn skip_list_matches_exactly() {
    assert!(is_skipped("0230_038"));
    assert!(is_skipped("0230_042"));
    assert!(is_skipped("0230_048"));
    assert!(!is_skipped("0230_001"));
    assert!(!is_skipped("0230_0480"));
    assert!(!is_skipped(""));
}

#[test]
fn empty_collection_is_success() {
    let c = BatchCollector::new();
    assert!(c.into_result().is_ok());
}

#[test]
fn collected_failures_keep_order_and_tags() {
    let mut c = BatchCollector::new();
    c.record(failure("0230_010", ItemErrorKind::CollaboratorFailure));
    c.record(failure("0230_020", ItemErrorKind::Inconclusive));
    let errs = c.into_result().expect_err("two failures were collected");
    assert_eq!(errs.len(), 2);
    assert_eq!(errs[0].identifier, "0230_010");
    assert_eq!(errs[0].kind, ItemErrorKind::CollaboratorFailure);
    assert_eq!(errs[1].identifier, "0230_020");
    assert_eq!(errs[1].kind, ItemErrorKind::Inconclusive);
}

#[test]
fn single_failure_is_isolated() {
    // Three items; only the second fails. Exactly its tagged failure is
    // reported, and nothing of the siblings.
    let ids = ["0230_001", "0230_002", "0230_003"];
    let mut c = BatchCollector::new();
    for id in ids {
        if id == "0230_002" {
            c.record(failure(id, ItemErrorKind::CollaboratorFailure));
        }
    }
    let errs = c.into_result().expect_err("one failure was collected");
    assert_eq!(errs.len(), 1);
    assert_eq!(errs[0].identifier, "0230_002");
    assert_eq!(errs[0].kind, ItemErrorKind::CollaboratorFailure);
}

#[test]
fn failure_kinds_describe_themselves() {
    assert_eq!(ItemErrorKind::InputMalformed.describe(), "input malformed");
    assert_eq!(
        ItemErrorKind::Inconclusive.describe(),
        "reconstruction inconclusive"
    );
    assert_eq!(
        ItemErrorKind::CollaboratorFailure.describe(),
        "collaborator failure"
    );
    assert_eq!(ItemErrorKind::OutputIo.describe(), "output failure");
}
