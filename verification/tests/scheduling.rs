use quic_streamer::scheduling::BlockProductionMethod;
use quic_streamer::scheduling::BlockVerificationMethod;
use quic_streamer::scheduling::TransactionStructure;

#[test]
fn block_verification_method_names() {
    assert_eq!(
        BlockVerificationMethod::cli_names(),
        &["blockstore-processor", "unified-scheduler"]
    );
    assert_eq!(
        BlockVerificationMethod::cli_message(),
        "Switch transaction scheduling method for verifying ledger entries"
    );
    assert_eq!(BlockVerificationMethod::default(), BlockVerificationMethod::UnifiedScheduler);
    assert_eq!(BlockVerificationMethod::BlockstoreProcessor.name(), "blockstore-processor");
    assert_eq!(BlockVerificationMethod::UnifiedScheduler.name(), "unified-scheduler");
}

#[test]
fn block_production_method_names() {
    assert_eq!(
        BlockProductionMethod::cli_names(),
        &["central-scheduler", "central-scheduler-greedy"]
    );
    assert_eq!(
        BlockProductionMethod::cli_message(),
        "Switch transaction scheduling method for producing ledger entries"
    );
    assert_eq!(BlockProductionMethod::default(), BlockProductionMethod::CentralSchedulerGreedy);
    assert_eq!(BlockProductionMethod::CentralScheduler.name(), "central-scheduler");
    assert_eq!(BlockProductionMethod::CentralSchedulerGreedy.name(), "central-scheduler-greedy");
}

#[test]
fn transaction_structure_names() {
    assert_eq!(TransactionStructure::cli_names(), &["sdk", "view"]);
    assert_eq!(
        TransactionStructure::cli_message(),
        "Switch internal transaction structure/representation"
    );
    assert_eq!(TransactionStructure::default(), TransactionStructure::View);
    assert_eq!(TransactionStructure::Sdk.name(), "sdk");
    assert_eq!(TransactionStructure::View.name(), "view");
}

#[test]
fn names_select_their_methods() {
    assert_eq!(
        BlockVerificationMethod::from_name("blockstore-processor"),
        Some(BlockVerificationMethod::BlockstoreProcessor)
    );
    assert_eq!(
        BlockVerificationMethod::from_name("unified-scheduler"),
        Some(BlockVerificationMethod::UnifiedScheduler)
    );
    assert_eq!(BlockVerificationMethod::from_name("UnifiedScheduler"), None);
    assert_eq!(BlockVerificationMethod::from_name(""), None);
    assert_eq!(
        BlockProductionMethod::from_name("central-scheduler"),
        Some(BlockProductionMethod::CentralScheduler)
    );
    assert_eq!(
        BlockProductionMethod::from_name("central-scheduler-greedy"),
        Some(BlockProductionMethod::CentralSchedulerGreedy)
    );
    assert_eq!(BlockProductionMethod::from_name("central-scheduler-"), None);
    assert_eq!(TransactionStructure::from_name("sdk"), Some(TransactionStructure::Sdk));
    assert_eq!(TransactionStructure::from_name("view"), Some(TransactionStructure::View));
    assert_eq!(TransactionStructure::from_name("views"), None);
    for name in BlockVerificationMethod::cli_names() {
        assert_eq!(BlockVerificationMethod::from_name(name).unwrap().name(), *name);
    }
    for name in BlockProductionMethod::cli_names() {
        assert_eq!(BlockProductionMethod::from_name(name).unwrap().name(), *name);
    }
    for name in TransactionStructure::cli_names() {
        assert_eq!(TransactionStructure::from_name(name).unwrap().name(), *name);
    }
}
