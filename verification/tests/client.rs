use btc_anchoring::client::{last_anchoring_transactions, submission_of, NodeError, TransactionInfo};
use btc_anchoring::coordinator::Submission;

fn info(address: Option<&str>, txid: &str) -> TransactionInfo {
    TransactionInfo {
        address: address.map(|a| a.to_string()),
        vout: 0,
        confirmations: 1,
        txid: txid.to_string(),
        abandoned: None,
        time: 0,
    }
}

#[test]
fn last_transactions_of_an_address_come_last_listed_first() {
    let listed = vec![
        info(Some("a"), "1"),
        info(Some("b"), "2"),
        info(None, "3"),
        info(Some("a"), "4"),
        info(Some("ab"), "5"),
        info(Some("a"), "6"),
    ];
    let kept = last_anchoring_transactions(listed, "a");
    let ids: Vec<&str> = kept.iter().map(|i| i.txid.as_str()).collect();
    assert_eq!(ids, vec!["6", "4", "1"]);
}

#[test]
fn no_transaction_of_an_unknown_address() {
    let listed = vec![info(Some("a"), "1"), info(None, "2")];
    assert!(last_anchoring_transactions(listed, "c").is_empty());
    assert!(last_anchoring_transactions(vec![], "a").is_empty());
    let kept = last_anchoring_transactions(vec![info(Some(""), "1"), info(None, "2")], "");
    assert_eq!(kept, vec![info(Some(""), "1")]);
}

#[test]
fn answer_to_a_submission_is_read_from_kind_and_words() {
    assert_eq!(submission_of(&Ok(())), Submission::Accepted);
    assert_eq!(
        submission_of(&Err(NodeError::TransactionAlreadyInChain)),
        Submission::AlreadyInChain
    );
    for words in ["18: txn-already-in-mempool", "txn-already-in-mempool", "already-in-mempool"] {
        assert_eq!(
            submission_of(&Err(NodeError::TransactionRejected(words.to_string()))),
            Submission::AlreadyInMempool
        );
    }
    for words in ["Missing inputs", "bad-txns-inputs-missingorspent", "16: Missing inputs!"] {
        assert_eq!(
            submission_of(&Err(NodeError::TransactionIncorrect(words.to_string()))),
            Submission::InputsMissing
        );
    }
}

#[test]
fn every_other_answer_is_a_fault() {
    for words in ["", "missing inputs", "64: dust", "already-in-mempoo", "Missing input"] {
        assert_eq!(
            submission_of(&Err(NodeError::TransactionIncorrect(words.to_string()))),
            Submission::Fault
        );
        assert_eq!(
            submission_of(&Err(NodeError::TransactionRejected(words.to_string()))),
            Submission::Fault
        );
    }
    // the words count only with the kind they belong to
    assert_eq!(
        submission_of(&Err(NodeError::TransactionIncorrect("txn-already-in-mempool".to_string()))),
        Submission::Fault
    );
    assert_eq!(
        submission_of(&Err(NodeError::TransactionRejected("Missing inputs".to_string()))),
        Submission::Fault
    );
    assert_eq!(
        submission_of(&Err(NodeError::NoInformation("Missing inputs".to_string()))),
        Submission::Fault
    );
    assert_eq!(
        submission_of(&Err(NodeError::Memory("already-in-mempool".to_string()))),
        Submission::Fault
    );
    for error in [NodeError::InsufficientFunds, NodeError::Rpc, NodeError::Other] {
        assert_eq!(submission_of(&Err(error)), Submission::Fault);
    }
}
