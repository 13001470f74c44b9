use mnemos::cli_args::{
    parse_args, parse_setup, read_attributions, usage, usage_all, Command, DEFAULT_RECALL_LIMIT,
};

fn argv(words: &[&str]) -> Vec<String> {
    let mut out = vec!["mnemos".to_string()];
    for word in words {
        out.push((*word).to_string());
    }
    out
}

fn number(text: &str) -> f64 {
    text.parse().expect("a number")
}

#[test]
fn ingest_joins_words() {
    assert_eq!(
        parse_args(&argv(&["ingest", "the", "sky", "is", "blue"])),
        Command::Ingest {
            text: "the sky is blue".to_string(),
            prev_id: None,
            seq_pos: None
        }
    );
}

#[test]
fn ingest_without_text_is_invalid() {
    assert!(matches!(
        parse_args(&argv(&["ingest"])),
        Command::Invalid { .. }
    ));
}

#[test]
fn recall_defaults_to_default_limit() {
    assert_eq!(
        parse_args(&argv(&["recall", "blue", "sky"])),
        Command::Recall {
            query: "blue sky".to_string(),
            limit: DEFAULT_RECALL_LIMIT,
            follow_seq: None,
            depth: 10,
            dir: "down".to_string()
        }
    );
}

#[test]
fn recall_parses_limit_before_and_after_query() {
    assert_eq!(
        parse_args(&argv(&["recall", "--limit", "3", "blue", "sky"])),
        Command::Recall {
            query: "blue sky".to_string(),
            limit: 3,
            follow_seq: None,
            depth: 10,
            dir: "down".to_string()
        }
    );
    assert_eq!(
        parse_args(&argv(&["recall", "blue", "sky", "--limit=7"])),
        Command::Recall {
            query: "blue sky".to_string(),
            limit: 7,
            follow_seq: None,
            depth: 10,
            dir: "down".to_string()
        }
    );
}

#[test]
fn recall_without_query_or_bad_limit_is_invalid() {
    assert!(matches!(
        parse_args(&argv(&["recall"])),
        Command::Invalid { .. }
    ));
    assert!(matches!(
        parse_args(&argv(&["recall", "--limit", "3"])),
        Command::Invalid { .. }
    ));
    assert!(matches!(
        parse_args(&argv(&["recall", "sky", "--limit", "many"])),
        Command::Invalid { .. }
    ));
    assert!(matches!(
        parse_args(&argv(&["recall", "sky", "--limit"])),
        Command::Invalid { .. }
    ));
}

#[test]
fn reward_parses_score_and_optional_csv() {
    match parse_args(&argv(&["reward", "0.8"])) {
        Command::Reward { score, attributions, recall_id } => {
            assert_eq!(number(&score), 0.8);
            assert!(attributions.is_empty());
            assert_eq!(recall_id, None);
        }
        other => panic!("{other:?}"),
    }
    match parse_args(&argv(&["reward", "-1", "0.5, 0.25,0.125"])) {
        Command::Reward { score, attributions, recall_id } => {
            assert_eq!(number(&score), -1.0);
            let values: Vec<f64> = attributions.iter().map(|a| number(a)).collect();
            assert_eq!(values, vec![0.5, 0.25, 0.125]);
            assert_eq!(recall_id, None);
        }
        other => panic!("{other:?}"),
    }
}

#[test]
fn reward_parses_recall_id_forms() {
    match parse_args(&argv(&["reward", "1.0", "--recall-id", "7"])) {
        Command::Reward { score, attributions, recall_id } => {
            assert_eq!(number(&score), 1.0);
            assert!(attributions.is_empty());
            assert_eq!(recall_id, Some(7));
        }
        other => panic!("{other:?}"),
    }
    match parse_args(&argv(&["reward", "1.0", "--recall-id=9"])) {
        Command::Reward { score, attributions, recall_id } => {
            assert_eq!(number(&score), 1.0);
            assert!(attributions.is_empty());
            assert_eq!(recall_id, Some(9));
        }
        other => panic!("{other:?}"),
    }
    assert!(matches!(
        parse_args(&argv(&["reward", "1.0", "--recall-id", "nope"])),
        Command::Invalid { .. }
    ));
}

#[test]
fn reward_rejects_missing_or_bad_numbers() {
    assert!(matches!(
        parse_args(&argv(&["reward"])),
        Command::Invalid { .. }
    ));
    assert!(matches!(
        parse_args(&argv(&["reward", "high"])),
        Command::Invalid { .. }
    ));
    assert!(matches!(
        parse_args(&argv(&["reward", "1.0", "0.5,nope"])),
        Command::Invalid { .. }
    ));
}

#[test]
fn bare_commands_parse() {
    assert_eq!(parse_args(&argv(&["consolidate"])), Command::Consolidate);
    assert_eq!(parse_args(&argv(&["stats"])), Command::Stats);
    assert_eq!(parse_args(&argv(&["mcp-server"])), Command::McpServer);
    assert_eq!(parse_args(&argv(&["mcp-tools"])), Command::McpTools);
    assert_eq!(parse_args(&argv(&["help"])), Command::Help);
    assert_eq!(parse_args(&argv(&["--help"])), Command::Help);
    assert_eq!(parse_args(&argv(&["-h"])), Command::Help);
}

#[test]
fn missing_and_unknown_commands_are_invalid() {
    assert!(matches!(
        parse_args(&argv(&[])),
        Command::Invalid { .. }
    ));
    assert!(matches!(
        parse_args(&[]),
        Command::Invalid { .. }
    ));
    assert!(matches!(
        parse_args(&argv(&["frobnicate"])),
        Command::Invalid { .. }
    ));
}

#[test]
fn both_option_forms_agree() {
    assert_eq!(
        parse_args(&argv(&["ingest", "chapter", "two", "--seq", "12", "--seq-pos", "-1"])),
        parse_args(&argv(&["ingest", "chapter", "--seq=12", "two", "--seq-pos=-1"]))
    );
    assert_eq!(
        parse_args(&argv(&["ingest", "--seq=12", "next"])),
        Command::Ingest {
            text: "next".to_string(),
            prev_id: Some(12),
            seq_pos: None
        }
    );
}

#[test]
fn a_walk_needs_no_query() {
    assert_eq!(
        parse_args(&argv(&["recall", "--follow-seq", "4", "--depth=2", "--dir", "both"])),
        Command::Recall {
            query: String::new(),
            limit: DEFAULT_RECALL_LIMIT,
            follow_seq: Some(4),
            depth: 2,
            dir: "both".to_string()
        }
    );
    assert_eq!(
        parse_args(&argv(&["recall", "x", "--dir", "sideways"])),
        Command::Invalid {
            message: "--dir must be up|down|both".to_string()
        }
    );
}

#[test]
fn messages_name_what_is_wrong() {
    assert_eq!(
        parse_args(&argv(&["frob\"nicate"])),
        Command::Invalid {
            message: "unknown command \"frob\\\"nicate\"".to_string()
        }
    );
    assert_eq!(
        parse_args(&[]),
        Command::Invalid {
            message: "no command given".to_string()
        }
    );
    assert_eq!(
        parse_args(&argv(&["ingest", "x", "--seq", "twelve"])),
        Command::Invalid {
            message: "--seq needs a number: engram ingest <text...> [--seq <prev_id>]".to_string()
        }
    );
}

#[test]
fn other_names_of_commands() {
    assert_eq!(parse_args(&argv(&["serve"])), Command::Serve);
    assert_eq!(parse_args(&argv(&["daemon"])), Command::Serve);
    assert_eq!(parse_args(&argv(&["up"])), Command::Serve);
    assert_eq!(parse_args(&argv(&["train_reranker"])), Command::TrainReranker);
    assert_eq!(parse_args(&argv(&["help-all"])), Command::HelpAll);
    assert_eq!(parse_args(&argv(&["status"])), Command::Status);
    assert_eq!(parse_args(&argv(&["setup"])), Command::Setup);
    assert_eq!(parse_setup(&Vec::new()), Command::Setup);
}

#[test]
fn attributions_keep_their_texts() {
    assert_eq!(
        read_attributions(" 1e-3 ,inf").expect("numbers"),
        vec!["1e-3".to_string(), "inf".to_string()]
    );
    assert_eq!(
        read_attributions("1,,2").expect("numbers"),
        vec!["1".to_string(), "2".to_string()]
    );
    assert_eq!(read_attributions("1,x").unwrap_err(), "x");
    assert_eq!(
        parse_args(&argv(&["reward", "1", "0.5,nope"])),
        Command::Invalid {
            message: "reward attribution is not a number: \"nope\"".to_string()
        }
    );
    assert_eq!(
        parse_args(&argv(&["reward", "high"])),
        Command::Invalid {
            message: "reward score is not a number: \"high\"".to_string()
        }
    );
}

#[test]
fn usage_lists_commands() {
    assert!(usage().starts_with("usage: engram <command> [args]"));
    assert!(usage().contains("recall <query...> [--limit N]"));
    assert!(usage_all().contains("train-reranker"));
}
