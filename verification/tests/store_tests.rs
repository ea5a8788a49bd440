use pagerank::table::Table;

#[test]
fn fresh_table_defaults() {
    let t = Table::new();
    assert_eq!(t.get_num_rows(), 0);
    assert_eq!(t.get_trace(), false);
    assert_eq!(t.get_numeric(), false);
    assert_eq!(t.get_max_iterations(), 10000);
    assert_eq!(t.get_delim(), " => ");
    assert_eq!(t.get_mapping().len(), 0);
}

#[test]
fn parameter_setters_round_trip() {
    let mut t = Table::new();
    t.set_trace(true);
    assert_eq!(t.get_trace(), true);
    t.set_numeric(true);
    assert_eq!(t.get_numeric(), true);
    t.set_max_iterations(42);
    assert_eq!(t.get_max_iterations(), 42);
    t.set_delim("\t");
    assert_eq!(t.get_delim(), "\t");
}

#[test]
fn add_arc_grows_and_records_edge() {
    let mut t = Table::new();
    assert!(t.add_arc(0, 1));
    assert_eq!(t.get_num_rows(), 2);
    assert_eq!(t.get_rows()[1], vec![0]);
    assert_eq!(t.get_rows()[0], Vec::<usize>::new());
    assert_eq!(t.get_num_outgoing()[0], 1);
    assert_eq!(t.get_num_outgoing()[1], 0);
}

#[test]
fn duplicate_edges_collapse() {
    let mut t = Table::new();
    t.set_numeric(true);
    let from = t.resolve_vertex("0").unwrap();
    let to = t.resolve_vertex("1").unwrap();
    assert!(t.add_arc(from, to));
    assert!(!t.add_arc(from, to));
    assert_eq!(t.get_num_outgoing()[0], 1);
    assert_eq!(t.get_rows()[1], vec![0]);
}

#[test]
fn self_loops_are_recorded() {
    let mut t = Table::new();
    assert!(t.add_arc(2, 2));
    assert_eq!(t.get_num_rows(), 3);
    assert_eq!(t.get_rows()[2], vec![2]);
    assert_eq!(t.get_num_outgoing()[2], 1);
}

#[test]
fn rows_stay_sorted_and_deduplicated() {
    let mut t = Table::new();
    assert!(t.add_arc(3, 1));
    assert!(t.add_arc(0, 1));
    assert!(t.add_arc(2, 1));
    assert!(!t.add_arc(2, 1));
    assert_eq!(t.get_rows()[1], vec![0, 2, 3]);
    assert_eq!(t.get_num_outgoing()[0], 1);
    assert_eq!(t.get_num_outgoing()[2], 1);
    assert_eq!(t.get_num_outgoing()[3], 1);
}

#[test]
fn out_degree_counts_distinct_destinations() {
    let mut t = Table::new();
    assert!(t.add_arc(0, 1));
    assert!(t.add_arc(0, 2));
    assert!(t.add_arc(0, 0));
    assert!(!t.add_arc(0, 2));
    assert_eq!(t.get_num_outgoing()[0], 3);
}

#[test]
fn set_num_rows_grows_but_never_shrinks() {
    let mut t = Table::new();
    t.set_num_rows(5);
    assert_eq!(t.get_num_rows(), 5);
    assert_eq!(t.get_num_outgoing().len(), 5);
    t.set_num_rows(2);
    assert_eq!(t.get_num_rows(), 5);
    for v in 0..5 {
        assert_eq!(t.get_rows()[v], Vec::<usize>::new());
        assert_eq!(t.get_num_outgoing()[v], 0);
    }
}

#[test]
fn reset_clears_data_and_keeps_parameters() {
    let mut t = Table::new();
    t.set_max_iterations(7);
    t.set_delim("->");
    t.add_arc(0, 1);
    t.resolve_vertex("alpha").unwrap();
    t.reset();
    assert_eq!(t.get_num_rows(), 0);
    assert_eq!(t.get_num_outgoing().len(), 0);
    assert_eq!(t.get_mapping().len(), 0);
    assert_eq!(t.get_max_iterations(), 7);
    assert_eq!(t.get_delim(), "->");
}

#[test]
fn named_mode_assigns_dense_first_seen_indices() {
    let mut t = Table::new();
    assert_eq!(t.resolve_vertex("alice").unwrap(), 0);
    assert_eq!(t.resolve_vertex("bob").unwrap(), 1);
    assert_eq!(t.resolve_vertex("alice").unwrap(), 0);
    assert_eq!(t.resolve_vertex("carol").unwrap(), 2);
    assert_eq!(t.get_mapping().len(), 3);
    assert_eq!(t.get_node_name(0), "alice");
    assert_eq!(t.get_node_name(1), "bob");
    assert_eq!(t.get_node_name(2), "carol");
}

#[test]
fn numeric_mode_node_names_are_decimal_indices() {
    let mut t = Table::new();
    t.set_numeric(true);
    assert_eq!(t.get_node_name(0), "0");
    assert_eq!(t.get_node_name(5), "5");
    assert_eq!(t.get_node_name(123), "123");
    assert_eq!(t.get_node_name(usize::MAX), usize::MAX.to_string());
}

#[test]
fn reserve_has_no_observable_effect() {
    let mut t = Table::new();
    t.add_arc(0, 1);
    t.reserve(100);
    assert_eq!(t.get_num_rows(), 2);
    assert_eq!(t.get_rows()[1], vec![0]);
    assert_eq!(t.get_num_outgoing()[0], 1);
}

#[test]
fn row_count_hint_yields_a_single_dangling_vertex() {
    let mut t = Table::new();
    t.set_num_rows(1);
    assert_eq!(t.get_num_rows(), 1);
    assert_eq!(t.get_num_outgoing()[0], 0);
    assert_eq!(t.get_rows()[0], Vec::<usize>::new());
}

#[test]
fn two_cycle_store_state() {
    let mut t = Table::new();
    assert!(t.add_arc(0, 1));
    assert!(t.add_arc(1, 0));
    assert_eq!(t.get_num_rows(), 2);
    assert_eq!(t.get_rows()[0], vec![1]);
    assert_eq!(t.get_rows()[1], vec![0]);
    assert_eq!(t.get_num_outgoing()[0], 1);
    assert_eq!(t.get_num_outgoing()[1], 1);
}

#[test]
fn numeric_mode_rejects_bad_tokens() {
    let mut t = Table::new();
    t.set_numeric(true);
    assert!(t.resolve_vertex("12").is_ok());
    assert!(t.resolve_vertex("twelve").is_err());
    assert!(t.resolve_vertex("-3").is_err());
    assert!(t.resolve_vertex("").is_err());
    assert_eq!(t.get_mapping().len(), 0);
}

#[test]
fn ingest_edge_named_tokens() {
    let mut t = Table::new();
    assert_eq!(t.ingest_edge("a", "b"), Ok(true));
    assert_eq!(t.ingest_edge("a", "b"), Ok(false));
    assert_eq!(t.ingest_edge("b", "a"), Ok(true));
    assert_eq!(t.get_mapping(), &vec!["a".to_string(), "b".to_string()]);
    assert_eq!(t.get_rows()[1], vec![0]);
    assert_eq!(t.get_rows()[0], vec![1]);
}

#[test]
fn ingest_edge_numeric_failure_leaves_table_unchanged() {
    let mut t = Table::new();
    t.set_numeric(true);
    assert_eq!(t.ingest_edge("0", "1"), Ok(true));
    assert!(t.ingest_edge("0", "x").is_err());
    assert!(t.ingest_edge("y", "1").is_err());
    assert!(t.ingest_edge(&usize::MAX.to_string(), "0").is_err());
    assert_eq!(t.get_num_rows(), 2);
    assert_eq!(t.get_rows()[1], vec![0]);
    assert_eq!(t.get_num_outgoing()[0], 1);
}
