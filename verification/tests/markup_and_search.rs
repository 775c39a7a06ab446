//! XML helper behaviour, the data-source contract, and the HNSW index:
//! search, insertion, trimming, and the entry-point life cycle.

use chutoro::hnsw::search;
use chutoro::hnsw::{Graph, NodeContext};
use chutoro::{
    expect_markup, expect_validated_state, first_forbidden_xml_char, serialize_document_title,
    CpuHnsw, DataSource, DataSourceError, Distance, DocumentTitleError, HnswError, HnswParams,
    TeiError,
};

fn finite(value: f32) -> Distance {
    Distance {
        key: u64::from(value.to_bits()),
        finite: value.is_finite(),
    }
}

#[test]
fn detects_forbidden_characters() {
    assert!(first_forbidden_xml_char("Valid").is_none());
    assert_eq!(first_forbidden_xml_char("\u{0}broken"), Some('\u{0}'));
}

#[test]
fn escapes_xml_text() {
    assert_eq!(chutoro::escape_xml_text("Plain"), "Plain");
    assert_eq!(chutoro::escape_xml_text("Fish & Chips"), "Fish &amp; Chips");
    assert_eq!(chutoro::escape_xml_text("5 < 7"), "5 &lt; 7");
    assert_eq!(chutoro::escape_xml_text("7 > 5"), "7 &gt; 5");
    assert_eq!(chutoro::escape_xml_text("\"Quote\""), "&quot;Quote&quot;");
    assert_eq!(chutoro::escape_xml_text("'Single'"), "&apos;Single&apos;");
}

#[test]
fn serializes_titles() {
    let markup = expect_markup(serialize_document_title("Limetown"));
    assert_eq!(markup, "<title>Limetown</title>");
    let markup = expect_markup(serialize_document_title("  Wooden Overcoats  "));
    assert_eq!(markup, "<title>Wooden Overcoats</title>");
    let markup = expect_markup(serialize_document_title("R&D <Test>"));
    assert_eq!(markup, "<title>R&amp;D &lt;Test&gt;</title>");
}

#[test]
fn rejects_empty_titles_when_serialising() {
    for input in ["", "   "] {
        match serialize_document_title(input) {
            Err(TeiError::DocumentTitle(DocumentTitleError::Empty)) => {}
            other => panic!("expected empty-title error, found {other:?}"),
        }
    }
}

#[test]
fn validated_state_helper_returns_value() {
    let state = expect_validated_state(Ok::<i32, DataSourceError>(42), "demo");
    assert_eq!(state, 42);
}

#[derive(Debug, Default)]
struct IdentitySource;

impl DataSource for IdentitySource {
    fn distance(&self, query: usize, candidate: usize) -> Result<Distance, DataSourceError> {
        if candidate >= 8 {
            return Err(DataSourceError::OutOfBounds { index: candidate });
        }
        let difference = query.abs_diff(candidate) as f32;
        Ok(finite(difference))
    }
}

#[test]
fn batch_distances_matches_pointwise() {
    let source = IdentitySource;
    let cases: [(usize, &[usize], &[f32]); 2] = [
        (0, &[1, 2, 3], &[1.0, 2.0, 3.0]),
        (3, &[0, 6], &[3.0, 3.0]),
    ];
    for (query, candidates, expected) in cases {
        let distances = match source.batch_distances(query, candidates) {
            Ok(distances) => distances,
            Err(err) => panic!("batch_distances failed: {err:?}"),
        };
        let expected: Vec<Distance> = expected.iter().map(|v| finite(*v)).collect();
        assert_eq!(distances, expected);
    }
}

#[test]
fn batch_distances_returns_first_error() {
    let source = IdentitySource;
    let result = source.batch_distances(0, &[1, 8, 2]);
    assert_eq!(result, Err(DataSourceError::OutOfBounds { index: 8 }));
}

#[derive(Debug)]
struct LineSource {
    values: Vec<f32>,
}

impl LineSource {
    fn point(&self, index: usize) -> Result<f32, DataSourceError> {
        self.values
            .get(index)
            .copied()
            .ok_or(DataSourceError::OutOfBounds { index })
    }
}

impl DataSource for LineSource {
    fn distance(&self, query: usize, candidate: usize) -> Result<Distance, DataSourceError> {
        let query = self.point(query)?;
        let candidate = self.point(candidate)?;
        Ok(finite((query - candidate).abs()))
    }
}

struct BadSource;

impl DataSource for BadSource {
    fn distance(&self, _: usize, _: usize) -> Result<Distance, DataSourceError> {
        Ok(finite(f32::NAN))
    }
}

#[test]
fn search_returns_empty_for_empty_index() {
    let params = HnswParams::new(2, 2, 2);
    let source = LineSource {
        values: vec![0.0, 0.2, 0.4, 0.6, 0.8],
    };
    let index = CpuHnsw::new(params, source.values.len(), 13);
    let results = index.search(0, 3, &source).expect("search must succeed");
    assert!(results.is_empty());
    assert!(index.is_empty());

    let graph = Graph::new(params, 5);
    let graph_results =
        search::search(&graph, 0, 3, &params, &source).expect("search must succeed");
    assert!(graph_results.is_empty());
}

#[test]
fn search_finds_the_only_node() {
    let params = HnswParams::new(2, 2, 2);
    let mut graph = Graph::new(params, 5);
    graph
        .insert_first(NodeContext { node: 0, level: 1 })
        .expect("first insertion must succeed");
    let source = LineSource {
        values: vec![0.0, 0.2, 0.4, 0.6, 0.8],
    };
    let results = search::search(&graph, 1, 3, &params, &source).expect("search must succeed");
    assert_eq!(results.len(), 1);
    assert_eq!(results[0].id, 0);
    assert_eq!(results[0].distance, finite(0.2));
}

#[test]
fn validate_distance_rejects_non_finite() {
    let result = search::validate_distance(&BadSource, 0, 0);
    assert!(matches!(
        result,
        Err(HnswError::InvalidParameters { reason }) if reason.contains("non-finite")
    ));
}

#[test]
fn search_rejects_non_finite_distances() {
    let params = HnswParams::new(2, 2, 2);
    let mut graph = Graph::new(params, 2);
    graph
        .insert_first(NodeContext { node: 0, level: 0 })
        .expect("first insertion must succeed");
    let result = search::search(&graph, 1, 1, &params, &BadSource);
    assert!(matches!(
        result,
        Err(HnswError::InvalidParameters { reason }) if reason.contains("non-finite")
    ));
}

#[test]
fn attach_node_rejects_large_level() {
    let params = HnswParams::new(2, 2, 2);
    let mut graph = Graph::new(params, 4);
    let err = graph.attach_node(0, params.max_level() + 1).unwrap_err();
    assert!(matches!(err, HnswError::InvalidParameters { .. }));
}

#[test]
fn duplicate_attachment_fails_and_leaves_graph_unchanged() {
    let params = HnswParams::new(2, 2, 2);
    let mut graph = Graph::new(params, 4);
    graph
        .insert_first(NodeContext { node: 0, level: 1 })
        .expect("first insertion must succeed");
    let entry_before = graph.entry();
    let len_before = graph.len();

    let err = graph.attach_node(0, 0).unwrap_err();
    assert!(matches!(err, HnswError::DuplicateNode { node: 0 }));
    assert_eq!(graph.entry(), entry_before);
    assert_eq!(graph.len(), len_before);
    let node = graph.node(0).expect("node must exist");
    assert_eq!(node.neighbours(0), &[] as &[usize]);
    assert_eq!(node.neighbours(1), &[] as &[usize]);
}

#[test]
fn first_insertion_sets_the_entry_point() {
    let params = HnswParams::new(3, 2, 2);
    let mut graph = Graph::new(params, 2);
    graph
        .insert_first(NodeContext { node: 1, level: 2 })
        .expect("first insertion must succeed");
    let entry = graph.entry().expect("entry point must exist");
    assert_eq!(entry.node, 1);
    assert_eq!(entry.level, 2);
    let repeated = graph.insert_first(NodeContext { node: 0, level: 0 });
    assert!(matches!(repeated, Err(HnswError::InvalidParameters { .. })));
    assert_eq!(graph.entry().expect("entry kept").level, 2);
}

#[test]
fn builds_and_searches_a_line() {
    let params = HnswParams::new(2, 2, 2);
    let source = LineSource {
        values: vec![0.0, 0.2, 0.4, 0.6, 0.8],
    };
    let mut graph = Graph::new(params, 5);
    graph
        .insert_first(NodeContext { node: 0, level: 1 })
        .expect("first insertion must succeed");
    for node in 1..5usize {
        let level = if node % 2 == 0 { 1 } else { 0 };
        graph
            .insert_node(NodeContext { node, level }, &params, &source)
            .expect("insertion must succeed");
    }

    let results = search::search(&graph, 0, 3, &params, &source).expect("search must succeed");
    assert_eq!(results.first().map(|n| n.id), Some(0));
    assert!(results.len() >= 2);
    assert_eq!(results[1].id, 1);

    // degree bound and no self-loops at every layer
    for node in 0..5usize {
        let stored = graph.node(node).expect("node must exist");
        for level in 0..3usize {
            let list = stored.neighbours(level);
            assert!(list.len() <= params.max_connections());
            assert!(!list.contains(&node));
        }
    }
}

#[test]
fn builds_and_searches() {
    for (m, ef) in [(2usize, 2usize), (2, 1)] {
        let params = HnswParams::new(2, m, ef);
        let source = LineSource {
            values: vec![0.0, 0.2, 0.4, 0.6, 0.8],
        };
        let index = CpuHnsw::new(params, source.values.len(), 7);

        for node in 0..source.values.len() {
            index.insert(node, &source).expect("insertion must succeed");
        }
        assert_eq!(index.len(), source.values.len());

        let results = index.search(0, 3, &source).expect("search must succeed");
        assert_eq!(results.first().map(|n| n.id), Some(0));
        if ef == 1 {
            assert_eq!(results.len(), 1);
        } else {
            assert!(results.len() >= 2);
            assert_eq!(results[1].id, 1);
        }
    }
}

#[test]
fn duplicate_insertion_fails() {
    let params = HnswParams::new(2, 2, 2);
    let source = LineSource {
        values: vec![0.0, 0.2, 0.4, 0.6, 0.8],
    };
    let index = CpuHnsw::new(params, source.values.len(), 11);
    index.insert(0, &source).expect("first insertion must succeed");
    let len_before = index.len();
    let err = index.insert(0, &source).unwrap_err();
    assert!(matches!(err, HnswError::DuplicateNode { .. }));
    assert_eq!(index.len(), len_before);
}

#[test]
fn graph_duplicate_insertion_leaves_state_unchanged() {
    let params = HnswParams::new(2, 2, 2);
    let source = LineSource {
        values: vec![0.0, 0.2],
    };
    let mut graph = Graph::new(params, 2);
    graph
        .insert_first(NodeContext { node: 0, level: 0 })
        .expect("first insertion must succeed");
    graph
        .insert_node(NodeContext { node: 1, level: 0 }, &params, &source)
        .expect("second insertion must succeed");
    let entry_before = graph.entry();
    let len_before = graph.len();

    let err = graph
        .insert_node(NodeContext { node: 1, level: 0 }, &params, &source)
        .unwrap_err();
    assert!(matches!(err, HnswError::DuplicateNode { node: 1 }));
    assert_eq!(graph.entry(), entry_before);
    assert_eq!(graph.len(), len_before);
}

#[test]
fn entry_point_is_promoted_never_demoted() {
    let params = HnswParams::new(3, 2, 2);
    let source = LineSource {
        values: vec![0.0, 0.2, 0.4],
    };
    let mut graph = Graph::new(params, 3);
    graph
        .insert_first(NodeContext { node: 0, level: 0 })
        .expect("first insertion must succeed");
    assert_eq!(graph.entry().expect("entry").level, 0);

    graph
        .insert_node(NodeContext { node: 1, level: 2 }, &params, &source)
        .expect("insertion must succeed");
    let promoted = graph.entry().expect("entry");
    assert_eq!(promoted.node, 1);
    assert_eq!(promoted.level, 2);

    graph
        .insert_node(NodeContext { node: 2, level: 1 }, &params, &source)
        .expect("insertion must succeed");
    let kept = graph.entry().expect("entry");
    assert_eq!(kept.node, 1);
    assert_eq!(kept.level, 2);
}

#[test]
fn new_node_links_to_all_nearer_nodes_up_to_budget() {
    let params = HnswParams::new(2, 2, 2);
    let source = LineSource {
        values: vec![0.0, 0.2, 0.4, 0.6],
    };
    let mut graph = Graph::new(params, 4);
    graph
        .insert_first(NodeContext { node: 0, level: 0 })
        .expect("first insertion must succeed");

    // one other node stored: the new node links exactly to it
    graph
        .insert_node(NodeContext { node: 1, level: 0 }, &params, &source)
        .expect("second insertion must succeed");
    let one = graph.node(1).expect("node must exist");
    assert_eq!(one.neighbours(0), &[0][..]);

    // two others stored, budget two: exactly two neighbours at every
    // covered layer, nearest first
    graph
        .insert_node(NodeContext { node: 2, level: 1 }, &params, &source)
        .expect("third insertion must succeed");
    let two = graph.node(2).expect("node must exist");
    assert_eq!(two.neighbours(0), &[1, 0][..]);
    assert_eq!(two.neighbours(1), &[1, 0][..]);

    // three others stored, budget two: trimmed to the budget
    graph
        .insert_node(NodeContext { node: 3, level: 0 }, &params, &source)
        .expect("fourth insertion must succeed");
    let three = graph.node(3).expect("node must exist");
    assert_eq!(three.neighbours(0).len(), 2);
}

#[test]
fn reverse_edges_are_attempted_but_trimmed_to_budget() {
    let params = HnswParams::new(1, 1, 2);
    let source = LineSource {
        values: vec![0.0, 0.2, 0.25],
    };
    let mut graph = Graph::new(params, 3);
    graph
        .insert_first(NodeContext { node: 0, level: 0 })
        .expect("first insertion must succeed");
    graph
        .insert_node(NodeContext { node: 1, level: 0 }, &params, &source)
        .expect("second insertion must succeed");
    // the reverse edge was attempted and, with room in the budget, retained
    let zero = graph.node(0).expect("node must exist");
    assert_eq!(zero.neighbours(0), &[1][..]);

    graph
        .insert_node(NodeContext { node: 2, level: 0 }, &params, &source)
        .expect("third insertion must succeed");
    // node 1 attracted a second reverse edge; the trim kept only the budget
    let one = graph.node(1).expect("node must exist");
    assert!(one.neighbours(0).len() <= params.max_connections());
    for node in 0..3usize {
        let stored = graph.node(node).expect("node must exist");
        assert!(!stored.neighbours(0).contains(&node));
    }
}
