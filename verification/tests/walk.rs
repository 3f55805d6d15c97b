use kith::layout::ChartMode;
use kith::output::PersonNode;
use kith::walk::{relative_graph_text, NodeRef, RelEdge, RelativeGraph, UnionNode};

fn node(n: u64, name: &str, birth: Option<i32>, death: Option<i32>, focal: bool) -> PersonNode {
    PersonNode { node: NodeRef(n), focal, display_name: name.to_owned(), birth_year: birth, death_year: death }
}

fn family(mode: ChartMode, focus: u64) -> RelativeGraph {
    RelativeGraph {
        mode,
        persons: vec![
            node(1, "Anna", Some(1850), Some(1915), focus == 1),
            node(2, "Bob", None, None, focus == 2),
            node(3, "Cara", Some(1880), None, focus == 3),
        ],
        unions: vec![UnionNode { node: NodeRef(10), partners: vec![NodeRef(1), NodeRef(2)] }],
        edges: vec![
            RelEdge::Partner { person: NodeRef(1), union: NodeRef(10) },
            RelEdge::Partner { person: NodeRef(2), union: NodeRef(10) },
            RelEdge::Descent { union: NodeRef(10), child: NodeRef(3) },
        ],
    }
}

#[test]
fn descendants_show_the_spouse_and_the_children_below() {
    let text = relative_graph_text(&family(ChartMode::Descendants, 1));
    assert_eq!(text, "Anna (1850\u{2013}1915)\n  + Bob\n    Cara (1880\u{2013})\n");
}

#[test]
fn ancestors_show_both_parents_one_level_in() {
    let text = relative_graph_text(&family(ChartMode::Ancestors, 3));
    assert_eq!(text, "Cara (1880\u{2013})\n  Anna (1850\u{2013}1915)\n  Bob\n");
}

#[test]
fn a_graph_without_a_focal_person_is_empty() {
    assert_eq!(relative_graph_text(&family(ChartMode::Descendants, 0)), "(empty)\n");
}

#[test]
fn a_cyclic_graph_stops_after_as_many_levels_as_persons() {
    let g = RelativeGraph {
        mode: ChartMode::Ancestors,
        persons: vec![node(1, "X", None, None, true)],
        unions: vec![UnionNode { node: NodeRef(10), partners: vec![NodeRef(1)] }],
        edges: vec![RelEdge::Descent { union: NodeRef(10), child: NodeRef(1) }],
    };
    assert_eq!(relative_graph_text(&g), "X\n  X\n");
}
